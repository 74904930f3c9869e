use vstd::prelude::*;

use crate::engine::{layout, layout_regions, LayoutKind};
use crate::error::TileError;
use crate::geometry::{ClientId, Region};
use crate::layout::{placement, result_view, Ratio};
use crate::navigator::{navigate, navigation, SwitchDirection};
use crate::registry::{keys_unique, RegionMap};

verus! {

#[verifier::external_type_specification]
#[verifier::external_body]
#[verifier::reject_recursive_types(T)]
pub struct ExRwLock<T: ?Sized>(std::sync::RwLock<T>);

/// Relies on `RwLock::new`: a lock that holds `entries`.
#[verifier::external_body]
fn new_lock(entries: Vec<(ClientId, Region)>) -> std::sync::RwLock<Vec<(ClientId, Region)>> {
    std::sync::RwLock::new(entries)
}

/// Relies on `RwLock::read`, which fails once a writer panicked while
/// holding the lock, and on `Vec::clone` for the copy. What the copy holds
/// depends on the writers, so nothing is stated of it.
#[verifier::external_body]
fn read_entries(lock: &std::sync::RwLock<Vec<(ClientId, Region)>>) -> (r: Result<
    Vec<(ClientId, Region)>,
    TileError,
>)
    ensures
        r matches Err(e) ==> e == TileError::RegistryUnavailable,
{
    match lock.read() {
        Ok(guard) => Ok(guard.clone()),
        Err(_) => Err(TileError::RegistryUnavailable),
    }
}

/// Relies on `RwLock::write`, which fails once a writer panicked while
/// holding the lock; otherwise `entries` replaces what the lock holds.
#[verifier::external_body]
fn write_entries(lock: &std::sync::RwLock<Vec<(ClientId, Region)>>, entries: Vec<(ClientId, Region)>) -> (r:
    Result<(), TileError>)
    ensures
        r matches Err(e) ==> e == TileError::RegistryUnavailable,
{
    match lock.write() {
        Ok(mut guard) => {
            *guard = entries;
            Ok(())
        },
        Err(_) => Err(TileError::RegistryUnavailable),
    }
}

/// The region registry shared between the layout pass, its one writer, and
/// the navigation commands, its readers. Readers work on a snapshot and do
/// not hold the lock while they scan it. Callers must keep to one writer at a
/// time (see `replace_all`).
pub struct RegionRegistry {
    lock: std::sync::RwLock<Vec<(ClientId, Region)>>,
}

impl RegionRegistry {
    pub fn new() -> (r: RegionRegistry) {
        RegionRegistry { lock: new_lock(Vec::new()) }
    }

    /// A point-in-time copy of the registry.
    pub fn snapshot(&self) -> (r: Result<RegionMap, TileError>)
        ensures
            r is Err ==> r == Err::<RegionMap, TileError>(TileError::RegistryUnavailable),
            r matches Ok(map) ==> keys_unique(map@),
    {
        let entries = read_entries(&self.lock)?;
        let mut map = RegionMap::new();
        map.replace_all(&entries);
        Ok(map)
    }

    /// The region registered for `id`.
    pub fn get(&self, id: ClientId) -> (r: Result<Option<Region>, TileError>)
        ensures
            r is Err ==> r == Err::<Option<Region>, TileError>(TileError::RegistryUnavailable),
    {
        let map = self.snapshot()?;
        Ok(map.get(id))
    }

    /// Installs every entry of `mapping`, keeping the entries of other clients.
    ///
    /// The merge happens on a copy: the entries are read under one
    /// acquisition of the lock and written back under another. Readers see
    /// either the old or the new mapping, never a mix, but the install is
    /// atomic only while there is one writer at a time, the layout pass; two
    /// concurrent writers could lose an update.
    pub fn replace_all(&self, mapping: &Vec<(ClientId, Region)>) -> (r: Result<(), TileError>)
        ensures
            r is Err ==> r == Err::<(), TileError>(TileError::RegistryUnavailable),
    {
        let mut map = self.snapshot()?;
        map.replace_all(mapping);
        write_entries(&self.lock, map.snapshot())
    }

    /// A layout pass that publishes its placement. A pass that fails
    /// publishes nothing, and neither does one with no clients.
    pub fn apply_layout(
        &self,
        kind: LayoutKind,
        clients: &Vec<ClientId>,
        monitor: &Region,
        in_main: u32,
        ratio: Ratio,
    ) -> (r: Result<Vec<(ClientId, Region)>, TileError>)
        requires
            monitor.wf(),
        ensures
            clients@.len() == 0 ==> result_view(r) == placement(
                clients@,
                layout_regions(kind, 0, *monitor, in_main, ratio),
            ),
            ({
                let expected = placement(
                    clients@,
                    layout_regions(kind, clients@.len(), *monitor, in_main, ratio),
                );
                ||| result_view(r) == expected
                ||| (expected is Ok && r == Err::<Vec<(ClientId, Region)>, TileError>(
                    TileError::RegistryUnavailable,
                ))
            }),
    {
        let placed = layout(kind, clients, monitor, in_main, ratio)?;
        if placed.len() > 0 {
            self.replace_all(&placed)?;
        }
        Ok(placed)
    }

    /// The client to focus from `focused` in `direction`, judged on a
    /// snapshot of the registry.
    pub fn navigate(&self, focused: ClientId, direction: SwitchDirection) -> (r: Result<
        Option<ClientId>,
        TileError,
    >)
        ensures
            r == Err::<Option<ClientId>, TileError>(TileError::RegistryUnavailable) || exists|
                s: Seq<(ClientId, Region)>,
            | keys_unique(s) && r == navigation(s, focused, direction),
    {
        let map = self.snapshot()?;
        let r = navigate(&map, focused, direction);
        proof {
            let s = map@;
            assert(keys_unique(s) && r == navigation(s, focused, direction));
        }
        r
    }
}

} // verus!
