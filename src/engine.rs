use vstd::prelude::*;

use crate::error::TileError;
use crate::geometry::{ClientId, Region};
use crate::layout::{
    dwindle, dwindle_regions, main_plus_side, main_plus_side_regions, placement, result_view, Ratio,
};
use crate::registry::{keys_unique, lemma_lookup_last_unique, lookup, lookup_last, upsert_all, RegionMap};

verus! {

/// The tiling policy of a layout pass.
#[derive(Clone, Copy, Debug, PartialEq, Eq, Structural)]
pub enum LayoutKind {
    MainPlusSide,
    Dwindle,
}

pub open spec fn layout_regions(
    kind: LayoutKind,
    n: nat,
    monitor: Region,
    in_main: u32,
    ratio: Ratio,
) -> Option<Seq<Region>> {
    match kind {
        LayoutKind::MainPlusSide => main_plus_side_regions(n, monitor, in_main, ratio),
        LayoutKind::Dwindle => dwindle_regions(n, monitor),
    }
}

/// Places `clients` on `monitor` with the chosen policy. Dwindle does not
/// use `in_main` and `ratio`.
pub fn layout(
    kind: LayoutKind,
    clients: &Vec<ClientId>,
    monitor: &Region,
    in_main: u32,
    ratio: Ratio,
) -> (r: Result<Vec<(ClientId, Region)>, TileError>)
    requires
        monitor.wf(),
    ensures
        result_view(r) == placement(
            clients@,
            layout_regions(kind, clients@.len(), *monitor, in_main, ratio),
        ),
{
    match kind {
        LayoutKind::MainPlusSide => main_plus_side(clients, monitor, in_main, ratio),
        LayoutKind::Dwindle => dwindle(clients, monitor),
    }
}

/// A layout pass that records its placement in `registry`. On failure the
/// registry is left as it was; with no clients nothing is written. After a
/// pass over distinct clients each of them is registered with the region it
/// was given.
pub fn layout_into(
    registry: &mut RegionMap,
    kind: LayoutKind,
    clients: &Vec<ClientId>,
    monitor: &Region,
    in_main: u32,
    ratio: Ratio,
) -> (r: Result<Vec<(ClientId, Region)>, TileError>)
    requires
        monitor.wf(),
    ensures
        result_view(r) == placement(
            clients@,
            layout_regions(kind, clients@.len(), *monitor, in_main, ratio),
        ),
        match r {
            Ok(placed) => final(registry)@ == upsert_all(old(registry)@, placed@),
            Err(_) => final(registry)@ == old(registry)@,
        },
        clients@.len() == 0 ==> final(registry)@ == old(registry)@,
        r matches Ok(placed) ==> (keys_unique(placed@) ==> forall|i: int|
            0 <= i < placed@.len() ==> lookup(final(registry)@, #[trigger] placed@[i].0) == Some(
                placed@[i].1,
            )),
{
    let r = layout(kind, clients, monitor, in_main, ratio);
    match &r {
        Ok(placed) => {
            registry.replace_all(placed);
            proof {
                if keys_unique(placed@) {
                    assert forall|i: int| 0 <= i < placed@.len() implies lookup(
                        registry@,
                        #[trigger] placed@[i].0,
                    ) == Some(placed@[i].1) by {
                        lemma_lookup_last_unique(placed@, i);
                        assert(lookup_last(placed@, placed@[i].0) == Some(placed@[i].1));
                        assert(lookup(registry@, placed@[i].0) == Some(placed@[i].1));
                    }
                }
                if clients@.len() == 0 {
                    assert(placed@.len() == 0);
                }
            }
        },
        Err(_) => {},
    }
    r
}

} // verus!
