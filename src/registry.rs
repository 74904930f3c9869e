use vstd::prelude::*;

use crate::geometry::{ClientId, Region};

verus! {

/// No client appears twice.
pub open spec fn keys_unique(s: Seq<(ClientId, Region)>) -> bool {
    forall|i: int, j: int| 0 <= i < s.len() && 0 <= j < s.len() && i != j ==> s[i].0 != s[j].0
}

pub open spec fn has_key(s: Seq<(ClientId, Region)>, id: ClientId) -> bool {
    exists|i: int| 0 <= i < s.len() && s[i].0 == id
}

/// Position of the entry of `id`; meaningful where `has_key(s, id)`.
pub open spec fn key_index(s: Seq<(ClientId, Region)>, id: ClientId) -> int {
    choose|i: int| 0 <= i < s.len() && s[i].0 == id
}

/// The region registered for `id`, if any.
pub open spec fn lookup(s: Seq<(ClientId, Region)>, id: ClientId) -> Option<Region> {
    if has_key(s, id) {
        Some(s[key_index(s, id)].1)
    } else {
        None
    }
}

/// `s` with `e` installed: the entry of the same client is overwritten in
/// place, or `e` is appended.
pub open spec fn upsert(s: Seq<(ClientId, Region)>, e: (ClientId, Region)) -> Seq<
    (ClientId, Region),
> {
    if has_key(s, e.0) {
        s.update(key_index(s, e.0), e)
    } else {
        s.push(e)
    }
}

/// `s` with each entry of `m` installed in turn.
pub open spec fn upsert_all(s: Seq<(ClientId, Region)>, m: Seq<(ClientId, Region)>) -> Seq<
    (ClientId, Region),
>
    decreases m.len(),
{
    if m.len() == 0 {
        s
    } else {
        upsert(upsert_all(s, m.drop_last()), m.last())
    }
}

/// The region that the last entry of `k` in `m` carries, if any.
pub open spec fn lookup_last(m: Seq<(ClientId, Region)>, k: ClientId) -> Option<Region>
    decreases m.len(),
{
    if m.len() == 0 {
        None
    } else if m.last().0 == k {
        Some(m.last().1)
    } else {
        lookup_last(m.drop_last(), k)
    }
}

proof fn lemma_lookup_at(s: Seq<(ClientId, Region)>, i: int)
    requires
        keys_unique(s),
        0 <= i < s.len(),
    ensures
        lookup(s, s[i].0) == Some(s[i].1),
{
    assert(has_key(s, s[i].0));
    let j = key_index(s, s[i].0);
    assert(j == i);
}

proof fn lemma_upsert_lookup(s: Seq<(ClientId, Region)>, e: (ClientId, Region), k: ClientId)
    requires
        keys_unique(s),
    ensures
        keys_unique(upsert(s, e)),
        lookup(upsert(s, e), k) == if k == e.0 {
            Some(e.1)
        } else {
            lookup(s, k)
        },
{
    let t = upsert(s, e);
    if has_key(s, e.0) {
        let i = key_index(s, e.0);
        assert forall|a: int, b: int|
            0 <= a < t.len() && 0 <= b < t.len() && a != b implies t[a].0 != t[b].0 by {
            assert(s[a].0 != s[b].0);
        }
        assert(t[i] == e);
    } else {
        assert forall|a: int, b: int|
            0 <= a < t.len() && 0 <= b < t.len() && a != b implies t[a].0 != t[b].0 by {
            if a < s.len() && b < s.len() {
                assert(s[a].0 != s[b].0);
            } else if a < s.len() {
                assert(!(0 <= a < s.len() && s[a].0 == e.0));
            } else {
                assert(!(0 <= b < s.len() && s[b].0 == e.0));
            }
        }
        assert(t[s.len() as int] == e);
    }
    if k == e.0 {
        let i = if has_key(s, e.0) {
            key_index(s, e.0)
        } else {
            s.len() as int
        };
        lemma_lookup_at(t, i);
    } else if has_key(s, k) {
        let i = key_index(s, k);
        assert(t[i] == s[i]);
        lemma_lookup_at(t, i);
    } else {
        assert forall|i: int| 0 <= i < t.len() implies t[i].0 != k by {
            if i < s.len() && t[i] == s[i] {
                assert(!(0 <= i < s.len() && s[i].0 == k));
            }
        }
    }
}

/// In entries with distinct clients, the last entry of a client is its only one.
pub proof fn lemma_lookup_last_unique(m: Seq<(ClientId, Region)>, i: int)
    requires
        keys_unique(m),
        0 <= i < m.len(),
    ensures
        lookup_last(m, m[i].0) == Some(m[i].1),
    decreases m.len(),
{
    if i < m.len() - 1 {
        assert(m.last().0 != m[i].0);
        assert(m.drop_last()[i] == m[i]);
        lemma_lookup_last_unique(m.drop_last(), i);
    }
}

/// After installing `m` over `s`, each client's region is the last one
/// that `m` gives it, or the one it had in `s` where `m` gives none; no
/// client appears twice.
pub proof fn lemma_upsert_all_lookup(s: Seq<(ClientId, Region)>, m: Seq<(ClientId, Region)>, k: ClientId)
    requires
        keys_unique(s),
    ensures
        keys_unique(upsert_all(s, m)),
        lookup(upsert_all(s, m), k) == match lookup_last(m, k) {
            Some(r) => Some(r),
            None => lookup(s, k),
        },
    decreases m.len(),
{
    if m.len() > 0 {
        lemma_upsert_all_lookup(s, m.drop_last(), k);
        lemma_upsert_lookup(upsert_all(s, m.drop_last()), m.last(), k);
    }
}

/// The last known region of each client, in the order in which the clients
/// were first registered. The entries are kept in a `Vec` rather than a hash
/// map so that this order is fixed: navigation breaks ties by it, and a hash
/// map's walking order would make the choice vary between processes.
#[derive(Debug)]
pub struct RegionMap {
    entries: Vec<(ClientId, Region)>,
}

impl View for RegionMap {
    type V = Seq<(ClientId, Region)>;

    closed spec fn view(&self) -> Seq<(ClientId, Region)> {
        self.entries@
    }
}

impl RegionMap {
    #[verifier::type_invariant]
    spec fn inv(&self) -> bool {
        keys_unique(self.entries@)
    }

    pub fn new() -> (r: RegionMap)
        ensures
            r@ == Seq::<(ClientId, Region)>::empty(),
    {
        RegionMap { entries: Vec::new() }
    }

    fn position(&self, id: ClientId) -> (r: Option<usize>)
        ensures
            keys_unique(self@),
            match r {
                Some(i) => i < self@.len() && self@[i as int].0 == id && key_index(self@, id) == i,
                None => !has_key(self@, id),
            },
    {
        proof {
            use_type_invariant(self);
        }
        let mut i: usize = 0;
        while i < self.entries.len()
            invariant
                0 <= i <= self.entries@.len(),
                forall|j: int| 0 <= j < i ==> self.entries@[j].0 != id,
                keys_unique(self@),
            decreases self.entries@.len() - i,
        {
            if self.entries[i].0 == id {
                assert(has_key(self@, id));
                proof {
                    let j = key_index(self@, id);
                    assert(self@[j].0 == id);
                    assert(self@[i as int].0 == id);
                    assert(j == i);
                }
                return Some(i);
            }
            i = i + 1;
        }
        None
    }

    /// The region registered for `id`.
    pub fn get(&self, id: ClientId) -> (r: Option<Region>)
        ensures
            r == lookup(self@, id),
    {
        match self.position(id) {
            Some(i) => Some(self.entries[i].1),
            None => None,
        }
    }

    /// A copy of all entries, for a scan that does not hold the registry.
    /// No client appears twice in it.
    pub fn snapshot(&self) -> (r: Vec<(ClientId, Region)>)
        ensures
            r@ == self@,
            keys_unique(self@),
    {
        proof {
            use_type_invariant(self);
        }
        let mut out: Vec<(ClientId, Region)> = Vec::new();
        let mut i: usize = 0;
        while i < self.entries.len()
            invariant
                0 <= i <= self.entries@.len(),
                out@ == self.entries@.take(i as int),
            decreases self.entries@.len() - i,
        {
            out.push(self.entries[i]);
            assert(self.entries@.take(i + 1) =~= self.entries@.take(i as int).push(
                self.entries@[i as int],
            ));
            i = i + 1;
        }
        assert(self.entries@.take(i as int) =~= self.entries@);
        out
    }

    /// Installs one entry.
    pub fn insert(&mut self, id: ClientId, region: Region)
        ensures
            final(self)@ == upsert(old(self)@, (id, region)),
    {
        let found = self.position(id);
        let mut entries: Vec<(ClientId, Region)> = Vec::new();
        std::mem::swap(&mut entries, &mut self.entries);
        match found {
            Some(i) => {
                entries.set(i, (id, region));
                assert forall|a: int, b: int|
                    0 <= a < entries@.len() && 0 <= b < entries@.len() && a != b implies entries@[a].0
                    != entries@[b].0 by {
                    assert(old(self)@[a].0 != old(self)@[b].0);
                }
            },
            None => {
                entries.push((id, region));
                assert forall|a: int, b: int|
                    0 <= a < entries@.len() && 0 <= b < entries@.len() && a != b implies entries@[a].0
                    != entries@[b].0 by {
                    if a < old(self)@.len() && b < old(self)@.len() {
                        assert(old(self)@[a].0 != old(self)@[b].0);
                    } else if a < old(self)@.len() {
                        assert(!(0 <= a < old(self)@.len() && old(self)@[a].0 == id));
                    } else {
                        assert(!(0 <= b < old(self)@.len() && old(self)@[b].0 == id));
                    }
                }
            },
        }
        self.entries = entries;
    }

    /// Installs every entry of `mapping`, in order. Entries of clients that
    /// `mapping` leaves out are kept.
    pub fn replace_all(&mut self, mapping: &Vec<(ClientId, Region)>)
        ensures
            final(self)@ == upsert_all(old(self)@, mapping@),
            keys_unique(final(self)@),
            forall|k: ClientId|
                #[trigger] lookup(final(self)@, k) == match lookup_last(mapping@, k) {
                    Some(r) => Some(r),
                    None => lookup(old(self)@, k),
                },
    {
        proof {
            use_type_invariant(&*self);
        }
        assert(keys_unique(old(self)@));
        let mut i: usize = 0;
        while i < mapping.len()
            invariant
                0 <= i <= mapping@.len(),
                self@ == upsert_all(old(self)@, mapping@.take(i as int)),
                keys_unique(old(self)@),
            decreases mapping@.len() - i,
        {
            let (id, region) = mapping[i];
            self.insert(id, region);
            assert(mapping@.take(i + 1).drop_last() =~= mapping@.take(i as int));
            i = i + 1;
        }
        assert(mapping@.take(i as int) =~= mapping@);
        proof {
            use_type_invariant(&*self);
            assert forall|k: ClientId|
                #[trigger] lookup(self@, k) == match lookup_last(mapping@, k) {
                    Some(r) => Some(r),
                    None => lookup(old(self)@, k),
                } by {
                lemma_upsert_all_lookup(old(self)@, mapping@, k);
            }
        }
    }

    /// Drops the entry of `id`, if there is one.
    pub fn remove(&mut self, id: ClientId)
        ensures
            has_key(old(self)@, id) ==> final(self)@ == old(self)@.remove(key_index(old(self)@, id)),
            !has_key(old(self)@, id) ==> final(self)@ == old(self)@,
    {
        let found = self.position(id);
        match found {
            Some(i) => {
                let mut entries: Vec<(ClientId, Region)> = Vec::new();
                std::mem::swap(&mut entries, &mut self.entries);
                entries.remove(i);
                assert forall|a: int, b: int|
                    0 <= a < entries@.len() && 0 <= b < entries@.len() && a != b implies entries@[a].0
                    != entries@[b].0 by {
                    let oa = if a < i { a } else { a + 1 };
                    let ob = if b < i { b } else { b + 1 };
                    assert(old(self)@[oa].0 != old(self)@[ob].0);
                }
                self.entries = entries;
            },
            None => {},
        }
    }
}

} // verus!
