use vstd::prelude::*;

use crate::error::TileError;
use crate::geometry::{ClientId, Region};
use crate::registry::{lookup, RegionMap};

verus! {

/// A physical direction in which to move the focus.
#[derive(Clone, Copy, Debug, PartialEq, Eq, Structural)]
pub enum SwitchDirection {
    Up,
    Down,
    Left,
    Right,
}

/// Whether a client centered at `c` lies in direction `d` of the focused
/// center `f`: strictly to the right, to the left, below or above.
pub open spec fn qualifies(d: SwitchDirection, f: (int, int), c: (int, int)) -> bool {
    match d {
        SwitchDirection::Right => c.0 > f.0,
        SwitchDirection::Left => c.0 < f.0,
        SwitchDirection::Down => c.1 > f.1,
        SwitchDirection::Up => c.1 < f.1,
    }
}

pub open spec fn square_distance(f: (int, int), c: (int, int)) -> int {
    (c.0 - f.0) * (c.0 - f.0) + (c.1 - f.1) * (c.1 - f.1)
}

/// The key that a candidate maximizes, compared first on its first part.
/// Right, left and down take the candidate that lies farthest in that
/// direction. Up takes a candidate of the same column first, and among
/// those of the same kind the nearest one.
pub open spec fn rank(d: SwitchDirection, f: (int, int), c: (int, int)) -> (int, int) {
    match d {
        SwitchDirection::Right => (0, c.0 - f.0),
        SwitchDirection::Left => (0, f.0 - c.0),
        SwitchDirection::Down => (0, c.1 - f.1),
        SwitchDirection::Up => (
            if c.0 == f.0 {
                1
            } else {
                0
            },
            -square_distance(f, c),
        ),
    }
}

/// A candidate at `a` is strictly better than one at `b`.
pub open spec fn beats(d: SwitchDirection, f: (int, int), a: (int, int), b: (int, int)) -> bool {
    let ra = rank(d, f, a);
    let rb = rank(d, f, b);
    ra.0 > rb.0 || (ra.0 == rb.0 && ra.1 > rb.1)
}

pub open spec fn center_at(s: Seq<(ClientId, Region)>, i: int) -> (int, int) {
    s[i].1.center()
}

/// Entry `j` of `s` is a client other than the focused one that lies in
/// direction `d` of `f`.
pub open spec fn eligible(
    s: Seq<(ClientId, Region)>,
    focused: ClientId,
    d: SwitchDirection,
    f: (int, int),
    j: int,
) -> bool {
    &&& 0 <= j < s.len()
    &&& s[j].0 != focused
    &&& qualifies(d, f, center_at(s, j))
}

/// Entry `i` is the first of the best eligible entries.
pub open spec fn is_pick(
    s: Seq<(ClientId, Region)>,
    focused: ClientId,
    d: SwitchDirection,
    f: (int, int),
    i: int,
) -> bool {
    &&& eligible(s, focused, d, f, i)
    &&& forall|j: int|
        #![trigger eligible(s, focused, d, f, j)]
        eligible(s, focused, d, f, j) ==> !beats(d, f, center_at(s, j), center_at(s, i))
    &&& forall|j: int|
        #![trigger eligible(s, focused, d, f, j)]
        eligible(s, focused, d, f, j) && j < i ==> beats(d, f, center_at(s, i), center_at(s, j))
}

/// The client to focus from `focused` in direction `d`: an error where
/// `focused` has no region, `None` where no other client lies in that
/// direction.
pub open spec fn navigation(s: Seq<(ClientId, Region)>, focused: ClientId, d: SwitchDirection) -> Result<
    Option<ClientId>,
    TileError,
> {
    match lookup(s, focused) {
        None => Err(TileError::UnknownClient),
        Some(fr) => {
            let f = fr.center();
            if exists|i: int| is_pick(s, focused, d, f, i) {
                Ok(Some(s[choose|i: int| is_pick(s, focused, d, f, i)].0))
            } else {
                Ok(None)
            }
        },
    }
}

/// At most one entry is the pick.
pub proof fn lemma_pick_unique(
    s: Seq<(ClientId, Region)>,
    focused: ClientId,
    d: SwitchDirection,
    f: (int, int),
    i: int,
    j: int,
)
    requires
        is_pick(s, focused, d, f, i),
        is_pick(s, focused, d, f, j),
    ensures
        i == j,
{
    if i < j {
        assert(eligible(s, focused, d, f, i));
    } else if j < i {
        assert(eligible(s, focused, d, f, j));
    }
}

/// When the focused client is the only one registered, every direction
/// leaves the focus where it is.
pub proof fn lemma_lone_client_stays(focused: ClientId, region: Region, d: SwitchDirection)
    ensures
        navigation(seq![(focused, region)], focused, d) == Ok::<Option<ClientId>, TileError>(None),
{
    let s = seq![(focused, region)];
    assert(s[0].0 == focused);
    assert(lookup(s, focused) is Some);
    assert forall|i: int| !is_pick(s, focused, d, region.center(), i) by {
        if 0 <= i < s.len() {
            assert(i == 0);
        }
    }
}

/// A center lies within `[0, 2^33)` on both axes.
spec fn bounded(c: (i64, i64)) -> bool {
    0 <= c.0 < 0x2_0000_0000 && 0 <= c.1 < 0x2_0000_0000
}

proof fn lemma_center_bounded(r: Region)
    ensures
        0 <= r.center().0 < 0x2_0000_0000,
        0 <= r.center().1 < 0x2_0000_0000,
{
}

spec fn as_point(c: (i64, i64)) -> (int, int) {
    (c.0 as int, c.1 as int)
}

fn square_distance_of(f: (i64, i64), c: (i64, i64)) -> (r: i128)
    requires
        bounded(f),
        bounded(c),
    ensures
        r == square_distance(as_point(f), as_point(c)),
{
    let dx = (c.0 - f.0) as i128;
    let dy = (c.1 - f.1) as i128;
    assert(dx * dx <= 0x4_0000_0000_0000_0000 && dy * dy <= 0x4_0000_0000_0000_0000 && dx * dx >= 0
        && dy * dy >= 0) by (nonlinear_arith)
        requires
            -0x2_0000_0000 <= dx <= 0x2_0000_0000,
            -0x2_0000_0000 <= dy <= 0x2_0000_0000,
    ;
    dx * dx + dy * dy
}

fn qualifies_at(d: SwitchDirection, f: (i64, i64), c: (i64, i64)) -> (r: bool)
    ensures
        r == qualifies(d, as_point(f), as_point(c)),
{
    match d {
        SwitchDirection::Right => c.0 > f.0,
        SwitchDirection::Left => c.0 < f.0,
        SwitchDirection::Down => c.1 > f.1,
        SwitchDirection::Up => c.1 < f.1,
    }
}

fn beats_at(d: SwitchDirection, f: (i64, i64), a: (i64, i64), b: (i64, i64)) -> (r: bool)
    requires
        bounded(f),
        bounded(a),
        bounded(b),
    ensures
        r == beats(d, as_point(f), as_point(a), as_point(b)),
{
    match d {
        SwitchDirection::Right => a.0 > b.0,
        SwitchDirection::Left => a.0 < b.0,
        SwitchDirection::Down => a.1 > b.1,
        SwitchDirection::Up => {
            let a_column = a.0 == f.0;
            let b_column = b.0 == f.0;
            if a_column != b_column {
                a_column
            } else {
                square_distance_of(f, a) < square_distance_of(f, b)
            }
        },
    }
}

/// The client to focus from `focused` in `direction`, judged from the
/// centers of the registered regions. Ties go to the entry registered first.
pub fn navigate(regions: &RegionMap, focused: ClientId, direction: SwitchDirection) -> (r: Result<
    Option<ClientId>,
    TileError,
>)
    ensures
        r == navigation(regions@, focused, direction),
{
    let fr = match regions.get(focused) {
        Some(fr) => fr,
        None => {
            return Err(TileError::UnknownClient);
        },
    };
    let f = fr.center_point();
    let snap = regions.snapshot();
    let ghost s = regions@;
    let ghost fp = fr.center();
    proof {
        lemma_center_bounded(fr);
    }
    let mut best: Option<usize> = None;
    let mut best_c: (i64, i64) = (0, 0);
    let mut i: usize = 0;
    while i < snap.len()
        invariant
            0 <= i <= snap@.len(),
            snap@ == s,
            as_point(f) == fp,
            bounded(f),
            match best {
                Some(b) => {
                    &&& b < i
                    &&& eligible(s, focused, direction, fp, b as int)
                    &&& as_point(best_c) == center_at(s, b as int)
                    &&& bounded(best_c)
                    &&& forall|j: int|
                        #![trigger eligible(s, focused, direction, fp, j)]
                        0 <= j < i && eligible(s, focused, direction, fp, j) ==> !beats(
                            direction,
                            fp,
                            center_at(s, j),
                            center_at(s, b as int),
                        )
                    &&& forall|j: int|
                        #![trigger eligible(s, focused, direction, fp, j)]
                        eligible(s, focused, direction, fp, j) && j < b ==> beats(
                            direction,
                            fp,
                            center_at(s, b as int),
                            center_at(s, j),
                        )
                },
                None => forall|j: int|
                    #![trigger eligible(s, focused, direction, fp, j)]
                    0 <= j < i ==> !eligible(s, focused, direction, fp, j),
            },
        decreases snap@.len() - i,
    {
        let (id, r) = snap[i];
        if id != focused {
            let c = r.center_point();
            proof {
                lemma_center_bounded(r);
            }
            if qualifies_at(direction, f, c) {
                let better = match best {
                    None => true,
                    Some(_) => beats_at(direction, f, c, best_c),
                };
                if better {
                    best = Some(i);
                    best_c = c;
                }
            }
        }
        i = i + 1;
    }
    match best {
        Some(b) => {
            proof {
                assert(is_pick(s, focused, direction, fp, b as int));
                let k = choose|k: int| is_pick(s, focused, direction, fp, k);
                lemma_pick_unique(s, focused, direction, fp, b as int, k);
            }
            Ok(Some(snap[b].0))
        },
        None => Ok(None),
    }
}

} // verus!
