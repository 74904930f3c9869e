use vstd::prelude::*;

use crate::error::TileError;
use crate::geometry::{area_sum, lemma_apart_of_inside, lemma_area_sum_append, tiles, ClientId, Region};

verus! {

/// The share `num / den` of the monitor's width given to the main area.
#[derive(Clone, Copy, Debug, PartialEq, Eq, Structural)]
pub struct Ratio {
    pub num: u32,
    pub den: u32,
}

impl Ratio {
    pub fn new(num: u32, den: u32) -> (r: Ratio)
        ensures
            r == (Ratio { num, den }),
    {
        Ratio { num, den }
    }
}

/// Row `i` of `k` equal-height rows of `r`; the last row also takes the
/// pixels that the division leaves over.
pub open spec fn row(r: Region, k: nat, i: int) -> Region {
    let step = (r.h as int) / (k as int);
    Region {
        x: r.x,
        y: (r.y + i * step) as u32,
        w: r.w,
        h: (if i == k - 1 {
            r.h - (k - 1) * step
        } else {
            step
        }) as u32,
    }
}

pub open spec fn rows(r: Region, k: nat) -> Seq<Region> {
    Seq::new(k, |i: int| row(r, k, i))
}

/// `r` cut by a vertical line at `left` pixels from its left edge.
pub open spec fn split_width(r: Region, left: int) -> (Region, Region) {
    (
        Region { x: r.x, y: r.y, w: left as u32, h: r.h },
        Region { x: (r.x + left) as u32, y: r.y, w: (r.w - left) as u32, h: r.h },
    )
}

/// `r` cut by a horizontal line at `top` pixels from its top edge.
pub open spec fn split_height(r: Region, top: int) -> (Region, Region) {
    (
        Region { x: r.x, y: r.y, w: r.w, h: top as u32 },
        Region { x: r.x, y: (r.y + top) as u32, w: r.w, h: (r.h - top) as u32 },
    )
}

/// How many of `n` clients share the main area: at least one, at most all.
pub open spec fn main_count(n: nat, in_main: u32) -> nat {
    if in_main == 0 {
        1
    } else if in_main >= n {
        n
    } else {
        in_main as nat
    }
}

pub open spec fn main_width(w: u32, ratio: Ratio) -> int {
    (w * ratio.num) / (ratio.den as int)
}

/// The regions of the main+side layout for `n` clients, or `None` where the
/// parameters cannot give every client a non-empty region.
pub open spec fn main_plus_side_regions(
    n: nat,
    monitor: Region,
    in_main: u32,
    ratio: Ratio,
) -> Option<Seq<Region>> {
    let m = main_count(n, in_main);
    if n == 0 {
        Some(Seq::empty())
    } else if m == n {
        if monitor.h >= n {
            Some(rows(monitor, n))
        } else {
            None
        }
    } else if ratio.den == 0 {
        None
    } else {
        let mw = main_width(monitor.w, ratio);
        if mw == 0 || mw >= monitor.w || monitor.h < m || monitor.h < n - m {
            None
        } else {
            let parts = split_width(monitor, mw);
            Some(rows(parts.0, m) + rows(parts.1, (n - m) as nat))
        }
    }
}

pub open spec fn can_halve(r: Region, vertical: bool) -> bool {
    if vertical {
        r.w >= 2
    } else {
        r.h >= 2
    }
}

/// `r` halved across its width (`vertical`) or its height; the first half
/// is the left or top one.
pub open spec fn halves(r: Region, vertical: bool) -> (Region, Region) {
    if vertical {
        split_width(r, r.w as int / 2)
    } else {
        split_height(r, r.h as int / 2)
    }
}

/// Dwindle over `r` for `n` clients, starting with a cut of the given
/// orientation: the first client keeps the first half, the rest dwindle in
/// the second half with the other orientation.
pub open spec fn dwindle_from(r: Region, n: nat, vertical: bool) -> Option<Seq<Region>>
    decreases n,
{
    if n == 0 {
        Some(Seq::empty())
    } else if n == 1 {
        Some(seq![r])
    } else if !can_halve(r, vertical) {
        None
    } else {
        match dwindle_from(halves(r, vertical).1, (n - 1) as nat, !vertical) {
            Some(rest) => Some(seq![halves(r, vertical).0] + rest),
            None => None,
        }
    }
}

/// The first cut divides the width of a monitor wider than tall, else its height.
pub open spec fn dwindle_regions(n: nat, monitor: Region) -> Option<Seq<Region>> {
    dwindle_from(monitor, n, monitor.w > monitor.h)
}

/// Each client paired with the region at the same position.
pub open spec fn placed(clients: Seq<ClientId>, regions: Seq<Region>) -> Seq<(ClientId, Region)> {
    Seq::new(clients.len(), |i: int| (clients[i], regions[i]))
}

/// The outcome of a layout pass whose regions are `regions`.
pub open spec fn placement(clients: Seq<ClientId>, regions: Option<Seq<Region>>) -> Result<
    Seq<(ClientId, Region)>,
    TileError,
> {
    match regions {
        Some(rs) => Ok(placed(clients, rs)),
        None => Err(TileError::InvalidLayoutParameters),
    }
}

pub open spec fn result_view(r: Result<Vec<(ClientId, Region)>, TileError>) -> Result<
    Seq<(ClientId, Region)>,
    TileError,
> {
    match r {
        Ok(v) => Ok(v@),
        Err(e) => Err(e),
    }
}

/// `head` put in front of what `tail` holds, if anything.
pub open spec fn prefixed(head: Seq<Region>, tail: Option<Seq<Region>>) -> Option<Seq<Region>> {
    match tail {
        Some(t) => Some(head + t),
        None => None,
    }
}

proof fn lemma_step(h: int, k: int)
    requires
        1 <= k <= h,
    ensures
        1 <= h / k,
        k * (h / k) <= h,
        h - (k - 1) * (h / k) >= h / k,
{
    let s = h / k;
    vstd::arithmetic::div_mod::lemma_fundamental_div_mod(h, k);
    assert(0 <= h % k < k);
    assert(s >= 1) by (nonlinear_arith)
        requires
            h == k * s + h % k,
            0 <= h % k < k,
            k <= h,
            1 <= k,
    ;
    assert((k - 1) * s == k * s - s) by (nonlinear_arith);
}

proof fn lemma_row_facts(r: Region, k: nat, i: int)
    requires
        r.wf(),
        1 <= k <= r.h,
        0 <= i < k,
    ensures
        row(r, k, i).y == r.y + i * ((r.h as int) / (k as int)),
        row(r, k, i).h == (if i == k - 1 {
            r.h - (k - 1) * ((r.h as int) / (k as int))
        } else {
            (r.h as int) / (k as int)
        }),
        i * ((r.h as int) / (k as int)) + (r.h as int) / (k as int) <= r.h,
        i < k - 1 ==> row(r, k, i).bottom() == r.y + (i + 1) * ((r.h as int) / (k as int)),
        i == k - 1 ==> row(r, k, i).bottom() == r.bottom(),
        row(r, k, i).wf(),
        row(r, k, i).inside(r),
{
    let s = (r.h as int) / (k as int);
    let kk = k as int;
    lemma_step(r.h as int, kk);
    assert(i * s + s <= r.h) by (nonlinear_arith)
        requires
            0 <= i < kk,
            s >= 1,
            kk * s <= r.h,
    ;
    assert(i * s >= 0) by (nonlinear_arith)
        requires
            0 <= i,
            s >= 1,
    ;
    assert((i + 1) * s == i * s + s) by (nonlinear_arith);
}

proof fn lemma_rows_prefix_area(r: Region, k: nat, j: int)
    requires
        r.wf(),
        1 <= k <= r.h,
        0 <= j <= k - 1,
    ensures
        area_sum(rows(r, k).take(j)) == j * ((r.w as int) * ((r.h as int) / (k as int))),
    decreases j,
{
    if j > 0 {
        lemma_rows_prefix_area(r, k, j - 1);
        assert(rows(r, k).take(j).drop_last() =~= rows(r, k).take(j - 1));
        lemma_row_facts(r, k, j - 1);
        let a = (r.w as int) * ((r.h as int) / (k as int));
        assert(j * a == (j - 1) * a + a) by (nonlinear_arith);
    } else {
        assert(rows(r, k).take(j) =~= Seq::<Region>::empty());
    }
}

/// `k` rows cover `r` exactly.
pub proof fn lemma_rows_tile(r: Region, k: nat)
    requires
        r.wf(),
        1 <= k <= r.h,
    ensures
        tiles(rows(r, k), r),
{
    let rs = rows(r, k);
    let s = (r.h as int) / (k as int);
    assert forall|i: int| 0 <= i < rs.len() implies #[trigger] rs[i].wf() by {
        lemma_row_facts(r, k, i);
    }
    assert forall|i: int| 0 <= i < rs.len() implies #[trigger] rs[i].inside(r) by {
        lemma_row_facts(r, k, i);
    }
    assert forall|i: int, j: int|
        0 <= i < rs.len() && 0 <= j < rs.len() && i != j implies #[trigger] rs[i].apart(
        #[trigger] rs[j],
    ) by {
        lemma_row_facts(r, k, i);
        lemma_row_facts(r, k, j);
        if i < j {
            assert((i + 1) * s <= j * s) by (nonlinear_arith)
                requires
                    i + 1 <= j,
                    s >= 0,
            ;
        } else {
            assert((j + 1) * s <= i * s) by (nonlinear_arith)
                requires
                    j + 1 <= i,
                    s >= 0,
            ;
        }
    }
    lemma_step(r.h as int, k as int);
    lemma_rows_prefix_area(r, k, k - 1);
    assert(rs.drop_last() =~= rs.take(k - 1));
    lemma_row_facts(r, k, k - 1);
    let w = r.w as int;
    let h = r.h as int;
    let kk = k as int;
    assert((kk - 1) * (w * s) + w * (h - (kk - 1) * s) == w * h) by (nonlinear_arith);
}

/// Regions that tile `a` and regions that tile `b`, where `a` and `b` are
/// apart and together cover `outer`, tile `outer`.
pub proof fn lemma_tiles_concat(ra: Seq<Region>, rb: Seq<Region>, a: Region, b: Region, outer: Region)
    requires
        tiles(ra, a),
        tiles(rb, b),
        a.inside(outer),
        b.inside(outer),
        a.apart(b),
        a.area() + b.area() == outer.area(),
    ensures
        tiles(ra + rb, outer),
{
    let rs = ra + rb;
    assert forall|i: int| 0 <= i < rs.len() implies #[trigger] rs[i].wf() by {
        if i < ra.len() {
            assert(rs[i] == ra[i]);
        } else {
            assert(rs[i] == rb[i - ra.len()]);
        }
    }
    assert forall|i: int| 0 <= i < rs.len() implies #[trigger] rs[i].inside(outer) by {
        if i < ra.len() {
            assert(rs[i] == ra[i]);
            assert(ra[i].wf() && ra[i].inside(a));
        } else {
            assert(rs[i] == rb[i - ra.len()]);
            assert(rb[i - ra.len()].wf() && rb[i - ra.len()].inside(b));
        }
    }
    assert forall|i: int, j: int|
        0 <= i < rs.len() && 0 <= j < rs.len() && i != j implies #[trigger] rs[i].apart(
        #[trigger] rs[j],
    ) by {
        if i < ra.len() && j < ra.len() {
            assert(ra[i].apart(ra[j]));
        } else if i >= ra.len() && j >= ra.len() {
            assert(rb[i - ra.len()].apart(rb[j - ra.len()]));
        } else if i < ra.len() {
            lemma_apart_of_inside(ra[i], rb[j - ra.len()], a, b);
        } else {
            lemma_apart_of_inside(ra[j], rb[i - ra.len()], a, b);
        }
    }
    lemma_area_sum_append(ra, rb);
}

proof fn lemma_single_tiles(r: Region)
    requires
        r.wf(),
    ensures
        tiles(seq![r], r),
{
    let s = seq![r];
    assert(s.drop_last() =~= Seq::<Region>::empty());
    assert(s[0] == r);
    assert(area_sum(s) == area_sum(s.drop_last()) + r.area());
    assert(forall|i: int| 0 <= i < s.len() ==> s[i] == r);
}

proof fn lemma_split_width_parts(r: Region, left: int)
    requires
        r.wf(),
        0 < left < r.w,
    ensures
        split_width(r, left).0.wf(),
        split_width(r, left).1.wf(),
        split_width(r, left).0.inside(r),
        split_width(r, left).1.inside(r),
        split_width(r, left).0.apart(split_width(r, left).1),
        split_width(r, left).0.area() + split_width(r, left).1.area() == r.area(),
{
    assert(left * r.h + (r.w - left) * r.h == r.w * r.h) by (nonlinear_arith);
}

proof fn lemma_split_height_parts(r: Region, top: int)
    requires
        r.wf(),
        0 < top < r.h,
    ensures
        split_height(r, top).0.wf(),
        split_height(r, top).1.wf(),
        split_height(r, top).0.inside(r),
        split_height(r, top).1.inside(r),
        split_height(r, top).0.apart(split_height(r, top).1),
        split_height(r, top).0.area() + split_height(r, top).1.area() == r.area(),
{
    assert(r.w * top + r.w * (r.h - top) == r.w * r.h) by (nonlinear_arith);
}

/// With no clients, both layouts place nothing.
pub proof fn lemma_no_clients_no_regions(monitor: Region, in_main: u32, ratio: Ratio)
    ensures
        placement(Seq::empty(), main_plus_side_regions(0, monitor, in_main, ratio)) == Ok::<
            Seq<(ClientId, Region)>,
            TileError,
        >(Seq::empty()),
        placement(Seq::empty(), dwindle_regions(0, monitor)) == Ok::<
            Seq<(ClientId, Region)>,
            TileError,
        >(Seq::empty()),
{
    assert(placed(Seq::empty(), Seq::empty()) =~= Seq::<(ClientId, Region)>::empty());
}

/// A lone client gets the whole monitor in both layouts, whatever the ratio
/// and the size of the main area.
pub proof fn lemma_single_client_takes_monitor(
    client: ClientId,
    monitor: Region,
    in_main: u32,
    ratio: Ratio,
)
    requires
        monitor.wf(),
    ensures
        placement(seq![client], main_plus_side_regions(1, monitor, in_main, ratio)) == Ok::<
            Seq<(ClientId, Region)>,
            TileError,
        >(seq![(client, monitor)]),
        placement(seq![client], dwindle_regions(1, monitor)) == Ok::<
            Seq<(ClientId, Region)>,
            TileError,
        >(seq![(client, monitor)]),
{
    assert(row(monitor, 1, 0) == monitor);
    assert(rows(monitor, 1) =~= seq![monitor]);
    assert(placed(seq![client], seq![monitor]) =~= seq![(client, monitor)]);
}

/// Whenever main+side succeeds on a monitor with at least one client, its
/// regions cover the monitor exactly and do not overlap.
pub proof fn lemma_main_plus_side_tiles(n: nat, monitor: Region, in_main: u32, ratio: Ratio)
    requires
        monitor.wf(),
        n >= 1,
        main_plus_side_regions(n, monitor, in_main, ratio) is Some,
    ensures
        tiles(main_plus_side_regions(n, monitor, in_main, ratio)->Some_0, monitor),
{
    let m = main_count(n, in_main);
    if m == n {
        lemma_rows_tile(monitor, n);
    } else {
        let mw = main_width(monitor.w, ratio);
        let (main, stack) = split_width(monitor, mw);
        lemma_split_width_parts(monitor, mw);
        lemma_rows_tile(main, m);
        lemma_rows_tile(stack, (n - m) as nat);
        lemma_tiles_concat(rows(main, m), rows(stack, (n - m) as nat), main, stack, monitor);
    }
}

proof fn lemma_dwindle_from_tiles(r: Region, n: nat, vertical: bool)
    requires
        r.wf(),
        n >= 1,
        dwindle_from(r, n, vertical) is Some,
    ensures
        tiles(dwindle_from(r, n, vertical)->Some_0, r),
    decreases n,
{
    if n == 1 {
        lemma_single_tiles(r);
    } else {
        let (a, b) = halves(r, vertical);
        if vertical {
            lemma_split_width_parts(r, r.w as int / 2);
        } else {
            lemma_split_height_parts(r, r.h as int / 2);
        }
        lemma_dwindle_from_tiles(b, (n - 1) as nat, !vertical);
        lemma_single_tiles(a);
        let rest = dwindle_from(b, (n - 1) as nat, !vertical)->Some_0;
        lemma_tiles_concat(seq![a], rest, a, b, r);
    }
}

/// Whenever dwindle succeeds on a monitor with at least one client, its
/// regions cover the monitor exactly and do not overlap.
pub proof fn lemma_dwindle_tiles(n: nat, monitor: Region)
    requires
        monitor.wf(),
        n >= 1,
        dwindle_regions(n, monitor) is Some,
    ensures
        tiles(dwindle_regions(n, monitor)->Some_0, monitor),
{
    lemma_dwindle_from_tiles(monitor, n, monitor.w > monitor.h);
}

/// Appends the `k` rows of `r` to `out`.
fn push_rows(out: &mut Vec<Region>, r: Region, k: u32)
    requires
        r.wf(),
        1 <= k <= r.h,
    ensures
        final(out)@ == old(out)@ + rows(r, k as nat),
{
    let step = r.h / k;
    let mut i: u32 = 0;
    while i < k
        invariant
            0 <= i <= k,
            r.wf(),
            1 <= k <= r.h,
            step == (r.h as int) / (k as int),
            out@ == old(out)@ + rows(r, k as nat).take(i as int),
        decreases k - i,
    {
        proof {
            lemma_row_facts(r, k as nat, i as int);
        }
        let top = r.y + i * step;
        let h = if i == k - 1 {
            r.h - (k - 1) * step
        } else {
            step
        };
        let next = Region { x: r.x, y: top, w: r.w, h };
        assert(next == row(r, k as nat, i as int));
        out.push(next);
        assert(rows(r, k as nat).take(i + 1) =~= rows(r, k as nat).take(i as int).push(next));
        i = i + 1;
    }
    assert(rows(r, k as nat).take(k as int) =~= rows(r, k as nat));
}

/// Pairs each client with the region at the same position.
fn pair_up(clients: &Vec<ClientId>, regions: &Vec<Region>) -> (r: Vec<(ClientId, Region)>)
    requires
        clients@.len() == regions@.len(),
    ensures
        r@ == placed(clients@, regions@),
{
    let mut out: Vec<(ClientId, Region)> = Vec::new();
    let mut i: usize = 0;
    while i < clients.len()
        invariant
            0 <= i <= clients@.len(),
            clients@.len() == regions@.len(),
            out@ == placed(clients@, regions@).take(i as int),
        decreases clients@.len() - i,
    {
        out.push((clients[i], regions[i]));
        assert(placed(clients@, regions@).take(i + 1) =~= placed(clients@, regions@).take(
            i as int,
        ).push((clients@[i as int], regions@[i as int])));
        i = i + 1;
    }
    assert(placed(clients@, regions@).take(i as int) =~= placed(clients@, regions@));
    out
}

/// Main+side layout: the first clients share the main area on the left as
/// equal-height rows, the others share the rest of the width as equal-height
/// rows, in input order from top to bottom. The main area takes
/// `ratio` of the width, rounded down; when all clients fit in the main area
/// they share the whole monitor.
pub fn main_plus_side(clients: &Vec<ClientId>, monitor: &Region, in_main: u32, ratio: Ratio) -> (r:
    Result<Vec<(ClientId, Region)>, TileError>)
    requires
        monitor.wf(),
    ensures
        result_view(r) == placement(
            clients@,
            main_plus_side_regions(clients@.len(), *monitor, in_main, ratio),
        ),
{
    let n = clients.len();
    if n == 0 {
        let empty: Vec<(ClientId, Region)> = Vec::new();
        assert(empty@ =~= placed(clients@, Seq::empty()));
        return Ok(empty);
    }
    let m: usize = if in_main == 0 {
        1
    } else if in_main as usize >= n {
        n
    } else {
        in_main as usize
    };
    let mut regions: Vec<Region> = Vec::new();
    if m == n {
        if (monitor.h as usize) < n {
            return Err(TileError::InvalidLayoutParameters);
        }
        push_rows(&mut regions, *monitor, n as u32);
    } else {
        if ratio.den == 0 {
            return Err(TileError::InvalidLayoutParameters);
        }
        let w = monitor.w as u64;
        assert(w * (ratio.num as u64) <= u64::MAX) by (nonlinear_arith)
            requires
                w <= u32::MAX,
                ratio.num <= u32::MAX,
        ;
        let mw = w * (ratio.num as u64) / (ratio.den as u64);
        if mw == 0 || mw >= w || (monitor.h as usize) < m || (monitor.h as usize) < n - m {
            return Err(TileError::InvalidLayoutParameters);
        }
        let mw = mw as u32;
        let main = Region { x: monitor.x, y: monitor.y, w: mw, h: monitor.h };
        let stack = Region { x: monitor.x + mw, y: monitor.y, w: monitor.w - mw, h: monitor.h };
        assert(main == split_width(*monitor, mw as int).0);
        assert(stack == split_width(*monitor, mw as int).1);
        push_rows(&mut regions, main, m as u32);
        push_rows(&mut regions, stack, (n - m) as u32);
        assert(regions@ =~= rows(main, m as nat) + rows(stack, (n - m) as nat));
    }
    Ok(pair_up(clients, &regions))
}

/// Dwindle layout: each new client takes the second half of the region of
/// the client before it, the cut alternating between width and height.
pub fn dwindle(clients: &Vec<ClientId>, monitor: &Region) -> (r: Result<
    Vec<(ClientId, Region)>,
    TileError,
>)
    requires
        monitor.wf(),
    ensures
        result_view(r) == placement(clients@, dwindle_regions(clients@.len(), *monitor)),
{
    let n = clients.len();
    if n == 0 {
        let empty: Vec<(ClientId, Region)> = Vec::new();
        assert(empty@ =~= placed(clients@, Seq::empty()));
        return Ok(empty);
    }
    let mut regions: Vec<Region> = Vec::new();
    let mut cur = *monitor;
    let mut vertical = monitor.w > monitor.h;
    let mut i: usize = 1;
    while i < n
        invariant
            1 <= i <= n,
            n == clients@.len(),
            cur.wf(),
            regions@.len() == i - 1,
            dwindle_regions(n as nat, *monitor) == prefixed(
                regions@,
                dwindle_from(cur, (n - i + 1) as nat, vertical),
            ),
        decreases n - i,
    {
        let ghost rest = (n - i) as nat;
        let ghost before = regions@;
        let (first, second) = if vertical {
            if cur.w < 2 {
                assert(dwindle_from(cur, (n - i + 1) as nat, vertical) is None);
                return Err(TileError::InvalidLayoutParameters);
            }
            let half = cur.w / 2;
            (
                Region { x: cur.x, y: cur.y, w: half, h: cur.h },
                Region { x: cur.x + half, y: cur.y, w: cur.w - half, h: cur.h },
            )
        } else {
            if cur.h < 2 {
                assert(dwindle_from(cur, (n - i + 1) as nat, vertical) is None);
                return Err(TileError::InvalidLayoutParameters);
            }
            let half = cur.h / 2;
            (
                Region { x: cur.x, y: cur.y, w: cur.w, h: half },
                Region { x: cur.x, y: cur.y + half, w: cur.w, h: cur.h - half },
            )
        };
        assert(first == halves(cur, vertical).0);
        assert(second == halves(cur, vertical).1);
        regions.push(first);
        proof {
            match dwindle_from(second, rest, !vertical) {
                Some(tail) => {
                    assert(before + (seq![first] + tail) =~= regions@ + tail);
                },
                None => {},
            }
        }
        cur = second;
        vertical = !vertical;
        i = i + 1;
    }
    let ghost before = regions@;
    assert(dwindle_from(cur, 1, vertical) == Some(seq![cur]));
    regions.push(cur);
    assert(regions@ =~= before + seq![cur]);
    Ok(pair_up(clients, &regions))
}

} // verus!
