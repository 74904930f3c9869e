use vstd::prelude::*;

verus! {

/// Identifier of a managed window, handed out by the window system.
pub type ClientId = u32;

/// An axis-aligned rectangle in pixels.
#[derive(Clone, Copy, Debug, PartialEq, Eq, Structural)]
pub struct Region {
    pub x: u32,
    pub y: u32,
    pub w: u32,
    pub h: u32,
}

impl Region {
    /// Positive size, and right and bottom edges that fit in a `u32`.
    pub open spec fn wf(self) -> bool {
        &&& self.w > 0
        &&& self.h > 0
        &&& self.x + self.w <= u32::MAX
        &&& self.y + self.h <= u32::MAX
    }

    pub open spec fn area(self) -> int {
        self.w * self.h
    }

    pub open spec fn right(self) -> int {
        self.x + self.w
    }

    pub open spec fn bottom(self) -> int {
        self.y + self.h
    }

    /// `self` lies within `outer`.
    pub open spec fn inside(self, outer: Region) -> bool {
        &&& outer.x <= self.x
        &&& outer.y <= self.y
        &&& self.right() <= outer.right()
        &&& self.bottom() <= outer.bottom()
    }

    /// The open interiors of the two rectangles share no point.
    pub open spec fn apart(self, other: Region) -> bool {
        ||| self.right() <= other.x
        ||| other.right() <= self.x
        ||| self.bottom() <= other.y
        ||| other.bottom() <= self.y
    }

    /// The point `(x + w/2, y + h/2)`, rounded down.
    pub open spec fn center(self) -> (int, int) {
        (self.x + self.w / 2, self.y + self.h / 2)
    }

    pub open spec fn holds_point(self, px: int, py: int) -> bool {
        self.x <= px < self.right() && self.y <= py < self.bottom()
    }

    pub fn new(x: u32, y: u32, w: u32, h: u32) -> (r: Region)
        ensures
            r == (Region { x, y, w, h }),
    {
        Region { x, y, w, h }
    }

    /// Center of the region, in signed coordinates.
    pub fn center_point(&self) -> (r: (i64, i64))
        ensures
            r.0 == self.center().0,
            r.1 == self.center().1,
    {
        (self.x as i64 + (self.w / 2) as i64, self.y as i64 + (self.h / 2) as i64)
    }

    /// Whether the point lies in the region, its right and bottom edges excluded.
    pub fn contains_point(&self, px: u32, py: u32) -> (r: bool)
        ensures
            r == self.holds_point(px as int, py as int),
    {
        self.x <= px && (px as u64) < self.x as u64 + self.w as u64 && self.y <= py && (py as u64)
            < self.y as u64 + self.h as u64
    }
}

/// Each region is well formed and inside `outer`, no two overlap, and their
/// areas add up to that of `outer`: together they cover `outer` exactly.
pub open spec fn tiles(regions: Seq<Region>, outer: Region) -> bool {
    &&& forall|i: int| 0 <= i < regions.len() ==> #[trigger] regions[i].wf()
    &&& forall|i: int| 0 <= i < regions.len() ==> #[trigger] regions[i].inside(outer)
    &&& forall|i: int, j: int|
        0 <= i < regions.len() && 0 <= j < regions.len() && i != j ==> #[trigger] regions[i].apart(
            #[trigger] regions[j],
        )
    &&& area_sum(regions) == outer.area()
}

pub open spec fn area_sum(regions: Seq<Region>) -> int
    decreases regions.len(),
{
    if regions.len() == 0 {
        0
    } else {
        area_sum(regions.drop_last()) + regions.last().area()
    }
}

pub proof fn lemma_area_sum_append(a: Seq<Region>, b: Seq<Region>)
    ensures
        area_sum(a + b) == area_sum(a) + area_sum(b),
    decreases b.len(),
{
    if b.len() == 0 {
        assert(a + b =~= a);
    } else {
        lemma_area_sum_append(a, b.drop_last());
        assert((a + b).drop_last() =~= a + b.drop_last());
    }
}

pub proof fn lemma_apart_of_inside(a: Region, b: Region, outer_a: Region, outer_b: Region)
    requires
        a.inside(outer_a),
        b.inside(outer_b),
        outer_a.apart(outer_b),
    ensures
        a.apart(b),
{
}

} // verus!
