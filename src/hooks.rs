use vstd::prelude::*;

use crate::geometry::Region;

verus! {

/// Sends a new window to the workspace of the screen under the pointer.
pub struct NewWindowHook {}

impl NewWindowHook {
    pub fn new() -> (r: Box<NewWindowHook>) {
        Box::new(NewWindowHook {})
    }

    /// The first of `screens` that holds the pointer at `(px, py)`.
    pub fn screen_under_pointer(screens: &Vec<Region>, px: u32, py: u32) -> (r: Option<usize>)
        ensures
            match r {
                Some(i) => {
                    &&& i < screens@.len()
                    &&& screens@[i as int].holds_point(px as int, py as int)
                    &&& forall|j: int|
                        0 <= j < i ==> !(#[trigger] screens@[j]).holds_point(px as int, py as int)
                },
                None => forall|j: int|
                    0 <= j < screens@.len() ==> !(#[trigger] screens@[j]).holds_point(
                        px as int,
                        py as int,
                    ),
            },
    {
        let mut i: usize = 0;
        while i < screens.len()
            invariant
                0 <= i <= screens@.len(),
                forall|j: int|
                    0 <= j < i ==> !(#[trigger] screens@[j]).holds_point(px as int, py as int),
            decreases screens@.len() - i,
        {
            if screens[i].contains_point(px, py) {
                return Some(i);
            }
            i = i + 1;
        }
        None
    }
}

} // verus!
