use vstd::prelude::*;

verus! {

/// A step through the screens, in their order or against it.
#[derive(Clone, Copy, Debug, PartialEq, Eq, Structural)]
pub enum CycleDirection {
    Forward,
    Backward,
}

/// The screen after (or before) `current` among `n_screens`, wrapping
/// around at either end.
pub fn target_screen(current: usize, n_screens: usize, direction: CycleDirection) -> (r: usize)
    requires
        current < n_screens,
    ensures
        r < n_screens,
        r == match direction {
            CycleDirection::Forward => (current + 1) % (n_screens as int),
            CycleDirection::Backward => (current + n_screens - 1) % (n_screens as int),
        },
{
    let ghost n = n_screens as int;
    proof {
        vstd::arithmetic::div_mod::lemma_mod_self_0(n);
        vstd::arithmetic::div_mod::lemma_mod_add_multiples_vanish(current - 1, n);
        if current + 1 < n {
            vstd::arithmetic::div_mod::lemma_small_mod((current + 1) as nat, n as nat);
        }
        if current >= 1 {
            vstd::arithmetic::div_mod::lemma_small_mod((current - 1) as nat, n as nat);
        } else {
            vstd::arithmetic::div_mod::lemma_small_mod((n - 1) as nat, n as nat);
        }
    }
    match direction {
        CycleDirection::Forward => {
            if current == n_screens - 1 {
                0
            } else {
                current + 1
            }
        },
        CycleDirection::Backward => {
            if current == 0 {
                n_screens - 1
            } else {
                current - 1
            }
        },
    }
}

} // verus!
