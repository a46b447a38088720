//! The whole-number side of animation: staggered delays for lists, and the
//! phases a window goes through.

use vstd::prelude::*;

verus! {

/// Hands growing delays to the items of a list, so that menus and the
/// application grid appear as a wave rather than all at once.
///
/// `step` is the delay between neighbours and `max_total` caps the whole
/// delay, so that a list of two hundred files does not take a minute to
/// appear. Both are in milliseconds.
#[derive(Debug, Clone, Copy)]
pub struct Stagger {
    pub step: u64,
    pub max_total: u64,
}

impl Default for Stagger {
    fn default() -> (r: Self)
        ensures
            r.step == 20,
            r.max_total == 220,
    {
        Stagger { step: 20, max_total: 220 }
    }
}

impl Stagger {
    pub fn new(step_ms: u64, max_total_ms: u64) -> (r: Self)
        ensures
            r.step == step_ms,
            r.max_total == max_total_ms,
    {
        Stagger { step: step_ms, max_total: max_total_ms }
    }

    /// The delay of the item at `index`: `step` times the index (an index
    /// beyond `u32::MAX` counts as `u32::MAX`), but never more than
    /// `max_total`.
    pub open spec fn delay_spec(self, index: usize) -> int {
        let n: int = if index > u32::MAX { u32::MAX as int } else { index as int };
        let raw = self.step * n;
        if raw < self.max_total {
            raw
        } else {
            self.max_total as int
        }
    }

    /// The delay of the item at `index`, in milliseconds.
    pub fn delay_for(&self, index: usize) -> (r: u64)
        ensures
            r == self.delay_spec(index),
    {
        let n: u32 = if index > u32::MAX as usize { u32::MAX } else { index as u32 };
        let step: u128 = self.step as u128;
        let times: u128 = n as u128;
        assert(step * times <= u64::MAX * u32::MAX) by (nonlinear_arith)
            requires
                step <= u64::MAX,
                times <= u32::MAX,
        ;
        let raw: u128 = step * times;
        if raw < self.max_total as u128 {
            raw as u64
        } else {
            self.max_total
        }
    }
}

/// A delay never exceeds the cap, and it grows with the index: a later item
/// never appears before an earlier one.
pub proof fn law_stagger_is_capped_and_grows(s: Stagger, i: usize, j: usize)
    requires
        i <= j,
    ensures
        s.delay_spec(i) <= s.max_total,
        s.delay_spec(i) <= s.delay_spec(j),
{
    let ni: int = if i > u32::MAX { u32::MAX as int } else { i as int };
    let nj: int = if j > u32::MAX { u32::MAX as int } else { j as int };
    assert(s.step * ni <= s.step * nj) by (nonlinear_arith)
        requires
            0 <= ni <= nj,
            s.step >= 0,
    ;
}

/// What is happening to a window.
#[derive(Debug, Clone, Copy, PartialEq, Eq, Structural)]
pub enum Phase {
    /// The window is appearing.
    Opening,
    /// The ordinary state.
    Open,
    /// The window is closing; once its animation ends it can be removed.
    Closing,
}

} // verus!
