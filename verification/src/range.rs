//! The `range` type.
use vstd::prelude::*;

verus! {

/// The numbers `start`, `start + step`, ... that lie before `stop`.
#[derive(Clone, Copy, PartialEq, Eq, Structural, Debug)]
pub struct Range {
    pub start: i64,
    pub stop: i64,
    pub step: i64,
}

/// How many numbers the range from `start` to `stop` in steps of `step` holds.
pub open spec fn range_len(start: int, stop: int, step: int) -> nat {
    if step > 0 && start < stop {
        ((stop - start - 1) / step + 1) as nat
    } else if step < 0 && start > stop {
        ((start - stop - 1) / (-step) + 1) as nat
    } else {
        0
    }
}

impl Range {
    /// A step moves, and the number of items can be told in a `usize`.
    pub open spec fn valid(self) -> bool {
        &&& self.step != 0
        &&& self.spec_len() <= usize::MAX
    }

    pub open spec fn spec_len(self) -> nat {
        range_len(self.start as int, self.stop as int, self.step as int)
    }

    /// The item `k` places behind the start.
    pub open spec fn item(self, k: int) -> int {
        self.start + k * self.step
    }

    /// The number of items in the range.
    pub fn len(&self) -> (len: usize)
        requires
            self.valid(),
        ensures
            len == self.spec_len(),
    {
        let start: i128 = self.start as i128;
        let stop: i128 = self.stop as i128;
        let step: i128 = self.step as i128;
        if step > 0 && start < stop {
            let count: i128 = (stop - start - 1) / step + 1;
            count as usize
        } else if step < 0 && start > stop {
            let count: i128 = (start - stop - 1) / (-step) + 1;
            count as usize
        } else {
            0
        }
    }
}

/// Every item of a range lies between its start and its stop, the start included.
pub proof fn lemma_range_item_bounds(range: Range, k: int)
    requires
        range.step != 0,
        0 <= k < range.spec_len(),
    ensures
        range.step > 0 ==> range.start <= range.item(k) < range.stop,
        range.step < 0 ==> range.stop < range.item(k) <= range.start,
{
    let start = range.start as int;
    let stop = range.stop as int;
    let step = range.step as int;
    if step > 0 {
        let q = (stop - start - 1) / step;
        assert(k * step <= stop - start - 1) by (nonlinear_arith)
            requires
                0 <= k <= q,
                q == (stop - start - 1) / step,
                step > 0,
        ;
        assert(0 <= k * step) by (nonlinear_arith)
            requires
                0 <= k,
                step > 0,
        ;
    } else {
        let q = (start - stop - 1) / (-step);
        assert(k * (-step) <= start - stop - 1) by (nonlinear_arith)
            requires
                0 <= k <= q,
                q == (start - stop - 1) / (-step),
                step < 0,
        ;
        assert(0 <= k * (-step)) by (nonlinear_arith)
            requires
                0 <= k,
                step < 0,
        ;
        assert(k * (-step) == -(k * step)) by (nonlinear_arith);
    }
}

/// A range holds exactly the numbers that lie before its stop: `start + k * step` does, for a natural
/// `k`, if and only if it is counted.
pub proof fn a_range_counts_all_before_its_stop(range: Range, k: nat)
    requires
        range.step != 0,
    ensures
        range.step > 0 ==> (k < range.spec_len() <==> range.start + k * range.step < range.stop),
        range.step < 0 ==> (k < range.spec_len() <==> range.start + k * range.step > range.stop),
{
    let start = range.start as int;
    let stop = range.stop as int;
    let step = range.step as int;
    let size = if step > 0 {
        step
    } else {
        -step
    };
    let gap = if step > 0 {
        stop - start
    } else {
        start - stop
    };
    assert(k * size == k * step || k * size == -(k * step)) by (nonlinear_arith)
        requires
            size == step || size == -step,
    ;
    assert(step < 0 ==> k * size == -(k * step)) by (nonlinear_arith)
        requires
            step < 0 ==> size == -step,
    ;
    assert(step > 0 ==> k * size == k * step) by (nonlinear_arith)
        requires
            step > 0 ==> size == step,
    ;
    assert(k * size >= 0) by (nonlinear_arith)
        requires
            size > 0,
    ;
    if gap > 0 {
        let q = (gap - 1) / size;
        assert(q * size <= gap - 1 < (q + 1) * size) by (nonlinear_arith)
            requires
                size > 0,
                q == (gap - 1) / size,
        ;
        assert(k <= q ==> k * size <= q * size) by (nonlinear_arith)
            requires
                size > 0,
        ;
        assert(k > q ==> k * size >= (q + 1) * size) by (nonlinear_arith)
            requires
                size > 0,
        ;
    }
}

} // verus!
