//! What the heap is left with: by single operations, by draining, and by the collector.
use vstd::prelude::*;

use crate::accounts::{
    a_drop_gives_back_one_reference, a_step_gives_back_callable_and_sentinel,
    a_step_takes_callable_and_sentinel, an_advance_takes_exactly_its_item, counts, counts_all,
    counts_given, given, lemma_counts, lemma_default_dropped, lemma_owns_rotated,
};
use crate::advance::lemma_step;
use crate::callable::{left, step_ended, CallableStep, ProducedStep};
use crate::collect::{
    collect_called, gathered, item_concluded, nth_step, stops, yields, Collected, PendingCollect,
    PendingItem,
};
use crate::error::{ResourceError, RunError, RunResult};
use crate::gc::{lemma_swept, refers, swept, within};
use crate::intern::Interns;
use crate::laws::lemma_owns_swapped;
use crate::model::{
    children, lemma_child_live, lemma_cloned, lemma_dropped, lemma_owned_live, lemma_owns_parts,
    DataModel, HeapModel, IterModel, SourceModel,
};
use crate::next::{next_called, PendingNext, PendingProduced};
use crate::semantics::{is_pair, iter_fits, step};
use crate::value::{ids_of, HeapId, Value};
use crate::vm::VmModel;

verus! {

// Single operations.

/// An allocation is refused exactly where none is left. Where it is not, it costs one, puts the data
/// where nothing ever was, with one reference to it, and leaves every other entry as it is.
pub proof fn an_allocation_takes_a_new_place(h: HeapModel, data: DataModel, other: HeapId)
    requires
        h.slots.len() <= usize::MAX,
    ensures
        h.admits() <==> h.budget != Some(0nat),
        ({
            let after = h.allocated(data);
            &&& h.fresh().0 == h.slots.len()
            &&& !h.live(h.fresh())
            &&& after.live(h.fresh())
            &&& after.data(h.fresh()) == data
            &&& after.refs(h.fresh()) == 1
            &&& other != h.fresh() ==> after.live(other) == h.live(other) && after.refs(other)
                == h.refs(other)
            &&& h.live(other) ==> after.data(other) == h.data(other)
            &&& h.budget matches Some(left) ==> left > 0 ==> after.budget == Some((left - 1) as nat)
            &&& h.budget is None ==> after.budget is None
            &&& h.since_gc < usize::MAX ==> after.since_gc == h.since_gc + 1
            &&& after.overtime == h.overtime
        }),
{
}

/// The cycle hint is raised by itself without anything else changing.
pub proof fn raising_the_cycle_hint_changes_nothing_else(h: HeapModel)
    ensures
        h.marked().potential_cycle,
        h.marked().slots == h.slots,
        h.marked().budget == h.budget,
        h.marked().overtime == h.overtime,
        h.marked().since_gc == h.since_gc,
{
}

/// A clone takes one reference to what the value refers to, and none where it refers to nothing;
/// nothing else changes.
pub proof fn a_clone_takes_one_reference(h: HeapModel, v: Value, other: HeapId)
    requires
        v matches Value::Ref(id) ==> h.live(id),
    ensures
        h.cloned(v).refs(other) == h.refs(other) + counts(v, other),
        h.cloned(v).live(other) == h.live(other),
        h.live(other) ==> h.cloned(v).data(other) == h.data(other),
        h.cloned(v).slots.len() == h.slots.len(),
        h.cloned(v).budget == h.budget,
        h.cloned(v).overtime == h.overtime,
        h.cloned(v).since_gc == h.since_gc,
        h.cloned(v).potential_cycle == h.potential_cycle,
{
}

/// A clone that is dropped again leaves everybody with the references that they held.
pub proof fn dropping_a_clone_undoes_it(h: HeapModel, v: Value, rest: Seq<Value>, x: HeapId)
    requires
        h.owns(rest),
        v matches Value::Ref(id) ==> h.live(id),
    ensures
        h.cloned(v).dropped(v).outside(x) == h.outside(x),
        h.cloned(v).dropped(v).owns(rest),
{
    lemma_cloned(h, v, rest);
    lemma_counts(v, x);
    lemma_owns_swapped(h.cloned(v), rest, v);
    a_drop_gives_back_one_reference(h.cloned(v), v, rest, x);
}

// Draining.

/// What `n` advances take is a reference to each of the items that they yield, and nothing else
/// changes hands.
proof fn lemma_gathered_accounts(
    it: IterModel,
    h: HeapModel,
    interns: Interns,
    rest: Seq<Value>,
    n: nat,
    x: HeapId,
)
    requires
        h.owns(rest),
        h.slots.len() + n < usize::MAX,
        iter_fits(it, h, interns),
        yields(it, h, interns, n),
    ensures
        ({
            let g = gathered(it, h, interns, n);
            &&& g.heap.owns(rest)
            &&& g.heap.slots.len() <= h.slots.len() + n
            &&& iter_fits(g.iter, g.heap, interns)
            &&& g.iter.value == it.value
            &&& g.items.len() == n
            &&& g.heap.outside(x) == h.outside(x) + counts_all(g.items, x)
        }),
    decreases n,
{
    if n > 0 {
        let m = (n - 1) as nat;
        lemma_gathered_accounts(it, h, interns, rest, m, x);
        let before = gathered(it, h, interns, m);
        let g = gathered(it, h, interns, n);
        assert(nth_step(it, h, interns, m).outcome is Item);
        lemma_step(before.iter, before.heap, interns, rest);
        an_advance_takes_exactly_its_item(before.iter, before.heap, interns, x);
        assert(g.items.drop_last() =~= before.items);
    }
}

/// Draining hands out a reference for each item and gives back the one that the iterator held; where
/// it stops for the callable, the iterator keeps its own and the step takes one to the callable and
/// one to the sentinel. It gives back the iterator's where it fails, too.
pub proof fn draining_accounts_for_its_items(
    it: IterModel,
    first: Seq<Value>,
    before: VmModel,
    n: nat,
    r: RunResult<Collected>,
    after: VmModel,
    x: HeapId,
)
    requires
        before.heap.owns(seq![it.value]),
        before.heap.slots.len() + n < usize::MAX,
        iter_fits(it, before.heap, before.interns),
        stops(it, first, before, n, r, after),
    ensures
        ({
            let taken = gathered(it, before.heap, before.interns, n).items;
            let held = before.heap.outside(x);
            &&& taken.len() == n
            &&& r matches Ok(Collected::Done(items)) ==> (items@ == first + taken
                && after.heap.outside(x) == held + counts_all(taken, x) - counts(it.value, x))
            &&& r matches Ok(Collected::Call(pending)) ==> pending.items@ == first + taken
                && after.heap.outside(x) == held + counts_all(taken, x) + counts(
                pending.step.callable,
                x,
            ) + counts(pending.step.sentinel, x)
            &&& r == Err::<Collected, RunError>(RunError::Resource(ResourceError::Time))
                || r == Err::<Collected, RunError>(RunError::DictChangedSize) || r == Err::<
                Collected,
                RunError,
            >(RunError::SetChangedSize) ==> after.heap.outside(x) == held + counts_all(taken, x)
                - counts(it.value, x)
        }),
{
    let h = before.heap;
    let interns = before.interns;
    let held = seq![it.value];
    let g = gathered(it, h, interns, n);
    lemma_gathered_accounts(it, h, interns, held, n, x);
    lemma_step(g.iter, g.heap, interns, held);
    lemma_owns_parts(g.heap, held, Seq::empty());
    an_advance_takes_exactly_its_item(g.iter, g.heap, interns, x);
    let s = step(g.iter, g.heap, interns);
    assert(held + Seq::<Value>::empty() =~= held);
    a_drop_gives_back_one_reference(g.heap, it.value, Seq::empty(), x);
    a_drop_gives_back_one_reference(s.heap, it.value, Seq::empty(), x);
    if s.outcome is Call {
        a_step_takes_callable_and_sentinel(before.with_heap(g.heap), g.iter.source->pair, x);
    }
}

/// Once the comparison has answered, draining gives back callable and sentinel of the step. The
/// sentinel ends it: what was produced and the iterator are given back too. Any other value is kept,
/// and the next step takes callable and sentinel again.
pub proof fn a_round_of_draining_accounts_for_everything(
    pending: PendingItem,
    before: VmModel,
    outcome: Result<bool, ResourceError>,
    r: RunResult<Collected>,
    after: VmModel,
    x: HeapId,
)
    requires
        before.heap.owns(
            seq![pending.step.produced, pending.step.step.callable, pending.step.step.sentinel]
                + seq![pending.iter@.value],
        ),
        iter_fits(pending.iter@, before.heap, before.interns),
        pending.iter@.source matches SourceModel::CallableSentinel { done, .. } && !done,
        item_concluded(pending, before, outcome, r, after),
    ensures
        ({
            let base = before.heap.outside(x) - counts(pending.step.step.callable, x) - counts(
                pending.step.step.sentinel,
                x,
            );
            let produced = counts(pending.step.produced, x);
            let iter = counts(pending.iter@.value, x);
            match outcome {
                Ok(true) => after.heap.outside(x) == base - produced - iter,
                Ok(false) => match r {
                    Ok(Collected::Call(more)) => after.heap.outside(x) == base + counts(
                        more.step.callable,
                        x,
                    ) + counts(more.step.sentinel, x),
                    Ok(Collected::Done(_)) => false,
                    Err(_) => after.heap.outside(x) == base - iter,
                },
                Err(_) => after.heap.outside(x) == base - produced - iter,
            }
        }),
{
    let h = before.heap;
    let callee = pending.step.step;
    let v = pending.step.produced;
    let value = pending.iter@.value;
    let held = seq![value];
    let two = seq![callee.callable, callee.sentinel];
    let three = seq![v, callee.callable, callee.sentinel];
    assert(held + Seq::<Value>::empty() =~= held);
    // The produced value is dropped first.
    assert(three + held =~= seq![v] + (two + held));
    a_drop_gives_back_one_reference(h, v, two + held, x);
    lemma_step_left(h.dropped(v), callee, held, x);
    let dropped = h.dropped(v).dropped(callee.callable).dropped(callee.sentinel);
    a_drop_gives_back_one_reference(dropped, value, Seq::empty(), x);
    // The produced value is kept.
    lemma_owns_rotated(h, v, callee, held);
    lemma_step_left(h, callee, seq![v] + held, x);
    let kept = h.dropped(callee.callable).dropped(callee.sentinel);
    lemma_owns_parts(kept, seq![v], held);
    a_drop_gives_back_one_reference(kept, value, Seq::empty(), x);
    let pair = pending.iter@.source->pair;
    assert(held[0] == Value::Ref(pair));
    lemma_owned_live(kept, held, 0);
    assert(kept.live(pair));
    lemma_step_left(h, callee, seq![v] + held, pair);
    assert(is_pair(kept, pair));
    a_step_takes_callable_and_sentinel(left(before, callee), pair, x);
}

/// Giving back callable and sentinel of a step.
proof fn lemma_step_left(h: HeapModel, step: CallableStep, rest: Seq<Value>, x: HeapId)
    requires
        h.owns(seq![step.callable, step.sentinel] + rest),
    ensures
        ({
            let after = h.dropped(step.callable).dropped(step.sentinel);
            &&& after.outside(x) == h.outside(x) - counts(step.callable, x) - counts(
                step.sentinel,
                x,
            )
            &&& after.owns(rest)
            &&& after.counted()
            &&& after.live(x) ==> h.live(x) && after.data(x) == h.data(x)
        }),
{
    let others = seq![step.sentinel] + rest;
    assert(seq![step.callable, step.sentinel] + rest =~= seq![step.callable] + others);
    a_drop_gives_back_one_reference(h, step.callable, others, x);
    a_drop_gives_back_one_reference(h.dropped(step.callable), step.sentinel, rest, x);
    lemma_dropped(h.dropped(step.callable), step.sentinel, rest);
}

/// A step that is over has given back callable and sentinel, and with them what was produced, unless
/// that is what it yields.
pub proof fn the_end_of_a_step_accounts_for_what_was_produced(
    produced: ProducedStep,
    before: VmModel,
    outcome: Result<bool, ResourceError>,
    r: RunResult<Option<Value>>,
    after: VmModel,
    rest: Seq<Value>,
    x: HeapId,
)
    requires
        before.heap.owns(
            seq![produced.produced, produced.step.callable, produced.step.sentinel] + rest,
        ),
        step_ended(produced, before, outcome, r, after),
    ensures
        ({
            let base = before.heap.outside(x) - counts(produced.step.callable, x) - counts(
                produced.step.sentinel,
                x,
            );
            match r {
                Ok(Some(_)) => after.heap.outside(x) == base && after.heap.owns(
                    seq![produced.produced] + rest,
                ),
                _ => after.heap.outside(x) == base - counts(produced.produced, x)
                    && after.heap.owns(rest),
            }
        }),
{
    let h = before.heap;
    let v = produced.produced;
    let callee = produced.step;
    let two = seq![callee.callable, callee.sentinel];
    assert(seq![v, callee.callable, callee.sentinel] + rest =~= seq![v] + (two + rest));
    a_drop_gives_back_one_reference(h, v, two + rest, x);
    lemma_step_left(h.dropped(v), callee, rest, x);
    lemma_owns_rotated(h, v, callee, rest);
    lemma_step_left(h, callee, seq![v] + rest, x);
}

/// Where the callable raises, callable and sentinel of the step are given back, and with them what
/// waited for the step: the default of a `next`, the iterator that was drained.
pub proof fn an_exception_gives_everything_back(
    callee: CallableStep,
    default: Option<Value>,
    value: Value,
    before: VmModel,
    e: RunError,
    next: PendingNext,
    next_r: RunResult<PendingProduced>,
    next_after: VmModel,
    collect: PendingCollect,
    collect_r: RunResult<PendingItem>,
    collect_after: VmModel,
    x: HeapId,
)
    requires
        before.gc_pause_depth > 0,
        next.step == callee,
        next.default == default,
        collect.step == callee,
        collect.iter@.value == value,
        next_called(next, before, Err(e), next_r, next_after),
        collect_called(collect, before, Err(e), collect_r, collect_after),
    ensures
        ({
            let base = before.heap.outside(x) - counts(callee.callable, x) - counts(
                callee.sentinel,
                x,
            );
            let two = seq![callee.callable, callee.sentinel];
            &&& before.heap.owns(two + given(default)) ==> next_after.heap.outside(x) == base
                - counts_given(default, x)
            &&& before.heap.owns(two + seq![value]) ==> collect_after.heap.outside(x) == base
                - counts(value, x)
            &&& next_after.gc_pause_depth == before.gc_pause_depth - 1
            &&& collect_after.gc_pause_depth == before.gc_pause_depth - 1
        }),
{
    let two = seq![callee.callable, callee.sentinel];
    if before.heap.owns(two + given(default)) {
        a_step_gives_back_callable_and_sentinel(before, callee, given(default), x);
        assert(given(default) + Seq::<Value>::empty() =~= given(default));
        lemma_default_dropped(left(before, callee).heap, default, Seq::empty(), x);
    }
    if before.heap.owns(two + seq![value]) {
        a_step_gives_back_callable_and_sentinel(before, callee, seq![value], x);
        assert(seq![value] + Seq::<Value>::empty() =~= seq![value]);
        a_drop_gives_back_one_reference(left(before, callee).heap, value, Seq::empty(), x);
    }
}

// Collection.

/// A collection keeps what is needed: every root, and whatever an entry that is kept refers to, each
/// with what it held. Nobody outside the heap loses a reference to it.
pub proof fn a_collection_keeps_what_is_needed(
    before: HeapModel,
    roots: Seq<HeapId>,
    after: HeapModel,
    id: HeapId,
    k: int,
)
    requires
        before.backed(roots),
        before.slots.len() <= usize::MAX,
        swept(before, roots, after),
    ensures
        after.backed(roots),
        0 <= k < roots.len() ==> after.live(roots[k]),
        after.live(id) ==> before.live(id) && after.data(id) == before.data(id) && after.outside(id)
            == before.outside(id),
        after.live(id) && 0 <= k < children(after.data(id)).len() ==> (children(
            after.data(id),
        )[k] matches Value::Ref(child) ==> after.live(child)),
{
    lemma_swept(before, roots, after);
    if after.live(id) && 0 <= k < children(after.data(id)).len() && children(
        after.data(id),
    )[k] is Ref {
        lemma_child_live(after, id, k);
    }
}

/// A collection frees all the garbage, cycles too: entries among which there is no root, and which
/// only each other refer to, are gone.
pub proof fn a_collection_frees_what_only_garbage_refers_to(
    before: HeapModel,
    roots: Seq<HeapId>,
    after: HeapModel,
    garbage: spec_fn(HeapId) -> bool,
    id: HeapId,
)
    requires
        swept(before, roots, after),
        forall|k: int| 0 <= k < roots.len() ==> !garbage(#[trigger] roots[k]),
        forall|parent: HeapId, k: int|
            before.live(parent) && 0 <= k < children(before.data(parent)).len() && (#[trigger] children(
                before.data(parent),
            )[k] matches Value::Ref(child) && garbage(child)) ==> garbage(parent),
        garbage(id),
    ensures
        !after.live(id),
{
    if after.live(id) {
        let n = choose|n: nat| #[trigger] within(before, roots, n, id);
        lemma_no_way_to_garbage(before, roots, garbage, n, id);
    }
}

/// No references lead from the roots to garbage.
proof fn lemma_no_way_to_garbage(
    h: HeapModel,
    roots: Seq<HeapId>,
    garbage: spec_fn(HeapId) -> bool,
    n: nat,
    id: HeapId,
)
    requires
        forall|k: int| 0 <= k < roots.len() ==> !garbage(#[trigger] roots[k]),
        forall|parent: HeapId, k: int|
            h.live(parent) && 0 <= k < children(h.data(parent)).len() && (#[trigger] children(
                h.data(parent),
            )[k] matches Value::Ref(child) && garbage(child)) ==> garbage(parent),
        within(h, roots, n, id),
    ensures
        !garbage(id),
    decreases n,
{
    if n == 0 {
        let k = roots.index_of(id);
        assert(roots[k] == id);
    } else {
        let m = (n - 1) as nat;
        if within(h, roots, m, id) {
            lemma_no_way_to_garbage(h, roots, garbage, m, id);
        } else {
            let parent = choose|parent: HeapId|
                within(h, roots, m, parent) && #[trigger] refers(h, parent, id);
            lemma_no_way_to_garbage(h, roots, garbage, m, parent);
            let k = lemma_ids_from(children(h.data(parent)), id);
            assert(children(h.data(parent))[k] == Value::Ref(id));
        }
    }
}

/// A reference among those of several values is that of one of them.
proof fn lemma_ids_from(values: Seq<Value>, id: HeapId) -> (k: int)
    requires
        ids_of(values).contains(id),
    ensures
        0 <= k < values.len(),
        values[k] == Value::Ref(id),
    decreases values.len(),
{
    let i = ids_of(values).index_of(id);
    let front = ids_of(values.drop_last());
    if i < front.len() {
        assert(front[i] == id);
        lemma_ids_from(values.drop_last(), id)
    } else {
        values.len() - 1
    }
}

} // verus!
