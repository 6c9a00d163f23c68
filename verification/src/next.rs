//! The builtin `next`.
use vstd::prelude::*;

use crate::advance::{
    is_iter, iter_at, lemma_step, pair_of, settled, settled_heap, with_iter, Advance, HeapRead,
    HeapReadOutput,
};
use crate::callable::{begun, entered, left, lemma_left, CallableStep, ProducedStep};
use crate::data::data_type;
use crate::error::{ResourceError, RunError, RunResult};
use crate::heap::value_type;
use crate::model::{
    lemma_backed_weaken, lemma_dropped, lemma_owned_live, lemma_owns_parts, lemma_with_data,
    DataModel, HeapModel,
};
use crate::resource::ResourceTracker;
use crate::semantics::{iter_fits, step, Outcome};
use crate::value::{
    ids_of, lemma_ids_of_concat, lemma_occurrences_concat, occurrences, HeapId, Value,
};
use crate::vm::{VM, VmModel};

verus! {

/// What `next` comes to.
#[derive(Debug)]
pub enum Next {
    /// The value it returns.
    Value(Value),
    /// The callable has to be called before it can go on.
    Call(PendingNext),
}

/// A `next` whose iterator waits for its callable to be called.
#[derive(Debug)]
pub struct PendingNext {
    pub iter: HeapRead,
    pub default: Option<Value>,
    pub step: CallableStep,
}

/// A `next` whose iterator waits for the produced value to be compared with the sentinel.
#[derive(Debug)]
pub struct PendingProduced {
    pub iter: HeapRead,
    pub default: Option<Value>,
    pub step: ProducedStep,
}

/// The value in `default`, if there is one.
pub open spec fn default_values(default: Option<Value>) -> Seq<Value> {
    match default {
        Some(value) => seq![value],
        None => Seq::empty(),
    }
}

/// The heap once `default` is dropped.
pub open spec fn without_default(h: HeapModel, default: Option<Value>) -> HeapModel {
    match default {
        Some(value) => h.dropped(value),
        None => h,
    }
}

/// What `next` returns of an exhausted iterator: the default, or the error that there is none.
pub open spec fn exhausted_result(default: Option<Value>) -> RunResult<Value> {
    match default {
        Some(value) => Ok(value),
        None => Err(RunError::StopIteration),
    }
}

fn drop_default<T: ResourceTracker>(default: Option<Value>, vm: &mut VM<T>)
    requires
        old(vm)@.heap.owns(default_values(default)),
    ensures
        final(vm)@ == old(vm)@.with_heap(without_default(old(vm)@.heap, default)),
{
    match default {
        Some(value) => value.drop_with_heap(&mut vm.heap),
        None => {},
    }
}

/// What `next` makes of an item or of none: an item is returned and the default dropped; without
/// one the default is returned.
fn conclude<T: ResourceTracker>(item: Option<Value>, default: Option<Value>, vm: &mut VM<T>) -> (r:
    RunResult<Value>)
    requires
        item is Some ==> old(vm)@.heap.owns(default_values(default)),
    ensures
        match item {
            Some(value) => r == Ok::<Value, RunError>(value) && final(vm)@ == old(vm)@.with_heap(
                without_default(old(vm)@.heap, default),
            ),
            None => r == exhausted_result(default) && final(vm)@ == old(vm)@,
        },
{
    match item {
        Some(value) => {
            drop_default(default, vm);
            Ok(value)
        },
        None => match default {
            Some(value) => Ok(value),
            None => Err(RunError::StopIteration),
        },
    }
}

/// What `next` of the callable-driven iterator `id`, which is not exhausted, comes to under `ruling`:
/// its callable has to be called, or the tracker refuses and only the default is dropped.
pub open spec fn next_begun(
    ruling: Result<(), ResourceError>,
    id: HeapId,
    default: Option<Value>,
    before: VmModel,
    r: RunResult<Next>,
    after: VmModel,
) -> bool {
    let pair = pair_of(iter_at(before.heap, id));
    match ruling {
        Ok(()) => r == Ok::<Next, RunError>(
            Next::Call(PendingNext { iter: HeapRead { id }, default, step: begun(before, pair) }),
        ) && after == entered(before, pair),
        Err(e) => r == Err::<Next, RunError>(RunError::Resource(e)) && after == before.with_heap(
            without_default(before.heap, default),
        ),
    }
}

/// What `next` comes to: `r` and `after` are the result and the state that it gives.
pub open spec fn next_result(
    iter_value: Value,
    default: Option<Value>,
    before: VmModel,
    r: RunResult<Next>,
    after: VmModel,
) -> bool {
    let h = before.heap;
    let refused = before.with_heap(without_default(h, default));
    match iter_value {
        Value::Ref(id) => if h.data(id) is Iter {
            let it = iter_at(h, id);
            let s = step(it, h, before.interns);
            let moved = with_iter(s.heap, id, s.iter);
            match s.outcome {
                Outcome::Item(item) => r == Ok::<Next, RunError>(Next::Value(item)) && after
                    == before.with_heap(without_default(moved, default)),
                Outcome::Exhausted => after == before.with_heap(moved) && match default {
                    Some(value) => r == Ok::<Next, RunError>(Next::Value(value)),
                    None => r == Err::<Next, RunError>(RunError::StopIteration),
                },
                Outcome::Failed(e) => r == Err::<Next, RunError>(e) && after == before.with_heap(
                    without_default(moved, default),
                ),
                Outcome::Call => exists|elapsed: u64|
                    next_begun(#[trigger] h.ruling(elapsed), id, default, before, r, after),
            }
        } else {
            r == Err::<Next, RunError>(RunError::NotAnIterator(data_type(h.data(id)))) && after
                == refused
        },
        _ => r == Err::<Next, RunError>(RunError::NotIterable(value_type(iter_value, h))) && after
            == refused,
    }
}

/// An advance leaves a default what it owns.
proof fn lemma_advance_keeps_default(vm: VmModel, id: HeapId, default: Option<Value>)
    requires
        vm.heap.owns(default_values(default)),
        vm.heap.slots.len() <= usize::MAX,
        is_iter(vm.heap, id),
        iter_fits(iter_at(vm.heap, id), vm.heap, vm.interns),
    ensures
        ({
            let s = step(iter_at(vm.heap, id), vm.heap, vm.interns);
            with_iter(s.heap, id, s.iter).owns(default_values(default))
        }),
{
    let it = iter_at(vm.heap, id);
    let s = step(it, vm.heap, vm.interns);
    lemma_step(it, vm.heap, vm.interns, default_values(default));
    assert(vm.heap.live(id));
    assert(s.heap.data(id) == vm.heap.data(id));
    lemma_with_data(
        s.heap,
        id,
        DataModel::Iter(s.iter),
        ids_of(default_values(default)),
    );
}

/// `next(iterator)` or `next(iterator, default)`: the next item, or else the default, or else the
/// error `StopIteration`.
///
/// A callable-driven iterator goes on with `PendingNext::called` once its callable has been called.
pub fn iterator_next<T: ResourceTracker>(
    iter_value: &Value,
    default: Option<Value>,
    vm: &mut VM<T>,
) -> (r: RunResult<Next>)
    requires
        old(vm)@.heap.owns(default_values(default)),
        old(vm)@.heap.headroom(2),
        *iter_value matches Value::Ref(id) ==> old(vm)@.heap.live(id) && (is_iter(
            old(vm)@.heap,
            id,
        ) ==> iter_fits(iter_at(old(vm)@.heap, id), old(vm)@.heap, old(vm)@.interns)),
        old(vm)@.gc_pause_depth < usize::MAX,
    ensures
        next_result(*iter_value, default, old(vm)@, r, final(vm)@),
{
    let ghost before = vm@;
    let iter_id = match iter_value {
        Value::Ref(id) => *id,
        _ => {
            let t = iter_value.py_type(&vm.heap);
            drop_default(default, vm);
            return Err(RunError::NotIterable(t));
        },
    };
    match vm.heap.read(iter_id) {
        HeapReadOutput::Iter(iter) => {
            proof {
                assert(vm.heap.entries.len() == before.heap.slots.len());
                lemma_owns_parts(before.heap, default_values(default), Seq::empty());
                assert(default_values(default) + Seq::<Value>::empty() =~= default_values(default));
                lemma_advance_keeps_default(before, iter.id, default);
            }
            match iter.advance(vm) {
                Ok(Advance::Item(item)) => match conclude(Some(item), default, vm) {
                    Ok(value) => Ok(Next::Value(value)),
                    Err(e) => Err(e),
                },
                Ok(Advance::Exhausted) => match conclude(None, default, vm) {
                    Ok(value) => Ok(Next::Value(value)),
                    Err(e) => Err(e),
                },
                Ok(Advance::Call(step)) => Ok(Next::Call(PendingNext { iter, default, step })),
                Err(e) => {
                    drop_default(default, vm);
                    Err(e)
                },
            }
        },
        HeapReadOutput::Other(t) => {
            drop_default(default, vm);
            Err(RunError::NotAnIterator(t))
        },
    }
}

/// `r` and `after` are what a `next` comes to once the callable has been called: the value it returned
/// is to be compared, the exception it raised is passed on and the default dropped.
pub open spec fn next_called(
    pending: PendingNext,
    before: VmModel,
    outcome: RunResult<Value>,
    r: RunResult<PendingProduced>,
    after: VmModel,
) -> bool {
    match outcome {
        Ok(v) => r == Ok::<PendingProduced, RunError>(
            PendingProduced {
                iter: pending.iter,
                default: pending.default,
                step: ProducedStep { produced: v, step: pending.step },
            },
        ) && after == before,
        Err(e) => {
            let ended = left(before, pending.step);
            &&& r == Err::<PendingProduced, RunError>(e)
            &&& after == ended.with_heap(without_default(ended.heap, pending.default))
        },
    }
}

impl PendingNext {
    /// Goes on, once the callable has been called. An exception it raised is passed on.
    pub fn called<T: ResourceTracker>(self, vm: &mut VM<T>, outcome: RunResult<Value>) -> (r:
        RunResult<PendingProduced>)
        requires
            match outcome {
                Ok(v) => old(vm)@.heap.owns(
                    seq![v, self.step.callable, self.step.sentinel] + default_values(self.default),
                ),
                Err(_) => old(vm)@.heap.owns(
                    seq![self.step.callable, self.step.sentinel] + default_values(self.default),
                ),
            },
            old(vm)@.gc_pause_depth > 0,
        ensures
            next_called(self, old(vm)@, outcome, r, final(vm)@),
    {
        proof {
            let two = seq![self.step.callable, self.step.sentinel];
            let defaults = default_values(self.default);
            if outcome is Ok {
                let v = outcome->Ok_0;
                lemma_owns_parts(
                    vm@.heap,
                    seq![v, self.step.callable, self.step.sentinel],
                    defaults,
                );
            } else {
                lemma_owns_parts(vm@.heap, two, defaults);
                lemma_left(vm@.heap, self.step, defaults);
            }
        }
        match self.step.called(vm, outcome) {
            Ok(step) => Ok(PendingProduced { iter: self.iter, default: self.default, step }),
            Err(e) => {
                drop_default(self.default, vm);
                Err(e)
            },
        }
    }
}

/// What a step came to once its comparison has answered whether the values are equal.
pub open spec fn stepped_value(step: ProducedStep, equal: bool) -> Option<Value> {
    if equal {
        None
    } else {
        Some(step.produced)
    }
}

/// The interpreter once the comparison of a step has answered; the produced value is dropped unless
/// it is `kept`.
pub open spec fn stepped_vm(vm: VmModel, step: ProducedStep, kept: bool) -> VmModel {
    if kept {
        left(vm, step.step)
    } else {
        left(vm.with_heap(vm.heap.dropped(step.produced)), step.step)
    }
}

/// What a `next` comes to once the comparison has answered: `r` and `after` are the result and the
/// state that it gives. What the step produced is returned, unless it was the sentinel or the
/// iterator has been exhausted meanwhile; then it is as with any exhausted iterator.
pub open spec fn next_concluded(
    pending: PendingProduced,
    before: VmModel,
    outcome: Result<bool, ResourceError>,
    r: RunResult<Value>,
    after: VmModel,
) -> bool {
    match outcome {
        Ok(equal) => {
            let ended = stepped_vm(before, pending.step, !equal);
            let stepped = stepped_value(pending.step, equal);
            let it = iter_at(before.heap, pending.iter.id);
            let heap = settled_heap(ended.heap, pending.iter.id, stepped);
            match settled(it, stepped).0 {
                Some(item) => r == Ok::<Value, RunError>(item) && after == ended.with_heap(
                    without_default(heap, pending.default),
                ),
                None => r == exhausted_result(pending.default) && after == ended.with_heap(heap),
            }
        },
        Err(e) => {
            let ended = stepped_vm(before, pending.step, false);
            &&& r == Err::<Value, RunError>(RunError::Resource(e))
            &&& after == ended.with_heap(without_default(ended.heap, pending.default))
        },
    }
}

impl PendingProduced {
    /// Ends the call of `next`, once the produced value has been compared with the sentinel.
    ///
    /// The caller still holds its reference to the iterator.
    pub fn compared<T: ResourceTracker>(
        self,
        vm: &mut VM<T>,
        outcome: Result<bool, ResourceError>,
    ) -> (r: RunResult<Value>)
        requires
            old(vm)@.heap.owns(
                seq![self.step.produced, self.step.step.callable, self.step.step.sentinel]
                    + default_values(self.default).push(Value::Ref(self.iter.id)),
            ),
            is_iter(old(vm)@.heap, self.iter.id),
            iter_at(old(vm)@.heap, self.iter.id).source is CallableSentinel,
            iter_at(old(vm)@.heap, self.iter.id).index < usize::MAX,
            old(vm)@.gc_pause_depth > 0,
        ensures
            next_concluded(self, old(vm)@, outcome, r, final(vm)@),
    {
        proof {
            lemma_compared(vm@.heap, self.step, self.default, self.iter.id);
        }
        match self.step.compared(vm, outcome) {
            Ok(stepped) => {
                let item = self.iter.advance_stepped(vm, stepped);
                conclude(item, self.default, vm)
            },
            Err(e) => {
                drop_default(self.default, vm);
                Err(e)
            },
        }
    }
}

/// What is owned when a step of the iterator `id` ends, and after it.
pub proof fn lemma_compared(h: HeapModel, step: ProducedStep, default: Option<Value>, id: HeapId)
    requires
        h.owns(
            seq![step.produced, step.step.callable, step.step.sentinel] + default_values(
                default,
            ).push(Value::Ref(id)),
        ),
        is_iter(h, id),
        iter_at(h, id).source is CallableSentinel,
    ensures
        h.owns(seq![step.produced, step.step.callable, step.step.sentinel]),
        ({
            // The produced value was the sentinel, or could not be compared.
            let dropped = h.dropped(step.produced).dropped(step.step.callable).dropped(
                step.step.sentinel,
            );
            &&& dropped.owns(default_values(default))
            &&& dropped.owns(default_values(default).push(Value::Ref(id)))
            &&& is_iter(dropped, id)
            &&& iter_at(dropped, id) == iter_at(h, id)
        }),
        ({
            // The produced value is kept.
            let kept = h.dropped(step.step.callable).dropped(step.step.sentinel);
            &&& kept.owns(seq![step.produced])
            &&& kept.owns(default_values(default).push(Value::Ref(id)))
            &&& is_iter(kept, id)
            &&& iter_at(kept, id) == iter_at(h, id)
            &&& kept.dropped(step.produced).owns(default_values(default))
            &&& is_iter(kept.dropped(step.produced), id)
            &&& iter_at(kept.dropped(step.produced), id) == iter_at(h, id)
            &&& settled_heap(kept, id, Some(step.produced)).owns(default_values(default))
        }),
{
    let defaults = default_values(default);
    let rest = defaults.push(Value::Ref(id));
    let three = seq![step.produced, step.step.callable, step.step.sentinel];
    let two = seq![step.step.callable, step.step.sentinel];
    lemma_owns_parts(h, three, rest);

    // Dropped first.
    assert(three + rest =~= seq![step.produced] + (two + rest));
    lemma_dropped(h, step.produced, two + rest);
    let without = h.dropped(step.produced);
    lemma_left(without, step.step, rest);
    let dropped = without.dropped(step.step.callable).dropped(step.step.sentinel);
    lemma_owned_live(dropped, rest, rest.len() - 1);
    assert(dropped.live(id));
    assert(without.live(id));
    assert(rest =~= defaults + seq![Value::Ref(id)]);
    lemma_owns_parts(dropped, defaults, seq![Value::Ref(id)]);

    // Kept.
    let others = seq![step.produced] + rest;
    lemma_owns_permuted(h, three + rest, two + others);
    lemma_left(h, step.step, others);
    let kept = h.dropped(step.step.callable).dropped(step.step.sentinel);
    lemma_owns_parts(kept, seq![step.produced], rest);
    lemma_owned_live(kept, rest, rest.len() - 1);
    assert(kept.live(id));
    lemma_dropped(kept, step.produced, rest);
    lemma_owns_parts(kept.dropped(step.produced), defaults, seq![Value::Ref(id)]);
    lemma_owned_live(kept.dropped(step.produced), rest, rest.len() - 1);
    assert(kept.dropped(step.produced).live(id));
    lemma_owns_parts(kept, defaults, seq![Value::Ref(id)]);
    let it = iter_at(kept, id);
    lemma_with_data(
        kept,
        id,
        DataModel::Iter(settled(it, Some(step.produced)).1),
        ids_of(defaults),
    );
}

/// Owners own what is theirs in whatever order they are told: here one stands behind two others
/// instead of before them.
pub proof fn lemma_owns_permuted(h: HeapModel, from: Seq<Value>, to: Seq<Value>)
    requires
        h.owns(from),
        from.len() >= 3,
        to.len() == from.len(),
        to[0] == from[1],
        to[1] == from[2],
        to[2] == from[0],
        forall|i: int| 3 <= i < from.len() ==> to[i] == from[i],
    ensures
        h.owns(to),
{
    let a = seq![from[0]];
    let b = seq![from[1], from[2]];
    let c = from.skip(3);
    assert(from =~= (a + b) + c);
    assert(to =~= (b + a) + c);
    lemma_ids_of_concat(a + b, c);
    lemma_ids_of_concat(b + a, c);
    lemma_ids_of_concat(a, b);
    lemma_ids_of_concat(b, a);
    assert forall|id: HeapId| #[trigger]
        occurrences(ids_of(to), id) <= occurrences(ids_of(from), id) by {
        lemma_occurrences_concat(ids_of(a + b), ids_of(c), id);
        lemma_occurrences_concat(ids_of(b + a), ids_of(c), id);
        lemma_occurrences_concat(ids_of(a), ids_of(b), id);
        lemma_occurrences_concat(ids_of(b), ids_of(a), id);
    }
    lemma_backed_weaken(h, ids_of(from), ids_of(to));
}

} // verus!
