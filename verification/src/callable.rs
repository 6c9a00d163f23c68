//! One step of a callable-driven iterator.
//!
//! A step calls the callable with no arguments and compares what it returns with the sentinel. Both
//! run code of the program, so the step is cut at these two places: `callable_sentinel_step` hands
//! out what is to be called, `CallableStep::called` takes what came of the call and hands out what
//! is to be compared, and `ProducedStep::compared` takes the verdict and ends the step.
//!
//! In between, the program may do anything, advancing this very iterator included. The collector is
//! suspended from the beginning of a step to its end, and the frame state of the caller is put back
//! at the end, whatever came of the step.
use vstd::prelude::*;

use crate::data::HeapData;
use crate::error::{ResourceError, RunError, RunResult};
use crate::items::lemma_items_live;
use crate::model::{children, lemma_cloned, lemma_dropped, HeapModel};
use crate::resource::ResourceTracker;
use crate::semantics::is_pair;
use crate::value::{HeapId, Value};
use crate::vm::{FrameState, VM, VmModel};

verus! {

/// A step whose callable is to be called, with no arguments.
#[derive(Debug)]
pub struct CallableStep {
    pub callable: Value,
    pub sentinel: Value,
    /// Where the caller stood.
    pub caller: FrameState,
}

/// A step whose callable has returned `produced`, which is to be compared with the sentinel by `==`.
#[derive(Debug)]
pub struct ProducedStep {
    pub produced: Value,
    pub step: CallableStep,
}

/// The callable of a pair.
pub open spec fn pair_callable(h: HeapModel, pair: HeapId) -> Value {
    h.data(pair)->Tuple_0[0]
}

/// The sentinel of a pair.
pub open spec fn pair_sentinel(h: HeapModel, pair: HeapId) -> Value {
    h.data(pair)->Tuple_0[1]
}

/// The step that begins with the pair `pair`.
pub open spec fn begun(vm: VmModel, pair: HeapId) -> CallableStep {
    CallableStep {
        callable: pair_callable(vm.heap, pair),
        sentinel: pair_sentinel(vm.heap, pair),
        caller: vm.frames,
    }
}

/// The interpreter once a step has begun: callable and sentinel are referred to once more, and the
/// collector is suspended.
pub open spec fn entered(vm: VmModel, pair: HeapId) -> VmModel {
    VmModel {
        heap: vm.heap.cloned(pair_callable(vm.heap, pair)).cloned(pair_sentinel(vm.heap, pair)),
        gc_pause_depth: vm.gc_pause_depth + 1,
        ..vm
    }
}

/// The interpreter once `step` has ended: its references are given back, the caller's frame state is
/// back in place, and its suspension of the collector is over.
pub open spec fn left(vm: VmModel, step: CallableStep) -> VmModel {
    VmModel {
        heap: vm.heap.dropped(step.callable).dropped(step.sentinel),
        frames: step.caller,
        gc_pause_depth: (vm.gc_pause_depth - 1) as nat,
        ..vm
    }
}

/// `r` and `after` are what the beginning of a step with the pair `pair` comes to under `ruling`: the
/// step, or the tracker's refusal with nothing changed.
pub open spec fn step_begun(
    ruling: Result<(), ResourceError>,
    pair: HeapId,
    before: VmModel,
    r: RunResult<CallableStep>,
    after: VmModel,
) -> bool {
    match ruling {
        Ok(()) => r == Ok::<CallableStep, RunError>(begun(before, pair)) && after == entered(
            before,
            pair,
        ),
        Err(e) => r == Err::<CallableStep, RunError>(RunError::Resource(e)) && after == before,
    }
}

/// Callable and sentinel of the pair tuple `pair`, each with a reference of its own.
pub fn callable_sentinel_pair<T: ResourceTracker>(vm: &mut VM<T>, pair: HeapId) -> (both: (
    Value,
    Value,
))
    requires
        old(vm)@.heap.counted(),
        old(vm)@.heap.headroom(2),
        is_pair(old(vm)@.heap, pair),
    ensures
        both.0 == pair_callable(old(vm)@.heap, pair),
        both.1 == pair_sentinel(old(vm)@.heap, pair),
        final(vm)@ == old(vm)@.with_heap(old(vm)@.heap.cloned(both.0).cloned(both.1)),
{
    let ghost h = vm@.heap;
    proof {
        lemma_items_live(h, pair);
        assert(children(h.data(pair))[0] == pair_callable(h, pair));
        assert(children(h.data(pair))[1] == pair_sentinel(h, pair));
        lemma_cloned(h, pair_callable(h, pair), Seq::empty());
    }
    match vm.heap.get(pair) {
        HeapData::Tuple(tuple) => {
            let callable = tuple.as_slice()[0].alias();
            let sentinel = tuple.as_slice()[1].alias();
            let callable = callable.clone_with_heap(&mut vm.heap);
            let sentinel = sentinel.clone_with_heap(&mut vm.heap);
            (callable, sentinel)
        },
        _ => {
            proof {
                assert(false);
            }
            (Value::PyNone, Value::PyNone)
        },
    }
}

/// Begins a step of the iterator over the pair `pair`, unless the tracker finds that the run has
/// taken too long.
pub fn callable_sentinel_step<T: ResourceTracker>(vm: &mut VM<T>, pair: HeapId) -> (r: RunResult<
    CallableStep,
>)
    requires
        old(vm)@.heap.counted(),
        old(vm)@.heap.headroom(2),
        is_pair(old(vm)@.heap, pair),
        old(vm)@.gc_pause_depth < usize::MAX,
    ensures
        exists|elapsed: u64|
            step_begun(#[trigger] old(vm)@.heap.ruling(elapsed), pair, old(vm)@, r, final(vm)@),
{
    let ruling = vm.heap.check_time();
    step_under(vm, pair, ruling)
}

/// Begins a step of the iterator over the pair `pair`, or fails before anything is taken, as
/// `ruling` says.
pub fn step_under<T: ResourceTracker>(
    vm: &mut VM<T>,
    pair: HeapId,
    ruling: Result<(), ResourceError>,
) -> (r: RunResult<CallableStep>)
    requires
        old(vm)@.heap.counted(),
        old(vm)@.heap.headroom(2),
        is_pair(old(vm)@.heap, pair),
        old(vm)@.gc_pause_depth < usize::MAX,
    ensures
        step_begun(ruling, pair, old(vm)@, r, final(vm)@),
{
    match ruling {
        Ok(()) => {
            vm.pause_gc();
            let caller = vm.frame_state();
            let (callable, sentinel) = callable_sentinel_pair(vm, pair);
            Ok(CallableStep { callable, sentinel, caller })
        },
        Err(e) => Err(RunError::Resource(e)),
    }
}

/// `r` and `after` are what a step comes to once the callable has been called: the value it returned
/// is to be compared, the exception it raised is passed on.
pub open spec fn call_ended(
    step: CallableStep,
    before: VmModel,
    outcome: RunResult<Value>,
    r: RunResult<ProducedStep>,
    after: VmModel,
) -> bool {
    match outcome {
        Ok(v) => r == Ok::<ProducedStep, RunError>(ProducedStep { produced: v, step }) && after
            == before,
        Err(e) => r == Err::<ProducedStep, RunError>(e) && after == left(before, step),
    }
}

/// `r` and `after` are what a step comes to once the produced value has been compared.
pub open spec fn step_ended(
    step: ProducedStep,
    before: VmModel,
    outcome: Result<bool, ResourceError>,
    r: RunResult<Option<Value>>,
    after: VmModel,
) -> bool {
    let without = left(before.with_heap(before.heap.dropped(step.produced)), step.step);
    match outcome {
        Ok(false) => r == Ok::<Option<Value>, RunError>(Some(step.produced)) && after == left(
            before,
            step.step,
        ),
        Ok(true) => r == Ok::<Option<Value>, RunError>(None) && after == without,
        Err(e) => r == Err::<Option<Value>, RunError>(RunError::Resource(e)) && after == without,
    }
}

impl CallableStep {
    /// Ends the step.
    fn leave<T: ResourceTracker>(self, vm: &mut VM<T>)
        requires
            old(vm)@.heap.owns(seq![self.callable, self.sentinel]),
            old(vm)@.gc_pause_depth > 0,
        ensures
            final(vm)@ == left(old(vm)@, self),
            final(vm)@.heap.counted(),
    {
        proof {
            let rest = seq![self.sentinel];
            assert(seq![self.callable, self.sentinel] =~= seq![self.callable] + rest);
            lemma_dropped(vm@.heap, self.callable, rest);
        }
        self.callable.drop_with_heap(&mut vm.heap);
        self.sentinel.drop_with_heap(&mut vm.heap);
        vm.restore_frame_state(self.caller);
        vm.resume_gc();
    }

    /// Goes on with the step, once the callable has been called.
    ///
    /// An exception it raised ends the step and is passed on as it is, whatever its type.
    pub fn called<T: ResourceTracker>(self, vm: &mut VM<T>, outcome: RunResult<Value>) -> (r:
        RunResult<ProducedStep>)
        requires
            match outcome {
                Ok(v) => old(vm)@.heap.owns(seq![v, self.callable, self.sentinel]),
                Err(_) => old(vm)@.heap.owns(seq![self.callable, self.sentinel]),
            },
            old(vm)@.gc_pause_depth > 0,
        ensures
            call_ended(self, old(vm)@, outcome, r, final(vm)@),
    {
        match outcome {
            Ok(produced) => Ok(ProducedStep { produced, step: self }),
            Err(e) => {
                self.leave(vm);
                Err(e)
            },
        }
    }
}

impl ProducedStep {
    /// Ends the step, once the produced value has been compared with the sentinel.
    ///
    /// A value equal to the sentinel is dropped: there is nothing to yield, and only then. Any other
    /// value is what the step produced. A comparison that failed ends the step with its error.
    pub fn compared<T: ResourceTracker>(
        self,
        vm: &mut VM<T>,
        outcome: Result<bool, ResourceError>,
    ) -> (r: RunResult<Option<Value>>)
        requires
            old(vm)@.heap.owns(seq![self.produced, self.step.callable, self.step.sentinel]),
            old(vm)@.gc_pause_depth > 0,
        ensures
            step_ended(self, old(vm)@, outcome, r, final(vm)@),
    {
        proof {
            let rest = seq![self.step.callable, self.step.sentinel];
            assert(seq![self.produced, self.step.callable, self.step.sentinel] =~= seq![
                self.produced,
            ] + rest);
            lemma_dropped(vm@.heap, self.produced, rest);
        }
        match outcome {
            Ok(false) => {
                self.step.leave(vm);
                Ok(Some(self.produced))
            },
            Ok(true) => {
                self.produced.drop_with_heap(&mut vm.heap);
                self.step.leave(vm);
                Ok(None)
            },
            Err(e) => {
                self.produced.drop_with_heap(&mut vm.heap);
                self.step.leave(vm);
                Err(RunError::Resource(e))
            },
        }
    }
}

/// The end of a step takes its references and no others.
pub proof fn lemma_left(h: HeapModel, step: CallableStep, rest: Seq<Value>)
    requires
        h.owns(seq![step.callable, step.sentinel] + rest),
    ensures
        ({
            let after = h.dropped(step.callable).dropped(step.sentinel);
            &&& after.owns(rest)
            &&& after.counted()
            &&& forall|id: HeapId| #[trigger]
                after.live(id) ==> h.live(id) && after.data(id) == h.data(id)
            &&& forall|id: HeapId| #[trigger] after.refs(id) <= h.refs(id)
            &&& after.slots.len() == h.slots.len()
            &&& after.budget == h.budget
            &&& after.overtime == h.overtime
        }),
{
    let others = seq![step.sentinel] + rest;
    assert(seq![step.callable, step.sentinel] + rest =~= seq![step.callable] + others);
    lemma_dropped(h, step.callable, others);
    let mid = h.dropped(step.callable);
    lemma_dropped(mid, step.sentinel, rest);
    let after = mid.dropped(step.sentinel);
    assert forall|id: HeapId| #[trigger] after.live(id) implies h.live(id) && after.data(id)
        == h.data(id) by {
        assert(mid.live(id));
    }
    assert forall|id: HeapId| #[trigger] after.refs(id) <= h.refs(id) by {
        assert(mid.refs(id) <= h.refs(id));
    }
}

} // verus!
