//! Draining iterators that are not in the heap.
use vstd::prelude::*;

use crate::advance::{for_next_result, lemma_step, settled, Advance};
use crate::callable::{begun, entered, left, lemma_left, CallableStep, ProducedStep};
use crate::data::HeapData;
use crate::error::{ResourceError, RunError, RunResult};
use crate::heap::Heap;
use crate::intern::Interns;
use crate::iter::{IterValue, MontyIter};
use crate::model::{
    lemma_dropped, lemma_owned_live, lemma_owns_parts, HeapModel, IterModel, SourceModel,
};
use crate::next::stepped_vm;
use crate::resource::ResourceTracker;
use crate::semantics::{iter_fits, step, Outcome, Step};
use crate::value::{ids_of, HeapId, Value};
use crate::vm::{VM, VmModel};

verus! {

/// How many items there are in all, as far as that can be told without calling anything.
pub open spec fn source_len(it: IterModel, h: HeapModel) -> nat {
    match it.source {
        SourceModel::Range { len, .. } => len,
        SourceModel::IterStr { len, .. } => len,
        SourceModel::InternBytes { len, .. } => len,
        SourceModel::HeapRef { heap_id, len, .. } => match len {
            Some(l) => l,
            None => h.data(heap_id)->List_0.len(),
        },
        SourceModel::CallableSentinel { .. } => 0,
    }
}

/// How many items are left, as far as that can be told without calling anything.
pub open spec fn size_left(it: IterModel, h: HeapModel) -> nat {
    if source_len(it, h) > it.index {
        (source_len(it, h) - it.index) as nat
    } else {
        0
    }
}

/// The items that were gathered, and the iterator and the heap then.
pub struct Gathered {
    pub items: Seq<Value>,
    pub iter: IterModel,
    pub heap: HeapModel,
}

/// What `n` advances give, each of which yields an item.
pub open spec fn gathered(it: IterModel, h: HeapModel, interns: Interns, n: nat) -> Gathered
    decreases n,
{
    if n == 0 {
        Gathered { items: Seq::empty(), iter: it, heap: h }
    } else {
        let before = gathered(it, h, interns, (n - 1) as nat);
        let s = step(before.iter, before.heap, interns);
        Gathered { items: before.items.push(s.outcome->Item_0), iter: s.iter, heap: s.heap }
    }
}

/// The advance after `n` others.
pub open spec fn nth_step(it: IterModel, h: HeapModel, interns: Interns, n: nat) -> Step {
    let before = gathered(it, h, interns, n);
    step(before.iter, before.heap, interns)
}

/// At least `n` advances yield items.
pub open spec fn yields(it: IterModel, h: HeapModel, interns: Interns, n: nat) -> bool {
    forall|k: nat| k < n ==> (#[trigger] nth_step(it, h, interns, k)).outcome is Item
}

/// What draining an iterator comes to.
#[derive(Debug)]
pub enum Collected {
    /// All the items.
    Done(Vec<Value>),
    /// The callable has to be called before there can be more.
    Call(PendingCollect),
}

/// An iterator that is drained and waits for its callable to be called.
#[derive(Debug)]
pub struct PendingCollect {
    pub iter: MontyIter,
    pub items: Vec<Value>,
    pub step: CallableStep,
}

/// An iterator that is drained and waits for the produced value to be compared with the sentinel.
#[derive(Debug)]
pub struct PendingItem {
    pub iter: MontyIter,
    pub items: Vec<Value>,
    pub step: ProducedStep,
}

/// Draining the iterator `it`, behind the items in `first`, stops after `n` items with `r` and
/// `after`, where `ruling` is what the tracker says then. The iterator is dropped, unless its callable
/// has to be called. Items that were gathered before a failure are gone, and their counts stay.
pub open spec fn stops_under(
    ruling: Result<(), ResourceError>,
    it: IterModel,
    first: Seq<Value>,
    before: VmModel,
    n: nat,
    r: RunResult<Collected>,
    after: VmModel,
) -> bool {
    let g = gathered(it, before.heap, before.interns, n);
    let s = nth_step(it, before.heap, before.interns, n);
    let reached = before.with_heap(g.heap);
    let ended = before.with_heap(s.heap.dropped(it.value));
    match ruling {
        Ok(()) => match s.outcome {
            Outcome::Item(_) => false,
            Outcome::Exhausted => {
                &&& r matches Ok(Collected::Done(items)) && items@ == first + g.items
                &&& after == ended
            },
            Outcome::Failed(e) => r == Err::<Collected, RunError>(e) && after == ended,
            Outcome::Call => {
                let pair = g.iter.source->pair;
                &&& r matches Ok(Collected::Call(pending)) && pending.iter@ == g.iter
                    && pending.items@ == first + g.items && pending.step == begun(reached, pair)
                &&& after == entered(reached, pair)
            },
        },
        Err(e) => r == Err::<Collected, RunError>(RunError::Resource(e)) && after
            == before.with_heap(g.heap.dropped(it.value)),
    }
}

/// Draining the iterator `it`, behind the items in `first`, stops after `n` items with `r` and
/// `after`. The tracker rules on the time that the run has taken before every item and where it
/// stops.
pub open spec fn stops(
    it: IterModel,
    first: Seq<Value>,
    before: VmModel,
    n: nat,
    r: RunResult<Collected>,
    after: VmModel,
) -> bool {
    &&& yields(it, before.heap, before.interns, n)
    &&& n > 0 ==> before.heap.time_allowed()
    &&& exists|elapsed: u64|
        stops_under(#[trigger] before.heap.ruling(elapsed), it, first, before, n, r, after)
}

/// An item leaves one less.
pub proof fn lemma_size_left(it: IterModel, h: HeapModel, interns: Interns)
    requires
        h.counted(),
        h.slots.len() <= usize::MAX,
        iter_fits(it, h, interns),
    ensures
        ({
            let s = step(it, h, interns);
            s.outcome is Item ==> size_left(it, h) > 0 && size_left(s.iter, s.heap) == size_left(
                it,
                h,
            ) - 1
        }),
{
    let s = step(it, h, interns);
    assert(ids_of(Seq::<Value>::empty()) =~= Seq::<HeapId>::empty());
    lemma_step(it, h, interns, Seq::empty());
    match it.source {
        SourceModel::HeapRef { heap_id, .. } => {
            assert(h.live(heap_id));
            assert(s.heap.data(heap_id) == h.data(heap_id));
        },
        _ => {},
    }
}

impl MontyIter {
    /// How many items are left. For a list that may yet change; for a callable-driven iterator it
    /// cannot be told, and 0 is returned.
    pub fn size_hint<T: ResourceTracker>(&self, heap: &Heap<T>) -> (size: usize)
        requires
            self@.source matches SourceModel::HeapRef { heap_id, len, .. } ==> len is Some || (
            heap@.live(heap_id) && heap@.data(heap_id) is List),
        ensures
            size == size_left(self@, heap@),
    {
        let len: usize = match &self.iter_value {
            IterValue::Range { len, .. } => *len,
            IterValue::IterStr { len, .. } => *len,
            IterValue::InternBytes { len, .. } => *len,
            IterValue::HeapRef { heap_id, len, .. } => match len {
                Some(l) => *l,
                None => match heap.get(*heap_id) {
                    HeapData::List(items) => items.len(),
                    _ => 0,
                },
            },
            IterValue::CallableSentinel { .. } => 0,
        };
        len.saturating_sub(self.index)
    }

    /// Goes on with `for_next` of a callable-driven iterator, once its step has ended: `stepped` is
    /// what the step produced, or nothing where that was the sentinel, which exhausts the iterator.
    pub fn for_next_stepped(&mut self, stepped: Option<Value>) -> (r: Option<Value>)
        requires
            old(self)@.source matches SourceModel::CallableSentinel { done, .. } && !done,
            old(self)@.index < usize::MAX,
        ensures
            r == stepped,
            r == settled(old(self)@, stepped).0,
            final(self)@ == settled(old(self)@, stepped).1,
    {
        match stepped {
            Some(value) => {
                self.index = self.index + 1;
                Some(value)
            },
            None => {
                if let IterValue::CallableSentinel { done, .. } = &mut self.iter_value {
                    *done = true;
                }
                None
            },
        }
    }

    /// All the items that are left. The iterator is dropped.
    ///
    /// A callable-driven iterator goes on with `PendingCollect::called` once its callable has been
    /// called.
    pub fn collect<T: ResourceTracker>(self, vm: &mut VM<T>) -> (r: RunResult<Collected>)
        requires
            old(vm)@.heap.owns(seq![self@.value]),
            old(vm)@.heap.headroom(2 * size_left(self@, old(vm)@.heap) + 2),
            iter_fits(self@, old(vm)@.heap, old(vm)@.interns),
            old(vm)@.gc_pause_depth < usize::MAX,
        ensures
            exists|n: nat| #[trigger]
                stops(self@, Seq::empty(), old(vm)@, n, r, final(vm)@),
    {
        collect_behind(self, Vec::new(), vm)
    }
}

/// The iterator `it`, which is being drained behind the items in `first`, has yielded `n` items.
spec fn gathering(
    it: IterModel,
    first: Seq<Value>,
    before: VmModel,
    n: nat,
    now: VmModel,
    iter: IterModel,
    items: Seq<Value>,
) -> bool {
    let g = gathered(it, before.heap, before.interns, n);
    &&& now == before.with_heap(g.heap)
    &&& now.heap.owns(seq![it.value])
    &&& now.heap.counted()
    &&& now.heap.headroom(2 * size_left(iter, now.heap) + 2)
    &&& now.heap.overtime == before.heap.overtime
    &&& n > 0 ==> before.heap.time_allowed()
    &&& iter == g.iter
    &&& iter.value == it.value
    &&& iter_fits(iter, now.heap, now.interns)
    &&& yields(it, before.heap, before.interns, n)
    &&& items == first + g.items
}

proof fn lemma_gathering_begins(it: IterModel, first: Seq<Value>, before: VmModel)
    requires
        before.heap.owns(seq![it.value]),
        before.heap.headroom(2 * size_left(it, before.heap) + 2),
        iter_fits(it, before.heap, before.interns),
    ensures
        gathering(it, first, before, 0, before, it, first),
{
    assert(first =~= first + gathered(it, before.heap, before.interns, 0).items);
    assert(before =~= before.with_heap(before.heap));
    assert(seq![it.value] + Seq::<Value>::empty() =~= seq![it.value]);
    lemma_owns_parts(before.heap, seq![it.value], Seq::empty());
}

proof fn lemma_gathering_goes_on(
    it: IterModel,
    first: Seq<Value>,
    before: VmModel,
    n: nat,
    now: VmModel,
    iter: IterModel,
    items: Seq<Value>,
)
    requires
        gathering(it, first, before, n, now, iter, items),
        now.heap.slots.len() <= usize::MAX,
    ensures
        ({
            let s = step(iter, now.heap, now.interns);
            &&& s == nth_step(it, before.heap, before.interns, n)
            &&& s.heap.owns(seq![it.value])
            &&& s.iter.value == it.value
            &&& s.heap.overtime == now.heap.overtime
            &&& s.outcome is Item && now.heap.time_allowed() ==> {
                &&& gathering(
                    it,
                    first,
                    before,
                    n + 1,
                    now.with_heap(s.heap),
                    s.iter,
                    items.push(s.outcome->Item_0),
                )
                &&& size_left(s.iter, s.heap) < size_left(iter, now.heap)
            }
        }),
{
    let h = now.heap;
    let s = step(iter, h, now.interns);
    lemma_step(iter, h, now.interns, seq![it.value]);
    lemma_size_left(iter, h, now.interns);
    if s.outcome is Item {
        let after = gathered(it, before.heap, before.interns, n + 1);
        assert forall|id: HeapId| #[trigger]
            s.heap.refs(id) + (2 * size_left(s.iter, s.heap) + 2) <= usize::MAX by {
            assert(h.refs(id) + (2 * size_left(iter, h) + 2) <= usize::MAX);
        }
        assert(items.push(s.outcome->Item_0) =~= first + after.items);
        assert(now.with_heap(s.heap) =~= before.with_heap(after.heap));
    }
}

/// Drains `iter`, behind the items in `items`.
#[verifier::loop_isolation(false)]
fn collect_behind<T: ResourceTracker>(iter: MontyIter, items: Vec<Value>, vm: &mut VM<T>) -> (r:
    RunResult<Collected>)
    requires
        old(vm)@.heap.owns(seq![iter@.value]),
        old(vm)@.heap.headroom(2 * size_left(iter@, old(vm)@.heap) + 2),
        iter_fits(iter@, old(vm)@.heap, old(vm)@.interns),
        old(vm)@.gc_pause_depth < usize::MAX,
    ensures
        exists|n: nat| #[trigger] stops(iter@, items@, old(vm)@, n, r, final(vm)@),
{
    let ghost before = vm@;
    let ghost it = iter@;
    let ghost first = items@;
    let ghost mut n: nat = 0;
    let mut iter = iter;
    let mut items = items;
    proof {
        lemma_gathering_begins(it, first, before);
    }
    loop
        invariant
            gathering(it, first, before, n, vm@, iter@, items@),
            vm@.gc_pause_depth < usize::MAX,
        decreases size_left(iter@, vm@.heap),
    {
        let ghost now = vm@;
        let ghost it_now = iter@;
        let ghost s = step(iter@, vm@.heap, vm.interns);
        proof {
            assert(vm.heap.entries.len() == now.heap.slots.len());
            lemma_gathering_goes_on(it, first, before, n, now, iter@, items@);
            assert(now.heap.headroom(2)) by {
                assert forall|id: HeapId| #[trigger] now.heap.refs(id) + 2 <= usize::MAX by {
                    assert(now.heap.refs(id) + (2 * size_left(iter@, now.heap) + 2) <= usize::MAX);
                }
            }
        }
        let advanced = iter.for_next(vm);
        let ghost elapsed = choose|elapsed: u64|
            for_next_result(
                #[trigger] now.heap.ruling(elapsed),
                it_now,
                now,
                advanced,
                iter@,
                vm@,
            );
        assert(before.heap.ruling(elapsed) == now.heap.ruling(elapsed));
        match advanced {
            Ok(Advance::Item(item)) => {
                items.push(item);
                proof {
                    n = n + 1;
                }
            },
            Ok(Advance::Exhausted) => {
                iter.drop_with_heap(&mut vm.heap);
                let r: RunResult<Collected> = Ok(Collected::Done(items));
                assert(stops_under(before.heap.ruling(elapsed), it, first, before, n, r, vm@));
                assert(stops(it, first, before, n, r, vm@));
                return r;
            },
            Ok(Advance::Call(step)) => {
                let r: RunResult<Collected> = Ok(
                    Collected::Call(PendingCollect { iter, items, step }),
                );
                assert(stops_under(before.heap.ruling(elapsed), it, first, before, n, r, vm@));
                assert(stops(it, first, before, n, r, vm@));
                return r;
            },
            Err(e) => {
                iter.drop_with_heap(&mut vm.heap);
                let r: RunResult<Collected> = Err(e);
                assert(stops_under(before.heap.ruling(elapsed), it, first, before, n, r, vm@));
                assert(stops(it, first, before, n, r, vm@));
                return r;
            },
        }
    }
}

/// `r` and `after` are what draining comes to once the callable has been called: the value it returned
/// is to be compared, the exception it raised is passed on and the iterator dropped.
pub open spec fn collect_called(
    pending: PendingCollect,
    before: VmModel,
    outcome: RunResult<Value>,
    r: RunResult<PendingItem>,
    after: VmModel,
) -> bool {
    match outcome {
        Ok(v) => r == Ok::<PendingItem, RunError>(
            PendingItem {
                iter: pending.iter,
                items: pending.items,
                step: ProducedStep { produced: v, step: pending.step },
            },
        ) && after == before,
        Err(e) => {
            let ended = left(before, pending.step);
            &&& r == Err::<PendingItem, RunError>(e)
            &&& after == ended.with_heap(ended.heap.dropped(pending.iter@.value))
        },
    }
}

impl PendingCollect {
    /// Goes on, once the callable has been called. An exception it raised is passed on; then the
    /// iterator is dropped, and the items that were gathered are gone.
    pub fn called<T: ResourceTracker>(self, vm: &mut VM<T>, outcome: RunResult<Value>) -> (r:
        RunResult<PendingItem>)
        requires
            match outcome {
                Ok(v) => old(vm)@.heap.owns(
                    seq![v, self.step.callable, self.step.sentinel] + seq![self.iter@.value],
                ),
                Err(_) => old(vm)@.heap.owns(
                    seq![self.step.callable, self.step.sentinel] + seq![self.iter@.value],
                ),
            },
            old(vm)@.gc_pause_depth > 0,
        ensures
            collect_called(self, old(vm)@, outcome, r, final(vm)@),
    {
        proof {
            let held = seq![self.iter@.value];
            if outcome is Ok {
                let v = outcome->Ok_0;
                lemma_owns_parts(vm@.heap, seq![v, self.step.callable, self.step.sentinel], held);
            } else {
                let two = seq![self.step.callable, self.step.sentinel];
                lemma_owns_parts(vm@.heap, two, held);
                lemma_left(vm@.heap, self.step, held);
            }
        }
        match self.step.called(vm, outcome) {
            Ok(step) => Ok(PendingItem { iter: self.iter, items: self.items, step }),
            Err(e) => {
                self.iter.drop_with_heap(&mut vm.heap);
                Err(e)
            },
        }
    }
}

/// What draining comes to once the comparison has answered: `r` and `after` are the result and the
/// state that it gives. The sentinel ends it. Anything else is one more item, and the callable is to
/// be called again, which the time limit may forbid.
pub open spec fn item_concluded(
    pending: PendingItem,
    before: VmModel,
    outcome: Result<bool, ResourceError>,
    r: RunResult<Collected>,
    after: VmModel,
) -> bool {
    let value = pending.iter@.value;
    match outcome {
        Ok(true) => {
            let ended = stepped_vm(before, pending.step, false);
            &&& r matches Ok(Collected::Done(items)) && items@ == pending.items@
            &&& after == ended.with_heap(ended.heap.dropped(value))
        },
        Ok(false) => {
            let ended = stepped_vm(before, pending.step, true);
            let pair = pending.iter@.source->pair;
            exists|elapsed: u64|
                match #[trigger] before.heap.ruling(elapsed) {
                    Ok(()) => {
                        &&& r matches Ok(Collected::Call(more)) && more.iter@ == settled(
                            pending.iter@,
                            Some(pending.step.produced),
                        ).1 && more.items@ == pending.items@.push(pending.step.produced)
                            && more.step == begun(ended, pair)
                        &&& after == entered(ended, pair)
                    },
                    Err(e) => {
                        &&& r == Err::<Collected, RunError>(RunError::Resource(e))
                        &&& after == ended.with_heap(ended.heap.dropped(value))
                    },
                }
        },
        Err(e) => {
            let ended = stepped_vm(before, pending.step, false);
            &&& r == Err::<Collected, RunError>(RunError::Resource(e))
            &&& after == ended.with_heap(ended.heap.dropped(value))
        },
    }
}

impl PendingItem {
    /// Goes on, once the produced value has been compared with the sentinel: the sentinel ends the
    /// iteration, anything else is one more item, and the callable is due again.
    pub fn compared<T: ResourceTracker>(
        self,
        vm: &mut VM<T>,
        outcome: Result<bool, ResourceError>,
    ) -> (r: RunResult<Collected>)
        requires
            old(vm)@.heap.owns(
                seq![self.step.produced, self.step.step.callable, self.step.step.sentinel] + seq![
                    self.iter@.value,
                ],
            ),
            old(vm)@.heap.headroom(2),
            iter_fits(self.iter@, old(vm)@.heap, old(vm)@.interns),
            self.iter@.source matches SourceModel::CallableSentinel { done, .. } && !done,
            self.iter@.index < usize::MAX,
            old(vm)@.gc_pause_depth > 0,
        ensures
            item_concluded(self, old(vm)@, outcome, r, final(vm)@),
    {
        let ghost before = vm@;
        let ghost h = vm@.heap;
        proof {
            lemma_item_compared(h, self.step, self.iter@.value);
        }
        let mut iter = self.iter;
        let mut items = self.items;
        match self.step.compared(vm, outcome) {
            Ok(stepped) => match iter.for_next_stepped(stepped) {
                Some(item) => {
                    items.push(item);
                    let ghost ended = vm@;
                    proof {
                        assert(ended.heap.headroom(2)) by {
                            assert forall|id: HeapId| #[trigger]
                                ended.heap.refs(id) + 2 <= usize::MAX by {
                                assert(h.refs(id) + 2 <= usize::MAX);
                                assert(ended.heap.refs(id) <= h.refs(id));
                            }
                        }
                    }
                    let ghost it = iter@;
                    let ghost gathered_items = items@;
                    let r = collect_behind(iter, items, vm);
                    proof {
                        let n = choose|n: nat| #[trigger]
                            stops(it, gathered_items, ended, n, r, vm@);
                        let elapsed = choose|elapsed: u64|
                            stops_under(
                                #[trigger] ended.heap.ruling(elapsed),
                                it,
                                gathered_items,
                                ended,
                                n,
                                r,
                                vm@,
                            );
                        assert(before.heap.ruling(elapsed) == ended.heap.ruling(elapsed));
                        assert(nth_step(it, ended.heap, ended.interns, 0).outcome is Call);
                        assert(n == 0);
                        assert(gathered_items + gathered(
                            it,
                            ended.heap,
                            ended.interns,
                            0,
                        ).items =~= gathered_items);
                        assert(ended.with_heap(ended.heap) =~= ended);
                    }
                    r
                },
                None => {
                    iter.drop_with_heap(&mut vm.heap);
                    Ok(Collected::Done(items))
                },
            },
            Err(e) => {
                iter.drop_with_heap(&mut vm.heap);
                Err(e)
            },
        }
    }
}

/// What is owned when a step of an iterator that owns `value` ends, and after it.
proof fn lemma_item_compared(h: HeapModel, step: ProducedStep, value: Value)
    requires
        h.owns(
            seq![step.produced, step.step.callable, step.step.sentinel] + seq![value],
        ),
    ensures
        h.owns(seq![step.produced, step.step.callable, step.step.sentinel]),
        h.dropped(step.produced).dropped(step.step.callable).dropped(step.step.sentinel).owns(
            seq![value],
        ),
        ({
            let kept = h.dropped(step.step.callable).dropped(step.step.sentinel);
            &&& kept.owns(seq![value])
            &&& kept.overtime == h.overtime
            &&& forall|id: HeapId| #[trigger] kept.refs(id) <= h.refs(id)
            &&& value matches Value::Ref(id) ==> kept.live(id) && kept.data(id) == h.data(id)
        }),
{
    let held = seq![value];
    let three = seq![step.produced, step.step.callable, step.step.sentinel];
    let two = seq![step.step.callable, step.step.sentinel];
    lemma_owns_parts(h, three, held);
    assert(three + held =~= seq![step.produced] + (two + held));
    lemma_dropped(h, step.produced, two + held);
    lemma_left(h.dropped(step.produced), step.step, held);
    lemma_left(h, step.step, held);
    let kept = h.dropped(step.step.callable).dropped(step.step.sentinel);
    lemma_owned_live(kept, held, 0);
}

} // verus!
