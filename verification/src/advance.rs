//! Advancing iterators, whether they stand on their own or live in the heap.
use vstd::prelude::*;

use crate::callable::{begun, callable_sentinel_step, entered, step_begun, step_under, CallableStep};
use crate::data::{data_type, HeapData};
use crate::error::{ResourceError, RunError, RunResult, Type};
use crate::heap::Heap;
use crate::intern::Interns;
use crate::items::{get_heap_item, keeps, lemma_read_item, readable};
use crate::iter::{IterValue, MontyIter};
use crate::model::{
    children, lemma_allocated, lemma_backed_weaken, lemma_cloned, DataModel, HeapModel, IterModel,
    SourceModel,
};
use crate::resource::ResourceTracker;
use crate::semantics::{container_fits, iter_fits, progression, range_fits, step, Outcome};
use crate::text::{char_at, lemma_encode_concat, lemma_encode_one};
use crate::value::{ids_of, HeapId, Value};
use crate::vm::{VM, VmModel};

verus! {

/// What an advance comes to.
#[derive(Debug)]
pub enum Advance {
    /// The next item.
    Item(Value),
    /// There is nothing more.
    Exhausted,
    /// The callable has to be called before the advance can go on.
    Call(CallableStep),
}

/// `r` and `after` are what an advance with this outcome gives: the outcome itself and the state
/// `settled`, or a step of the callable iterator over `pair`, which begins only where `ruling` lets it.
pub open spec fn advanced_under(
    ruling: Result<(), ResourceError>,
    r: RunResult<Advance>,
    outcome: Outcome,
    before: VmModel,
    after: VmModel,
    settled: VmModel,
    pair: HeapId,
) -> bool {
    match outcome {
        Outcome::Exhausted => r == Ok::<Advance, RunError>(Advance::Exhausted) && after == settled,
        Outcome::Item(item) => r == Ok::<Advance, RunError>(Advance::Item(item)) && after
            == settled,
        Outcome::Failed(e) => r == Err::<Advance, RunError>(e) && after == settled,
        Outcome::Call => match ruling {
            Ok(()) => r == Ok::<Advance, RunError>(Advance::Call(begun(before, pair))) && after
                == entered(before, pair),
            Err(e) => r == Err::<Advance, RunError>(RunError::Resource(e)) && after == before,
        },
    }
}

/// `r` and `after` are what an advance with this outcome gives. The tracker rules on the time that
/// the run has taken where a step is to begin, and not otherwise.
pub open spec fn advanced(
    r: RunResult<Advance>,
    outcome: Outcome,
    before: VmModel,
    after: VmModel,
    settled: VmModel,
    pair: HeapId,
) -> bool {
    if outcome is Call {
        exists|elapsed: u64|
            advanced_under(
                #[trigger] before.heap.ruling(elapsed),
                r,
                outcome,
                before,
                after,
                settled,
                pair,
            )
    } else {
        advanced_under(Ok(()), r, outcome, before, after, settled, pair)
    }
}

/// `r`, `iter` and `after` are what `for_next` of the iterator `it` comes to under `ruling`: one
/// advance, or the tracker's refusal with nothing changed, whatever the state of the iterator.
pub open spec fn for_next_result(
    ruling: Result<(), ResourceError>,
    it: IterModel,
    before: VmModel,
    r: RunResult<Advance>,
    iter: IterModel,
    after: VmModel,
) -> bool {
    let s = step(it, before.heap, before.interns);
    match ruling {
        Ok(()) => iter == s.iter && advanced_under(
            ruling,
            r,
            s.outcome,
            before,
            after,
            before.with_heap(s.heap),
            pair_of(it),
        ),
        Err(e) => r == Err::<Advance, RunError>(RunError::Resource(e)) && iter == it && after
            == before,
    }
}

/// The pair that a callable-driven iterator steps over.
pub open spec fn pair_of(it: IterModel) -> HeapId {
    it.source->pair
}

/// What is left of a range after its next value can still be told.
proof fn lemma_range_advances(next: i64, step: i64, remaining: int)
    requires
        range_fits(next as int, step as int, remaining),
        remaining > 0,
    ensures
        range_fits(next.wrapping_add(step) as int, step as int, remaining - 1),
{
    if remaining > 1 {
        assert(i64::MIN <= progression(next as int, step as int, 1) <= i64::MAX);
        let after = next.wrapping_add(step);
        assert(after == next + step);
        assert forall|k: int| 0 <= k < remaining - 1 implies i64::MIN <= #[trigger] progression(
            after as int,
            step as int,
            k,
        ) <= i64::MAX by {
            assert((k + 1) * step == k * step + step) by (nonlinear_arith);
            assert(i64::MIN <= progression(next as int, step as int, k + 1) <= i64::MAX);
        }
    }
}

/// An advance leaves every other owner what it owns and everything in place, and the iterator as fit
/// as it was; an item comes with a reference of its own.
pub proof fn lemma_step(it: IterModel, h: HeapModel, interns: Interns, rest: Seq<Value>)
    requires
        h.owns(rest),
        h.slots.len() <= usize::MAX,
        iter_fits(it, h, interns),
    ensures
        ({
            let s = step(it, h, interns);
            &&& s.heap.owns(rest)
            &&& s.heap.counted()
            &&& s.outcome matches Outcome::Item(item) ==> s.heap.owns(rest.push(item))
            &&& keeps(h, s.heap)
            &&& iter_fits(s.iter, s.heap, interns)
            &&& s.iter.value == it.value
            &&& s.iter.index <= it.index + 1
            &&& forall|id: HeapId| #[trigger] s.heap.refs(id) <= h.refs(id) + 2
        }),
{
    let s = step(it, h, interns);
    lemma_backed_weaken(h, ids_of(rest), Seq::empty());
    match it.source {
        SourceModel::Range { next, step, len } => {
            if it.index < len {
                lemma_range_advances(next, step, len - it.index);
                lemma_cloned(h, Value::Int(next), rest);
            }
        },
        SourceModel::IterStr { chars, byte_offset, len } => {
            if it.index < len {
                let c = chars[it.index as int];
                let data = DataModel::Str(seq![c]);
                assert(chars.take((it.index + 1) as int) =~= chars.take(it.index as int) + seq![c]);
                lemma_encode_concat(chars.take(it.index as int), seq![c]);
                lemma_encode_one(c);
                assert(children(data) + rest =~= rest);
                if h.admits() {
                    lemma_allocated(h, data, rest);
                }
            }
        },
        SourceModel::InternBytes { bytes_id, len } => {
            if it.index < len {
                lemma_cloned(
                    h,
                    Value::Int(interns.bytes_model(bytes_id)[it.index as int] as i64),
                    rest,
                );
            }
        },
        SourceModel::HeapRef { heap_id, len, checks_mutation } => {
            if len is None || it.index < len->0 {
                lemma_next_readable(h, heap_id, it.index as int, len, checks_mutation);
                lemma_read_item(
                    h,
                    heap_id,
                    it.index as int,
                    if checks_mutation {
                        len
                    } else {
                        None
                    },
                    rest,
                );
            }
            assert(h.live(heap_id));
            match h.data(heap_id) {
                DataModel::DictKeysView(dict)
                | DataModel::DictItemsView(dict)
                | DataModel::DictValuesView(dict) => {
                    assert(h.live(dict));
                },
                _ => {},
            }
        },
        SourceModel::CallableSentinel { .. } => {},
    }
}

/// Where an iterator over a container has not come to the end it remembers, its next item can be
/// read.
proof fn lemma_next_readable(h: HeapModel, id: HeapId, index: int, len: Option<nat>, checks: bool)
    requires
        container_fits(h, id, len, checks),
        0 <= index,
        len matches Some(l) ==> index < l,
    ensures
        readable(
            h,
            id,
            index,
            if checks {
                len
            } else {
                None
            },
        ),
{
}

impl MontyIter {
    /// Advances this iterator, which is not in the heap.
    ///
    /// A callable-driven iterator goes on with `for_next_stepped` once its step has ended.
    pub fn for_next<T: ResourceTracker>(&mut self, vm: &mut VM<T>) -> (r: RunResult<Advance>)
        requires
            old(vm)@.heap.counted(),
            old(vm)@.heap.headroom(2),
            iter_fits(old(self)@, old(vm)@.heap, old(vm)@.interns),
            old(vm)@.gc_pause_depth < usize::MAX,
        ensures
            exists|elapsed: u64|
                for_next_result(
                    #[trigger] old(vm)@.heap.ruling(elapsed),
                    old(self)@,
                    old(vm)@,
                    r,
                    final(self)@,
                    final(vm)@,
                ),
    {
        let mut ruling = vm.heap.check_time();
        if ruling.is_ok() && self.calls_next() {
            // The step is ruled on by itself.
            ruling = vm.heap.check_time();
        }
        self.for_next_under(vm, ruling)
    }

    /// Whether the next advance has the callable called.
    fn calls_next(&self) -> (b: bool)
        ensures
            b == (self@.source matches SourceModel::CallableSentinel { done, .. } && !done),
    {
        match &self.iter_value {
            IterValue::CallableSentinel { done, .. } => !*done,
            _ => false,
        }
    }

    /// Advances this iterator, which is not in the heap, or fails before anything happens, as
    /// `ruling` says.
    pub fn for_next_under<T: ResourceTracker>(
        &mut self,
        vm: &mut VM<T>,
        ruling: Result<(), ResourceError>,
    ) -> (r: RunResult<Advance>)
        requires
            old(vm)@.heap.counted(),
            old(vm)@.heap.headroom(2),
            iter_fits(old(self)@, old(vm)@.heap, old(vm)@.interns),
            old(vm)@.gc_pause_depth < usize::MAX,
        ensures
            for_next_result(ruling, old(self)@, old(vm)@, r, final(self)@, final(vm)@),
    {
        match ruling {
            Ok(()) => {},
            Err(e) => {
                return Err(RunError::Resource(e));
            },
        }
        let ghost it = self@;
        let ghost h = vm@.heap;
        let index = self.index;
        match &mut self.iter_value {
            IterValue::Range { next, step, len } => {
                if index >= *len {
                    return Ok(Advance::Exhausted);
                }
                let value = *next;
                // What lies behind the last value may not fit, and is never yielded.
                *next = (*next).wrapping_add(*step);
                self.index = index + 1;
                Ok(Advance::Item(Value::Int(value)))
            },
            IterValue::IterStr { string, byte_offset, len } => {
                if index >= *len {
                    return Ok(Advance::Exhausted);
                }
                let (text, width) = char_at(string.as_str(), *byte_offset, Ghost(index as int));
                *byte_offset = *byte_offset + width;
                self.index = index + 1;
                match vm.heap.allocate(HeapData::Str(text)) {
                    Ok(id) => Ok(Advance::Item(Value::Ref(id))),
                    Err(e) => Err(RunError::Resource(e)),
                }
            },
            IterValue::InternBytes { bytes_id, len } => {
                if index >= *len {
                    return Ok(Advance::Exhausted);
                }
                let byte = vm.interns.get_bytes(*bytes_id)[index];
                self.index = index + 1;
                Ok(Advance::Item(Value::Int(byte as i64)))
            },
            IterValue::HeapRef { heap_id, len, checks_mutation } => {
                let heap_id = *heap_id;
                let len = *len;
                let expected_len = if *checks_mutation {
                    len
                } else {
                    None
                };
                if let Some(l) = len {
                    if index >= l {
                        return Ok(Advance::Exhausted);
                    }
                }
                proof {
                    lemma_next_readable(
                        h,
                        heap_id,
                        index as int,
                        it.source->HeapRef_len,
                        it.source->checks_mutation,
                    );
                }
                match get_heap_item(vm, heap_id, index, expected_len) {
                    Ok(Some(item)) => {
                        self.index = index + 1;
                        Ok(Advance::Item(item))
                    },
                    Ok(None) => Ok(Advance::Exhausted),
                    Err(e) => Err(e),
                }
            },
            IterValue::CallableSentinel { pair, done } => {
                if *done {
                    return Ok(Advance::Exhausted);
                }
                match step_under(vm, *pair, Ok(())) {
                    Ok(step) => Ok(Advance::Call(step)),
                    Err(e) => Err(e),
                }
            },
        }
    }
}

/// `id` is a live iterator.
pub open spec fn is_iter(h: HeapModel, id: HeapId) -> bool {
    h.live(id) && h.data(id) is Iter
}

/// The state of the iterator `id`.
pub open spec fn iter_at(h: HeapModel, id: HeapId) -> IterModel {
    h.data(id)->Iter_0
}

/// The heap with `it` as the state of the iterator `id`.
pub open spec fn with_iter(h: HeapModel, id: HeapId, it: IterModel) -> HeapModel {
    h.with_data(id, DataModel::Iter(it))
}

/// An iterator that lives in the heap.
#[derive(Clone, Copy, PartialEq, Eq, Structural, Debug)]
pub struct HeapRead {
    pub id: HeapId,
}

/// A heap entry, told by what it is.
#[derive(Debug)]
pub enum HeapReadOutput {
    Iter(HeapRead),
    /// Anything but an iterator.
    Other(Type),
}

impl<T: ResourceTracker> Heap<T> {
    /// Tells what the entry `id` is.
    pub fn read(&self, id: HeapId) -> (out: HeapReadOutput)
        requires
            self@.live(id),
        ensures
            out == if self@.data(id) is Iter {
                HeapReadOutput::Iter(HeapRead { id })
            } else {
                HeapReadOutput::Other(data_type(self@.data(id)))
            },
    {
        match self.get(id) {
            HeapData::Iter(_) => HeapReadOutput::Iter(HeapRead { id }),
            other => HeapReadOutput::Other(other.py_type()),
        }
    }
}

impl HeapRead {
    /// Advances the iterator.
    ///
    /// A callable-driven iterator goes on with `advance_stepped` once its step has ended.
    pub fn advance<T: ResourceTracker>(&self, vm: &mut VM<T>) -> (r: RunResult<Advance>)
        requires
            old(vm)@.heap.counted(),
            old(vm)@.heap.headroom(2),
            is_iter(old(vm)@.heap, self.id),
            iter_fits(iter_at(old(vm)@.heap, self.id), old(vm)@.heap, old(vm)@.interns),
            old(vm)@.gc_pause_depth < usize::MAX,
        ensures
            ({
                let it = iter_at(old(vm)@.heap, self.id);
                let s = step(it, old(vm)@.heap, old(vm)@.interns);
                advanced(
                    r,
                    s.outcome,
                    old(vm)@,
                    final(vm)@,
                    old(vm)@.with_heap(with_iter(s.heap, self.id, s.iter)),
                    pair_of(it),
                )
            }),
    {
        let ghost h = vm@.heap;
        let ghost it = iter_at(h, self.id);
        assert(with_iter(h, self.id, it) =~= h);
        match vm.heap.get_mut(self.id) {
            HeapData::Iter(iter) => {
                let index = iter.index;
                match &mut iter.iter_value {
                    IterValue::Range { next, step, len } => {
                        if index >= *len {
                            Ok(Advance::Exhausted)
                        } else {
                            let value = *next;
                            // What lies behind the last value may not fit, and is never yielded.
                            *next = (*next).wrapping_add(*step);
                            iter.index = index + 1;
                            Ok(Advance::Item(Value::Int(value)))
                        }
                    },
                    IterValue::IterStr { string, byte_offset, len } => {
                        if index >= *len {
                            return Ok(Advance::Exhausted);
                        }
                        let (text, width) = char_at(
                            string.as_str(),
                            *byte_offset,
                            Ghost(index as int),
                        );
                        *byte_offset = *byte_offset + width;
                        iter.index = index + 1;
                        let ghost s = step(it, h, vm.interns);
                        assert(vm@.heap =~= with_iter(h, self.id, s.iter));
                        match vm.heap.allocate(HeapData::Str(text)) {
                            Ok(id) => {
                                assert(vm@.heap =~= with_iter(s.heap, self.id, s.iter));
                                Ok(Advance::Item(Value::Ref(id)))
                            },
                            Err(e) => Err(RunError::Resource(e)),
                        }
                    },
                    IterValue::InternBytes { bytes_id, len } => {
                        if index >= *len {
                            Ok(Advance::Exhausted)
                        } else {
                            let bytes_id = *bytes_id;
                            iter.index = index + 1;
                            let byte = vm.interns.get_bytes(bytes_id)[index];
                            Ok(Advance::Item(Value::Int(byte as i64)))
                        }
                    },
                    IterValue::HeapRef { heap_id, len, checks_mutation } => {
                        let heap_id = *heap_id;
                        let len = *len;
                        let expected_len = if *checks_mutation {
                            len
                        } else {
                            None
                        };
                        if let Some(l) = len {
                            if index >= l {
                                return Ok(Advance::Exhausted);
                            }
                        }
                        proof {
                            assert(vm@.heap =~= h);
                            assert(vm.heap.entries.len() == h.slots.len());
                            let expected = if it.source->checks_mutation {
                                it.source->HeapRef_len
                            } else {
                                None
                            };
                            lemma_next_readable(
                                h,
                                heap_id,
                                index as int,
                                it.source->HeapRef_len,
                                it.source->checks_mutation,
                            );
                            lemma_read_item(h, heap_id, index as int, expected, Seq::empty());
                            assert(h.live(self.id));
                        }
                        match get_heap_item(vm, heap_id, index, expected_len) {
                            Ok(Some(item)) => {
                                match vm.heap.get_mut(self.id) {
                                    HeapData::Iter(iter) => {
                                        iter.index = index + 1;
                                    },
                                    _ => {},
                                }
                                Ok(Advance::Item(item))
                            },
                            Ok(None) => Ok(Advance::Exhausted),
                            Err(e) => {
                                assert(vm@.heap =~= with_iter(vm@.heap, self.id, it));
                                Err(e)
                            },
                        }
                    },
                    IterValue::CallableSentinel { .. } => {
                        assert(vm@.heap =~= h);
                        self.advance_callable_sentinel(vm)
                    },
                }
            },
            _ => Ok(Advance::Exhausted),
        }
    }

    /// Advances the iterator, which is callable-driven: begins a step, unless it is exhausted.
    pub fn advance_callable_sentinel<T: ResourceTracker>(&self, vm: &mut VM<T>) -> (r: RunResult<
        Advance,
    >)
        requires
            old(vm)@.heap.counted(),
            old(vm)@.heap.headroom(2),
            is_iter(old(vm)@.heap, self.id),
            iter_at(old(vm)@.heap, self.id).source is CallableSentinel,
            iter_fits(iter_at(old(vm)@.heap, self.id), old(vm)@.heap, old(vm)@.interns),
            old(vm)@.gc_pause_depth < usize::MAX,
        ensures
            ({
                let it = iter_at(old(vm)@.heap, self.id);
                let s = step(it, old(vm)@.heap, old(vm)@.interns);
                advanced(r, s.outcome, old(vm)@, final(vm)@, old(vm)@, pair_of(it))
            }),
    {
        match vm.heap.get(self.id) {
            HeapData::Iter(iter) => {
                match &iter.iter_value {
                    IterValue::CallableSentinel { pair, done } => {
                        let pair = *pair;
                        if *done {
                            return Ok(Advance::Exhausted);
                        }
                        let ghost before = vm@;
                        let began = callable_sentinel_step(vm, pair);
                        let ghost elapsed = choose|elapsed: u64|
                            step_begun(
                                #[trigger] before.heap.ruling(elapsed),
                                pair,
                                before,
                                began,
                                vm@,
                            );
                        assert(step_begun(before.heap.ruling(elapsed), pair, before, began, vm@));
                        match began {
                            Ok(step) => Ok(Advance::Call(step)),
                            Err(e) => Err(e),
                        }
                    },
                    _ => Ok(Advance::Exhausted),
                }
            },
            _ => Ok(Advance::Exhausted),
        }
    }

    /// Goes on with the advance of a callable-driven iterator, once its step has ended: `stepped` is
    /// what the step produced, or nothing where that was the sentinel.
    ///
    /// The sentinel exhausts the iterator for good. The iterator may have been exhausted while the
    /// step ran, since the callable can advance it too: then the step comes too late, and what it
    /// produced is dropped.
    pub fn advance_stepped<T: ResourceTracker>(&self, vm: &mut VM<T>, stepped: Option<Value>) -> (r:
        Option<Value>)
        requires
            is_iter(old(vm)@.heap, self.id),
            iter_at(old(vm)@.heap, self.id).source is CallableSentinel,
            iter_at(old(vm)@.heap, self.id).index < usize::MAX,
            stepped matches Some(v) ==> old(vm)@.heap.owns(seq![v]),
        ensures
            r == settled(iter_at(old(vm)@.heap, self.id), stepped).0,
            final(vm)@ == old(vm)@.with_heap(settled_heap(old(vm)@.heap, self.id, stepped)),
    {
        let ghost h = vm@.heap;
        let ghost it = iter_at(h, self.id);
        match vm.heap.get_mut(self.id) {
            HeapData::Iter(iter) => {
                match &mut iter.iter_value {
                    IterValue::CallableSentinel { done, .. } => {
                        match stepped {
                            Some(value) => {
                                if *done {
                                    assert(vm@.heap =~= h);
                                    value.drop_with_heap(&mut vm.heap);
                                    None
                                } else {
                                    iter.index = iter.index + 1;
                                    Some(value)
                                }
                            },
                            None => {
                                *done = true;
                                None
                            },
                        }
                    },
                    _ => None,
                }
            },
            _ => None,
        }
    }
}

/// What a callable-driven iterator yields once a step has ended, and its state then.
pub open spec fn settled(it: IterModel, stepped: Option<Value>) -> (Option<Value>, IterModel) {
    match (it.source, stepped) {
        (SourceModel::CallableSentinel { pair, done }, Some(value)) => if done {
            (None, it)
        } else {
            (Some(value), IterModel { index: it.index + 1, ..it })
        },
        (SourceModel::CallableSentinel { pair, done }, None) => (
            None,
            IterModel { source: SourceModel::CallableSentinel { pair, done: true }, ..it },
        ),
        _ => (None, it),
    }
}

/// The heap once a step of the callable-driven iterator `id` has ended. A value that comes too late
/// is dropped.
pub open spec fn settled_heap(h: HeapModel, id: HeapId, stepped: Option<Value>) -> HeapModel {
    let it = iter_at(h, id);
    match (settled(it, stepped).0, stepped) {
        (None, Some(late)) => h.dropped(late),
        _ => with_iter(h, id, settled(it, stepped).1),
    }
}

} // verus!
