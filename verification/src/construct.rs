//! Making iterators: `iter(iterable)` and `iter(callable, sentinel)`.
use vstd::prelude::*;
use vstd::utf8::encode_utf8;

use crate::args::{dropped_all, one_two_args, ArgValues, ArgsModel};
use crate::data::HeapData;
use crate::error::{ResourceError, RunError, RunResult};
use crate::heap::{value_type, Heap};
use crate::intern::Interns;
use crate::items::allocate_tuple;
use crate::iter::{IterValue, MontyIter};
use crate::model::{
    children, lemma_allocated, lemma_dropped, lemma_owned_live, DataModel, HeapModel, IterModel,
    SourceModel,
};
use crate::range::{lemma_range_item_bounds, Range};
use crate::resource::ResourceTracker;
use crate::semantics::{dict_entries, is_dict, iter_fits, progression};
use crate::tuple::Tuple;
use crate::value::{lemma_ids_of_one, BytesId, HeapId, Value};
use crate::vm::VM;

verus! {

/// The source of an iterator over a string.
pub open spec fn str_source(chars: Seq<char>) -> SourceModel {
    SourceModel::IterStr { chars, byte_offset: 0, len: chars.len() }
}

/// The source of an iterator over a range.
pub open spec fn range_source(range: Range) -> SourceModel {
    SourceModel::Range { next: range.start, step: range.step, len: range.spec_len() }
}

/// The source of an iterator over a container of `len` items, which may not change size if
/// `checks_mutation`.
pub open spec fn container_source(
    heap_id: HeapId,
    len: Option<nat>,
    checks_mutation: bool,
) -> SourceModel {
    SourceModel::HeapRef { heap_id, len, checks_mutation }
}

/// The source of an iterator over the heap entry `id`; none where that cannot be iterated.
pub open spec fn heap_source(h: HeapModel, id: HeapId) -> Option<SourceModel> {
    match h.data(id) {
        DataModel::List(_) => Some(container_source(id, None, false)),
        DataModel::Tuple(items) => Some(container_source(id, Some(items.len()), false)),
        DataModel::NamedTuple(_, items) => Some(container_source(id, Some(items.len()), false)),
        DataModel::Bytes(bytes) => Some(container_source(id, Some(bytes.len()), false)),
        DataModel::FrozenSet(items) => Some(container_source(id, Some(items.len()), false)),
        DataModel::Dict(entries) => Some(container_source(id, Some(entries.len()), true)),
        DataModel::DictKeysView(dict)
        | DataModel::DictItemsView(dict)
        | DataModel::DictValuesView(dict) => Some(
            container_source(id, Some(dict_entries(h, dict).len()), true),
        ),
        DataModel::PySet(items) => Some(container_source(id, Some(items.len()), true)),
        DataModel::Str(chars) => Some(str_source(chars)),
        DataModel::Range(range) => Some(range_source(range)),
        _ => None,
    }
}

/// The source of an iterator over `v`; none where that cannot be iterated.
pub open spec fn source_of(v: Value, h: HeapModel, interns: Interns) -> Option<SourceModel> {
    match v {
        Value::InternString(id) => Some(str_source(interns.str_model(id))),
        Value::InternBytes(id) => Some(
            SourceModel::InternBytes { bytes_id: id, len: interns.bytes_model(id).len() },
        ),
        Value::Ref(id) => heap_source(h, id),
        _ => None,
    }
}

/// The heap entry `id` is sound as far as iterating it goes: the dict behind a view is there, and
/// a range can be counted.
pub open spec fn entry_sound(h: HeapModel, id: HeapId) -> bool {
    &&& h.live(id)
    &&& match h.data(id) {
        DataModel::DictKeysView(dict)
        | DataModel::DictItemsView(dict)
        | DataModel::DictValuesView(dict) => is_dict(h, dict),
        DataModel::Range(range) => range.valid(),
        _ => true,
    }
}

/// `v` is sound as far as iterating it goes.
pub open spec fn value_sound(v: Value, h: HeapModel, interns: Interns) -> bool {
    match v {
        Value::InternString(id) => interns.has_str(id),
        Value::InternBytes(id) => interns.has_bytes(id),
        Value::Ref(id) => entry_sound(h, id),
        _ => true,
    }
}

/// A string is no longer than memory, where `source` walks one.
pub open spec fn string_bounded(source: SourceModel) -> bool {
    source matches SourceModel::IterStr { chars, .. } ==> encode_utf8(chars).len() <= usize::MAX
}

/// The source as a view of what the constructors return.
pub open spec fn source_view(r: Option<IterValue>) -> Option<SourceModel> {
    match r {
        Some(source) => Some(source@),
        None => None,
    }
}

impl IterValue {
    /// What an iterator over `value` walks, if it can be iterated.
    pub fn new<T: ResourceTracker>(value: &Value, vm: &VM<T>) -> (r: Option<IterValue>)
        requires
            value_sound(*value, vm@.heap, vm@.interns),
        ensures
            source_view(r) == source_of(*value, vm@.heap, vm@.interns),
            r matches Some(source) ==> string_bounded(source@),
    {
        match value {
            Value::InternString(string_id) => Some(
                IterValue::from_str(vm.interns.get_str(*string_id)),
            ),
            Value::InternBytes(bytes_id) => Some(
                IterValue::from_intern_bytes(*bytes_id, &vm.interns),
            ),
            Value::Ref(heap_id) => IterValue::from_heap_data(*heap_id, &vm.heap),
            _ => None,
        }
    }

    /// An iteration of `range`, from its start.
    pub fn from_range(range: &Range) -> (source: IterValue)
        requires
            range.valid(),
        ensures
            source@ == range_source(*range),
    {
        IterValue::Range { next: range.start, step: range.step, len: range.len() }
    }

    /// An iteration of a copy of `s`, from its first character.
    pub fn from_str(s: &str) -> (source: IterValue)
        ensures
            source@ == str_source(s@),
            string_bounded(source@),
    {
        let len = s.unicode_len();
        let byte_len = s.as_bytes().len();
        assert(encode_utf8(s@).len() == byte_len);
        IterValue::IterStr { string: s.to_owned(), byte_offset: 0, len }
    }

    /// An iteration of an interned byte string.
    pub fn from_intern_bytes(bytes_id: BytesId, interns: &Interns) -> (source: IterValue)
        requires
            interns.has_bytes(bytes_id),
        ensures
            source@ == (SourceModel::InternBytes {
                bytes_id,
                len: interns.bytes_model(bytes_id).len(),
            }),
    {
        let bytes = interns.get_bytes(bytes_id);
        IterValue::InternBytes { bytes_id, len: bytes.len() }
    }

    /// An iteration of a heap entry, if it is one that can be iterated.
    ///
    /// The length of a list is looked up as the iteration goes on; the others remember the length
    /// they begin with, and dicts, views and sets may not change it.
    pub fn from_heap_data<T: ResourceTracker>(heap_id: HeapId, heap: &Heap<T>) -> (r: Option<
        IterValue,
    >)
        requires
            entry_sound(heap@, heap_id),
        ensures
            source_view(r) == heap_source(heap@, heap_id),
            r matches Some(source) ==> string_bounded(source@),
    {
        match heap.get(heap_id) {
            HeapData::List(_) => Some(
                IterValue::HeapRef { heap_id, len: None, checks_mutation: false },
            ),
            HeapData::Tuple(tuple) => Some(
                IterValue::HeapRef {
                    heap_id,
                    len: Some(tuple.as_slice().len()),
                    checks_mutation: false,
                },
            ),
            HeapData::NamedTuple(tuple) => Some(
                IterValue::HeapRef {
                    heap_id,
                    len: Some(tuple.items.len()),
                    checks_mutation: false,
                },
            ),
            HeapData::Bytes(bytes) => Some(
                IterValue::HeapRef { heap_id, len: Some(bytes.len()), checks_mutation: false },
            ),
            HeapData::FrozenSet(items) => Some(
                IterValue::HeapRef { heap_id, len: Some(items.len()), checks_mutation: false },
            ),
            HeapData::Dict(dict) => Some(
                IterValue::HeapRef { heap_id, len: Some(dict.len()), checks_mutation: true },
            ),
            HeapData::DictKeysView(view) => Some(
                IterValue::HeapRef {
                    heap_id,
                    len: Some(view.dict(heap).len()),
                    checks_mutation: true,
                },
            ),
            HeapData::DictItemsView(view) => Some(
                IterValue::HeapRef {
                    heap_id,
                    len: Some(view.dict(heap).len()),
                    checks_mutation: true,
                },
            ),
            HeapData::DictValuesView(view) => Some(
                IterValue::HeapRef {
                    heap_id,
                    len: Some(view.dict(heap).len()),
                    checks_mutation: true,
                },
            ),
            HeapData::PySet(items) => Some(
                IterValue::HeapRef { heap_id, len: Some(items.len()), checks_mutation: true },
            ),
            HeapData::Str(s) => Some(IterValue::from_str(s.as_str())),
            HeapData::Range(range) => Some(IterValue::from_range(range)),
            _ => None,
        }
    }
}

/// `source` holds a copy of what it walks, so that nothing need be kept alive.
pub open spec fn holds_copy(source: SourceModel) -> bool {
    source is Range || source is IterStr
}

/// A new iterator over `v`, which walks `source`.
pub open spec fn fresh_iter(v: Value, source: SourceModel) -> IterModel {
    IterModel {
        index: 0,
        source,
        value: if holds_copy(source) {
            Value::PyNone
        } else {
            v
        },
    }
}

/// The heap once an iterator over `v` is made: what it need not keep alive is dropped, and so is a
/// value that cannot be iterated.
pub open spec fn iterated_heap(h: HeapModel, v: Value, interns: Interns) -> HeapModel {
    match source_of(v, h, interns) {
        Some(source) => if holds_copy(source) {
            h.dropped(v)
        } else {
            h
        },
        None => h.dropped(v),
    }
}

/// `v` can be called.
pub open spec fn callable(v: Value, h: HeapModel) -> bool {
    match v {
        Value::Builtin(_) => true,
        Value::ModuleFunction(_) => true,
        Value::DefFunction(_) => true,
        Value::ExtFunction(_) => true,
        Value::Ref(id) => h.data(id) is Closure || h.data(id) is FunctionDefaults || h.data(
            id,
        ) is ExtFunction,
        _ => false,
    }
}

/// A new iterator fits what it was made for.
pub proof fn lemma_fresh_iter_fits(v: Value, h: HeapModel, interns: Interns)
    requires
        value_sound(v, h, interns),
        source_of(v, h, interns) matches Some(source) && string_bounded(source),
        h.owns(seq![v]),
    ensures
        iter_fits(
            fresh_iter(v, source_of(v, h, interns)->0),
            iterated_heap(h, v, interns),
            interns,
        ),
{
    let source = source_of(v, h, interns)->0;
    match source {
        SourceModel::Range { next, step, len } => {
            let range = h.data(v->Ref_0)->Range_0;
            assert forall|k: int| 0 <= k < len implies i64::MIN <= #[trigger] progression(
                next as int,
                step as int,
                k,
            ) <= i64::MAX by {
                lemma_range_item_bounds(range, k);
            }
        },
        SourceModel::IterStr { chars, .. } => {
            assert(chars.take(0) =~= Seq::<char>::empty());
            assert(encode_utf8(chars.take(0)) =~= Seq::<u8>::empty());
        },
        _ => {},
    }
}

/// What making an iterator comes to, and the heap afterwards.
pub struct Built {
    pub result: RunResult<Value>,
    pub heap: HeapModel,
}

/// What `iter(iterable)` comes to: an iterator is handed back as it is, anything else gets a new
/// one. Where the heap refuses that, it is gone, and the count that it held stays.
pub open spec fn built_over(v: Value, h: HeapModel, interns: Interns) -> Built {
    if v matches Value::Ref(id) && h.data(id) is Iter {
        Built { result: Ok(v), heap: h }
    } else {
        let taken = iterated_heap(h, v, interns);
        match source_of(v, h, interns) {
            None => Built { result: Err(RunError::NotIterable(value_type(v, h))), heap: taken },
            Some(source) => if taken.admits() {
                Built {
                    result: Ok(Value::Ref(taken.fresh())),
                    heap: taken.allocated(DataModel::Iter(fresh_iter(v, source))),
                }
            } else {
                Built { result: Err(RunError::Resource(ResourceError::Allocation)), heap: taken }
            },
        }
    }
}

/// A new iterator over the pair `pair`.
pub open spec fn callable_iter(pair: HeapId) -> IterModel {
    IterModel {
        index: 0,
        source: SourceModel::CallableSentinel { pair, done: false },
        value: Value::Ref(pair),
    }
}

/// What `iter(callable, sentinel)` comes to: a tuple of the two, and an iterator that owns the only
/// reference to it. Where either is refused, everything is given back.
pub open spec fn built_calling(v: Value, sentinel: Value, h: HeapModel) -> Built {
    let refused = Err(RunError::Resource(ResourceError::Allocation));
    let paired = h.allocated(DataModel::Tuple(seq![v, sentinel]));
    if !callable(v, h) {
        Built { result: Err(RunError::NotCallable), heap: h.dropped(v).dropped(sentinel) }
    } else if !h.admits() {
        Built { result: refused, heap: h.dropped(v).dropped(sentinel) }
    } else if !paired.admits() {
        Built { result: refused, heap: paired.dropped(Value::Ref(h.fresh())) }
    } else {
        Built {
            result: Ok(Value::Ref(paired.fresh())),
            heap: paired.allocated(DataModel::Iter(callable_iter(h.fresh()))),
        }
    }
}

/// What `iter` comes to with these arguments.
pub open spec fn built(args: ArgsModel, h: HeapModel, interns: Interns) -> Built {
    match one_two_args(args) {
        Ok((v, None)) => built_over(v, h, interns),
        Ok((v, Some(sentinel))) => built_calling(v, sentinel, h),
        Err(e) => Built { result: Err(e), heap: dropped_all(h, args.values()) },
    }
}

impl MontyIter {
    /// A new iterator over `value`, which it takes over; an error where that cannot be iterated.
    pub fn new<T: ResourceTracker>(value: Value, vm: &mut VM<T>) -> (r: RunResult<MontyIter>)
        requires
            old(vm)@.heap.owns(seq![value]),
            value_sound(value, old(vm)@.heap, old(vm)@.interns),
        ensures
            match source_of(value, old(vm)@.heap, old(vm)@.interns) {
                Some(source) => r is Ok && r->Ok_0@ == fresh_iter(value, source) && iter_fits(
                    r->Ok_0@,
                    final(vm)@.heap,
                    final(vm)@.interns,
                ),
                None => r == Err::<MontyIter, RunError>(
                    RunError::NotIterable(value_type(value, old(vm)@.heap)),
                ),
            },
            final(vm)@ == old(vm)@.with_heap(
                iterated_heap(old(vm)@.heap, value, old(vm)@.interns),
            ),
            final(vm)@.heap.counted(),
    {
        let ghost h = vm@.heap;
        proof {
            lemma_dropped(h, value, Seq::empty());
            assert(seq![value] + Seq::<Value>::empty() =~= seq![value]);
        }
        match IterValue::new(&value, vm) {
            Some(iter_value) => {
                proof {
                    lemma_fresh_iter_fits(value, h, vm.interns);
                }
                let copied = matches!(
                    iter_value,
                    IterValue::Range { .. } | IterValue::IterStr { .. },
                );
                let value = if copied {
                    value.drop_with_heap(&mut vm.heap);
                    Value::PyNone
                } else {
                    value
                };
                Ok(MontyIter { index: 0, iter_value, value })
            },
            None => {
                let err = RunError::NotIterable(value.py_type(&vm.heap));
                value.drop_with_heap(&mut vm.heap);
                Err(err)
            },
        }
    }

    /// Drops the iterator, and with it the reference it owns.
    pub fn drop_with_heap<T: ResourceTracker>(self, heap: &mut Heap<T>)
        requires
            old(heap)@.owns(seq![self@.value]),
        ensures
            final(heap)@ == old(heap)@.dropped(self@.value),
            final(heap)@.counted(),
    {
        self.value.drop_with_heap(heap);
    }

    /// The builtin `iter`.
    ///
    /// `iter(iterable)` makes an iterator over the argument, or hands it back if it is one already.
    /// `iter(callable, sentinel)` makes one that calls the callable until it returns the sentinel.
    /// The callable is checked at once, and not called yet. Arguments are given by position only.
    pub fn init<T: ResourceTracker>(vm: &mut VM<T>, args: ArgValues) -> (r: RunResult<Value>)
        requires
            old(vm)@.heap.owns(args@.values()),
            one_two_args(args@) matches Ok((v, None)) ==> value_sound(
                v,
                old(vm)@.heap,
                old(vm)@.interns,
            ),
        ensures
            r == built(args@, old(vm)@.heap, old(vm)@.interns).result,
            final(vm)@ == old(vm)@.with_heap(
                built(args@, old(vm)@.heap, old(vm)@.interns).heap,
            ),
    {
        let ghost given = args@;
        let (iterable, sentinel) = match args.get_one_two_args(&mut vm.heap) {
            Ok(both) => both,
            Err(e) => {
                return Err(e);
            },
        };
        assert(given.values() =~= given.positional);
        match sentinel {
            Some(sentinel) => {
                assert(given.positional =~= seq![iterable, sentinel]);
                Self::init_callable(vm, iterable, sentinel)
            },
            None => {
                assert(given.positional =~= seq![iterable]);
                Self::init_iterable(vm, iterable)
            },
        }
    }

    /// `iter(iterable)`.
    fn init_iterable<T: ResourceTracker>(vm: &mut VM<T>, iterable: Value) -> (r: RunResult<Value>)
        requires
            old(vm)@.heap.owns(seq![iterable]),
            value_sound(iterable, old(vm)@.heap, old(vm)@.interns),
        ensures
            r == built_over(iterable, old(vm)@.heap, old(vm)@.interns).result,
            final(vm)@ == old(vm)@.with_heap(
                built_over(iterable, old(vm)@.heap, old(vm)@.interns).heap,
            ),
    {
        if let Value::Ref(id) = &iterable {
            if let HeapData::Iter(_) = vm.heap.get(*id) {
                return Ok(iterable);
            }
        }
        let iter = match MontyIter::new(iterable, vm) {
            Ok(iter) => iter,
            Err(e) => {
                return Err(e);
            },
        };
        match vm.heap.allocate(HeapData::Iter(iter)) {
            Ok(id) => Ok(Value::Ref(id)),
            Err(e) => Err(RunError::Resource(e)),
        }
    }

    /// `iter(callable, sentinel)`.
    fn init_callable<T: ResourceTracker>(vm: &mut VM<T>, callable: Value, sentinel: Value) -> (r:
        RunResult<Value>)
        requires
            old(vm)@.heap.owns(seq![callable, sentinel]),
        ensures
            r == built_calling(callable, sentinel, old(vm)@.heap).result,
            final(vm)@ == old(vm)@.with_heap(
                built_calling(callable, sentinel, old(vm)@.heap).heap,
            ),
    {
        let ghost h = vm@.heap;
        proof {
            let rest = seq![sentinel];
            assert(seq![callable, sentinel] =~= seq![callable] + rest);
            lemma_owned_live(h, seq![callable, sentinel], 0);
            lemma_dropped(h, callable, rest);
        }
        if !Self::is_callable(&callable, vm) {
            callable.drop_with_heap(&mut vm.heap);
            sentinel.drop_with_heap(&mut vm.heap);
            return Err(RunError::NotCallable);
        }
        // A tuple that is refused takes the references of its items with it, so what they refer to
        // is noted first.
        let callable_id = callable.ref_id();
        let sentinel_id = sentinel.ref_id();
        let ghost data = DataModel::Tuple(seq![callable, sentinel]);
        let pair_value = match allocate_tuple(Tuple::pair(callable, sentinel), &mut vm.heap) {
            Ok(pair_value) => pair_value,
            Err(e) => {
                if let Some(id) = callable_id {
                    Value::Ref(id).drop_with_heap(&mut vm.heap);
                } else {
                    assert(h.dropped(callable) == h);
                }
                if let Some(id) = sentinel_id {
                    Value::Ref(id).drop_with_heap(&mut vm.heap);
                } else {
                    assert(vm@.heap.dropped(sentinel) == vm@.heap);
                }
                return Err(RunError::Resource(e));
            },
        };
        let ghost paired = vm@.heap;
        proof {
            assert(vm.heap.entries.len() == paired.slots.len());
            assert(children(data) + Seq::<Value>::empty() =~= seq![callable, sentinel]);
            lemma_allocated(h, data, Seq::empty());
            assert(Seq::<Value>::empty().push(pair_value) =~= seq![pair_value]);
        }
        let pair = match &pair_value {
            Value::Ref(id) => *id,
            _ => HeapId(0),
        };
        // The entry is allocated without a reference, so that a refusal loses none; the pair moves
        // in once the entry exists.
        let iter = MontyIter {
            index: 0,
            iter_value: IterValue::CallableSentinel { pair, done: false },
            value: Value::PyNone,
        };
        let id = match vm.heap.allocate(HeapData::Iter(iter)) {
            Ok(id) => id,
            Err(e) => {
                pair_value.drop_with_heap(&mut vm.heap);
                return Err(RunError::Resource(e));
            },
        };
        match vm.heap.get_mut(id) {
            HeapData::Iter(entry) => {
                entry.value = pair_value;
            },
            _ => {},
        }
        vm.heap.mark_potential_cycle();
        proof {
            lemma_ids_of_one(Value::Ref(pair));
            assert(vm@.heap =~= paired.allocated(DataModel::Iter(callable_iter(pair))));
        }
        Ok(Value::Ref(id))
    }

    /// Whether `value` can be called.
    pub fn is_callable<T: ResourceTracker>(value: &Value, vm: &VM<T>) -> (b: bool)
        requires
            *value matches Value::Ref(id) ==> vm@.heap.live(id),
        ensures
            b == callable(*value, vm@.heap),
    {
        match value {
            Value::Builtin(_) => true,
            Value::ModuleFunction(_) => true,
            Value::DefFunction(_) => true,
            Value::ExtFunction(_) => true,
            Value::Ref(heap_id) => match vm.heap.get(*heap_id) {
                HeapData::Closure(_) => true,
                HeapData::FunctionDefaults(_) => true,
                HeapData::ExtFunction(_) => true,
                _ => false,
            },
            _ => false,
        }
    }

    /// What an iterator costs the heap, by itself.
    pub fn py_estimate_size(&self) -> (size: usize)
        ensures
            size == vstd::layout::size_of::<MontyIter>(),
    {
        std::mem::size_of::<MontyIter>()
    }
}

} // verus!
