//! What one advance of an iterator does, for every kind of iterator.
use vstd::prelude::*;
use vstd::utf8::{encode_scalar, encode_utf8};

use crate::error::{ResourceError, RunError, RunResult};
use crate::intern::Interns;
use crate::model::{DataModel, HeapModel, IterModel, SourceModel};
use crate::value::{HeapId, Value};

verus! {

/// `id` is a live dict.
pub open spec fn is_dict(h: HeapModel, id: HeapId) -> bool {
    h.live(id) && h.data(id) is Dict
}

/// The entries of the dict `id`.
pub open spec fn dict_entries(h: HeapModel, id: HeapId) -> Seq<(Value, Value)> {
    h.data(id)->Dict_0
}

/// `id` is a live tuple of two: a callable and its sentinel.
pub open spec fn is_pair(h: HeapModel, id: HeapId) -> bool {
    h.live(id) && h.data(id) is Tuple && h.data(id)->Tuple_0.len() == 2
}

/// The container `id` is one that an iterator with this `len` and `checks_mutation` was made for.
/// What cannot change still has the length it had.
pub open spec fn container_fits(
    h: HeapModel,
    id: HeapId,
    len: Option<nat>,
    checks_mutation: bool,
) -> bool {
    &&& h.live(id)
    &&& match h.data(id) {
        DataModel::List(_) => len is None && !checks_mutation,
        DataModel::Tuple(items) => len == Some(items.len()) && !checks_mutation,
        DataModel::NamedTuple(_, items) => len == Some(items.len()) && !checks_mutation,
        DataModel::Bytes(bytes) => len == Some(bytes.len()) && !checks_mutation,
        DataModel::FrozenSet(items) => len == Some(items.len()) && !checks_mutation,
        DataModel::Dict(_) => len is Some && checks_mutation,
        DataModel::DictKeysView(dict) => is_dict(h, dict) && len is Some && checks_mutation,
        DataModel::DictItemsView(dict) => is_dict(h, dict) && len is Some && checks_mutation,
        DataModel::DictValuesView(dict) => is_dict(h, dict) && len is Some && checks_mutation,
        DataModel::PySet(_) => len is Some && checks_mutation,
        _ => false,
    }
}

/// The `k`-th number from `next` on, in steps of `step`.
pub open spec fn progression(next: int, step: int, k: int) -> int {
    next + k * step
}

/// The numbers that a range iterator still has to yield are all numbers it can hold.
pub open spec fn range_fits(next: int, step: int, remaining: int) -> bool {
    forall|k: int|
        0 <= k < remaining ==> i64::MIN <= #[trigger] progression(next, step, k) <= i64::MAX
}

/// The state of an iterator agrees with what it walks, and its `value` is what that needs alive.
pub open spec fn iter_fits(it: IterModel, h: HeapModel, interns: Interns) -> bool {
    match it.source {
        SourceModel::Range { next, step, len } => {
            &&& it.value == Value::PyNone
            &&& len <= usize::MAX
            &&& range_fits(next as int, step as int, len - it.index)
        },
        SourceModel::IterStr { chars, byte_offset, len } => {
            &&& it.value == Value::PyNone
            &&& len == chars.len()
            &&& it.index <= len
            &&& byte_offset == encode_utf8(chars.take(it.index as int)).len()
            &&& encode_utf8(chars).len() <= usize::MAX
        },
        SourceModel::InternBytes { bytes_id, len } => {
            &&& it.value == Value::InternBytes(bytes_id)
            &&& interns.has_bytes(bytes_id)
            &&& len == interns.bytes_model(bytes_id).len()
        },
        SourceModel::HeapRef { heap_id, len, checks_mutation } => {
            &&& it.value == Value::Ref(heap_id)
            &&& container_fits(h, heap_id, len, checks_mutation)
        },
        SourceModel::CallableSentinel { pair, done } => {
            &&& it.value == Value::Ref(pair)
            &&& is_pair(h, pair)
        },
    }
}

/// A read of the heap: what came of it, and the heap afterwards.
pub struct Read {
    pub result: RunResult<Option<Value>>,
    pub heap: HeapModel,
}

/// A value that is in the heap already: the reader gets a reference of its own.
pub open spec fn read_shared(h: HeapModel, v: Value) -> Read {
    Read { result: Ok(Some(v)), heap: h.cloned(v) }
}

/// A new tuple of two values, for which each is cloned. Where the tuple is refused, the clones are
/// lost and their counts stay.
pub open spec fn read_pair(h: HeapModel, first: Value, second: Value) -> Read {
    let taken = h.cloned(first).cloned(second);
    if taken.admits() {
        Read {
            result: Ok(Some(Value::Ref(taken.fresh()))),
            heap: taken.allocated(DataModel::Tuple(seq![first, second])),
        }
    } else {
        Read { result: Err(RunError::Resource(ResourceError::Allocation)), heap: taken }
    }
}

/// The number of items is not the expected one.
pub open spec fn size_changed(len: nat, expected: Option<nat>) -> bool {
    expected matches Some(n) && len != n
}

/// The item at `index` of the container `id`, where its size is still `expected`.
pub open spec fn read_item(h: HeapModel, id: HeapId, index: int, expected: Option<nat>) -> Read {
    let dict_changed = Read { result: Err(RunError::DictChangedSize), heap: h };
    match h.data(id) {
        DataModel::List(items) => if index >= items.len() {
            Read { result: Ok(None), heap: h }
        } else {
            read_shared(h, items[index])
        },
        DataModel::Tuple(items) => read_shared(h, items[index]),
        DataModel::NamedTuple(_, items) => read_shared(h, items[index]),
        DataModel::FrozenSet(items) => read_shared(h, items[index]),
        DataModel::Bytes(bytes) => read_shared(h, Value::Int(bytes[index] as i64)),
        DataModel::Dict(entries) => if size_changed(entries.len(), expected) {
            dict_changed
        } else {
            read_shared(h, entries[index].0)
        },
        DataModel::DictKeysView(dict) => if size_changed(dict_entries(h, dict).len(), expected) {
            dict_changed
        } else {
            read_shared(h, dict_entries(h, dict)[index].0)
        },
        DataModel::DictItemsView(dict) => if size_changed(dict_entries(h, dict).len(), expected) {
            dict_changed
        } else {
            read_pair(h, dict_entries(h, dict)[index].0, dict_entries(h, dict)[index].1)
        },
        DataModel::DictValuesView(dict) => if size_changed(dict_entries(h, dict).len(), expected) {
            dict_changed
        } else {
            read_shared(h, dict_entries(h, dict)[index].1)
        },
        DataModel::PySet(items) => if size_changed(items.len(), expected) {
            Read { result: Err(RunError::SetChangedSize), heap: h }
        } else {
            read_shared(h, items[index])
        },
        _ => Read { result: Ok(None), heap: h },
    }
}

/// What came of one advance.
pub enum Outcome {
    /// There is nothing more.
    Exhausted,
    /// The next item.
    Item(Value),
    /// The advance failed.
    Failed(RunError),
    /// The callable of a callable-driven iterator has to be called first.
    Call,
}

/// One advance: what came of it, and the iterator and the heap afterwards.
pub struct Step {
    pub outcome: Outcome,
    pub iter: IterModel,
    pub heap: HeapModel,
}

/// One advance of the iterator `it`.
pub open spec fn step(it: IterModel, h: HeapModel, interns: Interns) -> Step {
    let exhausted = Step { outcome: Outcome::Exhausted, iter: it, heap: h };
    match it.source {
        SourceModel::Range { next, step, len } => if it.index >= len {
            exhausted
        } else {
            Step {
                outcome: Outcome::Item(Value::Int(next)),
                iter: IterModel {
                    index: it.index + 1,
                    source: SourceModel::Range { next: next.wrapping_add(step), step, len },
                    value: it.value,
                },
                heap: h,
            }
        },
        SourceModel::IterStr { chars, byte_offset, len } => if it.index >= len {
            exhausted
        } else {
            let c = chars[it.index as int];
            let width = encode_scalar(c as u32).len();
            let iter = IterModel {
                index: it.index + 1,
                source: SourceModel::IterStr { chars, byte_offset: byte_offset + width, len },
                value: it.value,
            };
            if h.admits() {
                Step {
                    outcome: Outcome::Item(Value::Ref(h.fresh())),
                    iter,
                    heap: h.allocated(DataModel::Str(seq![c])),
                }
            } else {
                Step {
                    outcome: Outcome::Failed(RunError::Resource(ResourceError::Allocation)),
                    iter,
                    heap: h,
                }
            }
        },
        SourceModel::InternBytes { bytes_id, len } => if it.index >= len {
            exhausted
        } else {
            Step {
                outcome: Outcome::Item(
                    Value::Int(interns.bytes_model(bytes_id)[it.index as int] as i64),
                ),
                iter: IterModel { index: it.index + 1, ..it },
                heap: h,
            }
        },
        SourceModel::HeapRef { heap_id, len, checks_mutation } => if len matches Some(l)
            && it.index >= l {
            exhausted
        } else {
            let expected = if checks_mutation {
                len
            } else {
                None
            };
            let read = read_item(h, heap_id, it.index as int, expected);
            match read.result {
                Ok(Some(item)) => Step {
                    outcome: Outcome::Item(item),
                    iter: IterModel { index: it.index + 1, ..it },
                    heap: read.heap,
                },
                Ok(None) => Step { outcome: Outcome::Exhausted, iter: it, heap: read.heap },
                Err(e) => Step { outcome: Outcome::Failed(e), iter: it, heap: read.heap },
            }
        },
        SourceModel::CallableSentinel { done, .. } => if done {
            exhausted
        } else {
            Step { outcome: Outcome::Call, iter: it, heap: h }
        },
    }
}

} // verus!
