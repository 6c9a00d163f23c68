//! Reading items out of containers in the heap.
use vstd::prelude::*;

use crate::data::{Dict, DictView, HeapData};
use crate::error::{ResourceError, RunError, RunResult};
use crate::heap::Heap;
use crate::model::{
    children, lemma_allocated, lemma_backed_weaken, lemma_child_live, lemma_cloned,
    lemma_pair_values, DataModel, HeapModel,
};
use crate::resource::ResourceTracker;
use crate::semantics::{dict_entries, is_dict, read_item, read_pair, size_changed};
use crate::tuple::Tuple;
use crate::value::{
    ids_of, lemma_ids_of_concat, lemma_occurrences_concat, occurrences, HeapId, Value,
};
use crate::vm::VM;

verus! {

/// Places a tuple in the heap. Where that is refused the tuple is gone, together with the
/// references its items owned.
pub fn allocate_tuple<T: ResourceTracker>(tuple: Tuple, heap: &mut Heap<T>) -> (r: Result<
    Value,
    ResourceError,
>)
    ensures
        old(heap)@.admits() ==> r == Ok::<Value, ResourceError>(Value::Ref(old(heap)@.fresh()))
            && final(heap)@ == old(heap)@.allocated(DataModel::Tuple(tuple@)),
        !old(heap)@.admits() ==> r == Err::<Value, ResourceError>(ResourceError::Allocation)
            && final(heap)@ == old(heap)@,
{
    match heap.allocate(HeapData::Tuple(tuple)) {
        Ok(id) => Ok(Value::Ref(id)),
        Err(e) => Err(e),
    }
}

/// `get_heap_item` may read: `id` is a container, and where it gets as far as the item, there is
/// one at `index`.
pub open spec fn readable(h: HeapModel, id: HeapId, index: int, expected: Option<nat>) -> bool {
    &&& h.live(id)
    &&& match h.data(id) {
        DataModel::List(_) => true,
        DataModel::Tuple(items) => index < items.len(),
        DataModel::NamedTuple(_, items) => index < items.len(),
        DataModel::Bytes(bytes) => index < bytes.len(),
        DataModel::FrozenSet(items) => index < items.len(),
        DataModel::Dict(entries) => size_changed(entries.len(), expected) || index
            < entries.len(),
        DataModel::DictKeysView(dict) => is_dict(h, dict) && (size_changed(
            dict_entries(h, dict).len(),
            expected,
        ) || index < dict_entries(h, dict).len()),
        DataModel::DictItemsView(dict) => is_dict(h, dict) && (size_changed(
            dict_entries(h, dict).len(),
            expected,
        ) || index < dict_entries(h, dict).len()),
        DataModel::DictValuesView(dict) => is_dict(h, dict) && (size_changed(
            dict_entries(h, dict).len(),
            expected,
        ) || index < dict_entries(h, dict).len()),
        DataModel::PySet(items) => size_changed(items.len(), expected) || index < items.len(),
        _ => false,
    }
}

/// Whether a container that now has `len` items has changed size.
fn changed_size(len: usize, expected: Option<usize>) -> (b: bool)
    ensures
        b == size_changed(
            len as nat,
            match expected {
                Some(n) => Some(n as nat),
                None => None,
            },
        ),
{
    match expected {
        Some(n) => len != n,
        None => false,
    }
}

/// Takes the reference that `item`, an alias of a value in the heap, is to own.
fn take_shared<T: ResourceTracker>(vm: &mut VM<T>, item: Value) -> (r: RunResult<Option<Value>>)
    requires
        item matches Value::Ref(id) ==> old(vm)@.heap.live(id) && old(vm)@.heap.refs(id)
            < usize::MAX,
    ensures
        r == Ok::<Option<Value>, RunError>(Some(item)),
        final(vm)@ == old(vm)@.with_heap(old(vm)@.heap.cloned(item)),
{
    Ok(Some(item.clone_with_heap(&mut vm.heap)))
}

impl DictView {
    /// The dict that this view looks at.
    pub fn dict<'h, T: ResourceTracker>(&self, heap: &'h Heap<T>) -> (dict: &'h Dict)
        requires
            is_dict(heap@, self.dict_id),
        ensures
            dict.entries@ == dict_entries(heap@, self.dict_id),
    {
        match heap.get(self.dict_id) {
            HeapData::Dict(dict) => dict,
            _ => {
                proof {
                    assert(false);
                }
                vstd::pervasive::unreached()
            },
        }
    }
}

/// Reads the item at `index` of the container `heap_id`.
///
/// There is none where a list has become shorter. A dict or a set whose size is not `expected_len`
/// has changed while it was iterated, which is an error.
pub fn get_heap_item<T: ResourceTracker>(
    vm: &mut VM<T>,
    heap_id: HeapId,
    index: usize,
    expected_len: Option<usize>,
) -> (r: RunResult<Option<Value>>)
    requires
        old(vm)@.heap.counted(),
        old(vm)@.heap.headroom(2),
        readable(
            old(vm)@.heap,
            heap_id,
            index as int,
            match expected_len {
                Some(n) => Some(n as nat),
                None => None,
            },
        ),
    ensures
        ({
            let read = read_item(
                old(vm)@.heap,
                heap_id,
                index as int,
                match expected_len {
                    Some(n) => Some(n as nat),
                    None => None,
                },
            );
            &&& r == read.result
            &&& final(vm)@ == old(vm)@.with_heap(read.heap)
        }),
        old(vm)@.heap.data(heap_id) is List && r is Ok && r->Ok_0 is Some ==> index < usize::MAX,
{
    let ghost h = vm@.heap;
    proof {
        lemma_items_live(h, heap_id);
    }
    match vm.heap.get(heap_id) {
        HeapData::List(items) => {
            if index >= items.len() {
                return Ok(None);
            }
            let item = items[index].alias();
            take_shared(vm, item)
        },
        HeapData::Tuple(tuple) => {
            let item = tuple.as_slice()[index].alias();
            take_shared(vm, item)
        },
        HeapData::NamedTuple(tuple) => {
            let item = tuple.items[index].alias();
            take_shared(vm, item)
        },
        HeapData::Dict(dict) => {
            if changed_size(dict.len(), expected_len) {
                return Err(RunError::DictChangedSize);
            }
            let item = dict.entries[index].0.alias();
            proof {
                lemma_pair_values(dict.entries@, index as int);
            }
            take_shared(vm, item)
        },
        HeapData::DictKeysView(view) => {
            let dict_id = view.dict_id;
            let entries = &view.dict(&vm.heap).entries;
            if changed_size(entries.len(), expected_len) {
                return Err(RunError::DictChangedSize);
            }
            let item = entries[index].0.alias();
            proof {
                lemma_items_live(h, dict_id);
                lemma_pair_values(entries@, index as int);
            }
            take_shared(vm, item)
        },
        HeapData::DictItemsView(view) => {
            let dict_id = view.dict_id;
            let entries = &view.dict(&vm.heap).entries;
            if changed_size(entries.len(), expected_len) {
                return Err(RunError::DictChangedSize);
            }
            let key = entries[index].0.alias();
            let value = entries[index].1.alias();
            proof {
                lemma_items_live(h, dict_id);
                lemma_pair_values(entries@, index as int);
                lemma_cloned(h, key, Seq::empty());
            }
            let key = key.clone_with_heap(&mut vm.heap);
            let value = value.clone_with_heap(&mut vm.heap);
            match allocate_tuple(Tuple::pair(key, value), &mut vm.heap) {
                Ok(item) => Ok(Some(item)),
                Err(e) => Err(RunError::Resource(e)),
            }
        },
        HeapData::DictValuesView(view) => {
            let dict_id = view.dict_id;
            let entries = &view.dict(&vm.heap).entries;
            if changed_size(entries.len(), expected_len) {
                return Err(RunError::DictChangedSize);
            }
            let item = entries[index].1.alias();
            proof {
                lemma_items_live(h, dict_id);
                lemma_pair_values(entries@, index as int);
            }
            take_shared(vm, item)
        },
        HeapData::Bytes(bytes) => Ok(Some(Value::Int(bytes[index] as i64))),
        HeapData::PySet(items) => {
            if changed_size(items.len(), expected_len) {
                return Err(RunError::SetChangedSize);
            }
            let item = items[index].alias();
            take_shared(vm, item)
        },
        HeapData::FrozenSet(items) => {
            let item = items[index].alias();
            take_shared(vm, item)
        },
        _ => {
            proof {
                assert(false);
            }
            Ok(None)
        },
    }
}

/// Everything that a live entry refers to is live.
pub proof fn lemma_items_live(h: HeapModel, id: HeapId)
    requires
        h.counted(),
        h.live(id),
    ensures
        forall|i: int|
            0 <= i < children(h.data(id)).len() ==> (#[trigger] children(
                h.data(id),
            )[i] matches Value::Ref(child) ==> h.live(child)),
{
    assert forall|i: int| 0 <= i < children(h.data(id)).len() implies (#[trigger] children(
        h.data(id),
    )[i] matches Value::Ref(child) ==> h.live(child)) by {
        lemma_child_live(h, id, i);
    }
}

/// Every value that is read out of a container is one that it refers to.
proof fn lemma_shared_live(h: HeapModel, id: HeapId, index: int, expected: Option<nat>)
    requires
        h.counted(),
        readable(h, id, index, expected),
        0 <= index,
    ensures
        match h.data(id) {
            DataModel::List(items) => index < items.len() ==> (
            items[index] matches Value::Ref(c) ==> h.live(c)),
            DataModel::Tuple(items) => items[index] matches Value::Ref(c) ==> h.live(c),
            DataModel::NamedTuple(_, items) => items[index] matches Value::Ref(c) ==> h.live(c),
            DataModel::FrozenSet(items) => items[index] matches Value::Ref(c) ==> h.live(c),
            DataModel::PySet(items) => index < items.len() ==> (
            items[index] matches Value::Ref(c) ==> h.live(c)),
            DataModel::Dict(entries) => index < entries.len() ==> {
                &&& entries[index].0 matches Value::Ref(c) ==> h.live(c)
                &&& entries[index].1 matches Value::Ref(c) ==> h.live(c)
            },
            DataModel::DictKeysView(dict)
            | DataModel::DictItemsView(dict)
            | DataModel::DictValuesView(dict) => index < dict_entries(h, dict).len() ==> {
                &&& dict_entries(h, dict)[index].0 matches Value::Ref(c) ==> h.live(c)
                &&& dict_entries(h, dict)[index].1 matches Value::Ref(c) ==> h.live(c)
            },
            _ => true,
        },
{
    lemma_items_live(h, id);
    match h.data(id) {
        DataModel::List(items) => {
            if index < items.len() {
                assert(children(h.data(id))[index] == items[index]);
            }
        },
        DataModel::Tuple(items) => {
            assert(children(h.data(id))[index] == items[index]);
        },
        DataModel::NamedTuple(_, items) => {
            assert(children(h.data(id))[index] == items[index]);
        },
        DataModel::FrozenSet(items) => {
            assert(children(h.data(id))[index] == items[index]);
        },
        DataModel::PySet(items) => {
            if index < items.len() {
                assert(children(h.data(id))[index] == items[index]);
            }
        },
        DataModel::Dict(entries) => {
            if index < entries.len() {
                lemma_pair_values(entries, index);
            }
        },
        DataModel::DictKeysView(dict) => {
            lemma_items_live(h, dict);
            if index < dict_entries(h, dict).len() {
                lemma_pair_values(dict_entries(h, dict), index);
            }
        },
        DataModel::DictItemsView(dict) => {
            lemma_items_live(h, dict);
            if index < dict_entries(h, dict).len() {
                lemma_pair_values(dict_entries(h, dict), index);
            }
        },
        DataModel::DictValuesView(dict) => {
            lemma_items_live(h, dict);
            if index < dict_entries(h, dict).len() {
                lemma_pair_values(dict_entries(h, dict), index);
            }
        },
        _ => {},
    }
}

/// What is live is still live, and holds what it held.
pub open spec fn keeps(before: HeapModel, after: HeapModel) -> bool {
    forall|id: HeapId| #[trigger]
        before.live(id) ==> after.live(id) && after.data(id) == before.data(id)
}

proof fn lemma_read_pair(h: HeapModel, first: Value, second: Value, rest: Seq<Value>)
    requires
        h.owns(rest),
        h.slots.len() <= usize::MAX,
        first matches Value::Ref(id) ==> h.live(id),
        second matches Value::Ref(id) ==> h.live(id),
    ensures
        keeps(h, read_pair(h, first, second).heap),
        read_pair(h, first, second).heap.owns(rest),
        read_pair(h, first, second).heap.counted(),
        forall|id: HeapId| #[trigger]
            read_pair(h, first, second).heap.refs(id) <= h.refs(id) + 2,
        match read_pair(h, first, second).result {
            Ok(Some(item)) => read_pair(h, first, second).heap.owns(rest.push(item)),
            _ => true,
        },
{
    let read = read_pair(h, first, second);
    lemma_cloned(h, first, rest);
    let once = h.cloned(first);
    lemma_cloned(once, second, rest.push(first));
    let taken = once.cloned(second);
    let data = DataModel::Tuple(seq![first, second]);
    let owners = rest.push(first).push(second);
    let wanted = children(data) + rest;
    assert(owners =~= rest + children(data));
    lemma_ids_of_concat(rest, children(data));
    lemma_ids_of_concat(children(data), rest);
    assert forall|id: HeapId|
        {
            &&& #[trigger] occurrences(ids_of(wanted), id) <= occurrences(ids_of(owners), id)
            &&& occurrences(ids_of(rest), id) <= occurrences(ids_of(owners), id)
        } by {
        lemma_occurrences_concat(ids_of(rest), ids_of(children(data)), id);
        lemma_occurrences_concat(ids_of(children(data)), ids_of(rest), id);
    }
    lemma_backed_weaken(taken, ids_of(owners), ids_of(wanted));
    assert forall|id: HeapId| #[trigger] occurrences(ids_of(rest), id) <= occurrences(
        ids_of(owners),
        id,
    ) by {
        assert(occurrences(ids_of(wanted), id) <= occurrences(ids_of(owners), id));
    }
    lemma_backed_weaken(taken, ids_of(owners), ids_of(rest));
    lemma_backed_weaken(taken, ids_of(owners), Seq::empty());
    assert forall|id: HeapId| #[trigger] h.live(id) implies taken.live(id) && taken.data(id)
        == h.data(id) by {
        assert(once.live(id) == h.live(id));
        assert(once.data(id) == h.data(id));
        assert(taken.live(id) == once.live(id));
        assert(taken.data(id) == once.data(id));
    }
    assert forall|id: HeapId| #[trigger] taken.refs(id) <= h.refs(id) + 2 by {
        assert(once.refs(id) <= h.refs(id) + 1);
    }
    if taken.admits() {
        lemma_allocated(taken, data, rest);
    }
    assert forall|id: HeapId| #[trigger] h.live(id) implies read.heap.live(id) && read.heap.data(id)
        == h.data(id) by {
        assert(taken.live(id));
    }
    assert forall|id: HeapId| #[trigger] read.heap.refs(id) <= h.refs(id) + 2 by {
        assert(taken.refs(id) <= h.refs(id) + 2);
    }
}

/// Reading an item leaves everything in place and every count right: what is read comes with a
/// reference of its own.
pub proof fn lemma_read_item(
    h: HeapModel,
    id: HeapId,
    index: int,
    expected: Option<nat>,
    rest: Seq<Value>,
)
    requires
        h.owns(rest),
        h.slots.len() <= usize::MAX,
        readable(h, id, index, expected),
        0 <= index,
    ensures
        keeps(h, read_item(h, id, index, expected).heap),
        read_item(h, id, index, expected).heap.owns(rest),
        read_item(h, id, index, expected).heap.counted(),
        forall|other: HeapId| #[trigger]
            read_item(h, id, index, expected).heap.refs(other) <= h.refs(other) + 2,
        match read_item(h, id, index, expected).result {
            Ok(Some(item)) => read_item(h, id, index, expected).heap.owns(rest.push(item)),
            _ => true,
        },
{
    lemma_backed_weaken(h, ids_of(rest), Seq::empty());
    lemma_shared_live(h, id, index, expected);
    let read = read_item(h, id, index, expected);
    match h.data(id) {
        DataModel::DictItemsView(dict) => {
            if !size_changed(dict_entries(h, dict).len(), expected) {
                lemma_read_pair(
                    h,
                    dict_entries(h, dict)[index].0,
                    dict_entries(h, dict)[index].1,
                    rest,
                );
            }
        },
        _ => {
            if read.result is Ok && read.result->Ok_0 is Some {
                let item = read.result->Ok_0->0;
                lemma_cloned(h, item, rest);
                assert forall|other: HeapId| #[trigger] h.live(other) implies read.heap.live(
                    other,
                ) && read.heap.data(other) == h.data(other) by {
                    assert(h.cloned(item).live(other) == h.live(other));
                    assert(h.cloned(item).data(other) == h.data(other));
                }
            }
        },
    }
}

} // verus!
