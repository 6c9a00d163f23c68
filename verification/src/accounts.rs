//! Who holds which reference: every operation takes and gives back exactly what it should.
use vstd::prelude::*;

use crate::advance::{is_iter, iter_at, lemma_step, settled, with_iter};
use crate::args::{dropped_all, lemma_dropped_last};
use crate::callable::{begun, entered, left, CallableStep};
use crate::construct::{
    built, callable, fresh_iter, holds_copy, iterated_heap, source_of, string_bounded, value_sound,
};
use crate::contents::{call_with, call_with_two};
use crate::error::{ResourceError, RunError, RunResult};
use crate::intern::Interns;
use crate::items::{keeps, lemma_items_live, readable};
use crate::laws::{allocates, lemma_owns_swapped};
use crate::model::{
    child_ids, children, lemma_allocated, lemma_cloned, lemma_dropped, lemma_owned_live,
    lemma_owns_parts, lemma_pair_values, lemma_with_data, pair_values, DataModel, HeapModel,
    IterModel, SourceModel,
};
use crate::next::{
    default_values, lemma_compared, lemma_owns_permuted, next_concluded, next_result,
    without_default, Next, PendingProduced,
};
use crate::semantics::{
    dict_entries, is_pair, iter_fits, read_item, read_pair, size_changed, step, Outcome,
};
use crate::value::{
    ids_of, lemma_ids_of_concat, lemma_ids_of_one, lemma_occurrences_concat, occurrences, ref_ids,
    HeapId, Value,
};
use crate::vm::VmModel;

verus! {

/// How many references to `x` the value `v` is.
pub open spec fn counts(v: Value, x: HeapId) -> int {
    if v == Value::Ref(x) {
        1
    } else {
        0
    }
}

/// How many references to `x` the values are, together.
pub open spec fn counts_all(values: Seq<Value>, x: HeapId) -> int
    decreases values.len(),
{
    if values.len() == 0 {
        0
    } else {
        counts_all(values.drop_last(), x) + counts(values.last(), x)
    }
}

/// Counting a value is counting the reference that it owns.
pub proof fn lemma_counts(v: Value, x: HeapId)
    ensures
        occurrences(ref_ids(v), x) == counts(v, x),
{
    if v is Ref {
        let id = v->Ref_0;
        assert(seq![id].drop_last() =~= Seq::<HeapId>::empty());
        assert(occurrences(seq![id], x) == occurrences(Seq::<HeapId>::empty(), x) + if id == x {
            1nat
        } else {
            0
        });
    }
}

/// The references of several values are those that each is.
pub proof fn lemma_counts_all(values: Seq<Value>, x: HeapId)
    ensures
        occurrences(ids_of(values), x) == counts_all(values, x),
    decreases values.len(),
{
    if values.len() > 0 {
        lemma_counts_all(values.drop_last(), x);
        lemma_counts(values.last(), x);
        lemma_occurrences_concat(ids_of(values.drop_last()), ref_ids(values.last()), x);
    }
}

/// Dropping a value gives back the one reference that it is. What is freed thereby is what nobody
/// refers to any more, and what is not is unchanged.
pub proof fn a_drop_gives_back_one_reference(h: HeapModel, v: Value, rest: Seq<Value>, x: HeapId)
    requires
        h.owns(seq![v] + rest),
    ensures
        h.dropped(v).outside(x) == h.outside(x) - counts(v, x),
        h.dropped(v).owns(rest),
        h.dropped(v).live(x) ==> h.live(x) && h.dropped(v).data(x) == h.data(x)
            && h.dropped(v).refs(x) >= 1,
        !h.dropped(v).live(x) ==> h.dropped(v).outside(x) == 0 && h.dropped(v).inbound(x) == 0,
{
    lemma_dropped(h, v, rest);
    lemma_counts(v, x);
    let after = h.dropped(v);
    assert(after.outside(x) == h.outside(x) - occurrences(ref_ids(v), x));
    assert(after.refs(x) >= after.inbound(x) + occurrences(Seq::empty(), x));
}

/// Dropping several values gives back the references that they are.
pub proof fn dropping_all_gives_back_all(h: HeapModel, values: Seq<Value>, x: HeapId)
    requires
        h.owns(values),
    ensures
        dropped_all(h, values).counted(),
        dropped_all(h, values).outside(x) == h.outside(x) - counts_all(values, x),
        dropped_all(h, values).live(x) ==> h.live(x) && dropped_all(h, values).data(x) == h.data(x),
        dropped_all(h, values).budget == h.budget,
        dropped_all(h, values).slots.len() == h.slots.len(),
    decreases values.len(),
{
    if values.len() > 0 {
        let v = values.last();
        lemma_dropped_last(h, values);
        assert(seq![v] + Seq::<Value>::empty() =~= seq![v]);
        a_drop_gives_back_one_reference(h, v, Seq::empty(), x);
        lemma_dropped(h, v, Seq::empty());
        dropping_all_gives_back_all(h.dropped(v), values.drop_last(), x);
        if dropped_all(h, values).live(x) {
            assert(h.dropped(v).live(x));
        }
    } else {
        assert(ids_of(values) =~= Seq::<HeapId>::empty());
    }
}

/// What an entry owns is every value in it, once for each place that it is in: the items of a
/// sequence or set, keys and values of a dict, the dict behind a view, what a function captured, the
/// content of a cell. An iterator owns its `value` alone.
pub proof fn an_entry_owns_what_is_in_it(data: DataModel, x: HeapId)
    ensures
        occurrences(child_ids(data), x) == match data {
            DataModel::List(items) => counts_all(items, x),
            DataModel::Tuple(items) => counts_all(items, x),
            DataModel::NamedTuple(_, items) => counts_all(items, x),
            DataModel::PySet(items) => counts_all(items, x),
            DataModel::FrozenSet(items) => counts_all(items, x),
            DataModel::Dict(entries) => counts_all(
                Seq::new(entries.len(), |k: int| entries[k].0),
                x,
            ) + counts_all(Seq::new(entries.len(), |k: int| entries[k].1), x),
            DataModel::DictKeysView(dict) => counts(Value::Ref(dict), x),
            DataModel::DictItemsView(dict) => counts(Value::Ref(dict), x),
            DataModel::DictValuesView(dict) => counts(Value::Ref(dict), x),
            DataModel::Closure(_, captured) => counts_all(captured, x),
            DataModel::FunctionDefaults(_, captured) => counts_all(captured, x),
            DataModel::Cell(value) => counts(value, x),
            DataModel::Iter(it) => counts(it.value, x),
            DataModel::Bytes(_) => 0,
            DataModel::Str(_) => 0,
            DataModel::Range(_) => 0,
            DataModel::ExtFunction(_) => 0,
        },
{
    lemma_counts_all(children(data), x);
    match data {
        DataModel::Dict(entries) => lemma_entry_counts(entries, x),
        DataModel::DictKeysView(dict)
        | DataModel::DictItemsView(dict)
        | DataModel::DictValuesView(dict) => {
            lemma_counts_one(Value::Ref(dict), x);
        },
        DataModel::Cell(value) => lemma_counts_one(value, x),
        DataModel::Iter(it) => lemma_counts_one(it.value, x),
        _ => {},
    }
}

proof fn lemma_counts_one(v: Value, x: HeapId)
    ensures
        counts_all(seq![v], x) == counts(v, x),
{
    assert(seq![v].drop_last() =~= Seq::<Value>::empty());
    assert(counts_all(Seq::<Value>::empty(), x) == 0);
}

proof fn lemma_counts_concat(a: Seq<Value>, b: Seq<Value>, x: HeapId)
    ensures
        counts_all(a + b, x) == counts_all(a, x) + counts_all(b, x),
    decreases b.len(),
{
    if b.len() == 0 {
        assert(a + b =~= a);
    } else {
        assert((a + b).drop_last() =~= a + b.drop_last());
        lemma_counts_concat(a, b.drop_last(), x);
    }
}

proof fn lemma_entry_counts(entries: Seq<(Value, Value)>, x: HeapId)
    ensures
        counts_all(pair_values(entries), x) == counts_all(
            Seq::new(entries.len(), |k: int| entries[k].0),
            x,
        ) + counts_all(Seq::new(entries.len(), |k: int| entries[k].1), x),
    decreases entries.len(),
{
    let keys = Seq::new(entries.len(), |k: int| entries[k].0);
    let values = Seq::new(entries.len(), |k: int| entries[k].1);
    if entries.len() > 0 {
        let rest = entries.drop_last();
        lemma_entry_counts(rest, x);
        assert(keys.drop_last() =~= Seq::new(rest.len(), |k: int| rest[k].0));
        assert(values.drop_last() =~= Seq::new(rest.len(), |k: int| rest[k].1));
        let last = entries.last();
        assert(seq![last.0, last.1] =~= seq![last.0] + seq![last.1]);
        lemma_counts_concat(seq![last.0], seq![last.1], x);
        lemma_counts_one(last.0, x);
        lemma_counts_one(last.1, x);
        lemma_counts_concat(
            pair_values(rest),
            seq![last.0, last.1],
            x,
        );
    }
}

/// An allocation that owns a reference, and only one that does, raises the hint that there may be
/// cycles.
pub proof fn only_owners_raise_the_cycle_hint(h: HeapModel, data: DataModel)
    ensures
        h.allocated(data).potential_cycle <==> h.potential_cycle || exists|k: int|
            0 <= k < children(data).len() && (#[trigger] children(data)[k]) is Ref,
{
    lemma_ids_nonempty(children(data));
}

proof fn lemma_ids_nonempty(values: Seq<Value>)
    ensures
        ids_of(values).len() > 0 <==> exists|k: int|
            0 <= k < values.len() && (#[trigger] values[k]) is Ref,
    decreases values.len(),
{
    if values.len() > 0 {
        let rest = values.drop_last();
        lemma_ids_nonempty(rest);
        if exists|k: int| 0 <= k < rest.len() && (#[trigger] rest[k]) is Ref {
            let k = choose|k: int| 0 <= k < rest.len() && (#[trigger] rest[k]) is Ref;
            assert(values[k] is Ref);
        }
        if values.last() is Ref {
            assert(values[values.len() - 1] is Ref);
        }
        if exists|k: int| 0 <= k < values.len() && (#[trigger] values[k]) is Ref {
            let k = choose|k: int| 0 <= k < values.len() && (#[trigger] values[k]) is Ref;
            if k < rest.len() {
                assert(rest[k] is Ref);
            }
        }
    }
}

/// Nothing refers to what has not been allocated yet.
proof fn lemma_fresh_unheld(h: HeapModel)
    requires
        h.counted(),
        h.slots.len() <= usize::MAX,
    ensures
        h.outside(h.fresh()) == 0,
{
    assert(h.refs(h.fresh()) >= h.inbound(h.fresh()));
}

/// An advance that yields an item takes one reference, to that item, and nothing else changes hands;
/// any other advance changes nothing, but that a refused tuple leaves the counts of its key and value
/// behind. Only items that are made cost an allocation.
pub proof fn an_advance_takes_exactly_its_item(
    it: IterModel,
    h: HeapModel,
    interns: Interns,
    x: HeapId,
)
    requires
        h.counted(),
        h.slots.len() < usize::MAX,
        iter_fits(it, h, interns),
    ensures
        ({
            let s = step(it, h, interns);
            let made = allocates(it, h);
            &&& s.outcome matches Outcome::Item(item) ==> {
                &&& s.heap.outside(x) == h.outside(x) + counts(item, x)
                &&& h.budget matches Some(left) ==> s.heap.budget == Some(
                    (left - if made {
                        1int
                    } else {
                        0
                    }) as nat,
                )
                &&& h.budget is None ==> s.heap.budget is None
                &&& s.heap.slots.len() == h.slots.len() + if made {
                    1int
                } else {
                    0
                }
            }
            &&& s.outcome is Exhausted || s.outcome is Call ==> s.heap == h && s.iter == it
            &&& s.outcome matches Outcome::Failed(e) ==> {
                &&& e == RunError::Resource(ResourceError::Allocation) || s.heap == h
                &&& e == RunError::Resource(ResourceError::Allocation) ==> made && h.budget == Some(
                    0nat,
                )
                &&& it.source is IterStr ==> s.heap == h
            }
        }),
{
    let s = step(it, h, interns);
    lemma_fresh_unheld(h);
    match it.source {
        SourceModel::IterStr { chars, .. } => {
            if s.outcome is Item {
                let data = DataModel::Str(seq![chars[it.index as int]]);
                assert(children(data) + Seq::<Value>::empty() =~= Seq::<Value>::empty());
                assert(ids_of(Seq::<Value>::empty()) =~= Seq::<HeapId>::empty());
                lemma_allocated(h, data, Seq::empty());
                assert(occurrences(child_ids(data), x) == 0);
            }
        },
        SourceModel::HeapRef { heap_id, len, checks_mutation } => {
            if len is None || it.index < len->0 {
                lemma_read_accounts(
                    h,
                    heap_id,
                    it.index as int,
                    if checks_mutation {
                        len
                    } else {
                        None
                    },
                    x,
                );
            }
        },
        _ => {},
    }
}

/// Reading an item takes one reference, to that item.
proof fn lemma_read_accounts(
    h: HeapModel,
    id: HeapId,
    index: int,
    expected: Option<nat>,
    x: HeapId,
)
    requires
        h.counted(),
        h.slots.len() < usize::MAX,
        0 <= index,
        readable(h, id, index, expected),
    ensures
        ({
            let read = read_item(h, id, index, expected);
            let made = h.data(id) is DictItemsView;
            &&& read.result matches Ok(Some(item)) ==> {
                &&& read.heap.outside(x) == h.outside(x) + counts(item, x)
                &&& !made ==> read.heap.budget == h.budget && read.heap.slots.len()
                    == h.slots.len()
                &&& made ==> read.heap.slots.len() == h.slots.len() + 1
                &&& made && h.budget is None ==> read.heap.budget is None
                &&& made && h.budget is Some ==> read.heap.budget == Some(
                    (h.budget->0 - 1) as nat,
                )
            }
            &&& read.result == Ok::<Option<Value>, RunError>(None) ==> read.heap == h
            &&& read.result matches Err(e) ==> {
                &&& e == RunError::Resource(ResourceError::Allocation) || read.heap == h
                &&& e == RunError::Resource(ResourceError::Allocation) ==> made && h.budget == Some(
                    0nat,
                )
            }
        }),
{
    let read = read_item(h, id, index, expected);
    assert(ids_of(Seq::<Value>::empty()) =~= Seq::<HeapId>::empty());
    match h.data(id) {
        DataModel::DictItemsView(dict) => {
            let entries = dict_entries(h, dict);
            if !size_changed(entries.len(), expected) {
                let (key, value) = entries[index];
                lemma_items_live(h, dict);
                lemma_pair_values(entries, index);
                assert(children(h.data(dict))[2 * index] == key);
                assert(children(h.data(dict))[2 * index + 1] == value);
                lemma_pair_accounts(h, key, value, x);
            }
        },
        _ => {
            if read.result is Ok && read.result->Ok_0 is Some {
                let item = read.result->Ok_0->0;
                lemma_counts(item, x);
                lemma_shared_item_live(h, id, index, expected);
                lemma_cloned(h, item, Seq::empty());
            }
        },
    }
}

/// Making a tuple of two values that are in the heap takes one reference, to the tuple.
proof fn lemma_pair_accounts(h: HeapModel, key: Value, value: Value, x: HeapId)
    requires
        h.counted(),
        h.slots.len() < usize::MAX,
        key matches Value::Ref(id) ==> h.live(id),
        value matches Value::Ref(id) ==> h.live(id),
    ensures
        ({
            let read = read_pair(h, key, value);
            &&& h.admits() ==> read.result == Ok::<Option<Value>, RunError>(
                Some(Value::Ref(h.fresh())),
            ) && read.heap.outside(x) == h.outside(x) + counts(Value::Ref(h.fresh()), x)
                && read.heap.slots.len() == h.slots.len() + 1
            &&& !h.admits() ==> read.result == Err::<Option<Value>, RunError>(
                RunError::Resource(ResourceError::Allocation),
            )
            &&& h.admits() && h.budget is Some ==> read.heap.budget == Some(
                (h.budget->0 - 1) as nat,
            )
            &&& h.budget is None ==> read.heap.budget is None
        }),
{
    let read = read_pair(h, key, value);
    assert(ids_of(Seq::<Value>::empty()) =~= Seq::<HeapId>::empty());
    lemma_cloned(h, key, Seq::empty());
    let once = h.cloned(key);
    assert(Seq::<Value>::empty().push(key) =~= seq![key]);
    assert(once.live(value->Ref_0) == h.live(value->Ref_0));
    lemma_cloned(once, value, seq![key]);
    let taken = once.cloned(value);
    lemma_counts(key, x);
    lemma_counts(value, x);
    assert(once.outside(x) == h.outside(x) + occurrences(ref_ids(key), x));
    assert(taken.outside(x) == once.outside(x) + occurrences(ref_ids(value), x));
    let both = seq![key, value];
    let data = DataModel::Tuple(both);
    assert(seq![key].push(value) =~= both);
    assert(children(data) + Seq::<Value>::empty() =~= both);
    assert(taken.slots.len() == h.slots.len());
    assert(taken.fresh() == h.fresh());
    if h.admits() {
        lemma_allocated(taken, data, Seq::empty());
        lemma_counts_two(key, value, x);
        lemma_counts_all(both, x);
        assert(child_ids(data) == ids_of(both));
        lemma_fresh_unheld(h);
        if x == h.fresh() {
            assert(read.heap.outside(x) == 1);
        } else {
            assert(read.heap.outside(x) == taken.outside(x) - occurrences(child_ids(data), x));
        }
    }
}

proof fn lemma_counts_two(a: Value, b: Value, x: HeapId)
    ensures
        counts_all(seq![a, b], x) == counts(a, x) + counts(b, x),
{
    assert(seq![a, b] =~= seq![a] + seq![b]);
    lemma_counts_concat(seq![a], seq![b], x);
    lemma_counts_one(a, x);
    lemma_counts_one(b, x);
}

/// What is read out of a container is live.
proof fn lemma_shared_item_live(h: HeapModel, id: HeapId, index: int, expected: Option<nat>)
    requires
        h.counted(),
        0 <= index,
        readable(h, id, index, expected),
        h.data(id) !is DictItemsView,
    ensures
        read_item(h, id, index, expected).result matches Ok(Some(Value::Ref(x))) ==> h.live(x),
{
    lemma_items_live(h, id);
    match h.data(id) {
        DataModel::List(items)
        | DataModel::Tuple(items)
        | DataModel::NamedTuple(_, items)
        | DataModel::PySet(items)
        | DataModel::FrozenSet(items) => {
            if index < items.len() {
                assert(children(h.data(id))[index] == items[index]);
            }
        },
        DataModel::Dict(entries) => {
            if index < entries.len() {
                lemma_pair_values(entries, index);
                assert(children(h.data(id))[2 * index] == entries[index].0);
            }
        },
        DataModel::DictKeysView(dict) | DataModel::DictValuesView(dict) => {
            let entries = dict_entries(h, dict);
            lemma_items_live(h, dict);
            if index < entries.len() {
                lemma_pair_values(entries, index);
                assert(children(h.data(dict))[2 * index] == entries[index].0);
                assert(children(h.data(dict))[2 * index + 1] == entries[index].1);
            }
        },
        _ => {},
    }
}

/// `iter(iterable)` accounts for the reference of its argument: it has moved into the new iterator, or
/// has been given back where the iterator holds a copy or there is none. Where a container's iterator
/// is refused, the count stays behind.
pub proof fn iterable_construction_accounts_for_its_argument(
    v: Value,
    h: HeapModel,
    interns: Interns,
    rest: Seq<Value>,
    x: HeapId,
)
    requires
        h.owns(seq![v] + rest),
        h.slots.len() < usize::MAX,
        value_sound(v, h, interns),
        source_of(v, h, interns) matches Some(source) ==> string_bounded(source),
        !(v matches Value::Ref(id) && h.data(id) is Iter),
    ensures
        ({
            let b = built(call_with(v), h, interns);
            let copied = match v {
                Value::InternString(_) => true,
                Value::Ref(id) => h.data(id) is Str || h.data(id) is Range,
                _ => false,
            };
            &&& b.result matches Ok(new) ==> {
                &&& new is Ref
                &&& b.heap.outside(x) == if new == Value::Ref(x) {
                    1
                } else {
                    h.outside(x) - counts(v, x)
                }
                &&& h.budget matches Some(left) ==> left >= 1 && b.heap.budget == Some(
                    (left - 1) as nat,
                )
            }
            &&& source_of(v, h, interns) is Some && h.budget == Some(0nat) ==> b.result == Err::<
                Value,
                RunError,
            >(RunError::Resource(ResourceError::Allocation))
            &&& b.result matches Err(RunError::NotIterable(_)) ==> b.heap.outside(x) == h.outside(x)
                - counts(v, x) && b.heap.budget == h.budget
            &&& b.result matches Err(RunError::Resource(_)) ==> h.budget == Some(0nat)
                && b.heap.outside(x) == h.outside(x) - if copied {
                counts(v, x)
            } else {
                0
            }
        }),
{
    let b = built(call_with(v), h, interns);
    let taken = iterated_heap(h, v, interns);
    a_drop_gives_back_one_reference(h, v, rest, x);
    lemma_dropped(h, v, rest);
    lemma_owned_live(h, seq![v] + rest, 0);
    assert((seq![v] + rest)[0] == v);
    if b.result is Ok {
        let source = source_of(v, h, interns)->0;
        let it = fresh_iter(v, source);
        let data = DataModel::Iter(it);
        lemma_counts_one(it.value, x);
        if holds_copy(source) {
            assert(children(data) =~= seq![Value::PyNone]);
            lemma_ids_of_one(Value::PyNone);
            lemma_ids_of_concat(seq![Value::PyNone], rest);
            assert(ids_of(seq![Value::PyNone] + rest) =~= ids_of(rest));
        } else {
            assert(children(data) =~= seq![v]);
        }
        lemma_allocated(taken, data, rest);
        an_entry_owns_what_is_in_it(data, x);
    }
}

/// `iter(callable, sentinel)` that succeeds accounts for the references of both arguments: they are
/// in the pair, the pair is in the iterator, and the iterator is what is handed out.
pub proof fn callable_construction_accounts_for_both(
    v: Value,
    sentinel: Value,
    h: HeapModel,
    interns: Interns,
    rest: Seq<Value>,
    x: HeapId,
)
    requires
        h.owns(seq![v, sentinel] + rest),
        h.slots.len() + 1 < usize::MAX,
        built(call_with_two(v, sentinel), h, interns).result is Ok,
    ensures
        ({
            let b = built(call_with_two(v, sentinel), h, interns);
            &&& b.result->Ok_0 is Ref
            &&& b.heap.outside(x) == counts(b.result->Ok_0, x) + h.outside(x) - counts(v, x)
                - counts(sentinel, x)
        }),
{
    let data = DataModel::Tuple(seq![v, sentinel]);
    assert(children(data) + rest =~= seq![v, sentinel] + rest);
    lemma_allocated(h, data, rest);
    let paired = h.allocated(data);
    let pair = h.fresh();
    let it = DataModel::Iter(
        IterModel {
            index: 0,
            source: SourceModel::CallableSentinel { pair, done: false },
            value: Value::Ref(pair),
        },
    );
    assert(children(it) + rest =~= seq![Value::Ref(pair)] + rest);
    lemma_owns_swapped(paired, rest, Value::Ref(pair));
    lemma_allocated(paired, it, rest);
    let b = built(call_with_two(v, sentinel), h, interns);
    assert(b.heap == paired.allocated(it));
    lemma_counts_two(v, sentinel, x);
    an_entry_owns_what_is_in_it(data, x);
    an_entry_owns_what_is_in_it(it, x);
    lemma_owns_parts(h, seq![v, sentinel], rest);
    lemma_fresh_unheld(h);
    lemma_fresh_unheld(paired);
    lemma_owned_live(h, seq![v, sentinel] + rest, 0);
    lemma_owned_live(h, seq![v, sentinel] + rest, 1);
    assert((seq![v, sentinel] + rest)[0] == v);
    assert((seq![v, sentinel] + rest)[1] == sentinel);
    let new = paired.fresh();
    assert(!h.live(new) && !h.live(pair));
    assert(paired.outside(pair) == 1);
    if x == new {
        assert(b.heap.outside(x) == 1);
        assert(h.refs(x) >= h.inbound(x));
        assert(h.outside(x) == 0);
    } else if x == pair {
        assert(b.heap.outside(x) == paired.outside(x) - counts(Value::Ref(pair), x));
    }
}

/// The beginning of a step takes one reference to the callable and one to the sentinel.
pub proof fn a_step_takes_callable_and_sentinel(vm: VmModel, pair: HeapId, x: HeapId)
    requires
        vm.heap.counted(),
        is_pair(vm.heap, pair),
    ensures
        ({
            let both = vm.heap.data(pair)->Tuple_0;
            &&& entered(vm, pair).heap.outside(x) == vm.heap.outside(x) + counts(both[0], x)
                + counts(both[1], x)
            &&& begun(vm, pair).callable == both[0]
            &&& begun(vm, pair).sentinel == both[1]
            &&& begun(vm, pair).caller == vm.frames
            &&& entered(vm, pair).frames == vm.frames
            &&& entered(vm, pair).gc_pause_depth == vm.gc_pause_depth + 1
            &&& keeps(vm.heap, entered(vm, pair).heap)
        }),
{
    let h = vm.heap;
    let both = h.data(pair)->Tuple_0;
    lemma_items_live(h, pair);
    assert(children(h.data(pair))[0] == both[0]);
    assert(children(h.data(pair))[1] == both[1]);
    assert(ids_of(Seq::<Value>::empty()) =~= Seq::<HeapId>::empty());
    lemma_cloned(h, both[0], Seq::empty());
    let once = h.cloned(both[0]);
    assert(once.live(both[1]->Ref_0) == h.live(both[1]->Ref_0));
    lemma_cloned(once, both[1], Seq::empty());
    lemma_counts(both[0], x);
    lemma_counts(both[1], x);
    assert(once.outside(x) == h.outside(x) + occurrences(ref_ids(both[0]), x));
    assert forall|id: HeapId| #[trigger] h.live(id) implies entered(vm, pair).heap.live(id)
        && entered(vm, pair).heap.data(id) == h.data(id) by {
        assert(once.live(id) == h.live(id));
        assert(once.data(id) == h.data(id));
        assert(once.cloned(both[1]).live(id) == once.live(id));
        assert(once.cloned(both[1]).data(id) == once.data(id));
    }
}

/// The end of a step gives back one reference to the callable and one to the sentinel, and puts back
/// the caller's frame state.
pub proof fn a_step_gives_back_callable_and_sentinel(
    vm: VmModel,
    step: CallableStep,
    rest: Seq<Value>,
    x: HeapId,
)
    requires
        vm.heap.owns(seq![step.callable, step.sentinel] + rest),
        vm.gc_pause_depth > 0,
    ensures
        left(vm, step).heap.outside(x) == vm.heap.outside(x) - counts(step.callable, x) - counts(
            step.sentinel,
            x,
        ),
        left(vm, step).heap.owns(rest),
        left(vm, step).frames == step.caller,
        left(vm, step).gc_pause_depth == vm.gc_pause_depth - 1,
{
    let others = seq![step.sentinel] + rest;
    assert(seq![step.callable, step.sentinel] + rest =~= seq![step.callable] + others);
    a_drop_gives_back_one_reference(vm.heap, step.callable, others, x);
    a_drop_gives_back_one_reference(vm.heap.dropped(step.callable), step.sentinel, rest, x);
}

/// The value in `default`, if there is one.
pub open spec fn given(default: Option<Value>) -> Seq<Value> {
    match default {
        Some(value) => seq![value],
        None => Seq::empty(),
    }
}

/// How many references to `x` the default is.
pub open spec fn counts_given(default: Option<Value>, x: HeapId) -> int {
    match default {
        Some(value) => counts(value, x),
        None => 0,
    }
}

/// Dropping the default gives back its reference.
pub proof fn lemma_default_dropped(h: HeapModel, default: Option<Value>, rest: Seq<Value>, x: HeapId)
    requires
        h.owns(given(default) + rest),
    ensures
        without_default(h, default).outside(x) == h.outside(x) - counts_given(default, x),
        without_default(h, default).owns(rest),
        without_default(h, default).live(x) ==> h.live(x) && without_default(h, default).data(x)
            == h.data(x),
{
    match default {
        Some(value) => a_drop_gives_back_one_reference(h, value, rest, x),
        None => {
            assert(given(default) + rest =~= rest);
        },
    }
}

/// The state of an iterator can change without any reference changing hands.
proof fn lemma_iter_replaced(
    h: HeapModel,
    id: HeapId,
    it: IterModel,
    values: Seq<Value>,
    x: HeapId,
)
    requires
        h.owns(values),
        is_iter(h, id),
        it.value == iter_at(h, id).value,
    ensures
        with_iter(h, id, it).owns(values),
        with_iter(h, id, it).outside(x) == h.outside(x),
        with_iter(h, id, it).live(x) == h.live(x),
        with_iter(h, id, it).refs(x) == h.refs(x),
        x != id && h.live(x) ==> with_iter(h, id, it).data(x) == h.data(x),
        with_iter(h, id, it).data(id) == DataModel::Iter(it),
        with_iter(h, id, it).budget == h.budget,
{
    lemma_with_data(h, id, DataModel::Iter(it), ids_of(values));
}

/// `next` that returns an item takes a reference to the item and gives back that of the default;
/// one that fails gives back that of the default. The iterator's entry holds its new state, and the
/// frames and the collector are left alone.
pub proof fn next_accounts_for_item_and_default(
    id: HeapId,
    default: Option<Value>,
    before: VmModel,
    r: RunResult<Next>,
    after: VmModel,
    rest: Seq<Value>,
    x: HeapId,
)
    requires
        before.heap.owns(given(default) + (seq![Value::Ref(id)] + rest)),
        before.heap.slots.len() < usize::MAX,
        is_iter(before.heap, id),
        iter_fits(iter_at(before.heap, id), before.heap, before.interns),
        next_result(Value::Ref(id), default, before, r, after),
    ensures
        ({
            let h = before.heap;
            let s = step(iter_at(h, id), h, before.interns);
            &&& s.outcome matches Outcome::Item(item) ==> {
                &&& after.heap.outside(x) == h.outside(x) + counts(item, x) - counts_given(
                    default,
                    x,
                )
                &&& after.heap.live(id)
                &&& after.heap.data(id) == DataModel::Iter(s.iter)
            }
            &&& s.outcome matches Outcome::Failed(e) ==> {
                &&& e != RunError::Resource(ResourceError::Allocation) ==> after.heap.outside(x)
                    == h.outside(x) - counts_given(default, x)
                &&& after.heap.live(id)
                &&& after.heap.data(id) == DataModel::Iter(s.iter)
            }
            &&& !(s.outcome is Call) ==> {
                &&& after.frames == before.frames
                &&& after.gc_pause_depth == before.gc_pause_depth
                &&& after.interns == before.interns
            }
        }),
{
    let h = before.heap;
    let it = iter_at(h, id);
    let s = step(it, h, before.interns);
    let held = given(default) + (seq![Value::Ref(id)] + rest);
    lemma_step(it, h, before.interns, held);
    an_advance_takes_exactly_its_item(it, h, before.interns, x);
    assert(h.live(id));
    assert(s.heap.live(id) && s.heap.data(id) == h.data(id));
    lemma_iter_replaced(s.heap, id, s.iter, held, x);
    lemma_iter_replaced(s.heap, id, s.iter, held, id);
    let moved = with_iter(s.heap, id, s.iter);
    let others = seq![Value::Ref(id)] + rest;
    lemma_default_dropped(moved, default, others, x);
    lemma_default_dropped(moved, default, others, id);
    lemma_owned_live(without_default(moved, default), others, 0);
    assert(others[0] == Value::Ref(id));
}

/// What is given back when `next` of a callable-driven iterator ends: callable and sentinel of the
/// step, and either the produced value or the default, whichever is not returned; both, where the
/// comparison failed.
pub proof fn a_driven_next_accounts_for_everything(
    pending: PendingProduced,
    before: VmModel,
    outcome: Result<bool, ResourceError>,
    r: RunResult<Value>,
    after: VmModel,
    x: HeapId,
)
    requires
        before.heap.owns(
            seq![pending.step.produced, pending.step.step.callable, pending.step.step.sentinel]
                + given(pending.default).push(Value::Ref(pending.iter.id)),
        ),
        is_iter(before.heap, pending.iter.id),
        iter_at(before.heap, pending.iter.id).source is CallableSentinel,
        next_concluded(pending, before, outcome, r, after),
    ensures
        ({
            let base = before.heap.outside(x) - counts(pending.step.step.callable, x) - counts(
                pending.step.step.sentinel,
                x,
            );
            let produced = counts(pending.step.produced, x);
            let default = counts_given(pending.default, x);
            let over = iter_at(before.heap, pending.iter.id).source->done;
            match outcome {
                Ok(equal) => after.heap.outside(x) == base - if equal || over {
                    produced
                } else {
                    default
                },
                Err(e) => {
                    &&& r == Err::<Value, RunError>(RunError::Resource(e))
                    &&& after.heap.outside(x) == base - produced - default
                    &&& is_iter(after.heap, pending.iter.id)
                    &&& iter_at(after.heap, pending.iter.id) == iter_at(
                        before.heap,
                        pending.iter.id,
                    )
                },
            }
        }),
{
    let h = before.heap;
    let id = pending.iter.id;
    let callee = pending.step.step;
    let v = pending.step.produced;
    let held = given(pending.default).push(Value::Ref(id));
    let two = seq![callee.callable, callee.sentinel];
    let three = seq![v, callee.callable, callee.sentinel];
    assert(default_values(pending.default) =~= given(pending.default));
    assert(held =~= given(pending.default) + seq![Value::Ref(id)]);
    lemma_compared(h, pending.step, pending.default, id);
    // The produced value is dropped first.
    assert(three + held =~= seq![v] + (two + held));
    a_drop_gives_back_one_reference(h, v, two + held, x);
    let without = h.dropped(v);
    lemma_step_dropped(without, callee, held, x);
    let dropped = without.dropped(callee.callable).dropped(callee.sentinel);
    lemma_default_dropped(dropped, pending.default, seq![Value::Ref(id)], x);
    lemma_default_dropped(dropped, pending.default, seq![Value::Ref(id)], id);
    lemma_owned_live(
        without_default(dropped, pending.default),
        seq![Value::Ref(id)],
        0,
    );
    let it = iter_at(h, id);
    lemma_iter_replaced(dropped, id, settled(it, None).1, held, x);
    // The produced value is kept.
    lemma_owns_rotated(h, v, callee, held);
    lemma_step_dropped(h, callee, seq![v] + held, x);
    let kept = h.dropped(callee.callable).dropped(callee.sentinel);
    a_drop_gives_back_one_reference(kept, v, held, x);
    lemma_owns_parts(kept, seq![v], held);
    let moved = with_iter(kept, id, settled(it, Some(v)).1);
    lemma_iter_replaced(kept, id, settled(it, Some(v)).1, held, x);
    lemma_default_dropped(moved, pending.default, seq![Value::Ref(id)], x);
}

proof fn lemma_step_dropped(h: HeapModel, step: CallableStep, rest: Seq<Value>, x: HeapId)
    requires
        h.owns(seq![step.callable, step.sentinel] + rest),
    ensures
        h.dropped(step.callable).dropped(step.sentinel).outside(x) == h.outside(x) - counts(
            step.callable,
            x,
        ) - counts(step.sentinel, x),
        h.dropped(step.callable).dropped(step.sentinel).owns(rest),
{
    let others = seq![step.sentinel] + rest;
    assert(seq![step.callable, step.sentinel] + rest =~= seq![step.callable] + others);
    a_drop_gives_back_one_reference(h, step.callable, others, x);
    a_drop_gives_back_one_reference(h.dropped(step.callable), step.sentinel, rest, x);
}

/// The produced value may as well stand behind callable and sentinel.
pub proof fn lemma_owns_rotated(h: HeapModel, v: Value, step: CallableStep, rest: Seq<Value>)
    requires
        h.owns(seq![v, step.callable, step.sentinel] + rest),
    ensures
        h.owns(seq![step.callable, step.sentinel] + (seq![v] + rest)),
{
    let from = seq![v, step.callable, step.sentinel] + rest;
    let to = seq![step.callable, step.sentinel] + (seq![v] + rest);
    lemma_owns_permuted(h, from, to);
}

} // verus!
