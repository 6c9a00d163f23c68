//! What iterating a value gives, told from what the value holds.
use vstd::prelude::*;
use vstd::utf8::encode_utf8;

use crate::args::ArgsModel;
use crate::collect::{gathered, nth_step, size_left, yields};
use crate::construct::{
    built, callable, fresh_iter, iterated_heap, lemma_fresh_iter_fits, range_source, source_of,
    value_sound,
};
use crate::error::{error_type, ExcType, ResourceError, RunError};
use crate::heap::value_type;
use crate::intern::Interns;
use crate::laws::{
    affords, allocates, containers_are_walked_in_order, iterable_construction_is_sound,
    lemma_entry_cloned, made_item, made_items_come_in_order, ranges_are_walked_in_steps, same_size,
    shared_item, size_left_is_exact,
};
use crate::model::{
    children, lemma_allocated, lemma_dropped, lemma_owned_live, DataModel, HeapModel, IterModel,
    SourceModel,
};
use crate::range::{a_range_counts_all_before_its_stop, Range};
use crate::semantics::{iter_fits, read_item, step, Outcome};
use crate::value::{ids_of, lemma_ids_of_concat, lemma_ids_of_one, BytesId, HeapId, StringId, Value};

verus! {

/// Draining the iterator `it` gives exactly `items`.
pub open spec fn drains(it: IterModel, h: HeapModel, interns: Interns, items: Seq<Value>) -> bool {
    &&& yields(it, h, interns, items.len())
    &&& nth_step(it, h, interns, items.len()).outcome is Exhausted
    &&& gathered(it, h, interns, items.len()).items == items
}

/// Draining the iterator `it` gives new entries that hold exactly `made`, in order.
pub open spec fn drains_made(
    it: IterModel,
    h: HeapModel,
    interns: Interns,
    made: Seq<DataModel>,
) -> bool {
    let g = gathered(it, h, interns, made.len());
    &&& yields(it, h, interns, made.len())
    &&& nth_step(it, h, interns, made.len()).outcome is Exhausted
    &&& g.items.len() == made.len()
    &&& forall|k: int|
        0 <= k < made.len() ==> {
            &&& (#[trigger] g.items[k]) matches Value::Ref(id)
            &&& !h.live(id)
            &&& g.heap.live(id)
            &&& g.heap.data(id) == made[k]
        }
}

/// A call with this one argument.
pub open spec fn call_with(v: Value) -> ArgsModel {
    ArgsModel { positional: seq![v], keywords: Seq::empty() }
}

/// A call with these two arguments.
pub open spec fn call_with_two(v: Value, w: Value) -> ArgsModel {
    ArgsModel { positional: seq![v, w], keywords: Seq::empty() }
}

/// The tracker admits `n` more allocations, and the heap has room for them.
pub open spec fn room_for(h: HeapModel, n: nat) -> bool {
    &&& h.budget matches Some(left) ==> left >= n
    &&& h.slots.len() + n <= usize::MAX
}

/// The values that the container `id` holds, in order, where they are there already: the items of
/// a sequence or a set, the bytes of a byte string, the keys or the values of a dict.
pub open spec fn held_values(h: HeapModel, id: HeapId) -> Option<Seq<Value>> {
    match h.data(id) {
        DataModel::List(items) => Some(items),
        DataModel::Tuple(items) => Some(items),
        DataModel::NamedTuple(_, items) => Some(items),
        DataModel::PySet(items) => Some(items),
        DataModel::FrozenSet(items) => Some(items),
        DataModel::Bytes(bytes) => Some(
            Seq::new(bytes.len(), |k: int| Value::Int(bytes[k] as i64)),
        ),
        DataModel::Dict(entries) => Some(Seq::new(entries.len(), |k: int| entries[k].0)),
        DataModel::DictKeysView(dict) => match h.data(dict) {
            DataModel::Dict(entries) => Some(Seq::new(entries.len(), |k: int| entries[k].0)),
            _ => None,
        },
        DataModel::DictValuesView(dict) => match h.data(dict) {
            DataModel::Dict(entries) => Some(Seq::new(entries.len(), |k: int| entries[k].1)),
            _ => None,
        },
        _ => None,
    }
}

/// A view at `id` looks at a dict that is there.
pub open spec fn view_backed(h: HeapModel, id: HeapId) -> bool {
    match h.data(id) {
        DataModel::DictKeysView(dict)
        | DataModel::DictItemsView(dict)
        | DataModel::DictValuesView(dict) => h.live(dict) && h.data(dict) is Dict,
        _ => true,
    }
}

/// What `iter` needs of its argument to be sound: that what it names exists, that the dict behind a
/// view is there, that a range moves and can be counted. Nothing else, whatever the size.
pub proof fn iterating_asks_no_more(v: Value, h: HeapModel, interns: Interns)
    ensures
        match v {
            Value::InternString(id) => id.0 < interns.strings@.len() ==> value_sound(v, h, interns),
            Value::InternBytes(id) => id.0 < interns.bytes@.len() ==> value_sound(v, h, interns),
            Value::Ref(id) => h.live(id) && view_backed(h, id) && !(h.data(id) is Range)
                ==> value_sound(v, h, interns),
            _ => value_sound(v, h, interns),
        },
{
}

/// What a new iterator over a container in `h` gives in a heap `now` that still holds it.
proof fn lemma_drains(
    it: IterModel,
    h: HeapModel,
    now: HeapModel,
    interns: Interns,
    id: HeapId,
    items: Seq<Value>,
)
    requires
        now.counted(),
        now.slots.len() <= usize::MAX,
        now.live(id),
        held_values(now, id) == Some(items),
        view_backed(now, id),
        iter_fits(it, now, interns),
        same_size(it, now),
        it.index == 0,
        it.source matches SourceModel::HeapRef { heap_id, .. } && heap_id == id,
    ensures
        drains(it, now, interns, items),
{
    let n = items.len();
    assert(size_left(it, now) == n);
    containers_are_walked_in_order(it, now, interns, n);
    size_left_is_exact(it, now, interns);
    assert(gathered(it, now, interns, n).items =~= items) by {
        assert forall|k: int| 0 <= k < n implies shared_item(now, id, it.index + k) == items[k] by {}
    }
}

/// A new iterator over a container, made by itself or by `iter`, gives everything the container
/// holds, in order: all items of a list, tuple, named tuple, set or frozen set, all bytes of a byte
/// string, all keys of a dict or of a view of its keys, all values of a view of its values.
pub proof fn iterating_a_container_gives_what_it_holds(
    id: HeapId,
    h: HeapModel,
    interns: Interns,
    items: Seq<Value>,
    rest: Seq<Value>,
)
    requires
        h.owns(seq![Value::Ref(id)] + rest),
        view_backed(h, id),
        held_values(h, id) == Some(items),
        room_for(h, 1),
    ensures
        ({
            let v = Value::Ref(id);
            let b = built(call_with(v), h, interns);
            &&& source_of(v, h, interns) matches Some(source) && drains(
                fresh_iter(v, source),
                iterated_heap(h, v, interns),
                interns,
                items,
            )
            &&& b.result matches Ok(Value::Ref(new)) && b.heap.live(new) && !h.live(new)
                && b.heap.data(new) is Iter && drains(
                b.heap.data(new)->Iter_0,
                b.heap,
                interns,
                items,
            )
        }),
{
    let v = Value::Ref(id);
    let all = seq![v] + rest;
    lemma_owned_live(h, all, 0);
    assert(all[0] == v);
    lemma_dropped(h, v, rest);
    lemma_fresh_iter_fits(v, h, interns);
    let it = fresh_iter(v, source_of(v, h, interns)->0);
    lemma_drains(it, h, h, interns, id, items);
    iterable_construction_is_sound(v, h, interns, rest);
    let b = built(call_with(v), h, interns);
    let data = DataModel::Iter(it);
    assert(children(data) =~= seq![v]);
    lemma_allocated(h, data, rest);
    match h.data(id) {
        DataModel::DictKeysView(dict) | DataModel::DictValuesView(dict) => {
            assert(h.live(dict));
            assert(b.heap.live(dict));
            assert(b.heap.data(dict) == h.data(dict));
        },
        _ => {},
    }
    assert(b.heap.live(id));
    assert(b.heap.data(id) == h.data(id));
    lemma_drains(it, h, b.heap, interns, id, items);
}

/// What a new iterator whose items are made as they are yielded gives.
proof fn lemma_drains_made(
    it: IterModel,
    now: HeapModel,
    interns: Interns,
    made: Seq<DataModel>,
)
    requires
        now.counted(),
        iter_fits(it, now, interns),
        same_size(it, now),
        allocates(it, now),
        affords(it, now, made.len()),
        it.index == 0,
        size_left(it, now) == made.len(),
        forall|k: int|
            0 <= k < made.len() ==> #[trigger] made[k] == made_item(it, now, k),
    ensures
        drains_made(it, now, interns, made),
{
    made_items_come_in_order(it, now, interns, made.len());
    size_left_is_exact(it, now, interns);
}

/// The strings of one character that `chars` falls into.
pub open spec fn single_characters(chars: Seq<char>) -> Seq<DataModel> {
    Seq::new(chars.len(), |k: int| DataModel::Str(seq![chars[k]]))
}

/// A new iterator over a string in the heap gives each of its characters, in order, as a string of
/// one character.
pub proof fn iterating_a_string_gives_its_characters(
    id: HeapId,
    h: HeapModel,
    interns: Interns,
    chars: Seq<char>,
    rest: Seq<Value>,
)
    requires
        h.owns(seq![Value::Ref(id)] + rest),
        h.data(id) == DataModel::Str(chars),
        encode_utf8(chars).len() <= usize::MAX,
        room_for(h, chars.len() + 1),
    ensures
        ({
            let v = Value::Ref(id);
            let b = built(call_with(v), h, interns);
            &&& source_of(v, h, interns) matches Some(source) && drains_made(
                fresh_iter(v, source),
                iterated_heap(h, v, interns),
                interns,
                single_characters(chars),
            )
            &&& b.result matches Ok(Value::Ref(new)) && b.heap.live(new) && !h.live(new)
                && b.heap.data(new) is Iter && drains_made(
                b.heap.data(new)->Iter_0,
                b.heap,
                interns,
                single_characters(chars),
            )
        }),
{
    let v = Value::Ref(id);
    let all = seq![v] + rest;
    lemma_owned_live(h, all, 0);
    assert(all[0] == v);
    lemma_dropped(h, v, rest);
    lemma_string_drains(v, h, interns, chars, rest);
}

/// A new iterator over an interned string gives each of its characters, in order, as a string of one
/// character.
pub proof fn iterating_an_interned_string_gives_its_characters(
    id: StringId,
    h: HeapModel,
    interns: Interns,
    chars: Seq<char>,
    rest: Seq<Value>,
)
    requires
        h.owns(rest),
        id.0 < interns.strings@.len(),
        interns.strings@[id.0 as int]@ == chars,
        encode_utf8(chars).len() <= usize::MAX,
        room_for(h, chars.len() + 1),
    ensures
        ({
            let v = Value::InternString(id);
            let b = built(call_with(v), h, interns);
            &&& source_of(v, h, interns) matches Some(source) && drains_made(
                fresh_iter(v, source),
                iterated_heap(h, v, interns),
                interns,
                single_characters(chars),
            )
            &&& b.result matches Ok(Value::Ref(new)) && b.heap.live(new) && !h.live(new)
                && b.heap.data(new) is Iter && drains_made(
                b.heap.data(new)->Iter_0,
                b.heap,
                interns,
                single_characters(chars),
            )
        }),
{
    let v = Value::InternString(id);
    lemma_immediate_owned(h, v, rest);
    lemma_dropped(h, v, rest);
    lemma_string_drains(v, h, interns, chars, rest);
}

/// A value that is no reference owns nothing.
proof fn lemma_immediate_owned(h: HeapModel, v: Value, rest: Seq<Value>)
    requires
        h.owns(rest),
        v !is Ref,
    ensures
        h.owns(seq![v] + rest),
{
    lemma_ids_of_concat(seq![v], rest);
    lemma_ids_of_one(v);
    assert(ids_of(seq![v] + rest) =~= ids_of(rest));
}

proof fn lemma_string_drains(
    v: Value,
    h: HeapModel,
    interns: Interns,
    chars: Seq<char>,
    rest: Seq<Value>,
)
    requires
        h.owns(seq![v] + rest),
        value_sound(v, h, interns),
        match v {
            Value::Ref(id) => h.data(id) == DataModel::Str(chars),
            Value::InternString(id) => interns.strings@[id.0 as int]@ == chars,
            _ => false,
        },
        encode_utf8(chars).len() <= usize::MAX,
        room_for(h, chars.len() + 1),
    ensures
        ({
            let b = built(call_with(v), h, interns);
            &&& source_of(v, h, interns) matches Some(source) && drains_made(
                fresh_iter(v, source),
                iterated_heap(h, v, interns),
                interns,
                single_characters(chars),
            )
            &&& b.result matches Ok(Value::Ref(new)) && b.heap.live(new) && !h.live(new)
                && b.heap.data(new) is Iter && drains_made(
                b.heap.data(new)->Iter_0,
                b.heap,
                interns,
                single_characters(chars),
            )
        }),
{
    let made = single_characters(chars);
    lemma_dropped(h, v, rest);
    lemma_fresh_iter_fits(v, h, interns);
    let taken = iterated_heap(h, v, interns);
    let it = fresh_iter(v, source_of(v, h, interns)->0);
    lemma_drains_made(it, taken, interns, made);
    iterable_construction_is_sound(v, h, interns, rest);
    let b = built(call_with(v), h, interns);
    let data = DataModel::Iter(it);
    assert(children(data) =~= seq![Value::PyNone]);
    lemma_immediate_owned(taken, Value::PyNone, rest);
    lemma_allocated(taken, data, rest);
    lemma_drains_made(it, b.heap, interns, made);
    let new = taken.fresh();
    assert(taken.slots.len() == h.slots.len());
}

/// The pairs of a dict, as tuples of a key and its value.
pub open spec fn entry_tuples(entries: Seq<(Value, Value)>) -> Seq<DataModel> {
    Seq::new(entries.len(), |k: int| DataModel::Tuple(seq![entries[k].0, entries[k].1]))
}

/// A new iterator over a view of the items of a dict gives a tuple of key and value for each of its
/// entries, in order.
pub proof fn iterating_an_item_view_gives_its_entries(
    id: HeapId,
    dict: HeapId,
    h: HeapModel,
    interns: Interns,
    entries: Seq<(Value, Value)>,
    rest: Seq<Value>,
)
    requires
        h.owns(seq![Value::Ref(id)] + rest),
        h.data(id) == DataModel::DictItemsView(dict),
        h.live(dict),
        h.data(dict) == DataModel::Dict(entries),
        room_for(h, entries.len() + 1),
    ensures
        ({
            let v = Value::Ref(id);
            let b = built(call_with(v), h, interns);
            &&& source_of(v, h, interns) matches Some(source) && drains_made(
                fresh_iter(v, source),
                iterated_heap(h, v, interns),
                interns,
                entry_tuples(entries),
            )
            &&& b.result matches Ok(Value::Ref(new)) && b.heap.live(new) && !h.live(new)
                && b.heap.data(new) is Iter && drains_made(
                b.heap.data(new)->Iter_0,
                b.heap,
                interns,
                entry_tuples(entries),
            )
        }),
{
    let v = Value::Ref(id);
    let all = seq![v] + rest;
    lemma_owned_live(h, all, 0);
    assert(all[0] == v);
    lemma_dropped(h, v, rest);
    lemma_fresh_iter_fits(v, h, interns);
    let it = fresh_iter(v, source_of(v, h, interns)->0);
    let made = entry_tuples(entries);
    lemma_drains_made(it, h, interns, made);
    iterable_construction_is_sound(v, h, interns, rest);
    let b = built(call_with(v), h, interns);
    let data = DataModel::Iter(it);
    assert(children(data) =~= seq![v]);
    lemma_allocated(h, data, rest);
    assert(b.heap.live(dict) && b.heap.data(dict) == h.data(dict));
    assert(b.heap.live(id) && b.heap.data(id) == h.data(id));
    lemma_drains_made(it, b.heap, interns, made);
}

/// `start + k * step` lies before `stop`, as a range goes.
pub open spec fn before_stop(range: Range, k: int) -> bool {
    if range.step > 0 {
        range.start + k * range.step < range.stop
    } else {
        range.start + k * range.step > range.stop
    }
}

/// The first `n` numbers of a range.
pub open spec fn first_numbers(range: Range, n: nat) -> Seq<Value> {
    Seq::new(n, |k: int| Value::Int((range.start + k * range.step) as i64))
}

/// A new iterator over a range gives `start`, `start + step`, and so on, every number that lies
/// before the stop and no other; `n` is how many these are.
pub proof fn iterating_a_range_gives_all_before_its_stop(
    id: HeapId,
    h: HeapModel,
    interns: Interns,
    range: Range,
    n: nat,
    rest: Seq<Value>,
)
    requires
        h.owns(seq![Value::Ref(id)] + rest),
        h.data(id) == DataModel::Range(range),
        range.step != 0,
        n <= usize::MAX,
        forall|k: nat| k < n <==> #[trigger] before_stop(range, k as int),
        room_for(h, 1),
    ensures
        ({
            let v = Value::Ref(id);
            let b = built(call_with(v), h, interns);
            &&& value_sound(v, h, interns)
            &&& source_of(v, h, interns) matches Some(source) && drains(
                fresh_iter(v, source),
                iterated_heap(h, v, interns),
                interns,
                first_numbers(range, n),
            )
            &&& b.result matches Ok(Value::Ref(new)) && b.heap.live(new) && b.heap.data(new) is Iter
                && drains(b.heap.data(new)->Iter_0, b.heap, interns, first_numbers(range, n))
        }),
{
    let v = Value::Ref(id);
    let all = seq![v] + rest;
    lemma_owned_live(h, all, 0);
    assert(all[0] == v);
    lemma_dropped(h, v, rest);
    a_range_counts_all_before_its_stop(range, n);
    assert(before_stop(range, n as int) <==> n < n);
    if n > 0 {
        let m = (n - 1) as nat;
        a_range_counts_all_before_its_stop(range, m);
        assert(before_stop(range, m as int) <==> m < n);
    }
    assert(range.spec_len() == n);
    iterable_construction_is_sound(v, h, interns, rest);
    let taken = iterated_heap(h, v, interns);
    let b = built(call_with(v), h, interns);
    ranges_are_walked_in_steps(range, taken, interns, n);
    ranges_are_walked_in_steps(range, b.heap, interns, n);
    let it = fresh_iter(v, source_of(v, h, interns)->0);
    lemma_range_yields(range, taken, interns, n);
    lemma_range_yields(range, b.heap, interns, n);
    assert(gathered(it, taken, interns, n).items =~= first_numbers(range, n));
    assert(gathered(it, b.heap, interns, n).items =~= first_numbers(range, n));
}

/// Every advance of a new iterator over a range yields an item, up to the last.
proof fn lemma_range_yields(range: Range, h: HeapModel, interns: Interns, n: nat)
    requires
        range.valid(),
        n <= range.spec_len(),
    ensures
        yields(
            IterModel { index: 0, source: range_source(range), value: Value::PyNone },
            h,
            interns,
            n,
        ),
{
    let it = IterModel { index: 0, source: range_source(range), value: Value::PyNone };
    assert forall|k: nat| k < n implies (#[trigger] nth_step(it, h, interns, k)).outcome is Item by {
        ranges_are_walked_in_steps(range, h, interns, k);
    }
}

/// A new iterator over an interned byte string gives its bytes, in order, as numbers.
pub proof fn iterating_interned_bytes_gives_the_bytes(
    id: BytesId,
    h: HeapModel,
    interns: Interns,
    bytes: Seq<u8>,
    rest: Seq<Value>,
)
    requires
        h.owns(rest),
        id.0 < interns.bytes@.len(),
        interns.bytes@[id.0 as int]@ == bytes,
        room_for(h, 1),
    ensures
        ({
            let v = Value::InternBytes(id);
            let b = built(call_with(v), h, interns);
            let items = Seq::new(bytes.len(), |k: int| Value::Int(bytes[k] as i64));
            &&& source_of(v, h, interns) matches Some(source) && drains(
                fresh_iter(v, source),
                iterated_heap(h, v, interns),
                interns,
                items,
            )
            &&& b.result matches Ok(Value::Ref(new)) && b.heap.live(new) && b.heap.data(new) is Iter
                && drains(b.heap.data(new)->Iter_0, b.heap, interns, items)
        }),
{
    let v = Value::InternBytes(id);
    lemma_immediate_owned(h, v, rest);
    lemma_dropped(h, v, rest);
    iterable_construction_is_sound(v, h, interns, rest);
    let it = fresh_iter(v, source_of(v, h, interns)->0);
    let b = built(call_with(v), h, interns);
    lemma_bytes_drain(it, id, h, interns, bytes, bytes.len());
    lemma_bytes_drain(it, id, b.heap, interns, bytes, bytes.len());
}

proof fn lemma_bytes_drain(
    it: IterModel,
    id: BytesId,
    h: HeapModel,
    interns: Interns,
    bytes: Seq<u8>,
    n: nat,
)
    requires
        interns.bytes@[id.0 as int]@ == bytes,
        it.index == 0,
        it.source == (SourceModel::InternBytes { bytes_id: id, len: bytes.len() }),
        n <= bytes.len(),
    ensures
        yields(it, h, interns, n),
        gathered(it, h, interns, n).iter == (IterModel { index: n, ..it }),
        gathered(it, h, interns, n).items == Seq::new(n, |k: int| Value::Int(bytes[k] as i64)),
        n == bytes.len() ==> nth_step(it, h, interns, n).outcome is Exhausted,
    decreases n,
{
    if n > 0 {
        let m = (n - 1) as nat;
        lemma_bytes_drain(it, id, h, interns, bytes, m);
        assert(nth_step(it, h, interns, m).outcome is Item);
    }
    assert(gathered(it, h, interns, n).items =~= Seq::new(
        n,
        |k: int| Value::Int(bytes[k] as i64),
    ));
}

/// What holds nothing to iterate is refused with a type error that names its type: numbers, booleans,
/// `None`, functions of every kind, and cells.
pub proof fn what_holds_nothing_cannot_be_iterated(v: Value, h: HeapModel, interns: Interns)
    requires
        match v {
            Value::InternString(_) => false,
            Value::InternBytes(_) => false,
            Value::Ref(id) => match h.data(id) {
                DataModel::Closure(..) => true,
                DataModel::FunctionDefaults(..) => true,
                DataModel::ExtFunction(_) => true,
                DataModel::Cell(_) => true,
                _ => false,
            },
            _ => true,
        },
    ensures
        source_of(v, h, interns) is None,
        built(call_with(v), h, interns).result == Err::<Value, RunError>(
            RunError::NotIterable(value_type(v, h)),
        ),
{
}

/// No iterator is made over an iterator: `iter` gives back the one that it is given, whatever its state
/// and however many allocations are left.
pub proof fn an_iterator_is_not_iterated_over(
    id: HeapId,
    it: IterModel,
    h: HeapModel,
    interns: Interns,
)
    requires
        h.live(id),
        h.data(id) == DataModel::Iter(it),
    ensures
        source_of(Value::Ref(id), h, interns) is None,
        built(call_with(Value::Ref(id)), h, interns).result == Ok::<Value, RunError>(
            Value::Ref(id),
        ),
        built(call_with(Value::Ref(id)), h, interns).heap == h,
{
}

/// What can be called: builtins, functions of a module, of the program or of the host, and the heap
/// entries of closures, of functions with default values and of functions of the host, whatever they
/// capture. `iter(v, sentinel)` takes exactly these, and refuses every other first argument with its
/// type error before anything is allocated.
pub proof fn iter_drives_exactly_what_can_be_called(
    v: Value,
    sentinel: Value,
    h: HeapModel,
    interns: Interns,
)
    ensures
        ({
            let b = built(call_with_two(v, sentinel), h, interns);
            let can = match v {
                Value::Builtin(_) => true,
                Value::ModuleFunction(_) => true,
                Value::DefFunction(_) => true,
                Value::ExtFunction(_) => true,
                Value::Ref(id) => match h.data(id) {
                    DataModel::Closure(_, _) => true,
                    DataModel::FunctionDefaults(_, _) => true,
                    DataModel::ExtFunction(_) => true,
                    _ => false,
                },
                Value::PyNone => false,
                Value::Bool(_) => false,
                Value::Int(_) => false,
                Value::InternString(_) => false,
                Value::InternBytes(_) => false,
            };
            let affordable = h.budget matches Some(left) ==> left >= 2;
            &&& callable(v, h) == can
            &&& can && affordable ==> b.result is Ok
            &&& can && !affordable ==> b.result == Err::<Value, RunError>(
                RunError::Resource(ResourceError::Allocation),
            )
            &&& !can ==> b.result == Err::<Value, RunError>(RunError::NotCallable)
            &&& error_type(RunError::NotCallable) == ExcType::TypeError
        }),
{
}

/// A list is looked up anew at each advance, whatever has become of it: the item at the index is
/// yielded where the list still reaches that far, and otherwise there is nothing.
pub proof fn a_list_is_read_as_it_is(it: IterModel, h: HeapModel, interns: Interns)
    requires
        iter_fits(it, h, interns),
        it.source matches SourceModel::HeapRef { heap_id, .. } && h.data(heap_id) is List,
    ensures
        ({
            let items = h.data(it.source->heap_id)->List_0;
            let s = step(it, h, interns);
            &&& it.index < items.len() ==> s.outcome == Outcome::Item(items[it.index as int])
                && s.iter.index == it.index + 1
            &&& it.index >= items.len() ==> s.outcome is Exhausted && s.iter == it && s.heap == h
        }),
{
}

/// How many items a dict, a view of one or a set has: what iterators watch for a change.
pub open spec fn watched_size(h: HeapModel, id: HeapId) -> Option<nat> {
    match h.data(id) {
        DataModel::Dict(entries) => Some(entries.len()),
        DataModel::PySet(items) => Some(items.len()),
        DataModel::DictKeysView(dict)
        | DataModel::DictItemsView(dict)
        | DataModel::DictValuesView(dict) => match h.data(dict) {
            DataModel::Dict(entries) => Some(entries.len()),
            _ => None,
        },
        _ => None,
    }
}

/// A new iterator remembers the size of the dict, the view or the set that it walks: where that has
/// another size when the iterator is first advanced, the advance fails, whichever way it changed. Of
/// what was empty nothing is yielded then, and nothing fails.
pub proof fn a_new_iterator_remembers_the_size(
    id: HeapId,
    h: HeapModel,
    now: HeapModel,
    interns: Interns,
    size: nat,
    changed: nat,
)
    requires
        watched_size(h, id) == Some(size),
        watched_size(now, id) == Some(changed),
        match h.data(id) {
            DataModel::Dict(_) => now.data(id) is Dict,
            DataModel::PySet(_) => now.data(id) is PySet,
            other => now.data(id) == other,
        },
        size != changed,
    ensures
        source_of(Value::Ref(id), h, interns) matches Some(source) && {
            let s = step(fresh_iter(Value::Ref(id), source), now, interns);
            &&& size > 0 ==> s.outcome == Outcome::Failed(
                if h.data(id) is PySet {
                    RunError::SetChangedSize
                } else {
                    RunError::DictChangedSize
                },
            )
            &&& size == 0 ==> s.outcome is Exhausted
            &&& s.heap == now
        },
{
}

/// `get_heap_item` gives what the container holds at the index. A list that has become too short has
/// nothing there; a dict, a view or a set whose size is not the expected one fails; nothing else does
/// but for want of an allocation.
pub proof fn an_item_is_what_the_container_holds(
    id: HeapId,
    h: HeapModel,
    index: int,
    expected: Option<nat>,
    items: Seq<Value>,
)
    requires
        0 <= index,
        held_values(h, id) == Some(items),
    ensures
        ({
            let r = read_item(h, id, index, expected).result;
            let checked = match h.data(id) {
                DataModel::Dict(_) => true,
                DataModel::DictKeysView(_) => true,
                DataModel::DictValuesView(_) => true,
                DataModel::PySet(_) => true,
                _ => false,
            };
            let changed = checked && expected is Some && expected != Some(items.len());
            &&& !changed && index < items.len() ==> r == Ok::<Option<Value>, RunError>(
                Some(items[index]),
            )
            &&& changed ==> r == Err::<Option<Value>, RunError>(
                if h.data(id) is PySet {
                    RunError::SetChangedSize
                } else {
                    RunError::DictChangedSize
                },
            )
            &&& h.data(id) is List && index >= items.len() ==> r == Ok::<Option<Value>, RunError>(
                None,
            )
        }),
{
}

/// A view of items gives the tuple of the key and the value at the index, or fails where the size of
/// the dict is not the expected one or the tuple is refused.
pub proof fn an_entry_is_what_the_dict_holds(
    id: HeapId,
    dict: HeapId,
    h: HeapModel,
    index: int,
    expected: Option<nat>,
    entries: Seq<(Value, Value)>,
)
    requires
        h.counted(),
        h.live(dict),
        h.data(id) == DataModel::DictItemsView(dict),
        h.data(dict) == DataModel::Dict(entries),
        0 <= index < entries.len(),
        h.slots.len() < usize::MAX,
    ensures
        ({
            let read = read_item(h, id, index, expected);
            let changed = expected is Some && expected != Some(entries.len());
            let refused = h.budget == Some(0nat);
            &&& !changed && !refused ==> (read.result matches Ok(Some(Value::Ref(new)))
                && read.heap.live(new) && !h.live(new) && read.heap.data(new) == DataModel::Tuple(
                seq![entries[index].0, entries[index].1],
            ))
            &&& changed ==> read.result == Err::<Option<Value>, RunError>(
                RunError::DictChangedSize,
            )
            &&& !changed && refused ==> read.result == Err::<Option<Value>, RunError>(
                RunError::Resource(ResourceError::Allocation),
            )
        }),
{
    lemma_entry_cloned(h, dict, index);
}

} // verus!
