//! The mathematical model of the heap: what its entries hold, who refers to whom, and what taking
//! and giving back references does to the counts.
use vstd::prelude::*;

use crate::error::ResourceError;
use crate::range::Range;
use crate::resource::ruling_on;
use crate::value::{
    ids_of, lemma_ids_of_concat, lemma_ids_of_member, lemma_ids_of_one, lemma_occurrences_concat,
    occurrences, ref_ids, BytesId, HeapId, Value,
};

verus! {

/// What an iterator walks, and how far it has come where the index alone does not tell.
#[verifier::ext_equal]
#[allow(inconsistent_fields)]
pub enum SourceModel {
    Range { next: i64, step: i64, len: nat },
    IterStr { chars: Seq<char>, byte_offset: nat, len: nat },
    InternBytes { bytes_id: BytesId, len: nat },
    HeapRef { heap_id: HeapId, len: Option<nat>, checks_mutation: bool },
    CallableSentinel { pair: HeapId, done: bool },
}

/// The state of an iterator.
#[verifier::ext_equal]
pub struct IterModel {
    pub index: nat,
    pub source: SourceModel,
    pub value: Value,
}

/// What a heap entry holds.
#[verifier::ext_equal]
pub enum DataModel {
    List(Seq<Value>),
    Tuple(Seq<Value>),
    NamedTuple(Seq<char>, Seq<Value>),
    Dict(Seq<(Value, Value)>),
    DictKeysView(HeapId),
    DictItemsView(HeapId),
    DictValuesView(HeapId),
    Bytes(Seq<u8>),
    PySet(Seq<Value>),
    FrozenSet(Seq<Value>),
    Str(Seq<char>),
    Range(Range),
    Iter(IterModel),
    Closure(u32, Seq<Value>),
    FunctionDefaults(u32, Seq<Value>),
    ExtFunction(Seq<char>),
    Cell(Value),
}

/// A heap entry: its data, and how many references to it exist.
#[verifier::ext_equal]
pub struct EntryModel {
    pub refs: nat,
    pub data: DataModel,
}

/// The heap: its slots, of which those that were freed are empty, the allocations its tracker still
/// admits and the durations of the run that it finds too long, and what is recorded for the
/// collector.
#[verifier::ext_equal]
pub struct HeapModel {
    pub slots: Seq<Option<EntryModel>>,
    pub budget: Option<nat>,
    pub overtime: spec_fn(u64) -> bool,
    pub since_gc: nat,
    pub potential_cycle: bool,
}

/// The keys and values of a dict, each key before its value.
pub open spec fn pair_values(entries: Seq<(Value, Value)>) -> Seq<Value>
    decreases entries.len(),
{
    if entries.len() == 0 {
        Seq::empty()
    } else {
        pair_values(entries.drop_last()) + seq![entries.last().0, entries.last().1]
    }
}

pub proof fn lemma_pair_values(entries: Seq<(Value, Value)>, i: int)
    requires
        0 <= i < entries.len(),
    ensures
        pair_values(entries).len() == 2 * entries.len(),
        pair_values(entries)[2 * i] == entries[i].0,
        pair_values(entries)[2 * i + 1] == entries[i].1,
    decreases entries.len(),
{
    if entries.len() > 1 {
        if i == entries.len() - 1 {
            lemma_pair_values(entries.drop_last(), 0);
        } else {
            lemma_pair_values(entries.drop_last(), i);
        }
    } else {
        assert(entries.drop_last() =~= Seq::<(Value, Value)>::empty());
        assert(pair_values(entries.drop_last()) =~= Seq::<Value>::empty());
    }
}

/// The values that an entry with this data owns.
///
/// An iterator owns its `value` and nothing else: the ids that its source repeats are not counted.
pub open spec fn children(data: DataModel) -> Seq<Value> {
    match data {
        DataModel::List(items) => items,
        DataModel::Tuple(items) => items,
        DataModel::NamedTuple(_, items) => items,
        DataModel::Dict(entries) => pair_values(entries),
        DataModel::DictKeysView(dict) => seq![Value::Ref(dict)],
        DataModel::DictItemsView(dict) => seq![Value::Ref(dict)],
        DataModel::DictValuesView(dict) => seq![Value::Ref(dict)],
        DataModel::Bytes(_) => Seq::empty(),
        DataModel::PySet(items) => items,
        DataModel::FrozenSet(items) => items,
        DataModel::Str(_) => Seq::empty(),
        DataModel::Range(_) => Seq::empty(),
        DataModel::Iter(iter) => seq![iter.value],
        DataModel::Closure(_, captured) => captured,
        DataModel::FunctionDefaults(_, captured) => captured,
        DataModel::ExtFunction(_) => Seq::empty(),
        DataModel::Cell(value) => seq![value],
    }
}

/// The references that an entry with this data owns.
pub open spec fn child_ids(data: DataModel) -> Seq<HeapId> {
    ids_of(children(data))
}

/// The references that a slot owns.
pub open spec fn edges(slot: Option<EntryModel>) -> Seq<HeapId> {
    match slot {
        Some(entry) => child_ids(entry.data),
        None => Seq::empty(),
    }
}

/// How many references to `id` the entries in `slots` own.
pub open spec fn inbound(slots: Seq<Option<EntryModel>>, id: HeapId) -> nat
    decreases slots.len(),
{
    if slots.len() == 0 {
        0
    } else {
        inbound(slots.drop_last(), id) + occurrences(edges(slots.last()), id)
    }
}

/// One for every entry in `slots`, and one for every reference to it.
pub open spec fn weight(slots: Seq<Option<EntryModel>>) -> nat
    decreases slots.len(),
{
    if slots.len() == 0 {
        0
    } else {
        weight(slots.drop_last()) + slot_weight(slots.last())
    }
}

pub open spec fn slot_weight(slot: Option<EntryModel>) -> nat {
    match slot {
        Some(entry) => entry.refs + 1,
        None => 0,
    }
}

pub proof fn lemma_weight_update(slots: Seq<Option<EntryModel>>, i: int, slot: Option<EntryModel>)
    requires
        0 <= i < slots.len(),
    ensures
        weight(slots.update(i, slot)) == weight(slots) - slot_weight(slots[i]) + slot_weight(slot),
        weight(slots) >= slot_weight(slots[i]),
    decreases slots.len(),
{
    let updated = slots.update(i, slot);
    if i == slots.len() - 1 {
        assert(updated.drop_last() =~= slots.drop_last());
    } else {
        assert(updated.drop_last() =~= slots.drop_last().update(i, slot));
        lemma_weight_update(slots.drop_last(), i, slot);
    }
}

pub proof fn lemma_inbound_update(
    slots: Seq<Option<EntryModel>>,
    i: int,
    slot: Option<EntryModel>,
    id: HeapId,
)
    requires
        0 <= i < slots.len(),
    ensures
        inbound(slots.update(i, slot), id) == inbound(slots, id) - occurrences(edges(slots[i]), id)
            + occurrences(edges(slot), id),
        inbound(slots, id) >= occurrences(edges(slots[i]), id),
    decreases slots.len(),
{
    let updated = slots.update(i, slot);
    if i == slots.len() - 1 {
        assert(updated.drop_last() =~= slots.drop_last());
    } else {
        assert(updated.drop_last() =~= slots.drop_last().update(i, slot));
        lemma_inbound_update(slots.drop_last(), i, slot, id);
    }
}

impl HeapModel {
    /// `id` names an entry that has not been freed.
    pub open spec fn live(self, id: HeapId) -> bool {
        id.0 < self.slots.len() && self.slots[id.0 as int] is Some
    }

    /// The references that exist to `id`; none to what was freed.
    pub open spec fn refs(self, id: HeapId) -> nat {
        if self.live(id) {
            self.slots[id.0 as int]->0.refs
        } else {
            0
        }
    }

    /// What the entry `id` holds.
    pub open spec fn data(self, id: HeapId) -> DataModel
        recommends
            self.live(id),
    {
        self.slots[id.0 as int]->0.data
    }

    /// The references to `id` that other entries own.
    pub open spec fn inbound(self, id: HeapId) -> nat {
        inbound(self.slots, id)
    }

    /// The references to `id` that are held outside the heap.
    pub open spec fn outside(self, id: HeapId) -> int {
        self.refs(id) - self.inbound(id)
    }

    /// Every count covers the references that entries own and those in `held`, and no entry is kept
    /// without a reference to it. So nothing that is referred to has been freed.
    pub open spec fn backed(self, held: Seq<HeapId>) -> bool {
        &&& forall|id: HeapId| #[trigger]
            self.refs(id) >= self.inbound(id) + occurrences(held, id)
        &&& forall|id: HeapId| #[trigger] self.live(id) ==> self.refs(id) >= 1
    }

    /// The counts are right: every one covers the references that entries own.
    pub open spec fn counted(self) -> bool {
        self.backed(Seq::empty())
    }

    /// The counts are right, and `values` own references of their own, held outside the heap.
    pub open spec fn owns(self, values: Seq<Value>) -> bool {
        self.backed(ids_of(values))
    }

    /// No count is within `n` of the largest that can be told.
    pub open spec fn headroom(self, n: nat) -> bool {
        forall|id: HeapId| #[trigger] self.refs(id) + n <= usize::MAX
    }

    pub open spec fn with_slot(self, id: HeapId, slot: Option<EntryModel>) -> HeapModel {
        HeapModel { slots: self.slots.update(id.0 as int, slot), ..self }
    }

    pub open spec fn with_refs(self, id: HeapId, refs: nat) -> HeapModel {
        self.with_slot(id, Some(EntryModel { refs, data: self.data(id) }))
    }

    /// The heap with `data` in the entry `id`.
    pub open spec fn with_data(self, id: HeapId, data: DataModel) -> HeapModel {
        self.with_slot(id, Some(EntryModel { refs: self.refs(id), data }))
    }

    /// The heap once a further reference to what `v` refers to has been taken.
    pub open spec fn cloned(self, v: Value) -> HeapModel {
        match v {
            Value::Ref(id) => self.with_refs(id, self.refs(id) + 1),
            _ => self,
        }
    }

    /// The heap once one reference to `id` is given back, and the references thereby orphaned: those
    /// of the entry, where that was the last reference to it.
    pub open spec fn released_once(self, id: HeapId) -> (HeapModel, Seq<HeapId>) {
        if !self.live(id) {
            (self, Seq::empty())
        } else if self.refs(id) > 1 {
            (self.with_refs(id, (self.refs(id) - 1) as nat), Seq::empty())
        } else {
            (self.with_slot(id, None), child_ids(self.data(id)))
        }
    }

    /// The heap once every reference in `stack`, the last first, is given back, and with each entry
    /// that is thereby freed the references that it owned.
    pub open spec fn released(self, stack: Seq<HeapId>) -> HeapModel
        decreases weight(self.slots), stack.len(),
        via Self::released_decreases
    {
        if stack.len() == 0 {
            self
        } else {
            let (next, orphans) = self.released_once(stack.last());
            next.released(stack.drop_last() + orphans)
        }
    }

    #[via_fn]
    proof fn released_decreases(self, stack: Seq<HeapId>) {
        if stack.len() > 0 {
            lemma_released_once_shrinks(self, stack);
        }
    }

    /// The heap once `v` is dropped: the reference it owns is given back.
    pub open spec fn dropped(self, v: Value) -> HeapModel {
        self.released(ref_ids(v))
    }

    /// The tracker admits another allocation.
    pub open spec fn admits(self) -> bool {
        match self.budget {
            Some(left) => left > 0,
            None => true,
        }
    }

    /// What the tracker says of a run that has taken `elapsed` milliseconds.
    pub open spec fn ruling(self, elapsed: u64) -> Result<(), ResourceError> {
        ruling_on(self.overtime, elapsed)
    }

    /// There is a duration of the run that is too long.
    pub open spec fn time_limited(self) -> bool {
        exists|elapsed: u64| (#[trigger] self.ruling(elapsed)) is Err
    }

    /// There is a duration of the run that is not too long.
    pub open spec fn time_allowed(self) -> bool {
        exists|elapsed: u64| (#[trigger] self.ruling(elapsed)) is Ok
    }

    /// The id that the next allocation gives out.
    pub open spec fn fresh(self) -> HeapId {
        HeapId(self.slots.len() as usize)
    }

    /// The heap once `data` is allocated: a new entry, with the one reference that is handed out.
    pub open spec fn allocated(self, data: DataModel) -> HeapModel {
        HeapModel {
            slots: self.slots.push(Some(EntryModel { refs: 1, data })),
            budget: match self.budget {
                Some(left) => Some((left - 1) as nat),
                None => None,
            },
            overtime: self.overtime,
            since_gc: if self.since_gc < usize::MAX {
                self.since_gc + 1
            } else {
                self.since_gc
            },
            potential_cycle: self.potential_cycle || child_ids(data).len() > 0,
        }
    }

    /// The heap with its cycle hint raised.
    pub open spec fn marked(self) -> HeapModel {
        HeapModel { potential_cycle: true, ..self }
    }
}

/// Giving one reference back leaves less to give back.
pub proof fn lemma_released_once_shrinks(h: HeapModel, stack: Seq<HeapId>)
    requires
        stack.len() > 0,
    ensures
        ({
            let (next, orphans) = h.released_once(stack.last());
            ||| weight(next.slots) < weight(h.slots)
            ||| weight(next.slots) == weight(h.slots) && (stack.drop_last() + orphans).len()
                < stack.len()
        }),
{
    let id = stack.last();
    if h.live(id) {
        let slot = h.released_once(id).0.slots[id.0 as int];
        lemma_weight_update(h.slots, id.0 as int, slot);
    }
}

/// One reference given back: the counts stay right for what is left to be given back, and only the
/// reference itself is gone from those held outside.
pub proof fn lemma_released_once(h: HeapModel, stack: Seq<HeapId>)
    requires
        stack.len() > 0,
        h.backed(stack),
    ensures
        h.live(stack.last()),
        ({
            let (next, orphans) = h.released_once(stack.last());
            let rest = stack.drop_last() + orphans;
            &&& next.backed(rest)
            &&& forall|id: HeapId| #[trigger]
                next.outside(id) - occurrences(rest, id) == h.outside(id) - occurrences(stack, id)
            &&& forall|id: HeapId| #[trigger]
                next.live(id) ==> h.live(id) && next.data(id) == h.data(id)
            &&& forall|id: HeapId| #[trigger] next.refs(id) <= h.refs(id)
            &&& next.slots.len() == h.slots.len()
        }),
{
    let gone = stack.last();
    let (next, orphans) = h.released_once(gone);
    let rest = stack.drop_last() + orphans;
    assert(h.refs(gone) >= h.inbound(gone) + occurrences(stack, gone));
    assert(h.live(gone));
    let slot = next.slots[gone.0 as int];
    assert forall|id: HeapId|
        {
            &&& #[trigger] next.refs(id) >= next.inbound(id) + occurrences(rest, id)
            &&& next.outside(id) - occurrences(rest, id) == h.outside(id) - occurrences(stack, id)
            &&& next.refs(id) <= h.refs(id)
        } by {
        lemma_inbound_update(h.slots, gone.0 as int, slot, id);
        lemma_occurrences_concat(stack.drop_last(), orphans, id);
        assert(h.refs(id) >= h.inbound(id) + occurrences(stack, id));
    }
    assert forall|id: HeapId| #[trigger] next.live(id) implies h.live(id) && next.data(id) == h.data(
        id,
    ) && next.refs(id) >= 1 by {
        assert(h.live(id));
        assert(h.refs(id) >= 1);
    }
}

/// Giving references back that are held outside the heap leaves every count right, takes exactly
/// those references, and changes nothing that an entry which is kept holds.
pub proof fn lemma_released(h: HeapModel, stack: Seq<HeapId>)
    requires
        h.backed(stack),
    ensures
        ({
            let r = h.released(stack);
            &&& r.counted()
            &&& forall|id: HeapId| #[trigger]
                r.outside(id) == h.outside(id) - occurrences(stack, id)
            &&& forall|id: HeapId| #[trigger]
                r.live(id) ==> h.live(id) && r.data(id) == h.data(id)
            &&& forall|id: HeapId| #[trigger] r.refs(id) <= h.refs(id)
            &&& r.slots.len() == h.slots.len()
            &&& r.budget == h.budget
            &&& r.overtime == h.overtime
            &&& r.since_gc == h.since_gc
            &&& r.potential_cycle == h.potential_cycle
        }),
    decreases weight(h.slots), stack.len(),
{
    if stack.len() == 0 {
        assert(stack =~= Seq::<HeapId>::empty());
    } else {
        lemma_released_once(h, stack);
        lemma_released_once_shrinks(h, stack);
        let (next, orphans) = h.released_once(stack.last());
        let rest = stack.drop_last() + orphans;
        lemma_released(next, rest);
        let r = next.released(rest);
        assert forall|id: HeapId| #[trigger]
            r.outside(id) == h.outside(id) - occurrences(stack, id) by {
            assert(next.outside(id) - occurrences(rest, id) == h.outside(id) - occurrences(
                stack,
                id,
            ));
        }
        assert forall|id: HeapId| #[trigger] r.live(id) implies h.live(id) && r.data(id) == h.data(
            id,
        ) by {
            assert(next.live(id));
        }
        assert forall|id: HeapId| #[trigger] r.refs(id) <= h.refs(id) by {
            assert(next.refs(id) <= h.refs(id));
        }
    }
}

/// Counts that cover some references cover fewer.
pub proof fn lemma_backed_weaken(h: HeapModel, more: Seq<HeapId>, fewer: Seq<HeapId>)
    requires
        h.backed(more),
        forall|id: HeapId| #[trigger] occurrences(fewer, id) <= occurrences(more, id),
    ensures
        h.backed(fewer),
{
    assert forall|id: HeapId| #[trigger] h.refs(id) >= h.inbound(id) + occurrences(fewer, id) by {
        assert(occurrences(fewer, id) <= occurrences(more, id));
    }
}

/// A value that owns a reference refers to something live.
pub proof fn lemma_owned_live(h: HeapModel, values: Seq<Value>, i: int)
    requires
        h.owns(values),
        0 <= i < values.len(),
    ensures
        values[i] matches Value::Ref(id) ==> h.live(id),
{
    if values[i] is Ref {
        lemma_ids_of_member(values, i);
        assert(h.refs(values[i]->Ref_0) >= 1);
    }
}

/// What a live entry refers to is live.
pub proof fn lemma_child_live(h: HeapModel, id: HeapId, i: int)
    requires
        h.counted(),
        h.live(id),
        0 <= i < children(h.data(id)).len(),
    ensures
        children(h.data(id))[i] matches Value::Ref(child) ==> h.live(child),
{
    let values = children(h.data(id));
    if values[i] is Ref {
        let child = values[i]->Ref_0;
        lemma_ids_of_member(values, i);
        lemma_inbound_update(h.slots, id.0 as int, h.slots[id.0 as int], child);
        assert(h.refs(child) >= h.inbound(child));
    }
}

/// Dropping one of several owners leaves the others theirs.
pub proof fn lemma_dropped(h: HeapModel, v: Value, rest: Seq<Value>)
    requires
        h.owns(seq![v] + rest),
    ensures
        h.owns(seq![v]),
        h.owns(rest),
        h.counted(),
        h.dropped(v).owns(rest),
        h.dropped(v).counted(),
        forall|id: HeapId| #[trigger]
            h.dropped(v).outside(id) == h.outside(id) - occurrences(ref_ids(v), id),
        forall|id: HeapId| #[trigger]
            h.dropped(v).live(id) ==> h.live(id) && h.dropped(v).data(id) == h.data(id),
        forall|id: HeapId| #[trigger] h.dropped(v).refs(id) <= h.refs(id),
        h.dropped(v).slots.len() == h.slots.len(),
        h.dropped(v).budget == h.budget,
        h.dropped(v).overtime == h.overtime,
        h.dropped(v).since_gc == h.since_gc,
        h.dropped(v).potential_cycle == h.potential_cycle,
{
    let all = ids_of(seq![v] + rest);
    let first = ref_ids(v);
    let others = ids_of(rest);
    lemma_ids_of_concat(seq![v], rest);
    lemma_ids_of_one(v);
    assert forall|id: HeapId| #[trigger]
        occurrences(all, id) == occurrences(first, id) + occurrences(others, id) by {
        lemma_occurrences_concat(first, others, id);
    }
    assert forall|id: HeapId| #[trigger] occurrences(first, id) <= occurrences(all, id) by {
        assert(occurrences(all, id) == occurrences(first, id) + occurrences(others, id));
    }
    lemma_backed_weaken(h, all, first);
    assert forall|id: HeapId| #[trigger] occurrences(others, id) <= occurrences(all, id) by {
        assert(occurrences(all, id) == occurrences(first, id) + occurrences(others, id));
    }
    lemma_backed_weaken(h, all, others);
    lemma_backed_weaken(h, all, Seq::empty());
    lemma_released(h, first);
    let r = h.dropped(v);
    assert forall|id: HeapId| #[trigger] r.refs(id) >= r.inbound(id) + occurrences(others, id) by {
        assert(r.outside(id) == h.outside(id) - occurrences(first, id));
        assert(h.refs(id) >= h.inbound(id) + occurrences(all, id));
        assert(occurrences(all, id) == occurrences(first, id) + occurrences(others, id));
    }
    assert forall|id: HeapId| #[trigger] r.live(id) implies r.refs(id) >= 1 by {}
}

/// A clone owns a reference of its own.
pub proof fn lemma_cloned(h: HeapModel, v: Value, rest: Seq<Value>)
    requires
        h.owns(rest),
        v matches Value::Ref(id) ==> h.live(id),
    ensures
        h.cloned(v).owns(rest.push(v)),
        h.cloned(v).owns(rest),
        h.cloned(v).counted(),
        forall|id: HeapId| #[trigger]
            h.cloned(v).outside(id) == h.outside(id) + occurrences(ref_ids(v), id),
        forall|id: HeapId| #[trigger] h.cloned(v).live(id) == h.live(id),
        forall|id: HeapId| h.live(id) ==> #[trigger] h.cloned(v).data(id) == h.data(id),
        forall|id: HeapId| #[trigger] h.cloned(v).refs(id) <= h.refs(id) + 1,
{
    let c = h.cloned(v);
    assert(rest.push(v).drop_last() =~= rest);
    let held = ids_of(rest.push(v));
    assert forall|id: HeapId|
        {
            &&& #[trigger] c.refs(id) >= c.inbound(id) + occurrences(held, id)
            &&& c.refs(id) >= c.inbound(id) + occurrences(ids_of(rest), id)
            &&& c.outside(id) == h.outside(id) + occurrences(ref_ids(v), id)
            &&& c.refs(id) <= h.refs(id) + 1
        } by {
        assert(h.refs(id) >= h.inbound(id) + occurrences(ids_of(rest), id));
        lemma_occurrences_concat(ids_of(rest), ref_ids(v), id);
        if v is Ref {
            let r = v->Ref_0;
            lemma_inbound_update(h.slots, r.0 as int, c.slots[r.0 as int], id);
            assert(seq![r].drop_last() =~= Seq::<HeapId>::empty());
            assert(occurrences(seq![r], id) == occurrences(Seq::<HeapId>::empty(), id) + if r == id {
                1nat
            } else {
                0
            });
        }
    }
    assert forall|id: HeapId| #[trigger] c.live(id) implies c.refs(id) >= 1 by {
        assert(h.live(id));
        assert(h.refs(id) >= 1);
    }
    lemma_backed_weaken(c, ids_of(rest), Seq::empty());
}

/// A new entry takes over the references of its data, and the one to it is handed out.
pub proof fn lemma_allocated(h: HeapModel, data: DataModel, rest: Seq<Value>)
    requires
        h.owns(children(data) + rest),
        h.slots.len() <= usize::MAX,
    ensures
        !h.live(h.fresh()),
        h.allocated(data).owns(rest.push(Value::Ref(h.fresh()))),
        h.allocated(data).owns(rest),
        h.allocated(data).counted(),
        h.allocated(data).live(h.fresh()),
        h.allocated(data).data(h.fresh()) == data,
        h.allocated(data).outside(h.fresh()) == 1,
        forall|id: HeapId| #[trigger]
            h.live(id) ==> h.allocated(data).live(id) && h.allocated(data).data(id) == h.data(id),
        forall|id: HeapId| id != h.fresh() ==> #[trigger] h.allocated(data).refs(id) == h.refs(id),
        forall|id: HeapId|
            id != h.fresh() ==> #[trigger] h.allocated(data).outside(id) == h.outside(id)
                - occurrences(child_ids(data), id),
{
    let a = h.allocated(data);
    let fresh = h.fresh();
    let slot = Some(EntryModel { refs: 1, data });
    let all = ids_of(children(data) + rest);
    let held = ids_of(rest.push(Value::Ref(fresh)));
    lemma_ids_of_concat(children(data), rest);
    assert(rest.push(Value::Ref(fresh)).drop_last() =~= rest);
    assert(a.slots.drop_last() =~= h.slots);
    assert forall|id: HeapId|
        {
            &&& #[trigger] a.refs(id) >= a.inbound(id) + occurrences(held, id)
            &&& a.refs(id) >= a.inbound(id) + occurrences(ids_of(rest), id)
            &&& id != fresh ==> a.refs(id) == h.refs(id)
            &&& id != fresh ==> a.outside(id) == h.outside(id) - occurrences(child_ids(data), id)
            &&& id == fresh ==> a.outside(id) == 1
        } by {
        assert(h.refs(id) >= h.inbound(id) + occurrences(all, id));
        lemma_occurrences_concat(child_ids(data), ids_of(rest), id);
        lemma_occurrences_concat(ids_of(rest), seq![fresh], id);
        assert(seq![fresh].drop_last() =~= Seq::<HeapId>::empty());
        assert(occurrences(seq![fresh], id) == occurrences(Seq::<HeapId>::empty(), id) + if fresh
            == id {
            1nat
        } else {
            0
        });
        if id.0 < h.slots.len() {
            assert(a.slots[id.0 as int] == h.slots[id.0 as int]);
        }
    }
    assert forall|id: HeapId| #[trigger] a.live(id) implies a.refs(id) >= 1 by {
        if id != fresh {
            assert(a.slots[id.0 as int] == h.slots[id.0 as int]);
            assert(h.live(id));
            assert(h.refs(id) >= 1);
        }
    }
    assert forall|id: HeapId| #[trigger] h.live(id) implies a.live(id) && a.data(id) == h.data(
        id,
    ) by {
        assert(a.slots[id.0 as int] == h.slots[id.0 as int]);
    }
    lemma_backed_weaken(a, ids_of(rest), Seq::empty());
    assert(a.refs(fresh) == 1);
}

/// Changing what an entry holds, but not the references it owns, changes no count.
pub proof fn lemma_with_data(h: HeapModel, id: HeapId, data: DataModel, held: Seq<HeapId>)
    requires
        h.backed(held),
        h.live(id),
        child_ids(data) == child_ids(h.data(id)),
    ensures
        h.with_data(id, data).backed(held),
        forall|other: HeapId| #[trigger] h.with_data(id, data).refs(other) == h.refs(other),
        forall|other: HeapId| #[trigger] h.with_data(id, data).outside(other) == h.outside(other),
        forall|other: HeapId| #[trigger] h.with_data(id, data).live(other) == h.live(other),
{
    let w = h.with_data(id, data);
    assert forall|other: HeapId|
        {
            &&& #[trigger] w.refs(other) == h.refs(other)
            &&& w.outside(other) == h.outside(other)
            &&& w.refs(other) >= w.inbound(other) + occurrences(held, other)
        } by {
        lemma_inbound_update(h.slots, id.0 as int, w.slots[id.0 as int], other);
        assert(h.refs(other) >= h.inbound(other) + occurrences(held, other));
    }
    assert forall|other: HeapId| #[trigger] w.live(other) implies w.refs(other) >= 1 by {
        assert(h.live(other));
        assert(h.refs(other) >= 1);
    }
}

/// Of several owners, the first and the last each own what is theirs.
pub proof fn lemma_owns_parts(h: HeapModel, first: Seq<Value>, last: Seq<Value>)
    requires
        h.owns(first + last),
    ensures
        h.owns(first),
        h.owns(last),
        h.counted(),
{
    lemma_ids_of_concat(first, last);
    assert forall|id: HeapId| #[trigger]
        occurrences(ids_of(first), id) <= occurrences(ids_of(first + last), id) by {
        lemma_occurrences_concat(ids_of(first), ids_of(last), id);
    }
    assert forall|id: HeapId| #[trigger]
        occurrences(ids_of(last), id) <= occurrences(ids_of(first + last), id) by {
        lemma_occurrences_concat(ids_of(first), ids_of(last), id);
    }
    lemma_backed_weaken(h, ids_of(first + last), ids_of(first));
    lemma_backed_weaken(h, ids_of(first + last), ids_of(last));
    lemma_backed_weaken(h, ids_of(first + last), Seq::empty());
}

} // verus!
