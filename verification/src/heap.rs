//! The reference-counted heap.
use vstd::prelude::*;

use crate::data::{data_type, HeapData};
use crate::error::{ResourceError, Type};
use crate::model::{lemma_released_once, lemma_released_once_shrinks, weight, EntryModel, HeapModel};
use crate::resource::{ruling_on, ResourceTracker};
use crate::value::{lemma_ids_of_one, ref_ids, HeapId, Value};

verus! {

/// An entry of the heap, with the number of references to it.
pub struct HeapEntry {
    pub refs: usize,
    pub data: HeapData,
}

impl View for HeapEntry {
    type V = EntryModel;

    open spec fn view(&self) -> EntryModel {
        EntryModel { refs: self.refs as nat, data: self.data@ }
    }
}

/// The heap: entries by number, an empty slot for each that was freed.
pub struct Heap<T: ResourceTracker> {
    pub entries: Vec<Option<HeapEntry>>,
    pub tracker: T,
    /// Allocations since the collector last ran.
    pub allocations_since_gc: usize,
    /// Whether an entry that owns references was ever allocated, so that there may be cycles.
    pub potential_cycle: bool,
}

pub open spec fn slot_model(slot: Option<HeapEntry>) -> Option<EntryModel> {
    match slot {
        Some(entry) => Some(entry@),
        None => None,
    }
}

impl<T: ResourceTracker> View for Heap<T> {
    type V = HeapModel;

    open spec fn view(&self) -> HeapModel {
        HeapModel {
            slots: Seq::new(self.entries@.len(), |i: int| slot_model(self.entries@[i])),
            budget: self.tracker.budget(),
            overtime: self.tracker.overtime(),
            since_gc: self.allocations_since_gc as nat,
            potential_cycle: self.potential_cycle,
        }
    }
}

impl<T: ResourceTracker> Heap<T> {
    /// An empty heap, whose allocations `tracker` accounts for.
    pub fn new(tracker: T) -> (heap: Heap<T>)
        ensures
            heap@.slots == Seq::<Option<EntryModel>>::empty(),
            heap@.budget == tracker.budget(),
            heap@.overtime == tracker.overtime(),
            heap@.since_gc == 0,
            !heap@.potential_cycle,
            heap@.counted(),
    {
        let heap = Heap {
            entries: Vec::new(),
            tracker,
            allocations_since_gc: 0,
            potential_cycle: false,
        };
        assert(heap@.slots =~= Seq::<Option<EntryModel>>::empty());
        heap
    }

    /// The data of the entry `id`.
    pub fn get(&self, id: HeapId) -> (data: &HeapData)
        requires
            self@.live(id),
        ensures
            data@ == self@.data(id),
    {
        &self.entries[id.0].as_ref().unwrap().data
    }

    /// The data of the entry `id`, for changing it.
    pub fn get_mut(&mut self, id: HeapId) -> (data: &mut HeapData)
        requires
            old(self)@.live(id),
        ensures
            data@ == old(self)@.data(id),
            final(self)@ == old(self)@.with_data(id, final(data)@),
    {
        let entry = self.entries[id.0].as_mut().unwrap();
        &mut entry.data
    }

    /// Whether `id` names an entry that has not been freed.
    pub fn is_live(&self, id: HeapId) -> (b: bool)
        ensures
            b == self@.live(id),
    {
        id.0 < self.entries.len() && self.entries[id.0].is_some()
    }

    /// Refuses to go on once the run has taken too long: the tracker's ruling on the time it has
    /// taken.
    pub fn check_time(&self) -> (r: Result<(), ResourceError>)
        ensures
            exists|elapsed: u64| r == #[trigger] self@.ruling(elapsed),
    {
        let r = self.tracker.check_time();
        proof {
            let elapsed = choose|elapsed: u64|
                r == #[trigger] ruling_on(self.tracker.overtime(), elapsed);
            assert(r == self@.ruling(elapsed));
        }
        r
    }

    /// Places `data` in a new entry and hands out the one reference to it, unless the tracker
    /// refuses: then nothing changes, and `data` is gone together with the references it owned.
    pub fn allocate(&mut self, data: HeapData) -> (r: Result<HeapId, ResourceError>)
        ensures
            old(self)@.admits() ==> r == Ok::<HeapId, ResourceError>(old(self)@.fresh())
                && final(self)@ == old(self)@.allocated(data@),
            !old(self)@.admits() ==> r == Err::<HeapId, ResourceError>(ResourceError::Allocation)
                && final(self)@ == old(self)@,
    {
        match self.tracker.on_allocate() {
            Ok(()) => {},
            Err(e) => {
                assert(self@ =~= old(self)@);
                return Err(e);
            },
        }
        if data.has_refs() {
            self.potential_cycle = true;
        }
        if self.allocations_since_gc < usize::MAX {
            self.allocations_since_gc = self.allocations_since_gc + 1;
        }
        let id = HeapId(self.entries.len());
        let ghost model = data@;
        self.entries.push(Some(HeapEntry { refs: 1, data }));
        assert(self@.slots =~= old(self)@.allocated(model).slots);
        Ok(id)
    }

    /// Records that there may be cycles.
    pub fn mark_potential_cycle(&mut self)
        ensures
            final(self)@ == old(self)@.marked(),
    {
        self.potential_cycle = true;
        assert(self@.slots =~= old(self)@.slots);
    }

    /// Takes a further reference to the entry `id`.
    pub fn inc_ref(&mut self, id: HeapId)
        requires
            old(self)@.live(id),
            old(self)@.refs(id) < usize::MAX,
        ensures
            final(self)@ == old(self)@.with_refs(id, old(self)@.refs(id) + 1),
    {
        match &mut self.entries[id.0] {
            Some(entry) => {
                entry.refs = entry.refs + 1;
            },
            None => {},
        }
        assert(self@.slots =~= old(self)@.with_refs(id, old(self)@.refs(id) + 1).slots);
    }

    /// Gives back one reference to `id`. Where it was the last, the entry is freed and the
    /// references it owned are pushed, to be given back in turn.
    fn release_once(&mut self, id: HeapId, stack: &mut Vec<HeapId>)
        requires
            old(self)@.live(id),
            old(self)@.refs(id) >= 1,
        ensures
            final(self)@ == old(self)@.released_once(id).0,
            final(stack)@ == old(stack)@ + old(self)@.released_once(id).1,
    {
        let ghost h = self@;
        match self.entries[id.0].take() {
            Some(mut entry) => {
                if entry.refs > 1 {
                    entry.refs = entry.refs - 1;
                    self.entries[id.0] = Some(entry);
                } else {
                    entry.data.py_dec_ref_ids(stack);
                }
            },
            None => {},
        }
        assert(self@.slots =~= h.released_once(id).0.slots);
        assert(stack@ =~= old(stack)@ + h.released_once(id).1);
    }

    /// Gives back one reference to `id`, and with each entry that is thereby freed the references
    /// that it owned.
    pub fn dec_ref(&mut self, id: HeapId)
        requires
            old(self)@.backed(seq![id]),
        ensures
            final(self)@ == old(self)@.released(seq![id]),
            final(self)@.counted(),
    {
        let ghost h = self@;
        let mut stack: Vec<HeapId> = Vec::new();
        stack.push(id);
        assert(stack@ =~= seq![id]);
        while stack.len() > 0
            invariant
                self@.backed(stack@),
                self@.released(stack@) == h.released(seq![id]),
            decreases weight(self@.slots), stack@.len(),
        {
            proof {
                lemma_released_once(self@, stack@);
                lemma_released_once_shrinks(self@, stack@);
            }
            match stack.pop() {
                Some(next) => {
                    assert(self@.refs(next) >= 1);
                    self.release_once(next, &mut stack);
                },
                None => {},
            }
        }
        assert(stack@ =~= Seq::<HeapId>::empty());
    }
}

impl Value {
    /// The same value again, without a reference of its own.
    pub(crate) fn alias(&self) -> (same: Value)
        ensures
            same == *self,
    {
        match self {
            Value::PyNone => Value::PyNone,
            Value::Bool(b) => Value::Bool(*b),
            Value::Int(i) => Value::Int(*i),
            Value::InternString(id) => Value::InternString(*id),
            Value::InternBytes(id) => Value::InternBytes(*id),
            Value::Builtin(n) => Value::Builtin(*n),
            Value::ModuleFunction(n) => Value::ModuleFunction(*n),
            Value::DefFunction(n) => Value::DefFunction(*n),
            Value::ExtFunction(n) => Value::ExtFunction(*n),
            Value::Ref(id) => Value::Ref(*id),
        }
    }

    /// Another value like this one, with a reference of its own.
    pub fn clone_with_heap<T: ResourceTracker>(&self, heap: &mut Heap<T>) -> (copy: Value)
        requires
            *self matches Value::Ref(id) ==> old(heap)@.live(id) && old(heap)@.refs(id) < usize::MAX,
        ensures
            copy == *self,
            final(heap)@ == old(heap)@.cloned(*self),
    {
        match self {
            Value::Ref(id) => heap.inc_ref(*id),
            _ => {},
        }
        self.alias()
    }

    /// Gives back the reference that this value owns.
    pub fn drop_with_heap<T: ResourceTracker>(self, heap: &mut Heap<T>)
        requires
            old(heap)@.owns(seq![self]),
        ensures
            final(heap)@ == old(heap)@.dropped(self),
            final(heap)@.counted(),
    {
        proof {
            lemma_ids_of_one(self);
        }
        match self {
            Value::Ref(id) => {
                assert(ref_ids(self) =~= seq![id]);
                heap.dec_ref(id);
            },
            _ => {},
        }
    }
}

/// The type of `v`.
pub open spec fn value_type(v: Value, h: HeapModel) -> Type {
    match v {
        Value::PyNone => Type::NoneType,
        Value::Bool(_) => Type::Bool,
        Value::Int(_) => Type::Int,
        Value::InternString(_) => Type::Str,
        Value::InternBytes(_) => Type::Bytes,
        Value::Builtin(_) => Type::BuiltinFunction,
        Value::ModuleFunction(_) => Type::BuiltinFunction,
        Value::DefFunction(_) => Type::Function,
        Value::ExtFunction(_) => Type::Function,
        Value::Ref(id) => data_type(h.data(id)),
    }
}

impl Value {
    /// The type of this value.
    pub fn py_type<T: ResourceTracker>(&self, heap: &Heap<T>) -> (t: Type)
        requires
            *self matches Value::Ref(id) ==> heap@.live(id),
        ensures
            t == value_type(*self, heap@),
    {
        match self {
            Value::PyNone => Type::NoneType,
            Value::Bool(_) => Type::Bool,
            Value::Int(_) => Type::Int,
            Value::InternString(_) => Type::Str,
            Value::InternBytes(_) => Type::Bytes,
            Value::Builtin(_) => Type::BuiltinFunction,
            Value::ModuleFunction(_) => Type::BuiltinFunction,
            Value::DefFunction(_) => Type::Function,
            Value::ExtFunction(_) => Type::Function,
            Value::Ref(id) => heap.get(*id).py_type(),
        }
    }
}

} // verus!
