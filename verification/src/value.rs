//! Runtime values and the identifiers they carry.
use vstd::prelude::*;

verus! {

/// Names a slot of the heap.
#[derive(Clone, Copy, PartialEq, Eq, Structural, Debug)]
pub struct HeapId(pub usize);

/// Names an interned string.
#[derive(Clone, Copy, PartialEq, Eq, Structural, Debug)]
pub struct StringId(pub usize);

/// Names an interned byte string.
#[derive(Clone, Copy, PartialEq, Eq, Structural, Debug)]
pub struct BytesId(pub usize);

/// A Python value: either an immediate, or a counted reference to a heap entry.
///
/// A `Ref` owns one of the counts its heap entry carries, so values move and are never copied
/// implicitly: `clone_with_heap` takes a further count, `drop_with_heap` gives one back.
#[derive(PartialEq, Eq, Structural, Debug)]
pub enum Value {
    /// The Python `None`.
    PyNone,
    Bool(bool),
    Int(i64),
    InternString(StringId),
    InternBytes(BytesId),
    /// A builtin function, exception type or type, by its number.
    Builtin(u32),
    /// A function that a builtin module provides.
    ModuleFunction(u32),
    /// A function defined by the program that captures nothing.
    DefFunction(u32),
    /// A function the host provides.
    ExtFunction(u32),
    /// A counted reference to a heap entry.
    Ref(HeapId),
}

/// The reference `v` owns, as a sequence of at most one entry.
pub open spec fn ref_ids(v: Value) -> Seq<HeapId> {
    match v {
        Value::Ref(id) => seq![id],
        _ => Seq::empty(),
    }
}

/// The references that `values` own, in order.
pub open spec fn ids_of(values: Seq<Value>) -> Seq<HeapId>
    decreases values.len(),
{
    if values.len() == 0 {
        Seq::empty()
    } else {
        ids_of(values.drop_last()) + ref_ids(values.last())
    }
}

/// How often `id` occurs in `ids`.
pub open spec fn occurrences(ids: Seq<HeapId>, id: HeapId) -> nat
    decreases ids.len(),
{
    if ids.len() == 0 {
        0
    } else {
        occurrences(ids.drop_last(), id) + if ids.last() == id {
            1nat
        } else {
            0
        }
    }
}

pub proof fn lemma_occurrences_concat(a: Seq<HeapId>, b: Seq<HeapId>, id: HeapId)
    ensures
        occurrences(a + b, id) == occurrences(a, id) + occurrences(b, id),
    decreases b.len(),
{
    if b.len() == 0 {
        assert(a + b =~= a);
    } else {
        assert((a + b).drop_last() =~= a + b.drop_last());
        lemma_occurrences_concat(a, b.drop_last(), id);
    }
}

pub proof fn lemma_occurrences_contains(ids: Seq<HeapId>, id: HeapId)
    ensures
        occurrences(ids, id) > 0 <==> ids.contains(id),
    decreases ids.len(),
{
    if ids.len() > 0 {
        lemma_occurrences_contains(ids.drop_last(), id);
        if ids.last() == id {
            assert(ids[ids.len() - 1] == id);
        } else {
            if ids.contains(id) {
                let i = ids.index_of(id);
                assert(ids.drop_last()[i] == id);
            }
            if ids.drop_last().contains(id) {
                let i = ids.drop_last().index_of(id);
                assert(ids[i] == id);
            }
        }
    }
}

pub proof fn lemma_ids_of_concat(a: Seq<Value>, b: Seq<Value>)
    ensures
        ids_of(a + b) == ids_of(a) + ids_of(b),
    decreases b.len(),
{
    if b.len() == 0 {
        assert(a + b =~= a);
        assert(ids_of(a) + ids_of(b) =~= ids_of(a));
    } else {
        assert((a + b).drop_last() =~= a + b.drop_last());
        lemma_ids_of_concat(a, b.drop_last());
        assert(ids_of(a + b) =~= ids_of(a) + ids_of(b));
    }
}

pub proof fn lemma_ids_of_one(v: Value)
    ensures
        ids_of(seq![v]) == ref_ids(v),
{
    assert(seq![v].drop_last() =~= Seq::<Value>::empty());
    assert(ids_of(Seq::<Value>::empty()) =~= Seq::<HeapId>::empty());
    assert(ids_of(seq![v]) =~= ref_ids(v));
}

/// The reference that a member of `values` owns is among those of the whole.
pub proof fn lemma_ids_of_member(values: Seq<Value>, i: int)
    requires
        0 <= i < values.len(),
        values[i] is Ref,
    ensures
        ids_of(values).contains(values[i]->Ref_0),
        occurrences(ids_of(values), values[i]->Ref_0) > 0,
    decreases values.len(),
{
    let id = values[i]->Ref_0;
    if i == values.len() - 1 {
        assert(ids_of(values)[ids_of(values).len() - 1] == id);
    } else {
        lemma_ids_of_member(values.drop_last(), i);
        let k = ids_of(values.drop_last()).index_of(id);
        assert(ids_of(values)[k] == id);
    }
    lemma_occurrences_contains(ids_of(values), id);
}

impl Value {
    /// The heap entry this value refers to, if it is a reference.
    pub fn ref_id(&self) -> (id: Option<HeapId>)
        ensures
            id == match *self {
                Value::Ref(id) => Some(id),
                _ => None,
            },
    {
        match self {
            Value::Ref(id) => Some(*id),
            _ => None,
        }
    }

    /// Pushes the reference this value owns, for the release of whatever holds it.
    pub fn py_dec_ref_ids(&self, stack: &mut Vec<HeapId>)
        ensures
            final(stack)@ == old(stack)@ + ref_ids(*self),
    {
        match self {
            Value::Ref(id) => {
                stack.push(*id);
            },
            _ => {},
        }
        assert(stack@ =~= old(stack)@ + ref_ids(*self));
    }
}

} // verus!
