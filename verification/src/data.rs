//! What heap entries hold.
use vstd::prelude::*;

use crate::error::Type;
use crate::iter::MontyIter;
use crate::model::{child_ids, pair_values, DataModel};
use crate::range::Range;
use crate::tuple::Tuple;
use crate::value::{ids_of, lemma_ids_of_concat, lemma_ids_of_one, HeapId, Value};

verus! {

/// A tuple whose items have names.
#[derive(Debug)]
pub struct NamedTuple {
    pub name: String,
    pub items: Vec<Value>,
}

/// A dict: its entries, in the order in which their keys were first inserted.
#[derive(Debug)]
pub struct Dict {
    pub entries: Vec<(Value, Value)>,
}

impl Dict {
    /// The number of entries.
    pub fn len(&self) -> (len: usize)
        ensures
            len == self.entries@.len(),
    {
        self.entries.len()
    }
}

/// A live view of a dict that another entry holds.
#[derive(Debug)]
pub struct DictView {
    pub dict_id: HeapId,
}

/// A function together with the values it captured.
#[derive(Debug)]
pub struct FunctionObject {
    pub function: u32,
    pub captured: Vec<Value>,
}

/// The data of a heap entry.
pub enum HeapData {
    List(Vec<Value>),
    Tuple(Tuple),
    NamedTuple(NamedTuple),
    Dict(Dict),
    DictKeysView(DictView),
    DictItemsView(DictView),
    DictValuesView(DictView),
    Bytes(Vec<u8>),
    PySet(Vec<Value>),
    FrozenSet(Vec<Value>),
    Str(String),
    Range(Range),
    Iter(MontyIter),
    /// A function with cells of an enclosing scope.
    Closure(FunctionObject),
    /// A function with default values for its parameters.
    FunctionDefaults(FunctionObject),
    /// A function the host provides, by name.
    ExtFunction(String),
    /// A variable that closures share.
    Cell(Value),
}

impl View for HeapData {
    type V = DataModel;

    open spec fn view(&self) -> DataModel {
        match *self {
            HeapData::List(items) => DataModel::List(items@),
            HeapData::Tuple(tuple) => DataModel::Tuple(tuple@),
            HeapData::NamedTuple(tuple) => DataModel::NamedTuple(tuple.name@, tuple.items@),
            HeapData::Dict(dict) => DataModel::Dict(dict.entries@),
            HeapData::DictKeysView(view) => DataModel::DictKeysView(view.dict_id),
            HeapData::DictItemsView(view) => DataModel::DictItemsView(view.dict_id),
            HeapData::DictValuesView(view) => DataModel::DictValuesView(view.dict_id),
            HeapData::Bytes(bytes) => DataModel::Bytes(bytes@),
            HeapData::PySet(items) => DataModel::PySet(items@),
            HeapData::FrozenSet(items) => DataModel::FrozenSet(items@),
            HeapData::Str(s) => DataModel::Str(s@),
            HeapData::Range(range) => DataModel::Range(range),
            HeapData::Iter(iter) => DataModel::Iter(iter@),
            HeapData::Closure(f) => DataModel::Closure(f.function, f.captured@),
            HeapData::FunctionDefaults(f) => DataModel::FunctionDefaults(f.function, f.captured@),
            HeapData::ExtFunction(name) => DataModel::ExtFunction(name@),
            HeapData::Cell(value) => DataModel::Cell(value),
        }
    }
}

/// The type of an entry with this data.
pub open spec fn data_type(data: DataModel) -> Type {
    match data {
        DataModel::List(_) => Type::List,
        DataModel::Tuple(_) => Type::Tuple,
        DataModel::NamedTuple(..) => Type::NamedTuple,
        DataModel::Dict(_) => Type::Dict,
        DataModel::DictKeysView(_) => Type::DictKeys,
        DataModel::DictItemsView(_) => Type::DictItems,
        DataModel::DictValuesView(_) => Type::DictValues,
        DataModel::Bytes(_) => Type::Bytes,
        DataModel::PySet(_) => Type::PySet,
        DataModel::FrozenSet(_) => Type::FrozenSet,
        DataModel::Str(_) => Type::Str,
        DataModel::Range(_) => Type::Range,
        DataModel::Iter(_) => Type::Iterator,
        DataModel::Closure(..) => Type::Function,
        DataModel::FunctionDefaults(..) => Type::Function,
        DataModel::ExtFunction(_) => Type::Function,
        DataModel::Cell(_) => Type::Cell,
    }
}

/// Pushes the references that `values` own, in order.
fn push_ids(values: &[Value], stack: &mut Vec<HeapId>)
    ensures
        final(stack)@ == old(stack)@ + ids_of(values@),
{
    let mut i: usize = 0;
    assert(stack@ =~= old(stack)@ + ids_of(values@.take(0)));
    while i < values.len()
        invariant
            i <= values@.len(),
            stack@ == old(stack)@ + ids_of(values@.take(i as int)),
        decreases values@.len() - i,
    {
        values[i].py_dec_ref_ids(stack);
        assert(values@.take(i + 1).drop_last() =~= values@.take(i as int));
        assert(stack@ =~= old(stack)@ + ids_of(values@.take(i + 1)));
        i = i + 1;
    }
    assert(values@.take(i as int) =~= values@);
}

/// Pushes the references that the keys and values of a dict own, each key before its value.
fn push_entry_ids(entries: &Vec<(Value, Value)>, stack: &mut Vec<HeapId>)
    ensures
        final(stack)@ == old(stack)@ + ids_of(pair_values(entries@)),
{
    let mut i: usize = 0;
    assert(stack@ =~= old(stack)@ + ids_of(pair_values(entries@.take(0))));
    while i < entries.len()
        invariant
            i <= entries@.len(),
            stack@ == old(stack)@ + ids_of(pair_values(entries@.take(i as int))),
        decreases entries@.len() - i,
    {
        entries[i].0.py_dec_ref_ids(stack);
        entries[i].1.py_dec_ref_ids(stack);
        proof {
            let key = entries@[i as int].0;
            let value = entries@[i as int].1;
            let before = pair_values(entries@.take(i as int));
            assert(entries@.take(i + 1).drop_last() =~= entries@.take(i as int));
            lemma_ids_of_concat(before, seq![key, value]);
            assert(seq![key, value] =~= seq![key] + seq![value]);
            lemma_ids_of_concat(seq![key], seq![value]);
            lemma_ids_of_one(key);
            lemma_ids_of_one(value);
            assert(stack@ =~= old(stack)@ + ids_of(pair_values(entries@.take(i + 1))));
        }
        i = i + 1;
    }
    assert(entries@.take(i as int) =~= entries@);
}

impl HeapData {
    /// The type of an entry that holds this.
    pub fn py_type(&self) -> (t: Type)
        ensures
            t == data_type(self@),
    {
        match self {
            HeapData::List(_) => Type::List,
            HeapData::Tuple(_) => Type::Tuple,
            HeapData::NamedTuple(_) => Type::NamedTuple,
            HeapData::Dict(_) => Type::Dict,
            HeapData::DictKeysView(_) => Type::DictKeys,
            HeapData::DictItemsView(_) => Type::DictItems,
            HeapData::DictValuesView(_) => Type::DictValues,
            HeapData::Bytes(_) => Type::Bytes,
            HeapData::PySet(_) => Type::PySet,
            HeapData::FrozenSet(_) => Type::FrozenSet,
            HeapData::Str(_) => Type::Str,
            HeapData::Range(_) => Type::Range,
            HeapData::Iter(_) => Type::Iterator,
            HeapData::Closure(_) => Type::Function,
            HeapData::FunctionDefaults(_) => Type::Function,
            HeapData::ExtFunction(_) => Type::Function,
            HeapData::Cell(_) => Type::Cell,
        }
    }

    /// Pushes every reference that an entry with this data owns: the edges that the collector
    /// follows from it.
    pub fn collect_child_ids(&self, stack: &mut Vec<HeapId>)
        ensures
            final(stack)@ == old(stack)@ + child_ids(self@),
    {
        match self {
            HeapData::List(items) => push_ids(items.as_slice(), stack),
            HeapData::Tuple(tuple) => push_ids(tuple.as_slice(), stack),
            HeapData::NamedTuple(tuple) => push_ids(tuple.items.as_slice(), stack),
            HeapData::Dict(dict) => push_entry_ids(&dict.entries, stack),
            HeapData::DictKeysView(view) => {
                stack.push(view.dict_id);
                proof {
                    lemma_ids_of_one(Value::Ref(view.dict_id));
                }
            },
            HeapData::DictItemsView(view) => {
                stack.push(view.dict_id);
                proof {
                    lemma_ids_of_one(Value::Ref(view.dict_id));
                }
            },
            HeapData::DictValuesView(view) => {
                stack.push(view.dict_id);
                proof {
                    lemma_ids_of_one(Value::Ref(view.dict_id));
                }
            },
            HeapData::PySet(items) => push_ids(items.as_slice(), stack),
            HeapData::FrozenSet(items) => push_ids(items.as_slice(), stack),
            HeapData::Iter(iter) => {
                iter.value().py_dec_ref_ids(stack);
                proof {
                    lemma_ids_of_one(iter.value);
                }
            },
            HeapData::Closure(f) => push_ids(f.captured.as_slice(), stack),
            HeapData::FunctionDefaults(f) => push_ids(f.captured.as_slice(), stack),
            HeapData::Cell(value) => {
                value.py_dec_ref_ids(stack);
                proof {
                    lemma_ids_of_one(*value);
                }
            },
            HeapData::Bytes(_) => {},
            HeapData::Str(_) => {},
            HeapData::Range(_) => {},
            HeapData::ExtFunction(_) => {},
        }
        assert(stack@ =~= old(stack)@ + child_ids(self@));
    }

    /// Pushes every reference that an entry with this data owns, for the release of the entry.
    pub fn py_dec_ref_ids(&mut self, stack: &mut Vec<HeapId>)
        ensures
            final(stack)@ == old(stack)@ + child_ids(old(self)@),
            final(self)@ == old(self)@,
    {
        match self {
            HeapData::Iter(iter) => {
                proof {
                    lemma_ids_of_one(iter.value);
                }
                iter.py_dec_ref_ids(stack);
            },
            _ => self.collect_child_ids(stack),
        }
    }

    /// Whether an entry that holds this owns a reference at all.
    pub fn has_refs(&self) -> (b: bool)
        ensures
            b == (child_ids(self@).len() > 0),
    {
        match self {
            HeapData::Iter(iter) => {
                proof {
                    lemma_ids_of_one(iter.value);
                }
                iter.has_refs()
            },
            _ => {
                let mut ids: Vec<HeapId> = Vec::new();
                self.collect_child_ids(&mut ids);
                assert(ids@ =~= child_ids(self@));
                ids.len() > 0
            },
        }
    }
}

} // verus!
