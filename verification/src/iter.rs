//! The iterator state.
use vstd::prelude::*;

use crate::model::{IterModel, SourceModel};
use crate::value::{ref_ids, BytesId, HeapId, Value};

verus! {

/// What an iterator walks, and what it needs to find its place there.
///
/// The variants are written to snapshots by position, so a new one goes behind the others.
#[derive(Debug)]
#[allow(inconsistent_fields)]
pub enum IterValue {
    /// A range; yields integers.
    Range {
        /// The next value to yield.
        next: i64,
        /// What leads from one value to the next.
        step: i64,
        /// The number of values in all.
        len: usize,
    },
    /// A copy of a string; yields strings of one character.
    IterStr {
        string: String,
        /// Where in the encoded string the next character starts.
        byte_offset: usize,
        /// The number of characters in all.
        len: usize,
    },
    /// An interned byte string; yields integers.
    InternBytes { bytes_id: BytesId, len: usize },
    /// A container in the heap.
    HeapRef {
        heap_id: HeapId,
        /// The number of items when the iteration began; `None` for a list, whose length is looked
        /// up anew for each item.
        len: Option<usize>,
        /// Whether it is an error for the container to change size.
        checks_mutation: bool,
    },
    /// A callable that is called until it returns the sentinel.
    ///
    /// `pair` is the tuple of the two. Like `heap_id` above it repeats the reference that the
    /// iterator's `value` owns, and owns none itself. `done` is set once a value equal to the
    /// sentinel has come up, and stays set.
    CallableSentinel { pair: HeapId, done: bool },
}

/// An iterator over a Python value.
///
/// `value` is what the iterator keeps alive, which is not always what it iterates: the container
/// for `HeapRef`, the tuple of callable and sentinel for `CallableSentinel`, `None` for those that
/// hold a copy. It is the only reference that an iterator owns, and so the only edge that the
/// collector follows from it.
#[derive(Debug)]
pub struct MontyIter {
    pub index: usize,
    pub iter_value: IterValue,
    pub value: Value,
}

impl View for IterValue {
    type V = SourceModel;

    open spec fn view(&self) -> SourceModel {
        match *self {
            IterValue::Range { next, step, len } => SourceModel::Range {
                next,
                step,
                len: len as nat,
            },
            IterValue::IterStr { string, byte_offset, len } => SourceModel::IterStr {
                chars: string@,
                byte_offset: byte_offset as nat,
                len: len as nat,
            },
            IterValue::InternBytes { bytes_id, len } => SourceModel::InternBytes {
                bytes_id,
                len: len as nat,
            },
            IterValue::HeapRef { heap_id, len, checks_mutation } => SourceModel::HeapRef {
                heap_id,
                len: match len {
                    Some(l) => Some(l as nat),
                    None => None,
                },
                checks_mutation,
            },
            IterValue::CallableSentinel { pair, done } => SourceModel::CallableSentinel {
                pair,
                done,
            },
        }
    }
}

impl View for MontyIter {
    type V = IterModel;

    open spec fn view(&self) -> IterModel {
        IterModel { index: self.index as nat, source: self.iter_value@, value: self.value }
    }
}

impl MontyIter {
    /// Pushes the reference this iterator owns, for the release of whatever holds it.
    pub fn py_dec_ref_ids(&mut self, stack: &mut Vec<HeapId>)
        ensures
            final(stack)@ == old(stack)@ + ref_ids(old(self)@.value),
            *final(self) == *old(self),
    {
        self.value.py_dec_ref_ids(stack);
    }

    /// Whether this iterator owns a reference to a heap entry.
    pub fn has_refs(&self) -> (b: bool)
        ensures
            b == self@.value is Ref,
    {
        matches!(self.value, Value::Ref(_))
    }

    /// What this iterator keeps alive.
    pub fn value(&self) -> (value: &Value)
        ensures
            *value == self@.value,
    {
        &self.value
    }
}

} // verus!
