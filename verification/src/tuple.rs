//! Tuples, kept inline by `smallvec` while they are short.
use vstd::prelude::*;

use crate::value::Value;

verus! {

/// How many items a tuple holds before it spills to an allocation of its own.
pub const TUPLE_INLINE_CAPACITY: usize = 2;

/// An immutable sequence of values, stored in a `smallvec::SmallVec`.
#[verifier::external_body]
pub struct Tuple {
    items: smallvec::SmallVec<[Value; TUPLE_INLINE_CAPACITY]>,
}

/// The items that a tuple holds, first to last.
pub uninterp spec fn tuple_items(tuple: Tuple) -> Seq<Value>;

impl View for Tuple {
    type V = Seq<Value>;

    open spec fn view(&self) -> Seq<Value> {
        tuple_items(*self)
    }
}

/// `smallvec::SmallVec::new`: a vector that holds nothing.
#[verifier::external_body]
fn small_new() -> (tuple: Tuple)
    ensures
        tuple_items(tuple) == Seq::<Value>::empty(),
{
    Tuple { items: smallvec::SmallVec::new() }
}

/// `smallvec::SmallVec::push`: the vector gains `value` behind the items it had. The vector is
/// still short of its inline capacity, so nothing is allocated and the push cannot fail.
#[verifier::external_body]
fn small_push(tuple: &mut Tuple, value: Value)
    requires
        tuple_items(*old(tuple)).len() < TUPLE_INLINE_CAPACITY,
    ensures
        tuple_items(*final(tuple)) == tuple_items(*old(tuple)).push(value),
{
    tuple.items.push(value)
}

/// `smallvec::SmallVec::from_vec`: the items of `values`, in the order they had.
#[verifier::external_body]
fn small_from_vec(values: Vec<Value>) -> (tuple: Tuple)
    ensures
        tuple_items(tuple) == values@,
{
    Tuple { items: smallvec::SmallVec::from_vec(values) }
}

/// `smallvec::SmallVec::as_slice`: all the items, in order.
#[verifier::external_body]
fn small_as_slice(tuple: &Tuple) -> (items: &[Value])
    ensures
        items@ == tuple_items(*tuple),
{
    tuple.items.as_slice()
}

impl Tuple {
    /// The tuple of `values`, however many there are.
    pub fn from_vec(values: Vec<Value>) -> (tuple: Tuple)
        ensures
            tuple@ == values@,
    {
        small_from_vec(values)
    }

    /// The tuple `(first, second)`.
    pub fn pair(first: Value, second: Value) -> (tuple: Tuple)
        ensures
            tuple@ == seq![first, second],
    {
        let mut tuple = small_new();
        small_push(&mut tuple, first);
        small_push(&mut tuple, second);
        assert(tuple@ =~= seq![first, second]);
        tuple
    }

    /// The items of the tuple, first to last.
    pub fn as_slice(&self) -> (items: &[Value])
        ensures
            items@ == self@,
    {
        small_as_slice(self)
    }
}

} // verus!
