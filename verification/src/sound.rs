//! Telling whether an iterator that comes from elsewhere fits the heap and the program.
use vstd::prelude::*;
use vstd::utf8::encode_utf8;

use crate::data::HeapData;
use crate::heap::Heap;
use crate::iter::{IterValue, MontyIter};
use crate::resource::ResourceTracker;
use crate::semantics::{container_fits, is_dict, is_pair, iter_fits, progression, range_fits};
use crate::text::char_at;
use crate::value::{HeapId, Value};
use crate::vm::VM;

verus! {

/// Whether `id` is a live dict.
fn has_dict<T: ResourceTracker>(heap: &Heap<T>, id: HeapId) -> (b: bool)
    ensures
        b == is_dict(heap@, id),
{
    if !heap.is_live(id) {
        return false;
    }
    match heap.get(id) {
        HeapData::Dict(_) => true,
        _ => false,
    }
}

/// Whether `id` is a live tuple of two.
fn has_pair<T: ResourceTracker>(heap: &Heap<T>, id: HeapId) -> (b: bool)
    ensures
        b == is_pair(heap@, id),
{
    if !heap.is_live(id) {
        return false;
    }
    match heap.get(id) {
        HeapData::Tuple(tuple) => tuple.as_slice().len() == 2,
        _ => false,
    }
}

/// Whether `len` is the length `expected`.
fn has_len(len: Option<usize>, expected: usize) -> (b: bool)
    ensures
        b == (len == Some(expected)),
{
    match len {
        Some(l) => l == expected,
        None => false,
    }
}

/// Whether an iterator with this `len` and `checks_mutation` may walk the container `id`.
fn has_container<T: ResourceTracker>(
    heap: &Heap<T>,
    id: HeapId,
    len: Option<usize>,
    checks_mutation: bool,
) -> (b: bool)
    ensures
        b == container_fits(
            heap@,
            id,
            match len {
                Some(l) => Some(l as nat),
                None => None,
            },
            checks_mutation,
        ),
{
    if !heap.is_live(id) {
        return false;
    }
    match heap.get(id) {
        HeapData::List(_) => len.is_none() && !checks_mutation,
        HeapData::Tuple(tuple) => has_len(len, tuple.as_slice().len()) && !checks_mutation,
        HeapData::NamedTuple(tuple) => has_len(len, tuple.items.len()) && !checks_mutation,
        HeapData::Bytes(bytes) => has_len(len, bytes.len()) && !checks_mutation,
        HeapData::FrozenSet(items) => has_len(len, items.len()) && !checks_mutation,
        HeapData::Dict(_) => len.is_some() && checks_mutation,
        HeapData::DictKeysView(view) => has_dict(heap, view.dict_id) && len.is_some()
            && checks_mutation,
        HeapData::DictItemsView(view) => has_dict(heap, view.dict_id) && len.is_some()
            && checks_mutation,
        HeapData::DictValuesView(view) => has_dict(heap, view.dict_id) && len.is_some()
            && checks_mutation,
        HeapData::PySet(_) => len.is_some() && checks_mutation,
        _ => false,
    }
}

/// Whether `remaining` numbers from `next` on, in steps of `step`, can all be held.
fn has_numbers(next: i64, step: i64, remaining: usize) -> (b: bool)
    ensures
        b == range_fits(next as int, step as int, remaining as int),
{
    if remaining == 0 {
        return true;
    }
    let behind: i128 = (remaining - 1) as i128;
    let wide: i128 = step as i128;
    assert(-0x7fff_ffff_ffff_ffff_8000_0000_0000_0000 <= behind * wide
        <= 0x7fff_ffff_ffff_ffff_8000_0000_0000_0000 - 0x8000_0000_0000_0000) by (nonlinear_arith)
        requires
            0 <= behind <= 0xffff_ffff_ffff_fffe,
            -0x8000_0000_0000_0000 <= wide <= 0x7fff_ffff_ffff_ffff,
    ;
    let last: i128 = next as i128 + behind * wide;
    let fits = i64::MIN as i128 <= last && last <= i64::MAX as i128;
    proof {
        let n = remaining - 1;
        assert(progression(next as int, step as int, n) == last);
        if fits {
            assert forall|k: int| 0 <= k < remaining implies i64::MIN <= #[trigger] progression(
                next as int,
                step as int,
                k,
            ) <= i64::MAX by {
                let d = step as int;
                assert(d >= 0 ==> 0 <= k * d <= n * d) by (nonlinear_arith)
                    requires
                        0 <= k <= n,
                ;
                assert(d <= 0 ==> n * d <= k * d <= 0) by (nonlinear_arith)
                    requires
                        0 <= k <= n,
                ;
            }
        }
    }
    fits
}

/// Where the character `index` of `string` starts, in bytes.
fn offset_of(string: &str, index: usize) -> (offset: usize)
    requires
        index <= string@.len(),
    ensures
        offset == encode_utf8(string@.take(index as int)).len(),
{
    let mut offset: usize = 0;
    let mut i: usize = 0;
    assert(string@.take(0) =~= Seq::<char>::empty());
    assert(encode_utf8(string@.take(0)) =~= Seq::<u8>::empty());
    let byte_len = string.as_bytes().len();
    assert(encode_utf8(string@).len() == byte_len);
    while i < index
        invariant
            i <= index <= string@.len(),
            offset == encode_utf8(string@.take(i as int)).len(),
            encode_utf8(string@).len() == byte_len,
        decreases index - i,
    {
        let (_, width) = char_at(string, offset, Ghost(i as int));
        offset = offset + width;
        i = i + 1;
    }
    offset
}

impl MontyIter {
    /// Whether the state of this iterator agrees with what it walks, and its `value` is what that
    /// needs alive. An iterator that was made here always fits; one that was read back from a
    /// snapshot may not.
    pub fn fits<T: ResourceTracker>(&self, vm: &VM<T>) -> (b: bool)
        ensures
            b == iter_fits(self@, vm@.heap, vm@.interns),
    {
        match &self.iter_value {
            IterValue::Range { next, step, len } => self.value == Value::PyNone && (self.index
                >= *len || has_numbers(*next, *step, *len - self.index)),
            IterValue::IterStr { string, byte_offset, len } => {
                let bytes = string.as_str().as_bytes().len();
                assert(encode_utf8(string@).len() == bytes);
                self.value == Value::PyNone && *len == string.as_str().unicode_len() && self.index
                    <= *len && *byte_offset == offset_of(string.as_str(), self.index)
            },
            IterValue::InternBytes { bytes_id, len } => self.value == Value::InternBytes(*bytes_id)
                && bytes_id.0 < vm.interns.bytes.len() && *len == vm.interns.get_bytes(
                *bytes_id,
            ).len(),
            IterValue::HeapRef { heap_id, len, checks_mutation } => self.value == Value::Ref(
                *heap_id,
            ) && has_container(&vm.heap, *heap_id, *len, *checks_mutation),
            IterValue::CallableSentinel { pair, .. } => self.value == Value::Ref(*pair) && has_pair(
                &vm.heap,
                *pair,
            ),
        }
    }
}

} // verus!
