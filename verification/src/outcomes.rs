//! What each operation hands out, for every outcome of the advance or of the step behind it.
use vstd::prelude::*;
use vstd::utf8::encode_utf8;

use crate::advance::{
    advanced, for_next_result, is_iter, iter_at, pair_of, settled, settled_heap, with_iter,
    Advance,
};
use crate::args::{one_two_args, ArgsModel};
use crate::callable::{
    begun, call_ended, entered, left, step_begun, step_ended, CallableStep, ProducedStep,
};
use crate::collect::{
    collect_called, gathered, item_concluded, nth_step, size_left, stops, Collected,
    PendingCollect, PendingItem,
};
use crate::error::{ResourceError, RunError, RunResult};
use crate::gc::{collected_if_due, collection_due};
use crate::heap::value_type;
use crate::intern::Interns;
use crate::laws::container_len;
use crate::model::{DataModel, HeapModel, IterModel, SourceModel};
use crate::next::{next_called, next_concluded, next_result, Next, PendingNext, PendingProduced};
use crate::resource::{beyond, ruling_on};
use crate::semantics::{iter_fits, progression, range_fits, step, Outcome};
use crate::value::{HeapId, Value};
use crate::vm::VmModel;

verus! {

/// An advance hands out the very item that came up, says that there is none only where there is none,
/// and fails only with what failed; its state is the one that goes with that.
pub proof fn an_advance_hands_out_its_outcome(
    r: RunResult<Advance>,
    outcome: Outcome,
    before: VmModel,
    after: VmModel,
    moved: VmModel,
    pair: HeapId,
)
    requires
        advanced(r, outcome, before, after, moved, pair),
    ensures
        outcome matches Outcome::Item(item) ==> r == Ok::<Advance, RunError>(Advance::Item(item)),
        outcome is Exhausted ==> r == Ok::<Advance, RunError>(Advance::Exhausted),
        outcome matches Outcome::Failed(e) ==> r == Err::<Advance, RunError>(e),
        !(outcome is Call) ==> after == moved,
        outcome is Call ==> {
            ||| r matches Ok(Advance::Call(callee)) && callee.callable == before.heap.data(
                pair,
            )->Tuple_0[0] && callee.sentinel == before.heap.data(pair)->Tuple_0[1] && callee.caller
                == before.frames && after == entered(before, pair)
            ||| r == Err::<Advance, RunError>(RunError::Resource(ResourceError::Time)) && after
                == before && before.heap.time_limited()
        },
        r matches Ok(Advance::Item(item)) ==> outcome == Outcome::Item(item),
        r == Ok::<Advance, RunError>(Advance::Exhausted) ==> outcome is Exhausted,
{
}

/// `for_next` hands out what one advance gives, and leaves the iterator where that advance does,
/// unless the tracker refuses.
pub proof fn for_next_hands_out_its_outcome(
    it: IterModel,
    before: VmModel,
    r: RunResult<Advance>,
    iter: IterModel,
    after: VmModel,
)
    requires
        for_next_result(Ok(()), it, before, r, iter, after),
    ensures
        ({
            let s = step(it, before.heap, before.interns);
            &&& s.outcome matches Outcome::Item(item) ==> r == Ok::<Advance, RunError>(
                Advance::Item(item),
            )
            &&& s.outcome is Exhausted ==> r == Ok::<Advance, RunError>(Advance::Exhausted)
            &&& s.outcome matches Outcome::Failed(e) ==> r == Err::<Advance, RunError>(e)
            &&& s.outcome is Call ==> (r matches Ok(Advance::Call(callee)) && callee == begun(
                before,
                pair_of(it),
            )) && after == entered(before, pair_of(it))
            &&& !(s.outcome is Call) ==> after.heap == s.heap
            &&& iter == s.iter
            &&& !(s.outcome is Call) ==> after.frames == before.frames && after.gc_pause_depth
                == before.gc_pause_depth
        }),
{
}

/// Where the tracker is asked, what it says decides: `for_next` and a step begin exactly where it
/// lets them, and otherwise fail with its error and change nothing.
pub proof fn a_refusal_is_passed_on(
    e: ResourceError,
    it: IterModel,
    pair: HeapId,
    before: VmModel,
    r: RunResult<Advance>,
    iter: IterModel,
    after: VmModel,
    began: RunResult<CallableStep>,
    entered_vm: VmModel,
)
    requires
        for_next_result(Err(e), it, before, r, iter, after),
        step_begun(Err(e), pair, before, began, entered_vm),
    ensures
        r == Err::<Advance, RunError>(RunError::Resource(e)),
        iter == it,
        after == before,
        began == Err::<CallableStep, RunError>(RunError::Resource(e)),
        entered_vm == before,
{
}

/// A step that may begin is that of the callable and the sentinel of its pair, in this order, and
/// remembers where the caller stood, who stands there still; the collector is suspended once more.
pub proof fn a_step_begins_with_its_pair(
    pair: HeapId,
    before: VmModel,
    r: RunResult<CallableStep>,
    after: VmModel,
)
    requires
        step_begun(Ok(()), pair, before, r, after),
    ensures
        ({
            let both = before.heap.data(pair)->Tuple_0;
            &&& r matches Ok(callee) && callee.callable == both[0] && callee.sentinel == both[1]
                && callee.caller == before.frames
            &&& after.heap == before.heap.cloned(both[0]).cloned(both[1])
            &&& after.frames == before.frames
            &&& after.gc_pause_depth == before.gc_pause_depth + 1
            &&& after.interns == before.interns
        }),
{
}

/// A heap iterator is advanced in place: its entry holds the new state, and nothing else about the
/// heap differs from what the advance made of it.
pub proof fn a_heap_iterator_advances_in_place(
    h: HeapModel,
    id: HeapId,
    it: IterModel,
    other: HeapId,
)
    requires
        h.live(id),
    ensures
        with_iter(h, id, it).live(id),
        with_iter(h, id, it).data(id) == DataModel::Iter(it),
        with_iter(h, id, it).refs(other) == h.refs(other),
        with_iter(h, id, it).live(other) == h.live(other),
        other != id && h.live(other) ==> with_iter(h, id, it).data(other) == h.data(other),
        with_iter(h, id, it).budget == h.budget,
        with_iter(h, id, it).overtime == h.overtime,
        with_iter(h, id, it).since_gc == h.since_gc,
{
}

/// Where an advance of the iterator yields an item, `next` returns exactly that item, with every
/// default and with none; then only the default is dropped.
pub proof fn next_returns_the_item(
    id: HeapId,
    default: Option<Value>,
    before: VmModel,
    r: RunResult<Next>,
    after: VmModel,
    item: Value,
)
    requires
        is_iter(before.heap, id),
        step(iter_at(before.heap, id), before.heap, before.interns).outcome == Outcome::Item(item),
        next_result(Value::Ref(id), default, before, r, after),
    ensures
        r == Ok::<Next, RunError>(Next::Value(item)),
        ({
            let s = step(iter_at(before.heap, id), before.heap, before.interns);
            let moved = s.heap.with_data(id, DataModel::Iter(s.iter));
            match default {
                Some(d) => after.heap == moved.dropped(d),
                None => after.heap == moved,
            }
        }),
{
}

/// Where an advance of the iterator fails, `next` fails with the same error, with every default and
/// with none; then only the default is dropped.
pub proof fn next_fails_as_the_advance_does(
    id: HeapId,
    default: Option<Value>,
    before: VmModel,
    r: RunResult<Next>,
    after: VmModel,
    e: RunError,
)
    requires
        is_iter(before.heap, id),
        step(iter_at(before.heap, id), before.heap, before.interns).outcome == Outcome::Failed(e),
        next_result(Value::Ref(id), default, before, r, after),
    ensures
        r == Err::<Next, RunError>(e),
        ({
            let s = step(iter_at(before.heap, id), before.heap, before.interns);
            let moved = s.heap.with_data(id, DataModel::Iter(s.iter));
            match default {
                Some(d) => after.heap == moved.dropped(d),
                None => after.heap == moved,
            }
        }),
{
}

/// `next` of anything but an iterator fails with a type error that names the type, with every default
/// and with none; only the default is dropped.
pub proof fn next_wants_an_iterator(
    v: Value,
    default: Option<Value>,
    before: VmModel,
    r: RunResult<Next>,
    after: VmModel,
)
    requires
        !(v matches Value::Ref(id) && before.heap.data(id) is Iter),
        next_result(v, default, before, r, after),
    ensures
        v is Ref ==> r == Err::<Next, RunError>(
            RunError::NotAnIterator(value_type(v, before.heap)),
        ),
        !(v is Ref) ==> r == Err::<Next, RunError>(
            RunError::NotIterable(value_type(v, before.heap)),
        ),
        after == before.with_heap(
            match default {
                Some(d) => before.heap.dropped(d),
                None => before.heap,
            },
        ),
{
}

/// `next` of a callable-driven iterator that is not exhausted asks for the call of exactly the
/// callable of its pair, and keeps the default for when that has returned; or the time is up.
pub proof fn next_asks_for_the_callable(
    id: HeapId,
    default: Option<Value>,
    before: VmModel,
    r: RunResult<Next>,
    after: VmModel,
)
    requires
        is_iter(before.heap, id),
        iter_at(before.heap, id).source matches SourceModel::CallableSentinel { done, .. } && !done,
        next_result(Value::Ref(id), default, before, r, after),
    ensures
        ({
            let pair = before.heap.data(iter_at(before.heap, id).source->pair)->Tuple_0;
            ||| r matches Ok(Next::Call(pending)) && pending.iter.id == id && pending.default
                == default && pending.step.callable == pair[0] && pending.step.sentinel == pair[1]
                && pending.step.caller == before.frames
            ||| r == Err::<Next, RunError>(RunError::Resource(ResourceError::Time))
                && before.heap.time_limited()
        }),
{
}

/// `next` of a callable-driven iterator ends with what was produced, with every default and with none,
/// unless that equals the sentinel or the iterator was exhausted meanwhile: then with the default, or
/// with `StopIteration` where there is none. A comparison that fails ends it with its error.
pub proof fn a_driven_next_ends_with_what_was_produced(
    pending: PendingProduced,
    before: VmModel,
    outcome: Result<bool, ResourceError>,
    r: RunResult<Value>,
    after: VmModel,
    done: bool,
)
    requires
        before.heap.data(pending.iter.id) matches DataModel::Iter(it) && it.source
            == (SourceModel::CallableSentinel { pair: it.source->pair, done }),
        next_concluded(pending, before, outcome, r, after),
    ensures
        outcome == Ok::<bool, ResourceError>(false) && !done ==> r == Ok::<Value, RunError>(
            pending.step.produced,
        ),
        outcome == Ok::<bool, ResourceError>(true) || (outcome is Ok && done) ==> r
            == match pending.default {
            Some(value) => Ok::<Value, RunError>(value),
            None => Err(RunError::StopIteration),
        },
        outcome matches Err(e) ==> r == Err::<Value, RunError>(RunError::Resource(e)),
        after.frames == pending.step.step.caller,
        after.gc_pause_depth == (before.gc_pause_depth - 1) as nat,
        after.interns == before.interns,
{
}

/// What a step that is over makes of a callable-driven iterator in the heap: a value is counted, where
/// the iterator was not exhausted; the sentinel exhausts it, and exhausted it stays as it is.
pub proof fn a_step_settles_its_iterator(
    h: HeapModel,
    id: HeapId,
    stepped: Option<Value>,
    pair: HeapId,
    done: bool,
)
    requires
        h.live(id),
        h.data(id) matches DataModel::Iter(it) && it.source == (SourceModel::CallableSentinel {
            pair,
            done,
        }),
    ensures
        ({
            let it = h.data(id)->Iter_0;
            let yielded = settled(it, stepped).0;
            let after = settled_heap(h, id, stepped);
            &&& yielded is Some <==> stepped is Some && !done
            &&& yielded is Some ==> yielded == stepped && after.data(id) == DataModel::Iter(
                IterModel { index: it.index + 1, ..it },
            )
            &&& stepped is None ==> after.data(id) == DataModel::Iter(
                IterModel { source: SourceModel::CallableSentinel { pair, done: true }, ..it },
            )
            &&& done && stepped is Some ==> after == h.dropped(stepped->0)
            &&& yielded is Some || stepped is None ==> after.refs(id) == h.refs(id)
        }),
{
}

/// An exception that the callable raises reaches the caller as it is, whatever it is, however the
/// iterator is driven; a value that it returns is what is compared, and nothing changes till then.
pub proof fn what_the_callable_gives_is_passed_on(
    callee: CallableStep,
    before: VmModel,
    outcome: RunResult<Value>,
    r: RunResult<ProducedStep>,
    after: VmModel,
    next: PendingNext,
    next_r: RunResult<PendingProduced>,
    next_after: VmModel,
    collect: PendingCollect,
    collect_r: RunResult<PendingItem>,
    collect_after: VmModel,
)
    requires
        call_ended(callee, before, outcome, r, after),
        next_called(next, before, outcome, next_r, next_after),
        collect_called(collect, before, outcome, collect_r, collect_after),
    ensures
        outcome matches Err(e) ==> {
            &&& r == Err::<ProducedStep, RunError>(e)
            &&& next_r == Err::<PendingProduced, RunError>(e)
            &&& collect_r == Err::<PendingItem, RunError>(e)
            &&& after.frames == callee.caller
            &&& next_after.frames == next.step.caller
            &&& collect_after.frames == collect.step.caller
        },
        outcome matches Ok(v) ==> {
            &&& r matches Ok(produced) && produced.produced == v && produced.step == callee
            &&& next_r matches Ok(produced) && produced.step.produced == v && produced.step.step
                == next.step && produced.default == next.default && produced.iter == next.iter
            &&& collect_r matches Ok(item) && item.step.produced == v && item.step.step
                == collect.step && item.iter == collect.iter && item.items == collect.items
            &&& after == before
            &&& next_after == before
            &&& collect_after == before
        },
{
}

/// A step produces what the callable returned exactly where that does not equal the sentinel, and
/// nothing where it does; a comparison that fails ends it with its error.
pub proof fn a_step_stops_exactly_at_the_sentinel(
    produced: ProducedStep,
    before: VmModel,
    outcome: Result<bool, ResourceError>,
    r: RunResult<Option<Value>>,
    after: VmModel,
)
    requires
        step_ended(produced, before, outcome, r, after),
    ensures
        outcome == Ok::<bool, ResourceError>(true) ==> r == Ok::<Option<Value>, RunError>(None),
        outcome == Ok::<bool, ResourceError>(false) ==> r == Ok::<Option<Value>, RunError>(
            Some(produced.produced),
        ),
        outcome matches Err(e) ==> r == Err::<Option<Value>, RunError>(RunError::Resource(e)),
        after.frames == produced.step.caller,
        after.gc_pause_depth == (before.gc_pause_depth - 1) as nat,
        after.interns == before.interns,
{
}

/// Draining goes on with every value that is not the sentinel, whatever value it is: it is gathered,
/// and the callable is asked for again, unless the time is up. The sentinel ends it with what was
/// gathered, and a comparison that fails with its error.
pub proof fn draining_gathers_every_value_but_the_sentinel(
    pending: PendingItem,
    before: VmModel,
    outcome: Result<bool, ResourceError>,
    r: RunResult<Collected>,
    after: VmModel,
)
    requires
        item_concluded(pending, before, outcome, r, after),
        pending.iter@.source matches SourceModel::CallableSentinel { done, .. } && !done,
    ensures
        outcome == Ok::<bool, ResourceError>(true) ==> (r matches Ok(Collected::Done(items))
            && items@ == pending.items@),
        outcome == Ok::<bool, ResourceError>(false) && !before.heap.time_limited() ==> (
        r matches Ok(Collected::Call(more)) && more.items@ == pending.items@.push(
            pending.step.produced,
        ) && more.iter@.source == pending.iter@.source && more.iter@.index == pending.iter@.index
            + 1),
        outcome == Ok::<bool, ResourceError>(false) ==> r is Ok || r == Err::<Collected, RunError>(
            RunError::Resource(ResourceError::Time),
        ),
        outcome matches Err(e) ==> r == Err::<Collected, RunError>(RunError::Resource(e)),
{
    if outcome == Ok::<bool, ResourceError>(false) {
        let elapsed = choose|elapsed: u64|
            match #[trigger] before.heap.ruling(elapsed) {
                Ok(()) => r is Ok,
                Err(e) => r == Err::<Collected, RunError>(RunError::Resource(e)),
            };
        assert(before.heap.ruling(elapsed) is Ok || before.heap.ruling(elapsed) is Err);
    }
}

/// Draining stops where the first advance yields no item: with all the items, where there is nothing
/// more; with the error of the advance, where that failed; asking for the callable, where that is to
/// be called. Under no time limit nothing else stops it.
pub proof fn draining_stops_where_nothing_is_yielded(
    it: IterModel,
    first: Seq<Value>,
    before: VmModel,
    n: nat,
    r: RunResult<Collected>,
    after: VmModel,
)
    requires
        stops(it, first, before, n, r, after),
        !before.heap.time_limited(),
    ensures
        ({
            let g = gathered(it, before.heap, before.interns, n);
            let s = nth_step(it, before.heap, before.interns, n);
            &&& forall|k: nat|
                k < n ==> (#[trigger] nth_step(it, before.heap, before.interns, k)).outcome is Item
            &&& !(s.outcome is Item)
            &&& s.outcome is Exhausted ==> (r matches Ok(Collected::Done(items)) && items@ == first
                + g.items)
            &&& s.outcome matches Outcome::Failed(e) ==> r == Err::<Collected, RunError>(e)
            &&& s.outcome is Call ==> (r matches Ok(Collected::Call(pending)) && pending.items@
                == first + g.items && pending.iter@ == g.iter)
            &&& !(s.outcome is Call) ==> after == before.with_heap(s.heap.dropped(it.value))
        }),
{
}

/// What is left of the items is what `size_hint` says: none can be told of a callable-driven iterator,
/// and of any other that remembers its length the index and what is left make up that length, or the
/// index is beyond it.
pub proof fn what_is_left_and_the_index_make_up_the_length(it: IterModel, h: HeapModel)
    ensures
        match it.source {
            SourceModel::CallableSentinel { .. } => size_left(it, h) == 0,
            SourceModel::Range { len, .. } => adds_up(it, h, len),
            SourceModel::IterStr { len, .. } => adds_up(it, h, len),
            SourceModel::InternBytes { len, .. } => adds_up(it, h, len),
            SourceModel::HeapRef { heap_id, len, .. } => match len {
                Some(l) => adds_up(it, h, l),
                None => match h.data(heap_id) {
                    DataModel::List(items) => adds_up(it, h, items.len()),
                    _ => true,
                },
            },
        },
{
}

/// The index and what is left make up `len`, or nothing is left and the index is beyond it.
pub open spec fn adds_up(it: IterModel, h: HeapModel, len: nat) -> bool {
    if it.index <= len {
        it.index + size_left(it, h) == len
    } else {
        size_left(it, h) == 0
    }
}

/// A character whose string is refused is passed over, so that the next advance goes on behind it; an
/// entry whose tuple is refused is not, and neither is an item behind a changed size.
pub proof fn only_a_refused_character_is_passed_over(it: IterModel, h: HeapModel, interns: Interns)
    requires
        iter_fits(it, h, interns),
        step(it, h, interns).outcome is Failed,
    ensures
        ({
            let s = step(it, h, interns);
            &&& it.source matches SourceModel::IterStr { chars, len, .. } ==> {
                &&& s.iter.index == it.index + 1
                &&& s.iter.source matches SourceModel::IterStr { chars: same, len: total, .. }
                    && same == chars && total == len
                &&& h.budget == Some(0nat)
            }
            &&& !(it.source is IterStr) ==> s.iter == it
        }),
{
}

/// One or two positional arguments are taken as they are; anything else is refused, with the number
/// of arguments where there are too many.
pub proof fn one_or_two_arguments_are_taken_as_they_are(args: ArgsModel)
    ensures
        ({
            let r = one_two_args(args);
            let n = args.positional.len();
            &&& r is Ok <==> args.keywords.len() == 0 && 1 <= n <= 2
            &&& r matches Ok(both) ==> {
                &&& both.0 == args.positional[0]
                &&& both.1 is Some <==> n == 2
                &&& n == 2 ==> both.1 == Some(args.positional[1])
            }
            &&& args.keywords.len() > 0 ==> r == Err::<(Value, Option<Value>), RunError>(
                RunError::KeywordArguments,
            )
            &&& args.keywords.len() == 0 && n == 0 ==> r == Err::<(Value, Option<Value>), RunError>(
                RunError::TooFewArguments,
            )
            &&& args.keywords.len() == 0 && n > 2 ==> (r matches Err(
                RunError::TooManyArguments(count),
            ) && (n <= usize::MAX ==> count == n))
        }),
{
}

/// Every value that is given in a call is among its values, those by position before those by
/// keyword.
pub proof fn every_argument_counts(args: ArgsModel, k: int)
    ensures
        args.values().len() == args.positional.len() + args.keywords.len(),
        0 <= k < args.positional.len() ==> args.values()[k] == args.positional[k],
        0 <= k < args.keywords.len() ==> args.values()[args.positional.len() + k]
            == args.keywords[k].1,
{
}

/// The state of an iterator agrees with what it walks exactly where it says of that what is true: a
/// string is all there and the offset is where the next character starts, the numbers that are left
/// can all be told, and a container, a program's bytes or a pair is there and is what the iterator
/// keeps alive. Only what can change size may have another than the iterator remembers.
pub proof fn an_iterator_fits_what_it_walks(it: IterModel, h: HeapModel, interns: Interns)
    requires
        it.source matches SourceModel::Range { len, .. } ==> len <= usize::MAX,
        it.source matches SourceModel::IterStr { chars, .. } ==> encode_utf8(chars).len()
            <= usize::MAX,
    ensures
        iter_fits(it, h, interns) <==> match it.source {
            SourceModel::Range { next, step, len } => it.value is PyNone && forall|k: int|
                0 <= k < len - it.index ==> #[trigger] is_i64(next as int, step as int, k),
            SourceModel::IterStr { chars, byte_offset, len } => {
                &&& it.value is PyNone
                &&& len == chars.len()
                &&& it.index <= chars.len()
                &&& byte_offset == encode_utf8(chars.take(it.index as int)).len()
            },
            SourceModel::InternBytes { bytes_id, len } => {
                &&& it.value == Value::InternBytes(bytes_id)
                &&& bytes_id.0 < interns.bytes@.len()
                &&& len == interns.bytes@[bytes_id.0 as int]@.len()
            },
            SourceModel::HeapRef { heap_id, len, checks_mutation } => {
                &&& it.value == Value::Ref(heap_id)
                &&& h.live(heap_id)
                &&& may_be_walked(h, heap_id)
                &&& len is None <==> h.data(heap_id) is List
                &&& checks_mutation <==> may_change_size(h.data(heap_id))
                &&& !may_change_size(h.data(heap_id)) && len is Some ==> len == Some(
                    container_len(h, heap_id),
                )
            },
            SourceModel::CallableSentinel { pair, .. } => {
                &&& it.value == Value::Ref(pair)
                &&& h.live(pair)
                &&& h.data(pair) matches DataModel::Tuple(both) && both.len() == 2
            },
        },
{
    match it.source {
        SourceModel::Range { next, step, len } => {
            let (first, by, left) = (next as int, step as int, len - it.index);
            if range_fits(first, by, left) {
                assert forall|k: int| 0 <= k < left implies #[trigger] is_i64(first, by, k) by {
                    assert(i64::MIN <= progression(first, by, k) <= i64::MAX);
                }
            } else {
                let k = choose|k: int|
                    0 <= k < left && !(i64::MIN <= #[trigger] progression(first, by, k) <= i64::MAX);
                assert(!is_i64(first, by, k));
            }
        },
        _ => {},
    }
}

/// The number `k` steps of `by` behind `first` is one that can be held.
pub open spec fn is_i64(first: int, by: int, k: int) -> bool {
    i64::MIN <= first + k * by <= i64::MAX
}

/// The entry is a container: there is an order in which its items come, and the dict behind a view is
/// there.
pub open spec fn may_be_walked(h: HeapModel, id: HeapId) -> bool {
    match h.data(id) {
        DataModel::List(_) | DataModel::Tuple(_) | DataModel::NamedTuple(..) => true,
        DataModel::Bytes(_) | DataModel::PySet(_) | DataModel::FrozenSet(_) => true,
        DataModel::Dict(_) => true,
        DataModel::DictKeysView(dict)
        | DataModel::DictItemsView(dict)
        | DataModel::DictValuesView(dict) => h.live(dict) && h.data(dict) is Dict,
        _ => false,
    }
}

/// The entry is a dict, a view of one, or a set: iterators watch for a change of its size.
pub open spec fn may_change_size(data: DataModel) -> bool {
    data is Dict || data is DictKeysView || data is DictItemsView || data is DictValuesView
        || data is PySet
}

/// A collection is due exactly where none is suspended, there may be cycles, and a hundred thousand
/// allocations have been made since the last; it runs exactly then, and is not due again at once.
pub proof fn a_collection_runs_exactly_when_due(
    before: VmModel,
    roots: Seq<HeapId>,
    after: VmModel,
)
    requires
        collected_if_due(before, roots, after),
    ensures
        collection_due(before) <==> before.gc_pause_depth == 0 && before.heap.potential_cycle
            && before.heap.since_gc >= 100_000,
        !collection_due(before) ==> after == before,
        collection_due(before) ==> after.heap.since_gc == 0 && !collection_due(after),
        after.heap.potential_cycle == before.heap.potential_cycle,
        after.heap.budget == before.heap.budget,
        after.heap.overtime == before.heap.overtime,
        after.frames == before.frames,
        after.gc_pause_depth == before.gc_pause_depth,
        after.interns == before.interns,
{
}

/// A run without a limit is never too long, and one with a limit is too long exactly beyond it.
pub proof fn a_run_is_too_long_exactly_beyond_its_limit(limit: Option<u64>, elapsed: u64)
    ensures
        ruling_on(beyond(limit), elapsed) == match limit {
            None => Ok::<(), ResourceError>(()),
            Some(most) => if elapsed <= most {
                Ok(())
            } else {
                Err(ResourceError::Time)
            },
        },
{
}

} // verus!
