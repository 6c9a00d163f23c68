//! What holds of iteration as a whole, beyond what each function promises by itself.
use vstd::prelude::*;

use crate::advance::{
    advanced, advanced_under, for_next_result, is_iter, iter_at, lemma_step, pair_of, settled,
    settled_heap, with_iter, Advance, HeapRead,
};
use crate::args::{dropped_all, positional, ArgsModel};
use crate::callable::{
    begun, entered, left, lemma_left, pair_callable, pair_sentinel, CallableStep, ProducedStep,
};
use crate::collect::{
    gathered, item_concluded, lemma_size_left, nth_step, size_left, source_len, stops, yields,
    Collected, PendingItem,
};
use crate::construct::{
    built, built_calling, built_over, callable, callable_iter, fresh_iter, holds_copy,
    iterated_heap, lemma_fresh_iter_fits, range_source, source_of, string_bounded, value_sound,
};
use crate::error::{error_message, error_type, ExcType, ResourceError, RunError, RunResult};
use crate::gc::{collected_if_due, collection_due, lemma_swept, reachable, swept};
use crate::intern::Interns;
use crate::items::{keeps, lemma_items_live};
use crate::model::{
    child_ids, children, lemma_allocated, lemma_backed_weaken, lemma_child_live, lemma_cloned,
    lemma_dropped, lemma_owned_live, lemma_owns_parts, lemma_pair_values, lemma_released,
    lemma_released_once, lemma_with_data, DataModel, HeapModel, IterModel, SourceModel,
};
use crate::next::{
    default_values, exhausted_result, lemma_compared, next_concluded, next_result, without_default,
    Next, PendingProduced,
};
use crate::range::{lemma_range_item_bounds, Range};
use crate::resource::beyond;
use crate::semantics::{dict_entries, is_dict, is_pair, iter_fits, step, Outcome};
use crate::value::{
    ids_of, lemma_ids_of_concat, lemma_ids_of_one, lemma_occurrences_concat, occurrences, ref_ids,
    HeapId, Value,
};
use crate::vm::VmModel;

verus! {

// Construction.

/// `iter` of an iterator is that iterator, untouched.
pub proof fn iter_of_an_iterator_is_itself(id: HeapId, h: HeapModel, interns: Interns)
    requires
        is_iter(h, id),
    ensures
        built(positional(seq![Value::Ref(id)]), h, interns).result == Ok::<Value, RunError>(Value::Ref(id)),
        built(positional(seq![Value::Ref(id)]), h, interns).heap == h,
{
}

/// `iter(iterable)` makes a new iterator exactly where its argument can be iterated and the heap
/// admits one. The iterator is sound and stands at the beginning; the argument's reference has moved
/// to it, or has been given back where the iterator holds a copy.
pub proof fn iterable_construction_is_sound(
    v: Value,
    h: HeapModel,
    interns: Interns,
    rest: Seq<Value>,
)
    requires
        h.owns(seq![v] + rest),
        h.slots.len() <= usize::MAX,
        value_sound(v, h, interns),
        source_of(v, h, interns) matches Some(source) ==> string_bounded(source),
        !(v matches Value::Ref(id) && is_iter(h, id)),
    ensures
        ({
            let b = built_over(v, h, interns);
            let taken = iterated_heap(h, v, interns);
            let id = b.result->Ok_0->Ref_0;
            &&& b.result is Ok <==> source_of(v, h, interns) is Some && taken.admits()
            &&& b.result is Ok ==> {
                &&& b.result->Ok_0 is Ref
                &&& is_iter(b.heap, id)
                &&& iter_at(b.heap, id) == fresh_iter(v, source_of(v, h, interns)->0)
                &&& iter_fits(iter_at(b.heap, id), b.heap, interns)
                &&& b.heap.owns(rest.push(Value::Ref(id)))
                &&& b.heap.refs(id) == 1
            }
        }),
{
    let b = built_over(v, h, interns);
    let taken = iterated_heap(h, v, interns);
    lemma_owned_live(h, seq![v] + rest, 0);
    assert((seq![v] + rest)[0] == v);
    lemma_dropped(h, v, rest);
    if b.result is Ok {
        let source = source_of(v, h, interns)->0;
        let it = fresh_iter(v, source);
        let data = DataModel::Iter(it);
        lemma_fresh_iter_fits(v, h, interns);
        if holds_copy(source) {
            assert(children(data) =~= seq![Value::PyNone]);
            lemma_ids_of_one(Value::PyNone);
            lemma_ids_of_concat(seq![Value::PyNone], rest);
            assert(ids_of(seq![Value::PyNone] + rest) =~= ids_of(rest));
        } else {
            assert(children(data) =~= seq![v]);
        }
        lemma_allocated(taken, data, rest);
        assert(forall|id: HeapId| #[trigger] taken.live(id) ==> b.heap.live(id));
    }
}

/// `iter(callable, sentinel)` succeeds exactly where the first argument can be called and two
/// allocations are left. It costs exactly those two.
pub proof fn callable_construction_costs_two_allocations(v: Value, sentinel: Value, h: HeapModel)
    ensures
        ({
            let b = built_calling(v, sentinel, h);
            &&& b.result is Ok <==> callable(v, h) && (h.budget matches Some(left) ==> left >= 2)
            &&& b.result is Ok ==> {
                &&& h.budget matches Some(left) ==> b.heap.budget == Some((left - 2) as nat)
                &&& h.budget is None ==> b.heap.budget is None
                &&& b.heap.slots.len() == h.slots.len() + 2
            }
        }),
{
}

/// The iterator that `iter(callable, sentinel)` makes holds the only reference to the tuple of the
/// two, to which their references moved: it is sound, not exhausted, and the first thing that it
/// does is to have the callable called. The arguments' other owners keep what they own.
pub proof fn callable_construction_moves_both_in(
    v: Value,
    sentinel: Value,
    h: HeapModel,
    interns: Interns,
    rest: Seq<Value>,
)
    requires
        h.owns(seq![v, sentinel] + rest),
        h.slots.len() + 1 <= usize::MAX,
        built_calling(v, sentinel, h).result is Ok,
    ensures
        ({
            let b = built_calling(v, sentinel, h);
            let id = b.result->Ok_0->Ref_0;
            let pair = pair_of(iter_at(b.heap, id));
            &&& b.result->Ok_0 is Ref
            &&& is_iter(b.heap, id)
            &&& b.heap.owns(rest.push(Value::Ref(id)))
            &&& iter_fits(iter_at(b.heap, id), b.heap, interns)
            &&& step(iter_at(b.heap, id), b.heap, interns).outcome is Call
            &&& pair_callable(b.heap, pair) == v
            &&& pair_sentinel(b.heap, pair) == sentinel
            &&& b.heap.refs(id) == 1
            &&& b.heap.refs(pair) == 1
            &&& b.heap.outside(pair) == 0
            &&& b.heap.potential_cycle
            &&& keeps(h, b.heap)
        }),
{
    let data = DataModel::Tuple(seq![v, sentinel]);
    assert(children(data) + rest =~= seq![v, sentinel] + rest);
    lemma_allocated(h, data, rest);
    let paired = h.allocated(data);
    let pair = h.fresh();
    let it = DataModel::Iter(callable_iter(pair));
    let moved = seq![Value::Ref(pair)] + rest;
    assert(children(it) + rest =~= moved);
    lemma_owns_swapped(paired, rest, Value::Ref(pair));
    lemma_allocated(paired, it, rest);
    let b = built_calling(v, sentinel, h);
    let id = paired.fresh();
    assert(b.heap == paired.allocated(it));
    assert(paired.live(pair));
    assert(b.heap.live(pair));
    assert(b.heap.data(pair) == data);
    lemma_ids_of_one(Value::Ref(pair));
    assert(child_ids(it) =~= seq![pair]);
    assert(seq![pair].drop_last() =~= Seq::<HeapId>::empty());
    assert(occurrences(seq![pair], pair) == occurrences(Seq::<HeapId>::empty(), pair) + 1);
    assert(paired.outside(pair) == 1);
    assert(paired.refs(pair) == 1);
    assert forall|other: HeapId| #[trigger] h.live(other) implies b.heap.live(other)
        && b.heap.data(other) == h.data(other) by {
        assert(paired.live(other));
    }
}

/// The last of several owners may as well stand first.
pub proof fn lemma_owns_swapped(h: HeapModel, rest: Seq<Value>, v: Value)
    requires
        h.owns(rest.push(v)),
    ensures
        h.owns(seq![v] + rest),
{
    assert(rest.push(v) =~= rest + seq![v]);
    lemma_ids_of_concat(rest, seq![v]);
    lemma_ids_of_concat(seq![v], rest);
    assert forall|id: HeapId| #[trigger]
        occurrences(ids_of(seq![v] + rest), id) <= occurrences(ids_of(rest.push(v)), id) by {
        lemma_occurrences_concat(ids_of(rest), ids_of(seq![v]), id);
        lemma_occurrences_concat(ids_of(seq![v]), ids_of(rest), id);
    }
    lemma_backed_weaken(h, ids_of(rest.push(v)), ids_of(seq![v] + rest));
}

/// Where `iter(callable, sentinel)` is refused, for whatever reason and at whatever stage, exactly
/// the references of the two arguments are given back: every count is right, the arguments' other
/// owners keep what they own, nothing new is left in the heap, and what is left is unchanged.
pub proof fn refused_callable_construction_strands_nothing(
    v: Value,
    sentinel: Value,
    h: HeapModel,
    rest: Seq<Value>,
)
    requires
        h.owns(seq![v, sentinel] + rest),
        h.slots.len() <= usize::MAX,
        built_calling(v, sentinel, h).result is Err,
    ensures
        ({
            let after = built_calling(v, sentinel, h).heap;
            &&& after.counted()
            &&& after.owns(rest)
            &&& forall|id: HeapId| #[trigger]
                after.live(id) ==> h.live(id) && after.data(id) == h.data(id)
            &&& forall|id: HeapId|
                h.live(id) ==> #[trigger] after.outside(id) == h.outside(id) - occurrences(
                    ids_of(seq![v, sentinel]),
                    id,
                )
        }),
{
    let both = seq![v, sentinel];
    let others = seq![sentinel] + rest;
    assert(both + rest =~= seq![v] + others);
    assert(both =~= seq![v] + seq![sentinel]);
    lemma_ids_of_concat(seq![v], seq![sentinel]);
    lemma_ids_of_one(v);
    lemma_ids_of_one(sentinel);
    let after = built_calling(v, sentinel, h).heap;
    if callable(v, h) && h.admits() {
        let data = DataModel::Tuple(both);
        assert(children(data) + rest =~= both + rest);
        lemma_allocated(h, data, rest);
        let paired = h.allocated(data);
        let pair = h.fresh();
        lemma_owns_swapped(paired, rest, Value::Ref(pair));
        lemma_dropped(paired, Value::Ref(pair), rest);
        assert(seq![pair].drop_last() =~= Seq::<HeapId>::empty());
        assert forall|id: HeapId| #[trigger] occurrences(seq![pair], id) == if id == pair {
            1nat
        } else {
            0
        } by {
            assert(occurrences(seq![pair], id) == occurrences(Seq::<HeapId>::empty(), id) + if pair
                == id {
                1nat
            } else {
                0
            });
        }
        assert(after == paired.dropped(Value::Ref(pair)));
        lemma_sole_owner_freed(paired, pair, rest);
        assert forall|id: HeapId| #[trigger] after.live(id) implies h.live(id) && after.data(id)
            == h.data(id) by {
            assert(paired.live(id));
            assert(id != pair);
            assert(paired.slots[id.0 as int] == h.slots[id.0 as int]);
        }
        assert forall|id: HeapId| h.live(id) implies #[trigger] after.outside(id) == h.outside(id)
            - occurrences(ids_of(both), id) by {
            assert(id != pair);
            assert(occurrences(seq![pair], id) == 0);
            assert(paired.outside(id) == h.outside(id) - occurrences(child_ids(data), id));
        }
    } else {
        lemma_dropped(h, v, others);
        let mid = h.dropped(v);
        lemma_dropped(mid, sentinel, rest);
        assert forall|id: HeapId| #[trigger] after.live(id) implies h.live(id) && after.data(id)
            == h.data(id) by {
            assert(mid.live(id));
        }
        assert forall|id: HeapId| h.live(id) implies #[trigger] after.outside(id) == h.outside(id)
            - occurrences(ids_of(both), id) by {
            lemma_occurrences_concat(ref_ids(v), ref_ids(sentinel), id);
            assert(mid.outside(id) == h.outside(id) - occurrences(ref_ids(v), id));
        }
    }
}

/// The only reference to an entry frees it.
proof fn lemma_sole_owner_freed(h: HeapModel, id: HeapId, rest: Seq<Value>)
    requires
        h.owns(seq![Value::Ref(id)] + rest),
        h.refs(id) == 1,
    ensures
        !h.dropped(Value::Ref(id)).live(id),
{
    lemma_dropped(h, Value::Ref(id), rest);
    let r = h.dropped(Value::Ref(id));
    assert(h.refs(id) >= h.inbound(id) + occurrences(ids_of(seq![Value::Ref(id)] + rest), id));
    let stack = seq![id];
    lemma_ids_of_one(Value::Ref(id));
    lemma_released_once(h, stack);
    let (next, orphans) = h.released_once(id);
    assert(stack.drop_last() + orphans =~= orphans);
    assert(r == next.released(orphans));
    lemma_released(next, orphans);
    assert(!next.live(id));
}

/// A keyword is refused, whatever else is given, and so is any number of positional arguments but one
/// and two: with a type error, and every argument is given back.
pub proof fn iter_takes_one_or_two_positional_arguments(
    args: ArgsModel,
    h: HeapModel,
    interns: Interns,
)
    requires
        args.keywords.len() > 0 || args.positional.len() == 0 || args.positional.len() > 2,
    ensures
        built(args, h, interns).result matches Err(e) && error_type(e) == ExcType::TypeError,
        built(args, h, interns).heap == dropped_all(h, args.values()),
{
}

// The time limit.

/// The tracker refuses whenever it is asked: it finds every duration of the run too long.
pub open spec fn always_refuses(h: HeapModel) -> bool {
    forall|elapsed: u64| (#[trigger] h.ruling(elapsed)) is Err
}

/// `e` is how a program sees its time limit exceeded.
pub open spec fn is_timeout(e: RunError) -> bool {
    &&& e == RunError::Resource(ResourceError::Time)
    &&& error_type(e) == ExcType::TimeoutError
    &&& error_message(e) == Some("time limit exceeded"@)
}

/// Under a tracker that refuses, `for_next` fails with `TimeoutError` in every state of the iterator,
/// exhausted or not, and changes nothing.
pub proof fn a_timeout_stops_for_next(
    it: IterModel,
    before: VmModel,
    r: RunResult<Advance>,
    iter: IterModel,
    after: VmModel,
)
    requires
        always_refuses(before.heap),
        exists|elapsed: u64|
            for_next_result(
                #[trigger] before.heap.ruling(elapsed),
                it,
                before,
                r,
                iter,
                after,
            ),
    ensures
        r matches Err(e) && is_timeout(e),
        iter == it,
        after == before,
{
}

/// Under a tracker that refuses, no step of a callable-driven iterator begins: the advance fails with
/// `TimeoutError` before anything is called, taken or changed.
pub proof fn a_timeout_stops_a_step(
    it: IterModel,
    before: VmModel,
    r: RunResult<Advance>,
    after: VmModel,
    moved: VmModel,
)
    requires
        always_refuses(before.heap),
        it.source matches SourceModel::CallableSentinel { done, .. } && !done,
        advanced(
            r,
            step(it, before.heap, before.interns).outcome,
            before,
            after,
            moved,
            pair_of(it),
        ),
    ensures
        r matches Err(e) && is_timeout(e),
        after == before,
{
}

/// Under a tracker that refuses, `next` of a callable-driven iterator that is not exhausted fails with
/// `TimeoutError`; only the default is dropped.
pub proof fn a_timeout_stops_next(
    id: HeapId,
    default: Option<Value>,
    before: VmModel,
    r: RunResult<Next>,
    after: VmModel,
)
    requires
        always_refuses(before.heap),
        is_iter(before.heap, id),
        iter_at(before.heap, id).source matches SourceModel::CallableSentinel { done, .. } && !done,
        next_result(Value::Ref(id), default, before, r, after),
    ensures
        r matches Err(e) && is_timeout(e),
        after == before.with_heap(without_default(before.heap, default)),
{
}

/// Under a tracker that refuses, draining any iterator fails with `TimeoutError` before its first
/// item; only the iterator is dropped.
pub proof fn a_timeout_stops_collecting(
    it: IterModel,
    before: VmModel,
    n: nat,
    r: RunResult<Collected>,
    after: VmModel,
)
    requires
        always_refuses(before.heap),
        stops(it, Seq::empty(), before, n, r, after),
    ensures
        n == 0,
        r matches Err(e) && is_timeout(e),
        after == before.with_heap(before.heap.dropped(it.value)),
{
}

/// One advance of a callable-driven iterator, begun after `elapsed` milliseconds of the run.
pub struct TimedAdvance {
    pub elapsed: u64,
    pub pair: HeapId,
    pub before: VmModel,
    pub result: RunResult<Advance>,
    pub after: VmModel,
}

/// Each of `advances` is an advance over its pair as the tracker rules on its time, under a limit of
/// `limit` milliseconds.
pub open spec fn one_drive(advances: Seq<TimedAdvance>, limit: u64) -> bool {
    forall|k: int|
        0 <= k < advances.len() ==> {
            let a = #[trigger] advances[k];
            &&& a.before.heap.overtime == beyond(Some(limit))
            &&& advanced_under(
                a.before.heap.ruling(a.elapsed),
                a.result,
                Outcome::Call,
                a.before,
                a.after,
                a.before,
                a.pair,
            )
        }
}

/// However a callable-driven iterator is driven, by a loop of the program or from within a single
/// operation, a drive that never meets the sentinel ends with its time limit: the first advance
/// behind the limit fails with `TimeoutError` and changes nothing, and every advance within it begins
/// a step.
pub proof fn a_drive_ends_with_its_time_limit(advances: Seq<TimedAdvance>, limit: u64, k: int)
    requires
        one_drive(advances, limit),
        0 <= k < advances.len(),
    ensures
        advances[k].elapsed > limit ==> {
            &&& advances[k].result matches Err(e) && is_timeout(e)
            &&& advances[k].after == advances[k].before
        },
        advances[k].elapsed <= limit ==> {
            &&& advances[k].result matches Ok(Advance::Call(callee)) && callee == begun(
                advances[k].before,
                advances[k].pair,
            )
            &&& advances[k].after == entered(advances[k].before, advances[k].pair)
        },
{
    let a = advances[k];
    assert(a.before.heap.overtime == beyond(Some(limit)));
}

/// No step, advance, allocation or release changes what the tracker finds too long.
pub proof fn the_time_limit_stays(
    vm: VmModel,
    pair: HeapId,
    callee: CallableStep,
    it: IterModel,
    data: DataModel,
    rest: Seq<Value>,
)
    requires
        vm.heap.owns(seq![callee.callable, callee.sentinel] + rest),
    ensures
        vm.heap.allocated(data).overtime == vm.heap.overtime,
        entered(vm, pair).heap.overtime == vm.heap.overtime,
        left(vm, callee).heap.overtime == vm.heap.overtime,
        step(it, vm.heap, vm.interns).heap.overtime == vm.heap.overtime,
{
    lemma_left(vm.heap, callee, rest);
}

// Steps of callable-driven iterators.

/// Whatever ran during a step, and however the step ended, the caller finds its frame state as it
/// was, and no suspension of the collector is left or missing.
pub proof fn a_step_restores_its_caller(vm: VmModel, pair: HeapId, during: VmModel)
    requires
        during.gc_pause_depth == entered(vm, pair).gc_pause_depth,
    ensures
        entered(vm, pair).gc_pause_depth > 0,
        left(during, begun(vm, pair)).frames == vm.frames,
        left(during, begun(vm, pair)).gc_pause_depth == vm.gc_pause_depth,
        left(during, begun(vm, pair)).interns == during.interns,
{
}

/// A step during which nothing happened leaves the interpreter as it was: the references that the
/// step took are those that it gives back.
pub proof fn a_step_takes_nothing(vm: VmModel, pair: HeapId)
    requires
        vm.heap.counted(),
        is_pair(vm.heap, pair),
    ensures
        left(entered(vm, pair), begun(vm, pair)) == vm,
{
    let h = vm.heap;
    let c = pair_callable(h, pair);
    let s = pair_sentinel(h, pair);
    lemma_items_live(h, pair);
    assert(children(h.data(pair))[0] == c);
    assert(children(h.data(pair))[1] == s);
    lemma_cloned(h, c, Seq::empty());
    let once = h.cloned(c);
    lemma_clone_drop(once, s);
    let twice = once.cloned(s);
    if c is Ref && s is Ref && c != s {
        assert(twice =~= h.cloned(s).cloned(c));
        lemma_cloned(h, s, Seq::empty());
        lemma_clone_drop(h.cloned(s), c);
        lemma_clone_drop(h, s);
    } else if c is Ref && s is Ref {
        lemma_clone_drop(once, c);
        lemma_clone_drop(h, c);
    } else {
        lemma_nothing_dropped(twice, c);
        lemma_nothing_dropped(twice, s);
        lemma_nothing_dropped(h, s);
        lemma_clone_drop(h, c);
        if c is Ref {
            assert(twice == once);
        }
        if s is Ref {
            lemma_clone_drop(h, s);
        }
    }
}

proof fn lemma_nothing_dropped(h: HeapModel, v: Value)
    ensures
        v !is Ref ==> h.dropped(v) == h,
{
}

/// Dropping a clone gives back what the clone took.
proof fn lemma_clone_drop(h: HeapModel, v: Value)
    requires
        h.counted(),
        v matches Value::Ref(id) ==> h.live(id),
    ensures
        h.cloned(v).dropped(v) == h,
{
    if v is Ref {
        let id = v->Ref_0;
        let c = h.cloned(v);
        assert(h.refs(id) >= 1);
        let (next, orphans) = c.released_once(id);
        assert(c.refs(id) == h.refs(id) + 1);
        assert(next =~= h);
        assert(seq![id].drop_last() + orphans =~= Seq::<HeapId>::empty());
        assert(ref_ids(v) =~= seq![id]);
        assert(c.released(seq![id]) == next.released(seq![id].drop_last() + orphans));
        assert(next.released(Seq::<HeapId>::empty()) == next);
    }
}

/// A step ends without touching the iterator, which its caller still holds: so an exception leaves
/// it as it was, and an iterator that was not exhausted has its callable called again the next time.
pub proof fn an_exception_leaves_the_iterator_live(
    during: VmModel,
    callee: CallableStep,
    id: HeapId,
    interns: Interns,
    rest: Seq<Value>,
)
    requires
        during.heap.owns(
            seq![callee.callable, callee.sentinel] + seq![Value::Ref(id)] + rest,
        ),
        is_iter(during.heap, id),
        iter_fits(iter_at(during.heap, id), during.heap, interns),
        iter_at(during.heap, id).source is CallableSentinel,
    ensures
        ({
            let after = left(during, callee).heap;
            &&& is_iter(after, id)
            &&& iter_at(after, id) == iter_at(during.heap, id)
            &&& iter_fits(iter_at(after, id), after, interns)
            &&& step(iter_at(after, id), after, interns).outcome == step(
                iter_at(during.heap, id),
                during.heap,
                interns,
            ).outcome
            &&& after.owns(seq![Value::Ref(id)] + rest)
        }),
{
    let others = seq![Value::Ref(id)] + rest;
    assert(seq![callee.callable, callee.sentinel] + seq![Value::Ref(id)] + rest =~= seq![
        callee.callable,
        callee.sentinel,
    ] + others);
    lemma_left(during.heap, callee, others);
    let after = left(during, callee).heap;
    lemma_owned_live(after, others, 0);
    assert(others[0] == Value::Ref(id));
    assert(after.live(id));
    let pair = pair_of(iter_at(after, id));
    lemma_child_live(after, id, 0);
    assert(children(after.data(id))[0] == Value::Ref(pair));
    assert(after.live(pair));
}

/// The sentinel, and nothing else, exhausts a callable-driven iterator; a value that is produced
/// while it is not exhausted is yielded, and counted.
pub proof fn only_the_sentinel_exhausts(it: IterModel, stepped: Option<Value>)
    requires
        it.source matches SourceModel::CallableSentinel { done, .. } && !done,
    ensures
        settled(it, stepped).0 == stepped,
        settled(it, stepped).1.source matches SourceModel::CallableSentinel { done, .. } && (done
            <==> stepped is None),
        settled(it, stepped).1.index == it.index + if stepped is Some {
            1nat
        } else {
            0
        },
        settled(it, stepped).1.value == it.value,
        pair_of(settled(it, stepped).1) == pair_of(it),
{
}

/// An iterator that was exhausted while a step of it ran stays exhausted: what the step produced is
/// given back and not yielded.
pub proof fn exhaustion_during_a_step_wins(h: HeapModel, id: HeapId, late: Value)
    requires
        is_iter(h, id),
        iter_at(h, id).source matches SourceModel::CallableSentinel { done, .. } && done,
    ensures
        settled(iter_at(h, id), Some(late)).0 is None,
        settled(iter_at(h, id), Some(late)).1 == iter_at(h, id),
        settled_heap(h, id, Some(late)) == h.dropped(late),
{
}

/// Settling a step leaves the iterator sound and the references that it owns in place.
pub proof fn settling_keeps_the_iterator_sound(
    h: HeapModel,
    id: HeapId,
    stepped: Option<Value>,
    interns: Interns,
    rest: Seq<Value>,
)
    requires
        is_iter(h, id),
        iter_fits(iter_at(h, id), h, interns),
        iter_at(h, id).source is CallableSentinel,
        h.owns(
            (match stepped {
                Some(v) => seq![v],
                None => Seq::empty(),
            }) + (seq![Value::Ref(id)] + rest),
        ),
    ensures
        ({
            let after = settled_heap(h, id, stepped);
            let yielded = settled(iter_at(h, id), stepped).0;
            &&& is_iter(after, id)
            &&& iter_fits(iter_at(after, id), after, interns)
            &&& after.owns(
                (match yielded {
                    Some(v) => seq![v],
                    None => Seq::empty(),
                }) + (seq![Value::Ref(id)] + rest),
            )
        }),
{
    let others = seq![Value::Ref(id)] + rest;
    let first = match stepped {
        Some(v) => seq![v],
        None => Seq::empty(),
    };
    let it = iter_at(h, id);
    let after = settled_heap(h, id, stepped);
    lemma_owns_parts(h, first, others);
    assert(others[0] == Value::Ref(id));
    if stepped is Some && settled(it, stepped).0 is None {
        lemma_dropped(h, stepped->0, others);
        lemma_owned_live(after, others, 0);
        assert(after.live(id));
        lemma_child_live(after, id, 0);
        assert(children(after.data(id))[0] == Value::Ref(pair_of(it)));
        assert(after.live(pair_of(it)));
        assert(Seq::<Value>::empty() + others =~= others);
    } else {
        let data = DataModel::Iter(settled(it, stepped).1);
        lemma_ids_of_one(it.value);
        assert(children(data) =~= children(h.data(id)));
        lemma_with_data(h, id, data, ids_of(first + others));
        assert(after == with_iter(h, id, settled(it, stepped).1));
        assert(pair_of(it) != id);
        assert(after.data(pair_of(it)) == h.data(pair_of(it)));
    }
}

/// `next` of a callable-driven iterator, from beginning to end. Before it, the iterator is not
/// exhausted, so the callable of its pair is called; `during` is the state when the call and the
/// comparison are over, whatever they did. Then `next` returns what the callable returned, and the
/// iterator counts it, unless that equals the sentinel or the iterator was exhausted meanwhile: then
/// it returns the default, or fails with `StopIteration`, and the iterator is exhausted. The caller's
/// frame state and the suspensions of the collector are as they were.
pub proof fn next_yields_until_the_sentinel(
    id: HeapId,
    default: Option<Value>,
    before: VmModel,
    began: RunResult<Next>,
    running: VmModel,
    during: VmModel,
    v: Value,
    equal: bool,
    r: RunResult<Value>,
    after: VmModel,
)
    requires
        is_iter(before.heap, id),
        iter_at(before.heap, id).source matches SourceModel::CallableSentinel { done, .. } && !done,
        next_result(Value::Ref(id), default, before, began, running),
        began is Ok,
        during.gc_pause_depth == running.gc_pause_depth,
        is_iter(during.heap, id),
        iter_at(during.heap, id).source is CallableSentinel,
        during.heap.owns(
            seq![
                v,
                begun(before, pair_of(iter_at(before.heap, id))).callable,
                begun(before, pair_of(iter_at(before.heap, id))).sentinel,
            ] + default_values(default).push(Value::Ref(id)),
        ),
        next_concluded(
            PendingProduced {
                iter: HeapRead { id },
                default,
                step: ProducedStep { produced: v, step: began->Ok_0->Call_0.step },
            },
            during,
            Ok(equal),
            r,
            after,
        ),
    ensures
        ({
            let pair = pair_of(iter_at(before.heap, id));
            let it = iter_at(during.heap, id);
            let over = equal || it.source->done;
            &&& began->Ok_0 is Call
            &&& began->Ok_0->Call_0.step.callable == pair_callable(before.heap, pair)
            &&& began->Ok_0->Call_0.step.sentinel == pair_sentinel(before.heap, pair)
            &&& after.frames == before.frames
            &&& after.gc_pause_depth == before.gc_pause_depth
            &&& is_iter(after.heap, id)
            &&& if over {
                &&& r == exhausted_result(default)
                &&& iter_at(after.heap, id).source == SourceModel::CallableSentinel {
                    pair: pair_of(it),
                    done: true,
                }
            } else {
                &&& r == Ok::<Value, RunError>(v)
                &&& iter_at(after.heap, id) == IterModel { index: it.index + 1, ..it }
            }
        }),
{
    let callee = began->Ok_0->Call_0.step;
    let taken = ProducedStep { produced: v, step: callee };
    let it = iter_at(during.heap, id);
    let held = default_values(default).push(Value::Ref(id));
    lemma_compared(during.heap, taken, default, id);
    if !equal {
        let kept = during.heap.dropped(callee.callable).dropped(callee.sentinel);
        if it.source->done {
            assert(kept.dropped(v).live(id));
        } else {
            let moved = settled_heap(kept, id, Some(v));
            let data = DataModel::Iter(settled(it, Some(v)).1);
            lemma_with_data(kept, id, data, ids_of(held));
            if default is Some {
                assert(held =~= seq![default->0] + seq![Value::Ref(id)]);
                lemma_dropped(moved, default->0, seq![Value::Ref(id)]);
                lemma_owned_live(moved.dropped(default->0), seq![Value::Ref(id)], 0);
                assert(moved.dropped(default->0).live(id));
            }
        }
    }
}

// Exhaustion.

/// The iterator walks something whose length it remembers, or which it holds a copy of: anything but
/// a list.
pub open spec fn remembers_length(it: IterModel) -> bool {
    !(it.source matches SourceModel::HeapRef { len, .. } && len is None)
}

/// An exhausted iterator stays exhausted, whatever becomes of the heap: no advance changes it, calls
/// anything or yields anything. A list that grows again is the exception.
pub proof fn exhaustion_is_sticky(
    it: IterModel,
    h: HeapModel,
    later: HeapModel,
    interns: Interns,
)
    requires
        iter_fits(it, h, interns),
        step(it, h, interns).outcome is Exhausted,
        remembers_length(it),
    ensures
        step(it, later, interns).outcome is Exhausted,
        step(it, later, interns).iter == it,
        step(it, later, interns).heap == later,
{
}

/// `next` of an exhausted iterator returns the default, or fails with `StopIteration` where there is
/// none; nothing is called and nothing changes.
pub proof fn next_of_an_exhausted_iterator(
    id: HeapId,
    default: Option<Value>,
    before: VmModel,
    r: RunResult<Next>,
    after: VmModel,
)
    requires
        is_iter(before.heap, id),
        step(iter_at(before.heap, id), before.heap, before.interns).outcome is Exhausted,
        next_result(Value::Ref(id), default, before, r, after),
    ensures
        after == before,
        match default {
            Some(value) => r == Ok::<Next, RunError>(Next::Value(value)),
            None => r == Err::<Next, RunError>(RunError::StopIteration),
        },
{
    let h = before.heap;
    let it = iter_at(h, id);
    let s = step(it, h, before.interns);
    assert(s.iter == it);
    assert(s.heap == h);
    assert(with_iter(h, id, it) =~= h);
    assert(before.with_heap(h) =~= before);
}

// Collection.

/// No collection runs during a step, however deep steps are nested: whoever asks for one then leaves
/// the interpreter as it is.
pub proof fn no_collection_during_a_step(
    before: VmModel,
    pair: HeapId,
    during: VmModel,
    roots: Seq<HeapId>,
    after: VmModel,
)
    requires
        during.gc_pause_depth >= entered(before, pair).gc_pause_depth,
        collected_if_due(during, roots, after),
    ensures
        !collection_due(during),
        after == during,
{
}

/// A collection keeps every reachable iterator sound, together with everything that it needs: the
/// container that it walks and the dict behind a view, or its callable and its sentinel.
pub proof fn collection_keeps_iterators_sound(
    before: HeapModel,
    roots: Seq<HeapId>,
    after: HeapModel,
    id: HeapId,
    interns: Interns,
)
    requires
        before.backed(roots),
        before.slots.len() <= usize::MAX,
        swept(before, roots, after),
        reachable(before, roots, id),
        is_iter(before, id),
        iter_fits(iter_at(before, id), before, interns),
    ensures
        is_iter(after, id),
        iter_at(after, id) == iter_at(before, id),
        iter_fits(iter_at(after, id), after, interns),
        iter_at(before, id).source matches SourceModel::CallableSentinel { pair, .. } ==> {
            &&& pair_callable(after, pair) == pair_callable(before, pair)
            &&& pair_sentinel(after, pair) == pair_sentinel(before, pair)
            &&& pair_callable(before, pair) matches Value::Ref(c) ==> after.live(c)
            &&& pair_sentinel(before, pair) matches Value::Ref(s) ==> after.live(s)
        },
{
    lemma_swept(before, roots, after);
    assert(after.live(id));
    let it = iter_at(before, id);
    if it.value is Ref {
        let held = it.value->Ref_0;
        lemma_child_live(after, id, 0);
        assert(children(after.data(id))[0] == it.value);
        assert(after.live(held));
        if children(after.data(held)).len() > 0 {
            lemma_items_live(after, held);
            match after.data(held) {
                DataModel::DictKeysView(dict)
                | DataModel::DictItemsView(dict)
                | DataModel::DictValuesView(dict) => {
                    assert(children(after.data(held))[0] == Value::Ref(dict));
                    assert(after.live(dict));
                },
                DataModel::Tuple(items) => {
                    if items.len() == 2 {
                        assert(children(after.data(held))[0] == items[0]);
                        assert(children(after.data(held))[1] == items[1]);
                    }
                },
                _ => {},
            }
        }
    }
}

// Items.

/// How many items the container `id` has.
pub open spec fn container_len(h: HeapModel, id: HeapId) -> nat {
    match h.data(id) {
        DataModel::List(items) => items.len(),
        DataModel::Tuple(items) => items.len(),
        DataModel::NamedTuple(_, items) => items.len(),
        DataModel::FrozenSet(items) => items.len(),
        DataModel::PySet(items) => items.len(),
        DataModel::Bytes(bytes) => bytes.len(),
        DataModel::Dict(entries) => entries.len(),
        DataModel::DictKeysView(dict) => dict_entries(h, dict).len(),
        DataModel::DictItemsView(dict) => dict_entries(h, dict).len(),
        DataModel::DictValuesView(dict) => dict_entries(h, dict).len(),
        _ => 0,
    }
}

/// What the iterator walks has the size that it had when the iterator was made. Only dicts, their
/// views and sets can have another.
pub open spec fn same_size(it: IterModel, h: HeapModel) -> bool {
    it.source matches SourceModel::HeapRef { heap_id, .. } ==> container_len(h, heap_id)
        == source_len(it, h)
}

/// A dict, a view of one or a set that has changed size makes the advance fail, and the failure
/// changes nothing: so it fails again until the size is what it was.
pub proof fn a_changed_size_is_an_error(it: IterModel, h: HeapModel, interns: Interns)
    requires
        iter_fits(it, h, interns),
        !same_size(it, h),
        it.index < source_len(it, h),
    ensures
        ({
            let s = step(it, h, interns);
            let changed = if h.data(it.value->Ref_0) is PySet {
                RunError::SetChangedSize
            } else {
                RunError::DictChangedSize
            };
            s.outcome == Outcome::Failed(changed) && s.iter == it && s.heap == h
        }),
{
}

/// The items of the iterator are made as they are yielded: strings of one character, and the pairs
/// that a view of the items of a dict gives. All others are there already.
pub open spec fn allocates(it: IterModel, h: HeapModel) -> bool {
    match it.source {
        SourceModel::IterStr { .. } => true,
        SourceModel::HeapRef { heap_id, .. } => h.data(heap_id) is DictItemsView,
        _ => false,
    }
}

/// The heap has room for `n` more items of the iterator, and its tracker admits them.
pub open spec fn affords(it: IterModel, h: HeapModel, n: nat) -> bool {
    &&& h.slots.len() <= usize::MAX
    &&& allocates(it, h) ==> {
        &&& h.slots.len() + n <= usize::MAX
        &&& h.budget matches Some(left) ==> left >= n
    }
}

/// Taking references to the key and the value of an entry of a dict allocates nothing.
pub proof fn lemma_entry_cloned(h: HeapModel, dict: HeapId, k: int)
    requires
        h.counted(),
        is_dict(h, dict),
        0 <= k < dict_entries(h, dict).len(),
    ensures
        ({
            let entry = dict_entries(h, dict)[k];
            let taken = h.cloned(entry.0).cloned(entry.1);
            &&& h.cloned(entry.0).slots.len() == h.slots.len()
            &&& h.cloned(entry.1).slots.len() == h.slots.len()
            &&& taken.slots.len() == h.slots.len()
            &&& taken.budget == h.budget
        }),
{
    let entries = dict_entries(h, dict);
    lemma_items_live(h, dict);
    lemma_pair_values(entries, k);
    assert(children(h.data(dict))[2 * k] == entries[k].0);
    assert(children(h.data(dict))[2 * k + 1] == entries[k].1);
    lemma_cloned(h, entries[k].0, Seq::empty());
}

/// One advance of an iterator that has something left.
proof fn lemma_advances(it: IterModel, h: HeapModel, interns: Interns)
    requires
        h.counted(),
        iter_fits(it, h, interns),
        it.source !is CallableSentinel,
        same_size(it, h),
        affords(it, h, 1),
        size_left(it, h) > 0,
    ensures
        ({
            let s = step(it, h, interns);
            &&& s.outcome is Item
            &&& s.heap.counted()
            &&& keeps(h, s.heap)
            &&& iter_fits(s.iter, s.heap, interns)
            &&& s.iter.source !is CallableSentinel
            &&& same_size(s.iter, s.heap)
            &&& size_left(s.iter, s.heap) == size_left(it, h) - 1
            &&& s.iter.index == it.index + 1
            &&& allocates(s.iter, s.heap) == allocates(it, h)
            &&& forall|n: nat| affords(it, h, n + 1) ==> #[trigger] affords(s.iter, s.heap, n)
        }),
{
    assert(ids_of(Seq::<Value>::empty()) =~= Seq::<HeapId>::empty());
    lemma_step(it, h, interns, Seq::empty());
    lemma_size_left(it, h, interns);
    match it.source {
        SourceModel::HeapRef { heap_id, .. } => {
            assert(h.live(heap_id));
            match h.data(heap_id) {
                DataModel::DictKeysView(dict)
                | DataModel::DictItemsView(dict)
                | DataModel::DictValuesView(dict) => {
                    assert(h.live(dict));
                    lemma_entry_cloned(h, dict, it.index as int);
                },
                DataModel::Dict(_) => lemma_entry_cloned(h, heap_id, it.index as int),
                DataModel::List(items)
                | DataModel::Tuple(items)
                | DataModel::NamedTuple(_, items)
                | DataModel::PySet(items)
                | DataModel::FrozenSet(items) => {
                    lemma_items_live(h, heap_id);
                    assert(children(h.data(heap_id))[it.index as int] == items[it.index as int]);
                },
                _ => {},
            }
        },
        _ => {},
    }
}

/// `size_hint` is exact: an iterator that calls nothing yields that many items and is exhausted
/// then, unless what it walks has changed size or the heap refuses an item.
pub proof fn size_left_is_exact(it: IterModel, h: HeapModel, interns: Interns)
    requires
        h.counted(),
        iter_fits(it, h, interns),
        it.source !is CallableSentinel,
        same_size(it, h),
        affords(it, h, size_left(it, h)),
    ensures
        yields(it, h, interns, size_left(it, h)),
        nth_step(it, h, interns, size_left(it, h)).outcome is Exhausted,
        gathered(it, h, interns, size_left(it, h)).items.len() == size_left(it, h),
{
    let n = size_left(it, h);
    assert forall|k: nat| k < n implies (#[trigger] nth_step(it, h, interns, k)).outcome is Item by {
        lemma_gathered(it, h, interns, k);
    }
    lemma_gathered(it, h, interns, n);
}

/// What is left after `n` advances.
proof fn lemma_gathered(it: IterModel, h: HeapModel, interns: Interns, n: nat)
    requires
        h.counted(),
        iter_fits(it, h, interns),
        it.source !is CallableSentinel,
        same_size(it, h),
        affords(it, h, size_left(it, h)),
        n <= size_left(it, h),
    ensures
        ({
            let g = gathered(it, h, interns, n);
            let s = nth_step(it, h, interns, n);
            &&& g.heap.counted()
            &&& iter_fits(g.iter, g.heap, interns)
            &&& g.iter.source !is CallableSentinel
            &&& same_size(g.iter, g.heap)
            &&& allocates(g.iter, g.heap) == allocates(it, h)
            &&& affords(g.iter, g.heap, (size_left(it, h) - n) as nat)
            &&& size_left(g.iter, g.heap) == size_left(it, h) - n
            &&& g.iter.index == it.index + n
            &&& g.items.len() == n
            &&& keeps(h, g.heap)
            &&& n < size_left(it, h) ==> s.outcome is Item
            &&& n == size_left(it, h) ==> s.outcome is Exhausted
        }),
    decreases n,
{
    let g = gathered(it, h, interns, n);
    if n > 0 {
        lemma_gathered(it, h, interns, (n - 1) as nat);
        let before = gathered(it, h, interns, (n - 1) as nat);
        lemma_advances(before.iter, before.heap, interns);
        assert(affords(before.iter, before.heap, ((size_left(it, h) - n) as nat) + 1));
        assert(affords(g.iter, g.heap, (size_left(it, h) - n) as nat));
        assert forall|id: HeapId| #[trigger] h.live(id) implies g.heap.live(id) && g.heap.data(id)
            == h.data(id) by {
            assert(before.heap.live(id));
        }
    }
    if n < size_left(it, h) {
        lemma_advances(g.iter, g.heap, interns);
    }
}

/// The item at `k` of the container `id`, where its items are there already: any container but a
/// view of the items of a dict.
pub open spec fn shared_item(h: HeapModel, id: HeapId, k: int) -> Value {
    match h.data(id) {
        DataModel::List(items) => items[k],
        DataModel::Tuple(items) => items[k],
        DataModel::NamedTuple(_, items) => items[k],
        DataModel::FrozenSet(items) => items[k],
        DataModel::PySet(items) => items[k],
        DataModel::Bytes(bytes) => Value::Int(bytes[k] as i64),
        DataModel::Dict(entries) => entries[k].0,
        DataModel::DictKeysView(dict) => dict_entries(h, dict)[k].0,
        DataModel::DictValuesView(dict) => dict_entries(h, dict)[k].1,
        _ => Value::PyNone,
    }
}

/// A container is walked in order: `n` advances yield its next `n` items.
pub proof fn containers_are_walked_in_order(it: IterModel, h: HeapModel, interns: Interns, n: nat)
    requires
        h.counted(),
        h.slots.len() <= usize::MAX,
        iter_fits(it, h, interns),
        same_size(it, h),
        it.source is HeapRef,
        h.data(it.source->heap_id) !is DictItemsView,
        n <= size_left(it, h),
    ensures
        yields(it, h, interns, n),
        gathered(it, h, interns, n).items == Seq::new(
            n,
            |k: int| shared_item(h, it.source->heap_id, it.index + k),
        ),
    decreases n,
{
    let id = it.source->heap_id;
    let g = gathered(it, h, interns, n);
    size_left_is_exact(it, h, interns);
    if n > 0 {
        containers_are_walked_in_order(it, h, interns, (n - 1) as nat);
        lemma_gathered(it, h, interns, (n - 1) as nat);
        lemma_source_kept(it, h, interns, (n - 1) as nat);
        let before = gathered(it, h, interns, (n - 1) as nat);
        assert(h.live(id));
        match h.data(id) {
            DataModel::DictKeysView(dict) | DataModel::DictValuesView(dict) => {
                assert(h.live(dict));
            },
            _ => {},
        }
        let s = step(before.iter, before.heap, interns);
        assert(s.outcome == Outcome::Item(shared_item(h, id, it.index + n - 1)));
    }
    assert(g.items =~= Seq::new(n, |k: int| shared_item(h, id, it.index + k)));
}

/// A container stays the source of its iterator, and the characters of a string theirs.
proof fn lemma_source_kept(it: IterModel, h: HeapModel, interns: Interns, n: nat)
    ensures
        it.source is HeapRef ==> gathered(it, h, interns, n).iter.source == it.source,
        it.source matches SourceModel::IterStr { chars, .. } ==> gathered(
            it,
            h,
            interns,
            n,
        ).iter.source matches SourceModel::IterStr { chars: same, .. } && same == chars,
    decreases n,
{
    if n > 0 {
        lemma_source_kept(it, h, interns, (n - 1) as nat);
    }
}

/// The item at `k` of an iterator whose items are made as they are yielded.
pub open spec fn made_item(it: IterModel, h: HeapModel, k: int) -> DataModel {
    match it.source {
        SourceModel::IterStr { chars, .. } => DataModel::Str(seq![chars[k]]),
        _ => {
            let entry = dict_entries(h, h.data(it.source->heap_id)->DictItemsView_0)[k];
            DataModel::Tuple(seq![entry.0, entry.1])
        },
    }
}

/// A string is walked character by character, each in a new string of its own, and a view of the
/// items of a dict entry by entry, each a new tuple of a key and its value.
pub proof fn made_items_come_in_order(it: IterModel, h: HeapModel, interns: Interns, n: nat)
    requires
        h.counted(),
        iter_fits(it, h, interns),
        same_size(it, h),
        allocates(it, h),
        affords(it, h, size_left(it, h)),
        n <= size_left(it, h),
    ensures
        yields(it, h, interns, n),
        ({
            let g = gathered(it, h, interns, n);
            forall|k: int|
                0 <= k < n ==> {
                    &&& (#[trigger] g.items[k]) matches Value::Ref(id)
                    &&& !h.live(id)
                    &&& g.heap.live(id)
                    &&& g.heap.data(id) == made_item(it, h, it.index + k)
                }
        }),
    decreases n,
{
    let g = gathered(it, h, interns, n);
    size_left_is_exact(it, h, interns);
    if n > 0 {
        let m = (n - 1) as nat;
        made_items_come_in_order(it, h, interns, m);
        lemma_gathered(it, h, interns, m);
        lemma_source_kept(it, h, interns, m);
        let before = gathered(it, h, interns, m);
        lemma_advances(before.iter, before.heap, interns);
        let s = step(before.iter, before.heap, interns);
        let id = before.heap.fresh();
        assert(keeps(before.heap, s.heap));
        match it.source {
            SourceModel::HeapRef { heap_id, .. } => {
                assert(h.live(heap_id));
                let dict = h.data(heap_id)->DictItemsView_0;
                assert(h.live(dict));
                lemma_entry_cloned(before.heap, dict, (it.index + m) as int);
            },
            _ => {},
        }
        assert(s.outcome == Outcome::Item(Value::Ref(id)));
        assert(s.heap.live(id) && s.heap.data(id) == made_item(it, h, (it.index + m) as int));
        assert(!before.heap.live(id));
        assert(!h.live(id));
        assert forall|k: int| 0 <= k < n implies {
            &&& (#[trigger] g.items[k]) matches Value::Ref(id)
            &&& !h.live(id)
            &&& g.heap.live(id)
            &&& g.heap.data(id) == made_item(it, h, it.index + k)
        } by {
            if k < m {
                assert(g.items[k] == before.items[k]);
                assert(before.items[k] is Ref);
                assert(before.heap.live(before.items[k]->Ref_0));
            }
        }
    }
}

/// Every item that is yielded comes with a reference of its own, and nobody else loses one.
pub proof fn items_are_owned(
    it: IterModel,
    h: HeapModel,
    interns: Interns,
    rest: Seq<Value>,
    n: nat,
)
    requires
        h.owns(rest),
        iter_fits(it, h, interns),
        it.source !is CallableSentinel,
        same_size(it, h),
        affords(it, h, size_left(it, h)),
        n <= size_left(it, h),
    ensures
        gathered(it, h, interns, n).heap.owns(rest + gathered(it, h, interns, n).items),
    decreases n,
{
    let g = gathered(it, h, interns, n);
    lemma_backed_weaken(h, ids_of(rest), Seq::empty());
    if n > 0 {
        let m = (n - 1) as nat;
        items_are_owned(it, h, interns, rest, m);
        lemma_gathered(it, h, interns, m);
        let before = gathered(it, h, interns, m);
        lemma_step(before.iter, before.heap, interns, rest + before.items);
        assert(rest + g.items =~= (rest + before.items).push(g.items.last()));
    } else {
        assert(rest + g.items =~= rest);
    }
}

/// Draining an iterator that calls nothing, under no time limit, gives all that is left: as many
/// items as `size_hint` told, in the order in which single advances yield them.
pub proof fn collecting_gives_everything(
    it: IterModel,
    before: VmModel,
    n: nat,
    r: RunResult<Collected>,
    after: VmModel,
)
    requires
        stops(it, Seq::empty(), before, n, r, after),
        !before.heap.time_limited(),
        before.heap.counted(),
        iter_fits(it, before.heap, before.interns),
        it.source !is CallableSentinel,
        same_size(it, before.heap),
        affords(it, before.heap, size_left(it, before.heap)),
    ensures
        n == size_left(it, before.heap),
        r matches Ok(Collected::Done(items)) && items@ == gathered(
            it,
            before.heap,
            before.interns,
            size_left(it, before.heap),
        ).items && items@.len() == size_left(it, before.heap),
{
    let all = size_left(it, before.heap);
    size_left_is_exact(it, before.heap, before.interns);
    if n < all {
        assert(nth_step(it, before.heap, before.interns, n).outcome is Item);
    }
    if n > all {
        assert(nth_step(it, before.heap, before.interns, all).outcome is Item);
    }
    let items = gathered(it, before.heap, before.interns, n).items;
    assert(Seq::<Value>::empty() + items =~= items);
}

/// One round of draining a callable-driven iterator: what waited for the verdict on a produced
/// value, the verdict, and what came of it.
pub struct Round {
    pub pending: PendingItem,
    pub before: VmModel,
    pub equal: bool,
    pub result: RunResult<Collected>,
    pub after: VmModel,
}

/// `rounds` are the rounds of one draining, the first of them begun with nothing gathered: each but
/// the last has its callable called again, and goes on with what was gathered.
pub open spec fn one_draining(rounds: Seq<Round>) -> bool {
    &&& rounds.len() > 0
    &&& rounds[0].pending.items@.len() == 0
    &&& forall|k: int|
        0 <= k < rounds.len() ==> item_concluded(
            (#[trigger] rounds[k]).pending,
            rounds[k].before,
            Ok(rounds[k].equal),
            rounds[k].result,
            rounds[k].after,
        )
    &&& forall|k: int|
        0 < k < rounds.len() ==> (rounds[k - 1].result matches Ok(Collected::Call(more))
            && more.items@ == (#[trigger] rounds[k]).pending.items@)
}

/// What the callable produced in the first `n` rounds.
pub open spec fn produced(rounds: Seq<Round>, n: nat) -> Seq<Value> {
    Seq::new(n, |k: int| rounds[k].pending.step.produced)
}

/// Draining a callable-driven iterator ends with the first value that equals the sentinel, and gives
/// exactly the values that were produced before, in order.
pub proof fn collecting_gives_what_was_produced(rounds: Seq<Round>)
    requires
        one_draining(rounds),
        rounds.last().equal,
    ensures
        rounds.last().result matches Ok(Collected::Done(items)) && items@ == produced(
            rounds,
            (rounds.len() - 1) as nat,
        ),
        forall|k: int| 0 <= k < rounds.len() - 1 ==> !(#[trigger] rounds[k]).equal,
{
    lemma_rounds(rounds, (rounds.len() - 1) as nat);
    assert forall|k: int| 0 <= k < rounds.len() - 1 implies !(#[trigger] rounds[k]).equal by {
        assert(rounds[k + 1 - 1] == rounds[k]);
        assert(rounds[k + 1].pending.items@.len() >= 0);
    }
}

/// What has been gathered when round `n` begins.
proof fn lemma_rounds(rounds: Seq<Round>, n: nat)
    requires
        one_draining(rounds),
        n < rounds.len(),
    ensures
        rounds[n as int].pending.items@ == produced(rounds, n),
    decreases n,
{
    let items = rounds[n as int].pending.items@;
    if n > 0 {
        lemma_rounds(rounds, (n - 1) as nat);
        let last = rounds[n - 1];
        assert(item_concluded(last.pending, last.before, Ok(last.equal), last.result, last.after));
        assert(items == last.pending.items@.push(last.pending.step.produced));
    }
    assert(items =~= produced(rounds, n));
}

/// A range is walked from its start in steps of its step, to the last item before its stop.
pub proof fn ranges_are_walked_in_steps(range: Range, h: HeapModel, interns: Interns, n: nat)
    requires
        range.valid(),
        n <= range.spec_len(),
    ensures
        ({
            let it = IterModel {
                index: 0,
                source: range_source(range),
                value: Value::PyNone,
            };
            &&& gathered(it, h, interns, n).items == Seq::new(
                n,
                |k: int| Value::Int(range.item(k) as i64),
            )
            &&& gathered(it, h, interns, n).heap == h
            &&& n < range.spec_len() ==> nth_step(it, h, interns, n).outcome is Item
            &&& n == range.spec_len() ==> nth_step(it, h, interns, n).outcome is Exhausted
        }),
    decreases n,
{
    let it = IterModel {
        index: 0,
        source: range_source(range),
        value: Value::PyNone,
    };
    lemma_range_gathered(range, h, interns, n);
    let g = gathered(it, h, interns, n);
    if n > 0 {
        ranges_are_walked_in_steps(range, h, interns, (n - 1) as nat);
        lemma_range_gathered(range, h, interns, (n - 1) as nat);
    }
    assert(g.items =~= Seq::new(n, |k: int| Value::Int(range.item(k) as i64)));
}

/// The state of an iterator over a range after `n` advances.
proof fn lemma_range_gathered(range: Range, h: HeapModel, interns: Interns, n: nat)
    requires
        range.valid(),
        n <= range.spec_len(),
    ensures
        ({
            let it = IterModel {
                index: 0,
                source: range_source(range),
                value: Value::PyNone,
            };
            let g = gathered(it, h, interns, n);
            &&& g.heap == h
            &&& g.iter.index == n
            &&& g.iter.source matches SourceModel::Range { next, step, len } && len
                == range.spec_len() && step == range.step && (n < range.spec_len() ==> next
                == range.item(n as int))
        }),
    decreases n,
{
    if n > 0 {
        lemma_range_gathered(range, h, interns, (n - 1) as nat);
        if n < range.spec_len() {
            lemma_range_item_bounds(range, n as int);
            assert(n * range.step == (n - 1) * range.step + range.step) by (nonlinear_arith);
        }
    } else {
        assert(0 * range.step == 0);
    }
}

} // verus!
