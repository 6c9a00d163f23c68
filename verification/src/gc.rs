//! The collector: frees what nothing outside the heap can reach, cycles included.
use vstd::prelude::*;

use crate::heap::Heap;
use crate::model::{
    child_ids, edges, inbound, lemma_backed_weaken, lemma_inbound_update, EntryModel, HeapModel,
};
use crate::resource::ResourceTracker;
use crate::value::{lemma_occurrences_contains, occurrences, HeapId};
use crate::vm::{VM, VmModel};

verus! {

/// How many allocations make a collection due.
pub const GC_INTERVAL: usize = 100_000;

/// The entry `parent` owns a reference to `id`.
pub open spec fn refers(h: HeapModel, parent: HeapId, id: HeapId) -> bool {
    h.live(parent) && child_ids(h.data(parent)).contains(id)
}

/// `id` is among `roots`, or at most `n` references away from them.
pub open spec fn within(h: HeapModel, roots: Seq<HeapId>, n: nat, id: HeapId) -> bool
    decreases n,
{
    if n == 0 {
        roots.contains(id)
    } else {
        ||| within(h, roots, (n - 1) as nat, id)
        ||| exists|parent: HeapId|
            within(h, roots, (n - 1) as nat, parent) && #[trigger] refers(h, parent, id)
    }
}

/// References lead from `roots` to `id`.
pub open spec fn reachable(h: HeapModel, roots: Seq<HeapId>, id: HeapId) -> bool {
    exists|n: nat| #[trigger] within(h, roots, n, id)
}

/// `after` is `before` without what cannot be reached from `roots`. What can be reached is
/// unchanged, and is referred to by whoever is left of those that referred to it.
pub open spec fn swept(before: HeapModel, roots: Seq<HeapId>, after: HeapModel) -> bool {
    &&& after.slots.len() == before.slots.len()
    &&& forall|id: HeapId| #[trigger]
        after.live(id) <==> before.live(id) && reachable(before, roots, id)
    &&& forall|id: HeapId| #[trigger]
        after.live(id) ==> after.data(id) == before.data(id) && after.outside(id)
            == before.outside(id)
    &&& after.budget == before.budget
    &&& after.overtime == before.overtime
    &&& after.since_gc == 0
    &&& after.potential_cycle == before.potential_cycle
}

/// What a reachable entry refers to is reachable.
pub proof fn lemma_reachable_child(h: HeapModel, roots: Seq<HeapId>, parent: HeapId, id: HeapId)
    requires
        reachable(h, roots, parent),
        refers(h, parent, id),
    ensures
        reachable(h, roots, id),
{
    let n = choose|n: nat| #[trigger] within(h, roots, n, parent);
    assert(within(h, roots, n + 1, id));
}

/// What a live entry refers to is live.
proof fn lemma_edge_live(h: HeapModel, parent: HeapId, id: HeapId)
    requires
        h.counted(),
        refers(h, parent, id),
    ensures
        h.live(id),
{
    let ids = child_ids(h.data(parent));
    lemma_occurrences_contains(ids, id);
    lemma_inbound_update(h.slots, parent.0 as int, h.slots[parent.0 as int], id);
    assert(h.refs(id) >= h.inbound(id));
}

/// How many marks are still to be set.
spec fn unmarked(marks: Seq<bool>) -> nat
    decreases marks.len(),
{
    if marks.len() == 0 {
        0
    } else {
        unmarked(marks.drop_last()) + if marks.last() {
            0nat
        } else {
            1
        }
    }
}

proof fn lemma_unmarked(marks: Seq<bool>, i: int)
    requires
        0 <= i < marks.len(),
        !marks[i],
    ensures
        unmarked(marks.update(i, true)) < unmarked(marks),
    decreases marks.len(),
{
    let updated = marks.update(i, true);
    if i == marks.len() - 1 {
        assert(updated.drop_last() =~= marks.drop_last());
    } else {
        assert(updated.drop_last() =~= marks.drop_last().update(i, true));
        lemma_unmarked(marks.drop_last(), i);
    }
}

/// `id` has been marked.
spec fn is_marked(marks: Seq<bool>, id: HeapId) -> bool {
    id.0 < marks.len() && marks[id.0 as int]
}

/// Every id that can be reached is marked or waits in `work`, and so is what a marked entry refers
/// to.
spec fn marking(h: HeapModel, roots: Seq<HeapId>, marks: Seq<bool>, work: Seq<HeapId>) -> bool {
    &&& marks.len() == h.slots.len()
    &&& forall|id: HeapId| #[trigger]
        is_marked(marks, id) ==> h.live(id) && reachable(h, roots, id)
    &&& forall|i: int|
        0 <= i < work.len() ==> h.live(#[trigger] work[i]) && reachable(h, roots, work[i])
    &&& forall|id: HeapId| #[trigger]
        roots.contains(id) ==> is_marked(marks, id) || work.contains(id)
    &&& forall|parent: HeapId, id: HeapId|
        is_marked(marks, parent) && #[trigger] child_ids(h.data(parent)).contains(id) ==> is_marked(
            marks,
            id,
        ) || work.contains(id)
}

/// With nothing left to do, everything that can be reached is marked.
proof fn lemma_marked(
    h: HeapModel,
    roots: Seq<HeapId>,
    marks: Seq<bool>,
    n: nat,
    id: HeapId,
)
    requires
        marking(h, roots, marks, Seq::empty()),
        within(h, roots, n, id),
    ensures
        is_marked(marks, id),
    decreases n,
{
    if n > 0 {
        if within(h, roots, (n - 1) as nat, id) {
            lemma_marked(h, roots, marks, (n - 1) as nat, id);
        } else {
            let parent = choose|parent: HeapId|
                within(h, roots, (n - 1) as nat, parent) && #[trigger] refers(h, parent, id);
            lemma_marked(h, roots, marks, (n - 1) as nat, parent);
        }
    }
}

/// Taking the last id off `work` and marking it, with what it refers to put on `work`, goes on with
/// the marking.
proof fn lemma_marking_goes_on(
    h: HeapModel,
    roots: Seq<HeapId>,
    marks: Seq<bool>,
    work: Seq<HeapId>,
)
    requires
        h.counted(),
        marking(h, roots, marks, work),
        work.len() > 0,
    ensures
        ({
            let id = work.last();
            let children = child_ids(h.data(id));
            &&& h.live(id)
            &&& is_marked(marks, id) ==> marking(h, roots, marks, work.drop_last())
            &&& !is_marked(marks, id) ==> marking(
                h,
                roots,
                marks.update(id.0 as int, true),
                work.drop_last() + children,
            )
        }),
{
    let next = work.last();
    let children = child_ids(h.data(next));
    assert(h.live(work[work.len() - 1]));
    assert forall|id: HeapId| id != next && #[trigger] work.contains(id) implies work.drop_last().contains(
        id,
    ) by {
        let i = work.index_of(id);
        assert(work.drop_last()[i] == id);
    }
    let done = marks.update(next.0 as int, true);
    let more = work.drop_last() + children;
    assert forall|id: HeapId| #[trigger] work.drop_last().contains(id) implies more.contains(id) by {
        let i = work.drop_last().index_of(id);
        assert(more[i] == id);
    }
    assert forall|id: HeapId| #[trigger] children.contains(id) implies more.contains(id) by {
        let i = children.index_of(id);
        assert(more[work.drop_last().len() + i] == id);
    }
    assert forall|i: int| 0 <= i < more.len() implies h.live(#[trigger] more[i]) && reachable(
        h,
        roots,
        more[i],
    ) by {
        if i < work.drop_last().len() {
            assert(more[i] == work[i]);
        } else {
            let child = children[i - work.drop_last().len()];
            assert(children.contains(child));
            lemma_edge_live(h, next, child);
            lemma_reachable_child(h, roots, next, child);
        }
    }
    if is_marked(marks, next) {
        assert forall|i: int| 0 <= i < work.drop_last().len() implies h.live(
            #[trigger] work.drop_last()[i],
        ) && reachable(h, roots, work.drop_last()[i]) by {
            assert(work.drop_last()[i] == work[i]);
        }
    } else {
        assert forall|id: HeapId| #[trigger] is_marked(done, id) <==> is_marked(marks, id) || id
            == next by {}
        assert forall|parent: HeapId, id: HeapId|
            is_marked(done, parent) && #[trigger] child_ids(h.data(parent)).contains(
                id,
            ) implies is_marked(done, id) || more.contains(id) by {
            if parent != next {
                assert(is_marked(marks, parent));
                assert(is_marked(marks, id) || work.contains(id));
                assert(is_marked(done, id) <==> is_marked(marks, id) || id == next);
            }
        }
        assert forall|id: HeapId| #[trigger] roots.contains(id) implies is_marked(done, id)
            || more.contains(id) by {
            assert(is_marked(done, id) <==> is_marked(marks, id) || id == next);
        }
    }
}

/// The heap `now`, from which some entries of `before` have been removed, but not yet the
/// references in `pending` that the last of them owned: what is kept is otherwise unchanged.
spec fn sweeping(before: HeapModel, now: HeapModel, pending: Seq<HeapId>) -> bool {
    &&& now.slots.len() == before.slots.len()
    &&& forall|id: HeapId| #[trigger]
        now.live(id) ==> before.live(id) && now.data(id) == before.data(id) && now.outside(id)
            - occurrences(pending, id) == before.outside(id)
}

/// An entry that is removed leaves its references pending.
proof fn lemma_entry_removed(before: HeapModel, now: HeapModel, gone: HeapId)
    requires
        sweeping(before, now, Seq::empty()),
        now.live(gone),
    ensures
        sweeping(before, now.with_slot(gone, None), child_ids(now.data(gone))),
{
    let after = now.with_slot(gone, None);
    let pending = child_ids(now.data(gone));
    assert forall|id: HeapId| #[trigger] after.live(id) implies before.live(id) && after.data(id)
        == before.data(id) && after.outside(id) - occurrences(pending, id) == before.outside(id) by {
        assert(now.live(id));
        lemma_inbound_update(now.slots, gone.0 as int, None, id);
    }
}

/// A pending reference is given back: its entry, where it is still there, is counted once less.
proof fn lemma_pending_removed(before: HeapModel, now: HeapModel, pending: Seq<HeapId>)
    requires
        before.counted(),
        sweeping(before, now, pending),
        pending.len() > 0,
    ensures
        ({
            let id = pending.last();
            &&& now.live(id) ==> now.refs(id) >= 1 && sweeping(
                before,
                now.with_refs(id, (now.refs(id) - 1) as nat),
                pending.drop_last(),
            )
            &&& !now.live(id) ==> sweeping(before, now, pending.drop_last())
        }),
{
    let gone = pending.last();
    let rest = pending.drop_last();
    if now.live(gone) {
        let after = now.with_refs(gone, (now.refs(gone) - 1) as nat);
        assert(now.outside(gone) - occurrences(pending, gone) == before.outside(gone));
        assert(before.refs(gone) >= before.inbound(gone) + occurrences(Seq::empty(), gone));
        assert forall|id: HeapId| #[trigger] after.live(id) implies before.live(id) && after.data(id)
            == before.data(id) && after.outside(id) - occurrences(rest, id) == before.outside(
            id,
        ) by {
            assert(now.live(id));
            lemma_inbound_update(now.slots, gone.0 as int, after.slots[gone.0 as int], id);
        }
    } else {
        assert forall|id: HeapId| #[trigger] now.live(id) implies now.outside(id) - occurrences(
            rest,
            id,
        ) == before.outside(id) by {
            assert(now.outside(id) - occurrences(pending, id) == before.outside(id));
        }
    }
}

/// Entries that own a reference to `id` are there, where any is counted.
proof fn lemma_inbound_owner(h: HeapModel, slots: Seq<Option<EntryModel>>, id: HeapId)
    requires
        inbound(slots, id) > 0,
        slots.len() <= h.slots.len(),
        forall|i: int| 0 <= i < slots.len() ==> slots[i] == h.slots[i],
        slots.len() <= usize::MAX,
    ensures
        exists|parent: HeapId| #[trigger] refers(h, parent, id),
    decreases slots.len(),
{
    let last = slots.len() - 1;
    if occurrences(edges(slots.last()), id) > 0 {
        lemma_occurrences_contains(edges(slots.last()), id);
        assert(slots[last] == h.slots[last]);
        assert(refers(h, HeapId(last as usize), id));
    } else {
        lemma_inbound_owner(h, slots.drop_last(), id);
    }
}

/// A collection keeps what its roots own, and every count right.
pub proof fn lemma_swept(before: HeapModel, roots: Seq<HeapId>, after: HeapModel)
    requires
        before.backed(roots),
        before.slots.len() <= usize::MAX,
        swept(before, roots, after),
    ensures
        after.backed(roots),
        after.counted(),
        forall|i: int| 0 <= i < roots.len() ==> after.live(#[trigger] roots[i]),
{
    assert forall|id: HeapId| #[trigger] roots.contains(id) implies before.live(id) && after.live(
        id,
    ) && before.outside(id) >= 1 by {
        lemma_occurrences_contains(roots, id);
        assert(before.refs(id) >= before.inbound(id) + occurrences(roots, id));
        assert(within(before, roots, 0, id));
    }
    assert forall|i: int| 0 <= i < roots.len() implies after.live(#[trigger] roots[i]) by {
        assert(roots.contains(roots[i]));
    }
    lemma_backed_weaken(before, roots, Seq::empty());
    assert forall|id: HeapId| #[trigger] after.refs(id) >= after.inbound(id) + occurrences(
        roots,
        id,
    ) by {
        assert(before.refs(id) >= before.inbound(id) + occurrences(roots, id));
        if !after.live(id) {
            lemma_occurrences_contains(roots, id);
            assert(!roots.contains(id));
            if after.inbound(id) > 0 {
                lemma_inbound_owner(after, after.slots, id);
                let parent = choose|parent: HeapId| #[trigger] refers(after, parent, id);
                assert(after.live(parent));
                assert(refers(before, parent, id));
                lemma_reachable_child(before, roots, parent, id);
                lemma_edge_live(before, parent, id);
            }
        }
    }
    assert forall|id: HeapId| #[trigger] after.live(id) implies after.refs(id) >= 1 by {
        assert(before.live(id) && reachable(before, roots, id));
        assert(after.outside(id) == before.outside(id));
        assert(before.refs(id) >= before.inbound(id) + occurrences(roots, id));
        let n = choose|n: nat| #[trigger] within(before, roots, n, id);
        lemma_kept_counted(before, roots, after, n, id);
    }
    lemma_backed_weaken(after, roots, Seq::empty());
}

/// What is kept is a root, or something that is kept owns a reference to it.
proof fn lemma_kept_counted(
    before: HeapModel,
    roots: Seq<HeapId>,
    after: HeapModel,
    n: nat,
    id: HeapId,
)
    requires
        before.counted(),
        swept(before, roots, after),
        forall|root: HeapId| #[trigger] roots.contains(root) ==> before.outside(root) >= 1,
        after.live(id),
        within(before, roots, n, id),
    ensures
        after.refs(id) >= 1,
    decreases n,
{
    assert(after.outside(id) == before.outside(id));
    assert(before.refs(id) >= before.inbound(id));
    if n > 0 {
        if within(before, roots, (n - 1) as nat, id) {
            lemma_kept_counted(before, roots, after, (n - 1) as nat, id);
        } else {
            let parent = choose|parent: HeapId|
                within(before, roots, (n - 1) as nat, parent) && #[trigger] refers(
                    before,
                    parent,
                    id,
                );
            assert(reachable(before, roots, parent));
            assert(after.live(parent));
            let slot = after.slots[parent.0 as int];
            lemma_inbound_update(after.slots, parent.0 as int, slot, id);
            lemma_occurrences_contains(edges(slot), id);
        }
    }
}

impl<T: ResourceTracker> Heap<T> {
    /// Marks what can be reached from `roots`.
    fn mark(&self, roots: &[HeapId]) -> (marks: Vec<bool>)
        requires
            self@.backed(roots@),
        ensures
            marks@.len() == self@.slots.len(),
            forall|id: HeapId| #[trigger]
                is_marked(marks@, id) <==> self@.live(id) && reachable(self@, roots@, id),
    {
        let ghost h = self@;
        let mut marks: Vec<bool> = Vec::new();
        while marks.len() < self.entries.len()
            invariant
                marks@.len() <= self.entries@.len(),
                forall|i: int| 0 <= i < marks@.len() ==> !marks@[i],
            decreases self.entries@.len() - marks@.len(),
        {
            marks.push(false);
        }
        let mut work: Vec<HeapId> = Vec::new();
        let mut i: usize = 0;
        while i < roots.len()
            invariant
                i <= roots@.len(),
                work@ == roots@.take(i as int),
            decreases roots@.len() - i,
        {
            work.push(roots[i]);
            i = i + 1;
            assert(work@ =~= roots@.take(i as int));
        }
        proof {
            assert(work@ =~= roots@);
            lemma_backed_weaken(h, roots@, Seq::empty());
            assert forall|k: int| 0 <= k < work@.len() implies h.live(#[trigger] work@[k])
                && reachable(h, roots@, work@[k]) by {
                assert(roots@.contains(work@[k]));
                lemma_occurrences_contains(roots@, work@[k]);
                assert(h.refs(work@[k]) >= h.inbound(work@[k]) + occurrences(roots@, work@[k]));
                assert(within(h, roots@, 0, work@[k]));
            }
        }
        while work.len() > 0
            invariant
                h == self@,
                h.counted(),
                marking(h, roots@, marks@, work@),
            decreases unmarked(marks@), work@.len(),
        {
            proof {
                lemma_marking_goes_on(h, roots@, marks@, work@);
            }
            if let Some(id) = work.pop() {
                if !marks[id.0] {
                    proof {
                        lemma_unmarked(marks@, id.0 as int);
                    }
                    marks[id.0] = true;
                    self.get(id).collect_child_ids(&mut work);
                }
            }
        }
        proof {
            assert(work@ =~= Seq::<HeapId>::empty());
            assert forall|id: HeapId| self@.live(id) && reachable(self@, roots@, id) implies
                #[trigger] is_marked(marks@, id) by {
                let n = choose|n: nat| #[trigger] within(h, roots@, n, id);
                lemma_marked(h, roots@, marks@, n, id);
            }
        }
        marks
    }

    /// Removes the entry `id`, and with it the references that it owns.
    fn remove(&mut self, id: HeapId, Ghost(before): Ghost<HeapModel>)
        requires
            before.counted(),
            sweeping(before, old(self)@, Seq::empty()),
            old(self)@.live(id),
        ensures
            sweeping(before, final(self)@, Seq::empty()),
            forall|other: HeapId| #[trigger]
                final(self)@.live(other) <==> old(self)@.live(other) && other != id,
            final(self)@.budget == old(self)@.budget,
            final(self)@.overtime == old(self)@.overtime,
            final(self)@.since_gc == old(self)@.since_gc,
            final(self)@.potential_cycle == old(self)@.potential_cycle,
    {
        let ghost h = self@;
        let mut pending: Vec<HeapId> = Vec::new();
        proof {
            lemma_entry_removed(before, h, id);
        }
        match self.entries[id.0].take() {
            Some(mut entry) => entry.data.py_dec_ref_ids(&mut pending),
            None => {},
        }
        proof {
            assert(self@ =~= h.with_slot(id, None));
            assert(pending@ =~= child_ids(h.data(id)));
        }
        while pending.len() > 0
            invariant
                before.counted(),
                sweeping(before, self@, pending@),
                forall|other: HeapId| #[trigger]
                    self@.live(other) <==> h.live(other) && other != id,
                self@.budget == h.budget,
                self@.overtime == h.overtime,
                self@.since_gc == h.since_gc,
                self@.potential_cycle == h.potential_cycle,
            decreases pending@.len(),
        {
            proof {
                lemma_pending_removed(before, self@, pending@);
            }
            let ghost now = self@;
            if let Some(child) = pending.pop() {
                if self.is_live(child) {
                    match &mut self.entries[child.0] {
                        Some(entry) => {
                            entry.refs = entry.refs - 1;
                        },
                        None => {},
                    }
                    assert(self@ =~= now.with_refs(child, (now.refs(child) - 1) as nat));
                    assert forall|other: HeapId| #[trigger] self@.live(other) <==> now.live(
                        other,
                    ) by {}
                }
            }
        }
        assert(pending@ =~= Seq::<HeapId>::empty());
    }

    /// Frees everything that cannot be reached from `roots`, which are references held outside the
    /// heap. Counts do not protect: what is held outside and is not among the roots is freed too.
    fn collect_garbage(&mut self, roots: &[HeapId])
        requires
            old(self)@.backed(roots@),
        ensures
            swept(old(self)@, roots@, final(self)@),
            final(self)@.backed(roots@),
            final(self)@.counted(),
    {
        let ghost h = self@;
        let marks = self.mark(roots);
        proof {
            lemma_backed_weaken(h, roots@, Seq::empty());
        }
        let mut i: usize = 0;
        while i < self.entries.len()
            invariant
                i <= self.entries@.len(),
                self@.slots.len() == h.slots.len(),
                marks@.len() == h.slots.len(),
                h.counted(),
                sweeping(h, self@, Seq::empty()),
                forall|id: HeapId| #[trigger]
                    self@.live(id) <==> h.live(id) && (id.0 >= i || is_marked(marks@, id)),
                self@.budget == h.budget,
                self@.overtime == h.overtime,
                self@.since_gc == h.since_gc,
                self@.potential_cycle == h.potential_cycle,
            decreases self.entries@.len() - i,
        {
            if !marks[i] && self.entries[i].is_some() {
                self.remove(HeapId(i), Ghost(h));
            }
            i = i + 1;
        }
        let ghost kept = self@;
        self.allocations_since_gc = 0;
        proof {
            let after = self@;
            assert(after.slots =~= kept.slots);
            assert forall|id: HeapId| #[trigger] after.live(id) implies after.data(id) == h.data(id)
                && after.outside(id) == h.outside(id) by {
                assert(kept.live(id));
                assert(kept.outside(id) == h.outside(id));
            }
            assert forall|id: HeapId| #[trigger]
                after.live(id) <==> h.live(id) && reachable(h, roots@, id) by {
                assert(after.live(id) == kept.live(id));
                assert(is_marked(marks@, id) <==> h.live(id) && reachable(h, roots@, id));
            }
            lemma_swept(h, roots@, after);
        }
    }
}

/// A collection is due: enough has been allocated since the last, there may be cycles, and no step
/// of an iterator has suspended the collector.
pub open spec fn collection_due(vm: VmModel) -> bool {
    vm.gc_pause_depth == 0 && vm.heap.potential_cycle && vm.heap.since_gc >= GC_INTERVAL
}

/// `after` is `before` with its heap swept, where a collection was due, and `before` otherwise.
pub open spec fn collected_if_due(before: VmModel, roots: Seq<HeapId>, after: VmModel) -> bool {
    if collection_due(before) {
        swept(before.heap, roots, after.heap) && after == before.with_heap(after.heap)
    } else {
        after == before
    }
}

impl<T: ResourceTracker> VM<T> {
    /// Whether a collection is due.
    pub fn gc_due(&self) -> (due: bool)
        ensures
            due == collection_due(self@),
    {
        self.gc_pause_depth == 0 && self.heap.potential_cycle && self.heap.allocations_since_gc
            >= GC_INTERVAL
    }

    /// Collects exactly if that is due, and says whether it did. `roots` are references held outside
    /// the heap; what cannot be reached from them is freed.
    pub fn collect_if_due(&mut self, roots: &[HeapId]) -> (collected: bool)
        requires
            old(self)@.heap.backed(roots@),
        ensures
            collected == collection_due(old(self)@),
            collected_if_due(old(self)@, roots@, final(self)@),
            final(self)@.heap.backed(roots@),
    {
        if self.gc_due() {
            self.heap.collect_garbage(roots);
            true
        } else {
            false
        }
    }
}

} // verus!
