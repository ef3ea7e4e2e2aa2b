//! The slot table as a mathematical value, the two operations that change
//! it, and what holds of every sequence of those operations.

use vstd::prelude::*;
use crate::index::Index;

verus! {

/// The state of a slot table.
#[verifier::ext_equal]
pub struct ArenaState {
    /// One record per physical slot ever created: `Some(g)` while the slot is
    /// occupied by the handle of generation `g`, `None` while it is free.
    pub slots: Seq<Option<u64>>,
    /// The free slots, the one that the next allocation reuses first.
    pub free: Seq<usize>,
    /// The generation that the next allocation stamps on its handle.
    pub generation: u64,
}

/// One request made of a slot table.
pub enum Op {
    Allocate,
    Deallocate(Index),
}

/// How many slots of `slots` are occupied.
pub open spec fn occupied_count(slots: Seq<Option<u64>>) -> nat
    decreases slots.len(),
{
    if slots.len() == 0 {
        0
    } else {
        occupied_count(slots.drop_last()) + if slots.last() is Some { 1nat } else { 0nat }
    }
}

impl ArenaState {
    /// The table with no slot at all.
    pub open spec fn empty() -> ArenaState {
        ArenaState { slots: Seq::empty(), free: Seq::empty(), generation: 0 }
    }

    /// Slot `i` exists and is free.
    pub open spec fn vacant(self, i: usize) -> bool {
        i < self.slots.len() && self.slots[i as int] is None
    }

    /// `h` names a slot that exists, is occupied, and is occupied at the
    /// generation `h` carries.
    pub open spec fn live(self, h: Index) -> bool {
        h.index < self.slots.len() && self.slots[h.index as int] == Some(h.version)
    }

    /// `h` is dead and its generation lies in the past: the table has moved
    /// on from it.
    pub open spec fn retired(self, h: Index) -> bool {
        !self.live(h) && h.version < self.generation
    }

    /// The handle that occupies slot `i`, if one does.
    pub open spec fn handle_at(self, i: usize) -> Option<Index> {
        if i < self.slots.len() && self.slots[i as int] is Some {
            Some(Index { index: i, version: self.slots[i as int].unwrap() })
        } else {
            None
        }
    }

    /// The number of occupied slots.
    pub open spec fn valid_count(self) -> nat {
        occupied_count(self.slots)
    }

    /// The free list holds exactly the slots that are not occupied, each
    /// once; no occupant is younger than the counter; the table fits the
    /// machine.
    pub open spec fn wf(self) -> bool {
        &&& self.slots.len() <= usize::MAX
        &&& self.free.no_duplicates()
        &&& forall|k: int| 0 <= k < self.free.len() ==> self.vacant(#[trigger] self.free[k])
        &&& forall|i: usize| #[trigger] self.vacant(i) ==> self.free.contains(i)
        &&& forall|i: int|
            0 <= i < self.slots.len() && (#[trigger] self.slots[i]) is Some
                ==> self.slots[i].unwrap() <= self.generation
    }

    /// The handle that the next allocation issues: the head of the free list
    /// if there is one, else a new slot at the end of the table; stamped with
    /// the current generation.
    pub open spec fn next_handle(self) -> Index {
        Index {
            index: if self.free.len() > 0 {
                self.free[0]
            } else {
                self.slots.len() as usize
            },
            version: self.generation,
        }
    }

    /// The table after an allocation.
    pub open spec fn allocate(self) -> ArenaState {
        if self.free.len() > 0 {
            ArenaState {
                slots: self.slots.update(self.free[0] as int, Some(self.generation)),
                free: self.free.drop_first(),
                generation: self.generation,
            }
        } else {
            ArenaState {
                slots: self.slots.push(Some(self.generation)),
                free: self.free,
                generation: self.generation,
            }
        }
    }

    /// The table after a request to retire `h`: unchanged unless `h` is live;
    /// else the slot is freed and put at the head of the free list, and the
    /// counter moves on by one.
    pub open spec fn deallocate(self, h: Index) -> ArenaState {
        if self.live(h) {
            ArenaState {
                slots: self.slots.update(h.index as int, None),
                free: seq![h.index] + self.free,
                generation: (self.generation + 1) as u64,
            }
        } else {
            self
        }
    }

    /// The machine can carry out `op`: an allocation that needs a new slot
    /// finds an index for it, and a retirement that takes effect does not
    /// run the counter over.
    pub open spec fn can_step(self, op: Op) -> bool {
        match op {
            Op::Allocate => self.free.len() > 0 || self.slots.len() < usize::MAX,
            Op::Deallocate(h) => self.live(h) ==> self.generation < u64::MAX,
        }
    }

    /// The table after `op`.
    pub open spec fn step(self, op: Op) -> ArenaState {
        match op {
            Op::Allocate => self.allocate(),
            Op::Deallocate(h) => self.deallocate(h),
        }
    }

    /// The machine can carry out `ops` one after the other.
    pub open spec fn can_run(self, ops: Seq<Op>) -> bool
        decreases ops.len(),
    {
        if ops.len() == 0 {
            true
        } else {
            self.can_step(ops[0]) && self.step(ops[0]).can_run(ops.drop_first())
        }
    }

    /// The table after `ops`, carried out one after the other.
    pub open spec fn run(self, ops: Seq<Op>) -> ArenaState
        decreases ops.len(),
    {
        if ops.len() == 0 {
            self
        } else {
            self.step(ops[0]).run(ops.drop_first())
        }
    }
}

/// Writing `v` over slot `i` changes the occupied count by what the slot
/// held and what it holds now.
pub proof fn lemma_occupied_count_update(slots: Seq<Option<u64>>, i: int, v: Option<u64>)
    requires
        0 <= i < slots.len(),
    ensures
        occupied_count(slots.update(i, v)) + (if slots[i] is Some { 1nat } else { 0nat })
            == occupied_count(slots) + (if v is Some { 1nat } else { 0nat }),
    decreases slots.len(),
{
    let after = slots.update(i, v);
    if i == slots.len() - 1 {
        assert(after.drop_last() =~= slots.drop_last());
    } else {
        assert(after.drop_last() =~= slots.drop_last().update(i, v));
        lemma_occupied_count_update(slots.drop_last(), i, v);
    }
}

/// Appending a slot adds it to the occupied count if it is occupied.
pub proof fn lemma_occupied_count_push(slots: Seq<Option<u64>>, v: Option<u64>)
    ensures
        occupied_count(slots.push(v)) == occupied_count(slots) + (if v is Some { 1nat } else { 0nat }),
{
    assert(slots.push(v).drop_last() =~= slots);
}

/// No more slots are occupied than there are, and one occupied slot makes
/// the count positive.
pub proof fn lemma_occupied_count_bounds(slots: Seq<Option<u64>>)
    ensures
        occupied_count(slots) <= slots.len(),
        forall|i: int| 0 <= i < slots.len() && (#[trigger] slots[i]) is Some ==> occupied_count(slots) > 0,
    decreases slots.len(),
{
    if slots.len() > 0 {
        lemma_occupied_count_bounds(slots.drop_last());
        assert forall|i: int| 0 <= i < slots.len() && (#[trigger] slots[i]) is Some implies occupied_count(slots) > 0 by {
            if i < slots.len() - 1 {
                assert(slots.drop_last()[i] is Some);
            }
        }
    }
}

/// The free slots among the first `n` of `slots`.
pub open spec fn vacant_below(slots: Seq<Option<u64>>, n: int) -> Set<usize> {
    Set::new(|i: usize| i < n && i < slots.len() && slots[i as int] is None)
}

/// Among the first `n` slots, those occupied and those free add up to `n`.
pub proof fn lemma_vacant_below_counts(slots: Seq<Option<u64>>, n: int)
    requires
        0 <= n <= slots.len() <= usize::MAX,
    ensures
        vacant_below(slots, n).finite(),
        occupied_count(slots.subrange(0, n)) + vacant_below(slots, n).len() == n,
    decreases n,
{
    if n == 0 {
        assert(vacant_below(slots, 0) =~= Set::empty());
    } else {
        lemma_vacant_below_counts(slots, n - 1);
        let last = (n - 1) as usize;
        assert(slots.subrange(0, n).drop_last() =~= slots.subrange(0, n - 1));
        if slots[n - 1] is None {
            assert(vacant_below(slots, n) =~= vacant_below(slots, n - 1).insert(last));
        } else {
            assert(vacant_below(slots, n) =~= vacant_below(slots, n - 1));
        }
    }
}

/// The free list and the occupied slots share the table between them: the
/// free list holds exactly the slots that are not occupied, so the two
/// counts add up to the table's length.
pub proof fn lemma_free_and_occupied_fill_the_table(s: ArenaState)
    requires
        s.wf(),
    ensures
        forall|i: usize| s.free.contains(i) <==> s.vacant(i),
        s.valid_count() + s.free.len() == s.slots.len(),
{
    assert forall|i: usize| s.free.contains(i) implies s.vacant(i) by {
        let k = choose|k: int| 0 <= k < s.free.len() && s.free[k] == i;
        assert(s.vacant(s.free[k]));
    }
    let n = s.slots.len() as int;
    lemma_vacant_below_counts(s.slots, n);
    assert(s.slots.subrange(0, n) =~= s.slots);
    s.free.unique_seq_to_set();
    assert(s.free.to_set() =~= vacant_below(s.slots, n)) by {
        assert forall|i: usize| s.free.to_set().contains(i) <==> vacant_below(s.slots, n).contains(
            i,
        ) by {
            assert(s.free.to_set().contains(i) <==> s.free.contains(i));
            assert(vacant_below(s.slots, n).contains(i) <==> s.vacant(i));
        }
    }
}

/// A well-formed table stays well-formed through every request that the
/// machine can carry out.
pub proof fn lemma_step_preserves_wf(s: ArenaState, op: Op)
    requires
        s.wf(),
        s.can_step(op),
    ensures
        s.step(op).wf(),
{
    let t = s.step(op);
    match op {
        Op::Allocate => {
            if s.free.len() > 0 {
                let f = s.free[0];
                assert(s.vacant(f));
                assert forall|k: int| 0 <= k < t.free.len() implies t.vacant(#[trigger] t.free[k]) by {
                    assert(t.free[k] == s.free[k + 1]);
                    assert(s.vacant(s.free[k + 1]));
                }
                assert forall|i: usize| #[trigger] t.vacant(i) implies t.free.contains(i) by {
                    assert(s.vacant(i));
                    let k = s.free.index_of(i);
                    assert(s.free[k] == i);
                    assert(t.free[k - 1] == i);
                }
            } else {
                assert forall|i: usize| #[trigger] t.vacant(i) implies t.free.contains(i) by {
                    assert(s.vacant(i));
                }
            }
        },
        Op::Deallocate(h) => {
            if s.live(h) {
                assert forall|j: int, k: int| 0 <= j < t.free.len() && 0 <= k < t.free.len() && j != k
                    implies t.free[j] != t.free[k] by {
                    if j > 0 {
                        assert(s.vacant(s.free[j - 1]));
                    }
                    if k > 0 {
                        assert(s.vacant(s.free[k - 1]));
                    }
                }
                assert forall|k: int| 0 <= k < t.free.len() implies t.vacant(#[trigger] t.free[k]) by {
                    if k > 0 {
                        assert(s.vacant(s.free[k - 1]));
                    }
                }
                assert forall|i: usize| #[trigger] t.vacant(i) implies t.free.contains(i) by {
                    if i == h.index {
                        assert(t.free[0] == i);
                    } else {
                        assert(s.vacant(i));
                        let k = s.free.index_of(i);
                        assert(t.free[k + 1] == i);
                    }
                }
            }
        },
    }
}

/// A well-formed table stays well-formed through every sequence of requests
/// that the machine can carry out.
pub proof fn lemma_run_preserves_wf(s: ArenaState, ops: Seq<Op>)
    requires
        s.wf(),
        s.can_run(ops),
    ensures
        s.run(ops).wf(),
    decreases ops.len(),
{
    if ops.len() > 0 {
        lemma_step_preserves_wf(s, ops[0]);
        lemma_run_preserves_wf(s.step(ops[0]), ops.drop_first());
    }
}

/// No two live handles share a slot.
pub proof fn lemma_live_handles_hold_distinct_slots(s: ArenaState, a: Index, b: Index)
    requires
        s.live(a),
        s.live(b),
        a != b,
    ensures
        a.index != b.index,
{
}

/// The handle that an allocation issues is live afterwards and was not live
/// before, so it equals no handle that was; and all that were live still are.
pub proof fn lemma_allocate_issues_fresh_handle(s: ArenaState)
    requires
        s.wf(),
        s.can_step(Op::Allocate),
    ensures
        !s.live(s.next_handle()),
        s.allocate().live(s.next_handle()),
        forall|h: Index| s.live(h) ==> s.allocate().live(h) && h != s.next_handle(),
        forall|h: Index| s.allocate().live(h) ==> s.live(h) || h == s.next_handle(),
{
    if s.free.len() > 0 {
        assert(s.vacant(s.free[0]));
    }
}

/// A request to retire `h` leaves `h` dead, and changes the liveness of no
/// other handle.
pub proof fn lemma_deallocate_retires_only_its_handle(s: ArenaState, h: Index)
    requires
        s.wf(),
        s.can_step(Op::Deallocate(h)),
    ensures
        !s.deallocate(h).live(h),
        forall|other: Index| other != h ==> (s.deallocate(h).live(other) <==> s.live(other)),
        s.live(h) ==> s.deallocate(h).retired(h),
{
}

/// What is retired stays retired through a request.
pub proof fn lemma_step_keeps_retired(s: ArenaState, op: Op, h: Index)
    requires
        s.wf(),
        s.can_step(op),
        s.retired(h),
    ensures
        s.step(op).retired(h),
{
    match op {
        Op::Allocate => {
            if s.free.len() > 0 {
                assert(s.vacant(s.free[0]));
            }
        },
        Op::Deallocate(_) => {},
    }
}

/// What is live is, after a request, still live or else retired.
pub proof fn lemma_step_keeps_live_or_retires(s: ArenaState, op: Op, h: Index)
    requires
        s.wf(),
        s.can_step(op),
        s.live(h),
    ensures
        s.step(op).live(h) || s.step(op).retired(h),
{
    match op {
        Op::Allocate => {
            if s.free.len() > 0 {
                assert(s.vacant(s.free[0]));
            }
        },
        Op::Deallocate(_) => {
            assert(s.slots[h.index as int] is Some);
        },
    }
}

/// The counter never runs backwards.
pub proof fn lemma_run_never_lowers_generation(s: ArenaState, ops: Seq<Op>)
    requires
        s.wf(),
        s.can_run(ops),
    ensures
        s.run(ops).generation >= s.generation,
    decreases ops.len(),
{
    if ops.len() > 0 {
        lemma_step_preserves_wf(s, ops[0]);
        lemma_run_never_lowers_generation(s.step(ops[0]), ops.drop_first());
    }
}

/// What is retired stays retired whatever is asked of the table afterwards.
pub proof fn lemma_run_keeps_retired(s: ArenaState, ops: Seq<Op>, h: Index)
    requires
        s.wf(),
        s.can_run(ops),
        s.retired(h),
    ensures
        s.run(ops).retired(h),
    decreases ops.len(),
{
    if ops.len() > 0 {
        lemma_step_preserves_wf(s, ops[0]);
        lemma_step_keeps_retired(s, ops[0], h);
        lemma_run_keeps_retired(s.step(ops[0]), ops.drop_first(), h);
    }
}

/// What is live is, whatever is asked of the table afterwards, still live or
/// else retired.
pub proof fn lemma_run_keeps_live_or_retires(s: ArenaState, ops: Seq<Op>, h: Index)
    requires
        s.wf(),
        s.can_run(ops),
        s.live(h),
    ensures
        s.run(ops).live(h) || s.run(ops).retired(h),
    decreases ops.len(),
{
    if ops.len() > 0 {
        let t = s.step(ops[0]);
        lemma_step_preserves_wf(s, ops[0]);
        lemma_step_keeps_live_or_retires(s, ops[0], h);
        if t.live(h) {
            lemma_run_keeps_live_or_retires(t, ops.drop_first(), h);
        } else {
            lemma_run_keeps_retired(t, ops.drop_first(), h);
        }
    }
}

/// Once a live handle has been retired it is never live again, whatever
/// allocations and retirements follow, its own slot's reuse among them.
pub proof fn lemma_no_resurrection(s: ArenaState, h: Index, ops: Seq<Op>)
    requires
        s.wf(),
        s.live(h),
        s.can_step(Op::Deallocate(h)),
        s.deallocate(h).can_run(ops),
    ensures
        !s.deallocate(h).run(ops).live(h),
{
    lemma_step_preserves_wf(s, Op::Deallocate(h));
    lemma_deallocate_retires_only_its_handle(s, h);
    lemma_run_keeps_retired(s.deallocate(h), ops, h);
}

/// Of two allocations, the later never issues the handle that the earlier
/// one did, whatever happened in between. In particular no two handles that
/// are live at once are equal.
pub proof fn lemma_handles_are_never_reissued(s: ArenaState, ops: Seq<Op>)
    requires
        s.wf(),
        s.can_step(Op::Allocate),
        s.allocate().can_run(ops),
        s.allocate().run(ops).can_step(Op::Allocate),
    ensures
        s.allocate().run(ops).next_handle() != s.next_handle(),
{
    let first = s.next_handle();
    let later = s.allocate().run(ops);
    lemma_allocate_issues_fresh_handle(s);
    lemma_step_preserves_wf(s, Op::Allocate);
    lemma_run_preserves_wf(s.allocate(), ops);
    lemma_run_keeps_live_or_retires(s.allocate(), ops, first);
    lemma_allocate_issues_fresh_handle(later);
}

/// When a later allocation reuses the slot of an earlier one, its handle
/// carries a strictly greater generation: the generations seen at one slot
/// only ever grow.
pub proof fn lemma_reuse_raises_generation(s: ArenaState, ops: Seq<Op>)
    requires
        s.wf(),
        s.can_step(Op::Allocate),
        s.allocate().can_run(ops),
        s.allocate().run(ops).can_step(Op::Allocate),
        s.allocate().run(ops).next_handle().index == s.next_handle().index,
    ensures
        s.allocate().run(ops).next_handle().version > s.next_handle().version,
{
    let first = s.next_handle();
    let later = s.allocate().run(ops);
    lemma_allocate_issues_fresh_handle(s);
    lemma_step_preserves_wf(s, Op::Allocate);
    lemma_run_preserves_wf(s.allocate(), ops);
    lemma_run_keeps_live_or_retires(s.allocate(), ops, first);
    lemma_allocate_issues_fresh_handle(later);
    if later.live(first) {
        if later.free.len() > 0 {
            assert(later.vacant(later.free[0]));
        }
    }
}

} // verus!
