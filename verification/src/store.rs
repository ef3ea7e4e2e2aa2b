//! A value store as a mathematical value: a sequence of cells, one per
//! physical position, each empty or holding a value tagged with the
//! generation of the handle it was stored under.

use vstd::prelude::*;
use crate::arena::{
    lemma_allocate_issues_fresh_handle, lemma_no_resurrection, lemma_reuse_raises_generation,
    lemma_run_preserves_wf, lemma_step_preserves_wf, occupied_count, ArenaState, Op,
};
use crate::index::Index;

verus! {

/// What a write beyond the end of a store adds behind the written cell.
pub const PADDING: usize = 4;

/// A stored value and the generation of the handle it was stored under.
#[derive(Debug)]
pub struct Entry<T> {
    pub value: T,
    pub version: u64,
}

impl<T: Default> Default for Entry<T> {
    fn default() -> (r: Self)
        ensures
            r.version == 0,
    {
        Entry { value: T::default(), version: 0 }
    }
}

/// The cells of a value store.
#[verifier::ext_equal]
pub struct StoreState<T> {
    pub cells: Seq<Option<Entry<T>>>,
}

impl<T> StoreState<T> {
    /// The store with no cell.
    pub open spec fn empty() -> StoreState<T> {
        StoreState { cells: Seq::empty() }
    }

    /// The cells can be numbered by the machine.
    pub open spec fn wf(self) -> bool {
        self.cells.len() <= usize::MAX
    }

    /// The cell at `h`'s slot holds a value, tagged with `h`'s generation.
    pub open spec fn holds(self, h: Index) -> bool {
        &&& h.index < self.cells.len()
        &&& self.cells[h.index as int] is Some
        &&& self.cells[h.index as int].unwrap().version == h.version
    }

    /// What the cell at `h`'s slot holds under `h`'s generation, whether or
    /// not `h` is live.
    pub open spec fn get(self, h: Index) -> Option<T> {
        if self.holds(h) {
            Some(self.cells[h.index as int].unwrap().value)
        } else {
            None
        }
    }

    /// What a read under `h` finds: the value stored under `h` if `h` is
    /// live, and nothing for a handle that is not, whatever its cell still
    /// holds.
    pub open spec fn live_get(self, arena: ArenaState, h: Index) -> Option<T> {
        if arena.live(h) {
            self.get(h)
        } else {
            None
        }
    }

    /// The cells grown, with empty ones, to reach `len`; unchanged if they
    /// reach it already.
    pub open spec fn padded(self, len: int) -> StoreState<T> {
        if len <= self.cells.len() {
            self
        } else {
            StoreState {
                cells: self.cells + Seq::new(
                    (len - self.cells.len()) as nat,
                    |i: int| None::<Entry<T>>,
                ),
            }
        }
    }

    /// The store after `v` is written under `h`: the cell at `h`'s slot holds
    /// `v` with `h`'s generation, whatever it held; a store too short for the
    /// slot is first grown to the slot and `PADDING` cells with it.
    pub open spec fn set(self, h: Index, v: T) -> StoreState<T> {
        let room = if h.index < self.cells.len() {
            self
        } else {
            self.padded(h.index + PADDING)
        };
        StoreState {
            cells: room.cells.update(h.index as int, Some(Entry { value: v, version: h.version })),
        }
    }

    /// The store after the cell at `h`'s slot is cleared, whatever generation
    /// it carried; unchanged if the store does not reach the slot.
    pub open spec fn unset(self, h: Index) -> StoreState<T> {
        if h.index < self.cells.len() {
            StoreState { cells: self.cells.update(h.index as int, None) }
        } else {
            self
        }
    }

    /// The handle under which the value in cell `i` was stored, if the cell
    /// holds one and that handle is live.
    pub open spec fn entity_at(self, arena: ArenaState, i: int) -> Option<Index> {
        if 0 <= i < self.cells.len() && self.cells[i] is Some && arena.live(
            Index { index: i as usize, version: self.cells[i].unwrap().version },
        ) {
            Some(Index { index: i as usize, version: self.cells[i].unwrap().version })
        } else {
            None
        }
    }

    /// The live handles that have a value in the first `n` cells, by slot.
    pub open spec fn entities_upto(self, arena: ArenaState, n: int) -> Seq<Index>
        decreases n,
    {
        if n <= 0 {
            Seq::empty()
        } else {
            let before = self.entities_upto(arena, n - 1);
            match self.entity_at(arena, n - 1) {
                Some(h) => before.push(h),
                None => before,
            }
        }
    }

    /// The live handles that have a value in this store, by slot.
    pub open spec fn entities(self, arena: ArenaState) -> Seq<Index> {
        self.entities_upto(arena, self.cells.len() as int)
    }

    /// What the cell at `h`'s slot holds under `h`'s generation, by
    /// reference.
    pub open spec fn get_ref<'a>(self, h: Index) -> Option<&'a T> {
        if self.holds(h) {
            Some(&self.cells[h.index as int].unwrap().value)
        } else {
            None
        }
    }

    /// What a walk over the table's slots from slot `pos` on yields: for
    /// each occupied slot, in slot order, the handle that occupies it and
    /// what a read under that handle finds in this store. A value left in
    /// the cell under an earlier generation is not shown, and a slot that
    /// the store has no cell for is yielded without a value.
    pub open spec fn items_from<'a>(self, arena: ArenaState, pos: int) -> Seq<(Index, Option<&'a T>)>
        decreases arena.slots.len() - pos,
    {
        if pos < 0 || pos >= arena.slots.len() {
            Seq::empty()
        } else {
            let rest = self.items_from(arena, pos + 1);
            match arena.handle_at(pos as usize) {
                Some(h) => seq![(h, self.get_ref(h))] + rest,
                None => rest,
            }
        }
    }

    /// What a walk over the whole table yields.
    pub open spec fn items<'a>(self, arena: ArenaState) -> Seq<(Index, Option<&'a T>)> {
        self.items_from(arena, 0)
    }
}

/// A write is read back under the handle it was made under; it hides what
/// the cell held under any other generation of the slot; and it leaves the
/// other slots' handles reading what they read.
pub proof fn lemma_set_then_get<T>(st: StoreState<T>, h: Index, v: T, other: Index)
    ensures
        st.set(h, v).get(h) == Some(v),
        other.index == h.index && other.version != h.version ==> st.set(h, v).get(other) is None,
        other.index != h.index ==> st.set(h, v).get(other) == st.get(other),
{
}

/// A cleared slot reads as empty under every generation, and the other
/// slots' handles read what they read.
pub proof fn lemma_unset_then_get<T>(st: StoreState<T>, h: Index, other: Index)
    ensures
        other.index == h.index ==> st.unset(h).get(other) is None,
        other.index != h.index ==> st.unset(h).get(other) == st.get(other),
{
}

/// Once a live handle has been retired, no store shows it any more,
/// whatever the store still holds in the handle's cell and whatever is
/// asked of the table afterwards: a read under it finds nothing, it is not
/// among the store's entities, and no walk yields it. No store has to be
/// told of the retirement.
pub proof fn lemma_retired_handle_reads_absent<T>(
    s: ArenaState,
    h: Index,
    ops: Seq<Op>,
    st: StoreState<T>,
)
    requires
        s.wf(),
        s.live(h),
        s.can_step(Op::Deallocate(h)),
        s.deallocate(h).can_run(ops),
        st.wf(),
    ensures
        st.live_get(s.deallocate(h).run(ops), h) is None,
        !st.entities(s.deallocate(h).run(ops)).contains(h),
        forall|k: int|
            0 <= k < st.items(s.deallocate(h).run(ops)).len() ==> (#[trigger] st.items(
                s.deallocate(h).run(ops),
            )[k]).0 != h,
{
    let after = s.deallocate(h).run(ops);
    lemma_no_resurrection(s, h, ops);
    lemma_step_preserves_wf(s, Op::Deallocate(h));
    lemma_run_preserves_wf(s.deallocate(h), ops);
    lemma_entities_are_the_live_values(st, after, st.cells.len() as int);
    lemma_items_from_are_the_live_handles(st, after, 0);
}

/// A handle is issued and a value stored under it: the value is read back.
/// The handle is retired and, whatever happened in between, a later
/// allocation reuses its slot: the new handle carries a greater generation,
/// and once a value is stored under it in whatever the store has become,
/// a read under the old handle finds nothing and a read under the new
/// handle finds the new value.
pub proof fn lemma_reuse_round_trip<T>(
    s: ArenaState,
    ops: Seq<Op>,
    st: StoreState<T>,
    later: StoreState<T>,
    v: T,
    w: T,
)
    requires
        s.wf(),
        s.can_step(Op::Allocate),
        s.allocate().can_step(Op::Deallocate(s.next_handle())),
        s.allocate().deallocate(s.next_handle()).can_run(ops),
        s.allocate().deallocate(s.next_handle()).run(ops).can_step(Op::Allocate),
        s.allocate().deallocate(s.next_handle()).run(ops).next_handle().index
            == s.next_handle().index,
    ensures
        ({
            let first = s.next_handle();
            let issued = s.allocate();
            let retired = issued.deallocate(first).run(ops);
            let second = retired.next_handle();
            let reused = retired.allocate();
            &&& st.set(first, v).live_get(issued, first) == Some(v)
            &&& later.live_get(retired, first) is None
            &&& second.version > first.version
            &&& later.set(second, w).live_get(reused, first) is None
            &&& later.set(second, w).live_get(reused, second) == Some(w)
        }),
{
    let h = s.next_handle();
    let issued = s.allocate();
    let retired = issued.deallocate(h).run(ops);
    let all = seq![Op::Deallocate(h)] + ops;
    assert(all.drop_first() =~= ops);
    assert(issued.run(all) == retired);
    assert(issued.can_run(all));
    lemma_reuse_raises_generation(s, all);
    lemma_allocate_issues_fresh_handle(s);
    lemma_step_preserves_wf(s, Op::Allocate);
    lemma_no_resurrection(issued, h, ops);
    lemma_run_preserves_wf(issued, all);
    lemma_allocate_issues_fresh_handle(retired);
}

/// The handles that `entities_upto` lists are those of the live handles
/// below slot `n` that have a value in the store.
pub proof fn lemma_entities_are_the_live_values<T>(st: StoreState<T>, arena: ArenaState, n: int)
    requires
        st.wf(),
        n <= st.cells.len(),
    ensures
        forall|h: Index|
            #![trigger st.entities_upto(arena, n).contains(h)]
            #![trigger st.holds(h)]
            st.entities_upto(arena, n).contains(h) <==> h.index < n && arena.live(h) && st.holds(h),
    decreases n,
{
    if n > 0 {
        lemma_entities_are_the_live_values(st, arena, n - 1);
        let before = st.entities_upto(arena, n - 1);
        let now = st.entities_upto(arena, n);
        assert forall|h: Index| now.contains(h) <==> h.index < n && arena.live(h) && st.holds(h) by {
            let at_last = h.index == n - 1 && arena.live(h) && st.holds(h);
            assert(before.contains(h) <==> h.index < n - 1 && arena.live(h) && st.holds(h));
            match st.entity_at(arena, n - 1) {
                Some(e) => {
                    assert(now == before.push(e));
                    assert(e.index == n - 1 && arena.live(e) && st.holds(e));
                    assert(at_last <==> h == e);
                    if now.contains(h) {
                        let k = choose|k: int| 0 <= k < now.len() && now[k] == h;
                        if k < before.len() {
                            assert(before[k] == h);
                            assert(before.contains(h));
                        } else {
                            assert(h == e);
                        }
                    }
                    if before.contains(h) {
                        let k = choose|k: int| 0 <= k < before.len() && before[k] == h;
                        assert(now[k] == h);
                    }
                    if h == e {
                        assert(now[before.len() as int] == h);
                    }
                    assert(now.contains(h) <==> before.contains(h) || h == e);
                },
                None => {
                    assert(now == before);
                    if at_last {
                        assert(h == (Index {
                            index: (n - 1) as usize,
                            version: st.cells[n - 1].unwrap().version,
                        }));
                    }
                    assert(!at_last);
                },
            }
        }
    }
}

/// The first `n` slots hold no more occupants than the whole table.
pub proof fn lemma_occupied_count_of_prefix(slots: Seq<Option<u64>>, n: int)
    requires
        0 <= n <= slots.len(),
    ensures
        occupied_count(slots.subrange(0, n)) <= occupied_count(slots),
    decreases slots.len(),
{
    if n == slots.len() {
        assert(slots.subrange(0, n) =~= slots);
    } else {
        assert(slots.drop_last().subrange(0, n) =~= slots.subrange(0, n));
        lemma_occupied_count_of_prefix(slots.drop_last(), n);
    }
}

/// The entities of a store rise strictly by slot, so none is listed twice,
/// and there are no more of them than slots are occupied.
pub proof fn lemma_entities_rise_by_slot<T>(st: StoreState<T>, arena: ArenaState)
    requires
        st.wf(),
        arena.wf(),
    ensures
        forall|j: int, k: int|
            0 <= j < k < st.entities(arena).len() ==> (#[trigger] st.entities(arena)[j]).index < (
            #[trigger] st.entities(arena)[k]).index,
        forall|j: int, k: int|
            0 <= j < k < st.entities(arena).len() ==> (#[trigger] st.entities(arena)[j]) != (
            #[trigger] st.entities(arena)[k]),
        st.entities(arena).len() <= arena.valid_count(),
{
    lemma_entities_upto_rise_by_slot(st, arena, st.cells.len() as int);
}

/// The entities among the first `n` cells rise strictly by slot, and there
/// are no more of them than slots are occupied.
pub proof fn lemma_entities_upto_rise_by_slot<T>(st: StoreState<T>, arena: ArenaState, n: int)
    requires
        st.wf(),
        arena.wf(),
        0 <= n <= st.cells.len(),
    ensures
        forall|k: int|
            0 <= k < st.entities_upto(arena, n).len() ==> (#[trigger] st.entities_upto(arena, n)[k]).index
                < n,
        forall|j: int, k: int|
            0 <= j < k < st.entities_upto(arena, n).len() ==> (#[trigger] st.entities_upto(
                arena,
                n,
            )[j]).index < (#[trigger] st.entities_upto(arena, n)[k]).index,
        n <= arena.slots.len() ==> st.entities_upto(arena, n).len() <= occupied_count(
            arena.slots.subrange(0, n),
        ),
        st.entities_upto(arena, n).len() <= arena.valid_count(),
    decreases n,
{
    let m = if n <= arena.slots.len() {
        n
    } else {
        arena.slots.len() as int
    };
    if n > 0 {
        lemma_entities_upto_rise_by_slot(st, arena, n - 1);
        let before = st.entities_upto(arena, n - 1);
        let now = st.entities_upto(arena, n);
        match st.entity_at(arena, n - 1) {
            Some(e) => {
                assert(now == before.push(e));
                assert(e.index == n - 1 && arena.live(e));
                assert(n <= arena.slots.len());
                assert(arena.slots.subrange(0, n).drop_last() =~= arena.slots.subrange(0, n - 1));
            },
            None => {
                assert(now == before);
                if n <= arena.slots.len() {
                    assert(arena.slots.subrange(0, n).drop_last() =~= arena.slots.subrange(
                        0,
                        n - 1,
                    ));
                }
            },
        }
    } else {
        assert(arena.slots.subrange(0, 0) =~= Seq::<Option<u64>>::empty());
    }
    if n <= arena.slots.len() {
        lemma_occupied_count_of_prefix(arena.slots, n);
    } else {
        // Beyond the table no cell names a live handle: the list stopped
        // growing at the table's end.
        assert(st.entities_upto(arena, n).len() <= arena.valid_count());
    }
}

/// What a walk from slot `pos` yields: only live handles of slots from
/// `pos` on, each with what a read under it finds in the store; in
/// strictly rising slot order, so none twice; every such handle, whether
/// or not the store has a cell for it; and as many items as there are
/// occupied slots from `pos` on.
pub proof fn lemma_items_from_are_the_live_handles<T>(
    st: StoreState<T>,
    arena: ArenaState,
    pos: int,
)
    requires
        arena.wf(),
        0 <= pos,
    ensures
        forall|k: int|
            0 <= k < st.items_from(arena, pos).len() ==> {
                let item = #[trigger] st.items_from(arena, pos)[k];
                &&& arena.live(item.0)
                &&& pos <= item.0.index
                &&& item.1 == st.get_ref(item.0)
            },
        forall|j: int, k: int|
            0 <= j < k < st.items_from(arena, pos).len() ==> (
            #[trigger] st.items_from(arena, pos)[j]).0.index < (
            #[trigger] st.items_from(arena, pos)[k]).0.index,
        forall|h: Index|
            arena.live(h) && pos <= h.index ==> exists|k: int|
                0 <= k < st.items_from(arena, pos).len() && (
                #[trigger] st.items_from(arena, pos)[k]).0 == h,
        pos <= arena.slots.len() ==> st.items_from(arena, pos).len() + occupied_count(
            arena.slots.subrange(0, pos),
        ) == arena.valid_count(),
    decreases arena.slots.len() - pos,
{
    let items = st.items_from(arena, pos);
    if pos < arena.slots.len() {
        lemma_items_from_are_the_live_handles(st, arena, pos + 1);
        let rest = st.items_from(arena, pos + 1);
        assert(arena.slots.subrange(0, pos + 1).drop_last() =~= arena.slots.subrange(0, pos));
        match arena.handle_at(pos as usize) {
            Some(first) => {
                assert(items == seq![(first, st.get_ref(first))] + rest);
                assert forall|k: int| 0 <= k < items.len() implies {
                    let item = #[trigger] items[k];
                    &&& arena.live(item.0)
                    &&& pos <= item.0.index
                    &&& item.1 == st.get_ref(item.0)
                } by {
                    if k > 0 {
                        assert(items[k] == rest[k - 1]);
                    }
                }
                assert forall|j: int, k: int| 0 <= j < k < items.len() implies (
                #[trigger] items[j]).0.index < (#[trigger] items[k]).0.index by {
                    assert(items[k] == rest[k - 1]);
                    if j > 0 {
                        assert(items[j] == rest[j - 1]);
                    }
                }
                assert forall|h: Index| arena.live(h) && pos <= h.index implies exists|k: int|
                    0 <= k < items.len() && (#[trigger] items[k]).0 == h by {
                    if h.index == pos {
                        assert(items[0].0 == h);
                    } else {
                        let k = choose|k: int| 0 <= k < rest.len() && (#[trigger] rest[k]).0 == h;
                        assert(items[k + 1] == rest[k]);
                    }
                }
            },
            None => {
                assert(items == rest);
                assert forall|h: Index| arena.live(h) && pos <= h.index implies exists|k: int|
                    0 <= k < items.len() && (#[trigger] items[k]).0 == h by {
                    assert(h.index != pos);
                    let k = choose|k: int| 0 <= k < rest.len() && (#[trigger] rest[k]).0 == h;
                    assert(items[k].0 == h);
                }
            },
        }
    } else if pos == arena.slots.len() {
        assert(arena.slots.subrange(0, pos) =~= arena.slots);
    }
}

/// A walk over a store yields exactly the live handles: each of them, each
/// once, and nothing else, as many items as slots are occupied, whether the
/// store is shorter than the table, as long, or padded beyond it.
pub proof fn lemma_iteration_is_complete<T>(st: StoreState<T>, arena: ArenaState)
    requires
        arena.wf(),
    ensures
        forall|h: Index|
            arena.live(h) <==> exists|k: int|
                0 <= k < st.items(arena).len() && (#[trigger] st.items(arena)[k]).0 == h,
        forall|j: int, k: int|
            0 <= j < k < st.items(arena).len() ==> (#[trigger] st.items(arena)[j]).0 != (
            #[trigger] st.items(arena)[k]).0,
        forall|k: int|
            0 <= k < st.items(arena).len() ==> (#[trigger] st.items(arena)[k]).1 == st.get_ref(
                st.items(arena)[k].0,
            ),
        st.items(arena).len() == arena.valid_count(),
{
    lemma_items_from_are_the_live_handles(st, arena, 0);
    let items = st.items(arena);
    assert(items == st.items_from(arena, 0));
    assert(arena.slots.subrange(0, 0) =~= Seq::<Option<u64>>::empty());
    assert forall|h: Index| arena.live(h) implies exists|k: int|
        0 <= k < items.len() && (#[trigger] items[k]).0 == h by {
        assert(0 <= h.index);
    }
    assert forall|h: Index|
        (exists|k: int| 0 <= k < items.len() && (#[trigger] items[k]).0 == h) implies arena.live(
        h,
    ) by {
        let k = choose|k: int| 0 <= k < items.len() && (#[trigger] items[k]).0 == h;
        assert(arena.live(items[k].0));
    }
}

} // verus!
