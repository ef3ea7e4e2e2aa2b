//! The allocator: the slot table in memory, with the free list threaded
//! through the free slots.

use vstd::prelude::*;
use vstd::pervasive::unreached;
use crate::arena::{
    lemma_occupied_count_bounds, lemma_occupied_count_push, lemma_occupied_count_update,
    lemma_step_preserves_wf, occupied_count, ArenaState, Op,
};
use crate::capacity::capacity_of;
use crate::index::Index;

verus! {

pub const DEFAULT_CAPACITY: usize = 4;

/// One record of the slot table.
#[derive(Debug, Clone, Copy)]
enum AllocatorEntry {
    /// The slot is live at this generation.
    Occupied { version: u64 },
    /// The slot is free; `next` is the free slot after it in the free list.
    Free { next: Option<usize> },
}

/// What a record says of its slot: the occupant's generation, or nothing.
spec fn occupant(e: AllocatorEntry) -> Option<u64> {
    match e {
        AllocatorEntry::Occupied { version } => Some(version),
        AllocatorEntry::Free { .. } => None,
    }
}

/// The first slot of a free list.
spec fn head_of(free: Seq<usize>) -> Option<usize> {
    if free.len() > 0 {
        Some(free[0])
    } else {
        None
    }
}

/// The slot that follows position `k` of a free list.
spec fn link_after(free: Seq<usize>, k: int) -> Option<usize> {
    if k + 1 < free.len() {
        Some(free[k + 1])
    } else {
        None
    }
}

/// Issues, validates and retires handles.
pub struct Allocator {
    entries: Vec<AllocatorEntry>,
    next: Option<usize>,
    version: u64,
    length: usize,
    /// The free list in the order in which the links run.
    free: Ghost<Seq<usize>>,
}

impl View for Allocator {
    type V = ArenaState;

    closed spec fn view(&self) -> ArenaState {
        ArenaState {
            slots: Seq::new(self.entries@.len(), |i: int| occupant(self.entries@[i])),
            free: self.free@,
            generation: self.version,
        }
    }
}

impl Default for Allocator {
    fn default() -> (r: Self)
        ensures
            r.wf(),
            r@ == ArenaState::empty(),
    {
        let r = Allocator {
            entries: Vec::<AllocatorEntry>::with_capacity(DEFAULT_CAPACITY),
            next: None,
            version: 0,
            length: 0,
            free: Ghost(Seq::empty()),
        };
        assert(r@ =~= ArenaState::empty());
        r
    }
}

impl Allocator {
    /// The links in memory spell out the free list of the view, and the
    /// stored length is the number of occupied slots.
    pub closed spec fn linked(&self) -> bool {
        &&& self.next == head_of(self.free@)
        &&& forall|k: int|
            0 <= k < self.free@.len() ==> self.entries@[(#[trigger] self.free@[k]) as int]
                == (AllocatorEntry::Free { next: link_after(self.free@, k) })
        &&& self.length == self@.valid_count()
    }

    /// The allocator is in a state that its own operations produce.
    pub open spec fn wf(&self) -> bool {
        self@.wf() && self.linked()
    }

    pub fn with_capacity(capacity: usize) -> (r: Self)
        ensures
            r.wf(),
            r@ == ArenaState::empty(),
    {
        let r = Allocator {
            entries: Vec::<AllocatorEntry>::with_capacity(capacity),
            next: None,
            version: 0,
            length: 0,
            free: Ghost(Seq::empty()),
        };
        assert(r@ =~= ArenaState::empty());
        r
    }

    /// Issues a handle: on the head of the free list if there is one, else
    /// on a new slot. The handle was not live before and is live now.
    pub fn allocate(&mut self) -> (r: Index)
        requires
            old(self).wf(),
        ensures
            final(self).wf(),
            r == old(self)@.next_handle(),
            final(self)@ == old(self)@.allocate(),
            !old(self)@.live(r),
            final(self)@.live(r),
            final(self)@.valid_count() == old(self)@.valid_count() + 1,
    {
        let ghost before = self@;
        let ghost free = self.free@;
        let index = match self.try_allocate() {
            None => {
                let i = self.grow();
                Index { index: i, version: self.version }
            },
            Some(index) => index,
        };
        proof {
            assert(self.entries.len() == self.entries@.len());
            if free.len() > 0 {
                assert(before.vacant(free[0]));
                lemma_occupied_count_update(before.slots, index.index as int, Some(self.version));
                self.free@ = free.drop_first();
            } else {
                lemma_occupied_count_push(before.slots, Some(self.version));
            }
            assert(before.allocate().slots.len() == self.entries@.len());
            lemma_occupied_count_bounds(before.allocate().slots);
        }
        self.entries.set(index.index, AllocatorEntry::Occupied { version: self.version });
        self.length += 1;
        proof {
            assert(self@ =~= before.allocate());
            lemma_step_preserves_wf(before, Op::Allocate);
            assert forall|k: int| 0 <= k < self.free@.len() implies self.entries@[(
            #[trigger] self.free@[k]) as int] == (AllocatorEntry::Free {
                next: link_after(self.free@, k),
            }) by {
                assert(self.free@[k] == free[k + 1]);
                assert(link_after(self.free@, k) == link_after(free, k + 1));
            }
        }
        index
    }

    /// Takes the head off the free list, if there is one. The slot's record
    /// is left as it was: the caller marks it.
    fn try_allocate(&mut self) -> (r: Option<Index>)
        requires
            old(self).wf(),
        ensures
            final(self).entries == old(self).entries,
            final(self).version == old(self).version,
            final(self).length == old(self).length,
            final(self).free == old(self).free,
            final(self).next == link_after(old(self).free@, 0),
            r == (if old(self).free@.len() > 0 {
                Some(old(self)@.next_handle())
            } else {
                None
            }),
    {
        match self.next {
            Some(i) => {
                assert(self@.vacant(self.free@[0]));
                match self.entries[i] {
                    AllocatorEntry::Occupied { .. } => unreached(),
                    AllocatorEntry::Free { next } => {
                        self.next = next;
                        Some(Index { index: i, version: self.version })
                    },
                }
            },
            None => None,
        }
    }

    /// Retires `index` if it is live, and does nothing if it is not: its
    /// slot goes to the head of the free list and the generation counter
    /// moves on by one.
    pub fn deallocate(&mut self, index: Index)
        requires
            old(self).wf(),
            old(self)@.live(index) ==> old(self)@.generation < u64::MAX,
        ensures
            final(self).wf(),
            final(self)@ == old(self)@.deallocate(index),
            !final(self)@.live(index),
            old(self)@.live(index) ==> final(self)@.valid_count() + 1 == old(self)@.valid_count(),
    {
        let ghost before = self@;
        let ghost free = self.free@;
        if self.validate(&index) {
            proof {
                lemma_occupied_count_update(before.slots, index.index as int, None);
                lemma_occupied_count_bounds(before.slots);
                lemma_step_preserves_wf(before, Op::Deallocate(index));
            }
            self.entries.set(index.index, AllocatorEntry::Free { next: self.next });

            self.next = Some(index.index);
            self.version += 1;

            self.length -= 1;
            proof {
                self.free@ = seq![index.index] + free;
                assert(self@ =~= before.deallocate(index));
                assert forall|k: int| 0 <= k < self.free@.len() implies self.entries@[(
                #[trigger] self.free@[k]) as int] == (AllocatorEntry::Free {
                    next: link_after(self.free@, k),
                }) by {
                    if k > 0 {
                        assert(self.free@[k] == free[k - 1]);
                        assert(before.vacant(free[k - 1]));
                        assert(link_after(self.free@, k) == link_after(free, k - 1));
                    }
                }
            }
        }
    }

    /// Whether `index` is live: its slot exists, is occupied, and is
    /// occupied at the generation that `index` carries.
    pub fn is_allocated(&self, index: &Index) -> (r: bool)
        ensures
            r == self@.live(*index),
    {
        if index.index < self.entries.len() {
            match self.entries[index.index] {
                AllocatorEntry::Occupied { version } => version == index.version,
                AllocatorEntry::Free { .. } => false,
            }
        } else {
            false
        }
    }

    /// The number of slots ever created, the free ones among them.
    pub fn len(&self) -> (n: usize)
        ensures
            n == self@.slots.len(),
    {
        self.entries.len()
    }

    /// The number of slots that are occupied now.
    pub fn valid_count(&self) -> (n: usize)
        ensures
            n == self@.valid_count(),
    {
        let mut n: usize = 0;
        let mut i: usize = 0;
        while i < self.entries.len()
            invariant
                i <= self.entries@.len(),
                n <= i,
                n == occupied_count(self@.slots.subrange(0, i as int)),
            decreases self.entries@.len() - i,
        {
            proof {
                assert(self@.slots.subrange(0, i + 1).drop_last() =~= self@.slots.subrange(
                    0,
                    i as int,
                ));
            }
            match self.entries[i] {
                AllocatorEntry::Occupied { .. } => {
                    n += 1;
                },
                AllocatorEntry::Free { .. } => {},
            }
            i += 1;
        }
        proof {
            assert(self@.slots.subrange(0, i as int) =~= self@.slots);
        }
        n
    }

    /// The generation that the next allocation stamps on its handle.
    pub fn generation(&self) -> (g: u64)
        ensures
            g == self@.generation,
    {
        self.version
    }

    /// Appends one free slot, outside the free list, and returns its index.
    /// Where the backing storage is full it is asked for as much room again
    /// first.
    fn grow(&mut self) -> (i: usize)
        ensures
            final(self).entries@ == old(self).entries@.push(AllocatorEntry::Free { next: None }),
            final(self).next == old(self).next,
            final(self).version == old(self).version,
            final(self).length == old(self).length,
            final(self).free == old(self).free,
            i == old(self).entries@.len(),
    {
        let capacity = capacity_of(&self.entries);
        if self.entries.len() >= capacity {
            self.entries.reserve(capacity);
        }
        self.entries.push(AllocatorEntry::Free { next: None });

        self.entries.len() - 1
    }

    /// Back to the empty table: no slot, no handle, generation zero.
    pub fn reset(&mut self)
        ensures
            final(self).wf(),
            final(self)@ == ArenaState::empty(),
    {
        self.entries.clear();
        self.next = None;
        self.version = 0;
        self.length = 0;
        proof {
            self.free@ = Seq::empty();
            assert(self@ =~= ArenaState::empty());
        }
    }

    /// Whether `index` is live: the one test of liveness that the stores
    /// and iterators go by.
    pub fn validate(&self, index: &Index) -> (r: bool)
        ensures
            r == self@.live(*index),
    {
        if index.index < self.entries.len() {
            match self.entries[index.index] {
                AllocatorEntry::Occupied { version } => version == index.version,
                AllocatorEntry::Free { .. } => false,
            }
        } else {
            false
        }
    }

    /// The handle that occupies slot `index`, if one does.
    pub fn index_at(&self, index: usize) -> (r: Option<Index>)
        ensures
            r == self@.handle_at(index),
    {
        if index < self.entries.len() {
            match self.entries[index] {
                AllocatorEntry::Occupied { version } => Some(Index { index, version }),
                AllocatorEntry::Free { .. } => None,
            }
        } else {
            None
        }
    }
}

} // verus!
