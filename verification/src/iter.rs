//! Walks over the slot table, by slot, that show what a value store holds
//! under each live handle.

use vstd::prelude::*;
use vstd::std_specs::iter::IteratorSpecImpl;
use crate::allocator::Allocator;
use crate::arena::ArenaState;
use crate::index::Index;
use crate::store::{Entry, StoreState};

verus! {

/// A walk over the slots of the table that yields, for each occupied slot,
/// the handle that occupies it and the value stored under it in the store,
/// if there is one. Slots that the store has no cell for are walked too.
pub struct Iter<'a, T: 'a> {
    remaining: usize,
    allocator: &'a Allocator,
    inner: &'a [Option<Entry<T>>],
    position: usize,
}

impl<'a, T> Iter<'a, T> {
    /// The store whose values the walk shows.
    pub closed spec fn store(&self) -> StoreState<T> {
        StoreState { cells: self.inner@ }
    }

    /// The slot table that the walk goes by.
    pub closed spec fn arena(&self) -> ArenaState {
        self.allocator@
    }

    /// The slot that the walk looks at next.
    pub closed spec fn cursor(&self) -> int {
        self.position as int
    }

    /// The walk has not run past the table, and counts rightly the slots
    /// left.
    pub closed spec fn wf(&self) -> bool {
        &&& self.position <= self.allocator@.slots.len()
        &&& self.remaining == self.allocator@.slots.len() - self.position
    }

    /// What the walk has yet to yield.
    pub open spec fn upcoming(&self) -> Seq<(Index, Option<&'a T>)> {
        self.store().items_from(self.arena(), self.cursor())
    }

    pub fn new(allocator: &'a Allocator, inner: &'a [Option<Entry<T>>]) -> (r: Self)
        ensures
            r.wf(),
            r.store() == (StoreState { cells: inner@ }),
            r.arena() == allocator@,
            r.cursor() == 0,
    {
        Iter { remaining: allocator.len(), allocator, inner, position: 0 }
    }
}

impl<'a, T> Iterator for Iter<'a, T> {
    type Item = (Index, Option<&'a T>);

    /// Yields the head of what is upcoming, and nothing once that is empty.
    fn next(&mut self) -> (r: Option<(Index, Option<&'a T>)>)
        ensures
            final(self).store() == old(self).store(),
            final(self).arena() == old(self).arena(),
            final(self).wf() == old(self).wf(),
            old(self).wf() ==> r == (if old(self).upcoming().len() > 0 {
                Some(old(self).upcoming()[0])
            } else {
                None
            }),
            old(self).wf() && r is Some ==> final(self).upcoming() == old(self).upcoming().drop_first(),
            old(self).wf() && r is Some ==> final(self).cursor() == r.unwrap().0.index + 1,
            old(self).wf() && r is None ==> final(self).upcoming() == old(self).upcoming(),
    {
        loop
            invariant
                self.inner == old(self).inner,
                self.allocator == old(self).allocator,
                self.position >= old(self).position,
                self.wf() == old(self).wf(),
                self.upcoming() == old(self).upcoming(),
            decreases self.allocator@.slots.len() - self.position,
        {
            proof {
                reveal_with_fuel(StoreState::items_from, 2);
            }
            if self.position >= self.allocator.len() {
                return None;
            }
            let i = self.position;
            self.position = i + 1;
            // Counted down with the walk; a count that was wrong stays wrong.
            self.remaining = self.remaining.wrapping_sub(1);
            match self.allocator.index_at(i) {
                None => {},
                Some(index) => {
                    let value = if i < self.inner.len() {
                        match &self.inner[i] {
                            Some(entry) => {
                                if entry.version == index.version {
                                    Some(&entry.value)
                                } else {
                                    None
                                }
                            },
                            None => None,
                        }
                    } else {
                        None
                    };
                    proof {
                        let up = old(self).upcoming();
                        let rest = self.store().items_from(self.arena(), i + 1);
                        assert(up == seq![(index, value)] + rest);
                        assert(up.drop_first() =~= rest);
                    }
                    return Some((index, value));
                },
            }
        }
    }
}

impl<'a, T> IteratorSpecImpl for Iter<'a, T> {
    open spec fn obeys_prophetic_iter_laws(&self) -> bool {
        self.wf()
    }

    open spec fn remaining(&self) -> Seq<Self::Item> {
        self.upcoming()
    }

    open spec fn will_return_none(&self) -> bool {
        true
    }

    closed spec fn decrease(&self) -> Option<nat> {
        Some((self.allocator@.slots.len() - self.position) as nat)
    }

    open spec fn initial_value_relation(&self, init: &Self) -> bool {
        &&& self.store() == init.store()
        &&& self.arena() == init.arena()
        &&& self.upcoming() == init.upcoming()
    }

    open spec fn peek(&self, index: int) -> Option<Self::Item> {
        if 0 <= index < self.upcoming().len() {
            Some(self.upcoming()[index])
        } else {
            None
        }
    }
}

} // verus!
