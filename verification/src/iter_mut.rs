//! A walk over a value store that hands out its values to be changed in
//! place.

use vstd::prelude::*;
use vstd::std_specs::iter::IteratorSpecImpl;
use crate::allocator::Allocator;
use crate::index::Index;
use crate::store::Entry;

verus! {

/// A walk over the slots of the table that yields, for each occupied slot,
/// the handle that occupies it and the value stored under it in the store,
/// if there is one, to be changed in place. Slots that the store has no
/// cell for are walked too.
///
/// `inner` holds the cells not yet looked at, the first of them at slot
/// `position`. The fields are public so that contracts can speak of the
/// cells as they will be once the walk and what it handed out are done
/// with.
pub struct IterMut<'a, T: 'a> {
    pub remaining: usize,
    pub allocator: &'a Allocator,
    pub inner: &'a mut [Option<Entry<T>>],
    pub position: usize,
}

/// The cell `k` places on in `cells`, and no value where the cells do not
/// reach so far.
pub open spec fn cell_at<T>(cells: Seq<Option<Entry<T>>>, k: int) -> Option<Entry<T>> {
    if 0 <= k < cells.len() {
        cells[k]
    } else {
        None
    }
}

/// The first `k` of `cells`, or all of them if there are fewer.
pub open spec fn cells_before<T>(cells: Seq<Option<Entry<T>>>, k: int) -> Seq<Option<Entry<T>>> {
    if k <= cells.len() {
        cells.subrange(0, k)
    } else {
        cells
    }
}

/// The cells behind place `k` of `cells`.
pub open spec fn cells_after<T>(cells: Seq<Option<Entry<T>>>, k: int) -> Seq<Option<Entry<T>>> {
    if k < cells.len() {
        cells.subrange(k + 1, cells.len() as int)
    } else {
        Seq::empty()
    }
}

/// The value in `cell` that a walk hands out under `h`: the one stored
/// under `h`'s generation, if the cell holds one.
pub open spec fn offered<T>(cell: Option<Entry<T>>, h: Index) -> Option<T> {
    match cell {
        Some(entry) => if entry.version == h.version {
            Some(entry.value)
        } else {
            None
        },
        None => None,
    }
}

/// What a cell holds once the walk is done with it: where a value was
/// handed out, that value as the caller left it, under the same
/// generation; else what it held.
pub open spec fn rewritten<T>(cell: Option<Entry<T>>, left: Option<T>) -> Option<Entry<T>> {
    match left {
        Some(value) => Some(Entry { value, version: cell.unwrap().version }),
        None => cell,
    }
}

/// The cell at place `k` of `cells` as the walk leaves it, and nothing
/// where the cells do not reach so far.
pub open spec fn cell_left<T>(cells: Seq<Option<Entry<T>>>, k: int, left: Option<T>) -> Seq<
    Option<Entry<T>>,
> {
    if 0 <= k < cells.len() {
        seq![rewritten(cells[k], left)]
    } else {
        Seq::empty()
    }
}

impl<'a, T> IterMut<'a, T> {
    /// The walk has not run past the table, and counts rightly the slots
    /// left.
    pub open spec fn wf(&self) -> bool {
        &&& self.position <= self.allocator@.slots.len()
        &&& self.remaining == self.allocator@.slots.len() - self.position
    }

    /// No slot from `self.position` up to, not including, `end` is
    /// occupied.
    pub open spec fn vacant_until(&self, end: int) -> bool {
        forall|i: int|
            self.position <= i < end ==> (#[trigger] self.allocator@.handle_at(i as usize)) is None
    }

    pub fn new(allocator: &'a Allocator, inner: &'a mut [Option<Entry<T>>]) -> (r: Self)
        ensures
            r.wf(),
            r.allocator == allocator,
            r.position == 0,
            r.inner@ == old(inner)@,
            final(r.inner)@ == final(inner)@,
    {
        IterMut { remaining: allocator.len(), allocator, inner, position: 0 }
    }
}

impl<'a, T> Iterator for IterMut<'a, T> {
    type Item = (Index, Option<&'a mut T>);

    /// Moves to the next occupied slot of the table and yields its handle
    /// and, if a value is stored under that handle, the value to be changed
    /// in place; yields nothing once no occupied slot is left. The cells
    /// passed over stay as they are, and the cell of a value handed out
    /// ends with what the caller leaves in it.
    fn next(&mut self) -> (r: Option<(Index, Option<&'a mut T>)>)
        ensures
            final(self).wf() == old(self).wf(),
            final(self).allocator == old(self).allocator,
            old(self).wf() ==> match r {
                None => {
                    &&& old(self).vacant_until(old(self).allocator@.slots.len() as int)
                    &&& final(old(self).inner)@ == old(self).inner@
                    &&& final(self).position == old(self).allocator@.slots.len()
                    &&& final(self).inner@.len() == 0
                },
                Some((h, v)) => {
                    let k = h.index - old(self).position;
                    let left = match v {
                        Some(value) => Some(*final(value)),
                        None => None,
                    };
                    &&& 0 <= k
                    &&& old(self).vacant_until(h.index as int)
                    &&& old(self).allocator@.handle_at(h.index) == Some(h)
                    &&& v is Some <==> offered(cell_at(old(self).inner@, k), h) is Some
                    &&& v is Some ==> *v.unwrap() == offered(cell_at(old(self).inner@, k), h).unwrap()
                    &&& final(self).position == h.index + 1
                    &&& final(self).inner@ == cells_after(old(self).inner@, k)
                    &&& final(old(self).inner)@ == cells_before(old(self).inner@, k) + cell_left(
                        old(self).inner@,
                        k,
                        left,
                    ) + final(final(self).inner)@
                },
            },
    {
        let slots = self.allocator.len();
        if self.position > slots || self.remaining != slots - self.position {
            return None;
        }
        let ghost cells = self.inner@;
        let ghost start = self.position;
        loop
            invariant
                old(self).wf(),
                self.wf(),
                self.allocator == old(self).allocator,
                slots == self.allocator@.slots.len(),
                start == old(self).position,
                cells == old(self).inner@,
                start <= self.position,
                self.inner@ == (if self.position - start <= cells.len() {
                    cells.subrange(self.position - start, cells.len() as int)
                } else {
                    Seq::empty()
                }),
                old(self).vacant_until(self.position as int),
                final(old(self).inner)@ == cells_before(cells, self.position - start)
                    + final(self.inner)@,
            decreases slots - self.position,
        {
            if self.position >= slots {
                // The walk is over: the cells beyond the table are let go
                // of as they are.
                let mut rest: &'a mut [Option<Entry<T>>] = &mut [];
                core::mem::swap(&mut self.inner, &mut rest);
                assert(cells_before(cells, self.position - start) + rest@ =~= cells);
                return None;
            }
            let i = self.position;
            self.position = i + 1;
            self.remaining = self.remaining - 1;
            if self.inner.len() == 0 {
                // The store has no cell for this slot.
                match self.allocator.index_at(i) {
                    None => {},
                    Some(index) => {
                        assert(cells_before(cells, i - start) =~= cells_before(cells, i - start)
                            + cell_left(cells, i - start, None));
                        return Some((index, None));
                    },
                }
            } else {
                let mut rest: &'a mut [Option<Entry<T>>] = &mut [];
                core::mem::swap(&mut self.inner, &mut rest);
                let (head, tail) = rest.split_at_mut(1);
                self.inner = tail;
                match self.allocator.index_at(i) {
                    None => {},
                    Some(index) => {
                        let value = match head.first_mut() {
                            Some(Some(entry)) => {
                                if entry.version == index.version {
                                    Some(&mut entry.value)
                                } else {
                                    None
                                }
                            },
                            _ => None,
                        };
                        return Some((index, value));
                    },
                }
            }
        }
    }
}

impl<'a, T> IteratorSpecImpl for IterMut<'a, T> {
    /// The walk is specified by the contract of `next`, over the cells
    /// themselves, and not by a sequence of items foretold.
    open spec fn obeys_prophetic_iter_laws(&self) -> bool {
        false
    }

    open spec fn remaining(&self) -> Seq<Self::Item> {
        Seq::empty()
    }

    open spec fn will_return_none(&self) -> bool {
        true
    }

    open spec fn decrease(&self) -> Option<nat> {
        Some((self.allocator@.slots.len() - self.position) as nat)
    }

    open spec fn initial_value_relation(&self, init: &Self) -> bool {
        true
    }

    open spec fn peek(&self, index: int) -> Option<Self::Item> {
        None
    }
}

} // verus!
