//! A value store in memory: a sparse array parallel to the slot table.

use vstd::prelude::*;
use crate::allocator::{Allocator, DEFAULT_CAPACITY};
use crate::capacity::capacity_of;
use crate::index::Index;
use crate::iter::Iter;
use crate::iter_mut::IterMut;
use crate::store::{Entry, StoreState, PADDING};

verus! {

/// Holds the values of one kind, each at the slot of the handle it was
/// stored under and tagged with that handle's generation.
#[derive(Debug)]
pub struct IndexedArray<T> {
    list: Vec<Option<Entry<T>>>,
}

impl<T> View for IndexedArray<T> {
    type V = StoreState<T>;

    closed spec fn view(&self) -> StoreState<T> {
        StoreState { cells: self.list@ }
    }
}

/// Appends empty cells to `list` until it has `len` of them.
fn pad_to<T>(list: &mut Vec<Option<Entry<T>>>, len: usize)
    ensures
        (StoreState { cells: final(list)@ }) == (StoreState { cells: old(list)@ }).padded(len as int),
{
    let ghost before = StoreState { cells: list@ };
    while list.len() < len
        invariant
            list@.len() >= before.cells.len(),
            list@.len() > before.cells.len() ==> list@.len() <= len,
            (StoreState { cells: list@ }) == before.padded(list@.len() as int),
        decreases len - list@.len(),
    {
        list.push(None);
        assert((StoreState { cells: list@ }) =~= before.padded(list@.len() as int));
    }
    assert((StoreState { cells: list@ }) =~= before.padded(len as int));
}

impl<T> IndexedArray<T> {
    /// The cells of a store in memory can be numbered by the machine.
    pub proof fn lemma_view_wf(&self)
        ensures
            self@.wf(),
    {
        assert(self.list.len() == self.list@.len());
    }

    pub fn new() -> (r: Self)
        ensures
            r@ == StoreState::<T>::empty(),
    {
        let r = IndexedArray { list: Vec::<Option<Entry<T>>>::with_capacity(DEFAULT_CAPACITY) };
        assert(r@ =~= StoreState::<T>::empty());
        r
    }

    /// Writes `value` under `index`, over whatever the cell held. Liveness
    /// is not looked at.
    pub fn set(&mut self, index: &Index, value: T)
        requires
            index.index >= old(self)@.cells.len() ==> index.index + PADDING <= usize::MAX,
        ensures
            final(self)@ == old(self)@.set(*index, value),
            final(self)@.get(*index) == Some(value),
    {
        let i = index.index;

        // Room is asked for by doubling; the cells themselves are grown to
        // the slot and a fixed padding beyond it.
        let capacity = capacity_of(&self.list);
        if i >= capacity {
            self.list.reserve(capacity);
        }
        if i >= self.list.len() {
            pad_to(&mut self.list, i + PADDING);
        }
        self.list.set(i, Some(Entry { version: index.version, value }));
        assert(self@ =~= old(self)@.set(*index, value));
    }

    /// Clears the cell at `index`'s slot, whatever generation it carries.
    pub fn unset(&mut self, index: &Index)
        ensures
            final(self)@ == old(self)@.unset(*index),
            final(self)@.get(*index) is None,
    {
        let i = index.index;

        if i >= self.list.len() {
            return ;
        }
        self.list.set(i, None);
        assert(self@ =~= old(self)@.unset(*index));
    }

    /// What the cell at `index`'s slot holds under `index`'s generation,
    /// whether or not `index` is live: the counterpart of `set`, which
    /// writes without looking at liveness.
    pub fn get_tagged(&self, index: &Index) -> (r: Option<&T>)
        ensures
            r is Some <==> self@.holds(*index),
            r is Some ==> *r.unwrap() == self@.get(*index).unwrap(),
    {
        if index.index < self.list.len() {
            match &self.list[index.index] {
                Some(entry) => {
                    if entry.version == index.version {
                        Some(&entry.value)
                    } else {
                        None
                    }
                },
                None => None,
            }
        } else {
            None
        }
    }

    /// The value stored under `index`, if `index` is live and the cell at
    /// its slot holds a value with its generation. A handle that has been
    /// retired finds nothing, though its cell may still hold what was
    /// stored under it.
    pub fn get(&self, allocator: &Allocator, index: &Index) -> (r: Option<&T>)
        ensures
            r is Some <==> self@.live_get(allocator@, *index) is Some,
            r is Some ==> *r.unwrap() == self@.live_get(allocator@, *index).unwrap(),
    {
        if !allocator.validate(index) {
            return None;
        }
        self.get_tagged(index)
    }

    /// The value stored under `index`, to be changed in place, if `index`
    /// is live and the cell at its slot holds a value with its generation;
    /// nothing for a handle that has been retired. The store ends as it was
    /// but for that value.
    pub fn get_mut(&mut self, allocator: &Allocator, index: &Index) -> (r: Option<&mut T>)
        ensures
            r is Some <==> old(self)@.live_get(allocator@, *index) is Some,
            r is Some ==> *r.unwrap() == old(self)@.live_get(allocator@, *index).unwrap(),
            r is Some ==> final(self)@ == old(self)@.set(*index, *final(r.unwrap())),
            r is None ==> final(self)@ == old(self)@,
    {
        if !allocator.validate(index) {
            return None;
        }
        if index.index < self.list.len() {
            match &mut self.list[index.index] {
                Some(entry) => {
                    if entry.version == index.version {
                        Some(&mut entry.value)
                    } else {
                        None
                    }
                },
                None => None,
            }
        } else {
            None
        }
    }

    /// The live handles that have a value in this store, by slot.
    pub fn get_entities(&self, allocator: &Allocator) -> (r: Vec<Index>)
        ensures
            r@ == self@.entities(allocator@),
    {
        let mut found: Vec<Index> = Vec::new();
        let mut i: usize = 0;
        while i < self.list.len()
            invariant
                i <= self.list@.len(),
                found@ == self@.entities_upto(allocator@, i as int),
            decreases self.list@.len() - i,
        {
            match &self.list[i] {
                Some(entry) => {
                    let index = Index { index: i, version: entry.version };
                    if allocator.validate(&index) {
                        found.push(index);
                    }
                },
                None => {},
            }
            i += 1;
        }
        found
    }

    /// A walk that yields, by slot, each handle that `allocator` holds
    /// live, with the value stored under it here, if there is one.
    pub fn iter<'a>(&'a self, allocator: &'a Allocator) -> (r: Iter<'a, T>)
        ensures
            r.wf(),
            r.store() == self@,
            r.arena() == allocator@,
            r.cursor() == 0,
            r.upcoming() == self@.items(allocator@),
    {
        Iter::<T>::new(allocator, self.list.as_slice())
    }

    /// A walk that yields, by slot, each handle that `allocator` holds
    /// live, with the value stored under it here, if there is one, to be
    /// changed in place. The store ends with what the walk leaves in its
    /// cells.
    pub fn iter_mut<'a>(&'a mut self, allocator: &'a Allocator) -> (r: IterMut<'a, T>)
        ensures
            r.wf(),
            r.allocator == allocator,
            r.position == 0,
            r.inner@ == old(self)@.cells,
            final(r.inner)@ == final(self)@.cells,
    {
        IterMut::<T>::new(allocator, self.list.as_mut_slice())
    }
}

} // verus!
