//! Cursors over a component store.
//!
//! A cursor walks entity indices in ascending order and hands out the
//! components that belong to them. The joining cursors take a bitset of
//! entity indices: the plain ones yield the components whose index is in
//! the bitset, the optional ones yield, for every index in the bitset, the
//! component or nothing.

use std::rc::Rc;
use vstd::prelude::*;
use crate::bitset::{lemma_members_skip, members_from, BitSetVec};
use crate::components::untyped::{value_of, UntypedComponentStore, STORE_CAPACITY};

verus! {

/// Walks the components of a store whose entity index is in a bitset, in
/// ascending order of index.
pub struct ComponentBitsetIterator<'a, T> {
    current_id: usize,
    components: &'a UntypedComponentStore<T>,
    bitset: Rc<BitSetVec>,
}

impl<'a, T> ComponentBitsetIterator<'a, T> {
    /// A cursor at index zero.
    pub fn new(components: &'a UntypedComponentStore<T>, bitset: Rc<BitSetVec>) -> (iter: Self)
        requires
            components.wf(),
        ensures
            iter.wf(),
            iter.components() == *components,
            iter.filter() == bitset@,
            iter.position() == 0,
    {
        ComponentBitsetIterator { current_id: 0, components, bitset }
    }

    /// The store that is walked is well formed.
    pub closed spec fn wf(&self) -> bool {
        self.components.wf()
    }

    /// The store that is walked.
    pub closed spec fn components(&self) -> UntypedComponentStore<T> {
        *self.components
    }

    /// The filter: only components whose entity index is in it are yielded.
    pub closed spec fn filter(&self) -> Set<int> {
        self.bitset@
    }

    /// The index from which the walk goes on.
    pub closed spec fn position(&self) -> int {
        self.current_id as int
    }

    /// The entity indices whose components are still to come, in the order
    /// in which they come.
    pub open spec fn pending(&self) -> Seq<int> {
        members_from(
            self.components()@.dom().intersect(self.filter()),
            self.position(),
            STORE_CAPACITY as int,
        )
    }

    /// The next component, or `None` when the walk is over.
    pub fn next(&mut self) -> (r: Option<&'a T>)
        requires
            old(self).wf(),
        ensures
            final(self).wf(),
            final(self).components() == old(self).components(),
            final(self).filter() == old(self).filter(),
            r == (if old(self).pending().len() > 0 {
                Some(&old(self).components()@[old(self).pending()[0]])
            } else {
                None
            }),
            final(self).pending() == (if old(self).pending().len() > 0 {
                old(self).pending().drop_first()
            } else {
                old(self).pending()
            }),
    {
        let ghost both = self.components@.dom().intersect(self.bitset@);
        let ghost end = STORE_CAPACITY as int;
        loop
            invariant
                self.wf(),
                self.components() == old(self).components(),
                self.filter() == old(self).filter(),
                self.pending() == old(self).pending(),
                both == self.components@.dom().intersect(self.bitset@),
                end == STORE_CAPACITY,
            decreases end - self.current_id,
        {
            let found = self.components.bitset().next_set_in(self.current_id, STORE_CAPACITY);
            match found {
                None => {
                    proof {
                        if self.current_id < end {
                            lemma_members_skip(both, self.current_id as int, end, end);
                        }
                    }
                    return None;
                },
                Some(i) => {
                    proof {
                        lemma_members_skip(both, self.current_id as int, i as int, end);
                    }
                    self.current_id = i + 1;
                    if self.bitset.contains_index(i) {
                        proof {
                            let rest = members_from(both, i + 1, end);
                            assert(members_from(both, i as int, end) == seq![i as int] + rest);
                            assert((seq![i as int] + rest).drop_first() =~= rest);
                        }
                        return self.components.value_at(i);
                    }
                },
            }
        }
    }
}

/// Walks the entity indices of a bitset in ascending order and yields, for
/// each, the component that a store has for it, or nothing.
pub struct ComponentBitsetOptionalIterator<'a, T> {
    current_id: usize,
    components: &'a UntypedComponentStore<T>,
    bitset: Rc<BitSetVec>,
}

impl<'a, T> ComponentBitsetOptionalIterator<'a, T> {
    /// A cursor at index zero.
    pub fn new(components: &'a UntypedComponentStore<T>, bitset: Rc<BitSetVec>) -> (iter: Self)
        requires
            components.wf(),
        ensures
            iter.wf(),
            iter.components() == *components,
            iter.filter() == bitset@,
            iter.position() == 0,
    {
        ComponentBitsetOptionalIterator { current_id: 0, components, bitset }
    }

    /// The store that is walked is well formed.
    pub closed spec fn wf(&self) -> bool {
        self.components.wf()
    }

    /// The store that is walked.
    pub closed spec fn components(&self) -> UntypedComponentStore<T> {
        *self.components
    }

    /// The filter: every entity index in it, below the store's capacity, is
    /// visited.
    pub closed spec fn filter(&self) -> Set<int> {
        self.bitset@
    }

    /// The index from which the walk goes on.
    pub closed spec fn position(&self) -> int {
        self.current_id as int
    }

    /// The entity indices still to be visited, in the order of the visit.
    pub open spec fn pending(&self) -> Seq<int> {
        members_from(self.filter(), self.position(), STORE_CAPACITY as int)
    }

    /// The component of the next index of the bitset, or nothing if that
    /// index has none; `None` when the walk is over.
    pub fn next(&mut self) -> (r: Option<Option<&'a T>>)
        requires
            old(self).wf(),
        ensures
            final(self).wf(),
            final(self).components() == old(self).components(),
            final(self).filter() == old(self).filter(),
            match r {
                Some(Some(value)) => old(self).pending().len() > 0 && value_of(
                    old(self).components()@,
                    old(self).pending()[0],
                ) == Some(*value),
                Some(None) => old(self).pending().len() > 0 && value_of(
                    old(self).components()@,
                    old(self).pending()[0],
                ) is None,
                None => old(self).pending().len() == 0,
            },
            final(self).pending() == (if old(self).pending().len() > 0 {
                old(self).pending().drop_first()
            } else {
                old(self).pending()
            }),
    {
        let ghost end = STORE_CAPACITY as int;
        let found = self.bitset.next_set_in(self.current_id, STORE_CAPACITY);
        match found {
            None => {
                proof {
                    if self.current_id < end {
                        lemma_members_skip(self.bitset@, self.current_id as int, end, end);
                    }
                }
                None
            },
            Some(i) => {
                proof {
                    lemma_members_skip(self.bitset@, self.current_id as int, i as int, end);
                    let rest = members_from(self.bitset@, i + 1, end);
                    assert(members_from(self.bitset@, i as int, end) == seq![i as int] + rest);
                    assert((seq![i as int] + rest).drop_first() =~= rest);
                }
                self.current_id = i + 1;
                Some(self.components.value_at(i))
            },
        }
    }
}

/// Walks the components of a store whose entity index is in a bitset, in
/// ascending order of index, and lends each out to be changed in place.
///
/// The cursor holds the store borrowed; what it lends out is borrowed from
/// the cursor, so one component is out at a time.
pub struct ComponentBitsetIteratorMut<'a, T> {
    /// The index from which the walk goes on.
    pub current_id: usize,
    /// The store that is walked.
    pub components: &'a mut UntypedComponentStore<T>,
    /// The filter: only components whose entity index is in it are lent out.
    pub bitset: Rc<BitSetVec>,
}

impl<'a, T> ComponentBitsetIteratorMut<'a, T> {
    /// The entity indices whose components are still to come, in the order
    /// in which they come.
    pub open spec fn pending(&self) -> Seq<int> {
        members_from(
            self.components@.dom().intersect(self.bitset@),
            self.current_id as int,
            STORE_CAPACITY as int,
        )
    }

    /// The next component, or `None` when the walk is over.
    pub fn next(&mut self) -> (r: Option<&mut T>)
        requires
            old(self).components.wf(),
        ensures
            final(self).components.wf(),
            final(self).components.schema_model() == old(self).components.schema_model(),
            final(self).components.dense_owners() == old(self).components.dense_owners(),
            final(self).components.generations() == old(self).components.generations(),
            final(self).bitset == old(self).bitset,
            *final(final(self).components) == *final(old(self).components),
            match r {
                Some(value) => {
                    &&& old(self).pending().len() > 0
                    &&& *value == old(self).components@[old(self).pending()[0]]
                    &&& final(self).components@ == old(self).components@.insert(
                        old(self).pending()[0],
                        *final(value),
                    )
                    &&& final(self).components.dense() == old(self).components.dense().update(
                        old(self).components.slot_of(old(self).pending()[0]),
                        *final(value),
                    )
                    &&& final(self).pending() == old(self).pending().drop_first()
                },
                None => {
                    &&& old(self).pending().len() == 0
                    &&& final(self).components@ == old(self).components@
                    &&& final(self).components.dense() == old(self).components.dense()
                    &&& final(self).pending() == old(self).pending()
                },
            },
    {
        let ghost both = self.components@.dom().intersect(self.bitset@);
        let ghost end = STORE_CAPACITY as int;
        loop
            invariant
                self.components.wf(),
                *self.components == *old(self).components,
                *final(self.components) == *final(old(self).components),
                self.bitset == old(self).bitset,
                self.pending() == old(self).pending(),
                both == self.components@.dom().intersect(self.bitset@),
                end == STORE_CAPACITY,
            decreases end - self.current_id,
        {
            let found = self.components.bitset().next_set_in(self.current_id, STORE_CAPACITY);
            match found {
                None => {
                    proof {
                        if self.current_id < end {
                            lemma_members_skip(both, self.current_id as int, end, end);
                        }
                    }
                    return None;
                },
                Some(i) => {
                    proof {
                        lemma_members_skip(both, self.current_id as int, i as int, end);
                    }
                    self.current_id = i + 1;
                    if self.bitset.contains_index(i) {
                        proof {
                            let rest = members_from(both, i + 1, end);
                            assert(members_from(both, i as int, end) == seq![i as int] + rest);
                            assert((seq![i as int] + rest).drop_first() =~= rest);
                        }
                        let r = self.components.value_at_mut(i);
                        proof {
                            let after = after_borrow(*self.components)@;
                            assert(after.dom() =~= old(self).components@.dom());
                        }
                        return r;
                    }
                },
            }
        }
    }
}

/// Walks the entity indices of a bitset in ascending order and lends out,
/// for each, the component that a store has for it, or nothing.
///
/// The cursor holds the store borrowed; what it lends out is borrowed from
/// the cursor, so one component is out at a time.
pub struct ComponentBitsetOptionalIteratorMut<'a, T> {
    /// The index from which the walk goes on.
    pub current_id: usize,
    /// The store that is walked.
    pub components: &'a mut UntypedComponentStore<T>,
    /// The filter: every entity index in it, below the store's capacity, is
    /// visited.
    pub bitset: Rc<BitSetVec>,
}

impl<'a, T> ComponentBitsetOptionalIteratorMut<'a, T> {
    /// The entity indices still to be visited, in the order of the visit.
    pub open spec fn pending(&self) -> Seq<int> {
        members_from(self.bitset@, self.current_id as int, STORE_CAPACITY as int)
    }

    /// The component of the next index of the bitset, or nothing if that
    /// index has none; `None` when the walk is over.
    pub fn next(&mut self) -> (r: Option<Option<&mut T>>)
        requires
            old(self).components.wf(),
        ensures
            final(self).components.wf(),
            final(self).components.schema_model() == old(self).components.schema_model(),
            final(self).components.dense_owners() == old(self).components.dense_owners(),
            final(self).components.generations() == old(self).components.generations(),
            final(self).bitset == old(self).bitset,
            *final(final(self).components) == *final(old(self).components),
            match r {
                Some(Some(value)) => {
                    &&& old(self).pending().len() > 0
                    &&& old(self).components@.dom().contains(old(self).pending()[0])
                    &&& *value == old(self).components@[old(self).pending()[0]]
                    &&& final(self).components@ == old(self).components@.insert(
                        old(self).pending()[0],
                        *final(value),
                    )
                    &&& final(self).components.dense() == old(self).components.dense().update(
                        old(self).components.slot_of(old(self).pending()[0]),
                        *final(value),
                    )
                    &&& final(self).pending() == old(self).pending().drop_first()
                },
                Some(None) => {
                    &&& old(self).pending().len() > 0
                    &&& !old(self).components@.dom().contains(old(self).pending()[0])
                    &&& final(self).components@ == old(self).components@
                    &&& final(self).components.dense() == old(self).components.dense()
                    &&& final(self).pending() == old(self).pending().drop_first()
                },
                None => {
                    &&& old(self).pending().len() == 0
                    &&& final(self).components@ == old(self).components@
                    &&& final(self).components.dense() == old(self).components.dense()
                    &&& final(self).pending() == old(self).pending()
                },
            },
    {
        let ghost end = STORE_CAPACITY as int;
        let found = self.bitset.next_set_in(self.current_id, STORE_CAPACITY);
        match found {
            None => {
                proof {
                    if self.current_id < end {
                        lemma_members_skip(self.bitset@, self.current_id as int, end, end);
                    }
                }
                None
            },
            Some(i) => {
                proof {
                    lemma_members_skip(self.bitset@, self.current_id as int, i as int, end);
                    let rest = members_from(self.bitset@, i + 1, end);
                    assert(members_from(self.bitset@, i as int, end) == seq![i as int] + rest);
                    assert((seq![i as int] + rest).drop_first() =~= rest);
                }
                self.current_id = i + 1;
                Some(self.components.value_at_mut(i))
            },
        }
    }
}

/// Walks the values of a store in the order of their slots and lends each
/// out to be changed in place.
///
/// The cursor holds the store borrowed; what it lends out is borrowed from
/// the cursor, so one component is out at a time.
pub struct ComponentIteratorMut<'a, T> {
    /// The slot from which the walk goes on.
    pub slot: usize,
    /// The store that is walked.
    pub components: &'a mut UntypedComponentStore<T>,
}

impl<'a, T> ComponentIteratorMut<'a, T> {
    /// The value of the next slot, or `None` when the walk is over.
    pub fn next(&mut self) -> (r: Option<&mut T>)
        requires
            old(self).components.wf(),
        ensures
            final(self).components.wf(),
            final(self).components.schema_model() == old(self).components.schema_model(),
            final(self).components.dense_owners() == old(self).components.dense_owners(),
            final(self).components.generations() == old(self).components.generations(),
            *final(final(self).components) == *final(old(self).components),
            match r {
                Some(value) => {
                    &&& old(self).slot < old(self).components.dense().len()
                    &&& *value == old(self).components.dense()[old(self).slot as int]
                    &&& final(self).components.dense() == old(self).components.dense().update(
                        old(self).slot as int,
                        *final(value),
                    )
                    &&& final(self).components@ == old(self).components@.insert(
                        old(self).components.dense_owners()[old(self).slot as int].index() as int,
                        *final(value),
                    )
                    &&& final(self).slot == old(self).slot + 1
                },
                None => {
                    &&& old(self).slot >= old(self).components.dense().len()
                    &&& final(self).components@ == old(self).components@
                    &&& final(self).components.dense() == old(self).components.dense()
                    &&& final(self).slot == old(self).slot
                },
            },
    {
        if self.slot < self.components.len() {
            let slot = self.slot;
            self.slot = slot + 1;
            Some(self.components.dense_mut(slot))
        } else {
            None
        }
    }
}

} // verus!
