//! The typed face of a component store.

use std::rc::Rc;
use vstd::prelude::*;
use vstd::std_specs::convert::TryFromSpecImpl;
use crate::bitset::{BitSetVec, BITSET_SLICE_COUNT};
use crate::components::iterator::{
    ComponentBitsetIterator, ComponentBitsetIteratorMut, ComponentBitsetOptionalIterator,
    ComponentBitsetOptionalIteratorMut, ComponentIteratorMut,
};
use crate::components::persist::{entries_of, in_range, map_of};
use crate::components::untyped::{distinct_entities, held, UntypedComponentStore, STORE_CAPACITY};
use crate::entities::Entity;
use crate::schema::{HasSchema, Schema, SchemaMismatchError};

verus! {

/// A typed wrapper around [`UntypedComponentStore`]: a store of which it is
/// known, once and for all, that its schema is the schema of `T`.
pub struct ComponentStore<T: HasSchema> {
    untyped: UntypedComponentStore<T>,
}

impl<T: HasSchema> View for ComponentStore<T> {
    type V = Map<int, T>;

    /// A store stands for the map from entity index to component.
    closed spec fn view(&self) -> Map<int, T> {
        self.untyped@
    }
}

impl<T: HasSchema> ComponentStore<T> {
    /// The store that is wrapped.
    pub closed spec fn as_untyped(&self) -> UntypedComponentStore<T> {
        self.untyped
    }

    /// The typed store that wraps `untyped`.
    pub closed spec fn wrap(untyped: UntypedComponentStore<T>) -> ComponentStore<T> {
        ComponentStore { untyped }
    }

    /// For each entity index that has a component, the generation of the
    /// entity that the component was inserted for.
    pub open spec fn generations(&self) -> Map<int, u32> {
        self.as_untyped().generations()
    }

    /// The components in the order of their slots: the order of `iter`.
    pub open spec fn dense(&self) -> Seq<T> {
        self.as_untyped().dense()
    }

    /// For each slot, the entity that its component was inserted for.
    pub open spec fn dense_owners(&self) -> Seq<Entity> {
        self.as_untyped().dense_owners()
    }

    /// The slot that holds the component of `index`.
    pub open spec fn slot_of(&self, index: int) -> int {
        self.as_untyped().slot_of(index)
    }

    /// What the store has for an entity: the component of its index, if
    /// that was inserted at the entity's generation. A handle of another
    /// generation has nothing.
    pub open spec fn component_of(&self, entity: Entity) -> Option<T> {
        held(self@, self.generations(), entity)
    }

    /// Whether the store has a component for the entity.
    pub open spec fn holds(&self, entity: Entity) -> bool {
        self.component_of(entity) is Some
    }

    /// What the store holds, index by index: the generation that the
    /// component was inserted at, and the component.
    pub open spec fn content(&self) -> Map<int, (u32, T)> {
        Map::new(
            |index: int| self@.dom().contains(index),
            |index: int| (self.generations()[index], self@[index]),
        )
    }

    /// The wrapped store is well formed and its schema is the schema of `T`.
    pub open spec fn wf(&self) -> bool {
        &&& self.as_untyped().wf()
        &&& self.as_untyped().schema_model() == T::schema_model()
    }

    /// Wrapping and unwrapping undo each other, and the typed store stands
    /// for the same map as the store it wraps.
    pub proof fn lemma_wrap(untyped: UntypedComponentStore<T>)
        ensures
            Self::wrap(untyped).as_untyped() == untyped,
            Self::wrap(untyped)@ == untyped@,
    {
    }

    /// A store is the wrapper of the store it wraps.
    pub proof fn lemma_unwrap(&self)
        ensures
            Self::wrap(self.as_untyped()) == *self,
            self@ == self.as_untyped()@,
    {
    }
}

impl<T: HasSchema> Default for ComponentStore<T> {
    /// An empty store for components of type `T`.
    fn default() -> (store: Self)
        ensures
            store.wf(),
            store@ == Map::<int, T>::empty(),
            store.generations() == Map::<int, u32>::empty(),
            store.dense() == Seq::<T>::empty(),
            store.dense_owners() == Seq::<Entity>::empty(),
    {
        ComponentStore { untyped: UntypedComponentStore::for_type() }
    }
}

impl<T: HasSchema> TryFromSpecImpl<UntypedComponentStore<T>> for ComponentStore<T> {
    open spec fn obeys_try_from_spec() -> bool {
        true
    }

    /// The conversion succeeds exactly when the schema of the store is the
    /// schema of `T`, and then wraps the store as it is.
    open spec fn try_from_spec(untyped: UntypedComponentStore<T>) -> Result<
        Self,
        SchemaMismatchError,
    > {
        if untyped.schema_model() == T::schema_model() {
            Ok(Self::wrap(untyped))
        } else {
            Err(SchemaMismatchError)
        }
    }
}

impl<T: HasSchema> TryFrom<UntypedComponentStore<T>> for ComponentStore<T> {
    type Error = SchemaMismatchError;

    /// Wraps an untyped store, or fails if its schema is not that of `T`.
    fn try_from(untyped: UntypedComponentStore<T>) -> (r: Result<Self, SchemaMismatchError>) {
        if untyped.schema().same_as(&T::schema()) {
            Ok(ComponentStore { untyped })
        } else {
            Err(SchemaMismatchError)
        }
    }
}

impl<T: HasSchema> ComponentStore<T> {
    /// Converts to the internal, untyped store.
    pub fn into_untyped(self) -> (untyped: UntypedComponentStore<T>)
        ensures
            untyped == self.as_untyped(),
            untyped@ == self@,
    {
        self.untyped
    }

    /// Creates a [`ComponentStore`] from an [`UntypedComponentStore`] whose
    /// schema is the schema of `T`.
    pub fn from_untyped(untyped: UntypedComponentStore<T>) -> (store: Self)
        requires
            untyped.schema_model() == T::schema_model(),
        ensures
            store == Self::wrap(untyped),
            store.as_untyped() == untyped,
            store@ == untyped@,
    {
        ComponentStore { untyped }
    }

    /// Inserts a component for the given `Entity`.
    /// Returns the previous component of the entity, if any. The index of
    /// the entity then belongs to it: a component that was inserted there
    /// for another generation is replaced, in its slot, and dropped.
    pub fn insert(&mut self, entity: Entity, component: T) -> (previous: Option<T>)
        requires
            old(self).wf(),
            entity.index() < STORE_CAPACITY,
        ensures
            final(self).wf(),
            final(self)@ == old(self)@.insert(entity.index() as int, component),
            final(self).generations() == old(self).generations().insert(
                entity.index() as int,
                entity.generation(),
            ),
            previous == old(self).component_of(entity),
            old(self)@.dom().contains(entity.index() as int) ==> final(self).dense() == old(self).dense().update(old(self).slot_of(entity.index() as int), component) && final(self).dense_owners() == old(self).dense_owners().update(
                old(self).slot_of(entity.index() as int),
                entity,
            ),
            !old(self)@.dom().contains(entity.index() as int) ==> final(self).dense() == old(self).dense().push(component) && final(self).dense_owners() == old(self).dense_owners().push(entity),
    {
        self.untyped.insert(entity, component)
    }

    /// Gets an immutable reference to the component of `Entity`. A handle
    /// whose generation is not the one the component was inserted at gets
    /// nothing.
    pub fn get(&self, entity: Entity) -> (r: Option<&T>)
        requires
            self.wf(),
        ensures
            match r {
                Some(value) => self.holds(entity) && *value == self@[entity.index() as int],
                None => !self.holds(entity),
            },
    {
        self.untyped.get(entity)
    }

    /// Gets a mutable reference to the component of `Entity`.
    pub fn get_mut(&mut self, entity: Entity) -> (r: Option<&mut T>)
        requires
            old(self).wf(),
        ensures
            final(self).wf(),
            final(self).generations() == old(self).generations(),
            final(self).dense_owners() == old(self).dense_owners(),
            match r {
                Some(value) => {
                    &&& old(self).holds(entity)
                    &&& *value == old(self)@[entity.index() as int]
                    &&& final(self)@ == old(self)@.insert(entity.index() as int, *final(value))
                    &&& final(self).dense() == old(self).dense().update(
                        old(self).slot_of(entity.index() as int),
                        *final(value),
                    )
                },
                None => {
                    &&& !old(self).holds(entity)
                    &&& final(self)@ == old(self)@
                    &&& final(self).dense() == old(self).dense()
                },
            },
    {
        self.untyped.get_mut(entity)
    }

    /// Get mutable references to the component data for multiple entities at the same time.
    ///
    /// No entity may be named twice: that would mean two mutable references
    /// to the same component data at the same time.
    pub fn get_many_mut<const N: usize>(&mut self, entities: [Entity; N]) -> (r: [Option<&mut T>; N])
        requires
            old(self).wf(),
            distinct_entities(entities@),
        ensures
            final(self).wf(),
            final(self).generations() == old(self).generations(),
            final(self).dense_owners() == old(self).dense_owners(),
            final(self)@.dom() == old(self)@.dom(),
            final(self).dense().len() == old(self).dense().len(),
            forall|k: int| 0 <= k < N ==> (r[k] is Some <==> old(self).holds(entities[k])),
            forall|k: int|
                0 <= k < N && r[k] is Some ==> *r[k].unwrap() == old(self)@[entities[k].index() as int]
                    && final(self)@[entities[k].index() as int] == *final(r[k].unwrap()),
            forall|index: int|
                old(self)@.dom().contains(index) && (forall|k: int|
                    0 <= k < N && old(self).holds(entities[k]) ==> entities[k].index() != index)
                    ==> final(self)@[index] == old(self)@[index],
    {
        self.untyped.get_many_mut(entities)
    }

    /// Removes the component of `Entity`.
    /// Returns `Some(T)` if the entity did have the component.
    /// Returns `None` if the entity did not have the component; the store
    /// is then left as it was.
    pub fn remove(&mut self, entity: Entity) -> (previous: Option<T>)
        requires
            old(self).wf(),
        ensures
            final(self).wf(),
            previous == old(self).component_of(entity),
            previous is Some ==> {
                &&& final(self)@ == old(self)@.remove(entity.index() as int)
                &&& final(self).generations() == old(self).generations().remove(
                    entity.index() as int,
                )
                &&& final(self).dense() == old(self).dense().update(
                    old(self).slot_of(entity.index() as int),
                    old(self).dense().last(),
                ).drop_last()
                &&& final(self).dense_owners() == old(self).dense_owners().update(
                    old(self).slot_of(entity.index() as int),
                    old(self).dense_owners().last(),
                ).drop_last()
            },
            previous is None ==> {
                &&& final(self)@ == old(self)@
                &&& final(self).generations() == old(self).generations()
                &&& final(self).dense() == old(self).dense()
                &&& final(self).dense_owners() == old(self).dense_owners()
            },
    {
        self.untyped.remove(entity)
    }

    /// The entries of the store: each entity index that has a component,
    /// with the generation that the component was inserted at and the
    /// component, in ascending order of index. This is what is written out
    /// when the store is stored.
    pub fn entries(&self) -> (entries: Vec<(u32, u32, &T)>)
        requires
            self.wf(),
        ensures
            entries@.len() == entries_of(self.content(), 0, STORE_CAPACITY as int).len(),
            forall|k: int|
                0 <= k < entries@.len() ==> {
                    let entry = #[trigger] entries@[k];
                    let written = entries_of(self.content(), 0, STORE_CAPACITY as int)[k];
                    entry.0 == written.0 && entry.1 == written.1 && *entry.2 == written.2
                },
    {
        self.untyped.entries()
    }

    /// Replaces what the store holds by the given entries, if the schema
    /// that came with them is the schema of `T`; else fails and leaves the
    /// store as it is. Every entry names an index that a store has room
    /// for.
    pub fn load(&mut self, schema: &Schema, entries: Vec<(u32, u32, T)>) -> (r: Result<
        (),
        SchemaMismatchError,
    >)
        requires
            old(self).wf(),
            in_range(entries@),
        ensures
            final(self).wf(),
            r is Ok <==> schema@ == T::schema_model(),
            r is Ok ==> final(self).content() == map_of(entries@),
            r is Err ==> final(self)@ == old(self)@ && final(self).generations() == old(self).generations() && final(self).dense() == old(self).dense() && final(self).dense_owners() == old(self).dense_owners(),
    {
        self.untyped.load(schema, entries)
    }

    /// Iterates immutably over all components of this type.
    /// Very fast but doesn't allow joining with other component types.
    pub fn iter(&self) -> (r: std::slice::Iter<'_, T>)
        requires
            self.wf(),
        ensures
            vstd::std_specs::iter::IteratorSpec::remaining(&r) == self.dense().as_ref(),
    {
        self.untyped.iter()
    }

    /// Iterates mutably over all components of this type.
    /// Very fast but doesn't allow joining with other component types.
    pub fn iter_mut(&mut self) -> (iter: ComponentIteratorMut<'_, T>)
        requires
            old(self).wf(),
        ensures
            iter.slot == 0,
            *iter.components == old(self).as_untyped(),
            *final(self) == Self::wrap(*final(iter.components)),
    {
        ComponentIteratorMut { slot: 0, components: &mut self.untyped }
    }
}

/// This trait factors out functions for iterating with bitset over component store.
/// Separated from `impl ComponentStore` for usage in generic trait types that must
/// be able to create [`ComponentBitsetIterator`] and related types.
///
/// Implemented for [`ComponentStore`].
pub trait ComponentIterBitset<'a, T: HasSchema> {
    /// The store that the methods read and change.
    spec fn store(&self) -> ComponentStore<T>;

    /// Iterates immutably over the components of this type where `bitset`
    /// indicates the indices of entities.
    /// Slower than `iter()` but allows joining between multiple component types.
    fn iter_with_bitset(&self, bitset: Rc<BitSetVec>) -> (iter: ComponentBitsetIterator<'_, T>)
        requires
            self.store().wf(),
        ensures
            iter.wf(),
            iter.components() == self.store().as_untyped(),
            iter.filter() == bitset@,
            iter.position() == 0,
    ;

    /// Iterates immutably over the components of this type where `bitset`
    /// indicates the indices of entities; an entity of the bitset that has
    /// no component yields nothing instead.
    fn iter_with_bitset_optional(&self, bitset: Rc<BitSetVec>) -> (iter:
        ComponentBitsetOptionalIterator<'_, T>)
        requires
            self.store().wf(),
        ensures
            iter.wf(),
            iter.components() == self.store().as_untyped(),
            iter.filter() == bitset@,
            iter.position() == 0,
    ;

    /// Iterates mutable over the components of this type where `bitset`
    /// indicates the indices of entities.
    /// Slower than `iter()` but allows joining between multiple component types.
    fn iter_mut_with_bitset(&mut self, bitset: Rc<BitSetVec>) -> (iter: ComponentBitsetIteratorMut<
        '_,
        T,
    >)
        requires
            old(self).store().wf(),
        ensures
            iter.current_id == 0,
            iter.bitset == bitset,
            *iter.components == old(self).store().as_untyped(),
            final(self).store() == ComponentStore::wrap(*final(iter.components)),
    ;

    /// Iterates mutably over the components of this type where `bitset`
    /// indicates the indices of entities; an entity of the bitset that has
    /// no component yields nothing instead.
    fn iter_mut_with_bitset_optional(&mut self, bitset: Rc<BitSetVec>) -> (iter:
        ComponentBitsetOptionalIteratorMut<'_, T>)
        requires
            old(self).store().wf(),
        ensures
            iter.current_id == 0,
            iter.bitset == bitset,
            *iter.components == old(self).store().as_untyped(),
            final(self).store() == ComponentStore::wrap(*final(iter.components)),
    ;

    /// Get bitset of [`ComponentStore`] / implementor.
    fn bitset(&self) -> (bits: &BitSetVec)
        requires
            self.store().wf(),
        ensures
            bits@ == self.store()@.dom(),
            bits.0@.len() == BITSET_SLICE_COUNT,
    ;

    /// Check whether or not this component store has data for the given entity.
    fn contains(&self, entity: Entity) -> (r: bool)
        requires
            self.store().wf(),
        ensures
            r == self.store().holds(entity),
    ;

    /// Get [`ComponentStore`] for usage with generic types implementing [`ComponentIterBitset`].
    fn component_store(&self) -> (store: &ComponentStore<T>)
        ensures
            *store == self.store(),
    ;
}

impl<'a, T: HasSchema> ComponentIterBitset<'a, T> for ComponentStore<T> {
    open spec fn store(&self) -> ComponentStore<T> {
        *self
    }

    fn iter_with_bitset(&self, bitset: Rc<BitSetVec>) -> (iter: ComponentBitsetIterator<'_, T>) {
        ComponentBitsetIterator::new(&self.untyped, bitset)
    }

    fn iter_with_bitset_optional(&self, bitset: Rc<BitSetVec>) -> (iter:
        ComponentBitsetOptionalIterator<'_, T>) {
        ComponentBitsetOptionalIterator::new(&self.untyped, bitset)
    }

    fn iter_mut_with_bitset(&mut self, bitset: Rc<BitSetVec>) -> (iter: ComponentBitsetIteratorMut<
        '_,
        T,
    >) {
        ComponentBitsetIteratorMut { current_id: 0, components: &mut self.untyped, bitset }
    }

    fn iter_mut_with_bitset_optional(&mut self, bitset: Rc<BitSetVec>) -> (iter:
        ComponentBitsetOptionalIteratorMut<'_, T>) {
        ComponentBitsetOptionalIteratorMut { current_id: 0, components: &mut self.untyped, bitset }
    }

    fn bitset(&self) -> (bits: &BitSetVec) {
        self.untyped.bitset()
    }

    fn contains(&self, entity: Entity) -> (r: bool) {
        self.untyped.contains(entity)
    }

    fn component_store(&self) -> (store: &ComponentStore<T>) {
        self
    }
}

} // verus!
