//! The store that holds the values of one component type.
//!
//! The values lie densely in one buffer. A presence bitset says which entity
//! indices have a value, a sparse array leads from an entity index to the
//! slot of its value, and a dense array leads from a slot back to the entity
//! index that owns it. Removing a value moves the last value into the freed
//! slot.
//!
//! With each value the store keeps the entity that it was inserted for. A
//! handle to the same index of another generation finds nothing: it is
//! answered as an entity without a component. The presence bitset and the
//! walks over bitsets go by the index, as joins do.

use vstd::prelude::*;
use crate::bitset::{create_bitset, BitSetVec, BITSET_SLICE_COUNT};
use crate::components::disjoint::get_disjoint_mut;
use crate::entities::Entity;
use crate::schema::{HasSchema, Schema, SchemaModel};

verus! {

/// The number of entity indices that a store has room for.
pub const STORE_CAPACITY: usize = 524288;

/// Whether no entity is named twice.
pub open spec fn distinct_entities(entities: Seq<Entity>) -> bool {
    forall|j: int, k: int| 0 <= j < k < entities.len() ==> entities[j] != entities[k]
}

/// A list that names an entity twice is no list of distinct entities: it is
/// what asking for several mutable references at once does not take.
pub proof fn lemma_repeated_entity_is_refused(entities: Seq<Entity>, i: int, j: int)
    requires
        0 <= i < entities.len(),
        0 <= j < entities.len(),
        i != j,
        entities[i] == entities[j],
    ensures
        !distinct_entities(entities),
{
    if i < j {
        assert(entities[i] == entities[j]);
    } else {
        assert(entities[j] == entities[i]);
    }
}

/// What a map from entity index to component has for an index: the
/// component, or nothing.
pub open spec fn value_of<T>(map: Map<int, T>, index: int) -> Option<T> {
    if map.dom().contains(index) {
        Some(map[index])
    } else {
        None
    }
}

/// What is held for an entity, given the components by index and the
/// generation that each was inserted at: the component of the entity's
/// index if it was inserted at the entity's generation, else nothing.
pub open spec fn held<T>(values: Map<int, T>, generations: Map<int, u32>, entity: Entity) -> Option<
    T,
> {
    if values.dom().contains(entity.index() as int) && generations[entity.index() as int]
        == entity.generation() {
        Some(values[entity.index() as int])
    } else {
        None
    }
}

/// What is inserted for an entity is what is found for it afterwards, and
/// nothing is found for a handle to the same index of another generation;
/// after a removal nothing is found for the entity; neither touches what an
/// entity on another index has.
pub proof fn lemma_insert_get_remove<T>(
    values: Map<int, T>,
    generations: Map<int, u32>,
    entity: Entity,
    value: T,
    stale: Entity,
    other: Entity,
)
    requires
        stale.index() == entity.index(),
        stale.generation() != entity.generation(),
        other.index() != entity.index(),
    ensures
        held(
            values.insert(entity.index() as int, value),
            generations.insert(entity.index() as int, entity.generation()),
            entity,
        ) == Some(value),
        held(
            values.insert(entity.index() as int, value),
            generations.insert(entity.index() as int, entity.generation()),
            stale,
        ) == None::<T>,
        held(
            values.remove(entity.index() as int),
            generations.remove(entity.index() as int),
            entity,
        ) == None::<T>,
        !values.remove(entity.index() as int).dom().contains(entity.index() as int),
        held(
            values.insert(entity.index() as int, value),
            generations.insert(entity.index() as int, entity.generation()),
            other,
        ) == held(values, generations, other),
        held(
            values.remove(entity.index() as int),
            generations.remove(entity.index() as int),
            other,
        ) == held(values, generations, other),
{
}

/// Whether no entity is named twice. A caller that cannot rule out a
/// repeated entity asks this before it asks for several mutable references
/// at once.
pub fn has_distinct_entities<const N: usize>(entities: &[Entity; N]) -> (r: bool)
    ensures
        r == distinct_entities(entities@),
{
    let mut k: usize = 0;
    while k < N
        invariant
            k <= N,
            forall|i: int, j: int| 0 <= i < j < k ==> entities[i] != entities[j],
        decreases N - k,
    {
        let mut j: usize = 0;
        while j < k
            invariant
                j <= k < N,
                forall|i: int| 0 <= i < j ==> entities[i] != entities[k as int],
            decreases k - j,
        {
            if entities[j].index() == entities[k].index() && entities[j].generation()
                == entities[k].generation() {
                proof {
                    Entity::lemma_equal(entities[j as int], entities[k as int]);
                }
                return false;
            }
            proof {
                Entity::lemma_equal(entities[j as int], entities[k as int]);
            }
            j += 1;
        }
        k += 1;
    }
    true
}

/// Holds the components of one type.
///
/// The store does not ask what `T` is. It keeps the values as they are
/// given to it and carries the schema that it was made with; whether that
/// schema is the schema of `T` is for the typed store to say.
pub struct UntypedComponentStore<T> {
    schema: Schema,
    bitset: BitSetVec,
    storage: Vec<T>,
    owners: Vec<Entity>,
    slots: Vec<usize>,
}

impl<T> View for UntypedComponentStore<T> {
    type V = Map<int, T>;

    /// A store stands for the map from entity index to component.
    closed spec fn view(&self) -> Map<int, T> {
        Map::new(
            |index: int| self.bitset@.contains(index),
            |index: int| self.storage@[self.slots@[index] as int],
        )
    }
}

impl<T> UntypedComponentStore<T> {
    /// The presence bitset and the two index arrays agree: an index has its
    /// bit set exactly when a slot holds its value, the slot's owner has
    /// that index, and every slot is owned.
    pub closed spec fn wf(&self) -> bool {
        &&& self.bitset.0@.len() == BITSET_SLICE_COUNT
        &&& self.storage@.len() == self.owners@.len()
        &&& forall|slot: int|
            0 <= slot < self.owners@.len() ==> {
                let owner = (#[trigger] self.owners@[slot]).index() as int;
                &&& self.bitset@.contains(owner)
                &&& owner < self.slots@.len()
                &&& self.slots@[owner] == slot
            }
        &&& forall|index: int| #[trigger]
            self.bitset@.contains(index) ==> {
                &&& 0 <= index < self.slots@.len()
                &&& self.slots@[index] < self.owners@.len()
                &&& self.owners@[self.slots@[index] as int].index() == index
            }
    }

    /// The schema of the values, as a model.
    pub closed spec fn schema_model(&self) -> SchemaModel {
        self.schema@
    }

    /// The set of the entity indices that have a value.
    pub closed spec fn presence(&self) -> Set<int> {
        self.bitset@
    }

    /// For each entity index that has a value, the generation of the entity
    /// that the value was inserted for.
    pub closed spec fn generations(&self) -> Map<int, u32> {
        Map::new(
            |index: int| self.bitset@.contains(index),
            |index: int| self.owners@[self.slots@[index] as int].generation(),
        )
    }

    /// The values in the order of their slots.
    pub closed spec fn dense(&self) -> Seq<T> {
        self.storage@
    }

    /// For each slot, the entity that its value was inserted for.
    pub closed spec fn dense_owners(&self) -> Seq<Entity> {
        self.owners@
    }

    /// The slot that holds the value of `index`.
    pub closed spec fn slot_of(&self, index: int) -> int {
        self.slots@[index] as int
    }

    /// What the store has for an entity: the component of its index, if
    /// that was inserted at the entity's generation. A handle of another
    /// generation has nothing.
    pub open spec fn component_of(&self, entity: Entity) -> Option<T> {
        held(self@, self.generations(), entity)
    }

    /// Whether the store has a component for the entity: its index has one
    /// and it was inserted at the entity's generation.
    pub open spec fn holds(&self, entity: Entity) -> bool {
        self.component_of(entity) is Some
    }

    /// What the store holds, index by index: the generation that the
    /// component was inserted at, and the component.
    pub open spec fn content(&self) -> Map<int, (u32, T)> {
        Map::new(
            |index: int| self@.dom().contains(index),
            |index: int| (self.generations()[index], self@[index]),
        )
    }

    /// What the invariant means for the model: the presence bitset is the
    /// map's domain and lies below the capacity; every present index has
    /// its generation; the dense buffer holds the value of each present
    /// index once, at the slot whose owner has that index and generation.
    pub proof fn lemma_wf(&self)
        requires
            self.wf(),
        ensures
            self.presence() == self@.dom(),
            self.generations().dom() == self@.dom(),
            forall|index: int| self@.dom().contains(index) ==> 0 <= index < STORE_CAPACITY,
            self.dense().len() == self.dense_owners().len(),
            forall|slot: int|
                0 <= slot < self.dense().len() ==> {
                    let owner = #[trigger] self.dense_owners()[slot];
                    &&& self@.dom().contains(owner.index() as int)
                    &&& self.slot_of(owner.index() as int) == slot
                    &&& self@[owner.index() as int] == self.dense()[slot]
                    &&& self.generations()[owner.index() as int] == owner.generation()
                },
            forall|a: int, b: int|
                0 <= a < b < self.dense().len() ==> self.dense_owners()[a].index()
                    != self.dense_owners()[b].index(),
            forall|index: int|
                self@.dom().contains(index) ==> 0 <= self.slot_of(index) < self.dense().len()
                    && (#[trigger] self.dense_owners()[self.slot_of(index)]).index() == index,
    {
        assert(self.presence() =~= self@.dom());
        assert(self.generations().dom() =~= self@.dom());
        assert forall|a: int, b: int| 0 <= a < b < self.dense().len() implies self.dense_owners()[a].index()
            != self.dense_owners()[b].index() by {
            assert(self.slots@[self.owners@[a].index() as int] == a);
            assert(self.slots@[self.owners@[b].index() as int] == b);
        }
    }

    /// An empty store for values of the given schema.
    pub fn new(schema: Schema) -> (store: Self)
        ensures
            store.wf(),
            store@ == Map::<int, T>::empty(),
            store.generations() == Map::<int, u32>::empty(),
            store.dense() == Seq::<T>::empty(),
            store.dense_owners() == Seq::<Entity>::empty(),
            store.schema_model() == schema@,
    {
        let store = UntypedComponentStore {
            schema,
            bitset: create_bitset(),
            storage: Vec::new(),
            owners: Vec::new(),
            slots: Vec::new(),
        };
        proof {
            assert(store@ =~= Map::<int, T>::empty());
            assert(store.generations() =~= Map::<int, u32>::empty());
        }
        store
    }

    /// The schema of the values.
    pub fn schema(&self) -> (schema: &Schema)
        ensures
            schema@ == self.schema_model(),
    {
        &self.schema
    }

    /// The presence bitset: the indices that have a value, whatever the
    /// generation it was inserted at.
    pub fn bitset(&self) -> (bits: &BitSetVec)
        requires
            self.wf(),
        ensures
            bits@ == self@.dom(),
            bits.0@.len() == BITSET_SLICE_COUNT,
    {
        proof {
            self.lemma_wf();
        }
        &self.bitset
    }

    /// The slot of the entity's component, if the store has one for it.
    fn slot_for(&self, entity: Entity) -> (r: Option<usize>)
        requires
            self.wf(),
        ensures
            match r {
                Some(slot) => self.holds(entity) && slot == self.slot_of(entity.index() as int)
                    && slot < self.dense().len() && self.dense_owners()[slot as int] == entity,
                None => !self.holds(entity),
            },
    {
        let index = entity.index() as usize;
        if self.bitset.contains_index(index) {
            let slot = self.slots[index];
            if self.owners[slot].generation() == entity.generation() {
                proof {
                    Entity::lemma_equal(self.owners@[slot as int], entity);
                }
                Some(slot)
            } else {
                None
            }
        } else {
            None
        }
    }

    /// Whether the store has a component for the entity. A handle whose
    /// generation is not the one the component was inserted at has none.
    pub fn contains(&self, entity: Entity) -> (r: bool)
        requires
            self.wf(),
        ensures
            r == self.holds(entity),
    {
        self.slot_for(entity).is_some()
    }

    /// The number of values in the store.
    pub fn len(&self) -> (n: usize)
        requires
            self.wf(),
        ensures
            n == self.dense().len(),
    {
        self.storage.len()
    }

    /// Inserts a component for the entity and returns the one that the
    /// entity had before, if any. The index of the entity then belongs to
    /// it: a component that was inserted there for another generation is
    /// replaced, in its slot, and dropped.
    pub fn insert(&mut self, entity: Entity, value: T) -> (previous: Option<T>)
        requires
            old(self).wf(),
            entity.index() < STORE_CAPACITY,
        ensures
            final(self).wf(),
            final(self).schema_model() == old(self).schema_model(),
            final(self)@ == old(self)@.insert(entity.index() as int, value),
            final(self).generations() == old(self).generations().insert(
                entity.index() as int,
                entity.generation(),
            ),
            previous == old(self).component_of(entity),
            old(self)@.dom().contains(entity.index() as int) ==> final(self).dense() == old(self).dense().update(old(self).slot_of(entity.index() as int), value) && final(self).dense_owners() == old(self).dense_owners().update(
                old(self).slot_of(entity.index() as int),
                entity,
            ),
            !old(self)@.dom().contains(entity.index() as int) ==> final(self).dense() == old(self).dense().push(value) && final(self).dense_owners() == old(self).dense_owners().push(
                entity,
            ),
    {
        let index = entity.index() as usize;
        if self.bitset.contains_index(index) {
            let slot = self.slots[index];
            let same = self.owners[slot].generation() == entity.generation();
            self.storage.push(value);
            let previous = self.storage.swap_remove(slot);
            self.owners[slot] = entity;
            proof {
                assert(self@ =~= old(self)@.insert(index as int, value));
                assert(self.generations() =~= old(self).generations().insert(
                    index as int,
                    entity.generation(),
                ));
                assert(self.dense() =~= old(self).dense().update(slot as int, value));
            }
            if same {
                Some(previous)
            } else {
                None
            }
        } else {
            while self.slots.len() <= index
                invariant
                    self.schema == old(self).schema,
                    self.bitset == old(self).bitset,
                    self.storage == old(self).storage,
                    self.owners == old(self).owners,
                    old(self).slots@.len() <= self.slots@.len(),
                    self.slots@.take(old(self).slots@.len() as int) == old(self).slots@,
                decreases index + 1 - self.slots@.len(),
            {
                proof {
                    let grown = self.slots@.push(0);
                    assert(grown.take(old(self).slots@.len() as int) =~= self.slots@.take(
                        old(self).slots@.len() as int,
                    ));
                }
                self.slots.push(0);
            }
            let slot = self.storage.len();
            self.slots[index] = slot;
            self.storage.push(value);
            self.owners.push(entity);
            self.bitset.bit_set(index);
            proof {
                assert(self@ =~= old(self)@.insert(index as int, value));
                assert(self.generations() =~= old(self).generations().insert(
                    index as int,
                    entity.generation(),
                ));
            }
            None
        }
    }

    /// The component of the entity, if the store has one for it.
    pub fn get(&self, entity: Entity) -> (r: Option<&T>)
        requires
            self.wf(),
        ensures
            match r {
                Some(value) => self.holds(entity) && *value == self@[entity.index() as int],
                None => !self.holds(entity),
            },
    {
        match self.slot_for(entity) {
            Some(slot) => Some(&self.storage[slot]),
            None => None,
        }
    }

    /// The value of an entity index, if it has one, whatever the generation
    /// it was inserted at. This is what a walk over a bitset of indices
    /// asks.
    pub fn value_at(&self, index: usize) -> (r: Option<&T>)
        requires
            self.wf(),
        ensures
            match r {
                Some(value) => value_of(self@, index as int) == Some(*value),
                None => value_of(self@, index as int) is None,
            },
    {
        if self.bitset.contains_index(index) {
            Some(&self.storage[self.slots[index]])
        } else {
            None
        }
    }

    /// What an entity index has, if it has anything: the generation that
    /// its value was inserted at, and the value.
    pub fn entry_at(&self, index: usize) -> (r: Option<(u32, &T)>)
        requires
            self.wf(),
        ensures
            match r {
                Some((generation, value)) => self@.dom().contains(index as int) && generation
                    == self.generations()[index as int] && *value == self@[index as int],
                None => !self@.dom().contains(index as int),
            },
    {
        if self.bitset.contains_index(index) {
            let slot = self.slots[index];
            Some((self.owners[slot].generation(), &self.storage[slot]))
        } else {
            None
        }
    }

    /// The component of the entity, to be changed in place, if the store
    /// has one for it.
    pub fn get_mut(&mut self, entity: Entity) -> (r: Option<&mut T>)
        requires
            old(self).wf(),
        ensures
            final(self).wf(),
            final(self).schema_model() == old(self).schema_model(),
            final(self).generations() == old(self).generations(),
            final(self).dense_owners() == old(self).dense_owners(),
            match r {
                Some(value) => {
                    &&& old(self).holds(entity)
                    &&& *value == old(self)@[entity.index() as int]
                    &&& final(self)@ == old(self)@.insert(entity.index() as int, *final(value))
                    &&& final(self).dense() == old(self).dense().update(
                        old(self).slot_of(entity.index() as int),
                        *final(value),
                    )
                },
                None => {
                    &&& !old(self).holds(entity)
                    &&& final(self)@ == old(self)@
                    &&& final(self).dense() == old(self).dense()
                },
            },
    {
        match self.slot_for(entity) {
            Some(slot) => {
                let value = &mut self.storage[slot];
                proof {
                    let after = UntypedComponentStore {
                        schema: self.schema,
                        bitset: self.bitset,
                        storage: after_borrow(self.storage),
                        owners: self.owners,
                        slots: self.slots,
                    };
                    assert(after@ =~= old(self)@.insert(entity.index() as int, *final(value)));
                    assert(after.generations() =~= old(self).generations());
                }
                Some(value)
            },
            None => None,
        }
    }

    /// The value of an entity index, to be changed in place, if it has one,
    /// whatever the generation it was inserted at.
    pub fn value_at_mut(&mut self, index: usize) -> (r: Option<&mut T>)
        requires
            old(self).wf(),
        ensures
            final(self).wf(),
            final(self).schema_model() == old(self).schema_model(),
            final(self).generations() == old(self).generations(),
            final(self).dense_owners() == old(self).dense_owners(),
            match r {
                Some(value) => {
                    &&& old(self)@.dom().contains(index as int)
                    &&& *value == old(self)@[index as int]
                    &&& final(self)@ == old(self)@.insert(index as int, *final(value))
                    &&& final(self).dense() == old(self).dense().update(
                        old(self).slot_of(index as int),
                        *final(value),
                    )
                },
                None => {
                    &&& !old(self)@.dom().contains(index as int)
                    &&& final(self)@ == old(self)@
                    &&& final(self).dense() == old(self).dense()
                },
            },
    {
        if self.bitset.contains_index(index) {
            let slot = self.slots[index];
            let value = &mut self.storage[slot];
            proof {
                let after = UntypedComponentStore {
                    schema: self.schema,
                    bitset: self.bitset,
                    storage: after_borrow(self.storage),
                    owners: self.owners,
                    slots: self.slots,
                };
                assert(after@ =~= old(self)@.insert(index as int, *final(value)));
                assert(after.generations() =~= old(self).generations());
            }
            Some(value)
        } else {
            None
        }
    }

    /// The values in the order of their slots. This is the fast way over
    /// all values of one store; it says nothing of their entities.
    pub fn iter(&self) -> (r: std::slice::Iter<'_, T>)
        requires
            self.wf(),
        ensures
            vstd::std_specs::iter::IteratorSpec::remaining(&r) == self.dense().as_ref(),
    {
        self.storage.iter()
    }

    /// The value in a slot of the dense buffer, to be changed in place.
    pub fn dense_mut(&mut self, slot: usize) -> (value: &mut T)
        requires
            old(self).wf(),
            slot < old(self).dense().len(),
        ensures
            *value == old(self).dense()[slot as int],
            final(self).wf(),
            final(self).schema_model() == old(self).schema_model(),
            final(self).generations() == old(self).generations(),
            final(self).dense_owners() == old(self).dense_owners(),
            final(self).dense() == old(self).dense().update(slot as int, *final(value)),
            final(self)@ == old(self)@.insert(
                old(self).dense_owners()[slot as int].index() as int,
                *final(value),
            ),
    {
        let value = &mut self.storage[slot];
        proof {
            let after = UntypedComponentStore {
                schema: self.schema,
                bitset: self.bitset,
                storage: after_borrow(self.storage),
                owners: self.owners,
                slots: self.slots,
            };
            assert(after@ =~= old(self)@.insert(
                old(self).dense_owners()[slot as int].index() as int,
                *final(value),
            ));
            assert(after.generations() =~= old(self).generations());
        }
        value
    }

    /// Removes the component of the entity and returns it, if the store
    /// has one for it; else nothing changes. The last value of the dense
    /// buffer moves into the freed slot.
    pub fn remove(&mut self, entity: Entity) -> (previous: Option<T>)
        requires
            old(self).wf(),
        ensures
            final(self).wf(),
            final(self).schema_model() == old(self).schema_model(),
            previous == old(self).component_of(entity),
            previous is Some ==> {
                &&& final(self)@ == old(self)@.remove(entity.index() as int)
                &&& final(self).generations() == old(self).generations().remove(
                    entity.index() as int,
                )
                &&& final(self).dense() == old(self).dense().update(
                    old(self).slot_of(entity.index() as int),
                    old(self).dense().last(),
                ).drop_last()
                &&& final(self).dense_owners() == old(self).dense_owners().update(
                    old(self).slot_of(entity.index() as int),
                    old(self).dense_owners().last(),
                ).drop_last()
            },
            previous is None ==> {
                &&& final(self)@ == old(self)@
                &&& final(self).generations() == old(self).generations()
                &&& final(self).dense() == old(self).dense()
                &&& final(self).dense_owners() == old(self).dense_owners()
            },
    {
        match self.slot_for(entity) {
            Some(slot) => {
                let index = entity.index() as usize;
                let previous = self.storage.swap_remove(slot);
                self.owners.swap_remove(slot);
                if slot < self.owners.len() {
                    let moved = self.owners[slot].index() as usize;
                    self.slots[moved] = slot;
                }
                self.bitset.bit_reset(index);
                proof {
                    assert(self@ =~= old(self)@.remove(index as int));
                    assert(self.generations() =~= old(self).generations().remove(index as int));
                }
                Some(previous)
            },
            None => None,
        }
    }

    /// Mutable references to the components of several entities at the same
    /// time. No entity may be named twice: that would be two mutable
    /// references to one component.
    pub fn get_many_mut<const N: usize>(&mut self, entities: [Entity; N]) -> (r: [Option<&mut T>; N])
        requires
            old(self).wf(),
            distinct_entities(entities@),
        ensures
            final(self).wf(),
            final(self).schema_model() == old(self).schema_model(),
            final(self).generations() == old(self).generations(),
            final(self).dense_owners() == old(self).dense_owners(),
            final(self)@.dom() == old(self)@.dom(),
            final(self).dense().len() == old(self).dense().len(),
            forall|k: int| 0 <= k < N ==> (r[k] is Some <==> old(self).holds(entities[k])),
            forall|k: int|
                0 <= k < N && r[k] is Some ==> *r[k].unwrap() == old(self)@[entities[k].index() as int]
                    && final(self)@[entities[k].index() as int] == *final(r[k].unwrap()),
            forall|index: int|
                old(self)@.dom().contains(index) && (forall|k: int|
                    0 <= k < N && old(self).holds(entities[k]) ==> entities[k].index() != index)
                    ==> final(self)@[index] == old(self)@[index],
    {
        let mut places: [Option<usize>; N] = [None; N];
        let mut k: usize = 0;
        while k < N
            invariant
                k <= N,
                self.wf(),
                *self == *old(self),
                forall|j: int| k <= j < N ==> places[j] is None,
                forall|j: int|
                    0 <= j < k ==> places[j] == (if self.holds(entities[j]) {
                        Some(self.slots@[entities[j].index() as int])
                    } else {
                        None
                    }),
            decreases N - k,
        {
            places[k] = self.slot_for(entities[k]);
            k += 1;
        }
        proof {
            assert forall|i: int, j: int|
                0 <= i < j < N && places[i] is Some && places[j] is Some implies places[i].unwrap()
                != places[j].unwrap() by {
                let a = entities[i];
                let b = entities[j];
                assert(self.owners@[self.slots@[a.index() as int] as int].index() == a.index());
                assert(self.owners@[self.slots@[b.index() as int] as int].index() == b.index());
                if a.index() == b.index() {
                    Entity::lemma_equal(a, b);
                }
            }
        }
        let ghost before = *self;
        let r = get_disjoint_mut(self.storage.as_mut_slice(), &places);
        proof {
            let after = UntypedComponentStore {
                schema: self.schema,
                bitset: self.bitset,
                storage: after_borrow(self.storage),
                owners: self.owners,
                slots: self.slots,
            };
            assert(after@.dom() =~= before@.dom());
            assert(after.generations() =~= before.generations());
            assert forall|k: int| 0 <= k < N implies (r[k] is Some <==> before.holds(
                entities[k],
            )) by {
                assert(places[k] is Some <==> before.holds(entities[k]));
            }
            assert forall|k: int| 0 <= k < N && r[k] is Some implies *r[k].unwrap()
                == before@[entities[k].index() as int] && after@[entities[k].index() as int]
                == *final(r[k].unwrap()) by {
                assert(places[k] == Some(before.slots@[entities[k].index() as int]));
            }
            assert forall|index: int|
                before@.dom().contains(index) && (forall|k: int|
                    0 <= k < N && before.holds(entities[k]) ==> entities[k].index() != index)
                implies after@[index] == before@[index] by {
                let slot = before.slots@[index] as int;
                assert forall|k: int| 0 <= k < N implies places[k] != Some(slot as usize) by {
                    if places[k] == Some(slot as usize) {
                        let other = entities[k].index() as int;
                        assert(before.holds(entities[k]));
                        assert(before.owners@[before.slots@[other] as int].index() == other);
                    }
                }
            }
        }
        r
    }

    /// Removes every value.
    pub fn clear(&mut self)
        requires
            old(self).wf(),
        ensures
            final(self).wf(),
            final(self).schema_model() == old(self).schema_model(),
            final(self)@ == Map::<int, T>::empty(),
            final(self).generations() == Map::<int, u32>::empty(),
            final(self).dense() == Seq::<T>::empty(),
            final(self).dense_owners() == Seq::<Entity>::empty(),
    {
        self.storage.clear();
        self.owners.clear();
        self.bitset.clear();
        proof {
            assert(self@ =~= Map::<int, T>::empty());
            assert(self.generations() =~= Map::<int, u32>::empty());
        }
    }
}

impl<T: HasSchema> UntypedComponentStore<T> {
    /// An empty store for values of type `T`, with `T`'s schema.
    pub fn for_type() -> (store: Self)
        ensures
            store.wf(),
            store@ == Map::<int, T>::empty(),
            store.generations() == Map::<int, u32>::empty(),
            store.dense() == Seq::<T>::empty(),
            store.dense_owners() == Seq::<Entity>::empty(),
            store.schema_model() == T::schema_model(),
    {
        UntypedComponentStore::new(T::schema())
    }
}

} // verus!
