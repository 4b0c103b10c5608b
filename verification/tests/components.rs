use std::rc::Rc;

use bones_ecs::bitset::{create_bitset, BitSetVec};
use bones_ecs::components::typed::{ComponentIterBitset, ComponentStore};
use bones_ecs::components::persist::entries_fit;
use bones_ecs::components::untyped::{has_distinct_entities, UntypedComponentStore, STORE_CAPACITY};
use bones_ecs::entities::{Entities, Entity};
use bones_ecs::schema::{HasSchema, Primitive, Schema, SchemaMismatchError};

#[derive(Debug, Clone, PartialEq, Eq, Default)]
struct A(String);

impl HasSchema for A {
    fn schema() -> Schema {
        Schema::Struct(vec![Schema::Primitive(Primitive::String)])
    }
}

fn bits(members: &[usize]) -> Rc<BitSetVec> {
    let mut set = create_bitset();
    for member in members {
        set.bit_set(*member);
    }
    Rc::new(set)
}

fn store_of(values: &[(u32, u64)]) -> ComponentStore<u64> {
    let mut store = ComponentStore::<u64>::default();
    for (index, value) in values {
        store.insert(Entity::new(*index, 0), *value);
    }
    store
}

/// A small deterministic generator for randomized populations.
struct Lcg(u64);

impl Lcg {
    fn next(&mut self) -> u64 {
        self.0 = self
            .0
            .wrapping_mul(6364136223846793005)
            .wrapping_add(1442695040888963407);
        self.0 >> 33
    }
}

#[test]
fn create_remove_components() {
    let mut entities = Entities::default();
    let e1 = entities.create();
    let e2 = entities.create();

    let mut storage = ComponentStore::<A>::default();
    storage.insert(e1, A("hello".into()));
    storage.insert(e2, A("world".into()));
    assert!(storage.get(e1).is_some());
    storage.remove(e1);
    assert!(storage.get(e1).is_none());
    assert_eq!(
        storage.iter().cloned().collect::<Vec<_>>(),
        vec![A("world".into())]
    )
}

#[test]
fn insert_then_get_returns_the_value() {
    let mut store = ComponentStore::<u64>::default();
    let e = Entity::new(5, 0);
    assert_eq!(store.get(e), None);
    assert!(!store.contains(e));
    assert_eq!(store.insert(e, 10), None);
    assert_eq!(store.get(e), Some(&10));
    assert!(store.contains(e));
    assert!(store.bitset().contains(e));
    assert_eq!(store.insert(e, 11), Some(10));
    assert_eq!(store.get(e), Some(&11));
    assert_eq!(store.iter().count(), 1);
}

#[test]
fn remove_then_get_returns_nothing() {
    let mut store = store_of(&[(1, 10), (2, 20), (3, 30)]);
    let e = Entity::new(2, 0);
    assert_eq!(store.remove(e), Some(20));
    assert_eq!(store.get(e), None);
    assert!(!store.contains(e));
    assert!(!store.bitset().contains(e));
    assert_eq!(store.remove(e), None);
    assert_eq!(store.get(Entity::new(1, 0)), Some(&10));
    assert_eq!(store.get(Entity::new(3, 0)), Some(&30));
}

#[test]
fn removal_moves_the_last_value_into_the_freed_slot() {
    let mut store = store_of(&[(10, 1), (20, 2), (30, 3), (40, 4)]);
    assert_eq!(store.iter().copied().collect::<Vec<_>>(), vec![1, 2, 3, 4]);
    store.remove(Entity::new(20, 0));
    assert_eq!(store.iter().copied().collect::<Vec<_>>(), vec![1, 4, 3]);
    store.remove(Entity::new(30, 0));
    assert_eq!(store.iter().copied().collect::<Vec<_>>(), vec![1, 4]);
    assert_eq!(store.get(Entity::new(40, 0)), Some(&4));
    store.remove(Entity::new(10, 0));
    store.remove(Entity::new(40, 0));
    assert_eq!(store.iter().count(), 0);
    store.insert(Entity::new(20, 0), 9);
    assert_eq!(store.iter().copied().collect::<Vec<_>>(), vec![9]);
}

#[test]
fn a_stale_handle_finds_nothing() {
    let mut store = ComponentStore::<A>::default();
    store.insert(Entity::new(0, 1), A("hello".into()));
    let stale = Entity::new(0, 0);
    let live = Entity::new(0, 1);
    assert!(!store.contains(stale));
    assert!(store.contains(live));
    assert_eq!(store.get(stale), None);
    assert_eq!(store.get(live), Some(&A("hello".into())));
    assert!(store.get_mut(stale).is_none());
    assert!(store.get_mut(Entity::new(0, 2)).is_none());
    // the index has a component, whoever it belongs to
    assert!(store.bitset().contains(stale));
    // removing by a stale handle changes nothing
    assert_eq!(store.remove(stale), None);
    assert_eq!(store.get(live), Some(&A("hello".into())));
    assert_eq!(store.iter().count(), 1);
    assert_eq!(store.remove(live), Some(A("hello".into())));
    assert!(!store.contains(live));
}

#[test]
fn an_index_belongs_to_the_entity_that_inserted_last() {
    let mut entities = Entities::new();
    let first = entities.create();
    let mut store = ComponentStore::<u64>::default();
    store.insert(first, 1);
    entities.kill(first);
    let second = entities.create();
    assert_eq!(second.index(), first.index());
    // the component of the dead entity is not the new entity's
    assert_eq!(store.get(second), None);
    assert!(!store.contains(second));
    // inserting for the new entity takes the slot; the old value is no
    // previous value of the new entity
    assert_eq!(store.insert(second, 2), None);
    assert_eq!(store.get(second), Some(&2));
    assert_eq!(store.get(first), None);
    assert_eq!(store.insert(second, 3), Some(2));
    assert_eq!(store.iter().copied().collect::<Vec<_>>(), vec![3]);
}

#[test]
fn removing_what_is_not_there_leaves_the_store_as_it_was() {
    let mut store = store_of(&[(10, 1), (20, 2), (30, 3)]);
    assert_eq!(store.remove(Entity::new(40, 0)), None);
    assert_eq!(store.remove(Entity::new(10, 1)), None);
    assert_eq!(store.iter().copied().collect::<Vec<_>>(), vec![1, 2, 3]);
    assert_eq!(store.remove(Entity::new(10, 0)), Some(1));
    assert_eq!(store.iter().copied().collect::<Vec<_>>(), vec![3, 2]);
    assert_eq!(store.remove(Entity::new(10, 0)), None);
    assert_eq!(store.iter().copied().collect::<Vec<_>>(), vec![3, 2]);
    assert!(!store.bitset().contains(Entity::new(10, 0)));
}

#[test]
fn lookups_beyond_the_capacity_report_absence() {
    let mut store = ComponentStore::<u64>::default();
    let last = Entity::new((STORE_CAPACITY - 1) as u32, 0);
    let beyond = Entity::new(STORE_CAPACITY as u32, 0);
    store.insert(last, 1);
    assert_eq!(store.get(last), Some(&1));
    assert_eq!(store.get(beyond), None);
    assert_eq!(store.get(Entity::new(u32::MAX, 0)), None);
    assert!(!store.contains(beyond));
    assert_eq!(store.remove(beyond), None);
    assert!(store.get_mut(beyond).is_none());
}

#[test]
fn get_mut_changes_the_value_in_place() {
    let mut store = store_of(&[(1, 10), (2, 20)]);
    *store.get_mut(Entity::new(2, 0)).unwrap() += 5;
    assert_eq!(store.get(Entity::new(2, 0)), Some(&25));
    assert_eq!(store.get(Entity::new(1, 0)), Some(&10));
    assert!(store.get_mut(Entity::new(3, 0)).is_none());
}

#[test]
fn iter_mut_lends_out_every_value_in_slot_order() {
    let mut store = store_of(&[(7, 1), (3, 2), (5, 3)]);
    let mut seen = Vec::new();
    let mut iter = store.iter_mut();
    while let Some(value) = iter.next() {
        seen.push(*value);
        *value *= 10;
    }
    assert_eq!(seen, vec![1, 2, 3]);
    assert_eq!(store.get(Entity::new(7, 0)), Some(&10));
    assert_eq!(store.get(Entity::new(3, 0)), Some(&20));
    assert_eq!(store.get(Entity::new(5, 0)), Some(&30));
}

#[test]
fn repeated_entity_is_refused_for_many_mutable_references() {
    let e = Entity::new(1, 0);
    assert!(!has_distinct_entities(&[e, e]));
    assert!(!has_distinct_entities(&[e, Entity::new(2, 0), Entity::new(1, 0)]));
    assert!(has_distinct_entities(&[e, Entity::new(2, 0)]));
    // two entities on one index are two entities
    assert!(has_distinct_entities(&[e, Entity::new(2, 0), Entity::new(1, 5)]));
    assert!(has_distinct_entities::<0>(&[]));
    assert!(has_distinct_entities(&[e]));
}

#[test]
fn many_mutable_references_at_once() {
    let mut store = store_of(&[(1, 10), (2, 20), (3, 30), (4, 40)]);
    let wanted = [
        Entity::new(3, 0),
        Entity::new(9, 0),
        Entity::new(1, 0),
        Entity::new(4, 0),
    ];
    assert!(has_distinct_entities(&wanted));
    let [three, nine, one, four] = store.get_many_mut(wanted);
    assert!(nine.is_none());
    let three = three.unwrap();
    let one = one.unwrap();
    let four = four.unwrap();
    assert_eq!((*three, *one, *four), (30, 10, 40));
    std::mem::swap(three, one);
    *four += 1;
    assert_eq!(store.get(Entity::new(1, 0)), Some(&30));
    assert_eq!(store.get(Entity::new(2, 0)), Some(&20));
    assert_eq!(store.get(Entity::new(3, 0)), Some(&10));
    assert_eq!(store.get(Entity::new(4, 0)), Some(&41));

    let none: [Option<&mut u64>; 0] = store.get_many_mut([]);
    assert_eq!(none.len(), 0);
    let mut empty = ComponentStore::<u64>::default();
    let [nothing] = empty.get_many_mut([Entity::new(0, 0)]);
    assert!(nothing.is_none());
}

#[test]
fn many_mutable_references_to_entities_on_one_index() {
    let mut store = store_of(&[(1, 10), (2, 20)]);
    let wanted = [Entity::new(1, 7), Entity::new(2, 0), Entity::new(1, 0)];
    assert!(has_distinct_entities(&wanted));
    let [stale, two, one] = store.get_many_mut(wanted);
    assert!(stale.is_none());
    *two.unwrap() += 1;
    *one.unwrap() += 2;
    assert_eq!(store.get(Entity::new(1, 0)), Some(&12));
    assert_eq!(store.get(Entity::new(2, 0)), Some(&21));
}

#[test]
fn many_mutable_references_after_removals() {
    let mut store = store_of(&[(1, 10), (2, 20), (3, 30), (4, 40)]);
    store.remove(Entity::new(1, 0));
    // slots are now 4, 2, 3
    let [two, four] = store.get_many_mut([Entity::new(2, 0), Entity::new(4, 0)]);
    *two.unwrap() = 21;
    *four.unwrap() = 41;
    assert_eq!(store.get(Entity::new(2, 0)), Some(&21));
    assert_eq!(store.get(Entity::new(3, 0)), Some(&30));
    assert_eq!(store.get(Entity::new(4, 0)), Some(&41));
}

#[test]
fn joining_cursor_yields_components_in_ascending_index_order() {
    let mut store = store_of(&[(9, 90), (2, 20), (700, 7000), (5, 50)]);
    store.remove(Entity::new(2, 0));
    store.insert(Entity::new(2, 0), 21);
    let mut iter = store.iter_with_bitset(bits(&[700, 2, 3, 9]));
    let mut seen = Vec::new();
    while let Some(value) = iter.next() {
        seen.push(*value);
    }
    assert_eq!(seen, vec![21, 90, 7000]);
    assert_eq!(iter.next(), None);

    let mut none = store.iter_with_bitset(bits(&[]));
    assert_eq!(none.next(), None);
    let mut short = store.iter_with_bitset(Rc::new(BitSetVec(vec![])));
    assert_eq!(short.next(), None);
}

#[test]
fn optional_cursor_yields_nothing_for_entities_without_component() {
    let store = store_of(&[(9, 90), (2, 20)]);
    let mut iter = store.iter_with_bitset_optional(bits(&[1, 2, 9, 300]));
    let mut seen = Vec::new();
    while let Some(value) = iter.next() {
        seen.push(value.copied());
    }
    assert_eq!(seen, vec![None, Some(20), Some(90), None]);

    let mut none = store.iter_with_bitset_optional(bits(&[]));
    assert_eq!(none.next(), None);
}

#[test]
fn mutable_joining_cursor_changes_the_components_it_passes() {
    let mut store = store_of(&[(9, 90), (2, 20), (5, 50)]);
    let mut iter = store.iter_mut_with_bitset(bits(&[9, 2, 4]));
    let mut seen = Vec::new();
    while let Some(value) = iter.next() {
        seen.push(*value);
        *value += 1;
    }
    assert_eq!(seen, vec![20, 90]);
    assert_eq!(store.get(Entity::new(2, 0)), Some(&21));
    assert_eq!(store.get(Entity::new(5, 0)), Some(&50));
    assert_eq!(store.get(Entity::new(9, 0)), Some(&91));
}

#[test]
fn mutable_optional_cursor_visits_every_entity_of_the_bitset() {
    let mut store = store_of(&[(9, 90), (2, 20), (5, 50)]);
    let mut iter = store.iter_mut_with_bitset_optional(bits(&[9, 2, 4]));
    let mut seen = Vec::new();
    while let Some(value) = iter.next() {
        match value {
            Some(value) => {
                seen.push(Some(*value));
                *value = 0;
            }
            None => seen.push(None),
        }
    }
    assert_eq!(seen, vec![Some(20), None, Some(90)]);
    assert_eq!(store.get(Entity::new(2, 0)), Some(&0));
    assert_eq!(store.get(Entity::new(5, 0)), Some(&50));
    assert_eq!(store.get(Entity::new(9, 0)), Some(&0));
}

#[test]
fn join_of_two_stores_and_a_seed_for_randomized_populations() {
    let mut random = Lcg(11);
    for round in 0..12u64 {
        let mut a = ComponentStore::<u64>::default();
        let mut b = ComponentStore::<u64>::default();
        let mut seed = create_bitset();
        let mut expected = Vec::new();
        // round 0 is the empty case
        for index in 0..(round * 40) {
            let draw = random.next();
            let entity = Entity::new(index as u32, 0);
            if draw & 1 != 0 {
                a.insert(entity, index);
            }
            if draw & 2 != 0 {
                b.insert(entity, index * 2);
            }
            if draw & 4 != 0 {
                seed.bit_set(index as usize);
            }
            if draw & 7 == 7 {
                expected.push(index);
            }
        }
        let mut joined = a.bitset().clone();
        joined.bit_and(b.bitset());
        joined.bit_and(&seed);
        let joined = Rc::new(joined);

        let mut from_a = Vec::new();
        let mut iter = a.iter_with_bitset(joined.clone());
        while let Some(value) = iter.next() {
            from_a.push(*value);
        }
        assert_eq!(from_a, expected);

        let mut from_b = Vec::new();
        let mut iter = b.iter_with_bitset(joined.clone());
        while let Some(value) = iter.next() {
            from_b.push(*value / 2);
        }
        assert_eq!(from_b, expected);
    }
}

#[test]
fn typed_and_untyped_stores_convert_into_each_other() {
    let mut store = ComponentStore::<u64>::default();
    store.insert(Entity::new(1, 0), 10);
    let untyped = store.into_untyped();
    assert!(untyped.schema().same_as(&u64::schema()));
    assert_eq!(untyped.get(Entity::new(1, 0)), Some(&10));
    let typed = ComponentStore::<u64>::from_untyped(untyped);
    assert_eq!(typed.get(Entity::new(1, 0)), Some(&10));
    let typed = ComponentStore::<u64>::try_from(typed.into_untyped()).unwrap();
    assert_eq!(typed.component_store().get(Entity::new(1, 0)), Some(&10));
}

#[test]
fn a_store_of_another_schema_is_refused() {
    let untyped = UntypedComponentStore::<u64>::new(Schema::Primitive(Primitive::U32));
    let refused = ComponentStore::<u64>::try_from(untyped);
    assert!(matches!(refused, Err(SchemaMismatchError)));
    let untyped = UntypedComponentStore::<u64>::for_type();
    assert!(ComponentStore::<u64>::try_from(untyped).is_ok());
}

#[test]
fn untyped_store_works_by_itself() {
    let mut store = UntypedComponentStore::<A>::new(A::schema());
    assert_eq!(store.len(), 0);
    store.insert(Entity::new(3, 0), A("three".into()));
    store.insert(Entity::new(1, 0), A("one".into()));
    assert_eq!(store.len(), 2);
    assert!(store.contains(Entity::new(3, 0)));
    assert_eq!(store.value_at(1), Some(&A("one".into())));
    store.value_at_mut(1).unwrap().0.push('!');
    store.dense_mut(0).0.push('?');
    assert_eq!(store.get(Entity::new(1, 0)), Some(&A("one!".into())));
    assert_eq!(store.get(Entity::new(3, 0)), Some(&A("three?".into())));
    store.clear();
    assert_eq!(store.len(), 0);
    assert!(!store.contains(Entity::new(3, 0)));
    assert_eq!(store.bitset().min(), None);
}

#[test]
fn entries_come_in_ascending_index_order() {
    let mut store = store_of(&[(9, 90), (2, 20), (5, 50)]);
    store.remove(Entity::new(2, 0));
    store.insert(Entity::new(2, 0), 21);
    store.insert(Entity::new(9, 4), 91);
    let entries: Vec<(u32, u32, u64)> = store
        .entries()
        .into_iter()
        .map(|(index, generation, value)| (index, generation, *value))
        .collect();
    assert_eq!(entries, vec![(2, 0, 21), (5, 0, 50), (9, 4, 91)]);
    assert_eq!(ComponentStore::<u64>::default().entries().len(), 0);
}

#[test]
fn loading_entries_of_another_schema_fails_and_changes_nothing() {
    let mut store = store_of(&[(1, 10)]);
    let refused = store.load(&Schema::Primitive(Primitive::U32), vec![(2, 0, 20)]);
    assert_eq!(refused, Err(SchemaMismatchError));
    assert_eq!(store.get(Entity::new(1, 0)), Some(&10));
    assert_eq!(store.get(Entity::new(2, 0)), None);
}

#[test]
fn loading_replaces_what_the_store_holds() {
    let mut store = store_of(&[(1, 10), (7, 70)]);
    let entries = vec![(3, 0, 30), (2, 5, 20), (3, 1, 31)];
    assert!(entries_fit(&entries));
    let loaded = store.load(&u64::schema(), entries);
    assert_eq!(loaded, Ok(()));
    assert_eq!(store.get(Entity::new(1, 0)), None);
    assert_eq!(store.get(Entity::new(7, 0)), None);
    // every component comes back at its generation
    assert_eq!(store.get(Entity::new(2, 5)), Some(&20));
    assert_eq!(store.get(Entity::new(2, 0)), None);
    // the later entry wins
    assert_eq!(store.get(Entity::new(3, 1)), Some(&31));
    assert_eq!(store.get(Entity::new(3, 0)), None);
    assert_eq!(store.iter().count(), 2);
}

#[test]
fn entries_beyond_the_capacity_do_not_fit() {
    assert!(entries_fit::<u64>(&vec![]));
    assert!(entries_fit(&vec![(0, 0, 1u64), ((STORE_CAPACITY - 1) as u32, 9, 2)]));
    assert!(!entries_fit(&vec![(0, 0, 1u64), (STORE_CAPACITY as u32, 0, 2)]));
    assert!(!entries_fit(&vec![(u32::MAX, 0, 1u64)]));
}

#[test]
fn randomized_stores_survive_being_written_and_read() {
    let mut random = Lcg(3);
    for round in 0..12u64 {
        let mut store = ComponentStore::<A>::default();
        // round 0 is the empty store
        for _ in 0..(round * 30) {
            let index = (random.next() % 2000) as u32;
            let generation = (random.next() % 3) as u32;
            store.insert(Entity::new(index, generation), A(format!("v{}", random.next())));
        }
        // removed and inserted again
        for _ in 0..(round * 10) {
            let entity = Entity::new((random.next() % 2000) as u32, (random.next() % 3) as u32);
            let removed = store.remove(entity);
            if random.next() & 1 == 0 {
                if let Some(value) = removed {
                    store.insert(entity, A(format!("{}+", value.0)));
                }
            }
        }
        let written: Vec<(u32, u32, String)> = store
            .entries()
            .into_iter()
            .map(|(index, generation, value)| (index, generation, value.0.clone()))
            .collect();
        let bytes = bincode::serialize(&written).unwrap();
        let read: Vec<(u32, u32, String)> = bincode::deserialize(&bytes).unwrap();

        let mut copy = ComponentStore::<A>::default();
        let entries: Vec<(u32, u32, A)> = read
            .into_iter()
            .map(|(index, generation, value)| (index, generation, A(value)))
            .collect();
        assert!(entries_fit(&entries));
        assert_eq!(copy.load(&A::schema(), entries), Ok(()));

        assert_eq!(copy.bitset().0, store.bitset().0);
        for index in 0..2000 {
            for generation in 0..3 {
                let entity = Entity::new(index, generation);
                assert_eq!(copy.get(entity), store.get(entity));
            }
        }
        assert_eq!(copy.iter().count(), store.iter().count());
    }
}
