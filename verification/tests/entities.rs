use std::rc::Rc;

use bones_ecs::bitset::{create_bitset, BitSetVec, BITSET_SIZE};
use bones_ecs::entities::{Entities, Entity};

fn collect(entities: &Entities, filter: BitSetVec) -> Vec<Entity> {
    let mut found = Vec::new();
    let mut iter = entities.iter_with_bitset(Rc::new(filter));
    while let Some(entity) = iter.next() {
        found.push(entity);
    }
    found
}

#[test]
fn entities_are_equal_when_index_and_generation_are() {
    assert_eq!(Entity::new(3, 1), Entity::new(3, 1));
    assert_ne!(Entity::new(3, 1), Entity::new(3, 2));
    assert_ne!(Entity::new(3, 1), Entity::new(4, 1));
    let entity = Entity::new(7, 9);
    assert_eq!(entity.index(), 7);
    assert_eq!(entity.generation(), 9);
}

#[test]
fn new_entities_take_indices_in_order() {
    let mut entities = Entities::default();
    assert_eq!(entities.capacity(), 0);
    assert_eq!(entities.create(), Entity::new(0, 0));
    assert_eq!(entities.create(), Entity::new(1, 0));
    assert_eq!(entities.create(), Entity::new(2, 0));
    assert_eq!(entities.capacity(), 3);
    assert!(entities.is_alive(Entity::new(1, 0)));
    assert!(!entities.is_alive(Entity::new(3, 0)));
    assert!(!entities.is_alive(Entity::new(1, 1)));
}

#[test]
fn recreated_entity_has_a_greater_generation() {
    let mut entities = Entities::new();
    let e = entities.create();
    assert!(entities.is_alive(e));
    assert!(entities.kill(e));
    assert!(!entities.is_alive(e));
    let again = entities.create();
    assert_eq!(again.index(), e.index());
    assert!(again.generation() > e.generation());
    assert_eq!(again, Entity::new(0, 1));
    assert!(!entities.is_alive(e));
    assert!(entities.is_alive(again));
}

#[test]
fn killing_a_dead_entity_changes_nothing() {
    let mut entities = Entities::new();
    let a = entities.create();
    let b = entities.create();
    assert!(entities.kill(a));
    assert!(!entities.kill(a));
    assert!(!entities.kill(Entity::new(99, 0)));
    assert!(!entities.kill(Entity::new(u32::MAX, 0)));
    assert!(!entities.kill(Entity::new(b.index(), b.generation() + 1)));
    assert!(entities.is_alive(b));
    assert_eq!(entities.generations().clone(), vec![1, 0]);
}

#[test]
fn the_smallest_free_index_is_taken_first() {
    let mut entities = Entities::new();
    let all: Vec<Entity> = (0..600).map(|_| entities.create()).collect();
    assert!(entities.kill(all[400]));
    assert!(entities.kill(all[17]));
    assert!(entities.kill(all[300]));
    assert_eq!(entities.create(), Entity::new(17, 1));
    assert_eq!(entities.create(), Entity::new(300, 1));
    assert_eq!(entities.create(), Entity::new(400, 1));
    assert_eq!(entities.create(), Entity::new(600, 0));
    assert_eq!(entities.capacity(), 601);
}

#[test]
fn the_live_bitset_follows_create_and_kill() {
    let mut entities = Entities::new();
    let a = entities.create();
    let b = entities.create();
    assert!(entities.bitset().contains(a));
    assert!(entities.bitset().contains(b));
    entities.kill(a);
    assert!(!entities.bitset().contains(a));
    assert_eq!(entities.bitset().min(), Some(1));
}

#[test]
fn live_entities_in_a_bitset_come_in_ascending_order() {
    let mut entities = Entities::new();
    let all: Vec<Entity> = (0..10).map(|_| entities.create()).collect();
    entities.kill(all[4]);
    entities.kill(all[2]);
    let two = entities.create();
    assert_eq!(two, Entity::new(2, 1));

    let mut filter = create_bitset();
    for bit in [9usize, 2, 4, 7, 500] {
        filter.bit_set(bit);
    }
    assert_eq!(
        collect(&entities, filter),
        vec![Entity::new(2, 1), Entity::new(7, 0), Entity::new(9, 0)]
    );
    assert_eq!(collect(&entities, create_bitset()), vec![]);
    assert_eq!(collect(&entities, BitSetVec(vec![])), vec![]);
    assert_eq!(collect(&entities, entities.bitset().clone()).len(), 9);
}

#[test]
fn a_walk_that_is_over_stays_over() {
    let mut entities = Entities::new();
    entities.create();
    let mut iter = entities.iter_with_bitset(Rc::new(entities.bitset().clone()));
    assert_eq!(iter.next(), Some(Entity::new(0, 0)));
    assert_eq!(iter.next(), None);
    assert_eq!(iter.next(), None);
}

#[test]
fn room_ends_at_the_limit_and_comes_back_with_a_kill() {
    let mut entities = Entities::new();
    let mut last = None;
    for _ in 0..BITSET_SIZE {
        assert!(entities.has_room());
        last = Some(entities.create());
    }
    assert_eq!(last, Some(Entity::new((BITSET_SIZE - 1) as u32, 0)));
    assert!(!entities.has_room());
    assert_eq!(entities.try_create(), None);
    assert_eq!(entities.capacity(), BITSET_SIZE);
    assert!(entities.kill(Entity::new(12345, 0)));
    assert!(entities.has_room());
    assert_eq!(entities.try_create(), Some(Entity::new(12345, 1)));
    assert!(!entities.has_room());
}

#[test]
fn parts_that_fit_make_an_allocator() {
    let mut entities = Entities::new();
    let a = entities.create();
    let b = entities.create();
    entities.kill(a);
    let alive = BitSetVec::from_sparse_chunks(&entities.bitset().to_sparse_chunks());
    let generations = entities.generations().clone();
    let mut copy = Entities::from_parts(alive, generations).unwrap();
    assert!(copy.is_alive(b));
    assert!(!copy.is_alive(a));
    assert_eq!(copy.create(), Entity::new(0, 1));
}

#[test]
fn parts_that_do_not_fit_are_refused() {
    // a bitset that is too short
    assert!(Entities::from_parts(BitSetVec(vec![[0; 8]; 3]), vec![]).is_none());
    // a live slot without a counter
    let mut alive = create_bitset();
    alive.bit_set(2);
    assert!(Entities::from_parts(alive.clone(), vec![0, 0]).is_none());
    assert!(Entities::from_parts(alive.clone(), vec![0, 0, 0]).is_some());
    // a live slot whose counter is at its last value
    assert!(Entities::from_parts(alive, vec![0, 0, u32::MAX]).is_none());
    // more counters than entities can be alive
    assert!(Entities::from_parts(create_bitset(), vec![0; BITSET_SIZE + 1]).is_none());
    assert!(Entities::from_parts(create_bitset(), vec![0; BITSET_SIZE]).is_some());
}

#[test]
fn a_slot_whose_counter_is_used_up_is_retired() {
    let mut alive = create_bitset();
    alive.bit_set(0);
    alive.bit_set(1);
    let mut entities = Entities::from_parts(alive, vec![u32::MAX - 1, 5]).unwrap();
    let old = Entity::new(0, u32::MAX - 1);
    assert!(entities.is_alive(old));
    assert!(entities.kill(old));
    assert!(!entities.is_alive(old));
    assert_eq!(entities.generations().clone(), vec![u32::MAX, 5]);
    // index 0 is not handed out again
    assert_eq!(entities.create(), Entity::new(2, 0));
    assert!(!entities.is_alive(Entity::new(0, u32::MAX)));
    assert!(!entities.kill(Entity::new(0, u32::MAX)));
}
