use std::rc::Rc;

use bones_ecs::components::typed::{ComponentIterBitset, ComponentStore};
use bones_ecs::entities::Entities;
use bones_ecs::schema::{HasSchema, Primitive, Schema};
use bones_ecs::stages::{CoreStage, SystemId, SystemStages};

#[derive(Clone, Copy, Debug, PartialEq, Default)]
struct Pos {
    x: f32,
    y: f32,
}

#[derive(Clone, Copy, Debug, PartialEq, Default)]
struct Vel {
    x: f32,
    y: f32,
}

fn pair_of_floats() -> Schema {
    Schema::Struct(vec![
        Schema::Primitive(Primitive::F32),
        Schema::Primitive(Primitive::F32),
    ])
}

impl HasSchema for Pos {
    fn schema() -> Schema {
        pair_of_floats()
    }
}

impl HasSchema for Vel {
    fn schema() -> Schema {
        pair_of_floats()
    }
}

struct World {
    entities: Entities,
    positions: ComponentStore<Pos>,
    velocities: ComponentStore<Vel>,
}

const SPAWN: SystemId = SystemId(0);
const MOVE: SystemId = SystemId(1);

fn spawn(world: &mut World) {
    let first = world.entities.create();
    world.positions.insert(first, Pos { x: 0., y: 0. });
    world.velocities.insert(first, Vel { x: 3., y: 1. });
    let second = world.entities.create();
    world.positions.insert(second, Pos { x: 0., y: 100. });
    world.velocities.insert(second, Vel { x: 0., y: -1. });
}

fn pos_vel(world: &mut World) {
    let mut joined = world.entities.bitset().clone();
    joined.bit_and(world.positions.bitset());
    joined.bit_and(world.velocities.bitset());
    let joined = Rc::new(joined);
    let mut velocities = world.velocities.iter_with_bitset(joined.clone());
    let mut positions = world.positions.iter_mut_with_bitset(joined);
    while let Some(pos) = positions.next() {
        let vel = velocities.next().unwrap();
        pos.x += vel.x;
        pos.y += vel.y;
    }
    assert!(velocities.next().is_none());
}

fn tick(stages: &mut SystemStages, world: &mut World) {
    for system in stages.run() {
        if system == SPAWN {
            spawn(world);
        } else if system == MOVE {
            pos_vel(world);
        } else {
            unreachable!();
        }
    }
}

fn positions(world: &World) -> Vec<Pos> {
    let mut found = Vec::new();
    let mut iter = world
        .positions
        .iter_with_bitset(Rc::new(world.entities.bitset().clone()));
    while let Some(pos) = iter.next() {
        found.push(*pos);
    }
    found
}

fn new_world() -> World {
    World {
        entities: Entities::new(),
        positions: ComponentStore::default(),
        velocities: ComponentStore::default(),
    }
}

#[test]
fn positions_follow_velocities_tick_by_tick() {
    let mut world = new_world();
    let mut stages = SystemStages::with_core_stages();
    stages.add_startup_system(SPAWN);
    stages.add_system_to_stage(CoreStage::Update.index(), MOVE);

    tick(&mut stages, &mut world);
    assert_eq!(
        positions(&world),
        vec![Pos { x: 3., y: 1. }, Pos { x: 0., y: 99. }]
    );
    for _ in 1..10 {
        tick(&mut stages, &mut world);
    }
    assert_eq!(
        positions(&world),
        vec![Pos { x: 30., y: 10. }, Pos { x: 0., y: 90. }]
    );
}

#[test]
fn startup_stage_runs_exactly_once() {
    let n = 7;
    let mut entities = Entities::new();
    let mut stages = SystemStages::with_core_stages();
    stages.add_startup_system(SystemId(42));
    let mut runs = 0;
    for _ in 0..10 {
        for system in stages.run() {
            assert_eq!(system, SystemId(42));
            runs += 1;
            for _ in 0..n {
                entities.create();
            }
        }
    }
    assert_eq!(runs, 1);
    assert_eq!(entities.capacity(), n);
    let mut count = 0;
    let mut iter = entities.iter_with_bitset(Rc::new(entities.bitset().clone()));
    while iter.next().is_some() {
        count += 1;
    }
    assert_eq!(count, n);
}

#[test]
fn core_stages_are_set_up_in_their_order() {
    let stages = SystemStages::with_core_stages();
    assert_eq!(stages.len(), 4);
    assert!(!stages.has_started());
    let names: Vec<&str> = (0..4).map(|k| stages.stage(k).name().as_str()).collect();
    assert_eq!(names, vec!["Startup", "PreUpdate", "Update", "PostUpdate"]);
    let startup: Vec<bool> = (0..4).map(|k| stages.stage(k).is_startup()).collect();
    assert_eq!(startup, vec![true, false, false, false]);
    assert_eq!(stages.startup_stage(), Some(0));
    assert_eq!(CoreStage::Startup.index(), 0);
    assert_eq!(CoreStage::PreUpdate.index(), 1);
    assert_eq!(CoreStage::Update.index(), 2);
    assert_eq!(CoreStage::PostUpdate.index(), 3);
}

#[test]
fn systems_run_in_the_order_of_stages_and_of_declaration() {
    let mut stages = SystemStages::with_core_stages();
    stages.add_system_to_stage(CoreStage::PostUpdate.index(), SystemId(30));
    stages.add_system_to_stage(CoreStage::Update.index(), SystemId(20));
    stages.add_system_to_stage(CoreStage::PreUpdate.index(), SystemId(10));
    stages.add_system_to_stage(CoreStage::Update.index(), SystemId(21));
    stages.add_startup_system(SystemId(1));
    stages.add_startup_system(SystemId(2));
    stages.add_system_to_stage(CoreStage::Update.index(), SystemId(20));

    let first: Vec<usize> = stages.run().iter().map(|system| system.0).collect();
    assert_eq!(first, vec![1, 2, 10, 20, 21, 20, 30]);
    assert!(stages.has_started());
    let later: Vec<usize> = stages.run().iter().map(|system| system.0).collect();
    assert_eq!(later, vec![10, 20, 21, 20, 30]);
    assert_eq!(stages.stage(2).systems().len(), 3);
}

#[test]
fn stages_and_systems_can_be_appended_between_ticks() {
    let mut stages = SystemStages::new();
    assert_eq!(stages.startup_stage(), None);
    assert_eq!(stages.run(), vec![]);
    assert!(stages.has_started());

    let update = stages.add_stage("update".to_string(), false);
    let late_startup = stages.add_stage("setup".to_string(), true);
    assert_eq!((update, late_startup), (0, 1));
    assert_eq!(stages.startup_stage(), Some(1));
    stages.add_system_to_stage(update, SystemId(5));
    stages.add_startup_system(SystemId(6));
    // the first tick is over: a startup stage that comes late never runs
    assert_eq!(stages.run(), vec![SystemId(5)]);
    stages.add_system_to_stage(update, SystemId(7));
    assert_eq!(stages.run(), vec![SystemId(5), SystemId(7)]);
}

#[test]
fn startup_stages_run_at_their_place_in_the_first_tick() {
    let mut stages = SystemStages::new();
    let a = stages.add_stage("a".to_string(), false);
    let b = stages.add_stage("b".to_string(), true);
    let c = stages.add_stage("c".to_string(), false);
    let d = stages.add_stage("d".to_string(), true);
    stages.add_system_to_stage(a, SystemId(1));
    stages.add_system_to_stage(b, SystemId(2));
    stages.add_system_to_stage(c, SystemId(3));
    stages.add_system_to_stage(d, SystemId(4));
    assert_eq!(
        stages.run(),
        vec![SystemId(1), SystemId(2), SystemId(3), SystemId(4)]
    );
    assert_eq!(stages.run(), vec![SystemId(1), SystemId(3)]);
}
