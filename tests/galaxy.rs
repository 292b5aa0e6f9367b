use candy_ecs::galaxy::{AccessError, Galaxy};

const POSITION: u64 = 10;
const VELOCITY: u64 = 11;
const TAG: u64 = 12;
const SCORE: u64 = 20;
const OTHER: u64 = 21;
const SCORE_CHANGED: u64 = 30;
const NOISE: u64 = 31;

#[derive(Clone, Copy, Debug, PartialEq)]
enum Comp {
    Position { x: i64, y: i64 },
    Velocity { x: i64, y: i64 },
    Tag,
}

#[derive(Clone, Copy, Debug, PartialEq)]
enum Ev {
    ScoreChanged(u64),
    Noise,
}

type World = Galaxy<u64, Comp, Ev>;

#[test]
fn inserted_entity_is_queried_once_and_gone_after_removal() {
    let mut g: World = Galaxy::new();
    let e = g.insert_entity();
    assert!(g.insert(e, TAG, Comp::Tag));
    let other = g.insert_entity();
    assert!(g.insert(other, TAG, Comp::Tag));
    let found = g.query(&vec![TAG]);
    assert_eq!(found.iter().filter(|x| **x == e).count(), 1);
    assert_eq!(found, vec![e, other]);
    g.remove_entity(e);
    assert_eq!(g.query(&vec![TAG]), vec![other]);
    assert!(g.update());
    assert_eq!(g.query(&vec![TAG]), vec![other]);
    assert_eq!(g.get_component(e, TAG), None);
}

#[test]
fn component_insert_overwrites() {
    let mut g: World = Galaxy::new();
    let e = g.insert_entity();
    assert!(g.insert(e, POSITION, Comp::Position { x: 1, y: 2 }));
    assert!(g.insert(e, POSITION, Comp::Position { x: 3, y: 4 }));
    assert_eq!(g.iter(POSITION), vec![Comp::Position { x: 3, y: 4 }]);
    assert_eq!(g.get_component(e, POSITION), Some(Comp::Position { x: 3, y: 4 }));
}

#[test]
fn query_over_two_kinds_needs_both() {
    let mut g: World = Galaxy::new();
    let a = g.insert_entity();
    let b = g.insert_entity();
    g.insert(a, POSITION, Comp::Position { x: 0, y: 0 });
    g.insert(b, POSITION, Comp::Position { x: 0, y: 0 });
    g.insert(b, VELOCITY, Comp::Velocity { x: 1, y: 1 });
    assert_eq!(g.query(&vec![POSITION, VELOCITY]), vec![b]);
    assert_eq!(g.query(&vec![VELOCITY, POSITION]), vec![b]);
    assert_eq!(g.query(&vec![]), vec![]);
    assert!(g.has_component(a, POSITION));
    assert!(!g.has_component(a, VELOCITY));
}

#[test]
fn stale_identifier_is_rejected_after_slot_reuse() {
    let mut g: World = Galaxy::new();
    let e = g.insert_entity();
    g.remove_entity(e);
    assert!(!g.is_alive(e));
    let f = g.insert_entity();
    assert_eq!(f.index, e.index);
    assert_eq!(f.generation, e.generation + 1);
    assert!(!g.insert(e, TAG, Comp::Tag));
    assert!(g.insert(f, TAG, Comp::Tag));
    assert_eq!(g.query(&vec![TAG]), vec![f]);
}

#[test]
fn resource_insert_then_read_and_replace() {
    let mut g: World = Galaxy::new();
    g.insert_resource(SCORE, 7);
    let guard = g.get_resource(SCORE).unwrap();
    assert_eq!(*g.read(&guard), 7);
    g.release_shared(guard);
    g.insert_resource(SCORE, 8);
    g.insert_resource(SCORE, 9);
    let guard = g.get_resource(SCORE).unwrap();
    assert_eq!(*g.read(&guard), 9);
    g.release_shared(guard);
}

#[test]
fn missing_resource_is_reported() {
    let mut g: World = Galaxy::new();
    assert_eq!(g.get_resource(SCORE).err(), Some(AccessError::Missing));
    assert_eq!(g.get_mut_resource(SCORE).err(), Some(AccessError::Missing));
}

#[test]
fn shared_borrow_blocks_exclusive_until_released() {
    let mut g: World = Galaxy::new();
    g.insert_resource(SCORE, 1);
    g.insert_resource(OTHER, 2);
    let shared = g.get_resource(SCORE).unwrap();
    assert_eq!(g.get_mut_resource(SCORE).err(), Some(AccessError::Aliased));
    let other = g.get_mut_resource(OTHER).unwrap();
    g.write(&other, 5);
    assert_eq!(*g.read_mut(&other), 5);
    g.release_exclusive(other);
    g.release_shared(shared);
    let exclusive = g.get_mut_resource(SCORE).unwrap();
    assert_eq!(g.get_resource(SCORE).err(), Some(AccessError::Aliased));
    assert_eq!(g.get_mut_resource(SCORE).err(), Some(AccessError::Aliased));
    g.release_exclusive(exclusive);
    assert!(g.get_resource(SCORE).is_ok());
}

#[test]
fn many_shared_borrows_coexist() {
    let mut g: World = Galaxy::new();
    g.insert_resource(SCORE, 3);
    let a = g.get_resource(SCORE).unwrap();
    let b = g.get_resource(SCORE).unwrap();
    assert_eq!(*g.read(&a) + *g.read(&b), 6);
    g.release_shared(a);
    assert!(g.get_mut_resource(SCORE).is_err());
    g.release_shared(b);
    assert!(g.get_mut_resource(SCORE).is_ok());
}

#[test]
fn events_live_for_one_frame() {
    let mut g: World = Galaxy::new();
    g.insert_event(SCORE_CHANGED, Ev::ScoreChanged(1));
    g.insert_event(NOISE, Ev::Noise);
    g.insert_event(SCORE_CHANGED, Ev::ScoreChanged(2));
    assert_eq!(g.get_events(SCORE_CHANGED), vec![Ev::ScoreChanged(1), Ev::ScoreChanged(2)]);
    assert_eq!(g.get_events(SCORE_CHANGED), vec![Ev::ScoreChanged(1), Ev::ScoreChanged(2)]);
    assert_eq!(g.get_events(NOISE), vec![Ev::Noise]);
    assert!(g.update());
    assert_eq!(g.get_events(SCORE_CHANGED), vec![]);
    assert_eq!(g.get_events(NOISE), vec![]);
}

#[test]
fn removing_twice_is_removing_once() {
    let mut g: World = Galaxy::new();
    let a = g.insert_entity();
    let b = g.insert_entity();
    g.insert(a, TAG, Comp::Tag);
    g.insert(b, TAG, Comp::Tag);
    g.remove_entity(a);
    g.remove_entity(a);
    assert!(!g.is_alive(a));
    assert!(g.is_alive(b));
    assert_eq!(g.query(&vec![TAG]), vec![b]);
    assert_eq!(g.get_component(b, TAG), Some(Comp::Tag));
}

#[test]
fn exit_ends_the_loop_after_the_frame() {
    let mut g: World = Galaxy::new();
    assert!(g.update());
    g.set_exit();
    g.insert_event(NOISE, Ev::Noise);
    assert!(!g.update());
    assert_eq!(g.get_events(NOISE), vec![]);
}

fn movement_system(g: &mut World) {
    for e in g.query(&vec![POSITION, VELOCITY]) {
        if let (Some(Comp::Position { x, y }), Some(Comp::Velocity { x: dx, y: dy })) =
            (g.get_component(e, POSITION), g.get_component(e, VELOCITY))
        {
            g.insert(e, POSITION, Comp::Position { x: x + dx, y: y + dy });
        }
    }
}

#[test]
fn velocity_moves_position_in_one_frame() {
    let mut g: World = Galaxy::new();
    let e = g.insert_entity();
    g.insert(e, POSITION, Comp::Position { x: 0, y: 0 });
    g.insert(e, VELOCITY, Comp::Velocity { x: 1, y: 0 });
    movement_system(&mut g);
    assert!(g.update());
    assert_eq!(g.iter(POSITION), vec![Comp::Position { x: 1, y: 0 }]);
}

fn score_init(g: &mut World) {
    g.insert_resource(SCORE, 0);
}

fn score_system(g: &mut World) {
    let guard = g.get_mut_resource(SCORE).unwrap();
    let value = *g.read_mut(&guard) + 1;
    g.write(&guard, value);
    g.release_exclusive(guard);
    g.insert_event(SCORE_CHANGED, Ev::ScoreChanged(value));
}

#[test]
fn score_counts_frames_and_announces_each() {
    let mut g: World = Galaxy::new();
    let pre_updates: Vec<fn(&mut World)> = vec![score_init];
    let systems: Vec<fn(&mut World)> = vec![score_system];
    for s in pre_updates.iter() {
        s(&mut g);
    }
    g.update();
    let mut frame_four = vec![];
    let mut frame_five = vec![];
    for frame in 1..=5 {
        for s in systems.iter() {
            s(&mut g);
        }
        if frame == 4 {
            frame_four = g.get_events(SCORE_CHANGED);
        }
        if frame == 5 {
            frame_five = g.get_events(SCORE_CHANGED);
        }
        if frame < 5 {
            assert!(g.update());
        }
    }
    let guard = g.get_resource(SCORE).unwrap();
    assert_eq!(*g.read(&guard), 5);
    g.release_shared(guard);
    assert_eq!(frame_five, vec![Ev::ScoreChanged(5)]);
    assert_eq!(frame_four, vec![Ev::ScoreChanged(4)]);
}
