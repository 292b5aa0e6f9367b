use candy_ecs::galaxy::Galaxy;
use candy_ecs::schedule::{end_frame, runs_systems, Phase};

type World = Galaxy<u8, u8, u8>;

#[test]
fn start_up_then_frames_until_exit() {
    let mut g: World = Galaxy::new();
    assert!(!runs_systems(Phase::Init));
    g.insert_event(1, 5);
    let phase = end_frame(Phase::Init, &mut g);
    assert_eq!(phase, Phase::Running);
    assert!(runs_systems(phase));
    assert_eq!(g.get_events(1), vec![]);
    g.insert_event(1, 6);
    g.set_exit();
    let phase = end_frame(phase, &mut g);
    assert_eq!(phase, Phase::Stopped);
    assert!(!runs_systems(phase));
    assert_eq!(g.get_events(1), vec![]);
}

#[test]
fn stopped_loop_leaves_events_alone() {
    let mut g: World = Galaxy::new();
    g.insert_event(2, 9);
    assert_eq!(end_frame(Phase::Stopped, &mut g), Phase::Stopped);
    assert_eq!(g.get_events(2), vec![9]);
}
