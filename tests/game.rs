use candy_ecs::galaxy::AccessError;
use candy_ecs::game::{
    candyland_keys, CandylandOutcome,
    game_quit, game_state_gate_update, house_may_enter, intro_update, score_render_update,
    spawn_score_decrement, spawn_score_increment, GameComponent, Key, KeyInput, SCORE_POP_COMPONENT,
    SCORE_RESOURCE,
    audio_coin, audio_door, audio_no, audio_punch, audio_success, candyland_init, graphics_init,
    graphics_update, is_won, load_init, penalized_score, player_init, run, score_digits,
    triggers_anger, Candyland, GameEvent, GameGalaxy, GameResource, GameState, TextureData,
    CANDYLAND_RESOURCE, CAMERA_RESOURCE, DRAW_SPRITE_EVENT, PLAYER_RESOURCE,
    SOUND_EVENT, STATE_RESOURCE, TEXTURES_RESOURCE, WINDOW_EVENT,
};

type Game = GameGalaxy<u32, u8, u16>;

fn state_of(g: &mut Game) -> GameState {
    let guard = g.get_resource(STATE_RESOURCE).unwrap();
    let r = match g.read(&guard) {
        GameResource::State(s) => *s,
        _ => panic!("not a state"),
    };
    g.release_shared(guard);
    r
}

#[test]
fn game_starts_at_intro() {
    let mut g: Game = run();
    assert_eq!(state_of(&mut g), GameState::Intro);
}

#[test]
fn candyland_starts_fresh_and_resets() {
    let mut g: Game = run();
    candyland_init(&mut g);
    let guard = g.get_resource(CANDYLAND_RESOURCE).unwrap();
    match g.read(&guard) {
        GameResource::Candyland(c) => {
            assert_eq!(c.candy_stolen, 0);
            assert_eq!(c.time_of_anger, None);
        }
        _ => panic!("not a candy house"),
    }
    g.release_shared(guard);
    let mut c = Candyland { candy_stolen: 7, time_of_anger: Some(1200) };
    c.reset();
    assert_eq!(c, Candyland::new());
}

#[test]
fn sounds_are_requested_as_events() {
    let mut g: Game = run();
    audio_door(&mut g);
    audio_success(&mut g);
    audio_punch(&mut g);
    audio_coin(&mut g);
    audio_no(&mut g);
    let sounds: Vec<usize> = g
        .get_events(SOUND_EVENT)
        .into_iter()
        .map(|e| match e {
            GameEvent::Sound(i) => i,
            _ => panic!("not a sound"),
        })
        .collect();
    assert_eq!(sounds, vec![0, 1, 2, 3, 4]);
}

#[test]
fn textures_start_with_white_pixel() {
    let mut g: Game = run();
    let tex = TextureData::from_bytes(&[1, 2, 3, 4, 5, 6, 7, 8], 2, 1);
    load_init(&mut g, vec![tex]);
    let guard = g.get_resource(TEXTURES_RESOURCE).unwrap();
    match g.read(&guard) {
        GameResource::Textures(t) => {
            assert_eq!(t.0.len(), 2);
            assert_eq!(t.0[0].data, vec![255, 255, 255, 255]);
            assert_eq!((t.0[0].width, t.0[0].height), (1, 1));
            assert_eq!(t.0[1].data, vec![1, 2, 3, 4, 5, 6, 7, 8]);
            assert_eq!((t.0[1].width, t.0[1].height), (2, 1));
        }
        _ => panic!("not textures"),
    }
    g.release_shared(guard);
}

#[test]
fn host_resources_are_stored() {
    let mut g: Game = run();
    player_init(&mut g, 11);
    graphics_init(&mut g, 13);
    for (key, want) in [(PLAYER_RESOURCE, 11), (CAMERA_RESOURCE, 13)] {
        let guard = g.get_resource(key).unwrap();
        match g.read(&guard) {
            GameResource::Host(v) => assert_eq!(*v, want),
            _ => panic!("not a host value"),
        }
        g.release_shared(guard);
    }
}

#[test]
fn draw_requests_are_collected_in_order() {
    let mut g: Game = run();
    g.insert_event(DRAW_SPRITE_EVENT, GameEvent::Draw(3));
    g.insert_event(WINDOW_EVENT, GameEvent::Window(KeyInput { key: Key::W, released: false }));
    g.insert_event(DRAW_SPRITE_EVENT, GameEvent::Draw(1));
    assert_eq!(graphics_update(&g), vec![3, 1]);
    g.update();
    assert_eq!(graphics_update(&g), Vec::<u16>::new());
}

#[test]
fn anger_needs_more_than_four_candies() {
    assert!(!triggers_anger(4, true));
    assert!(triggers_anger(5, true));
    assert!(!triggers_anger(5, false));
    assert!(triggers_anger(15, false));
    assert!(!triggers_anger(14, false));
}

#[test]
fn penalty_is_clamped() {
    assert_eq!(penalized_score(0), 0);
    assert_eq!(penalized_score(6), 0);
    assert_eq!(penalized_score(10), 4);
    assert_eq!(penalized_score(10_010), 9999);
}

#[test]
fn win_at_one_hundred() {
    assert!(!is_won(99));
    assert!(is_won(100));
}

#[test]
fn score_digits_most_significant_first() {
    assert_eq!(score_digits(0), Vec::<usize>::new());
    assert_eq!(score_digits(7), vec![7]);
    assert_eq!(score_digits(105), vec![1, 0, 5]);
}

use candy_ecs::game::{anger_expired, may_leave, steal, StealOutcome};

#[test]
fn stealing_counts_and_angers_on_chance() {
    let calm = Candyland::new();
    let r = steal(calm, 10, true, 500);
    assert_eq!(
        r,
        StealOutcome {
            visit: Candyland { candy_stolen: 1, time_of_anger: None },
            score: 11,
            stolen: true,
            angered: false,
        }
    );
    let five = Candyland { candy_stolen: 4, time_of_anger: None };
    let r = steal(five, 3, true, 700);
    assert_eq!(r.visit, Candyland { candy_stolen: 5, time_of_anger: Some(700) });
    assert!(r.angered);
    assert_eq!(r.score, 4);
    let r = steal(Candyland { candy_stolen: 14, time_of_anger: None }, 0, false, 9);
    assert!(r.angered);
    assert_eq!(r.visit.candy_stolen, 15);
}

#[test]
fn no_stealing_while_angry() {
    let angry = Candyland { candy_stolen: 6, time_of_anger: Some(100) };
    let r = steal(angry, 20, true, 200);
    assert_eq!(r, StealOutcome { visit: angry, score: 20, stolen: false, angered: false });
    assert!(!may_leave(&angry));
    assert!(may_leave(&Candyland::new()));
}

#[test]
fn anger_lasts_three_seconds() {
    let angry = Candyland { candy_stolen: 6, time_of_anger: Some(1000) };
    assert!(!anger_expired(&angry, 4000));
    assert!(anger_expired(&angry, 4001));
    assert!(!anger_expired(&angry, 10));
    assert!(!anger_expired(&Candyland::new(), 100_000));
}

#[test]
fn png_decodes_to_rgba_pixels() {
    let pixels = vec![10u8, 20, 30, 255, 40, 50, 60, 128];
    let img = image::RgbaImage::from_raw(2, 1, pixels.clone()).unwrap();
    let mut out = std::io::Cursor::new(Vec::new());
    img.write_to(&mut out, image::ImageOutputFormat::Png).unwrap();
    let bytes = out.into_inner();
    let tex = TextureData::load(&bytes).unwrap();
    assert_eq!(tex.width, 2);
    assert_eq!(tex.height, 1);
    assert_eq!(tex.data, pixels);
}

#[test]
fn garbage_is_no_texture() {
    assert!(TextureData::load(&[1, 2, 3, 4, 5]).is_none());
}

fn score_of(g: &mut Game) -> usize {
    let guard = g.get_resource(SCORE_RESOURCE).unwrap();
    let r = match g.read(&guard) {
        GameResource::Score(s) => *s,
        _ => panic!("not a score"),
    };
    g.release_shared(guard);
    r
}

#[test]
fn player_starts_with_zero_score_replacing_any_other() {
    let mut g: Game = run();
    g.insert_resource(SCORE_RESOURCE, GameResource::Score(7));
    player_init(&mut g, 11);
    assert_eq!(score_of(&mut g), 0);
}

#[test]
fn quit_key_asks_for_exit() {
    let mut g: Game = run();
    g.insert_event(WINDOW_EVENT, GameEvent::Window(KeyInput { key: Key::W, released: true }));
    game_quit(&mut g);
    assert!(g.update());
    g.insert_event(WINDOW_EVENT, GameEvent::Window(KeyInput { key: Key::Q, released: false }));
    game_quit(&mut g);
    assert!(!g.update());
}

#[test]
fn gate_reports_the_scene() {
    let mut g: Game = run();
    assert_eq!(game_state_gate_update(&g), Some(GameState::Intro));
    let guard = g.get_mut_resource(STATE_RESOURCE).unwrap();
    assert_eq!(game_state_gate_update(&g), None);
    g.release_exclusive(guard);
    g.insert_resource(STATE_RESOURCE, GameResource::State(GameState::CandyLand));
    assert_eq!(game_state_gate_update(&g), Some(GameState::CandyLand));
}

#[test]
fn intro_ends_on_any_key() {
    let mut g: Game = run();
    assert_eq!(intro_update(&mut g), Ok(()));
    assert_eq!(state_of(&mut g), GameState::Intro);
    g.insert_event(WINDOW_EVENT, GameEvent::Window(KeyInput { key: Key::Other, released: true }));
    let guard = g.get_resource(STATE_RESOURCE).unwrap();
    assert_eq!(intro_update(&mut g), Err(AccessError::Aliased));
    g.release_shared(guard);
    assert_eq!(state_of(&mut g), GameState::Intro);
    assert_eq!(intro_update(&mut g), Ok(()));
    assert_eq!(state_of(&mut g), GameState::MapScene);
}

#[test]
fn score_display_and_win() {
    let mut g: Game = run();
    assert_eq!(score_render_update(&mut g), Err(AccessError::Missing));
    player_init(&mut g, 1);
    assert_eq!(score_render_update(&mut g), Ok(vec![]));
    g.insert_resource(SCORE_RESOURCE, GameResource::Score(42));
    assert_eq!(score_render_update(&mut g), Ok(vec![4, 2]));
    assert_eq!(state_of(&mut g), GameState::Intro);
    assert!(g.get_events(SOUND_EVENT).is_empty());
    g.insert_resource(SCORE_RESOURCE, GameResource::Score(100));
    let guard = g.get_resource(STATE_RESOURCE).unwrap();
    assert_eq!(score_render_update(&mut g), Err(AccessError::Aliased));
    g.release_shared(guard);
    assert_eq!(state_of(&mut g), GameState::Intro);
    assert!(g.get_events(SOUND_EVENT).is_empty());
    let score_guard = g.get_mut_resource(SCORE_RESOURCE).unwrap();
    assert_eq!(score_render_update(&mut g), Err(AccessError::Aliased));
    g.release_exclusive(score_guard);
    assert_eq!(score_render_update(&mut g), Ok(vec![1, 0, 0]));
    assert_eq!(state_of(&mut g), GameState::Outro);
    assert_eq!(g.get_events(SOUND_EVENT).len(), 1);
}

#[test]
fn score_markers_are_fresh_entities() {
    let mut g: Game = run();
    let a = spawn_score_increment(&mut g, 5);
    let b = spawn_score_decrement(&mut g, 6);
    assert_ne!(a, b);
    assert_eq!(g.query(&vec![SCORE_POP_COMPONENT]), vec![a, b]);
    match g.get_component(a, SCORE_POP_COMPONENT) {
        Some(GameComponent::ScorePop { positive, body }) => assert_eq!((positive, body), (true, 5)),
        _ => panic!("no marker"),
    }
    match g.get_component(b, SCORE_POP_COMPONENT) {
        Some(GameComponent::ScorePop { positive, body }) => assert_eq!((positive, body), (false, 6)),
        _ => panic!("no marker"),
    }
}

#[test]
fn house_cooldown_is_thirty_seconds() {
    assert!(house_may_enter(None, 0));
    assert!(!house_may_enter(Some(1000), 30_999));
    assert!(house_may_enter(Some(1000), 31_000));
    assert!(!house_may_enter(Some(5000), 10));
}

fn key(key: Key, released: bool) -> KeyInput {
    KeyInput { key, released }
}

#[test]
fn candy_house_frame_steals_and_leaves() {
    let calm = Candyland::new();
    let keys = vec![key(Key::E, true), key(Key::E, false), key(Key::E, true)];
    let r = candyland_keys(calm, 10, &keys, &vec![false, false, false], 0);
    assert_eq!(
        r,
        CandylandOutcome {
            visit: Candyland { candy_stolen: 2, time_of_anger: None },
            score: 12,
            leave: false,
            coins: 2,
            angered: false,
            punished: false,
        }
    );
    let r = candyland_keys(r.visit, r.score, &vec![key(Key::Escape, false)], &vec![true], 5);
    assert!(r.leave);
    assert_eq!(r.visit, Candyland::new());
    assert_eq!(r.score, 12);
}

#[test]
fn candy_house_frame_anger_blocks_then_punishes() {
    let four = Candyland { candy_stolen: 4, time_of_anger: None };
    let keys = vec![key(Key::E, true), key(Key::E, true), key(Key::Escape, true)];
    let r = candyland_keys(four, 20, &keys, &vec![true, true, true], 100);
    assert_eq!(r.visit, Candyland { candy_stolen: 5, time_of_anger: Some(100) });
    assert_eq!((r.score, r.coins, r.angered, r.leave, r.punished), (21, 1, true, false, false));
    let r = candyland_keys(r.visit, r.score, &vec![], &vec![], 3101);
    assert!(r.punished && r.leave);
    assert_eq!(r.score, 15);
    assert_eq!(r.visit, Candyland::new());
}

#[test]
fn fresh_game_holds_only_its_state() {
    let g: Game = run();
    assert!(g.query(&vec![SCORE_POP_COMPONENT]).is_empty());
    assert_eq!(game_state_gate_update(&g), Some(GameState::Intro));
}
