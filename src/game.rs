//! The game's use of the container: its resources, events and component
//! kinds, the systems that touch only integer state, and the integer rules
//! of scoring and the candy house.
//!
//! Values that the host (window, renderer, audio, float physics) owns travel
//! through the container as opaque payloads of type `H` (resources), `K`
//! (components) and `S` (events).
use vstd::prelude::*;
use crate::galaxy::{AccessError, Galaxy, GalaxyView};

verus! {

pub const STATE_RESOURCE: u64 = 0;
pub const CANDYLAND_RESOURCE: u64 = 1;
pub const TEXTURES_RESOURCE: u64 = 2;
pub const PLAYER_RESOURCE: u64 = 3;
pub const CAMERA_RESOURCE: u64 = 4;
pub const SCORE_RESOURCE: u64 = 5;

pub const SOUND_EVENT: u64 = 0;
pub const DRAW_SPRITE_EVENT: u64 = 1;
pub const WINDOW_EVENT: u64 = 2;
pub const RESIZE_EVENT: u64 = 3;

pub const SCORE_POP_COMPONENT: u64 = 0;
pub const CANDY_COMPONENT: u64 = 1;
pub const HOUSE_COMPONENT: u64 = 2;
pub const NPC_COMPONENT: u64 = 3;

pub const SOUND_DOOR: usize = 0;
pub const SOUND_SUCCESS: usize = 1;
pub const SOUND_PUNCH: usize = 2;
pub const SOUND_COIN: usize = 3;
pub const SOUND_NO: usize = 4;

/// Candy stolen in one visit after which the owner always gets angry.
pub const ABSOLUTE_STEAL_MAX: usize = 15;
/// Candy that can be stolen in one visit without any risk.
pub const SAFE_STEAL_COUNT: usize = 4;
/// Score lost when caught stealing.
pub const ANGER_PENALTY: usize = 6;
/// How long the owner stays angry before throwing the player out, in milliseconds.
pub const ANGER_DURATION_MS: u64 = 3000;
/// The largest score shown.
pub const MAX_SCORE: usize = 9999;
/// The score that ends the game.
pub const WIN_SCORE: usize = 100;
/// How long a house stays closed after the player entered it, in milliseconds.
pub const HOUSE_COOLDOWN_MS: u64 = 30000;

/// A key the game reacts to.
#[derive(PartialEq, Eq, Structural, Clone, Copy, Debug)]
pub enum Key {
    W,
    A,
    S,
    D,
    E,
    F,
    Q,
    Escape,
    Other,
}

/// A keyboard occurrence: which key, and whether it was released.
#[derive(PartialEq, Eq, Structural, Clone, Copy, Debug)]
pub struct KeyInput {
    pub key: Key,
    pub released: bool,
}

/// The scene the game is in.
#[derive(PartialEq, Eq, Structural, Clone, Copy, Debug)]
pub enum GameState {
    Intro,
    Outro,
    MapScene,
    CandyLand,
}

/// The state of a visit to the candy house. Times are milliseconds on the
/// host's monotonic clock.
#[derive(PartialEq, Eq, Structural, Clone, Copy, Debug)]
pub struct Candyland {
    pub candy_stolen: usize,
    pub time_of_anger: Option<u64>,
}

impl Candyland {
    /// A visit with nothing stolen and no anger.
    pub fn new() -> (r: Candyland)
        ensures
            r.candy_stolen == 0,
            r.time_of_anger.is_none(),
    {
        Candyland { candy_stolen: 0, time_of_anger: None }
    }

    /// Back to the state of a fresh visit.
    pub fn reset(&mut self)
        ensures
            final(self).candy_stolen == 0,
            final(self).time_of_anger.is_none(),
    {
        *self = Candyland::new();
    }
}

/// RGBA pixels of one texture, row by row.
pub struct TextureData {
    pub data: Vec<u8>,
    pub width: usize,
    pub height: usize,
}

impl TextureData {
    pub fn from_bytes(colors: &[u8], width: usize, height: usize) -> (r: TextureData)
        ensures
            r.data@ == colors@,
            r.width == width,
            r.height == height,
    {
        TextureData { data: vstd::slice::slice_to_vec(colors), width, height }
    }

    /// Decodes an encoded image (PNG or JPEG) into RGBA pixels; `None` when
    /// the bytes are not an image of a supported format.
    pub fn load(bytes: &[u8]) -> (r: Option<TextureData>)
        ensures
            r.is_some() == decoded_rgba(bytes@).is_some(),
            r matches Some(t) ==> decoded_rgba(bytes@) == Some((t.data@, t.width as u32, t.height as u32))
                && t.width <= u32::MAX && t.height <= u32::MAX
                && t.data@.len() == 4 * t.width * t.height,
    {
        match decode_rgba(bytes) {
            Some((data, width, height)) => Some(TextureData { data, width: width as usize, height: height as usize }),
            None => None,
        }
    }
}

/// The RGBA pixels, width and height of the image that `bytes` encode, or
/// `None` when they encode no image of a supported format.
pub uninterp spec fn decoded_rgba(bytes: Seq<u8>) -> Option<(Seq<u8>, u32, u32)>;

/// Relies on `image::load_from_memory`, which guesses the format from the
/// bytes and decodes them, and on `DynamicImage::to_rgba8` with
/// `ImageBuffer::dimensions` and `ImageBuffer::into_raw` for the pixels,
/// four bytes each (`to_rgba8` fills a buffer from `ImageBuffer::new`, which
/// holds width times height pixels), and the size. Decoding depends on the
/// bytes alone: PNG decoding is exact, and the JPEG decoder is built with
/// `platform_independent`, which rules out its machine-dependent SIMD paths.
#[verifier::external_body]
fn decode_rgba(bytes: &[u8]) -> (r: Option<(Vec<u8>, u32, u32)>)
    ensures
        match r {
            Some((data, width, height)) => decoded_rgba(bytes@) == Some((data@, width, height))
                && data@.len() == 4 * width * height,
            None => decoded_rgba(bytes@).is_none(),
        },
{
    match image::load_from_memory(bytes) {
        Ok(image) => {
            let rgba = image.to_rgba8();
            let (width, height) = rgba.dimensions();
            Some((rgba.into_raw(), width, height))
        },
        Err(_) => None,
    }
}

/// The textures the renderer uploads when it starts, by sprite index.
pub struct RendererInitLoadTextures(pub Vec<TextureData>);

/// A new size of the window's drawing surface.
#[derive(PartialEq, Eq, Structural, Clone, Copy, Debug)]
pub struct WindowResize {
    pub width: usize,
    pub height: usize,
}

/// The resources of the game.
pub enum GameResource<H> {
    State(GameState),
    Candyland(Candyland),
    Textures(RendererInitLoadTextures),
    /// The player's score.
    Score(usize),
    Host(H),
}

/// The components of the game.
#[derive(Clone, Copy, Debug)]
pub enum GameComponent<K> {
    /// A floating "+1" or "-6" marker; `body` is where the host draws it.
    ScorePop { positive: bool, body: K },
    Host(K),
}

/// The events of the game.
#[derive(Clone, Copy, Debug)]
pub enum GameEvent<S> {
    /// A request to play the sound of the given index.
    Sound(usize),
    /// A request to draw a sprite this frame.
    Draw(S),
    /// A keyboard occurrence from the window.
    Window(KeyInput),
    Resize(WindowResize),
}

pub type GameGalaxy<H, K, S> = Galaxy<GameResource<H>, GameComponent<K>, GameEvent<S>>;

/// The score held by a resource value, if it is one.
pub open spec fn score_of<H>(r: Option<GameResource<H>>) -> Option<usize> {
    match r {
        Some(GameResource::Score(s)) => Some(s),
        _ => None,
    }
}

/// The scene held by a resource value, if it is one.
pub open spec fn state_of<H>(r: Option<GameResource<H>>) -> Option<GameState> {
    match r {
        Some(GameResource::State(s)) => Some(s),
        _ => None,
    }
}

/// Whether an event is a press or release of the quit key.
pub open spec fn is_quit<S>(e: GameEvent<S>) -> bool {
    match e {
        GameEvent::Window(k) => k.key == Key::Q,
        _ => false,
    }
}

/// Whether any of `events` asks to quit.
pub open spec fn quit_requested<S>(events: Seq<GameEvent<S>>) -> bool {
    exists|i: int| 0 <= i < events.len() && is_quit(#[trigger] events[i])
}

/// The state after a sound request.
pub open spec fn sound_requested<H, K, S>(
    v: GalaxyView<GameResource<H>, GameComponent<K>, GameEvent<S>>,
    index: usize,
) -> GalaxyView<GameResource<H>, GameComponent<K>, GameEvent<S>> {
    v.with_event(SOUND_EVENT, GameEvent::Sound(index))
}

/// The sprite payloads of the draw requests among `events`, in order.
pub open spec fn draws_of<S>(events: Seq<GameEvent<S>>) -> Seq<S>
    decreases events.len(),
{
    if events.len() == 0 {
        Seq::empty()
    } else {
        let rest = draws_of(events.drop_last());
        match events.last() {
            GameEvent::Draw(s) => rest.push(s),
            _ => rest,
        }
    }
}

/// The decimal digits of `n`, most significant first; none for zero.
pub open spec fn digits_of(n: nat) -> Seq<nat>
    decreases n,
{
    if n == 0 {
        Seq::empty()
    } else {
        digits_of(n / 10).push(n % 10)
    }
}

/// A fresh container for the game: the game starts at its intro.
pub fn run<H, K: Copy, S: Copy>() -> (r: GameGalaxy<H, K, S>)
    ensures
        r.wf(),
        r.view().resource(STATE_RESOURCE) == Some(GameResource::<H>::State(GameState::Intro)),
        r.view().rows.len() == 0,
        r.view().events.len() == 0,
        r.view().resources.len() == 1,
        r.view().generations.len() == 0,
        !r.view().exit,
{
    let mut galaxy: GameGalaxy<H, K, S> = Galaxy::new();
    let ghost v0 = galaxy.view();
    galaxy.insert_resource(STATE_RESOURCE, GameResource::State(GameState::Intro));
    proof {
        crate::laws::lemma_with_resource(v0, STATE_RESOURCE, GameResource::State(GameState::Intro));
    }
    galaxy
}

/// Puts a fresh candy-house visit in place.
pub fn candyland_init<H, K: Copy, S: Copy>(galaxy: &mut GameGalaxy<H, K, S>)
    requires
        old(galaxy).wf(),
    ensures
        final(galaxy).wf(),
        final(galaxy).view() == old(galaxy).view().with_resource(
            CANDYLAND_RESOURCE,
            GameResource::Candyland(Candyland { candy_stolen: 0, time_of_anger: None }),
        ),
{
    galaxy.insert_resource(CANDYLAND_RESOURCE, GameResource::Candyland(Candyland::new()));
}

/// Puts the player's state, which the host owns, in place, with a score of zero.
pub fn player_init<H, K: Copy, S: Copy>(galaxy: &mut GameGalaxy<H, K, S>, player: H)
    requires
        old(galaxy).wf(),
    ensures
        final(galaxy).wf(),
        final(galaxy).view() == old(galaxy).view().with_resource(PLAYER_RESOURCE, GameResource::Host(player)).with_resource(
            SCORE_RESOURCE,
            GameResource::Score(0),
        ),
        final(galaxy).view().resource(SCORE_RESOURCE) == Some(GameResource::<H>::Score(0)),
{
    galaxy.insert_resource(PLAYER_RESOURCE, GameResource::Host(player));
    galaxy.insert_resource(SCORE_RESOURCE, GameResource::Score(0));
}

/// Puts the camera, which the host owns, in place. The renderer itself stays
/// with the host, which draws what `graphics_update` hands it.
pub fn graphics_init<H, K: Copy, S: Copy>(galaxy: &mut GameGalaxy<H, K, S>, camera: H)
    requires
        old(galaxy).wf(),
    ensures
        final(galaxy).wf(),
        final(galaxy).view() == old(galaxy).view().with_resource(CAMERA_RESOURCE, GameResource::Host(camera)),
{
    galaxy.insert_resource(CAMERA_RESOURCE, GameResource::Host(camera));
}

/// The sprites to draw this frame, in the order they were requested.
pub fn graphics_update<H, K: Copy, S: Copy>(galaxy: &GameGalaxy<H, K, S>) -> (r: Vec<S>)
    ensures
        r@ == draws_of(galaxy.view().events(DRAW_SPRITE_EVENT)),
{
    let events = galaxy.get_events(DRAW_SPRITE_EVENT);
    let mut out: Vec<S> = Vec::new();
    let n: usize = events.len();
    let mut i: usize = 0;
    while i < n
        invariant
            n == events@.len(),
            i <= n,
            out@ == draws_of(events@.take(i as int)),
        decreases n - i,
    {
        proof {
            assert(events@.take(i + 1).drop_last() == events@.take(i as int));
        }
        match events[i] {
            GameEvent::Draw(sprite) => out.push(sprite),
            _ => {},
        }
        i += 1;
    }
    proof {
        assert(events@.take(n as int) == events@);
    }
    out
}

/// Builds the texture list: a single white pixel, then `textures` in order,
/// so that sprite index `i + 1` draws `textures[i]`.
pub fn load_init<H, K: Copy, S: Copy>(galaxy: &mut GameGalaxy<H, K, S>, textures: Vec<TextureData>)
    requires
        old(galaxy).wf(),
    ensures
        final(galaxy).wf(),
        final(galaxy).view().resource(TEXTURES_RESOURCE) matches Some(GameResource::Textures(t)) && {
            &&& t.0@.len() == textures@.len() + 1
            &&& t.0@[0].data@ == seq![255u8, 255u8, 255u8, 255u8]
            &&& t.0@[0].width == 1
            &&& t.0@[0].height == 1
            &&& forall|i: int| 0 <= i < textures@.len() ==> t.0@[i + 1] == textures@[i]
            &&& final(galaxy).view() == old(galaxy).view().with_resource(TEXTURES_RESOURCE, GameResource::Textures(t))
        },
{
    let white: [u8; 4] = [255, 255, 255, 255];
    let white = TextureData::from_bytes(&white, 1, 1);
    let mut all: Vec<TextureData> = Vec::new();
    all.push(white);
    let mut rest = textures;
    all.append(&mut rest);
    let ghost v0 = galaxy.view();
    let ghost stored = all;
    galaxy.insert_resource(TEXTURES_RESOURCE, GameResource::Textures(RendererInitLoadTextures(all)));
    proof {
        crate::laws::lemma_with_resource(v0, TEXTURES_RESOURCE, GameResource::Textures(RendererInitLoadTextures(stored)));
        assert(stored@[0].data@ =~= seq![255u8, 255u8, 255u8, 255u8]);
    }
}

/// Asks the host to play the door sound.
pub fn audio_door<H, K: Copy, S: Copy>(galaxy: &mut GameGalaxy<H, K, S>)
    requires
        old(galaxy).wf(),
    ensures
        final(galaxy).wf(),
        final(galaxy).view() == sound_requested(old(galaxy).view(), SOUND_DOOR),
{
    galaxy.insert_event(SOUND_EVENT, GameEvent::Sound(SOUND_DOOR));
}

/// Asks the host to play the success sound.
pub fn audio_success<H, K: Copy, S: Copy>(galaxy: &mut GameGalaxy<H, K, S>)
    requires
        old(galaxy).wf(),
    ensures
        final(galaxy).wf(),
        final(galaxy).view() == sound_requested(old(galaxy).view(), SOUND_SUCCESS),
{
    galaxy.insert_event(SOUND_EVENT, GameEvent::Sound(SOUND_SUCCESS));
}

/// Asks the host to play the punch sound.
pub fn audio_punch<H, K: Copy, S: Copy>(galaxy: &mut GameGalaxy<H, K, S>)
    requires
        old(galaxy).wf(),
    ensures
        final(galaxy).wf(),
        final(galaxy).view() == sound_requested(old(galaxy).view(), SOUND_PUNCH),
{
    galaxy.insert_event(SOUND_EVENT, GameEvent::Sound(SOUND_PUNCH));
}

/// Asks the host to play the coin sound.
pub fn audio_coin<H, K: Copy, S: Copy>(galaxy: &mut GameGalaxy<H, K, S>)
    requires
        old(galaxy).wf(),
    ensures
        final(galaxy).wf(),
        final(galaxy).view() == sound_requested(old(galaxy).view(), SOUND_COIN),
{
    galaxy.insert_event(SOUND_EVENT, GameEvent::Sound(SOUND_COIN));
}

/// Asks the host to play the refusal sound.
pub fn audio_no<H, K: Copy, S: Copy>(galaxy: &mut GameGalaxy<H, K, S>)
    requires
        old(galaxy).wf(),
    ensures
        final(galaxy).wf(),
        final(galaxy).view() == sound_requested(old(galaxy).view(), SOUND_NO),
{
    galaxy.insert_event(SOUND_EVENT, GameEvent::Sound(SOUND_NO));
}

/// Whether stealing makes the owner angry: after more than the safe count,
/// when the chance came up or the absolute maximum has been reached.
pub fn triggers_anger(candy_stolen: usize, chance_hit: bool) -> (r: bool)
    ensures
        r == ((candy_stolen >= ABSOLUTE_STEAL_MAX || chance_hit) && candy_stolen > SAFE_STEAL_COUNT),
{
    (candy_stolen >= ABSOLUTE_STEAL_MAX || chance_hit) && candy_stolen > SAFE_STEAL_COUNT
}

/// The result of `penalized_score`.
pub open spec fn penalized_spec(score: usize) -> usize {
    if score <= ANGER_PENALTY {
        0
    } else if score - ANGER_PENALTY > MAX_SCORE {
        MAX_SCORE
    } else {
        (score - ANGER_PENALTY) as usize
    }
}

/// The result of `anger_expired`.
pub open spec fn expired_spec(visit: Candyland, now: u64) -> bool {
    visit.time_of_anger matches Some(t) && now as int - t as int > ANGER_DURATION_MS as int
}

/// The score after being caught: six less, kept within `0..=9999`.
pub fn penalized_score(score: usize) -> (r: usize)
    ensures
        r as int == if score <= ANGER_PENALTY {
            0
        } else if score - ANGER_PENALTY > MAX_SCORE {
            MAX_SCORE as int
        } else {
            score - ANGER_PENALTY
        },
{
    if score <= ANGER_PENALTY {
        0
    } else if score - ANGER_PENALTY > MAX_SCORE {
        MAX_SCORE
    } else {
        score - ANGER_PENALTY
    }
}

/// The result of stealing one candy during a visit.
#[derive(PartialEq, Eq, Structural, Clone, Copy, Debug)]
pub struct StealOutcome {
    pub visit: Candyland,
    pub score: usize,
    /// Whether the steal happened (the owner was not already angry).
    pub stolen: bool,
    /// Whether the owner got angry at this steal.
    pub angered: bool,
}

/// One more candy, counting up to the largest `usize`.
pub open spec fn bumped(n: usize) -> usize {
    if n < usize::MAX {
        (n + 1) as usize
    } else {
        n
    }
}

fn bump(n: usize) -> (r: usize)
    ensures
        r == bumped(n),
{
    if n < usize::MAX {
        n + 1
    } else {
        n
    }
}

/// The result of `steal`.
pub open spec fn steal_spec(visit: Candyland, score: usize, chance_hit: bool, now: u64) -> StealOutcome {
    if visit.time_of_anger.is_some() {
        StealOutcome { visit, score, stolen: false, angered: false }
    } else {
        let count = bumped(visit.candy_stolen);
        let angry = (count >= ABSOLUTE_STEAL_MAX || chance_hit) && count > SAFE_STEAL_COUNT;
        StealOutcome {
            visit: Candyland { candy_stolen: count, time_of_anger: if angry { Some(now) } else { None } },
            score: bumped(score),
            stolen: true,
            angered: angry,
        }
    }
}

/// Steals a candy at time `now`: unless the owner is already angry, the visit
/// count and the score go up by one, and the owner gets angry (from `now` on)
/// when `triggers_anger` says so for the new count and the drawn chance.
pub fn steal(visit: Candyland, score: usize, chance_hit: bool, now: u64) -> (r: StealOutcome)
    ensures
        visit.time_of_anger.is_some() ==> r == (StealOutcome { visit, score, stolen: false, angered: false }),
        visit.time_of_anger.is_none() ==> {
            let count = bumped(visit.candy_stolen);
            let angry = (count >= ABSOLUTE_STEAL_MAX || chance_hit) && count > SAFE_STEAL_COUNT;
            r == (StealOutcome {
                visit: Candyland {
                    candy_stolen: count,
                    time_of_anger: if angry { Some(now) } else { None },
                },
                score: bumped(score),
                stolen: true,
                angered: angry,
            })
        },
        r == steal_spec(visit, score, chance_hit, now),
{
    if visit.time_of_anger.is_some() {
        return StealOutcome { visit, score, stolen: false, angered: false };
    }
    let count = bump(visit.candy_stolen);
    let angered = triggers_anger(count, chance_hit);
    StealOutcome {
        visit: Candyland { candy_stolen: count, time_of_anger: if angered { Some(now) } else { None } },
        score: bump(score),
        stolen: true,
        angered,
    }
}

/// Whether the player may walk out of the candy house: only while the owner
/// is not angry.
pub fn may_leave(visit: &Candyland) -> (r: bool)
    ensures
        r == visit.time_of_anger.is_none(),
{
    visit.time_of_anger.is_none()
}

/// Whether the owner's anger has lasted long enough, at time `now`, for the
/// player to be thrown out. A clock reading earlier than the anger counts as
/// no time passed.
pub fn anger_expired(visit: &Candyland, now: u64) -> (r: bool)
    ensures
        r == (visit.time_of_anger matches Some(t) && now as int - t as int > ANGER_DURATION_MS as int),
{
    match visit.time_of_anger {
        Some(t) => now > t && now - t > ANGER_DURATION_MS,
        None => false,
    }
}

/// Asks the frame loop to end when a quit key was pressed or released this
/// frame; otherwise changes nothing.
pub fn game_quit<H, K: Copy, S: Copy>(galaxy: &mut GameGalaxy<H, K, S>)
    requires
        old(galaxy).wf(),
    ensures
        final(galaxy).wf(),
        final(galaxy).view() == (if quit_requested(old(galaxy).view().events(WINDOW_EVENT)) {
            GalaxyView { exit: true, ..old(galaxy).view() }
        } else {
            old(galaxy).view()
        }),
{
    let events = galaxy.get_events(WINDOW_EVENT);
    let mut found = false;
    let n: usize = events.len();
    let mut i: usize = 0;
    while i < n
        invariant
            n == events@.len(),
            i <= n,
            found == exists|j: int| 0 <= j < i && is_quit(#[trigger] events@[j]),
        decreases n - i,
    {
        let hit = match events[i] {
            GameEvent::Window(k) => k.key == Key::Q,
            _ => false,
        };
        proof {
            assert(hit == is_quit(events@[i as int]));
        }
        if hit {
            found = true;
        }
        i += 1;
    }
    if found {
        galaxy.set_exit();
    }
}

/// Leaves the intro for the map once any key was pressed or released this
/// frame, writing the game state through a borrow that lasts for the call;
/// refused, changing nothing, while another borrow of the state is live.
/// Without a key nothing changes. The host draws the intro picture.
pub fn intro_update<H, K: Copy, S: Copy>(galaxy: &mut GameGalaxy<H, K, S>) -> (r: Result<(), AccessError>)
    requires
        old(galaxy).wf(),
    ensures
        final(galaxy).wf(),
        old(galaxy).view().events(WINDOW_EVENT).len() == 0 ==> r == Ok::<(), AccessError>(())
            && final(galaxy).view() == old(galaxy).view(),
        old(galaxy).view().events(WINDOW_EVENT).len() > 0 ==> (match old(galaxy).view().exclusive_access(STATE_RESOURCE) {
            Ok(()) => r == Ok::<(), AccessError>(()) && final(galaxy).view() == old(galaxy).view().with_resource(
                STATE_RESOURCE,
                GameResource::State(GameState::MapScene),
            ),
            Err(e) => r == Err::<(), AccessError>(e) && final(galaxy).view() == old(galaxy).view(),
        }),
{
    let keys = galaxy.get_events(WINDOW_EVENT);
    if keys.len() == 0 {
        return Ok(());
    }
    let written = galaxy.write_resource(STATE_RESOURCE, GameResource::State(GameState::MapScene));
    match written {
        Ok(()) => Ok(()),
        Err(e) => Err(e),
    }
}

/// The scene whose systems run this frame: the game state, or `None` when it
/// is missing or exclusively borrowed.
pub fn game_state_gate_update<H, K: Copy, S: Copy>(galaxy: &GameGalaxy<H, K, S>) -> (r: Option<GameState>)
    requires
        galaxy.wf(),
    ensures
        r == (if galaxy.view().exclusive(STATE_RESOURCE) {
            None
        } else {
            state_of(galaxy.view().resource(STATE_RESOURCE))
        }),
{
    match galaxy.resource_value(STATE_RESOURCE) {
        Ok(GameResource::State(s)) => Some(*s),
        _ => None,
    }
}

/// The score a read can see: `None` when missing, not a score, or
/// exclusively borrowed.
pub open spec fn visible_score<H, K, S>(v: GalaxyView<GameResource<H>, GameComponent<K>, GameEvent<S>>) -> Option<usize> {
    if v.exclusive(SCORE_RESOURCE) {
        None
    } else {
        score_of(v.resource(SCORE_RESOURCE))
    }
}

/// Why the score cannot be read: borrowed exclusively, or else missing (or
/// not a score).
pub open spec fn score_error<H, K, S>(v: GalaxyView<GameResource<H>, GameComponent<K>, GameEvent<S>>) -> AccessError {
    if v.has_resource(SCORE_RESOURCE) && v.exclusive(SCORE_RESOURCE) {
        AccessError::Aliased
    } else {
        AccessError::Missing
    }
}

/// The digits of the score display, most significant first. A winning score
/// also moves the game to its outro, writing the game state through a borrow
/// that lasts for the call, and asks for the success sound. Refused, changing
/// nothing, when the score cannot be read, or when a winning score finds
/// another borrow of the game state live.
pub fn score_render_update<H, K: Copy, S: Copy>(galaxy: &mut GameGalaxy<H, K, S>) -> (r: Result<Vec<usize>, AccessError>)
    requires
        old(galaxy).wf(),
    ensures
        final(galaxy).wf(),
        visible_score(old(galaxy).view()).is_none() ==> r == Err::<Vec<usize>, AccessError>(score_error(old(galaxy).view()))
            && final(galaxy).view() == old(galaxy).view(),
        visible_score(old(galaxy).view()) matches Some(s) ==> (s < WIN_SCORE ==> {
            &&& r matches Ok(d) && d@.map_values(|x: usize| x as nat) == digits_of(s as nat)
            &&& final(galaxy).view() == old(galaxy).view()
        }),
        visible_score(old(galaxy).view()) matches Some(s) ==> (s >= WIN_SCORE ==> match old(galaxy).view().exclusive_access(STATE_RESOURCE) {
            Ok(()) => {
                &&& r matches Ok(d) && d@.map_values(|x: usize| x as nat) == digits_of(s as nat)
                &&& final(galaxy).view() == sound_requested(
                    old(galaxy).view().with_resource(STATE_RESOURCE, GameResource::State(GameState::Outro)),
                    SOUND_SUCCESS,
                )
            },
            Err(e) => r == Err::<Vec<usize>, AccessError>(e) && final(galaxy).view() == old(galaxy).view(),
        }),
{
    let score: usize = match galaxy.resource_value(SCORE_RESOURCE) {
        Ok(GameResource::Score(v)) => *v,
        Ok(_) => {
            return Err(AccessError::Missing);
        },
        Err(e) => {
            return Err(e);
        },
    };
    let digits = score_digits(score);
    if is_won(score) {
        match galaxy.write_resource(STATE_RESOURCE, GameResource::State(GameState::Outro)) {
            Ok(()) => {},
            Err(e) => {
                return Err(e);
            },
        }
        audio_success(galaxy);
    }
    Ok(digits)
}

/// Spawns a score marker: a fresh entity whose only component is the marker.
fn spawn_score<H, K: Copy, S: Copy>(galaxy: &mut GameGalaxy<H, K, S>, positive: bool, body: K) -> (r: crate::galaxy::EntityId)
    requires
        old(galaxy).wf(),
    ensures
        final(galaxy).wf(),
        !old(galaxy).view().is_alive(r),
        final(galaxy).view().is_alive(r),
        final(galaxy).view().rows == old(galaxy).view().rows.push(
            crate::galaxy::Row { kind: SCORE_POP_COMPONENT, entity: r, value: GameComponent::ScorePop { positive, body } },
        ),
        final(galaxy).view().resources == old(galaxy).view().resources,
        final(galaxy).view().events == old(galaxy).view().events,
        final(galaxy).view().exit == old(galaxy).view().exit,
        forall|x: crate::galaxy::EntityId| x != r ==> (final(galaxy).view().is_alive(x) <==> old(galaxy).view().is_alive(x)),
{
    let e = galaxy.insert_entity();
    let ghost mid = galaxy.view();
    proof {
        let v = old(galaxy).view();
        assert(!mid.has(SCORE_POP_COMPONENT, e)) by {
            if mid.has(SCORE_POP_COMPONENT, e) {
                let i = choose|i: int| 0 <= i < mid.rows.len() && mid.rows[i].kind == SCORE_POP_COMPONENT && mid.rows[i].entity == e;
                assert(v.is_alive(v.rows[i].entity));
            }
        }
    }
    galaxy.insert(e, SCORE_POP_COMPONENT, GameComponent::ScorePop { positive, body });
    e
}

/// Spawns a "+1" marker drawn at `body`.
pub fn spawn_score_increment<H, K: Copy, S: Copy>(galaxy: &mut GameGalaxy<H, K, S>, body: K) -> (r: crate::galaxy::EntityId)
    requires
        old(galaxy).wf(),
    ensures
        final(galaxy).wf(),
        !old(galaxy).view().is_alive(r),
        final(galaxy).view().is_alive(r),
        final(galaxy).view().rows == old(galaxy).view().rows.push(
            crate::galaxy::Row { kind: SCORE_POP_COMPONENT, entity: r, value: GameComponent::ScorePop { positive: true, body } },
        ),
        final(galaxy).view().resources == old(galaxy).view().resources,
        final(galaxy).view().events == old(galaxy).view().events,
        final(galaxy).view().exit == old(galaxy).view().exit,
        forall|x: crate::galaxy::EntityId| x != r ==> (final(galaxy).view().is_alive(x) <==> old(galaxy).view().is_alive(x)),
{
    spawn_score(galaxy, true, body)
}

/// Spawns a "-6" marker drawn at `body`.
pub fn spawn_score_decrement<H, K: Copy, S: Copy>(galaxy: &mut GameGalaxy<H, K, S>, body: K) -> (r: crate::galaxy::EntityId)
    requires
        old(galaxy).wf(),
    ensures
        final(galaxy).wf(),
        !old(galaxy).view().is_alive(r),
        final(galaxy).view().is_alive(r),
        final(galaxy).view().rows == old(galaxy).view().rows.push(
            crate::galaxy::Row { kind: SCORE_POP_COMPONENT, entity: r, value: GameComponent::ScorePop { positive: false, body } },
        ),
        final(galaxy).view().resources == old(galaxy).view().resources,
        final(galaxy).view().events == old(galaxy).view().events,
        final(galaxy).view().exit == old(galaxy).view().exit,
        forall|x: crate::galaxy::EntityId| x != r ==> (final(galaxy).view().is_alive(x) <==> old(galaxy).view().is_alive(x)),
{
    spawn_score(galaxy, false, body)
}

/// Whether the player may enter a house at time `now`: never entered, or
/// entered at least the cooldown ago. A clock reading earlier than the last
/// entry counts as no time passed.
pub fn house_may_enter(last_entered: Option<u64>, now: u64) -> (r: bool)
    ensures
        r == match last_entered {
            None => true,
            Some(t) => now as int - t as int >= HOUSE_COOLDOWN_MS as int,
        },
{
    match last_entered {
        None => true,
        Some(t) => now >= t && now - t >= HOUSE_COOLDOWN_MS,
    }
}

/// What one frame in the candy house came to.
#[derive(PartialEq, Eq, Structural, Clone, Copy, Debug)]
pub struct CandylandOutcome {
    pub visit: Candyland,
    pub score: usize,
    /// Whether the player goes back to the map.
    pub leave: bool,
    /// How many candies were stolen.
    pub coins: usize,
    /// Whether the owner got angry.
    pub angered: bool,
    /// Whether the anger ran out and the player was thrown out, with the penalty.
    pub punished: bool,
}

/// One key of the frame: the escape key leaves while the owner is calm; a
/// released steal key steals, with `chance_hit` as the drawn anger chance.
pub open spec fn candyland_key(o: CandylandOutcome, key: KeyInput, chance_hit: bool, now: u64) -> CandylandOutcome {
    let o1 = if key.key == Key::Escape && o.visit.time_of_anger.is_none() {
        CandylandOutcome { visit: Candyland { candy_stolen: 0, time_of_anger: None }, leave: true, ..o }
    } else {
        o
    };
    if key.key == Key::E && key.released && o1.visit.time_of_anger.is_none() {
        let st = steal_spec(o1.visit, o1.score, chance_hit, now);
        CandylandOutcome {
            visit: st.visit,
            score: st.score,
            coins: bumped(o1.coins),
            angered: o1.angered || st.angered,
            ..o1
        }
    } else {
        o1
    }
}

/// The keys of a frame, in order, each with its drawn chance.
pub open spec fn candyland_keys_spec(
    visit: Candyland,
    score: usize,
    keys: Seq<KeyInput>,
    chances: Seq<bool>,
    now: u64,
) -> CandylandOutcome
    decreases keys.len(),
{
    if keys.len() == 0 || chances.len() == 0 {
        CandylandOutcome { visit, score, leave: false, coins: 0, angered: false, punished: false }
    } else {
        candyland_key(
            candyland_keys_spec(visit, score, keys.drop_last(), chances.drop_last(), now),
            keys.last(),
            chances.last(),
            now,
        )
    }
}

/// A whole frame in the candy house: the keys, then the anger check, which
/// throws the player out with the penalty once the anger has run out.
pub open spec fn candyland_spec(
    visit: Candyland,
    score: usize,
    keys: Seq<KeyInput>,
    chances: Seq<bool>,
    now: u64,
) -> CandylandOutcome {
    let o = candyland_keys_spec(visit, score, keys, chances, now);
    if expired_spec(o.visit, now) {
        CandylandOutcome {
            visit: Candyland { candy_stolen: 0, time_of_anger: None },
            score: penalized_spec(o.score),
            leave: true,
            punished: true,
            ..o
        }
    } else {
        o
    }
}

/// Runs one frame in the candy house on the frame's keys, with one drawn
/// anger chance per key, at time `now`.
pub fn candyland_keys(
    visit: Candyland,
    score: usize,
    keys: &Vec<KeyInput>,
    chances: &Vec<bool>,
    now: u64,
) -> (r: CandylandOutcome)
    requires
        chances@.len() == keys@.len(),
    ensures
        r == candyland_spec(visit, score, keys@, chances@, now),
{
    let mut o = CandylandOutcome { visit, score, leave: false, coins: 0, angered: false, punished: false };
    let n: usize = keys.len();
    let mut i: usize = 0;
    while i < n
        invariant
            n == keys@.len(),
            n == chances@.len(),
            i <= n,
            o == candyland_keys_spec(visit, score, keys@.take(i as int), chances@.take(i as int), now),
        decreases n - i,
    {
        proof {
            assert(keys@.take(i + 1).drop_last() == keys@.take(i as int));
            assert(chances@.take(i + 1).drop_last() == chances@.take(i as int));
        }
        let key = keys[i];
        if key.key == Key::Escape && may_leave(&o.visit) {
            o = CandylandOutcome { visit: Candyland::new(), leave: true, ..o };
        }
        if key.key == Key::E && key.released && o.visit.time_of_anger.is_none() {
            let st = steal(o.visit, o.score, chances[i], now);
            o = CandylandOutcome {
                visit: st.visit,
                score: st.score,
                coins: bump(o.coins),
                angered: o.angered || st.angered,
                ..o
            };
        }
        i += 1;
    }
    proof {
        assert(keys@.take(n as int) == keys@);
        assert(chances@.take(n as int) == chances@);
    }
    if anger_expired(&o.visit, now) {
        o = CandylandOutcome {
            visit: Candyland::new(),
            score: penalized_score(o.score),
            leave: true,
            punished: true,
            ..o
        };
    }
    o
}

/// Whether the score ends the game.
pub fn is_won(score: usize) -> (r: bool)
    ensures
        r == (score >= WIN_SCORE),
{
    score >= WIN_SCORE
}

/// The digits the score display shows, most significant first; none for zero.
pub fn score_digits(score: usize) -> (r: Vec<usize>)
    ensures
        r@.map_values(|d: usize| d as nat) == digits_of(score as nat),
{
    let mut out: Vec<usize> = Vec::new();
    let mut n: usize = score;
    while n > 0
        invariant
            digits_of(score as nat) == digits_of(n as nat) + out@.map_values(|d: usize| d as nat),
        decreases n,
    {
        let d: usize = n % 10;
        let ghost before = out@;
        out.insert(0, d);
        proof {
            assert(out@.map_values(|d: usize| d as nat) =~= seq![d as nat] + before.map_values(|d: usize| d as nat));
            assert(digits_of(n as nat) == digits_of((n / 10) as nat).push((n % 10) as nat));
            assert(digits_of((n / 10) as nat).push((n % 10) as nat) + before.map_values(|d: usize| d as nat)
                =~= digits_of((n / 10) as nat) + out@.map_values(|d: usize| d as nat));
        }
        n = n / 10;
    }
    proof {
        assert(digits_of(0) == Seq::<nat>::empty());
        assert(out@.map_values(|d: usize| d as nat) =~= Seq::<nat>::empty() + out@.map_values(|d: usize| d as nat));
    }
    out
}

} // verus!
