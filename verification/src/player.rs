//! The player's state: standing, walking, running or talking, which
//! animation shows it, when a chat starts or stops, and the keyboard hint.

use vstd::prelude::*;

verus! {

/// What the player is doing.
#[derive(Clone, Copy, Debug, PartialEq, Eq, Structural)]
pub enum PlayerState {
    Idling,
    Walking,
    Running,
    Talking,
}

/// The state after a frame of movement: a talking player stays talking;
/// otherwise standing still is idling, and moving is running while the run
/// key is held, else walking.
pub fn switch_player_move_state(state: PlayerState, moving: bool, running: bool) -> (next: PlayerState)
    ensures
        next == if state == PlayerState::Talking {
            PlayerState::Talking
        } else if !moving {
            PlayerState::Idling
        } else if running {
            PlayerState::Running
        } else {
            PlayerState::Walking
        },
{
    if state == PlayerState::Talking {
        return state;
    }
    if !moving {
        PlayerState::Idling
    } else if running {
        PlayerState::Running
    } else {
        PlayerState::Walking
    }
}

/// The player's animation: four directions (down, left, right, up) for each
/// of standing, walking and running; talking shows the standing one.
pub fn animation_index(state: PlayerState, direction_index: usize) -> (index: usize)
    requires
        direction_index < 4,
    ensures
        index == match state {
            PlayerState::Idling => direction_index as int,
            PlayerState::Walking => 4 + direction_index,
            PlayerState::Running => 8 + direction_index,
            PlayerState::Talking => direction_index as int,
        },
        index < 12,
{
    match state {
        PlayerState::Idling => direction_index,
        PlayerState::Walking => 4 + direction_index,
        PlayerState::Running => 8 + direction_index,
        PlayerState::Talking => direction_index,
    }
}

/// The first character that is within talking distance.
pub open spec fn first_in_range(in_range: Seq<bool>) -> Option<int>
    decreases in_range.len(),
{
    if in_range.len() == 0 {
        None
    } else {
        match first_in_range(in_range.drop_last()) {
            Some(i) => Some(i),
            None => if in_range.last() {
                Some(in_range.len() - 1)
            } else {
                None
            },
        }
    }
}

/// Starting a chat: when the talk key is pressed and no dialogue runs, the
/// player talks to the first character within talking distance (`in_range`
/// tells it for each character) and starts talking.
pub fn start_chat(
    start_dialogue: bool,
    runners_exist: bool,
    state: PlayerState,
    in_range: &Vec<bool>,
) -> (r: (PlayerState, Option<usize>))
    ensures
        !start_dialogue || runners_exist ==> r == (state, None::<usize>),
        start_dialogue && !runners_exist ==> match first_in_range(in_range@) {
            Some(i) => r.0 == PlayerState::Talking && r.1 == Some(i as usize),
            None => r.0 == state && r.1 is None,
        },
{
    if !start_dialogue || runners_exist {
        return (state, None);
    }
    let mut k: usize = 0;
    while k < in_range.len()
        invariant
            k <= in_range@.len(),
            start_dialogue && !runners_exist,
            first_in_range(in_range@.take(k as int)) is None,
        decreases in_range@.len() - k,
    {
        assert(in_range@.take(k + 1).drop_last() =~= in_range@.take(k as int));
        if in_range[k] {
            proof {
                lemma_first_in_range_prefix(in_range@, k as int + 1);
            }
            return (PlayerState::Talking, Some(k));
        }
        k = k + 1;
    }
    assert(in_range@.take(k as int) =~= in_range@);
    (state, None)
}

proof fn lemma_first_in_range_prefix(s: Seq<bool>, n: int)
    requires
        0 < n <= s.len(),
        first_in_range(s.take(n)) is Some,
    ensures
        first_in_range(s) == first_in_range(s.take(n)),
    decreases s.len(),
{
    if n < s.len() {
        assert(s.drop_last().take(n) =~= s.take(n));
        lemma_first_in_range_prefix(s.drop_last(), n);
    } else {
        assert(s.take(n) =~= s);
    }
}

proof fn lemma_first_in_range_bound(s: Seq<bool>)
    ensures
        first_in_range(s) matches Some(i) ==> 0 <= i < s.len(),
    decreases s.len(),
{
    if s.len() > 0 {
        lemma_first_in_range_bound(s.drop_last());
    }
}

/// Stopping a chat: the escape key stops it while the player talks.
pub fn stop_chat(escape: bool, state: PlayerState) -> (stop: bool)
    ensures
        stop == (escape && state == PlayerState::Talking),
{
    escape && state == PlayerState::Talking
}

} // verus!

verus! {

/// How the player's steps sound.
#[derive(Clone, Copy, Debug, PartialEq, Eq, Structural)]
pub enum Gait {
    Walk,
    Run,
}

/// The step sound due when the step timer runs out: walking and running
/// steps sound (and set the timer to their pace); standing and talking are
/// silent.
pub fn play_step_sounds(state: PlayerState, timer_finished: bool) -> (step: Option<Gait>)
    ensures
        step == if !timer_finished {
            None::<Gait>
        } else {
            match state {
                PlayerState::Walking => Some(Gait::Walk),
                PlayerState::Running => Some(Gait::Run),
                _ => None::<Gait>,
            }
        },
{
    if !timer_finished {
        return None;
    }
    match state {
        PlayerState::Walking => Some(Gait::Walk),
        PlayerState::Running => Some(Gait::Run),
        _ => None,
    }
}

/// Which of the start hints go: all of them once a chat starts or while
/// the player talks; otherwise the first that is farther than talking
/// distance from the player (`far` tells it for each).
pub fn despawn_hint(chat_started: bool, state: PlayerState, far: &Vec<bool>) -> (gone: Vec<bool>)
    ensures
        gone@.len() == far@.len(),
        chat_started || state == PlayerState::Talking ==> forall|i: int|
            0 <= i < far@.len() ==> #[trigger] gone@[i],
        !(chat_started || state == PlayerState::Talking) ==> forall|i: int|
            0 <= i < far@.len() ==> #[trigger] gone@[i] == (first_in_range(far@) == Some(i)),
{
    let all = chat_started || state == PlayerState::Talking;
    let mut gone: Vec<bool> = Vec::new();
    let mut found = false;
    let mut k: usize = 0;
    while k < far.len()
        invariant
            k <= far@.len(),
            gone@.len() == k,
            all == (chat_started || state == PlayerState::Talking),
            all ==> forall|i: int| 0 <= i < k ==> #[trigger] gone@[i],
            !all ==> found == (first_in_range(far@.take(k as int)) is Some),
            !all ==> forall|i: int|
                0 <= i < k ==> #[trigger] gone@[i] == (first_in_range(far@.take(k as int)) == Some(i)),
        decreases far@.len() - k,
    {
        assert(far@.take(k + 1).drop_last() =~= far@.take(k as int));
        assert(far@.take(k + 1).last() == far@[k as int]);
        proof {
            lemma_first_in_range_bound(far@.take(k as int));
        }
        let go = all || (!found && far[k]);
        if go {
            found = true;
        }
        gone.push(go);
        k = k + 1;
    }
    assert(far@.take(k as int) =~= far@);
    gone
}

/// An icon of the keyboard hint around the starting position.
#[derive(Clone, Copy, Debug, PartialEq, Eq, Structural)]
pub enum Icon {
    LeftKey,
    RightKey,
    UpKey,
    DownKey,
    LeftArrow,
    RightArrow,
    UpArrow,
    DownArrow,
    ShiftKey,
}

/// The key texture (with its atlas layout) that an icon is drawn with.
#[derive(Clone, Copy, Debug, PartialEq, Eq, Structural)]
pub enum KeyTexture {
    Down,
    Up,
    Left,
    Right,
    Shift,
}

/// The texture of an icon: a key and the arrow beside it share the
/// texture of their direction.
pub fn icon_to_texture(icon: Icon) -> (t: KeyTexture)
    ensures
        t == match icon {
            Icon::DownKey | Icon::DownArrow => KeyTexture::Down,
            Icon::UpKey | Icon::UpArrow => KeyTexture::Up,
            Icon::LeftKey | Icon::LeftArrow => KeyTexture::Left,
            Icon::RightKey | Icon::RightArrow => KeyTexture::Right,
            Icon::ShiftKey => KeyTexture::Shift,
        },
{
    match icon {
        Icon::DownKey | Icon::DownArrow => KeyTexture::Down,
        Icon::UpKey | Icon::UpArrow => KeyTexture::Up,
        Icon::LeftKey | Icon::LeftArrow => KeyTexture::Left,
        Icon::RightKey | Icon::RightArrow => KeyTexture::Right,
        Icon::ShiftKey => KeyTexture::Shift,
    }
}

/// Eleonore's wing flap: the sound plays once when her animation ends, and
/// may play again after the animation restarts. From whether the sound is
/// playing and whether the animation ended, gives whether it is playing
/// now and whether to play it.
pub fn play_eleonore_flap_sound(playing: bool, animation_finished: bool) -> (r: (bool, bool))
    ensures
        r.1 == (animation_finished && !playing),
        r.0 == animation_finished,
{
    let playing = if !animation_finished {
        false
    } else {
        playing
    };
    if animation_finished && !playing {
        return (true, true);
    }
    (playing, false)
}

} // verus!
