//! The birds of the world: when they idle, pick, jump or fly away, which
//! animation and sounds go with it.

use vstd::prelude::*;

verus! {

/// What a bird is doing.
#[derive(Clone, Copy, Debug, PartialEq, Eq, Structural)]
pub enum BirdState {
    Idling,
    Jumping,
    Picking,
    Flying,
}

/// A bird's state in this frame and in the last one.
#[derive(Clone, Copy, Debug, PartialEq, Eq, Structural)]
pub struct Bird {
    pub state: BirdState,
    pub old_state: BirdState,
}

/// How far a bird may move to get away from the player.
#[derive(Clone, Copy, Debug, PartialEq, Eq, Structural)]
pub enum Escape {
    /// Fly off (the player came very close).
    Fly,
    /// Jump away.
    Jump,
}

/// Which action a random roll picks for an idling bird whose action timer
/// ran out: the roll below 0.6 idles, below 0.7 picks, below 0.9 jumps,
/// and above that the bird keeps what it does.
#[derive(Clone, Copy, Debug, PartialEq, Eq, Structural)]
pub enum ActionRoll {
    Idle,
    Pick,
    Jump,
    Keep,
}

/// How fast a bird moves.
#[derive(Clone, Copy, Debug, PartialEq, Eq, Structural)]
pub enum BirdSpeed {
    Still,
    JumpSpeed,
    FlySpeed,
}

impl Bird {
    /// A new bird, idling.
    pub fn new() -> (b: Self)
        ensures
            b.state == BirdState::Idling,
            b.old_state == BirdState::Idling,
    {
        Bird { state: BirdState::Idling, old_state: BirdState::Idling }
    }

    /// A bird that does not fly and is within jumping distance of the
    /// player flies off when very close, else jumps away; the escape tells
    /// how far its way must be clear.
    pub fn check_player_distance(&mut self, within_jump_distance: bool, within_min_distance: bool) -> (escape: Option<Escape>)
        ensures
            final(self).old_state == old(self).old_state,
            old(self).state == BirdState::Flying || !within_jump_distance ==> escape is None
                && final(self).state == old(self).state,
            old(self).state != BirdState::Flying && within_jump_distance ==> if within_min_distance {
                escape == Some(Escape::Fly) && final(self).state == BirdState::Flying
            } else {
                escape == Some(Escape::Jump) && final(self).state == BirdState::Jumping
            },
    {
        if self.state == BirdState::Flying || !within_jump_distance {
            return None;
        }
        if within_min_distance {
            self.state = BirdState::Flying;
            Some(Escape::Fly)
        } else {
            self.state = BirdState::Jumping;
            Some(Escape::Jump)
        }
    }

    /// An idling bird on water flies off; otherwise, when its action timer
    /// runs out, the roll picks its action. Tells whether the bird takes a
    /// new random direction.
    pub fn pick_random_action(&mut self, on_water: bool, timer_finished: bool, roll: ActionRoll) -> (new_direction: bool)
        ensures
            final(self).old_state == old(self).old_state,
            old(self).state != BirdState::Idling ==> final(self).state == old(self).state && !new_direction,
            old(self).state == BirdState::Idling && on_water ==> final(self).state == BirdState::Flying && new_direction,
            old(self).state == BirdState::Idling && !on_water && !timer_finished ==> final(self).state == old(self).state && !new_direction,
            old(self).state == BirdState::Idling && !on_water && timer_finished ==> match roll {
                ActionRoll::Idle => final(self).state == BirdState::Idling && !new_direction,
                ActionRoll::Pick => final(self).state == BirdState::Picking && !new_direction,
                ActionRoll::Jump => final(self).state == BirdState::Jumping && new_direction,
                ActionRoll::Keep => final(self).state == old(self).state && !new_direction,
            },
    {
        if self.state != BirdState::Idling {
            return false;
        }
        if on_water {
            self.state = BirdState::Flying;
            return true;
        }
        if !timer_finished {
            return false;
        }
        match roll {
            ActionRoll::Idle => {
                self.state = BirdState::Idling;
                false
            },
            ActionRoll::Pick => {
                self.state = BirdState::Picking;
                false
            },
            ActionRoll::Jump => {
                self.state = BirdState::Jumping;
                true
            },
            ActionRoll::Keep => false,
        }
    }

    /// A flying bird that is far enough from the player, or another bird
    /// whose animation ended, lands: it idles, or keeps flying over water.
    pub fn return_to_idle_state(&mut self, near_player: bool, animation_finished: bool, on_water: bool)
        ensures
            final(self).old_state == old(self).old_state,
            final(self).state == if old(self).state == BirdState::Flying && near_player {
                old(self).state
            } else if old(self).state != BirdState::Flying && !animation_finished {
                old(self).state
            } else if on_water {
                BirdState::Flying
            } else {
                BirdState::Idling
            },
    {
        if self.state == BirdState::Flying {
            if near_player {
                return;
            }
        } else if !animation_finished {
            return;
        }
        if on_water {
            self.state = BirdState::Flying;
        } else {
            self.state = BirdState::Idling;
        }
    }

    /// The bird's animation clip and whether it repeats.
    pub fn animation(&self) -> (a: (usize, bool))
        ensures
            a == match self.state {
                BirdState::Idling => (0usize, true),
                BirdState::Jumping => (1usize, false),
                BirdState::Picking => (2usize, false),
                BirdState::Flying => (3usize, true),
            },
    {
        match self.state {
            BirdState::Idling => (0, true),
            BirdState::Jumping => (1, false),
            BirdState::Picking => (2, false),
            BirdState::Flying => (3, true),
        }
    }

    /// How fast the bird moves in its state.
    pub fn speed(&self) -> (s: BirdSpeed)
        ensures
            s == match self.state {
                BirdState::Jumping => BirdSpeed::JumpSpeed,
                BirdState::Flying => BirdSpeed::FlySpeed,
                _ => BirdSpeed::Still,
            },
    {
        match self.state {
            BirdState::Jumping => BirdSpeed::JumpSpeed,
            BirdState::Flying => BirdSpeed::FlySpeed,
            _ => BirdSpeed::Still,
        }
    }

    /// The sounds that the frame's change of state starts or stops: a step
    /// when a jump begins, flapping when a flight begins, and the end of
    /// flapping when a flight ends.
    pub fn sounds(&self) -> (s: (bool, bool, bool))
        ensures
            s.0 == (self.state == BirdState::Jumping && self.old_state != BirdState::Jumping),
            s.1 == (self.state == BirdState::Flying && self.old_state != BirdState::Flying),
            s.2 == (self.state != BirdState::Flying && self.old_state == BirdState::Flying),
    {
        (
            self.state == BirdState::Jumping && self.old_state != BirdState::Jumping,
            self.state == BirdState::Flying && self.old_state != BirdState::Flying,
            self.state != BirdState::Flying && self.old_state == BirdState::Flying,
        )
    }

    /// Remembers this frame's state for the next frame.
    pub fn update_old_bird_state(&mut self)
        ensures
            final(self).state == old(self).state,
            final(self).old_state == old(self).state,
    {
        self.old_state = self.state;
    }
}

} // verus!
