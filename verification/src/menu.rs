//! The main menu's buttons: the text speed they set, which stay selected,
//! and the blip sounds they toggle; and the texts of the endings.

use vstd::prelude::*;

use crate::npc::NpcDialogue;
use crate::option_selection::Interaction;
use crate::text::{chars_of, copy_range, string_of};

verus! {

/// What a main menu button does.
#[derive(Clone, Copy, Debug, PartialEq, Eq, Structural)]
pub enum ButtonAction {
    Normal,
    Quick,
    Fast,
    Instant,
    Play,
    Discord,
    ToggleBlips,
}

/// Whether the button sets the text speed (those stay selected once pressed).
pub open spec fn is_speed(action: ButtonAction) -> bool {
    action == ButtonAction::Normal || action == ButtonAction::Quick || action == ButtonAction::Fast
        || action == ButtonAction::Instant
}

/// The factor by which a speed button speeds up the typewriter.
pub fn speed_multiplier(action: ButtonAction) -> (m: Option<u32>)
    ensures
        m == match action {
            ButtonAction::Normal => Some(1u32),
            ButtonAction::Quick => Some(2u32),
            ButtonAction::Fast => Some(10u32),
            ButtonAction::Instant => Some(500u32),
            _ => None::<u32>,
        },
        m is Some <==> is_speed(action),
{
    match action {
        ButtonAction::Normal => Some(1),
        ButtonAction::Quick => Some(2),
        ButtonAction::Fast => Some(10),
        ButtonAction::Instant => Some(500),
        _ => None,
    }
}

/// A press on a button that is not selected: it is announced, and a speed
/// button becomes selected. Tells whether to announce and whether to select.
pub fn trigger_button_action(action: ButtonAction, selected: bool, pressed: bool) -> (r: (bool, bool))
    ensures
        r.0 == (!selected && pressed),
        r.1 == (!selected && pressed && is_speed(action)),
{
    if selected || !pressed {
        return (false, false);
    }
    (true, speed_multiplier(action).is_some())
}

/// When a speed button is pressed, the other selected speed buttons are
/// released. Tells, for a button, whether it is released.
pub fn dehighlight_button(pressed: ButtonAction, action: ButtonAction, selected: bool) -> (release: bool)
    ensures
        release == (is_speed(pressed) && selected && action != pressed),
{
    speed_multiplier(pressed).is_some() && selected && action != pressed
}

/// The scale animation a button starts when its interaction changes, each
/// with its sound: pressing (the press sound), hovering (the hover sound),
/// leaving (no sound).
#[derive(Clone, Copy, Debug, PartialEq, Eq, Structural)]
pub enum Highlight {
    Press,
    Hover,
    Release,
}

/// The animation a button starts when its interaction changes to
/// `interaction`; a selected button keeps its look.
pub fn highlight_button(interaction: Interaction, selected: bool) -> (h: Option<Highlight>)
    ensures
        selected ==> h is None,
        !selected ==> h == Some(
            match interaction {
                Interaction::Pressed => Highlight::Press,
                Interaction::Hovered => Highlight::Hover,
                Interaction::Idle => Highlight::Release,
            },
        ),
{
    if selected {
        return None;
    }
    match interaction {
        Interaction::Pressed => Some(Highlight::Press),
        Interaction::Hovered => Some(Highlight::Hover),
        Interaction::Idle => Some(Highlight::Release),
    }
}

/// Whether the blip sounds play after the presses `presses`, starting from
/// `playing`: each press of the toggle flips them.
pub open spec fn blips_after(playing: bool, presses: Seq<ButtonAction>) -> bool
    decreases presses.len(),
{
    if presses.len() == 0 {
        playing
    } else if presses.last() == ButtonAction::ToggleBlips {
        !blips_after(playing, presses.drop_last())
    } else {
        blips_after(playing, presses.drop_last())
    }
}

/// Whether the blip sounds play after the presses `presses`.
pub fn toggle_play_blips(playing: bool, presses: &Vec<ButtonAction>) -> (now: bool)
    ensures
        now == blips_after(playing, presses@),
{
    let mut now = playing;
    let mut k: usize = 0;
    while k < presses.len()
        invariant
            k <= presses@.len(),
            now == blips_after(playing, presses@.take(k as int)),
        decreases presses@.len() - k,
    {
        assert(presses@.take(k + 1).drop_last() =~= presses@.take(k as int));
        if presses[k] == ButtonAction::ToggleBlips {
            now = !now;
        }
        k = k + 1;
    }
    assert(presses@.take(k as int) =~= presses@);
    now
}

/// The header and body of the ending with `dialogue`, where the game has
/// one.
pub fn ending_texts(dialogue: NpcDialogue) -> (t: Option<(&'static str, &'static str)>)
    ensures
        t == match dialogue {
            NpcDialogue::Jotem => Some(("Pai joins Jotem", "Ending: Adventurer")),
            NpcDialogue::Eleonore => Some(("Pai joins Eleonore", "Ending: Witch's Apprentice")),
            _ => None::<(&'static str, &'static str)>,
        },
{
    match dialogue {
        NpcDialogue::Jotem => Some(("Pai joins Jotem", "Ending: Adventurer")),
        NpcDialogue::Eleonore => Some(("Pai joins Eleonore", "Ending: Witch's Apprentice")),
        _ => None,
    }
}

/// A text written one character at a time: what is written, what is left.
pub struct WriteableText {
    pub written_text: String,
    pub text_left: String,
}

/// What a tick of a writeable text's timer did.
#[derive(Clone, Copy, Debug, PartialEq, Eq, Structural)]
pub enum WriteStep {
    /// Nothing was left; the timer stops repeating.
    Done,
    /// The first character was written; the start delay gives way to the
    /// time between characters.
    First,
    /// Another character was written.
    Next,
}

impl WriteableText {
    /// A text with nothing written yet.
    pub fn new(text_left: &str) -> (t: Self)
        ensures
            t.written_text@ == Seq::<char>::empty(),
            t.text_left@ == text_left@,
    {
        WriteableText { written_text: String::new(), text_left: string_of(&chars_of(text_left)) }
    }

    /// A tick of the timer: the first character left moves to the written
    /// text.
    pub fn write_next(&mut self) -> (step: WriteStep)
        ensures
            old(self).text_left@.len() == 0 ==> step == WriteStep::Done && *final(self) == *old(self),
            old(self).text_left@.len() > 0 ==> {
                &&& step == if old(self).written_text@.len() == 0 {
                    WriteStep::First
                } else {
                    WriteStep::Next
                }
                &&& final(self).written_text@ == old(self).written_text@.push(old(self).text_left@[0])
                &&& final(self).text_left@ == old(self).text_left@.drop_first()
            },
    {
        let left = chars_of(self.text_left.as_str());
        if left.len() == 0 {
            return WriteStep::Done;
        }
        let mut written = chars_of(self.written_text.as_str());
        let step = if written.len() == 0 {
            WriteStep::First
        } else {
            WriteStep::Next
        };
        written.push(left[0]);
        let rest = copy_range(&left, 1, left.len());
        assert(rest@ =~= left@.drop_first());
        self.written_text = string_of(&written);
        self.text_left = string_of(&rest);
        step
    }
}

} // verus!
