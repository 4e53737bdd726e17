//! The dialogue runners, one per character talked to: which one is active,
//! what the custom commands of the dialogue files do to them, and the
//! delayed update of the dialogue variables that track who talked to and
//! mentioned whom.

use vstd::prelude::*;

use crate::npc::{npc_name, npc_of_character, parse_character_name, Npc, NpcDialogue, NpcParseError};
use crate::option_selection::OptionSelection;
use crate::text::{chars_equal, chars_of, string_of};

verus! {

/// The frames that the variable update waits after it is asked for, so
/// that the runners it touches exist by then.
pub const DELAY_FRAMES_UPDATE_TARGET_NPCS: usize = 3;

/// A line of dialogue as the runner presented it.
pub struct DialogueLine {
    pub character_name: Option<String>,
    pub text: String,
    pub last_before_options: bool,
}

/// The state kept with a dialogue runner: whether it is the one the player
/// talks to, whose dialogue it runs, and the last line and options it
/// presented, to show them again when the chat resumes.
pub struct RunnerFlags {
    pub active: bool,
    pub dialogue: NpcDialogue,
    pub line: Option<DialogueLine>,
    pub options: Option<OptionSelection>,
}

impl RunnerFlags {
    /// The flags of a runner just started for `dialogue`: active, with no
    /// line or options yet.
    pub fn new(dialogue: NpcDialogue) -> (flags: Self)
        ensures
            flags.active,
            flags.dialogue == dialogue,
            flags.line is None,
            flags.options is None,
    {
        RunnerFlags { active: true, dialogue, line: None, options: None }
    }
}

/// The effect of `<<stop_chat>>` while the player is talking (and whether
/// the chat stops): every active runner keeps `...` as its last line. When
/// the player is not talking, nothing happens.
pub fn stop_chat_command(player_talking: bool, flags: &mut Vec<RunnerFlags>) -> (stopped: bool)
    ensures
        stopped == player_talking,
        final(flags)@.len() == old(flags)@.len(),
        forall|k: int|
            0 <= k < old(flags)@.len() ==> {
                let before = #[trigger] old(flags)@[k];
                let after = final(flags)@[k];
                &&& after.active == before.active
                &&& after.dialogue == before.dialogue
                &&& after.options == before.options
                &&& if player_talking && before.active {
                    after.line matches Some(l) && l.text@ == "..."@ && l.character_name is None
                        && !l.last_before_options
                } else {
                    after.line == before.line
                }
            },
{
    if !player_talking {
        return false;
    }
    let n = flags.len();
    let mut k: usize = 0;
    while k < n
        invariant
            n == flags@.len() == old(flags)@.len(),
            k <= n,
            player_talking,
            forall|j: int| k <= j < n ==> #[trigger] flags@[j] == old(flags)@[j],
            forall|j: int|
                0 <= j < k ==> {
                    let before = #[trigger] old(flags)@[j];
                    let after = flags@[j];
                    &&& after.active == before.active
                    &&& after.dialogue == before.dialogue
                    &&& after.options == before.options
                    &&& if before.active {
                        after.line matches Some(l) && l.text@ == "..."@ && l.character_name is None
                            && !l.last_before_options
                    } else {
                        after.line == before.line
                    }
                },
        decreases n - k,
    {
        if flags[k].active {
            let line = DialogueLine {
                character_name: None,
                text: string_of(&chars_of("...")),
                last_before_options: false,
            };
            flags[k].line = Some(line);
        }
        k = k + 1;
    }
    true
}

/// The ending that a dialogue triggered, named by its dialogue.
#[derive(Clone, Copy, Debug, PartialEq, Eq, Structural)]
pub struct EndingTriggered {
    pub dialogue: NpcDialogue,
}

/// The effect of `<<trigger_ending name>>`: the dialogue of the character
/// `npc_name` (leading underscores ignored) triggers the ending; a name of
/// no dialogue is an error.
pub fn trigger_ending_command(npc_name: &str) -> (r: Result<EndingTriggered, NpcParseError>)
    ensures
        r == match npc_of_character(npc_name@) {
            Some(d) => Ok::<EndingTriggered, NpcParseError>(EndingTriggered { dialogue: d }),
            None => Err(NpcParseError::VariantNotFound),
        },
{
    match parse_character_name(npc_name) {
        Ok(dialogue) => Ok(EndingTriggered { dialogue }),
        Err(err) => Err(err),
    }
}

/// When the player starts to talk to `dialogue`: its cached runners become
/// active again (their last line and options are shown again by the
/// caller); tells whether there was one, else a runner is to be spawned.
pub fn activate_dialogue_runner(flags: &mut Vec<RunnerFlags>, dialogue: NpcDialogue) -> (cached: bool)
    ensures
        cached == exists|k: int| 0 <= k < old(flags)@.len() && (#[trigger] old(flags)@[k]).dialogue == dialogue,
        final(flags)@.len() == old(flags)@.len(),
        forall|k: int|
            0 <= k < old(flags)@.len() ==> {
                let before = #[trigger] old(flags)@[k];
                let after = final(flags)@[k];
                &&& after.active == (before.active || before.dialogue == dialogue)
                &&& after.dialogue == before.dialogue
                &&& after.line == before.line
                &&& after.options == before.options
            },
{
    let n = flags.len();
    let mut cached = false;
    let mut k: usize = 0;
    while k < n
        invariant
            n == flags@.len() == old(flags)@.len(),
            k <= n,
            cached == exists|j: int| 0 <= j < k && (#[trigger] old(flags)@[j]).dialogue == dialogue,
            forall|j: int| k <= j < n ==> #[trigger] flags@[j] == old(flags)@[j],
            forall|j: int|
                0 <= j < k ==> {
                    let before = #[trigger] old(flags)@[j];
                    let after = flags@[j];
                    &&& after.active == (before.active || before.dialogue == dialogue)
                    &&& after.dialogue == before.dialogue
                    &&& after.line == before.line
                    &&& after.options == before.options
                },
        decreases n - k,
    {
        if flags[k].dialogue == dialogue {
            cached = true;
            flags[k].active = true;
            assert(old(flags)@[k as int].dialogue == dialogue);
        }
        k = k + 1;
    }
    cached
}

/// When the player stops talking: no runner stays active.
pub fn deactivate_dialogue_runner(flags: &mut Vec<RunnerFlags>)
    ensures
        final(flags)@.len() == old(flags)@.len(),
        forall|k: int|
            0 <= k < old(flags)@.len() ==> {
                let before = #[trigger] old(flags)@[k];
                let after = final(flags)@[k];
                &&& !after.active
                &&& after.dialogue == before.dialogue
                &&& after.line == before.line
                &&& after.options == before.options
            },
{
    let n = flags.len();
    let mut k: usize = 0;
    while k < n
        invariant
            n == flags@.len() == old(flags)@.len(),
            k <= n,
            forall|j: int| k <= j < n ==> #[trigger] flags@[j] == old(flags)@[j],
            forall|j: int|
                0 <= j < k ==> {
                    let before = #[trigger] old(flags)@[j];
                    let after = flags@[j];
                    &&& !after.active
                    &&& after.dialogue == before.dialogue
                    &&& after.line == before.line
                    &&& after.options == before.options
                },
        decreases n - k,
    {
        flags[k].active = false;
        k = k + 1;
    }
}

/// How many of `flags` are active.
pub open spec fn active_count(flags: Seq<RunnerFlags>) -> nat
    decreases flags.len(),
{
    if flags.len() == 0 {
        0
    } else {
        active_count(flags.drop_last()) + if flags.last().active {
            1nat
        } else {
            0nat
        }
    }
}

/// How many runners are active; more than one is a fault that the caller
/// reports.
pub fn monitor_active_runners(flags: &Vec<RunnerFlags>) -> (active: usize)
    ensures
        active == active_count(flags@),
{
    let mut active: usize = 0;
    let mut k: usize = 0;
    while k < flags.len()
        invariant
            k <= flags@.len(),
            active == active_count(flags@.take(k as int)),
            active <= k,
        decreases flags@.len() - k,
    {
        assert(flags@.take(k + 1).drop_last() =~= flags@.take(k as int));
        if flags[k].active {
            active = active + 1;
        }
        k = k + 1;
    }
    assert(flags@.take(k as int) =~= flags@);
    active
}

/// The delay of the variable update: whether it was asked for, and how many
/// frames it has waited since.
pub struct UpdateTargetNpcs {
    pub started: bool,
    pub frames: usize,
}

impl UpdateTargetNpcs {
    /// No update asked for.
    pub fn new() -> (u: Self)
        ensures
            !u.started,
            u.frames == 0,
    {
        UpdateTargetNpcs { started: false, frames: 0 }
    }

    /// One frame: a request starts the wait; a started wait counts frames
    /// and, once it has waited its frames, ends and tells to update now.
    pub fn step(&mut self, requested: bool) -> (update_now: bool)
        requires
            old(self).frames <= DELAY_FRAMES_UPDATE_TARGET_NPCS,
        ensures
            final(self).frames <= DELAY_FRAMES_UPDATE_TARGET_NPCS,
            update_now == ((old(self).started || requested) && old(self).frames
                >= DELAY_FRAMES_UPDATE_TARGET_NPCS),
            !(old(self).started || requested) ==> *final(self) == *old(self),
            (old(self).started || requested) && !update_now ==> final(self).started
                && final(self).frames == old(self).frames + 1,
            update_now ==> !final(self).started && final(self).frames == 0,
    {
        if requested {
            self.started = true;
        }
        if !self.started {
            return false;
        }
        if self.frames < DELAY_FRAMES_UPDATE_TARGET_NPCS {
            self.frames = self.frames + 1;
            return false;
        }
        self.started = false;
        self.frames = 0;
        true
    }
}

/// Whether some character talked to is the target `target_npc`: then the
/// runner's `$talked_with_target_npc` becomes true.
pub fn talked_with_target(target_npc: &str, npcs: &Vec<Npc>) -> (b: bool)
    ensures
        b == exists|k: int|
            0 <= k < npcs@.len() && (#[trigger] npcs@[k]).was_talked_to && npc_name(npcs@[k].dialogue)
                == target_npc@,
{
    let target = chars_of(target_npc);
    let mut k: usize = 0;
    while k < npcs.len()
        invariant
            k <= npcs@.len(),
            target@ == target_npc@,
            forall|j: int|
                0 <= j < k ==> !((#[trigger] npcs@[j]).was_talked_to && npc_name(npcs@[j].dialogue)
                    == target_npc@),
        decreases npcs@.len() - k,
    {
        if npcs[k].was_talked_to {
            let name = chars_of(npcs[k].dialogue.as_str());
            if chars_equal(&name, &target) {
                return true;
            }
        }
        k = k + 1;
    }
    false
}

/// The variables `$mentioned_by_<name>` that the runner of `dialogue` gets
/// set, one per mention recorded with its characters, in order.
pub open spec fn mentioned_variables(dialogue: NpcDialogue, npcs: Seq<Npc>) -> Seq<Seq<char>>
    decreases npcs.len(),
{
    if npcs.len() == 0 {
        Seq::empty()
    } else {
        mentioned_variables(dialogue, npcs.drop_last()) + if npcs.last().dialogue == dialogue {
            npcs.last().was_mentioned_by@.map_values(|m: NpcDialogue| "$mentioned_by_"@ + npc_name(m))
        } else {
            Seq::empty()
        }
    }
}

/// The variables `$mentioned_by_<name>` that the runner of `dialogue` gets
/// set (each where the runner's storage holds it).
pub fn mentioned_by_variables(dialogue: NpcDialogue, npcs: &Vec<Npc>) -> (vars: Vec<String>)
    ensures
        vars@.map_values(|v: String| v@) == mentioned_variables(dialogue, npcs@),
{
    let mut vars: Vec<String> = Vec::new();
    let mut k: usize = 0;
    while k < npcs.len()
        invariant
            k <= npcs@.len(),
            vars@.map_values(|v: String| v@) == mentioned_variables(dialogue, npcs@.take(k as int)),
        decreases npcs@.len() - k,
    {
        assert(npcs@.take(k + 1).drop_last() =~= npcs@.take(k as int));
        assert(npcs@.take(k + 1).last() == npcs@[k as int]);
        let ghost before = vars@.map_values(|v: String| v@);
        if npcs[k].dialogue == dialogue {
            let mentions = &npcs[k].was_mentioned_by;
            let mut m: usize = 0;
            while m < mentions.len()
                invariant
                    m <= mentions@.len(),
                    vars@.map_values(|v: String| v@) == before + mentions@.take(m as int).map_values(
                        |d: NpcDialogue| "$mentioned_by_"@ + npc_name(d),
                    ),
                decreases mentions@.len() - m,
            {
                let mut name = chars_of("$mentioned_by_");
                let mut who = chars_of(mentions[m].as_str());
                name.append(&mut who);
                let ghost prev = vars@.map_values(|v: String| v@);
                vars.push(string_of(&name));
                assert(vars@.map_values(|v: String| v@) =~= prev.push(name@));
                assert(mentions@.take(m + 1).map_values(|d: NpcDialogue| "$mentioned_by_"@ + npc_name(d)) =~= mentions@.take(m as int).map_values(|d: NpcDialogue| "$mentioned_by_"@ + npc_name(d)).push("$mentioned_by_"@ + npc_name(mentions@[m as int])));
                m = m + 1;
            }
            assert(mentions@.take(m as int) =~= mentions@);
        }
        assert(vars@.map_values(|v: String| v@) =~= mentioned_variables(dialogue, npcs@.take(k + 1)));
        k = k + 1;
    }
    assert(npcs@.take(k as int) =~= npcs@);
    vars
}

} // verus!

verus! {

/// Whether the dialogue goes on to its next line this frame: not while the
/// continue key is pressed over an unfinished line, not while options are
/// shown, and only when the key is pressed or the line leads to options.
pub fn continue_dialogue(
    dialogue_continue: bool,
    typewriter: &crate::typewriter::Typewriter,
    options_shown: bool,
) -> (go_on: bool)
    ensures
        go_on == (!(dialogue_continue && !typewriter.finished()) && !options_shown && (
        dialogue_continue || typewriter.last_before_options)),
{
    if dialogue_continue && !typewriter.is_finished() {
        return false;
    }
    if options_shown {
        return false;
    }
    if !dialogue_continue && !typewriter.last_before_options {
        return false;
    }
    true
}

/// Whether `a` and `b` hold the same line.
pub open spec fn same_line(a: DialogueLine, b: DialogueLine) -> bool {
    &&& a.text@ == b.text@
    &&& a.last_before_options == b.last_before_options
    &&& match (a.character_name, b.character_name) {
        (Some(x), Some(y)) => x@ == y@,
        (None, None) => true,
        _ => false,
    }
}

/// A copy of `line`.
fn copy_line(line: &DialogueLine) -> (c: DialogueLine)
    ensures
        same_line(c, *line),
{
    let character_name = match &line.character_name {
        Some(n) => Some(n.clone()),
        None => None,
    };
    DialogueLine {
        character_name,
        text: line.text.clone(),
        last_before_options: line.last_before_options,
    }
}

/// A line presented by the runner is kept by the active runners, to show it
/// again when the chat resumes.
pub fn present_line(flags: &mut Vec<RunnerFlags>, line: &DialogueLine)
    ensures
        final(flags)@.len() == old(flags)@.len(),
        forall|k: int|
            0 <= k < old(flags)@.len() ==> {
                let before = #[trigger] old(flags)@[k];
                let after = final(flags)@[k];
                &&& after.active == before.active
                &&& after.dialogue == before.dialogue
                &&& after.options == before.options
                &&& if before.active {
                    after.line matches Some(l) && same_line(l, *line)
                } else {
                    after.line == before.line
                }
            },
{
    let n = flags.len();
    let mut k: usize = 0;
    while k < n
        invariant
            n == flags@.len() == old(flags)@.len(),
            k <= n,
            forall|j: int| k <= j < n ==> #[trigger] flags@[j] == old(flags)@[j],
            forall|j: int|
                0 <= j < k ==> {
                    let before = #[trigger] old(flags)@[j];
                    let after = flags@[j];
                    &&& after.active == before.active
                    &&& after.dialogue == before.dialogue
                    &&& after.options == before.options
                    &&& if before.active {
                        after.line matches Some(l) && same_line(l, *line)
                    } else {
                        after.line == before.line
                    }
                },
        decreases n - k,
    {
        if flags[k].active {
            flags[k].line = Some(copy_line(line));
        }
        k = k + 1;
    }
}

/// Once an option is chosen, the active runners forget their options.
pub fn reset_option_flag(flags: &mut Vec<RunnerFlags>)
    ensures
        final(flags)@.len() == old(flags)@.len(),
        forall|k: int|
            0 <= k < old(flags)@.len() ==> {
                let before = #[trigger] old(flags)@[k];
                let after = final(flags)@[k];
                &&& after.active == before.active
                &&& after.dialogue == before.dialogue
                &&& after.line == before.line
                &&& if before.active {
                    after.options is None
                } else {
                    after.options == before.options
                }
            },
{
    let n = flags.len();
    let mut k: usize = 0;
    while k < n
        invariant
            n == flags@.len() == old(flags)@.len(),
            k <= n,
            forall|j: int| k <= j < n ==> #[trigger] flags@[j] == old(flags)@[j],
            forall|j: int|
                0 <= j < k ==> {
                    let before = #[trigger] old(flags)@[j];
                    let after = flags@[j];
                    &&& after.active == before.active
                    &&& after.dialogue == before.dialogue
                    &&& after.line == before.line
                    &&& if before.active {
                        after.options is None
                    } else {
                        after.options == before.options
                    }
                },
        decreases n - k,
    {
        if flags[k].active {
            flags[k].options = None;
        }
        k = k + 1;
    }
}

} // verus!
