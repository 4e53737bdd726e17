//! The non-player characters, their names in the dialogue files, and what
//! the dialogue commands change on them.

use vstd::prelude::*;

use crate::text::{chars_equal, chars_of, copy_range};

verus! {

broadcast use vstd::string::group_string_axioms;

/// The dialogue (and so the character) of a non-player character.
#[derive(Clone, Copy, Debug, PartialEq, Eq, Structural)]
pub enum NpcDialogue {
    Eleonore,
    Jotem,
    Isabelle,
    Ionas,
    Antonius,
    IonasAndAntonius,
}

/// The name of a dialogue, as the dialogue files and their nodes name it.
pub open spec fn npc_name(d: NpcDialogue) -> Seq<char> {
    match d {
        NpcDialogue::Eleonore => "Eleonore"@,
        NpcDialogue::Jotem => "Jotem"@,
        NpcDialogue::Isabelle => "Isabelle"@,
        NpcDialogue::Ionas => "Ionas"@,
        NpcDialogue::Antonius => "Antonius"@,
        NpcDialogue::IonasAndAntonius => "IonasAndAntonius"@,
    }
}

/// The dialogue whose name is exactly `s`, if any.
pub open spec fn npc_from_name(s: Seq<char>) -> Option<NpcDialogue> {
    if s == "Eleonore"@ {
        Some(NpcDialogue::Eleonore)
    } else if s == "Jotem"@ {
        Some(NpcDialogue::Jotem)
    } else if s == "Isabelle"@ {
        Some(NpcDialogue::Isabelle)
    } else if s == "Ionas"@ {
        Some(NpcDialogue::Ionas)
    } else if s == "Antonius"@ {
        Some(NpcDialogue::Antonius)
    } else if s == "IonasAndAntonius"@ {
        Some(NpcDialogue::IonasAndAntonius)
    } else {
        None
    }
}

/// A name that matches no dialogue.
#[derive(Clone, Copy, Debug, PartialEq, Eq, Structural)]
pub enum NpcParseError {
    VariantNotFound,
}

/// `s` without its leading underscores (hidden names start with `_`).
pub open spec fn strip_underscores(s: Seq<char>) -> Seq<char>
    decreases s.len(),
{
    if s.len() > 0 && s[0] == '_' {
        strip_underscores(s.drop_first())
    } else {
        s
    }
}

proof fn lemma_strip_underscores(s: Seq<char>, i: int)
    requires
        0 <= i <= s.len(),
        forall|k: int| 0 <= k < i ==> #[trigger] s[k] == '_',
    ensures
        strip_underscores(s) == strip_underscores(s.skip(i)),
    decreases i,
{
    if i > 0 {
        assert(s.drop_first().skip(i - 1) =~= s.skip(i));
        lemma_strip_underscores(s.drop_first(), i - 1);
    } else {
        assert(s.skip(0) =~= s);
    }
}

/// The characters of `s` without its leading underscores.
pub fn trim_underscores(s: &[char]) -> (t: Vec<char>)
    ensures
        t@ == strip_underscores(s@),
{
    let mut i: usize = 0;
    while i < s.len() && s[i] == '_'
        invariant
            i <= s@.len(),
            forall|k: int| 0 <= k < i ==> #[trigger] s@[k] == '_',
        decreases s@.len() - i,
    {
        i = i + 1;
    }
    proof {
        lemma_strip_underscores(s@, i as int);
    }
    let t = copy_range(s, i, s.len());
    assert(t@ =~= s@.skip(i as int));
    t
}

impl NpcDialogue {
    /// Every dialogue, in declaration order.
    pub fn all() -> (v: Vec<NpcDialogue>)
        ensures
            v@ == seq![
                NpcDialogue::Eleonore,
                NpcDialogue::Jotem,
                NpcDialogue::Isabelle,
                NpcDialogue::Ionas,
                NpcDialogue::Antonius,
                NpcDialogue::IonasAndAntonius,
            ],
    {
        vec![
            NpcDialogue::Eleonore,
            NpcDialogue::Jotem,
            NpcDialogue::Isabelle,
            NpcDialogue::Ionas,
            NpcDialogue::Antonius,
            NpcDialogue::IonasAndAntonius,
        ]
    }

    /// The name of the dialogue, which is also the name of its start node.
    pub fn as_str(&self) -> (name: &'static str)
        ensures
            name@ == npc_name(*self),
    {
        match self {
            NpcDialogue::Eleonore => "Eleonore",
            NpcDialogue::Jotem => "Jotem",
            NpcDialogue::Isabelle => "Isabelle",
            NpcDialogue::Ionas => "Ionas",
            NpcDialogue::Antonius => "Antonius",
            NpcDialogue::IonasAndAntonius => "IonasAndAntonius",
        }
    }

    /// The name of the dialogue, as a `String`.
    pub fn to_string(&self) -> (name: String)
        ensures
            name@ == npc_name(*self),
    {
        String::from_str(self.as_str())
    }

    /// The dialogue whose name is exactly `s`.
    pub fn from_chars(s: &[char]) -> (r: Result<NpcDialogue, NpcParseError>)
        ensures
            r == match npc_from_name(s@) {
                Some(d) => Ok::<NpcDialogue, NpcParseError>(d),
                None => Err(NpcParseError::VariantNotFound),
            },
    {
        let all = NpcDialogue::all();
        let mut k: usize = 0;
        while k < all.len()
            invariant
                all@ == seq![
                    NpcDialogue::Eleonore,
                    NpcDialogue::Jotem,
                    NpcDialogue::Isabelle,
                    NpcDialogue::Ionas,
                    NpcDialogue::Antonius,
                    NpcDialogue::IonasAndAntonius,
                ],
                k <= 6,
                forall|j: int| 0 <= j < k ==> s@ != npc_name(#[trigger] all@[j]),
            decreases 6 - k,
        {
            let d = all[k];
            let name = chars_of(d.as_str());
            if chars_equal(s, &name) {
                return Ok(d);
            }
            k = k + 1;
        }
        assert(s@ != npc_name(all@[0]));
        assert(s@ != npc_name(all@[1]));
        assert(s@ != npc_name(all@[2]));
        assert(s@ != npc_name(all@[3]));
        assert(s@ != npc_name(all@[4]));
        assert(s@ != npc_name(all@[5]));
        Err(NpcParseError::VariantNotFound)
    }

    /// The dialogue whose name is exactly `s`.
    pub fn from_str(s: &str) -> (r: Result<NpcDialogue, NpcParseError>)
        ensures
            r == match npc_from_name(s@) {
                Some(d) => Ok::<NpcDialogue, NpcParseError>(d),
                None => Err(NpcParseError::VariantNotFound),
            },
    {
        let chars = chars_of(s);
        NpcDialogue::from_chars(&chars)
    }
}

/// Parsing the name of a dialogue gives back the dialogue.
pub proof fn lemma_name_round_trip(d: NpcDialogue)
    ensures
        npc_from_name(npc_name(d)) == Some(d),
{
    reveal_strlit("Eleonore");
    reveal_strlit("Jotem");
    reveal_strlit("Isabelle");
    reveal_strlit("Ionas");
    reveal_strlit("Antonius");
    reveal_strlit("IonasAndAntonius");
    let e = "Eleonore"@;
    let j = "Jotem"@;
    let i = "Isabelle"@;
    let o = "Ionas"@;
    let a = "Antonius"@;
    let b = "IonasAndAntonius"@;
    assert(e.len() == 8 && j.len() == 5 && i.len() == 8 && o.len() == 5 && a.len() == 8 && b.len() == 16);
    assert(e[0] == 'E' && j[0] == 'J' && i[0] == 'I' && o[0] == 'I' && a[0] == 'A');
    assert(e != j && e != i && e != o && e != a && e != b);
    assert(j != i && j != o && j != a && j != b);
    assert(i != o && i != a && i != b);
    assert(o != a && o != b);
    assert(a != b);
}

/// The dialogue named by a character name from a dialogue file: the name
/// without its leading underscores.
pub open spec fn npc_of_character(name: Seq<char>) -> Option<NpcDialogue> {
    npc_from_name(strip_underscores(name))
}

/// The dialogue named by a character name from a dialogue file, leading
/// underscores (hidden names) ignored.
pub fn parse_character_name(name: &str) -> (r: Result<NpcDialogue, NpcParseError>)
    ensures
        r == match npc_of_character(name@) {
            Some(d) => Ok::<NpcDialogue, NpcParseError>(d),
            None => Err(NpcParseError::VariantNotFound),
        },
{
    let chars = chars_of(name);
    let trimmed = trim_underscores(&chars);
    NpcDialogue::from_chars(&trimmed)
}

/// A non-player character of the world.
pub struct Npc {
    /// The dialogue of the character; it marks which character this is.
    pub dialogue: NpcDialogue,
    /// Whether the player has talked to this character.
    pub was_talked_to: bool,
    /// The characters that mentioned this character in a conversation.
    pub was_mentioned_by: Vec<NpcDialogue>,
}

impl Npc {
    /// A character that nobody talked to or mentioned yet.
    pub fn new(dialogue: NpcDialogue) -> (npc: Self)
        ensures
            npc.dialogue == dialogue,
            !npc.was_talked_to,
            npc.was_mentioned_by@ == Seq::<NpcDialogue>::empty(),
    {
        Npc { dialogue, was_talked_to: false, was_mentioned_by: Vec::new() }
    }
}

/// The effect of `<<target_npc_mentioned source target>>`: where both
/// names (leading underscores ignored) name dialogues, every character of
/// the target dialogue records the source as having mentioned it; where
/// either does not, nothing changes and the error is returned.
pub fn target_npc_mentioned_command(npcs: &mut Vec<Npc>, source_npc: &str, target_npc: &str) -> (r: Result<
    (),
    NpcParseError,
>)
    ensures
        final(npcs)@.len() == old(npcs)@.len(),
        r is Ok <==> npc_of_character(source_npc@) is Some && npc_of_character(target_npc@) is Some,
        forall|k: int|
            0 <= k < old(npcs)@.len() ==> {
                let before = #[trigger] old(npcs)@[k];
                let after = final(npcs)@[k];
                &&& after.dialogue == before.dialogue
                &&& after.was_talked_to == before.was_talked_to
                &&& after.was_mentioned_by@ == if r is Ok && Some(before.dialogue) == npc_of_character(
                    target_npc@,
                ) {
                    before.was_mentioned_by@.push(npc_of_character(source_npc@).unwrap())
                } else {
                    before.was_mentioned_by@
                }
            },
{
    let source = match parse_character_name(source_npc) {
        Ok(r) => r,
        Err(err) => {
            return Err(err);
        },
    };
    let target = match parse_character_name(target_npc) {
        Ok(r) => r,
        Err(err) => {
            return Err(err);
        },
    };
    let n = npcs.len();
    let mut k: usize = 0;
    while k < n
        invariant
            n == npcs@.len() == old(npcs)@.len(),
            k <= n,
            Some(source) == npc_of_character(source_npc@),
            Some(target) == npc_of_character(target_npc@),
            forall|j: int| k <= j < n ==> #[trigger] npcs@[j] == old(npcs)@[j],
            forall|j: int|
                0 <= j < k ==> {
                    let before = #[trigger] old(npcs)@[j];
                    let after = npcs@[j];
                    &&& after.dialogue == before.dialogue
                    &&& after.was_talked_to == before.was_talked_to
                    &&& after.was_mentioned_by@ == if before.dialogue == target {
                        before.was_mentioned_by@.push(source)
                    } else {
                        before.was_mentioned_by@
                    }
                },
        decreases n - k,
    {
        if npcs[k].dialogue == target {
            npcs[k].was_mentioned_by.push(source);
        }
        k = k + 1;
    }
    Ok(())
}

/// The characters whose dialogue is `dialogue` are marked as talked to.
pub fn mark_talked_to(npcs: &mut Vec<Npc>, dialogue: NpcDialogue)
    ensures
        final(npcs)@.len() == old(npcs)@.len(),
        forall|k: int|
            0 <= k < old(npcs)@.len() ==> {
                let before = #[trigger] old(npcs)@[k];
                let after = final(npcs)@[k];
                &&& after.dialogue == before.dialogue
                &&& after.was_mentioned_by@ == before.was_mentioned_by@
                &&& after.was_talked_to == (before.was_talked_to || before.dialogue == dialogue)
            },
{
    let n = npcs.len();
    let mut k: usize = 0;
    while k < n
        invariant
            n == npcs@.len() == old(npcs)@.len(),
            k <= n,
            forall|j: int| k <= j < n ==> #[trigger] npcs@[j] == old(npcs)@[j],
            forall|j: int|
                0 <= j < k ==> {
                    let before = #[trigger] old(npcs)@[j];
                    let after = npcs@[j];
                    &&& after.dialogue == before.dialogue
                    &&& after.was_mentioned_by@ == before.was_mentioned_by@
                    &&& after.was_talked_to == (before.was_talked_to || before.dialogue == dialogue)
                },
        decreases n - k,
    {
        if npcs[k].dialogue == dialogue {
            npcs[k].was_talked_to = true;
        }
        k = k + 1;
    }
}

/// Characters per second at which a speaker's lines are typed out: per
/// character for the non-player characters, 20 for the player ("You") and
/// for anyone else.
pub open spec fn spec_writer_speed(name: Seq<char>) -> u32 {
    match npc_of_character(name) {
        Some(NpcDialogue::Jotem) => 18,
        Some(NpcDialogue::Eleonore) => 20,
        Some(NpcDialogue::Isabelle) => 20,
        Some(NpcDialogue::Ionas) => 16,
        Some(NpcDialogue::Antonius) => 19,
        Some(NpcDialogue::IonasAndAntonius) => 300,
        None => 20,
    }
}

/// Characters per second at which the lines of the speaker `name` are
/// typed out.
pub fn writer_speed(name: &str) -> (speed: u32)
    ensures
        speed == spec_writer_speed(name@),
{
    match parse_character_name(name) {
        Ok(npc) => match npc {
            NpcDialogue::Jotem => 18,
            NpcDialogue::Eleonore => 20,
            NpcDialogue::Isabelle => 20,
            NpcDialogue::Ionas => 16,
            NpcDialogue::Antonius => 19,
            NpcDialogue::IonasAndAntonius => 300,
        },
        Err(_) => 20,
    }
}

/// The name shown over a line: hidden names (starting with `_`) show as
/// `???`.
pub fn convert_name(name: &str) -> (shown: String)
    ensures
        shown@ == if name@.len() > 0 && name@[0] == '_' {
            "???"@
        } else {
            name@
        },
{
    let chars = chars_of(name);
    if chars.len() > 0 && chars[0] == '_' {
        return String::from_str("???");
    }
    String::from_str(name)
}

/// Whose portrait stands beside a line.
#[derive(Clone, Copy, Debug, PartialEq, Eq, Structural)]
pub enum Portrait {
    /// The player.
    Player,
    /// A non-player character.
    Npc(NpcDialogue),
}

/// The portrait for a speaker: the player for "You", the character of a
/// dialogue name (leading underscores ignored), none for the two paladins
/// together or an unknown name.
pub open spec fn spec_character_icon(name: Seq<char>) -> Option<Portrait> {
    if strip_underscores(name) == "You"@ {
        Some(Portrait::Player)
    } else {
        match npc_of_character(name) {
            Some(NpcDialogue::IonasAndAntonius) => None,
            Some(d) => Some(Portrait::Npc(d)),
            None => None,
        }
    }
}

/// The portrait for the speaker `name`, if there is one.
pub fn character_icon(name: &str) -> (p: Option<Portrait>)
    ensures
        p == spec_character_icon(name@),
{
    let chars = chars_of(name);
    let trimmed = trim_underscores(&chars);
    let you = chars_of("You");
    if chars_equal(&trimmed, &you) {
        return Some(Portrait::Player);
    }
    match NpcDialogue::from_chars(&trimmed) {
        Ok(NpcDialogue::IonasAndAntonius) => None,
        Ok(d) => Some(Portrait::Npc(d)),
        Err(_) => None,
    }
}

/// Whose voice the typing blips of a line take.
#[derive(Clone, Copy, Debug, PartialEq, Eq, Structural)]
pub enum BlipVoice {
    /// No name on screen.
    Narrator,
    /// The player.
    Player,
    /// A non-player character.
    Npc(NpcDialogue),
    /// A name that matches no character.
    Unknown,
}

/// The voice for the speaker `name` (leading underscores ignored): the
/// narrator for no name, the player for "You", a character by its dialogue
/// name, otherwise unknown.
pub open spec fn spec_blip_voice(name: Seq<char>) -> BlipVoice {
    let n = strip_underscores(name);
    if n.len() == 0 {
        BlipVoice::Narrator
    } else if n == "You"@ {
        BlipVoice::Player
    } else {
        match npc_from_name(n) {
            Some(d) => BlipVoice::Npc(d),
            None => BlipVoice::Unknown,
        }
    }
}

/// The voice for the speaker `name`.
pub fn blip_voice(name: &str) -> (v: BlipVoice)
    ensures
        v == spec_blip_voice(name@),
{
    let chars = chars_of(name);
    let trimmed = trim_underscores(&chars);
    if trimmed.len() == 0 {
        return BlipVoice::Narrator;
    }
    let you = chars_of("You");
    if chars_equal(&trimmed, &you) {
        return BlipVoice::Player;
    }
    match NpcDialogue::from_chars(&trimmed) {
        Ok(d) => BlipVoice::Npc(d),
        Err(_) => BlipVoice::Unknown,
    }
}

} // verus!
