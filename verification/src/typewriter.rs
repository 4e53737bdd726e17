//! The typewriter that writes a dialogue line grapheme by grapheme, and the
//! pauses that punctuation asks for. How many graphemes the elapsed time
//! allows is reckoned by the caller's clock; what is written, and which
//! pause follows, is decided here.

use unicode_segmentation::UnicodeSegmentation;
use vstd::prelude::*;

use crate::text::{chars_of, find_last, has_char, last_index, string_of, utf8_len, utf8_length};

verus! {

broadcast use vstd::seq::Seq::lemma_flatten_push;

/// The extended grapheme clusters of `s`, in order.
pub uninterp spec fn graphemes(s: Seq<char>) -> Seq<Seq<char>>;

/// `UnicodeSegmentation::graphemes(s, true)`, each cluster copied into a
/// `String`. The claim: the result is named `graphemes`, and, as the
/// crate's iterator cuts `s` at successive boundaries from its start to its
/// end, the clusters are non-empty and in a row give back `s`.
#[verifier::external_body]
fn extended_graphemes(s: &str) -> (g: Vec<String>)
    ensures
        g@.map_values(|x: String| x@) == graphemes(s@),
        g@.map_values(|x: String| x@).flatten() == s@,
        forall|i: int| 0 <= i < g@.len() ==> (#[trigger] g@[i])@.len() > 0,
{
    s.graphemes(true).map(|x| x.to_string()).collect()
}

/// The pause that the punctuation just written asks for.
#[derive(Clone, Copy, Debug, PartialEq, Eq, Structural)]
pub enum Pause {
    Question,
    Colon,
    Dash,
    Exclamation,
    Period,
    Comma,
    NoPause,
}

/// The pause after writing `taken` with the graphemes `rest` still to come:
/// the first of `?`, `:`, `-`, `!` in `taken` decides; a `.` pauses unless
/// it opens `taken` alone (the byte length of `taken` is one more than the
/// number of characters after its last `.`) and the next grapheme, if any,
/// starts with `.` too; a `,` pauses least.
pub open spec fn pause_for(taken: Seq<char>, rest: Seq<Seq<char>>) -> Pause {
    if taken.contains('?') {
        Pause::Question
    } else if taken.contains(':') {
        Pause::Colon
    } else if taken.contains('-') {
        Pause::Dash
    } else if taken.contains('!') {
        Pause::Exclamation
    } else if taken.contains('.') {
        let index = taken.len() - 1 - last_index(taken, '.');
        if index + 1 < utf8_len(taken) || (rest.len() > 0 && !(rest[0].len() > 0 && rest[0][0]
            == '.')) {
            Pause::Period
        } else {
            Pause::NoPause
        }
    } else if taken.contains(',') {
        Pause::Comma
    } else {
        Pause::NoPause
    }
}

/// The line being written: who speaks it, what is written so far, the
/// graphemes still to write, whether options follow it, and whether its
/// end has been announced.
pub struct Typewriter {
    pub character_name: Option<String>,
    pub current_text: String,
    pub graphemes_left: Vec<String>,
    pub last_before_options: bool,
    pub last_finished: bool,
}

impl Typewriter {
    /// The graphemes still to write.
    pub open spec fn left(&self) -> Seq<Seq<char>> {
        self.graphemes_left@.map_values(|g: String| g@)
    }

    /// Whether the whole line is written.
    pub open spec fn finished(&self) -> bool {
        self.graphemes_left@.len() == 0 && self.current_text@.len() > 0
    }

    /// Whether the end of the line has been announced.
    pub open spec fn announced(&self) -> bool {
        self.last_finished
    }

    /// A typewriter with no line.
    pub fn new() -> (t: Self)
        ensures
            t.character_name is None,
            t.current_text@ == Seq::<char>::empty(),
            t.graphemes_left@.len() == 0,
            !t.last_before_options,
            !t.announced(),
    {
        Typewriter {
            character_name: None,
            current_text: String::new(),
            graphemes_left: Vec::new(),
            last_before_options: false,
            last_finished: false,
        }
    }

    /// Shows a whole line at once, as already written.
    pub fn set_completed_line(
        &mut self,
        character_name: Option<String>,
        text: String,
        last_before_options: bool,
    )
        ensures
            final(self).character_name == character_name,
            final(self).current_text@ == text@,
            final(self).graphemes_left@.len() == 0,
            final(self).last_before_options == last_before_options,
            final(self).announced(),
    {
        *self = Typewriter {
            character_name,
            current_text: text,
            graphemes_left: Vec::new(),
            last_before_options,
            last_finished: true,
        };
    }

    /// Starts writing a line: nothing is written yet, all its graphemes are
    /// to come.
    pub fn set_line(&mut self, character_name: Option<String>, text: &str, last_before_options: bool)
        ensures
            final(self).character_name == character_name,
            final(self).current_text@ == Seq::<char>::empty(),
            final(self).left() == graphemes(text@),
            final(self).left().flatten() == text@,
            final(self).last_before_options == last_before_options,
            !final(self).announced(),
    {
        *self = Typewriter {
            character_name,
            current_text: String::new(),
            graphemes_left: extended_graphemes(text),
            last_before_options,
            last_finished: false,
        };
    }

    /// Forgets the line.
    pub fn reset(&mut self)
        ensures
            final(self).character_name is None,
            final(self).current_text@ == Seq::<char>::empty(),
            final(self).graphemes_left@.len() == 0,
            !final(self).last_before_options,
            !final(self).announced(),
    {
        *self = Typewriter::new();
    }

    /// Whether the whole line is written.
    pub fn is_finished(&self) -> (b: bool)
        ensures
            b == self.finished(),
    {
        self.graphemes_left.len() == 0 && self.current_text.as_str().unicode_len() > 0
    }

    /// Writes the next `calculated_graphemes` graphemes (or all that are
    /// left, if fewer) and gives back what was written and the pause that
    /// it asks for. A finished line stays as it is.
    pub fn update_current_text(&mut self, calculated_graphemes: usize) -> (r: (String, Pause))
        ensures
            old(self).finished() ==> *final(self) == *old(self) && r.0@ == Seq::<char>::empty()
                && r.1 == Pause::NoPause,
            !old(self).finished() ==> {
                let k = if calculated_graphemes < old(self).left().len() {
                    calculated_graphemes as int
                } else {
                    old(self).left().len() as int
                };
                let taken = old(self).left().take(k).flatten();
                &&& r.0@ == taken
                &&& final(self).left() == old(self).left().skip(k)
                &&& final(self).current_text@ == old(self).current_text@ + taken
                &&& r.1 == pause_for(taken, old(self).left().skip(k))
                &&& final(self).character_name == old(self).character_name
                &&& final(self).last_before_options == old(self).last_before_options
                &&& final(self).announced() == old(self).announced()
            },
    {
        if self.is_finished() {
            return (String::new(), Pause::NoPause);
        }
        let ghost left = self.left();
        let len = self.graphemes_left.len();
        let k = if calculated_graphemes < len {
            calculated_graphemes
        } else {
            len
        };
        let mut taken: Vec<char> = Vec::new();
        let mut j: usize = 0;
        assert(left.take(0) =~= Seq::<Seq<char>>::empty());
        while j < k
            invariant
                j <= k <= len,
                len == self.graphemes_left@.len(),
                left == self.left(),
                taken@ == left.take(j as int).flatten(),
            decreases k - j,
        {
            assert(left[j as int] == self.graphemes_left@[j as int]@);
            let mut piece = chars_of(self.graphemes_left[j].as_str());
            taken.append(&mut piece);
            assert(left.take(j + 1) =~= left.take(j as int).push(left[j as int]));
            j = j + 1;
        }
        let mut rest: Vec<String> = Vec::new();
        let mut m: usize = k;
        while m < len
            invariant
                k <= m <= len,
                len == self.graphemes_left@.len(),
                left == self.left(),
                rest@.map_values(|g: String| g@) == left.subrange(k as int, m as int),
            decreases len - m,
        {
            let g = self.graphemes_left[m].clone();
            assert(left[m as int] == self.graphemes_left@[m as int]@);
            assert(g@ == left[m as int]);
            let ghost prev = rest@.map_values(|g: String| g@);
            rest.push(g);
            assert(rest@.map_values(|g: String| g@) =~= prev.push(left[m as int]));
            assert(rest@.map_values(|g: String| g@) =~= left.subrange(k as int, m + 1));
            m = m + 1;
        }
        assert(left.subrange(k as int, len as int) =~= left.skip(k as int));
        let pause = pause_after(&taken, &rest);
        self.graphemes_left = rest;
        let mut text = chars_of(self.current_text.as_str());
        text.extend_from_slice(&taken);
        self.current_text = string_of(&text);
        (string_of(&taken), pause)
    }

    /// Writes the rest of the line at once.
    pub fn finish_current_line(&mut self)
        ensures
            old(self).finished() ==> *final(self) == *old(self),
            !old(self).finished() ==> {
                &&& final(self).current_text@ == old(self).current_text@ + old(self).left().flatten()
                &&& final(self).graphemes_left@.len() == 0
                &&& final(self).character_name == old(self).character_name
                &&& final(self).last_before_options == old(self).last_before_options
                &&& final(self).announced() == old(self).announced()
            },
    {
        if self.is_finished() {
            return;
        }
        let all = self.graphemes_left.len();
        let (_, _) = self.update_current_text(all);
        assert(old(self).left().take(all as int) =~= old(self).left());
        assert(self.left().len() == 0);
    }

    /// Whether the end of the line is to be announced now: the line is
    /// written and its end was not announced yet. Announcing it marks it.
    pub fn send_finished_event(&mut self) -> (send: bool)
        ensures
            send == (old(self).finished() && !old(self).announced()),
            final(self).announced() == (old(self).announced() || send),
            final(self).character_name == old(self).character_name,
            final(self).current_text == old(self).current_text,
            final(self).graphemes_left == old(self).graphemes_left,
            final(self).last_before_options == old(self).last_before_options,
    {
        if self.is_finished() && !self.last_finished {
            self.last_finished = true;
            true
        } else {
            false
        }
    }
}

/// The pause after writing `taken` with `rest` still to come; see
/// `pause_for`.
fn pause_after(taken: &Vec<char>, rest: &Vec<String>) -> (p: Pause)
    ensures
        p == pause_for(taken@, rest@.map_values(|g: String| g@)),
{
    if has_char(taken, '?') {
        Pause::Question
    } else if has_char(taken, ':') {
        Pause::Colon
    } else if has_char(taken, '-') {
        Pause::Dash
    } else if has_char(taken, '!') {
        Pause::Exclamation
    } else if has_char(taken, '.') {
        proof {
            let j = choose|j: int| 0 <= j < taken@.len() && taken@[j] == '.';
            lemma_last_index_found(taken@, '.', j);
        }
        let last = find_last(taken, '.').unwrap();
        let index = taken.len() - 1 - last;
        let bytes = utf8_length(taken);
        let next_is_period = if rest.len() > 0 {
            let first = chars_of(rest[0].as_str());
            assert(rest@.map_values(|g: String| g@)[0] == rest@[0]@);
            first.len() > 0 && first[0] == '.'
        } else {
            false
        };
        if (index as u128) + 1 < bytes || (rest.len() > 0 && !next_is_period) {
            Pause::Period
        } else {
            Pause::NoPause
        }
    } else if has_char(taken, ',') {
        Pause::Comma
    } else {
        Pause::NoPause
    }
}

/// Writing some graphemes keeps the line: what is written followed by what
/// is left is the same text before and after a step of the typewriter.
pub proof fn lemma_step_keeps_line(current: Seq<char>, left: Seq<Seq<char>>, k: int)
    requires
        0 <= k <= left.len(),
    ensures
        (current + left.take(k).flatten()) + left.skip(k).flatten() == current + left.flatten(),
{
    vstd::seq_lib::lemma_flatten_concat(left.take(k), left.skip(k));
    assert(left.take(k) + left.skip(k) =~= left);
    assert((current + left.take(k).flatten()) + left.skip(k).flatten() =~= current + (left.take(k).flatten() + left.skip(k).flatten()));
}

proof fn lemma_last_index_found(s: Seq<char>, c: char, j: int)
    requires
        0 <= j < s.len(),
        s[j] == c,
    ensures
        j <= last_index(s, c) < s.len(),
    decreases s.len(),
{
    if s.last() != c {
        lemma_last_index_found(s.drop_last(), c, j);
    }
}

} // verus!
