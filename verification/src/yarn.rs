//! Statistics and checks over the yarn dialogue files: how many lines the
//! player and the characters speak, how many options the player has, and
//! whether the custom commands and names in the files are written right.

use strsim::levenshtein;
use vstd::prelude::*;

use crate::dialogue_flow::count_lines;
use crate::text::{
    chars_equal, chars_of, chars_start_with, copy_range, decimal, decimal_chars, lemma_split_two,
    split, split_chars, starts_with, string_of, trimmed_lines, trimmed_lines_of,
};

verus! {

/// A yarn file: its text and its name without extension.
pub struct YarnFile {
    pub contents: String,
    pub name: String,
}

/// The name of a file up to its first dot.
pub open spec fn file_stem(file_name: Seq<char>) -> Seq<char> {
    split(file_name, '.')[0]
}

/// The name of a file up to its first dot: the name that a yarn file's
/// character goes by.
pub fn yarn_file_stem(file_name: &str) -> (stem: String)
    ensures
        stem@ == file_stem(file_name@),
{
    let chars = chars_of(file_name);
    let parts = split_chars(&chars, '.');
    assert(parts@.map_values(|p: Vec<char>| p@)[0] == parts@[0]@);
    string_of(&parts[0])
}

/// The trimmed lines of all `files`, one file after the other.
pub open spec fn all_lines(files: Seq<YarnFile>) -> Seq<Seq<char>>
    decreases files.len(),
{
    if files.len() == 0 {
        Seq::empty()
    } else {
        all_lines(files.drop_last()) + trimmed_lines(files.last().contents@)
    }
}

/// Whether a line is spoken by the player.
pub open spec fn is_player_line(l: Seq<char>) -> bool {
    starts_with(l, "You: "@)
}

/// Whether a line is a player option.
pub open spec fn is_player_option(l: Seq<char>) -> bool {
    starts_with(l, "-> "@)
}

/// Whether a line is spoken by a character named by a variable
/// (`{$name}: ...`).
pub open spec fn is_npc_line(l: Seq<char>) -> bool {
    starts_with(l, "{$"@) && starts_with(split(l, '}')[1], ":"@)
}

/// Whether every line that starts like a character's line has a `}`.
pub open spec fn npc_lines_ok(files: Seq<YarnFile>) -> bool {
    forall|i: int|
        0 <= i < all_lines(files).len() && starts_with(#[trigger] all_lines(files)[i], "{$"@)
            ==> split(all_lines(files)[i], '}').len() >= 2
}

/// Whether the lines of `files` can be counted in a `usize`.
pub open spec fn countable(files: Seq<YarnFile>) -> bool {
    all_lines(files).len() <= usize::MAX
}

proof fn lemma_count_le_len(ls: Seq<Seq<char>>, p: spec_fn(Seq<char>) -> bool)
    ensures
        count_lines(ls, p) <= ls.len(),
    decreases ls.len(),
{
    if ls.len() > 0 {
        lemma_count_le_len(ls.drop_last(), p);
    }
}

proof fn lemma_all_lines_take(files: Seq<YarnFile>, i: int)
    requires
        0 <= i < files.len(),
    ensures
        all_lines(files.take(i + 1)) == all_lines(files.take(i)) + trimmed_lines(
            files[i].contents@,
        ),
{
    assert(files.take(i + 1).drop_last() =~= files.take(i));
}

proof fn lemma_all_lines_mono(files: Seq<YarnFile>, i: int)
    requires
        0 <= i <= files.len(),
    ensures
        all_lines(files.take(i)).len() <= all_lines(files).len(),
        all_lines(files.take(i)) == all_lines(files).take(all_lines(files.take(i)).len() as int),
    decreases files.len(),
{
    if i == files.len() {
        assert(files.take(i) =~= files);
        assert(all_lines(files).take(all_lines(files).len() as int) =~= all_lines(files));
    } else {
        assert(files.drop_last().take(i) =~= files.take(i));
        lemma_all_lines_mono(files.drop_last(), i);
        let a = all_lines(files.drop_last());
        let k = all_lines(files.take(i)).len() as int;
        assert((a + trimmed_lines(files.last().contents@)).take(k) =~= a.take(k));
    }
}

/// Which count a line adds to.
pub enum LineKind {
    PlayerLine,
    PlayerOption,
    NpcLine,
}

/// Whether the line `l` is of the kind `kind`.
pub open spec fn line_is(kind: LineKind, l: Seq<char>) -> bool {
    match kind {
        LineKind::PlayerLine => is_player_line(l),
        LineKind::PlayerOption => is_player_option(l),
        LineKind::NpcLine => is_npc_line(l),
    }
}

/// Whether the trimmed line `line` is of the kind `kind`.
fn line_of_kind(kind: &LineKind, line: &[char]) -> (b: bool)
    requires
        *kind == LineKind::NpcLine && starts_with(line@, "{$"@) ==> split(line@, '}').len() >= 2,
    ensures
        b == line_is(*kind, line@),
{
    match kind {
        LineKind::PlayerLine => chars_start_with(line, &chars_of("You: ")),
        LineKind::PlayerOption => chars_start_with(line, &chars_of("-> ")),
        LineKind::NpcLine => {
            if !chars_start_with(line, &chars_of("{$")) {
                return false;
            }
            let parts = split_chars(line, '}');
            assert(parts@.map_values(|p: Vec<char>| p@)[1] == parts@[1]@);
            chars_start_with(&parts[1], &chars_of(":"))
        },
    }
}

/// The number of trimmed lines of all `files` that are of the kind `kind`.
fn count_kind(files: &Vec<YarnFile>, kind: LineKind) -> (n: usize)
    requires
        countable(files@),
        kind == LineKind::NpcLine ==> npc_lines_ok(files@),
    ensures
        n == count_lines(all_lines(files@), |l: Seq<char>| line_is(kind, l)),
{
    let ghost p = |l: Seq<char>| line_is(kind, l);
    let mut n: usize = 0;
    let mut f: usize = 0;
    assert(files@.take(0) =~= Seq::<YarnFile>::empty());
    while f < files.len()
        invariant
            f <= files@.len(),
            countable(files@),
            kind == LineKind::NpcLine ==> npc_lines_ok(files@),
            p == (|l: Seq<char>| line_is(kind, l)),
            n == count_lines(all_lines(files@.take(f as int)), p),
        decreases files@.len() - f,
    {
        proof {
            lemma_all_lines_take(files@, f as int);
            lemma_all_lines_mono(files@, f + 1);
        }
        let ghost before = all_lines(files@.take(f as int));
        let chars = chars_of(files[f].contents.as_str());
        let lines = trimmed_lines_of(&chars);
        let ghost lv = lines@.map_values(|l: Vec<char>| l@);
        let mut k: usize = 0;
        assert(lv.take(0) =~= Seq::<Seq<char>>::empty());
        assert(before + lv.take(0) =~= before);
        while k < lines.len()
            invariant
                k <= lines@.len(),
                lv == lines@.map_values(|l: Vec<char>| l@),
                before + lv == all_lines(files@.take(f + 1)),
                all_lines(files@.take(f + 1)) == all_lines(files@).take(all_lines(files@.take(f + 1)).len() as int),
                all_lines(files@.take(f + 1)).len() <= all_lines(files@).len(),
                countable(files@),
                kind == LineKind::NpcLine ==> npc_lines_ok(files@),
                p == (|l: Seq<char>| line_is(kind, l)),
                n == count_lines(before + lv.take(k as int), p),
            decreases lines@.len() - k,
        {
            assert(lv[k as int] == lines@[k as int]@);
            let ghost idx = before.len() + k;
            let ghost whole = all_lines(files@);
            let ghost upto = all_lines(files@.take(f + 1));
            assert(upto.len() <= whole.len());
            assert(idx < upto.len());
            assert(upto[idx] == lv[k as int]);
            assert(whole.take(upto.len() as int)[idx] == whole[idx]);
            assert(whole[idx] == lv[k as int]);
            assert((before + lv.take(k + 1)).drop_last() =~= before + lv.take(k as int));
            proof {
                lemma_count_le_len(before + lv.take(k as int), p);
            }
            if line_of_kind(&kind, &lines[k]) {
                n = n + 1;
            }
            k = k + 1;
        }
        assert(lv.take(k as int) =~= lv);
        f = f + 1;
    }
    assert(files@.take(f as int) =~= files@);
    n
}

/// The number of lines, over all `files`, that a character named by a
/// variable speaks (`{$name}: ...`).
pub fn number_npc_lines(files: &Vec<YarnFile>) -> (n: usize)
    requires
        countable(files@),
        npc_lines_ok(files@),
    ensures
        n == count_lines(all_lines(files@), |l: Seq<char>| is_npc_line(l)),
{
    let n = count_kind(files, LineKind::NpcLine);
    assert((|l: Seq<char>| line_is(LineKind::NpcLine, l)) =~= (|l: Seq<char>| is_npc_line(l)));
    n
}

/// The number of player options (`-> ...`) over all `files`.
pub fn number_player_options(files: &Vec<YarnFile>) -> (n: usize)
    requires
        countable(files@),
    ensures
        n == count_lines(all_lines(files@), |l: Seq<char>| is_player_option(l)),
{
    let n = count_kind(files, LineKind::PlayerOption);
    assert((|l: Seq<char>| line_is(LineKind::PlayerOption, l)) =~= (|l: Seq<char>| is_player_option(l)));
    n
}

/// The number of lines the player speaks (`You: ...`) over all `files`.
pub fn number_player_lines(files: &Vec<YarnFile>) -> (n: usize)
    requires
        countable(files@),
    ensures
        n == count_lines(all_lines(files@), |l: Seq<char>| is_player_line(l)),
{
    let n = count_kind(files, LineKind::PlayerLine);
    assert((|l: Seq<char>| line_is(LineKind::PlayerLine, l)) =~= (|l: Seq<char>| is_player_line(l)));
    n
}

} // verus!

verus! {

/// Who speaks the trimmed line `l` of the file named `file_name`: a line
/// `{$who}: ...` with exactly one `}` is spoken by `who`, where `{$name}`
/// stands for the file's own character.
pub open spec fn speaker(file_name: Seq<char>, l: Seq<char>) -> Option<Seq<char>> {
    let parts = split(l, '}');
    if parts.len() == 2 && starts_with(parts[1], ":"@) && starts_with(parts[0], "{$"@) {
        let who = parts[0].skip("{$"@.len() as int);
        Some(
            if who == "name"@ {
                file_name
            } else {
                who
            },
        )
    } else {
        None
    }
}

/// The speakers of the lines `ls` of the file named `file_name`, in order.
pub open spec fn speakers_in(file_name: Seq<char>, ls: Seq<Seq<char>>) -> Seq<Seq<char>>
    decreases ls.len(),
{
    if ls.len() == 0 {
        Seq::empty()
    } else {
        speakers_in(file_name, ls.drop_last()) + match speaker(file_name, ls.last()) {
            Some(who) => seq![who],
            None => Seq::empty(),
        }
    }
}

/// The speakers of all lines of all `files`, in order.
pub open spec fn speakers(files: Seq<YarnFile>) -> Seq<Seq<char>>
    decreases files.len(),
{
    if files.len() == 0 {
        Seq::empty()
    } else {
        speakers(files.drop_last()) + speakers_in(
            files.last().name@,
            trimmed_lines(files.last().contents@),
        )
    }
}

/// How often `who` occurs in `names`.
pub open spec fn occurrences(names: Seq<Seq<char>>, who: Seq<char>) -> nat
    decreases names.len(),
{
    if names.len() == 0 {
        0
    } else {
        occurrences(names.drop_last(), who) + if names.last() == who {
            1nat
        } else {
            0nat
        }
    }
}

/// The speaker of a trimmed line; see `speaker`.
fn speaker_of(file_name: &[char], line: &[char]) -> (r: Option<Vec<char>>)
    ensures
        match r {
            Some(v) => speaker(file_name@, line@) == Some(v@),
            None => speaker(file_name@, line@) is None,
        },
{
    let parts = split_chars(line, '}');
    if parts.len() != 2 {
        return None;
    }
    assert(parts@.map_values(|p: Vec<char>| p@)[0] == parts@[0]@);
    assert(parts@.map_values(|p: Vec<char>| p@)[1] == parts@[1]@);
    let prefix = chars_of("{$");
    if !chars_start_with(&parts[1], &chars_of(":")) || !chars_start_with(&parts[0], &prefix) {
        return None;
    }
    let who = crate::text::copy_range(&parts[0], prefix.len(), parts[0].len());
    assert(who@ =~= parts@[0]@.skip("{$"@.len() as int));
    if chars_equal(&who, &chars_of("name")) {
        let own = crate::text::copy_range(file_name, 0, file_name.len());
        assert(own@ =~= file_name@);
        Some(own)
    } else {
        Some(who)
    }
}

proof fn lemma_speakers_take(files: Seq<YarnFile>, i: int)
    requires
        0 <= i < files.len(),
    ensures
        speakers(files.take(i + 1)) == speakers(files.take(i)) + speakers_in(
            files[i].name@,
            trimmed_lines(files[i].contents@),
        ),
{
    assert(files.take(i + 1).drop_last() =~= files.take(i));
}

/// The speakers of all lines of all `files`, in order.
fn speaker_list(files: &Vec<YarnFile>) -> (names: Vec<Vec<char>>)
    ensures
        names@.map_values(|v: Vec<char>| v@) == speakers(files@),
{
    let mut names: Vec<Vec<char>> = Vec::new();
    let mut f: usize = 0;
    assert(files@.take(0) =~= Seq::<YarnFile>::empty());
    while f < files.len()
        invariant
            f <= files@.len(),
            names@.map_values(|v: Vec<char>| v@) == speakers(files@.take(f as int)),
        decreases files@.len() - f,
    {
        proof {
            lemma_speakers_take(files@, f as int);
        }
        let ghost before = names@.map_values(|v: Vec<char>| v@);
        let file_name = chars_of(files[f].name.as_str());
        let chars = chars_of(files[f].contents.as_str());
        let lines = trimmed_lines_of(&chars);
        let ghost lv = lines@.map_values(|l: Vec<char>| l@);
        let mut k: usize = 0;
        assert(lv.take(0) =~= Seq::<Seq<char>>::empty());
        while k < lines.len()
            invariant
                k <= lines@.len(),
                lv == lines@.map_values(|l: Vec<char>| l@),
                lv == trimmed_lines(files@[f as int].contents@),
                file_name@ == files@[f as int].name@,
                names@.map_values(|v: Vec<char>| v@) == before + speakers_in(
                    file_name@,
                    lv.take(k as int),
                ),
            decreases lines@.len() - k,
        {
            assert(lv[k as int] == lines@[k as int]@);
            assert(lv.take(k + 1).drop_last() =~= lv.take(k as int));
            let ghost prev = names@.map_values(|v: Vec<char>| v@);
            match speaker_of(&file_name, &lines[k]) {
                Some(who) => {
                    assert(lv.take(k + 1).last() == lv[k as int]);
                    assert(speakers_in(file_name@, lv.take(k + 1)) == speakers_in(file_name@, lv.take(k as int)) + seq![who@]);
                    names.push(who);
                    assert(names@.map_values(|v: Vec<char>| v@) =~= prev.push(who@));
                    assert(names@.map_values(|v: Vec<char>| v@) =~= before + speakers_in(
                        file_name@,
                        lv.take(k + 1),
                    ));
                },
                None => {
                    assert(lv.take(k + 1).last() == lv[k as int]);
                    assert(names@.map_values(|v: Vec<char>| v@) =~= before + speakers_in(
                        file_name@,
                        lv.take(k + 1),
                    ));
                },
            }
            k = k + 1;
        }
        assert(lv.take(k as int) =~= lv);
        f = f + 1;
    }
    assert(files@.take(f as int) =~= files@);
    names
}

/// The view of tally entries as names and counts.
pub open spec fn entry_view(entries: Seq<(Vec<char>, usize)>) -> Seq<(Seq<char>, usize)> {
    entries.map_values(|e: (Vec<char>, usize)| (e.0@, e.1))
}

/// Whether `entries` tell, for the names `names`, each name once with how
/// often it occurs.
pub open spec fn is_tally(entries: Seq<(Seq<char>, usize)>, names: Seq<Seq<char>>) -> bool {
    &&& forall|i: int, j: int| 0 <= i < j < entries.len() ==> entries[i].0 != entries[j].0
    &&& forall|i: int|
        0 <= i < entries.len() ==> (#[trigger] entries[i]).1 == occurrences(names, entries[i].0)
            && entries[i].1 > 0
    &&& forall|who: Seq<char>|
        occurrences(names, who) > 0 ==> exists|i: int|
            0 <= i < entries.len() && (#[trigger] entries[i]).0 == who
}

/// For each name of `names`, how often it occurs, in the order in which the
/// names first occur.
fn tally(names: &Vec<Vec<char>>) -> (entries: Vec<(Vec<char>, usize)>)
    ensures
        is_tally(entry_view(entries@), names@.map_values(|v: Vec<char>| v@)),
{
    let ghost nv = names@.map_values(|v: Vec<char>| v@);
    let mut entries: Vec<(Vec<char>, usize)> = Vec::new();
    let mut k: usize = 0;
    assert(nv.take(0) =~= Seq::<Seq<char>>::empty());
    while k < names.len()
        invariant
            k <= names@.len(),
            nv == names@.map_values(|v: Vec<char>| v@),
            is_tally(entry_view(entries@), nv.take(k as int)),
            forall|i: int| 0 <= i < entries@.len() ==> (#[trigger] entries@[i]).1 <= k,
        decreases names@.len() - k,
    {
        let ghost ev = entry_view(entries@);
        let ghost who = nv[k as int];
        assert(who == names@[k as int]@);
        proof {
            assert forall|m: Seq<char>| occurrences(nv.take(k + 1), m) == occurrences(nv.take(k as int), m) + if nv[k as int] == m { 1nat } else { 0nat } by {
                lemma_count_take_names(nv, k as int, m);
            }
        }
        let mut p: usize = 0;
        let mut found = false;
        while p < entries.len() && !found
            invariant
                p <= entries@.len(),
                k < names@.len(),
                ev == entry_view(entries@),
                who == names@[k as int]@,
                found ==> p < entries@.len() && ev[p as int].0 == who,
                !found ==> forall|i: int| 0 <= i < p ==> ev[i].0 != who,
            decreases entries@.len() - p + if found {
                0int
            } else {
                1int
            },
        {
            assert(ev[p as int].0 == entries@[p as int].0@);
            if chars_equal(&entries[p].0, &names[k]) {
                found = true;
            } else {
                p = p + 1;
            }
        }
        if found {
            let count = entries[p].1 + 1;
            let name = entries[p].0.clone();
            entries.set(p, (name, count));
            assert forall|i: int| 0 <= i < entries@.len() implies (#[trigger] entry_view(entries@)[i]) == if i == p { (who, count) } else { ev[i] } by {}
            assert(is_tally(entry_view(entries@), nv.take(k + 1))) by {
                let nv1 = nv.take(k + 1);
                let ev1 = entry_view(entries@);
                assert forall|who2: Seq<char>| occurrences(nv1, who2) > 0 implies exists|i: int|
                    0 <= i < ev1.len() && (#[trigger] ev1[i]).0 == who2 by {
                    if who2 != who {
                        assert(occurrences(nv.take(k as int), who2) > 0);
                        let i = choose|i: int| 0 <= i < ev.len() && (#[trigger] ev[i]).0 == who2;
                        assert(ev1[i].0 == who2);
                    } else {
                        assert(ev1[p as int].0 == who2);
                    }
                }
            }
        } else {
            proof {
                if occurrences(nv.take(k as int), who) > 0 {
                    let i = choose|i: int| 0 <= i < ev.len() && (#[trigger] ev[i]).0 == who;
                    assert(false);
                }
            }
            let name = names[k].clone();
            entries.push((name, 1));
            assert(entry_view(entries@) =~= ev.push((who, 1usize)));
            assert(is_tally(entry_view(entries@), nv.take(k + 1))) by {
                let nv1 = nv.take(k + 1);
                let ev1 = entry_view(entries@);
                assert forall|who2: Seq<char>| occurrences(nv1, who2) > 0 implies exists|i: int|
                    0 <= i < ev1.len() && (#[trigger] ev1[i]).0 == who2 by {
                    if who2 != who {
                        assert(occurrences(nv.take(k as int), who2) > 0);
                        let i = choose|i: int| 0 <= i < ev.len() && (#[trigger] ev[i]).0 == who2;
                        assert(ev1[i].0 == who2);
                    } else {
                        assert(ev1[ev.len() as int].0 == who2);
                    }
                }
            }
        }
        k = k + 1;
    }
    assert(nv.take(k as int) =~= nv);
    entries
}

proof fn lemma_count_take_names(nv: Seq<Seq<char>>, k: int, m: Seq<char>)
    requires
        0 <= k < nv.len(),
    ensures
        occurrences(nv.take(k + 1), m) == occurrences(nv.take(k), m) + if nv[k] == m {
            1nat
        } else {
            0nat
        },
{
    assert(nv.take(k + 1).drop_last() =~= nv.take(k));
}

} // verus!

verus! {

/// Whether the counts of `entries` never grow from one entry to the next.
pub open spec fn by_count_desc(entries: Seq<(Seq<char>, usize)>) -> bool {
    forall|i: int, j: int| 0 <= i < j < entries.len() ==> entries[i].1 >= entries[j].1
}

/// The entries ordered by count, greatest first; entries with equal counts
/// keep their order.
fn sort_by_count(entries: Vec<(Vec<char>, usize)>) -> (sorted: Vec<(Vec<char>, usize)>)
    requires
        forall|i: int, j: int|
            0 <= i < j < entries@.len() ==> entry_view(entries@)[i].0 != entry_view(entries@)[j].0,
    ensures
        by_count_desc(entry_view(sorted@)),
        sorted@.len() == entries@.len(),
        forall|x: (Seq<char>, usize)| entry_view(sorted@).contains(x) <==> entry_view(entries@).contains(x),
        forall|i: int, j: int|
            0 <= i < j < sorted@.len() ==> entry_view(sorted@)[i].0 != entry_view(sorted@)[j].0,
{
    let ghost ev = entry_view(entries@);
    let mut sorted: Vec<(Vec<char>, usize)> = Vec::new();
    let mut k: usize = 0;
    while k < entries.len()
        invariant
            k <= entries@.len(),
            ev == entry_view(entries@),
            forall|i: int, j: int| 0 <= i < j < ev.len() ==> ev[i].0 != ev[j].0,
            sorted@.len() == k,
            by_count_desc(entry_view(sorted@)),
            forall|x: (Seq<char>, usize)| entry_view(sorted@).contains(x) <==> ev.take(k as int).contains(x),
            forall|i: int, j: int|
                0 <= i < j < sorted@.len() ==> entry_view(sorted@)[i].0 != entry_view(sorted@)[j].0,
        decreases entries@.len() - k,
    {
        let ghost sv = entry_view(sorted@);
        assert(forall|y: (Seq<char>, usize)| sv.contains(y) <==> ev.take(k as int).contains(y));
        let count = entries[k].1;
        let mut p: usize = 0;
        while p < sorted.len() && sorted[p].1 >= count
            invariant
                p <= sorted@.len(),
                sv == entry_view(sorted@),
                forall|i: int| 0 <= i < p ==> sv[i].1 >= count,
            decreases sorted@.len() - p,
        {
            p = p + 1;
        }
        let x = (entries[k].0.clone(), entries[k].1);
        assert(x.0@ == entries@[k as int].0@);
        let ghost xv = (x.0@, x.1);
        assert(xv == ev[k as int]);
        proof {
            assert(!sv.contains(xv)) by {
                if sv.contains(xv) {
                    let i = choose|i: int| 0 <= i < sv.len() && sv[i] == xv;
                    assert(ev.take(k as int).contains(xv));
                    let j = choose|j: int| 0 <= j < k && ev.take(k as int)[j] == xv;
                    assert(ev[j].0 != ev[k as int].0);
                }
            }
        }
        sorted.insert(p, x);
        let ghost nv = entry_view(sorted@);
        assert(nv =~= sv.insert(p as int, xv));
        assert(ev.take(k + 1) =~= ev.take(k as int).push(xv));
        assert forall|y: (Seq<char>, usize)| nv.contains(y) implies ev.take(k + 1).contains(y) by {
            let i = choose|i: int| 0 <= i < nv.len() && nv[i] == y;
            if i == p {
                assert(ev.take(k + 1)[k as int] == y);
            } else {
                let si = if i < p { i } else { i - 1 };
                assert(sv[si] == y);
                assert(sv.contains(y));
                let m = choose|m: int| 0 <= m < k && ev.take(k as int)[m] == y;
                assert(ev.take(k + 1)[m] == y);
            }
        }
        assert forall|y: (Seq<char>, usize)| ev.take(k + 1).contains(y) implies nv.contains(y) by {
            let e1 = ev.take(k + 1);
            let m = choose|m: int| 0 <= m < e1.len() && e1[m] == y;
            if m == k {
                assert(nv[p as int] == y);
            } else {
                assert(ev.take(k as int)[m] == y);
                assert(ev.take(k as int).contains(y));
                assert(sv.contains(y));
                let i = choose|i: int| 0 <= i < sv.len() && sv[i] == y;
                if i < p {
                    assert(nv[i] == y);
                } else {
                    assert(nv[i + 1] == y);
                }
            }
        }
        assert forall|i: int, j: int| 0 <= i < j < nv.len() implies nv[i].1 >= nv[j].1 by {
            if p < sv.len() {
                assert(sv[p as int].1 < count);
            }
            if j < p {
                assert(nv[i] == sv[i] && nv[j] == sv[j]);
            } else if j == p {
                assert(nv[i] == sv[i]);
            } else if i == p {
                assert(nv[j] == sv[j - 1]);
                assert(sv[p as int].1 >= sv[j - 1].1);
            } else if i < p {
                assert(nv[i] == sv[i] && nv[j] == sv[j - 1]);
            } else {
                assert(nv[i] == sv[i - 1] && nv[j] == sv[j - 1]);
            }
        }
        assert forall|i: int, j: int| 0 <= i < j < nv.len() implies nv[i].0 != nv[j].0 by {
            if i == p {
                assert(nv[j] == sv[j - 1]);
                assert(!sv.contains(xv));
                if nv[j].0 == xv.0 {
                    assert(sv.contains(sv[j - 1]));
                    assert(ev.take(k as int).contains(sv[j - 1]));
                    let m = choose|m: int| 0 <= m < k && ev.take(k as int)[m] == sv[j - 1];
                    assert(ev[m].0 != ev[k as int].0);
                }
            } else if j == p {
                assert(nv[i] == sv[i]);
                if nv[i].0 == xv.0 {
                    assert(sv.contains(sv[i]));
                    assert(ev.take(k as int).contains(sv[i]));
                    let m = choose|m: int| 0 <= m < k && ev.take(k as int)[m] == sv[i];
                    assert(ev[m].0 != ev[k as int].0);
                }
            } else if j < p {
                assert(nv[i] == sv[i] && nv[j] == sv[j]);
            } else if i < p {
                assert(nv[i] == sv[i] && nv[j] == sv[j - 1]);
            } else {
                assert(nv[i] == sv[i - 1] && nv[j] == sv[j - 1]);
            }
        }
        k = k + 1;
    }
    assert(ev.take(k as int) =~= ev);
    sorted
}

/// How many lines each character speaks over all `files`, greatest count
/// first: each speaker once, with the number of lines it speaks.
pub fn npc_line_counts(files: &Vec<YarnFile>) -> (counts: Vec<(String, usize)>)
    ensures
        forall|i: int, j: int| 0 <= i < j < counts@.len() ==> counts@[i].1 >= counts@[j].1,
        forall|i: int, j: int| 0 <= i < j < counts@.len() ==> counts@[i].0@ != counts@[j].0@,
        forall|i: int|
            0 <= i < counts@.len() ==> (#[trigger] counts@[i]).1 == occurrences(
                speakers(files@),
                counts@[i].0@,
            ) && counts@[i].1 > 0,
        forall|who: Seq<char>|
            occurrences(speakers(files@), who) > 0 ==> exists|i: int|
                0 <= i < counts@.len() && (#[trigger] counts@[i]).0@ == who,
{
    let names = speaker_list(files);
    let entries = tally(&names);
    let ghost tv = entry_view(entries@);
    let sorted = sort_by_count(entries);
    let ghost sv = entry_view(sorted@);
    let mut counts: Vec<(String, usize)> = Vec::new();
    let mut k: usize = 0;
    while k < sorted.len()
        invariant
            k <= sorted@.len(),
            sv == entry_view(sorted@),
            counts@.len() == k,
            forall|i: int| 0 <= i < k ==> (#[trigger] counts@[i]).0@ == sv[i].0 && counts@[i].1 == sv[i].1,
        decreases sorted@.len() - k,
    {
        let name = string_of(&sorted[k].0);
        counts.push((name, sorted[k].1));
        k = k + 1;
    }
    let ghost sp = speakers(files@);
    assert forall|i: int| 0 <= i < counts@.len() implies (#[trigger] counts@[i]).1 == occurrences(
        sp,
        counts@[i].0@,
    ) && counts@[i].1 > 0 by {
        assert(sv.contains(sv[i]));
        let j = choose|j: int| 0 <= j < tv.len() && tv[j] == sv[i];
        assert(tv[j].1 == occurrences(sp, tv[j].0));
    }
    assert forall|who: Seq<char>| occurrences(sp, who) > 0 implies exists|i: int|
        0 <= i < counts@.len() && (#[trigger] counts@[i]).0@ == who by {
        let j = choose|j: int| 0 <= j < tv.len() && (#[trigger] tv[j]).0 == who;
        assert(tv.contains(tv[j]));
        let i = choose|i: int| 0 <= i < sv.len() && sv[i] == tv[j];
        assert(counts@[i].0@ == who);
    }
    assert forall|i: int, j: int| 0 <= i < j < counts@.len() implies counts@[i].1 >= counts@[j].1 by {
        assert(counts@[i].1 == sv[i].1 && counts@[j].1 == sv[j].1);
    }
    assert forall|i: int, j: int| 0 <= i < j < counts@.len() implies counts@[i].0@ != counts@[j].0@ by {
        assert(counts@[i].0@ == sv[i].0 && counts@[j].0@ == sv[j].0);
    }
    counts
}

} // verus!

verus! {

/// The width that a character's name is padded to in the report.
pub const MAX_NPC_DISPLAY_NAME: usize = 12;

/// A report line: the name padded with spaces to the display width, then
/// the count.
pub open spec fn report_line(name: Seq<char>, count: nat) -> Seq<char> {
    "  "@ + name + Seq::new((MAX_NPC_DISPLAY_NAME - name.len()) as nat, |i: int| ' ') + ": "@
        + decimal(count)
}

/// The report lines for `counts`, one per entry; every name must fit the
/// display width.
pub fn npc_line_report(counts: &Vec<(String, usize)>) -> (report: Vec<String>)
    requires
        forall|i: int|
            0 <= i < counts@.len() ==> (#[trigger] counts@[i]).0@.len() <= MAX_NPC_DISPLAY_NAME,
    ensures
        report@.len() == counts@.len(),
        forall|i: int|
            0 <= i < counts@.len() ==> (#[trigger] report@[i])@ == report_line(
                counts@[i].0@,
                counts@[i].1 as nat,
            ),
{
    let mut report: Vec<String> = Vec::new();
    let mut k: usize = 0;
    while k < counts.len()
        invariant
            k <= counts@.len(),
            report@.len() == k,
            forall|i: int|
                0 <= i < counts@.len() ==> (#[trigger] counts@[i]).0@.len() <= MAX_NPC_DISPLAY_NAME,
            forall|i: int|
                0 <= i < k ==> (#[trigger] report@[i])@ == report_line(
                    counts@[i].0@,
                    counts@[i].1 as nat,
                ),
        decreases counts@.len() - k,
    {
        let name = chars_of(counts[k].0.as_str());
        let mut line = chars_of("  ");
        line.extend_from_slice(&name);
        let pad = MAX_NPC_DISPLAY_NAME - name.len();
        let ghost head = line@;
        let mut j: usize = 0;
        while j < pad
            invariant
                j <= pad,
                line@ == head + Seq::new(j as nat, |i: int| ' '),
            decreases pad - j,
        {
            line.push(' ');
            j = j + 1;
            assert(line@ =~= head + Seq::new(j as nat, |i: int| ' '));
        }
        line.extend_from_slice(&chars_of(": "));
        line.extend_from_slice(&decimal_chars(counts[k].1));
        let text = string_of(&line);
        assert(text@ =~= report_line(counts@[k as int].0@, counts@[k as int].1 as nat));
        report.push(text);
        k = k + 1;
    }
    report
}

/// A custom command of the dialogue files whose lines must be written in
/// exactly one way.
#[derive(Clone, Copy, Debug, PartialEq, Eq, Structural)]
pub enum CommandRule {
    TargetNpcMentioned,
    StopChat,
    TriggerEnding,
}

/// How a line of the command starts.
pub open spec fn rule_prefix(rule: CommandRule) -> Seq<char> {
    match rule {
        CommandRule::TargetNpcMentioned => "<<target_npc_mentioned "@,
        CommandRule::StopChat => "<<stop_chat"@,
        CommandRule::TriggerEnding => "<<trigger_ending"@,
    }
}

/// The one way to write the command.
pub open spec fn rule_line(rule: CommandRule) -> Seq<char> {
    match rule {
        CommandRule::TargetNpcMentioned => "<<target_npc_mentioned {$name} {$target_npc}>>"@,
        CommandRule::StopChat => "<<stop_chat>>"@,
        CommandRule::TriggerEnding => "<<trigger_ending {$name}>>"@,
    }
}

/// Whether a trimmed line that starts like the command is written the one
/// way.
pub open spec fn follows(rule: CommandRule, l: Seq<char>) -> bool {
    starts_with(l, rule_prefix(rule)) ==> l == rule_line(rule)
}

/// Whether a trimmed line that starts like the command is written the one
/// way.
pub fn line_follows(rule: CommandRule, line: &[char]) -> (ok: bool)
    ensures
        ok == follows(rule, line@),
{
    let (prefix, full) = match rule {
        CommandRule::TargetNpcMentioned => (
            chars_of("<<target_npc_mentioned "),
            chars_of("<<target_npc_mentioned {$name} {$target_npc}>>"),
        ),
        CommandRule::StopChat => (chars_of("<<stop_chat"), chars_of("<<stop_chat>>")),
        CommandRule::TriggerEnding => (
            chars_of("<<trigger_ending"),
            chars_of("<<trigger_ending {$name}>>"),
        ),
    };
    !chars_start_with(line, &prefix) || chars_equal(line, &full)
}

/// Whether every trimmed line of every file writes the command the one way.
pub fn files_follow(files: &Vec<YarnFile>, rule: CommandRule) -> (ok: bool)
    ensures
        ok == forall|i: int|
            0 <= i < all_lines(files@).len() ==> follows(rule, #[trigger] all_lines(files@)[i]),
{
    let mut f: usize = 0;
    assert(files@.take(0) =~= Seq::<YarnFile>::empty());
    while f < files.len()
        invariant
            f <= files@.len(),
            forall|i: int|
                0 <= i < all_lines(files@.take(f as int)).len() ==> follows(
                    rule,
                    #[trigger] all_lines(files@.take(f as int))[i],
                ),
        decreases files@.len() - f,
    {
        proof {
            lemma_all_lines_take(files@, f as int);
            lemma_all_lines_mono(files@, f + 1);
        }
        let ghost before = all_lines(files@.take(f as int));
        let chars = chars_of(files[f].contents.as_str());
        let lines = trimmed_lines_of(&chars);
        let ghost lv = lines@.map_values(|l: Vec<char>| l@);
        let mut k: usize = 0;
        while k < lines.len()
            invariant
                k <= lines@.len(),
                lv == lines@.map_values(|l: Vec<char>| l@),
                before + lv == all_lines(files@.take(f + 1)),
                all_lines(files@.take(f + 1)) == all_lines(files@).take(all_lines(files@.take(f + 1)).len() as int),
                all_lines(files@.take(f + 1)).len() <= all_lines(files@).len(),
                forall|i: int| 0 <= i < before.len() ==> follows(rule, #[trigger] before[i]),
                forall|i: int| 0 <= i < k ==> follows(rule, #[trigger] lv[i]),
            decreases lines@.len() - k,
        {
            assert(lv[k as int] == lines@[k as int]@);
            if !line_follows(rule, &lines[k]) {
                proof {
                    let whole = all_lines(files@);
                    let upto = all_lines(files@.take(f + 1));
                    let idx = before.len() + k;
                    assert(upto[idx] == lv[k as int]);
                    assert(whole.take(upto.len() as int)[idx] == whole[idx]);
                    assert(!follows(rule, whole[idx]));
                }
                return false;
            }
            k = k + 1;
        }
        assert forall|i: int|
            0 <= i < all_lines(files@.take(f + 1)).len() implies follows(
            rule,
            #[trigger] all_lines(files@.take(f + 1))[i],
        ) by {
            if i >= before.len() {
                assert(all_lines(files@.take(f + 1))[i] == lv[i - before.len()]);
            } else {
                assert(all_lines(files@.take(f + 1))[i] == before[i]);
            }
        }
        f = f + 1;
    }
    assert(files@.take(f as int) =~= files@);
    true
}

} // verus!

verus! {

/// The lower-case form of `s`, as `str::to_lowercase` gives it (by the
/// Unicode lower-case mappings).
pub uninterp spec fn lowercase(s: Seq<char>) -> Seq<char>;

/// `str::to_lowercase`: the claim is that its result depends on the text
/// alone, and it is named `lowercase`.
#[verifier::external_body]
fn to_lowercase(s: &str) -> (lower: String)
    ensures
        lower@ == lowercase(s@),
{
    s.to_lowercase()
}

/// The outcome of checking one line of a dialogue file for a name.
#[derive(Clone, Copy, Debug, PartialEq, Eq, Structural)]
pub enum NameCheck {
    /// The line sets no name.
    NotApplicable,
    /// The line sets a name but does not quote it exactly once.
    Malformed,
    /// The name is right.
    Matches,
    /// The name is wrong.
    Mismatch,
}

/// The name that a `<<set ...>>` line quotes, without leading underscores.
pub open spec fn quoted_name(l: Seq<char>) -> Seq<char> {
    crate::npc::strip_underscores(split(l, '"')[1])
}

/// Whether the lower-case name `lowered` is the file's name.
pub fn compare_names(lowered: &[char], file_name: &[char]) -> (r: NameCheck)
    ensures
        r == if lowered@ == file_name@ {
            NameCheck::Matches
        } else {
            NameCheck::Mismatch
        },
{
    if chars_equal(lowered, file_name) {
        NameCheck::Matches
    } else {
        NameCheck::Mismatch
    }
}

/// How a line that sets `$name` must agree with the file: the quoted name,
/// in lower case, is the file's name.
pub open spec fn name_check(l: Seq<char>, file_name: Seq<char>) -> NameCheck {
    if !starts_with(l, "<<set $name"@) {
        NameCheck::NotApplicable
    } else if split(l, '"').len() != 3 {
        NameCheck::Malformed
    } else if lowercase(quoted_name(l)) == file_name {
        NameCheck::Matches
    } else {
        NameCheck::Mismatch
    }
}

/// Checks a trimmed line that may set `$name` against the file's name.
pub fn name_matches_file(line: &[char], file_name: &[char]) -> (r: NameCheck)
    ensures
        r == name_check(line@, file_name@),
{
    if !chars_start_with(line, &chars_of("<<set $name")) {
        return NameCheck::NotApplicable;
    }
    let parts = split_chars(line, '"');
    if parts.len() != 3 {
        return NameCheck::Malformed;
    }
    assert(parts@.map_values(|p: Vec<char>| p@)[1] == parts@[1]@);
    let name = crate::npc::trim_underscores(&parts[1]);
    let text = string_of(&name);
    let lowered = to_lowercase(text.as_str());
    compare_names(&chars_of(lowered.as_str()), file_name)
}

/// The outcome of checking that a line names a known character.
#[derive(Clone, Copy, Debug, PartialEq, Eq, Structural)]
pub enum NpcNameCheck {
    /// The line sets no character.
    NotApplicable,
    /// The line sets a character but does not quote it exactly once.
    Malformed,
    /// The character is one of the dialogues.
    Known,
    /// No dialogue goes by that name.
    Unknown,
}

/// How a line that sets `$name` or `$target_npc` must name a dialogue.
pub open spec fn npc_name_check(l: Seq<char>) -> NpcNameCheck {
    if !starts_with(l, "<<set $name"@) && !starts_with(l, "<<set $target_npc"@) {
        NpcNameCheck::NotApplicable
    } else if split(l, '"').len() != 3 {
        NpcNameCheck::Malformed
    } else if crate::npc::npc_from_name(quoted_name(l)) is Some {
        NpcNameCheck::Known
    } else {
        NpcNameCheck::Unknown
    }
}

/// Checks that a trimmed line that sets `$name` or `$target_npc` names one
/// of the dialogues.
pub fn npc_name_exists(line: &[char]) -> (r: NpcNameCheck)
    ensures
        r == npc_name_check(line@),
{
    if !chars_start_with(line, &chars_of("<<set $name")) && !chars_start_with(
        line,
        &chars_of("<<set $target_npc"),
    ) {
        return NpcNameCheck::NotApplicable;
    }
    let parts = split_chars(line, '"');
    if parts.len() != 3 {
        return NpcNameCheck::Malformed;
    }
    assert(parts@.map_values(|p: Vec<char>| p@)[1] == parts@[1]@);
    let name = crate::npc::trim_underscores(&parts[1]);
    match crate::npc::NpcDialogue::from_chars(&name) {
        Ok(_) => NpcNameCheck::Known,
        Err(_) => NpcNameCheck::Unknown,
    }
}

/// The trimmed lines of the `f`-th file.
pub open spec fn file_lines(files: Seq<YarnFile>, f: int) -> Seq<Seq<char>> {
    trimmed_lines(files[f].contents@)
}

/// Whether, in every file, every line that sets `$name` names the file.
pub open spec fn names_match_files(files: Seq<YarnFile>) -> bool {
    forall|f: int, i: int|
        0 <= f < files.len() && 0 <= i < file_lines(files, f).len() ==> {
            let c = name_check(#[trigger] file_lines(files, f)[i], files[f].name@);
            c != NameCheck::Malformed && c != NameCheck::Mismatch
        }
}

/// Whether, in every file, every line that sets `$name` names the file.
pub fn files_match_names(files: &Vec<YarnFile>) -> (ok: bool)
    ensures
        ok == names_match_files(files@),
{
    let mut f: usize = 0;
    while f < files.len()
        invariant
            f <= files@.len(),
            forall|g: int, i: int|
                0 <= g < f && 0 <= i < file_lines(files@, g).len() ==> {
                    let c = name_check(#[trigger] file_lines(files@, g)[i], files@[g].name@);
                    c != NameCheck::Malformed && c != NameCheck::Mismatch
                },
        decreases files@.len() - f,
    {
        let name = chars_of(files[f].name.as_str());
        let chars = chars_of(files[f].contents.as_str());
        let lines = trimmed_lines_of(&chars);
        let ghost lv = lines@.map_values(|l: Vec<char>| l@);
        assert(lv == file_lines(files@, f as int));
        let mut k: usize = 0;
        while k < lines.len()
            invariant
                k <= lines@.len(),
                f < files@.len(),
                lv == lines@.map_values(|l: Vec<char>| l@),
                lv == file_lines(files@, f as int),
                name@ == files@[f as int].name@,
                forall|i: int|
                    0 <= i < k ==> {
                        let c = name_check(#[trigger] lv[i], name@);
                        c != NameCheck::Malformed && c != NameCheck::Mismatch
                    },
            decreases lines@.len() - k,
        {
            assert(lv[k as int] == lines@[k as int]@);
            let c = name_matches_file(&lines[k], &name);
            if c == NameCheck::Malformed || c == NameCheck::Mismatch {
                assert(file_lines(files@, f as int)[k as int] == lv[k as int]);
                return false;
            }
            k = k + 1;
        }
        f = f + 1;
    }
    true
}

/// Whether, in every file, every line that sets `$name` or `$target_npc`
/// names one of the dialogues.
pub open spec fn npc_names_known(files: Seq<YarnFile>) -> bool {
    forall|f: int, i: int|
        0 <= f < files.len() && 0 <= i < file_lines(files, f).len() ==> {
            let c = npc_name_check(#[trigger] file_lines(files, f)[i]);
            c != NpcNameCheck::Malformed && c != NpcNameCheck::Unknown
        }
}

/// Whether, in every file, every line that sets `$name` or `$target_npc`
/// names one of the dialogues.
pub fn files_name_known_npcs(files: &Vec<YarnFile>) -> (ok: bool)
    ensures
        ok == npc_names_known(files@),
{
    let mut f: usize = 0;
    while f < files.len()
        invariant
            f <= files@.len(),
            forall|g: int, i: int|
                0 <= g < f && 0 <= i < file_lines(files@, g).len() ==> {
                    let c = npc_name_check(#[trigger] file_lines(files@, g)[i]);
                    c != NpcNameCheck::Malformed && c != NpcNameCheck::Unknown
                },
        decreases files@.len() - f,
    {
        let chars = chars_of(files[f].contents.as_str());
        let lines = trimmed_lines_of(&chars);
        let ghost lv = lines@.map_values(|l: Vec<char>| l@);
        assert(lv == file_lines(files@, f as int));
        let mut k: usize = 0;
        while k < lines.len()
            invariant
                k <= lines@.len(),
                f < files@.len(),
                lv == lines@.map_values(|l: Vec<char>| l@),
                lv == file_lines(files@, f as int),
                forall|i: int|
                    0 <= i < k ==> {
                        let c = npc_name_check(#[trigger] lv[i]);
                        c != NpcNameCheck::Malformed && c != NpcNameCheck::Unknown
                    },
            decreases lines@.len() - k,
        {
            assert(lv[k as int] == lines@[k as int]@);
            let c = npc_name_exists(&lines[k]);
            if c == NpcNameCheck::Malformed || c == NpcNameCheck::Unknown {
                assert(file_lines(files@, f as int)[k as int] == lv[k as int]);
                return false;
            }
            k = k + 1;
        }
        f = f + 1;
    }
    true
}

} // verus!

verus! {

/// Whether every line that starts like a character's line has a `}`; see
/// `npc_lines_ok`.
pub fn npc_lines_complete(files: &Vec<YarnFile>) -> (ok: bool)
    ensures
        ok == npc_lines_ok(files@),
{
    let prefix = chars_of("{$");
    let mut f: usize = 0;
    assert(files@.take(0) =~= Seq::<YarnFile>::empty());
    while f < files.len()
        invariant
            f <= files@.len(),
            prefix@ == "{$"@,
            forall|i: int|
                0 <= i < all_lines(files@.take(f as int)).len() && starts_with(
                    #[trigger] all_lines(files@.take(f as int))[i],
                    "{$"@,
                ) ==> split(all_lines(files@.take(f as int))[i], '}').len() >= 2,
        decreases files@.len() - f,
    {
        proof {
            lemma_all_lines_take(files@, f as int);
            lemma_all_lines_mono(files@, f + 1);
        }
        let ghost before = all_lines(files@.take(f as int));
        let chars = chars_of(files[f].contents.as_str());
        let lines = trimmed_lines_of(&chars);
        let ghost lv = lines@.map_values(|l: Vec<char>| l@);
        let mut k: usize = 0;
        while k < lines.len()
            invariant
                k <= lines@.len(),
                prefix@ == "{$"@,
                lv == lines@.map_values(|l: Vec<char>| l@),
                before + lv == all_lines(files@.take(f + 1)),
                all_lines(files@.take(f + 1)) == all_lines(files@).take(all_lines(files@.take(f + 1)).len() as int),
                all_lines(files@.take(f + 1)).len() <= all_lines(files@).len(),
                forall|i: int|
                    0 <= i < before.len() && starts_with(#[trigger] before[i], "{$"@) ==> split(
                        before[i],
                        '}',
                    ).len() >= 2,
                forall|i: int|
                    0 <= i < k && starts_with(#[trigger] lv[i], "{$"@) ==> split(lv[i], '}').len()
                        >= 2,
            decreases lines@.len() - k,
        {
            assert(lv[k as int] == lines@[k as int]@);
            if chars_start_with(&lines[k], &prefix) {
                let parts = split_chars(&lines[k], '}');
                if parts.len() < 2 {
                    proof {
                        let whole = all_lines(files@);
                        let upto = all_lines(files@.take(f + 1));
                        let idx = before.len() + k;
                        assert(upto[idx] == lv[k as int]);
                        assert(whole.take(upto.len() as int)[idx] == whole[idx]);
                        assert(whole[idx] == lv[k as int]);
                    }
                    return false;
                }
            }
            k = k + 1;
        }
        assert forall|i: int|
            0 <= i < all_lines(files@.take(f + 1)).len() && starts_with(
                #[trigger] all_lines(files@.take(f + 1))[i],
                "{$"@,
            ) implies split(all_lines(files@.take(f + 1))[i], '}').len() >= 2 by {
            if i >= before.len() {
                assert(all_lines(files@.take(f + 1))[i] == lv[i - before.len()]);
            } else {
                assert(all_lines(files@.take(f + 1))[i] == before[i]);
            }
        }
        f = f + 1;
    }
    assert(files@.take(f as int) =~= files@);
    true
}

} // verus!

verus! {

/// The custom commands of the dialogue files.
pub open spec fn custom_commands() -> Seq<Seq<char>> {
    seq!["stop_chat"@, "target_npc_mentioned"@, "trigger_ending"@]
}

/// Below this edit distance, a word that is not a custom command is taken
/// for a misspelled one.
pub const MAX_SIMILARITY_DISTANCE: usize = 4;

/// The smaller of `a` and `b`.
pub open spec fn min_nat(a: nat, b: nat) -> nat {
    if a <= b {
        a
    } else {
        b
    }
}

/// The least number of insertions, deletions and substitutions of
/// characters that turn `a` into `b` (the Levenshtein distance).
pub open spec fn edit_distance(a: Seq<char>, b: Seq<char>) -> nat
    decreases a.len() + b.len(),
{
    if a.len() == 0 {
        b.len()
    } else if b.len() == 0 {
        a.len()
    } else {
        min_nat(
            min_nat(edit_distance(a.drop_last(), b) + 1, edit_distance(a, b.drop_last()) + 1),
            edit_distance(a.drop_last(), b.drop_last()) + if a.last() == b.last() {
                0nat
            } else {
                1nat
            },
        )
    }
}

/// `strsim::levenshtein`, which the crate documents as the minimum number of
/// insertions, deletions and substitutions (of characters) that change one
/// string into the other. The claim: the result is that number.
#[verifier::external_body]
fn levenshtein_distance(a: &str, b: &str) -> (d: usize)
    ensures
        d == edit_distance(a@, b@),
{
    levenshtein(a, b)
}

/// `s` without every repetition of `p` at its start.
pub open spec fn trim_start_text(s: Seq<char>, p: Seq<char>) -> Seq<char>
    decreases s.len(),
{
    if p.len() > 0 && starts_with(s, p) {
        trim_start_text(s.skip(p.len() as int), p)
    } else {
        s
    }
}

/// Whether `s` ends with `p`.
pub open spec fn ends_with(s: Seq<char>, p: Seq<char>) -> bool {
    p.len() <= s.len() && s.skip(s.len() - p.len()) == p
}

/// `s` without every repetition of `p` at its end.
pub open spec fn trim_end_text(s: Seq<char>, p: Seq<char>) -> Seq<char>
    decreases s.len(),
{
    if p.len() > 0 && ends_with(s, p) {
        trim_end_text(s.take(s.len() - p.len()), p)
    } else {
        s
    }
}

/// The command word of a line `<<word ...>>`: its first space-separated
/// piece without the leading `<<`s and trailing `>>`s.
pub open spec fn command_word(l: Seq<char>) -> Seq<char> {
    trim_end_text(trim_start_text(split(l, ' ')[0], "<<"@), ">>"@)
}

/// The custom command closest to `word` among the first `k`, and its
/// distance: a later command is taken only when strictly closer.
pub open spec fn closest_command(word: Seq<char>, k: int) -> (int, int)
    decreases k,
{
    if k <= 0 {
        (0, usize::MAX as int)
    } else {
        let (i, d) = closest_command(word, k - 1);
        let e = edit_distance(word, custom_commands()[k - 1]) as int;
        if e < d {
            (k - 1, e)
        } else {
            (i, d)
        }
    }
}

/// Whether a trimmed line spells its command right: a line `<<...` whose
/// word is close to a custom command must be exactly that command.
pub open spec fn command_spelled(l: Seq<char>) -> bool {
    starts_with(l, "<<"@) ==> {
        let (i, d) = closest_command(command_word(l), 3);
        d >= MAX_SIMILARITY_DISTANCE || command_word(l) == custom_commands()[i]
    }
}

/// `s` without every repetition of `p` at its start.
fn trim_start_chars(s: &[char], p: &[char]) -> (t: Vec<char>)
    requires
        p@.len() > 0,
    ensures
        t@ == trim_start_text(s@, p@),
{
    let mut cur = copy_range(s, 0, s.len());
    assert(cur@ =~= s@);
    while chars_start_with(&cur, p)
        invariant
            p@.len() > 0,
            trim_start_text(cur@, p@) == trim_start_text(s@, p@),
        decreases cur@.len(),
    {
        let next = copy_range(&cur, p.len(), cur.len());
        assert(next@ =~= cur@.skip(p@.len() as int));
        cur = next;
    }
    cur
}

/// `s` without every repetition of `p` at its end.
fn trim_end_chars(s: &[char], p: &[char]) -> (t: Vec<char>)
    requires
        p@.len() > 0,
    ensures
        t@ == trim_end_text(s@, p@),
{
    let mut cur = copy_range(s, 0, s.len());
    assert(cur@ =~= s@);
    loop
        invariant
            p@.len() > 0,
            trim_end_text(cur@, p@) == trim_end_text(s@, p@),
        decreases cur@.len(),
    {
        if p.len() > cur.len() {
            return cur;
        }
        let cut = cur.len() - p.len();
        let tail = copy_range(&cur, cut, cur.len());
        assert(tail@ =~= cur@.skip(cut as int));
        if !chars_equal(&tail, p) {
            return cur;
        }
        let next = copy_range(&cur, 0, cut);
        assert(next@ =~= cur@.take(cut as int));
        cur = next;
    }
}

/// Whether the trimmed line `line` spells its command right; see
/// `command_spelled`.
pub fn command_spelled_right(line: &[char]) -> (ok: bool)
    ensures
        ok == command_spelled(line@),
{
    if !chars_start_with(line, &chars_of("<<")) {
        return true;
    }
    proof {
        reveal_strlit("<<");
        reveal_strlit(">>");
    }
    let parts = split_chars(line, ' ');
    assert(parts@.map_values(|p: Vec<char>| p@)[0] == parts@[0]@);
    let opened = trim_start_chars(&parts[0], &chars_of("<<"));
    let word = trim_end_chars(&opened, &chars_of(">>"));
    let word_text = string_of(&word);
    let commands = vec!["stop_chat", "target_npc_mentioned", "trigger_ending"];
    proof {
        reveal_strlit("stop_chat");
        reveal_strlit("target_npc_mentioned");
        reveal_strlit("trigger_ending");
        assert(commands@.map_values(|c: &str| c@) =~= custom_commands());
    }
    let mut closest: usize = 0;
    let mut closest_distance: usize = usize::MAX;
    let mut k: usize = 0;
    while k < commands.len()
        invariant
            k <= 3,
            closest < 3,
            commands@.len() == 3,
            commands@.map_values(|c: &str| c@) == custom_commands(),
            word_text@ == command_word(line@),
            closest_command(word_text@, k as int) == (closest as int, closest_distance as int),
        decreases 3 - k,
    {
        assert(commands@.map_values(|c: &str| c@)[k as int] == commands@[k as int]@);
        let distance = levenshtein_distance(word_text.as_str(), commands[k]);
        if distance < closest_distance {
            closest = k;
            closest_distance = distance;
        }
        k = k + 1;
    }
    assert(commands@.map_values(|c: &str| c@)[closest as int] == commands@[closest as int]@);
    if closest_distance < MAX_SIMILARITY_DISTANCE {
        return chars_equal(&word, &chars_of(commands[closest]));
    }
    true
}

/// Whether every trimmed line of every file spells its command right.
pub fn files_spell_commands(files: &Vec<YarnFile>) -> (ok: bool)
    ensures
        ok == forall|i: int|
            0 <= i < all_lines(files@).len() ==> command_spelled(#[trigger] all_lines(files@)[i]),
{
    let mut f: usize = 0;
    assert(files@.take(0) =~= Seq::<YarnFile>::empty());
    while f < files.len()
        invariant
            f <= files@.len(),
            forall|i: int|
                0 <= i < all_lines(files@.take(f as int)).len() ==> command_spelled(
                    #[trigger] all_lines(files@.take(f as int))[i],
                ),
        decreases files@.len() - f,
    {
        proof {
            lemma_all_lines_take(files@, f as int);
            lemma_all_lines_mono(files@, f + 1);
        }
        let ghost before = all_lines(files@.take(f as int));
        let chars = chars_of(files[f].contents.as_str());
        let lines = trimmed_lines_of(&chars);
        let ghost lv = lines@.map_values(|l: Vec<char>| l@);
        let mut k: usize = 0;
        while k < lines.len()
            invariant
                k <= lines@.len(),
                lv == lines@.map_values(|l: Vec<char>| l@),
                before + lv == all_lines(files@.take(f + 1)),
                all_lines(files@.take(f + 1)) == all_lines(files@).take(all_lines(files@.take(f + 1)).len() as int),
                all_lines(files@.take(f + 1)).len() <= all_lines(files@).len(),
                forall|i: int| 0 <= i < before.len() ==> command_spelled(#[trigger] before[i]),
                forall|i: int| 0 <= i < k ==> command_spelled(#[trigger] lv[i]),
            decreases lines@.len() - k,
        {
            assert(lv[k as int] == lines@[k as int]@);
            if !command_spelled_right(&lines[k]) {
                proof {
                    let whole = all_lines(files@);
                    let upto = all_lines(files@.take(f + 1));
                    let idx = before.len() + k;
                    assert(upto[idx] == lv[k as int]);
                    assert(whole.take(upto.len() as int)[idx] == whole[idx]);
                    assert(!command_spelled(whole[idx]));
                }
                return false;
            }
            k = k + 1;
        }
        assert forall|i: int|
            0 <= i < all_lines(files@.take(f + 1)).len() implies command_spelled(
            #[trigger] all_lines(files@.take(f + 1))[i],
        ) by {
            if i >= before.len() {
                assert(all_lines(files@.take(f + 1))[i] == lv[i - before.len()]);
            } else {
                assert(all_lines(files@.take(f + 1))[i] == before[i]);
            }
        }
        f = f + 1;
    }
    assert(files@.take(f as int) =~= files@);
    true
}


/// The variables that every dialogue file must set.
pub open spec fn required_variables() -> Seq<Seq<char>> {
    seq!["name"@, "target_npc"@, "talked_with_target_npc"@]
}

/// The variable that a trimmed line `<<set $v ...` sets: its second
/// space-separated piece without its leading `$`s.
pub open spec fn set_variable(l: Seq<char>) -> Option<Seq<char>> {
    if starts_with(l, "<<set "@) {
        Some(trim_start_text(split(l, ' ')[1], "$"@))
    } else {
        None
    }
}

/// Whether one of the lines `ls` sets `var`.
pub open spec fn sets_variable(ls: Seq<Seq<char>>, var: Seq<char>) -> bool {
    exists|k: int| 0 <= k < ls.len() && set_variable(#[trigger] ls[k]) == Some(var)
}

/// Whether the dialogue file `contents` sets every required variable.
pub open spec fn sets_required_variables(contents: Seq<char>) -> bool {
    forall|i: int|
        0 <= i < required_variables().len() ==> sets_variable(
            trimmed_lines(contents),
            #[trigger] required_variables()[i],
        )
}

proof fn lemma_sets_variable_step(ls: Seq<Seq<char>>, k: int, var: Seq<char>)
    requires
        0 <= k < ls.len(),
    ensures
        sets_variable(ls.take(k + 1), var) == (sets_variable(ls.take(k), var) || set_variable(ls[k])
            == Some(var)),
{
    if sets_variable(ls.take(k + 1), var) {
        let j = choose|j: int|
            0 <= j < ls.take(k + 1).len() && set_variable(#[trigger] ls.take(k + 1)[j]) == Some(var);
        if j < k {
            assert(ls.take(k)[j] == ls[j]);
        }
    }
    if sets_variable(ls.take(k), var) {
        let j = choose|j: int| 0 <= j < ls.take(k).len() && set_variable(#[trigger] ls.take(k)[j]) == Some(var);
        assert(ls.take(k + 1)[j] == ls[j]);
    }
    if set_variable(ls[k]) == Some(var) {
        assert(ls.take(k + 1)[k] == ls[k]);
    }
}

/// For each required variable, in order, whether the dialogue file
/// `contents` sets it with a `<<set` command.
pub fn required_variables_set(contents: &str) -> (present: Vec<bool>)
    ensures
        present@.len() == required_variables().len(),
        forall|i: int|
            0 <= i < required_variables().len() ==> #[trigger] present@[i] == sets_variable(
                trimmed_lines(contents@),
                required_variables()[i],
            ),
{
    let chars = chars_of(contents);
    let lines = trimmed_lines_of(&chars);
    let ghost lv = lines@.map_values(|l: Vec<char>| l@);
    let required = vec!["name", "target_npc", "talked_with_target_npc"];
    let prefix = chars_of("<<set ");
    let dollar = chars_of("$");
    proof {
        reveal_strlit("name");
        reveal_strlit("target_npc");
        reveal_strlit("talked_with_target_npc");
        reveal_strlit("<<set ");
        reveal_strlit("$");
        assert(required@.map_values(|c: &str| c@) =~= required_variables());
        assert(lv.take(0) =~= Seq::<Seq<char>>::empty());
    }
    let mut present = vec![false, false, false];
    let mut k: usize = 0;
    while k < lines.len()
        invariant
            k <= lines@.len(),
            lv == lines@.map_values(|l: Vec<char>| l@),
            lv == trimmed_lines(contents@),
            required@.len() == 3,
            required@.map_values(|c: &str| c@) == required_variables(),
            prefix@ == "<<set "@,
            prefix@.len() == 6,
            prefix@[5] == ' ',
            dollar@ == "$"@,
            dollar@.len() == 1,
            present@.len() == 3,
            forall|i: int| 0 <= i < 3 ==> #[trigger] present@[i] == sets_variable(lv.take(k as int), required_variables()[i]),
        decreases lines@.len() - k,
    {
        assert(lv[k as int] == lines@[k as int]@);
        proof {
            assert forall|i: int| 0 <= i < 3 implies sets_variable(lv.take(k + 1), required_variables()[i]) == (
            sets_variable(lv.take(k as int), required_variables()[i]) || set_variable(lv[k as int]) == Some(
                required_variables()[i],
            )) by {
                lemma_sets_variable_step(lv, k as int, required_variables()[i]);
            }
        }
        if chars_start_with(&lines[k], &prefix) {
            proof {
                assert(lv[k as int][5] == ' ');
                lemma_split_two(lv[k as int], ' ', 5);
            }
            let parts = split_chars(&lines[k], ' ');
            assert(parts@.map_values(|p: Vec<char>| p@)[1] == parts@[1]@);
            let var = trim_start_chars(&parts[1], &dollar);
            assert(set_variable(lv[k as int]) == Some(var@));
            let ghost before = present@;
            let mut r: usize = 0;
            while r < 3
                invariant
                    r <= 3,
                    required@.len() == 3,
                    required@.map_values(|c: &str| c@) == required_variables(),
                    present@.len() == 3,
                    forall|i: int| 0 <= i < r ==> #[trigger] present@[i] == (before[i] || var@ == required_variables()[i]),
                    forall|i: int| r <= i < 3 ==> #[trigger] present@[i] == before[i],
                decreases 3 - r,
            {
                assert(required@.map_values(|c: &str| c@)[r as int] == required@[r as int]@);
                if chars_equal(&var, &chars_of(required[r])) {
                    present.set(r, true);
                }
                r = r + 1;
            }
        } else {
            assert(set_variable(lv[k as int]) is None);
        }
        k = k + 1;
    }
    assert(lv.take(k as int) =~= lv);
    present
}

/// Whether every dialogue file sets every required variable.
pub fn files_set_required_variables(files: &Vec<YarnFile>) -> (ok: bool)
    ensures
        ok == forall|f: int| 0 <= f < files@.len() ==> sets_required_variables(#[trigger] files@[f].contents@),
{
    let mut f: usize = 0;
    while f < files.len()
        invariant
            f <= files@.len(),
            forall|g: int| 0 <= g < f ==> sets_required_variables(#[trigger] files@[g].contents@),
        decreases files@.len() - f,
    {
        let present = required_variables_set(files[f].contents.as_str());
        if !(present[0] && present[1] && present[2]) {
            proof {
                let i: int = if !present@[0] {
                    0
                } else if !present@[1] {
                    1
                } else {
                    2
                };
                assert(!sets_variable(trimmed_lines(files@[f as int].contents@), required_variables()[i]));
            }
            return false;
        }
        assert forall|i: int| 0 <= i < required_variables().len() implies sets_variable(
            trimmed_lines(files@[f as int].contents@),
            #[trigger] required_variables()[i],
        ) by {
            assert(present@[i]);
        }
        f = f + 1;
    }
    true
}

} // verus!
