//! Text on characters: the lines of a file, trimming, prefixes.

use vstd::prelude::*;

verus! {

broadcast use vstd::string::group_string_axioms;

/// The characters of `s`.
pub fn chars_of(s: &str) -> (v: Vec<char>)
    ensures
        v@ == s@,
{
    let mut v: Vec<char> = Vec::new();
    for c in it: s.chars()
        invariant
            it.seq() == s@,
            v@ == it.seq().take(it.index() as int),
    {
        v.push(c);
        assert(v@ =~= it.seq().take(it.index() + 1));
    }
    assert(v@ =~= s@);
    v
}

/// Builds a `String` by collecting the characters of `v` in order
/// (`FromIterator<char> for String`, std). The claim: the string holds
/// exactly those characters.
#[verifier::external_body]
pub fn string_of(v: &[char]) -> (s: String)
    ensures
        s@ == v@,
{
    v.iter().collect()
}

/// Whether `c` has the Unicode `White_Space` property, the set that
/// `char::is_whitespace` tests.
pub open spec fn is_white_space(c: char) -> bool {
    ||| '\u{9}' <= c <= '\u{d}'
    ||| c == ' '
    ||| c == '\u{85}'
    ||| c == '\u{a0}'
    ||| c == '\u{1680}'
    ||| '\u{2000}' <= c <= '\u{200a}'
    ||| c == '\u{2028}'
    ||| c == '\u{2029}'
    ||| c == '\u{202f}'
    ||| c == '\u{205f}'
    ||| c == '\u{3000}'
}

/// Whether `c` is white space (the Unicode `White_Space` property).
pub fn is_whitespace(c: char) -> (b: bool)
    ensures
        b == is_white_space(c),
{
    ('\u{9}' <= c && c <= '\u{d}') || c == ' ' || c == '\u{85}' || c == '\u{a0}' || c == '\u{1680}' || (
    '\u{2000}' <= c && c <= '\u{200a}') || c == '\u{2028}' || c == '\u{2029}' || c == '\u{202f}' || c
        == '\u{205f}' || c == '\u{3000}'
}

/// `s` without its leading white space.
pub open spec fn trim_start(s: Seq<char>) -> Seq<char>
    decreases s.len(),
{
    if s.len() > 0 && is_white_space(s[0]) {
        trim_start(s.drop_first())
    } else {
        s
    }
}

/// `s` without its trailing white space.
pub open spec fn trim_end(s: Seq<char>) -> Seq<char>
    decreases s.len(),
{
    if s.len() > 0 && is_white_space(s.last()) {
        trim_end(s.drop_last())
    } else {
        s
    }
}

/// `s` without leading and trailing white space.
pub open spec fn trim(s: Seq<char>) -> Seq<char> {
    trim_end(trim_start(s))
}

proof fn lemma_trim_start_skip(s: Seq<char>, i: int)
    requires
        0 <= i <= s.len(),
        forall|k: int| 0 <= k < i ==> is_white_space(#[trigger] s[k]),
    ensures
        trim_start(s) == trim_start(s.skip(i)),
    decreases i,
{
    if i > 0 {
        assert(s.drop_first().skip(i - 1) =~= s.skip(i));
        lemma_trim_start_skip(s.drop_first(), i - 1);
    } else {
        assert(s.skip(0) =~= s);
    }
}

proof fn lemma_trim_end_take(s: Seq<char>, j: int)
    requires
        0 <= j <= s.len(),
        forall|k: int| j <= k < s.len() ==> is_white_space(#[trigger] s[k]),
    ensures
        trim_end(s) == trim_end(s.take(j)),
    decreases s.len() - j,
{
    if j < s.len() {
        assert(s.drop_last().take(j) =~= s.take(j));
        lemma_trim_end_take(s.drop_last(), j);
    } else {
        assert(s.take(j) =~= s);
    }
}

/// The characters of `s` without leading and trailing white space.
pub fn trim_chars(s: &[char]) -> (t: Vec<char>)
    ensures
        t@ == trim(s@),
{
    let mut i: usize = 0;
    while i < s.len() && is_whitespace(s[i])
        invariant
            i <= s@.len(),
            forall|k: int| 0 <= k < i ==> is_white_space(#[trigger] s@[k]),
        decreases s@.len() - i,
    {
        i = i + 1;
    }
    proof {
        lemma_trim_start_skip(s@, i as int);
    }
    let ghost rest = s@.skip(i as int);
    assert(trim_start(rest) == rest);
    let mut j: usize = s.len();
    while j > i && is_whitespace(s[j - 1])
        invariant
            i <= j <= s@.len(),
            forall|k: int| j <= k < s@.len() ==> is_white_space(#[trigger] s@[k]),
        decreases j,
    {
        j = j - 1;
    }
    proof {
        assert forall|k: int| j - i <= k < rest.len() implies is_white_space(#[trigger] rest[k]) by {
            assert(rest[k] == s@[k + i]);
        }
        lemma_trim_end_take(rest, j - i);
    }
    let mut t: Vec<char> = Vec::new();
    let mut k: usize = i;
    while k < j
        invariant
            i <= k <= j <= s@.len(),
            t@ == s@.subrange(i as int, k as int),
        decreases j - k,
    {
        t.push(s[k]);
        k = k + 1;
        assert(t@ =~= s@.subrange(i as int, k as int));
    }
    assert(rest.take(j - i) =~= s@.subrange(i as int, j as int));
    if j > i {
        assert(!is_white_space(rest.take(j - i).last()));
    }
    t
}

/// Whether `s` begins with `p`.
pub open spec fn starts_with(s: Seq<char>, p: Seq<char>) -> bool {
    p.len() <= s.len() && s.take(p.len() as int) == p
}

/// Whether `s` begins with `p`.
pub fn chars_start_with(s: &[char], p: &[char]) -> (b: bool)
    ensures
        b == starts_with(s@, p@),
{
    if p.len() > s.len() {
        return false;
    }
    let mut k: usize = 0;
    while k < p.len()
        invariant
            p@.len() <= s@.len(),
            k <= p@.len(),
            forall|a: int| 0 <= a < k ==> s@[a] == p@[a],
        decreases p@.len() - k,
    {
        if s[k] != p[k] {
            assert(s@.take(p@.len() as int)[k as int] != p@[k as int]);
            return false;
        }
        k = k + 1;
    }
    assert(s@.take(p@.len() as int) =~= p@);
    true
}

/// Whether `s` and `t` hold the same characters.
pub fn chars_equal(s: &[char], t: &[char]) -> (b: bool)
    ensures
        b == (s@ == t@),
{
    if s.len() != t.len() {
        return false;
    }
    let b = chars_start_with(s, t);
    proof {
        assert(s@.take(t@.len() as int) =~= s@);
    }
    b
}

/// Where in `s`, from `start` on, the character `c` first stands.
pub open spec fn find_from(s: Seq<char>, c: char, start: int) -> Option<int>
    decreases s.len() - start,
{
    if start < 0 || start >= s.len() {
        None
    } else if s[start] == c {
        Some(start)
    } else {
        find_from(s, c, start + 1)
    }
}

proof fn lemma_find_from(s: Seq<char>, c: char, start: int)
    requires
        0 <= start,
    ensures
        match find_from(s, c, start) {
            Some(i) => start <= i < s.len() && s[i] == c && forall|k: int| start <= k < i ==> s[k] != c,
            None => forall|k: int| start <= k < s.len() ==> s[k] != c,
        },
    decreases s.len() - start,
{
    if start < s.len() && s[start] != c {
        lemma_find_from(s, c, start + 1);
    }
}

/// The first index at or after `start` where `s` holds `c`.
fn find_char(s: &[char], c: char, start: usize) -> (r: Option<usize>)
    ensures
        match r {
            Some(i) => find_from(s@, c, start as int) == Some(i as int),
            None => find_from(s@, c, start as int) == None::<int>,
        },
{
    let mut k = start;
    while k < s.len()
        invariant
            start <= k,
            find_from(s@, c, start as int) == find_from(s@, c, k as int),
        decreases s@.len() - k,
    {
        if s[k] == c {
            return Some(k);
        }
        k = k + 1;
    }
    None
}

/// The pieces of `s[start..]` between the occurrences of `c` (as
/// `str::split` with a character gives them: one more piece than there are
/// separators).
pub open spec fn split_from(s: Seq<char>, c: char, start: int) -> Seq<Seq<char>>
    decreases s.len() - start,
{
    if start < 0 || start > s.len() {
        Seq::empty()
    } else {
        match find_from(s, c, start) {
            Some(i) => if start <= i < s.len() {
                seq![s.subrange(start, i)] + split_from(s, c, i + 1)
            } else {
                Seq::empty()
            },
            None => seq![s.subrange(start, s.len() as int)],
        }
    }
}

/// The pieces of `s` between the occurrences of `c`.
pub open spec fn split(s: Seq<char>, c: char) -> Seq<Seq<char>> {
    split_from(s, c, 0)
}

/// A text that holds `c` splits at `c` into at least two pieces.
pub proof fn lemma_split_two(s: Seq<char>, c: char, i: int)
    requires
        0 <= i < s.len(),
        s[i] == c,
    ensures
        split(s, c).len() >= 2,
{
    lemma_find_from(s, c, 0);
    let j = find_from(s, c, 0)->Some_0;
    lemma_find_from(s, c, j + 1);
    assert(split_from(s, c, j + 1).len() >= 1);
    assert(split_from(s, c, 0) == seq![s.subrange(0, j)] + split_from(s, c, j + 1));
}

/// The pieces of `s` between the occurrences of `c`.
pub fn split_chars(s: &[char], c: char) -> (parts: Vec<Vec<char>>)
    ensures
        parts@.map_values(|p: Vec<char>| p@) == split(s@, c),
        parts@.len() >= 1,
{
    let mut parts: Vec<Vec<char>> = Vec::new();
    let mut start: usize = 0;
    let n = s.len();
    loop
        invariant
            n == s@.len(),
            start <= s@.len(),
            parts@.map_values(|p: Vec<char>| p@) + split_from(s@, c, start as int) == split(s@, c),
        decreases s@.len() - start,
    {
        proof {
            lemma_find_from(s@, c, start as int);
        }
        let ghost before = parts@.map_values(|p: Vec<char>| p@);
        match find_char(s, c, start) {
            Some(i) => {
                assert(find_from(s@, c, start as int) == Some(i as int));
                assert(i < s@.len());
                let piece = copy_range(s, start, i);
                parts.push(piece);
                assert(parts@.map_values(|p: Vec<char>| p@) =~= before.push(s@.subrange(start as int, i as int)));
                assert(split_from(s@, c, start as int) =~= seq![s@.subrange(start as int, i as int)] + split_from(s@, c, i + 1));
                assert(parts@.map_values(|p: Vec<char>| p@) + split_from(s@, c, i + 1) =~= before + split_from(s@, c, start as int));
                start = i + 1;
            },
            None => {
                let piece = copy_range(s, start, s.len());
                parts.push(piece);
                assert(parts@.map_values(|p: Vec<char>| p@) =~= before + split_from(s@, c, start as int));
                return parts;
            },
        }
    }
}

/// Where in `s`, from `start` on, the text `p` first stands.
pub open spec fn find_text_from(s: Seq<char>, p: Seq<char>, start: int) -> Option<int>
    decreases s.len() + 1 - start,
{
    if start < 0 || start + p.len() > s.len() {
        None
    } else if s.subrange(start, start + p.len()) == p {
        Some(start)
    } else {
        find_text_from(s, p, start + 1)
    }
}

/// Whether the text `p` stands somewhere in `s`.
pub open spec fn contains_text(s: Seq<char>, p: Seq<char>) -> bool {
    find_text_from(s, p, 0) is Some
}

pub proof fn lemma_find_text_from(s: Seq<char>, p: Seq<char>, start: int)
    requires
        0 <= start,
    ensures
        match find_text_from(s, p, start) {
            Some(i) => start <= i && i + p.len() <= s.len() && s.subrange(i, i + p.len()) == p,
            None => true,
        },
    decreases s.len() + 1 - start,
{
    if start + p.len() <= s.len() && s.subrange(start, start + p.len()) != p {
        lemma_find_text_from(s, p, start + 1);
    }
}

/// Whether `s` holds the text `p` at position `i`.
fn text_at(s: &[char], p: &[char], i: usize) -> (b: bool)
    requires
        i + p@.len() <= s@.len(),
    ensures
        b == (s@.subrange(i as int, i + p@.len()) == p@),
{
    let n = s.len();
    let mut k: usize = 0;
    while k < p.len()
        invariant
            n == s@.len(),
            i + p@.len() <= s@.len(),
            k <= p@.len(),
            forall|a: int| 0 <= a < k ==> s@[i + a] == p@[a],
        decreases p@.len() - k,
    {
        if s[i + k] != p[k] {
            assert(s@.subrange(i as int, i + p@.len())[k as int] != p@[k as int]);
            return false;
        }
        k = k + 1;
    }
    assert(s@.subrange(i as int, i + p@.len()) =~= p@);
    true
}

/// The first position at or after `start` where `s` holds the text `p`.
pub fn find_text(s: &[char], p: &[char], start: usize) -> (r: Option<usize>)
    ensures
        match r {
            Some(i) => find_text_from(s@, p@, start as int) == Some(i as int),
            None => find_text_from(s@, p@, start as int) == None::<int>,
        },
{
    let n = s.len();
    let m = p.len();
    if m > n {
        return None;
    }
    if m == 0 {
        if start <= n {
            assert(s@.subrange(start as int, start as int) =~= p@);
            return Some(start);
        }
        return None;
    }
    let mut k = start;
    while k <= n - m
        invariant
            n == s@.len(),
            m == p@.len(),
            0 < m <= n,
            start <= k,
            find_text_from(s@, p@, start as int) == find_text_from(s@, p@, k as int),
        decreases n - k,
    {
        if text_at(s, p, k) {
            return Some(k);
        }
        k = k + 1;
    }
    None
}

/// The pieces of `s[start..]` between the occurrences of the text `p` (as
/// `str::split` with a non-empty text gives them).
pub open spec fn split_text_from(s: Seq<char>, p: Seq<char>, start: int) -> Seq<Seq<char>>
    decreases s.len() - start,
{
    if start < 0 || start > s.len() || p.len() == 0 {
        Seq::empty()
    } else {
        match find_text_from(s, p, start) {
            Some(i) => if start <= i && i + p.len() <= s.len() {
                seq![s.subrange(start, i)] + split_text_from(s, p, i + p.len())
            } else {
                Seq::empty()
            },
            None => seq![s.subrange(start, s.len() as int)],
        }
    }
}

/// The pieces of `s` between the occurrences of the text `p`.
pub open spec fn split_text(s: Seq<char>, p: Seq<char>) -> Seq<Seq<char>> {
    split_text_from(s, p, 0)
}

/// The pieces of `s` between the occurrences of the non-empty text `p`.
pub fn split_text_chars(s: &[char], p: &[char]) -> (parts: Vec<Vec<char>>)
    requires
        p@.len() > 0,
    ensures
        parts@.map_values(|q: Vec<char>| q@) == split_text(s@, p@),
        parts@.len() >= 1,
{
    let mut parts: Vec<Vec<char>> = Vec::new();
    let mut start: usize = 0;
    let n = s.len();
    loop
        invariant
            n == s@.len(),
            p@.len() > 0,
            start <= s@.len(),
            parts@.map_values(|q: Vec<char>| q@) + split_text_from(s@, p@, start as int)
                == split_text(s@, p@),
        decreases s@.len() - start,
    {
        proof {
            lemma_find_text_from(s@, p@, start as int);
        }
        let ghost before = parts@.map_values(|q: Vec<char>| q@);
        match find_text(s, p, start) {
            Some(i) => {
                let piece = copy_range(s, start, i);
                parts.push(piece);
                let ghost next = i + p@.len();
                assert(parts@.map_values(|q: Vec<char>| q@) =~= before.push(s@.subrange(start as int, i as int)));
                assert(split_text_from(s@, p@, start as int) =~= seq![s@.subrange(start as int, i as int)] + split_text_from(s@, p@, next));
                assert(parts@.map_values(|q: Vec<char>| q@) + split_text_from(s@, p@, next) =~= before + split_text_from(s@, p@, start as int));
                start = i + p.len();
            },
            None => {
                let piece = copy_range(s, start, n);
                parts.push(piece);
                assert(parts@.map_values(|q: Vec<char>| q@) =~= before + split_text_from(s@, p@, start as int));
                return parts;
            },
        }
    }
}

/// A line without the carriage return that ended it.
pub open spec fn strip_cr(l: Seq<char>) -> Seq<char> {
    if l.len() > 0 && l.last() == '\r' {
        l.drop_last()
    } else {
        l
    }
}

/// The lines of `s[start..]`, as `str::lines` gives them: split after each
/// `\n`, without the `\n` and a `\r` before it; a last line without `\n`
/// is kept as it is, and no line follows a final `\n`.
pub open spec fn lines_from(s: Seq<char>, start: int) -> Seq<Seq<char>>
    decreases s.len() - start,
{
    if start < 0 || start >= s.len() {
        Seq::empty()
    } else {
        match find_from(s, '\n', start) {
            Some(i) => if start <= i < s.len() {
                seq![strip_cr(s.subrange(start, i))] + lines_from(s, i + 1)
            } else {
                Seq::empty()
            },
            None => seq![s.subrange(start, s.len() as int)],
        }
    }
}

/// The lines of `s`.
pub open spec fn lines(s: Seq<char>) -> Seq<Seq<char>> {
    lines_from(s, 0)
}

/// The lines of `s`, each trimmed of leading and trailing white space.
pub open spec fn trimmed_lines(s: Seq<char>) -> Seq<Seq<char>> {
    lines(s).map_values(|l: Seq<char>| trim(l))
}

/// The lines of `s`.
pub fn lines_of(s: &[char]) -> (ls: Vec<Vec<char>>)
    ensures
        ls@.map_values(|l: Vec<char>| l@) == lines(s@),
{
    let mut ls: Vec<Vec<char>> = Vec::new();
    let mut start: usize = 0;
    let n = s.len();
    while start < n
        invariant
            n == s@.len(),
            start <= s@.len(),
            ls@.map_values(|l: Vec<char>| l@) + lines_from(s@, start as int) == lines(s@),
        decreases s@.len() - start,
    {
        proof {
            lemma_find_from(s@, '\n', start as int);
        }
        let ghost before = ls@.map_values(|l: Vec<char>| l@);
        match find_char(s, '\n', start) {
            Some(i) => {
                assert(find_from(s@, '\n', start as int) == Some(i as int));
                let mut end = i;
                if end > start && s[end - 1] == '\r' {
                    end = end - 1;
                }
                assert(s@.subrange(start as int, end as int) =~= strip_cr(s@.subrange(start as int, i as int)));
                let line = copy_range(s, start, end);
                ls.push(line);
                assert(ls@.map_values(|l: Vec<char>| l@) =~= before.push(strip_cr(s@.subrange(start as int, i as int))));
                assert(lines_from(s@, start as int) =~= seq![strip_cr(s@.subrange(start as int, i as int))] + lines_from(s@, i + 1));
                assert(ls@.map_values(|l: Vec<char>| l@) + lines_from(s@, i + 1) =~= before + lines_from(s@, start as int));
                start = i + 1;
            },
            None => {
                let line = copy_range(s, start, n);
                ls.push(line);
                assert(lines_from(s@, start as int) =~= seq![s@.subrange(start as int, n as int)]);
                assert(ls@.map_values(|l: Vec<char>| l@) =~= before + lines_from(s@, start as int));
                start = n;
            },
        }
    }
    assert(lines_from(s@, start as int) =~= Seq::<Seq<char>>::empty());
    assert(ls@.map_values(|l: Vec<char>| l@) =~= lines(s@));
    ls
}

/// The lines of `s`, each trimmed of leading and trailing white space.
pub fn trimmed_lines_of(s: &[char]) -> (ls: Vec<Vec<char>>)
    ensures
        ls@.map_values(|l: Vec<char>| l@) == trimmed_lines(s@),
{
    let raw = lines_of(s);
    let mut ls: Vec<Vec<char>> = Vec::new();
    for k in 0..raw.len()
        invariant
            raw@.map_values(|l: Vec<char>| l@) == lines(s@),
            ls@.map_values(|l: Vec<char>| l@) == lines(s@).take(k as int).map_values(|l: Seq<char>| trim(l)),
    {
        let t = trim_chars(&raw[k]);
        let ghost prev = ls@.map_values(|l: Vec<char>| l@);
        ls.push(t);
        proof {
            assert(ls@.map_values(|l: Vec<char>| l@) =~= prev.push(t@));
            assert(raw@.map_values(|l: Vec<char>| l@)[k as int] == raw@[k as int]@);
            assert(lines(s@)[k as int] == raw@[k as int]@);
            assert(lines(s@).take(k + 1).map_values(|l: Seq<char>| trim(l)) =~= lines(s@).take(k as int).map_values(|l: Seq<char>| trim(l)).push(trim(raw@[k as int]@)));
            assert(ls@.map_values(|l: Vec<char>| l@) =~= lines(s@).take(k + 1).map_values(|l: Seq<char>| trim(l)));
        }
    }
    assert(lines(s@).take(raw@.len() as int) =~= lines(s@));
    ls
}

/// The characters `s[from..to]`.
pub fn copy_range(s: &[char], from: usize, to: usize) -> (v: Vec<char>)
    requires
        from <= to <= s@.len(),
    ensures
        v@ == s@.subrange(from as int, to as int),
{
    let mut v: Vec<char> = Vec::new();
    let mut k = from;
    while k < to
        invariant
            from <= k <= to <= s@.len(),
            v@ == s@.subrange(from as int, k as int),
        decreases to - k,
    {
        v.push(s[k]);
        k = k + 1;
        assert(v@ =~= s@.subrange(from as int, k as int));
    }
    v
}

} // verus!

verus! {

/// The character of the decimal digit `d`.
pub open spec fn digit_char(d: nat) -> char {
    (48 + d) as char
}

/// The decimal digits of `n`, most significant first, without leading
/// zeros (`0` for zero), as `usize`'s `Display` writes them.
pub open spec fn decimal(n: nat) -> Seq<char>
    decreases n,
{
    if n < 10 {
        seq![digit_char(n)]
    } else {
        decimal(n / 10).push(digit_char(n % 10))
    }
}

/// The decimal digits of `n`.
pub fn decimal_chars(n: usize) -> (v: Vec<char>)
    ensures
        v@ == decimal(n as nat),
    decreases n,
{
    let d = (n % 10) as u8;
    let c = (48u8 + d) as char;
    if n < 10 {
        vec![c]
    } else {
        let mut v = decimal_chars(n / 10);
        v.push(c);
        v
    }
}

} // verus!

verus! {

/// Whether `s` holds the character `c`.
pub fn has_char(s: &[char], c: char) -> (b: bool)
    ensures
        b == s@.contains(c),
{
    let mut k: usize = 0;
    while k < s.len()
        invariant
            k <= s@.len(),
            forall|j: int| 0 <= j < k ==> s@[j] != c,
        decreases s@.len() - k,
    {
        if s[k] == c {
            assert(s@[k as int] == c);
            return true;
        }
        k = k + 1;
    }
    false
}

/// The number of bytes that `c` takes in UTF-8.
pub open spec fn utf8_width(c: char) -> nat {
    if (c as u32) < 0x80 {
        1
    } else if (c as u32) < 0x800 {
        2
    } else if (c as u32) < 0x10000 {
        3
    } else {
        4
    }
}

/// The number of bytes that `s` takes in UTF-8 (what `str::len` gives).
pub open spec fn utf8_len(s: Seq<char>) -> nat
    decreases s.len(),
{
    if s.len() == 0 {
        0
    } else {
        utf8_len(s.drop_last()) + utf8_width(s.last())
    }
}

/// The number of bytes that `s` takes in UTF-8.
pub fn utf8_length(s: &[char]) -> (n: u128)
    ensures
        n == utf8_len(s@),
{
    let mut n: u128 = 0;
    let mut k: usize = 0;
    while k < s.len()
        invariant
            k <= s@.len(),
            n == utf8_len(s@.take(k as int)),
            n <= 4 * k,
        decreases s@.len() - k,
    {
        let c = s[k];
        let w: u128 = if (c as u32) < 0x80 {
            1
        } else if (c as u32) < 0x800 {
            2
        } else if (c as u32) < 0x10000 {
            3
        } else {
            4
        };
        assert(s@.take(k + 1).drop_last() =~= s@.take(k as int));
        n = n + w;
        k = k + 1;
    }
    assert(s@.take(k as int) =~= s@);
    n
}

/// Where `c` last stands in `s`, or -1.
pub open spec fn last_index(s: Seq<char>, c: char) -> int
    decreases s.len(),
{
    if s.len() == 0 {
        -1
    } else if s.last() == c {
        s.len() - 1
    } else {
        last_index(s.drop_last(), c)
    }
}

/// Where `c` last stands in `s`, if it does.
pub fn find_last(s: &[char], c: char) -> (r: Option<usize>)
    ensures
        match r {
            Some(i) => last_index(s@, c) == i,
            None => last_index(s@, c) == -1,
        },
{
    let mut k: usize = s.len();
    assert(s@.take(k as int) =~= s@);
    while k > 0
        invariant
            k <= s@.len(),
            last_index(s@, c) == last_index(s@.take(k as int), c),
        decreases k,
    {
        assert(s@.take(k as int).drop_last() =~= s@.take(k - 1));
        if s[k - 1] == c {
            return Some(k - 1);
        }
        k = k - 1;
    }
    assert(s@.take(k as int) =~= Seq::<char>::empty());
    None
}

} // verus!
