//! Counting the characters of a message: each line trimmed of Unicode white
//! space at both ends, as `str::trim` does, then counted in characters.
use vstd::prelude::*;

verus! {

/// Unicode `White_Space`, the property `char::is_whitespace` and `str::trim` use.
pub open spec fn is_ws(c: char) -> bool {
    ('\u{9}' <= c <= '\u{d}') || c == ' ' || c == '\u{85}' || c == '\u{a0}' || c == '\u{1680}' || (
    '\u{2000}' <= c <= '\u{200a}') || c == '\u{2028}' || c == '\u{2029}' || c == '\u{202f}' || c == '\u{205f}'
        || c == '\u{3000}'
}

/// Position of the first character at or after `i` that is not white space.
pub open spec fn first_non_ws(s: Seq<char>, i: int) -> int
    decreases s.len() - i,
{
    if i < 0 || i >= s.len() {
        s.len() as int
    } else if is_ws(s[i]) {
        first_non_ws(s, i + 1)
    } else {
        i
    }
}

/// End of the text before `j` once trailing white space is dropped.
pub open spec fn end_non_ws(s: Seq<char>, j: int) -> int
    decreases j,
{
    if j <= 0 || j > s.len() {
        0
    } else if is_ws(s[j - 1]) {
        end_non_ws(s, j - 1)
    } else {
        j
    }
}

/// The number of characters of `s` once trimmed.
pub open spec fn trimmed_count(s: Seq<char>) -> nat {
    let a = first_non_ws(s, 0);
    let b = end_non_ws(s, s.len() as int);
    if a < b {
        (b - a) as nat
    } else {
        0
    }
}

/// The characters of the lines from `i` on, each trimmed; empty lines count nothing.
pub open spec fn lines_length_from(lines: Seq<Seq<char>>, i: int) -> nat
    decreases lines.len() - i,
{
    if i < 0 || i >= lines.len() {
        0
    } else {
        (if lines[i].len() == 0 { 0 } else { trimmed_count(lines[i]) }) + lines_length_from(lines, i + 1)
    }
}

/// The characters of a message's lines, each trimmed.
pub open spec fn lines_length(lines: Seq<Seq<char>>) -> nat {
    lines_length_from(lines, 0)
}

fn is_ws_exec(c: char) -> (b: bool)
    ensures
        b == is_ws(c),
{
    ('\u{9}' <= c && c <= '\u{d}') || c == ' ' || c == '\u{85}' || c == '\u{a0}' || c == '\u{1680}' || (
    '\u{2000}' <= c && c <= '\u{200a}') || c == '\u{2028}' || c == '\u{2029}' || c == '\u{202f}' || c
        == '\u{205f}' || c == '\u{3000}'
}

proof fn lemma_end_non_ws_bound(s: Seq<char>, j: int)
    requires
        0 <= j <= s.len(),
    ensures
        0 <= end_non_ws(s, j) <= j,
    decreases j,
{
    if j > 0 && is_ws(s[j - 1]) {
        lemma_end_non_ws_bound(s, j - 1);
    }
}

/// The number of characters of `s` once trimmed at both ends.
pub fn trimmed_len(s: &str) -> (n: usize)
    ensures
        n == trimmed_count(s@),
{
    let len = s.unicode_len();
    let mut a: usize = 0;
    while a < len && is_ws_exec(s.get_char(a))
        invariant
            a <= len,
            len == s@.len(),
            first_non_ws(s@, 0) == first_non_ws(s@, a as int),
        decreases len - a,
    {
        a += 1;
    }
    let mut b: usize = len;
    while b > 0 && is_ws_exec(s.get_char(b - 1))
        invariant
            b <= len,
            len == s@.len(),
            end_non_ws(s@, len as int) == end_non_ws(s@, b as int),
        decreases b,
    {
        b -= 1;
    }
    proof {
        lemma_end_non_ws_bound(s@, b as int);
    }
    if a < b {
        b - a
    } else {
        0
    }
}

/// `s` without white space at either end, as `str::trim` gives it.
pub open spec fn spec_trim(s: Seq<char>) -> Seq<char> {
    let a = first_non_ws(s, 0);
    let b = end_non_ws(s, s.len() as int);
    if a < b {
        s.subrange(a, b)
    } else {
        Seq::empty()
    }
}

proof fn lemma_first_non_ws_bound(s: Seq<char>, i: int)
    requires
        0 <= i <= s.len(),
    ensures
        i <= first_non_ws(s, i) <= s.len(),
    decreases s.len() - i,
{
    if i < s.len() && is_ws(s[i]) {
        lemma_first_non_ws_bound(s, i + 1);
    }
}

/// `s` without white space at either end.
pub fn trim(s: &str) -> (r: String)
    ensures
        r@ == spec_trim(s@),
{
    let len = s.unicode_len();
    let mut a: usize = 0;
    while a < len && is_ws_exec(s.get_char(a))
        invariant
            a <= len,
            len == s@.len(),
            first_non_ws(s@, 0) == first_non_ws(s@, a as int),
        decreases len - a,
    {
        a += 1;
    }
    let mut b: usize = len;
    while b > 0 && is_ws_exec(s.get_char(b - 1))
        invariant
            b <= len,
            len == s@.len(),
            end_non_ws(s@, len as int) == end_non_ws(s@, b as int),
        decreases b,
    {
        b -= 1;
    }
    proof {
        lemma_end_non_ws_bound(s@, b as int);
        lemma_first_non_ws_bound(s@, a as int);
    }
    if a < b {
        s.substring_char(a, b).to_owned()
    } else {
        String::new()
    }
}

/// The characters of a message's lines, each trimmed (empty lines skipped).
pub fn lines_value_length(lines: &Vec<String>) -> (n: usize)
    requires
        lines_length(crate::codec::strings_view(lines@)) <= usize::MAX,
    ensures
        n == lines_length(crate::codec::strings_view(lines@)),
{
    let ghost v = crate::codec::strings_view(lines@);
    let mut i: usize = lines.len();
    let mut total: usize = 0;
    while i > 0
        invariant
            i <= lines@.len(),
            v == crate::codec::strings_view(lines@),
            total == lines_length_from(v, i as int),
            lines_length_from(v, 0) <= usize::MAX,
        decreases i,
    {
        i -= 1;
        proof {
            lemma_length_from_mono(v, i as int);
        }
        let line = lines[i].as_str();
        let c = if line.unicode_len() == 0 { 0 } else { trimmed_len(line) };
        total = total + c;
    }
    total
}

proof fn lemma_length_from_mono(v: Seq<Seq<char>>, i: int)
    requires
        0 <= i,
    ensures
        lines_length_from(v, i) <= lines_length_from(v, 0),
    decreases i,
{
    if i > 0 {
        lemma_length_from_mono(v, i - 1);
    }
}

} // verus!
