//! Small string and character helpers shared by the rest of the crate:
//! ASCII classification, ASCII lowercasing, character-exact string
//! equality and copying.

use vstd::prelude::*;

verus! {

use vstd::string::StrSliceExecFns;
use vstd::string::StringExecFns;

/// Relies on `String::push` of std: appends exactly one character.
pub assume_specification[ String::push ](s: &mut String, ch: char)
    ensures
        final(s)@ == old(s)@.push(ch),
;

/// ASCII whitespace: space, tab, line feed, carriage return, form feed.
pub open spec fn is_space_char(c: char) -> bool {
    c == ' ' || c == '\t' || c == '\n' || c == '\r' || c == '\u{c}'
}

/// ASCII lowercasing of one character; everything outside `A`..`Z` is kept.
pub open spec fn lower_char(c: char) -> char {
    if 'A' <= c && c <= 'Z' {
        (((c as u8) + 32) as char)
    } else {
        c
    }
}

/// A sequence of characters, each ASCII-lowercased.
pub open spec fn lower_seq(s: Seq<char>) -> Seq<char> {
    s.map_values(|c: char| lower_char(c))
}

/// Whether `c` is ASCII whitespace.
pub fn is_space(c: char) -> (r: bool)
    ensures
        r == is_space_char(c),
{
    c == ' ' || c == '\t' || c == '\n' || c == '\r' || c == '\u{c}'
}

/// ASCII-lowercases one character.
pub fn to_lower(c: char) -> (r: char)
    ensures
        r == lower_char(c),
{
    if 'A' <= c && c <= 'Z' {
        ((c as u8) + 32) as char
    } else {
        c
    }
}

/// Character-for-character equality of two string slices.
pub fn str_eq(a: &str, b: &str) -> (r: bool)
    ensures
        r == (a@ == b@),
{
    let a_len = a.unicode_len();
    let b_len = b.unicode_len();
    if a_len != b_len {
        assert(a@ != b@);
        return false;
    }
    let mut i: usize = 0;
    while i < a_len
        invariant
            0 <= i <= a_len,
            a_len == a@.len(),
            b_len == b@.len(),
            a_len == b_len,
            forall|j: int| 0 <= j < i ==> a@[j] == b@[j],
        decreases a_len - i,
    {
        if a.get_char(i) != b.get_char(i) {
            assert(a@ != b@);
            return false;
        }
        i += 1;
    }
    assert(a@ =~= b@);
    true
}

/// A fresh `String` holding the same characters as the argument.
pub fn string_copy(s: &str) -> (r: String)
    ensures
        r@ == s@,
{
    let mut out = String::new();
    out.append(s);
    out
}

/// Lowercasing twice is the same as lowercasing once.
pub proof fn lemma_lower_char_idempotent(c: char)
    ensures
        lower_char(lower_char(c)) == lower_char(c),
{
}

/// Lowercasing keeps whitespace and every non-letter character in place.
pub proof fn lemma_lower_char_non_letter(c: char)
    ensures
        is_space_char(lower_char(c)) == is_space_char(c),
        (lower_char(c) == '.') == (c == '.'),
{
}

} // verus!
