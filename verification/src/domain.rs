//! Domain-name normalization, used for record keys, route keys and SNI
//! matching: trim surrounding whitespace, strip trailing dots, lowercase
//! ASCII letters.

use vstd::prelude::*;

verus! {

use vstd::string::StrSliceExecFns;
use crate::strutil::{is_space_char, lower_char, lower_seq, is_space, to_lower};

/// Index of the first character from `i` on that is not ASCII whitespace
/// (or the length, when all of them are).
pub open spec fn scan_space_lo(s: Seq<char>, i: int) -> int
    recommends
        0 <= i <= s.len(),
    decreases s.len() - i when 0 <= i <= s.len()
{
    if i < s.len() && is_space_char(s[i]) {
        scan_space_lo(s, i + 1)
    } else {
        i
    }
}

/// End of `s` truncated below `j` while the last character satisfies
/// "is whitespace", never going below `lo`.
pub open spec fn scan_space_hi(s: Seq<char>, j: int, lo: int) -> int
    recommends
        0 <= lo <= j <= s.len(),
    decreases j when 0 <= lo <= j
{
    if j > lo && is_space_char(s[j - 1]) {
        scan_space_hi(s, j - 1, lo)
    } else {
        j
    }
}

/// End of `s` truncated below `j` while the last character is `.`,
/// never going below `lo`.
pub open spec fn scan_dot_hi(s: Seq<char>, j: int, lo: int) -> int
    recommends
        0 <= lo <= j <= s.len(),
    decreases j when 0 <= lo <= j
{
    if j > lo && s[j - 1] == '.' {
        scan_dot_hi(s, j - 1, lo)
    } else {
        j
    }
}

/// The start of the normalized window: past leading whitespace.
pub open spec fn norm_lo(s: Seq<char>) -> int {
    scan_space_lo(s, 0)
}

/// The end of the normalized window: before trailing whitespace and then
/// before trailing dots.
pub open spec fn norm_hi(s: Seq<char>) -> int {
    scan_dot_hi(s, scan_space_hi(s, s.len() as int, norm_lo(s)), norm_lo(s))
}

/// Normalized form of a domain name: whitespace trimmed at both ends,
/// trailing dots stripped, ASCII letters lowercased.
pub open spec fn normalize_spec(s: Seq<char>) -> Seq<char> {
    lower_seq(s.subrange(norm_lo(s), norm_hi(s)))
}

pub proof fn lemma_scan_space_lo_bounds(s: Seq<char>, i: int)
    requires
        0 <= i <= s.len(),
    ensures
        i <= scan_space_lo(s, i) <= s.len(),
        forall|k: int| i <= k < scan_space_lo(s, i) ==> is_space_char(s[k]),
        scan_space_lo(s, i) < s.len() ==> !is_space_char(s[scan_space_lo(s, i)]),
    decreases s.len() - i,
{
    if i < s.len() && is_space_char(s[i]) {
        lemma_scan_space_lo_bounds(s, i + 1);
    }
}

pub proof fn lemma_scan_space_hi_bounds(s: Seq<char>, j: int, lo: int)
    requires
        0 <= lo <= j <= s.len(),
    ensures
        lo <= scan_space_hi(s, j, lo) <= j,
        forall|k: int| scan_space_hi(s, j, lo) <= k < j ==> is_space_char(s[k]),
        scan_space_hi(s, j, lo) > lo ==> !is_space_char(s[scan_space_hi(s, j, lo) - 1]),
    decreases j,
{
    if j > lo && is_space_char(s[j - 1]) {
        lemma_scan_space_hi_bounds(s, j - 1, lo);
    }
}

pub proof fn lemma_scan_dot_hi_bounds(s: Seq<char>, j: int, lo: int)
    requires
        0 <= lo <= j <= s.len(),
    ensures
        lo <= scan_dot_hi(s, j, lo) <= j,
        forall|k: int| scan_dot_hi(s, j, lo) <= k < j ==> s[k] == '.',
        scan_dot_hi(s, j, lo) > lo ==> s[scan_dot_hi(s, j, lo) - 1] != '.',
    decreases j,
{
    if j > lo && s[j - 1] == '.' {
        lemma_scan_dot_hi_bounds(s, j - 1, lo);
    }
}

/// When the character at `i` is not whitespace, the lo scan stops at `i`.
pub proof fn lemma_scan_space_lo_clean(s: Seq<char>, i: int)
    requires
        0 <= i <= s.len(),
        i == s.len() || !is_space_char(s[i]),
    ensures
        scan_space_lo(s, i) == i,
{
}

/// Normalization is idempotent, provided the normalized form does not end
/// in whitespace (a trailing dot can expose interior whitespace, as in
/// a name whose visible text ends in a space followed by a dot; such
/// inputs are the only ones left out here).
pub proof fn lemma_normalize_idempotent(s: Seq<char>)
    requires
        normalize_spec(s).len() > 0 ==> !is_space_char(normalize_spec(s).last()),
    ensures
        normalize_spec(normalize_spec(s)) == normalize_spec(s),
{
    let a = norm_lo(s);
    let b = scan_space_hi(s, s.len() as int, a);
    let c = norm_hi(s);
    lemma_scan_space_lo_bounds(s, 0);
    lemma_scan_space_hi_bounds(s, s.len() as int, a);
    lemma_scan_dot_hi_bounds(s, b, a);
    let t = normalize_spec(s);
    assert(t.len() == c - a);
    if t.len() == 0 {
        assert(norm_lo(t) == 0);
        assert(scan_space_hi(t, 0, 0) == 0);
        assert(scan_dot_hi(t, 0, 0) == 0);
        assert(normalize_spec(t) =~= t);
    } else {
        // The first character of t is not whitespace: the lo scan stopped there.
        assert(t[0] == lower_char(s[a]));
        assert(!is_space_char(s[a]));
        crate::strutil::lemma_lower_char_non_letter(s[a]);
        assert(!is_space_char(t[0]));
        assert(norm_lo(t) == 0) by {
            lemma_scan_space_lo_clean(t, 0);
        }
        // The last character of t is not whitespace (by assumption) and not
        // a dot (the dot scan stopped there), so both hi scans stay put.
        assert(t.last() == lower_char(s[c - 1]));
        crate::strutil::lemma_lower_char_non_letter(s[c - 1]);
        assert(s[c - 1] != '.');
        assert(t[t.len() - 1] != '.');
        assert(scan_space_hi(t, t.len() as int, 0) == t.len());
        assert(scan_dot_hi(t, t.len() as int, 0) == t.len());
        assert(norm_hi(t) == t.len());
        assert(normalize_spec(t) =~= lower_seq(t));
        assert(lower_seq(t) =~= t) by {
            assert forall|k: int| 0 <= k < t.len() implies lower_seq(t)[k] == t[k] by {
                assert(t[k] == lower_char(s[a + k]));
                crate::strutil::lemma_lower_char_idempotent(s[a + k]);
            }
        }
    }
}

/// Normalization ignores ASCII case: two inputs that agree up to ASCII
/// case normalize to the same name.
pub proof fn lemma_normalize_case_insensitive(s: Seq<char>, t: Seq<char>)
    requires
        s.len() == t.len(),
        forall|k: int| 0 <= k < s.len() ==> lower_char(s[k]) == lower_char(t[k]),
    ensures
        normalize_spec(s) == normalize_spec(t),
{
    assert forall|k: int| 0 <= k < s.len() implies is_space_char(s[k]) == is_space_char(t[k])
        && (s[k] == '.') == (t[k] == '.') by {
        crate::strutil::lemma_lower_char_non_letter(s[k]);
        crate::strutil::lemma_lower_char_non_letter(t[k]);
    }
    lemma_scan_space_lo_same(s, t, 0);
    let a = norm_lo(s);
    lemma_scan_space_lo_bounds(s, 0);
    lemma_scan_space_hi_same(s, t, s.len() as int, a);
    let b = scan_space_hi(s, s.len() as int, a);
    lemma_scan_space_hi_bounds(s, s.len() as int, a);
    lemma_scan_dot_hi_same(s, t, b, a);
    let c = norm_hi(s);
    lemma_scan_dot_hi_bounds(s, b, a);
    assert(norm_lo(t) == a && norm_hi(t) == c);
    assert(normalize_spec(s) =~= normalize_spec(t));
}

proof fn lemma_scan_space_lo_same(s: Seq<char>, t: Seq<char>, i: int)
    requires
        s.len() == t.len(),
        0 <= i <= s.len(),
        forall|k: int| 0 <= k < s.len() ==> is_space_char(s[k]) == is_space_char(t[k]),
    ensures
        scan_space_lo(s, i) == scan_space_lo(t, i),
    decreases s.len() - i,
{
    if i < s.len() && is_space_char(s[i]) {
        lemma_scan_space_lo_same(s, t, i + 1);
    }
}

proof fn lemma_scan_space_hi_same(s: Seq<char>, t: Seq<char>, j: int, lo: int)
    requires
        s.len() == t.len(),
        0 <= lo <= j <= s.len(),
        forall|k: int| 0 <= k < s.len() ==> is_space_char(s[k]) == is_space_char(t[k]),
    ensures
        scan_space_hi(s, j, lo) == scan_space_hi(t, j, lo),
    decreases j,
{
    if j > lo && is_space_char(s[j - 1]) {
        lemma_scan_space_hi_same(s, t, j - 1, lo);
    }
}

proof fn lemma_scan_dot_hi_same(s: Seq<char>, t: Seq<char>, j: int, lo: int)
    requires
        s.len() == t.len(),
        0 <= lo <= j <= s.len(),
        forall|k: int| 0 <= k < s.len() ==> (s[k] == '.') == (t[k] == '.'),
    ensures
        scan_dot_hi(s, j, lo) == scan_dot_hi(t, j, lo),
    decreases j,
{
    if j > lo && s[j - 1] == '.' {
        lemma_scan_dot_hi_same(s, t, j - 1, lo);
    }
}

/// Surrounding whitespace does not matter: a space added in front
/// normalizes away.
pub proof fn lemma_normalize_leading_space(s: Seq<char>, c: char)
    requires
        is_space_char(c),
    ensures
        normalize_spec(seq![c] + s) == normalize_spec(s),
{
    let u = seq![c] + s;
    assert(is_space_char(u[0]));
    assert(u.drop_first() =~= s);
    lemma_scan_shift(u, s);
}

proof fn lemma_scan_shift(u: Seq<char>, s: Seq<char>)
    requires
        u.len() == s.len() + 1,
        is_space_char(u[0]),
        forall|k: int| 0 <= k < s.len() ==> u[k + 1] == s[k],
    ensures
        normalize_spec(u) == normalize_spec(s),
{
    lemma_scan_space_lo_shift(u, s, 0);
    let a = scan_space_lo(s, 0);
    lemma_scan_space_lo_bounds(s, 0);
    lemma_scan_space_hi_shift(u, s, s.len() as int, a);
    let b = scan_space_hi(s, s.len() as int, a);
    lemma_scan_space_hi_bounds(s, s.len() as int, a);
    lemma_scan_dot_hi_shift(u, s, b, a);
    let c = scan_dot_hi(s, b, a);
    lemma_scan_dot_hi_bounds(s, b, a);
    assert(norm_lo(u) == a + 1 && norm_hi(u) == c + 1);
    assert(u.subrange(a + 1, c + 1) =~= s.subrange(a, c));
}

proof fn lemma_scan_space_lo_shift(u: Seq<char>, s: Seq<char>, i: int)
    requires
        u.len() == s.len() + 1,
        is_space_char(u[0]),
        forall|k: int| 0 <= k < s.len() ==> u[k + 1] == s[k],
        0 <= i <= s.len(),
    ensures
        scan_space_lo(u, i + 1) == scan_space_lo(s, i) + 1,
    decreases s.len() - i,
{
    if i < s.len() && is_space_char(s[i]) {
        lemma_scan_space_lo_shift(u, s, i + 1);
    }
}

proof fn lemma_scan_space_hi_shift(u: Seq<char>, s: Seq<char>, j: int, lo: int)
    requires
        u.len() == s.len() + 1,
        forall|k: int| 0 <= k < s.len() ==> u[k + 1] == s[k],
        0 <= lo <= j <= s.len(),
    ensures
        scan_space_hi(u, j + 1, lo + 1) == scan_space_hi(s, j, lo) + 1,
    decreases j,
{
    if j > lo && is_space_char(s[j - 1]) {
        lemma_scan_space_hi_shift(u, s, j - 1, lo);
    }
}

proof fn lemma_scan_dot_hi_shift(u: Seq<char>, s: Seq<char>, j: int, lo: int)
    requires
        u.len() == s.len() + 1,
        forall|k: int| 0 <= k < s.len() ==> u[k + 1] == s[k],
        0 <= lo <= j <= s.len(),
    ensures
        scan_dot_hi(u, j + 1, lo + 1) == scan_dot_hi(s, j, lo) + 1,
    decreases j,
{
    if j > lo && s[j - 1] == '.' {
        lemma_scan_dot_hi_shift(u, s, j - 1, lo);
    }
}

/// A single trailing dot does not matter, provided the text before it does
/// not end in whitespace (stripping the dot must not expose whitespace).
pub proof fn lemma_normalize_trailing_dot(s: Seq<char>)
    requires
        s.len() == 0 || !is_space_char(s.last()),
    ensures
        normalize_spec(s.push('.')) == normalize_spec(s),
{
    let u = s.push('.');
    lemma_scan_space_lo_push(s, '.', 0);
    let a = norm_lo(s);
    lemma_scan_space_lo_bounds(s, 0);
    assert(norm_lo(u) == a);
    // No trailing whitespace on s, so the space scan of u stops right at the
    // new dot, and on s at its end.
    lemma_scan_space_hi_bounds(u, u.len() as int, a);
    assert(!is_space_char(u[u.len() - 1]));
    assert(scan_space_hi(u, u.len() as int, a) == u.len());
    if s.len() > 0 {
        assert(!is_space_char(s[s.len() - 1]));
    }
    assert(scan_space_hi(s, s.len() as int, a) == s.len() as int);
    // The dot scan of u first eats the pushed dot, then walks s's dots.
    assert(scan_dot_hi(u, u.len() as int, a) == scan_dot_hi(u, s.len() as int, a));
    lemma_scan_dot_hi_push(s, '.', s.len() as int, a);
    assert(norm_hi(u) == norm_hi(s));
    lemma_scan_dot_hi_bounds(s, s.len() as int, a);
    assert(a <= norm_hi(s) <= s.len());
    assert(u.subrange(a, norm_hi(s)) =~= s.subrange(a, norm_hi(s)));
}

proof fn lemma_scan_space_lo_push(s: Seq<char>, c: char, i: int)
    requires
        0 <= i <= s.len(),
        !is_space_char(c),
    ensures
        scan_space_lo(s.push(c), i) == scan_space_lo(s, i),
    decreases s.len() - i,
{
    if i < s.len() && is_space_char(s[i]) {
        lemma_scan_space_lo_push(s, c, i + 1);
    }
}

proof fn lemma_scan_dot_hi_push(s: Seq<char>, c: char, j: int, lo: int)
    requires
        0 <= lo <= j <= s.len(),
    ensures
        scan_dot_hi(s.push(c), j, lo) == scan_dot_hi(s, j, lo),
    decreases j,
{
    if j > lo && s[j - 1] == '.' {
        lemma_scan_dot_hi_push(s, c, j - 1, lo);
    }
}


/// Trailing whitespace does not matter either: a space appended at the end
/// normalizes away.
pub proof fn lemma_normalize_trailing_space(s: Seq<char>, c: char)
    requires
        is_space_char(c),
    ensures
        normalize_spec(s.push(c)) == normalize_spec(s),
{
    let u = s.push(c);
    lemma_scan_space_lo_bounds(s, 0);
    lemma_scan_space_lo_bounds(u, 0);
    let a = norm_lo(s);
    if a == s.len() {
        // s is all whitespace, and so is u: both normalize to nothing.
        lemma_scan_space_lo_all(s, 0);
        lemma_scan_space_lo_all(u, 0);
        assert(norm_lo(u) == u.len());
        lemma_scan_space_hi_bounds(u, u.len() as int, u.len() as int);
        lemma_scan_dot_hi_bounds(u, u.len() as int, u.len() as int);
        lemma_scan_space_hi_bounds(s, s.len() as int, s.len() as int);
        lemma_scan_dot_hi_bounds(s, s.len() as int, s.len() as int);
        assert(normalize_spec(u) =~= normalize_spec(s));
    } else {
        lemma_scan_space_lo_stops(s, u, 0);
        assert(norm_lo(u) == a);
        // The space scan of u eats the pushed space and then walks s's
        // trailing whitespace.
        assert(scan_space_hi(u, u.len() as int, a) == scan_space_hi(u, s.len() as int, a));
        lemma_scan_space_hi_push(s, c, s.len() as int, a);
        let b = scan_space_hi(s, s.len() as int, a);
        lemma_scan_space_hi_bounds(s, s.len() as int, a);
        lemma_scan_dot_hi_push_any(s, c, b, a);
        assert(norm_hi(u) == norm_hi(s));
        lemma_scan_dot_hi_bounds(s, b, a);
        assert(u.subrange(a, norm_hi(s)) =~= s.subrange(a, norm_hi(s)));
    }
}

/// When the lo scan of `s` runs to the end, every character from `i` on is
/// whitespace; on `s` with one more space pushed it runs to the new end.
proof fn lemma_scan_space_lo_all(s: Seq<char>, i: int)
    requires
        0 <= i <= s.len(),
    ensures
        scan_space_lo(s, i) == s.len() ==> (forall|k: int| i <= k < s.len() ==> is_space_char(s[k])),
        (forall|k: int| i <= k < s.len() ==> is_space_char(s[k])) ==> scan_space_lo(s, i)
            == s.len(),
    decreases s.len() - i,
{
    if i < s.len() && is_space_char(s[i]) {
        lemma_scan_space_lo_all(s, i + 1);
    }
}

/// A lo scan that stops strictly inside `s` stops at the same place on any
/// extension of `s`.
proof fn lemma_scan_space_lo_stops(s: Seq<char>, u: Seq<char>, i: int)
    requires
        0 <= i <= s.len() < u.len(),
        forall|k: int| 0 <= k < s.len() ==> u[k] == s[k],
        scan_space_lo(s, 0) < s.len(),
        0 <= i <= scan_space_lo(s, 0),
    ensures
        scan_space_lo(u, i) == scan_space_lo(s, i),
    decreases s.len() - i,
{
    lemma_scan_space_lo_bounds(s, 0);
    if i < s.len() && is_space_char(s[i]) {
        lemma_scan_space_lo_bounds(s, i);
        if i < scan_space_lo(s, 0) {
            lemma_scan_space_lo_step_eq(s, 0, i);
            lemma_scan_space_lo_stops(s, u, i + 1);
        }
    } else {
        assert(scan_space_lo(s, i) == i);
        assert(scan_space_lo(u, i) == i);
    }
}

/// The scan from an index inside the scanned prefix lands at the same spot.
proof fn lemma_scan_space_lo_step_eq(s: Seq<char>, i: int, j: int)
    requires
        0 <= i <= j <= s.len(),
        forall|k: int| i <= k < j ==> is_space_char(s[k]),
    ensures
        scan_space_lo(s, i) == scan_space_lo(s, j),
    decreases j - i,
{
    if i < j {
        lemma_scan_space_lo_step_eq(s, i + 1, j);
    }
}

/// Pushing any character leaves a bounded space scan unchanged.
proof fn lemma_scan_space_hi_push(s: Seq<char>, c: char, j: int, lo: int)
    requires
        0 <= lo <= j <= s.len(),
    ensures
        scan_space_hi(s.push(c), j, lo) == scan_space_hi(s, j, lo),
    decreases j,
{
    if j > lo && is_space_char(s[j - 1]) {
        lemma_scan_space_hi_push(s, c, j - 1, lo);
    }
}

/// Pushing any character leaves a bounded dot scan unchanged.
proof fn lemma_scan_dot_hi_push_any(s: Seq<char>, c: char, j: int, lo: int)
    requires
        0 <= lo <= j <= s.len(),
    ensures
        scan_dot_hi(s.push(c), j, lo) == scan_dot_hi(s, j, lo),
    decreases j,
{
    if j > lo && s[j - 1] == '.' {
        lemma_scan_dot_hi_push_any(s, c, j - 1, lo);
    }
}

/// Normalized form of a domain name: whitespace trimmed at both ends,
/// trailing dots stripped, ASCII letters lowercased. Used for record keys,
/// route keys and SNI matching.
pub fn normalize_domain(input: &str) -> (r: String)
    ensures
        r@ == normalize_spec(input@),
{
    let n = input.unicode_len();
    let ghost s = input@;
    let mut lo: usize = 0;
    while lo < n && is_space(input.get_char(lo))
        invariant
            0 <= lo <= n,
            n == s.len(),
            s == input@,
            scan_space_lo(s, 0) == scan_space_lo(s, lo as int),
        decreases n - lo,
    {
        lo += 1;
    }
    assert(norm_lo(s) == lo);
    let mut hi: usize = n;
    while hi > lo && is_space(input.get_char(hi - 1))
        invariant
            lo <= hi <= n,
            n == s.len(),
            s == input@,
            norm_lo(s) == lo,
            scan_space_hi(s, n as int, lo as int) == scan_space_hi(s, hi as int, lo as int),
        decreases hi,
    {
        hi -= 1;
    }
    assert(scan_space_hi(s, n as int, lo as int) == hi);
    while hi > lo && input.get_char(hi - 1) == '.'
        invariant
            lo <= hi <= n,
            n == s.len(),
            s == input@,
            norm_lo(s) == lo,
            scan_dot_hi(s, scan_space_hi(s, n as int, lo as int), lo as int) == scan_dot_hi(
                s,
                hi as int,
                lo as int,
            ),
        decreases hi,
    {
        hi -= 1;
    }
    assert(norm_hi(s) == hi);
    let mut out = String::new();
    let mut k: usize = lo;
    while k < hi
        invariant
            lo <= k <= hi <= n,
            n == s.len(),
            s == input@,
            norm_lo(s) == lo,
            norm_hi(s) == hi,
            out@ =~= lower_seq(s.subrange(lo as int, k as int)),
        decreases hi - k,
    {
        out.push(to_lower(input.get_char(k)));
        assert(out@ =~= lower_seq(s.subrange(lo as int, k + 1 as int))) by {
            assert(s.subrange(lo as int, k + 1 as int) =~= s.subrange(lo as int, k as int).push(
                s[k as int],
            ));
        }
        k += 1;
    }
    assert(out@ =~= normalize_spec(s));
    out
}

} // verus!
