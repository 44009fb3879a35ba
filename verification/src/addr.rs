//! IP addresses and socket addresses as plain values, and parsers for
//! their textual forms.
//!
//! An IPv4 address is kept as its 32-bit value, an IPv6 address as its
//! 128-bit value. The accepted texts are: dotted decimal with four octets
//! and no leading zeros for IPv4; colon-separated groups of at most four
//! hex digits with at most one `::` (and no embedded IPv4 form) for IPv6;
//! `v4:port` or `[v6]:port` for socket addresses, the port in decimal.

use vstd::prelude::*;

verus! {

use vstd::string::StrSliceExecFns;

/// An IP address value, either family.
#[derive(Clone, Copy, Debug, PartialEq, Eq, Hash, Structural)]
pub enum IpVal {
    V4(u32),
    V6(u128),
}

/// A socket address: an IP address and a port.
#[derive(Clone, Copy, Debug, PartialEq, Eq, Hash, Structural)]
pub struct SockAddr {
    pub ip: IpVal,
    pub port: u16,
}

/// A reply source is valid iff it equals the expected upstream exactly:
/// same address family, same address, and same port.
pub fn is_valid_source(from: SockAddr, expected: SockAddr) -> (r: bool)
    ensures
        r == (from == expected),
        r == (from.ip == expected.ip && from.port == expected.port),
{
    let ip_same = match (from.ip, expected.ip) {
        (IpVal::V4(a), IpVal::V4(b)) => a == b,
        (IpVal::V6(a), IpVal::V6(b)) => a == b,
        _ => false,
    };
    ip_same && from.port == expected.port
}

/// Decimal digit.
pub open spec fn is_digit_char(c: char) -> bool {
    '0' <= c && c <= '9'
}

/// Value of a decimal digit.
pub open spec fn digit_val(c: char) -> int {
    c as u8 - 48
}

/// Hex digit, either case.
pub open spec fn is_hex_char(c: char) -> bool {
    is_digit_char(c) || ('a' <= c && c <= 'f') || ('A' <= c && c <= 'F')
}

/// Value of a hex digit.
pub open spec fn hex_val(c: char) -> int {
    if is_digit_char(c) {
        c as u8 - 48
    } else if 'a' <= c && c <= 'f' {
        c as u8 - 87
    } else {
        c as u8 - 55
    }
}

/// First index in `[i, hi)` holding no decimal digit, or `hi`.
pub open spec fn digits_end(s: Seq<char>, i: int, hi: int) -> int
    decreases hi - i when 0 <= i <= hi <= s.len()
{
    if i < hi && is_digit_char(s[i]) {
        digits_end(s, i + 1, hi)
    } else {
        i
    }
}

/// First index in `[i, hi)` holding no hex digit, or `hi`.
pub open spec fn hex_end(s: Seq<char>, i: int, hi: int) -> int
    decreases hi - i when 0 <= i <= hi <= s.len()
{
    if i < hi && is_hex_char(s[i]) {
        hex_end(s, i + 1, hi)
    } else {
        i
    }
}

/// Value of the decimal digits in `[i, j)`.
pub open spec fn dec_value(s: Seq<char>, i: int, j: int) -> int
    decreases j - i when i <= j
{
    if j <= i {
        0
    } else {
        dec_value(s, i, j - 1) * 10 + digit_val(s[j - 1])
    }
}

/// Value of the hex digits in `[i, j)`.
pub open spec fn hex_value(s: Seq<char>, i: int, j: int) -> int
    decreases j - i when i <= j
{
    if j <= i {
        0
    } else {
        hex_value(s, i, j - 1) * 16 + hex_val(s[j - 1])
    }
}

/// First index in `[i, hi)` holding `c`, or `hi`.
pub open spec fn scan_to(s: Seq<char>, i: int, hi: int, c: char) -> int
    decreases hi - i when 0 <= i <= hi <= s.len()
{
    if i < hi && s[i] != c {
        scan_to(s, i + 1, hi, c)
    } else {
        i
    }
}

/// First index `k` with `k + 1 < hi` where `::` starts, or `hi` when there
/// is none.
pub open spec fn scan_dc(s: Seq<char>, i: int, hi: int) -> int
    decreases hi - i when 0 <= i <= hi <= s.len()
{
    if i + 1 < hi && !(s[i] == ':' && s[i + 1] == ':') {
        scan_dc(s, i + 1, hi)
    } else if i + 1 < hi {
        i
    } else {
        hi
    }
}

/// An IPv4 octet starting at `i`: one to three decimal digits, no leading
/// zero unless it is exactly `0`, value at most 255. Yields its value.
pub open spec fn octet_at(s: Seq<char>, i: int, hi: int) -> Option<int> {
    let e = digits_end(s, i, hi);
    if i < e && e - i <= 3 && (e - i == 1 || s[i] != '0') && dec_value(s, i, e) <= 255 {
        Some(dec_value(s, i, e))
    } else {
        None
    }
}

/// The IPv4 address written in `[lo, hi)`, if that window is exactly four
/// valid octets separated by single dots.
pub open spec fn ipv4_spec(s: Seq<char>, lo: int, hi: int) -> Option<u32> {
    let e1 = digits_end(s, lo, hi);
    let e2 = digits_end(s, e1 + 1, hi);
    let e3 = digits_end(s, e2 + 1, hi);
    let e4 = digits_end(s, e3 + 1, hi);
    if e1 < hi && s[e1] == '.' && e2 < hi && s[e2] == '.' && e3 < hi && s[e3] == '.' && e4 == hi
        && octet_at(s, lo, hi) is Some && octet_at(s, e1 + 1, hi) is Some
        && octet_at(s, e2 + 1, hi) is Some && octet_at(s, e3 + 1, hi) is Some {
        Some(
            (octet_at(s, lo, hi)->Some_0 * 0x1000000 + octet_at(s, e1 + 1, hi)->Some_0 * 0x10000
                + octet_at(s, e2 + 1, hi)->Some_0 * 0x100 + octet_at(s, e3 + 1, hi)->Some_0) as u32,
        )
    } else {
        None
    }
}

/// The list of hex groups written in `[i, hi)`: groups of one to four hex
/// digits separated by single colons, at least one group, nothing else.
pub open spec fn groups_spec(s: Seq<char>, i: int, hi: int) -> Option<Seq<u16>>
    decreases hi - i when 0 <= i <= hi <= s.len()
{
    let e = hex_end(s, i, hi);
    if e <= i || e - i > 4 {
        None
    } else if e == hi {
        Some(seq![hex_value(s, i, e) as u16])
    } else if s[e] == ':' && e + 1 <= hi {
        match groups_spec(s, e + 1, hi) {
            Some(rest) => Some(seq![hex_value(s, i, e) as u16] + rest),
            None => None,
        }
    } else {
        None
    }
}

/// The 128-bit value of eight 16-bit groups, most significant first.
pub open spec fn combine(g: Seq<u16>) -> int
    decreases g.len(),
{
    if g.len() == 0 {
        0
    } else {
        combine(g.drop_last()) * 0x10000 + g.last()
    }
}

/// `0x10000` to the power `n`.
pub open spec fn p16(n: nat) -> int
    decreases n,
{
    if n == 0 {
        1
    } else {
        0x10000 * p16((n - 1) as nat)
    }
}

pub proof fn lemma_combine_bound(g: Seq<u16>)
    ensures
        0 <= combine(g) < p16(g.len()),
    decreases g.len(),
{
    if g.len() > 0 {
        lemma_combine_bound(g.drop_last());
    }
}

pub proof fn lemma_p16_mono(a: nat, b: nat)
    requires
        a <= b,
    ensures
        p16(a) <= p16(b),
    decreases b,
{
    if a < b {
        lemma_p16_mono(a, (b - 1) as nat);
        lemma_p16_pos((b - 1) as nat);
    }
}

pub proof fn lemma_p16_pos(n: nat)
    ensures
        p16(n) >= 1,
    decreases n,
{
    if n > 0 {
        lemma_p16_pos((n - 1) as nat);
    }
}

/// A sequence of `n` zero groups.
pub open spec fn zero_groups(n: int) -> Seq<u16> {
    Seq::new(n as nat, |i: int| 0u16)
}

/// The IPv6 address written in `[lo, hi)`: either exactly eight groups, or
/// at most seven groups around one `::` which stands for the missing zero
/// groups.
pub open spec fn ipv6_spec(s: Seq<char>, lo: int, hi: int) -> Option<u128> {
    let k = scan_dc(s, lo, hi);
    if k == hi {
        match groups_spec(s, lo, hi) {
            Some(g) => if g.len() == 8 {
                Some(combine(g) as u128)
            } else {
                None
            },
            None => None,
        }
    } else {
        let lg = if k == lo {
            Some(Seq::<u16>::empty())
        } else {
            groups_spec(s, lo, k)
        };
        let rg = if k + 2 == hi {
            Some(Seq::<u16>::empty())
        } else {
            groups_spec(s, k + 2, hi)
        };
        match (lg, rg) {
            (Some(l), Some(r)) => if l.len() + r.len() <= 7 {
                Some(combine(l + zero_groups(8 - l.len() - r.len()) + r) as u128)
            } else {
                None
            },
            _ => None,
        }
    }
}

/// The port written in `[lo, hi)`: at least one decimal digit, nothing
/// else, value at most 65535. Leading zeros are accepted.
pub open spec fn port_spec(s: Seq<char>, lo: int, hi: int) -> Option<u16> {
    if lo < hi && digits_end(s, lo, hi) == hi && dec_value(s, lo, hi) <= 65535 {
        Some(dec_value(s, lo, hi) as u16)
    } else {
        None
    }
}

/// The socket address written in `s`: `v4:port`, or `[v6]:port`.
pub open spec fn sockaddr_spec(s: Seq<char>) -> Option<SockAddr> {
    if s.len() > 0 && s[0] == '[' {
        let rb = scan_to(s, 1, s.len() as int, ']');
        if rb < s.len() && rb + 1 < s.len() && s[rb + 1] == ':' && ipv6_spec(s, 1, rb) is Some
            && port_spec(s, rb + 2, s.len() as int) is Some {
            Some(
                SockAddr {
                    ip: IpVal::V6(ipv6_spec(s, 1, rb)->Some_0),
                    port: port_spec(s, rb + 2, s.len() as int)->Some_0,
                },
            )
        } else {
            None
        }
    } else {
        let k = scan_to(s, 0, s.len() as int, ':');
        if k < s.len() && ipv4_spec(s, 0, k) is Some && port_spec(s, k + 1, s.len() as int)
            is Some {
            Some(
                SockAddr {
                    ip: IpVal::V4(ipv4_spec(s, 0, k)->Some_0),
                    port: port_spec(s, k + 1, s.len() as int)->Some_0,
                },
            )
        } else {
            None
        }
    }
}

/// Whether `c` is a decimal digit.
fn is_digit(c: char) -> (r: bool)
    ensures
        r == is_digit_char(c),
{
    '0' <= c && c <= '9'
}

/// Whether `c` is a hex digit.
fn is_hex(c: char) -> (r: bool)
    ensures
        r == is_hex_char(c),
{
    ('0' <= c && c <= '9') || ('a' <= c && c <= 'f') || ('A' <= c && c <= 'F')
}

/// First position in `[i, hi)` that holds no decimal digit.
fn scan_digits(s: &str, i: usize, hi: usize) -> (e: usize)
    requires
        i <= hi <= s@.len(),
    ensures
        e == digits_end(s@, i as int, hi as int),
        i <= e <= hi,
{
    let mut k: usize = i;
    while k < hi && is_digit(s.get_char(k))
        invariant
            i <= k <= hi <= s@.len(),
            digits_end(s@, i as int, hi as int) == digits_end(s@, k as int, hi as int),
        decreases hi - k,
    {
        k += 1;
    }
    k
}

/// First position in `[i, hi)` that holds no hex digit.
fn scan_hex(s: &str, i: usize, hi: usize) -> (e: usize)
    requires
        i <= hi <= s@.len(),
    ensures
        e == hex_end(s@, i as int, hi as int),
        i <= e <= hi,
{
    let mut k: usize = i;
    while k < hi && is_hex(s.get_char(k))
        invariant
            i <= k <= hi <= s@.len(),
            hex_end(s@, i as int, hi as int) == hex_end(s@, k as int, hi as int),
        decreases hi - k,
    {
        k += 1;
    }
    k
}

/// First position of `c` in `[i, hi)`, or `hi`.
pub fn scan_char(s: &str, i: usize, hi: usize, c: char) -> (e: usize)
    requires
        i <= hi <= s@.len(),
    ensures
        e == scan_to(s@, i as int, hi as int, c),
        i <= e <= hi,
        e < hi ==> s@[e as int] == c,
{
    proof {
        lemma_scan_to_bounds(s@, i as int, hi as int, c);
    }
    let mut k: usize = i;
    while k < hi && s.get_char(k) != c
        invariant
            i <= k <= hi <= s@.len(),
            scan_to(s@, i as int, hi as int, c) == scan_to(s@, k as int, hi as int, c),
        decreases hi - k,
    {
        k += 1;
    }
    k
}

proof fn lemma_scan_to_bounds(s: Seq<char>, i: int, hi: int, c: char)
    requires
        0 <= i <= hi <= s.len(),
    ensures
        i <= scan_to(s, i, hi, c) <= hi,
        scan_to(s, i, hi, c) < hi ==> s[scan_to(s, i, hi, c)] == c,
    decreases hi - i,
{
    if i < hi && s[i] != c {
        lemma_scan_to_bounds(s, i + 1, hi, c);
    }
}

/// Bound on the value of at most three decimal digits.
proof fn lemma_dec_value_bound(s: Seq<char>, i: int, j: int)
    requires
        0 <= i <= j <= s.len(),
        forall|k: int| i <= k < j ==> is_digit_char(s[k]),
    ensures
        0 <= dec_value(s, i, j),
        j - i <= 1 ==> dec_value(s, i, j) <= 9,
        j - i <= 2 ==> dec_value(s, i, j) <= 99,
        j - i <= 3 ==> dec_value(s, i, j) <= 999,
        j - i <= 4 ==> dec_value(s, i, j) <= 9999,
        j - i <= 5 ==> dec_value(s, i, j) <= 99999,
    decreases j - i,
{
    if j > i {
        lemma_dec_value_bound(s, i, j - 1);
    }
}

/// Bound on the value of at most four hex digits.
proof fn lemma_hex_value_bound(s: Seq<char>, i: int, j: int)
    requires
        0 <= i <= j <= s.len(),
        forall|k: int| i <= k < j ==> is_hex_char(s[k]),
    ensures
        0 <= hex_value(s, i, j),
        j - i <= 1 ==> hex_value(s, i, j) <= 0xf,
        j - i <= 2 ==> hex_value(s, i, j) <= 0xff,
        j - i <= 3 ==> hex_value(s, i, j) <= 0xfff,
        j - i <= 4 ==> hex_value(s, i, j) <= 0xffff,
    decreases j - i,
{
    if j > i {
        lemma_hex_value_bound(s, i, j - 1);
    }
}

proof fn lemma_digits_end_digits(s: Seq<char>, i: int, hi: int)
    requires
        0 <= i <= hi <= s.len(),
    ensures
        i <= digits_end(s, i, hi) <= hi,
        forall|k: int| i <= k < digits_end(s, i, hi) ==> is_digit_char(s[k]),
    decreases hi - i,
{
    if i < hi && is_digit_char(s[i]) {
        lemma_digits_end_digits(s, i + 1, hi);
    }
}

proof fn lemma_hex_end_digits(s: Seq<char>, i: int, hi: int)
    requires
        0 <= i <= hi <= s.len(),
    ensures
        i <= hex_end(s, i, hi) <= hi,
        forall|k: int| i <= k < hex_end(s, i, hi) ==> is_hex_char(s[k]),
    decreases hi - i,
{
    if i < hi && is_hex_char(s[i]) {
        lemma_hex_end_digits(s, i + 1, hi);
    }
}

/// Reads one IPv4 octet at `i`; on success also yields where it ends.
fn parse_octet(s: &str, i: usize, hi: usize) -> (r: Option<(u8, usize)>)
    requires
        i <= hi <= s@.len(),
    ensures
        r is Some <==> octet_at(s@, i as int, hi as int) is Some,
        r matches Some((v, e)) ==> octet_at(s@, i as int, hi as int) == Some(v as int) && e
            == digits_end(s@, i as int, hi as int) && i < e <= hi,
{
    let e = scan_digits(s, i, hi);
    proof {
        lemma_digits_end_digits(s@, i as int, hi as int);
    }
    if e <= i || e - i > 3 {
        return None;
    }
    if e - i > 1 && s.get_char(i) == '0' {
        return None;
    }
    let mut v: u32 = 0;
    let mut k: usize = i;
    while k < e
        invariant
            i <= k <= e <= hi <= s@.len(),
            e == digits_end(s@, i as int, hi as int),
            e - i <= 3,
            forall|t: int| i <= t < e ==> is_digit_char(s@[t]),
            v == dec_value(s@, i as int, k as int),
            v <= 999,
        decreases e - k,
    {
        proof {
            lemma_dec_value_bound(s@, i as int, k + 1);
        }
        let d = (s.get_char(k) as u8) - 48;
        v = v * 10 + (d as u32);
        k += 1;
    }
    if v <= 255 {
        Some((v as u8, e))
    } else {
        None
    }
}

/// The IPv4 address written in `[lo, hi)` of `s`, by the dotted-decimal
/// grammar of `ipv4_spec`.
pub fn parse_ipv4_range(s: &str, lo: usize, hi: usize) -> (r: Option<u32>)
    requires
        lo <= hi <= s@.len(),
    ensures
        r == ipv4_spec(s@, lo as int, hi as int),
{
    let o1 = match parse_octet(s, lo, hi) {
        Some(v) => v,
        None => {
            return None;
        },
    };
    if o1.1 >= hi || s.get_char(o1.1) != '.' {
        return None;
    }
    let o2 = match parse_octet(s, o1.1 + 1, hi) {
        Some(v) => v,
        None => {
            return None;
        },
    };
    if o2.1 >= hi || s.get_char(o2.1) != '.' {
        return None;
    }
    let o3 = match parse_octet(s, o2.1 + 1, hi) {
        Some(v) => v,
        None => {
            return None;
        },
    };
    if o3.1 >= hi || s.get_char(o3.1) != '.' {
        return None;
    }
    let o4 = match parse_octet(s, o3.1 + 1, hi) {
        Some(v) => v,
        None => {
            return None;
        },
    };
    if o4.1 != hi {
        return None;
    }
    Some(
        (o1.0 as u32) * 0x1000000 + (o2.0 as u32) * 0x10000 + (o3.0 as u32) * 0x100 + (o4.0 as u32),
    )
}

/// The hex groups written in `[lo, hi)`, by the grammar of `groups_spec`.
fn parse_groups(s: &str, lo: usize, hi: usize) -> (r: Option<Vec<u16>>)
    requires
        lo <= hi <= s@.len(),
    ensures
        r is Some <==> groups_spec(s@, lo as int, hi as int) is Some,
        r matches Some(v) ==> groups_spec(s@, lo as int, hi as int) == Some(v@),
{
    let mut out: Vec<u16> = Vec::new();
    let mut i: usize = lo;
    loop
        invariant
            lo <= i <= hi <= s@.len(),
            groups_spec(s@, lo as int, hi as int) == (match groups_spec(s@, i as int, hi as int) {
                Some(g) => Some(out@ + g),
                None => None::<Seq<u16>>,
            }),
        decreases hi - i,
    {
        let e = scan_hex(s, i, hi);
        proof {
            lemma_hex_end_digits(s@, i as int, hi as int);
        }
        if e <= i || e - i > 4 {
            return None;
        }
        let mut v: u16 = 0;
        let mut k: usize = i;
        while k < e
            invariant
                i <= k <= e <= hi <= s@.len(),
                e == hex_end(s@, i as int, hi as int),
                e - i <= 4,
                forall|t: int| i <= t < e ==> is_hex_char(s@[t]),
                v == hex_value(s@, i as int, k as int),
            decreases e - k,
        {
            proof {
                lemma_hex_value_bound(s@, i as int, k as int);
                lemma_hex_value_bound(s@, i as int, k + 1);
            }
            let c = s.get_char(k);
            let d: u8 = if '0' <= c && c <= '9' {
                (c as u8) - 48
            } else if 'a' <= c && c <= 'f' {
                (c as u8) - 87
            } else {
                (c as u8) - 55
            };
            v = v * 16 + (d as u16);
            k += 1;
        }
        let ghost prev = out@;
        out.push(v);
        assert(out@ =~= prev + seq![v]);
        if e == hi {
            assert(groups_spec(s@, i as int, hi as int) == Some(seq![v]));
            assert(prev + seq![v] =~= out@);
            return Some(out);
        }
        if s.get_char(e) != ':' {
            return None;
        }
        proof {
            if groups_spec(s@, e + 1, hi as int) is Some {
                assert(prev + (seq![v] + groups_spec(s@, e + 1, hi as int)->Some_0) =~= out@
                    + groups_spec(s@, e + 1, hi as int)->Some_0);
            }
        }
        i = e + 1;
    }
}

/// The 128-bit value of exactly eight groups.
fn combine_groups(g: &Vec<u16>) -> (r: u128)
    requires
        g@.len() == 8,
    ensures
        r == combine(g@),
{
    let mut acc: u128 = 0;
    let mut i: usize = 0;
    while i < 8
        invariant
            0 <= i <= 8,
            g@.len() == 8,
            acc == combine(g@.subrange(0, i as int)),
            acc < p16(i as nat),
        decreases 8 - i,
    {
        proof {
            lemma_p16_mono(i as nat, 7);
            reveal_with_fuel(p16, 9);
            assert(p16(7) == 0x10000000000000000000000000000);
            assert(g@.subrange(0, i + 1).drop_last() =~= g@.subrange(0, i as int));
        }
        acc = acc * 0x10000 + (g[i] as u128);
        i += 1;
    }
    assert(g@.subrange(0, 8) =~= g@);
    acc
}

/// The IPv6 address written in `[lo, hi)`, by the grammar of `ipv6_spec`.
pub fn parse_ipv6_range(s: &str, lo: usize, hi: usize) -> (r: Option<u128>)
    requires
        lo <= hi <= s@.len(),
    ensures
        r == ipv6_spec(s@, lo as int, hi as int),
{
    let k = scan_double_colon(s, lo, hi);
    if k == hi {
        let g = match parse_groups(s, lo, hi) {
            Some(g) => g,
            None => {
                return None;
            },
        };
        if g.len() != 8 {
            return None;
        }
        proof {
            lemma_combine_bound(g@);
            reveal_with_fuel(p16, 9);
            assert(p16(8) == 0x100000000000000000000000000000000);
        }
        Some(combine_groups(&g))
    } else {
        let mut full: Vec<u16> = Vec::new();
        if k > lo {
            match parse_groups(s, lo, k) {
                Some(l) => {
                    full = l;
                },
                None => {
                    return None;
                },
            }
        }
        let llen = full.len();
        let mut right: Vec<u16> = Vec::new();
        if k + 2 < hi {
            match parse_groups(s, k + 2, hi) {
                Some(r) => {
                    right = r;
                },
                None => {
                    return None;
                },
            }
        }
        if llen > 7 || right.len() > 7 - llen {
            return None;
        }
        let ghost lg = full@;
        let ghost rg = right@;
        let zeros = 8 - llen - right.len();
        let mut z: usize = 0;
        while z < zeros
            invariant
                0 <= z <= zeros,
                zeros == 8 - lg.len() - rg.len(),
                full@ =~= lg + zero_groups(z as int),
            decreases zeros - z,
        {
            full.push(0u16);
            assert(full@ =~= lg + zero_groups(z + 1));
            z += 1;
        }
        let mut j: usize = 0;
        while j < right.len()
            invariant
                0 <= j <= rg.len(),
                right@ == rg,
                zeros == 8 - lg.len() - rg.len(),
                full@ =~= lg + zero_groups(zeros as int) + rg.subrange(0, j as int),
            decreases rg.len() - j,
        {
            let x = right[j];
            full.push(x);
            assert(full@ =~= lg + zero_groups(zeros as int) + rg.subrange(0, j + 1));
            j += 1;
        }
        assert(rg.subrange(0, rg.len() as int) =~= rg);
        assert(full@ =~= lg + zero_groups(zeros as int) + rg);
        proof {
            lemma_combine_bound(full@);
            reveal_with_fuel(p16, 9);
            assert(p16(8) == 0x100000000000000000000000000000000);
        }
        Some(combine_groups(&full))
    }
}

/// First start of `::` in `[i, hi)`, or `hi`.
fn scan_double_colon(s: &str, lo: usize, hi: usize) -> (e: usize)
    requires
        lo <= hi <= s@.len(),
    ensures
        e == scan_dc(s@, lo as int, hi as int),
        lo <= e <= hi,
        e < hi ==> e + 1 < hi && s@[e as int] == ':' && s@[e + 1] == ':',
{
    proof {
        lemma_scan_dc_bounds(s@, lo as int, hi as int);
    }
    let mut k: usize = lo;
    while k < hi && k + 1 < hi && !(s.get_char(k) == ':' && s.get_char(k + 1) == ':')
        invariant
            lo <= k <= hi <= s@.len(),
            scan_dc(s@, lo as int, hi as int) == scan_dc(s@, k as int, hi as int),
        decreases hi - k,
    {
        k += 1;
    }
    if k < hi && k + 1 < hi {
        k
    } else {
        hi
    }
}

proof fn lemma_scan_dc_bounds(s: Seq<char>, i: int, hi: int)
    requires
        0 <= i <= hi <= s.len(),
    ensures
        i <= scan_dc(s, i, hi) <= hi,
        scan_dc(s, i, hi) < hi ==> scan_dc(s, i, hi) + 1 < hi && s[scan_dc(s, i, hi)] == ':'
            && s[scan_dc(s, i, hi) + 1] == ':',
    decreases hi - i,
{
    if i + 1 < hi && !(s[i] == ':' && s[i + 1] == ':') {
        lemma_scan_dc_bounds(s, i + 1, hi);
    }
}

/// The port written in `[lo, hi)`, by the grammar of `port_spec`.
pub fn parse_port_range(s: &str, lo: usize, hi: usize) -> (r: Option<u16>)
    requires
        lo <= hi <= s@.len(),
    ensures
        r == port_spec(s@, lo as int, hi as int),
{
    if lo >= hi {
        return None;
    }
    let e = scan_digits(s, lo, hi);
    if e != hi {
        return None;
    }
    proof {
        lemma_digits_end_digits(s@, lo as int, hi as int);
    }
    let mut v: u32 = 0;
    let mut k: usize = lo;
    while k < hi
        invariant
            lo <= k <= hi <= s@.len(),
            digits_end(s@, lo as int, hi as int) == hi,
            forall|t: int| lo <= t < hi ==> is_digit_char(s@[t]),
            dec_value(s@, lo as int, k as int) <= 65535 ==> v == dec_value(
                s@,
                lo as int,
                k as int,
            ),
            dec_value(s@, lo as int, k as int) > 65535 ==> v > 65535,
            v <= 70000,
        decreases hi - k,
    {
        let d = (s.get_char(k) as u8) - 48;
        let next = v * 10 + (d as u32);
        v = if next > 70000 {
            70000
        } else {
            next
        };
        k += 1;
    }
    if v <= 65535 {
        Some(v as u16)
    } else {
        None
    }
}

/// The IPv4 address written in `s`.
pub fn parse_ipv4(s: &str) -> (r: Option<u32>)
    ensures
        r == ipv4_spec(s@, 0, s@.len() as int),
{
    let n = s.unicode_len();
    parse_ipv4_range(s, 0, n)
}

/// The IPv6 address written in `s`.
pub fn parse_ipv6(s: &str) -> (r: Option<u128>)
    ensures
        r == ipv6_spec(s@, 0, s@.len() as int),
{
    let n = s.unicode_len();
    parse_ipv6_range(s, 0, n)
}

/// The socket address written in `s`: `v4:port` or `[v6]:port`.
pub fn parse_socket_addr(s: &str) -> (r: Option<SockAddr>)
    ensures
        r == sockaddr_spec(s@),
{
    let n = s.unicode_len();
    if n > 0 && s.get_char(0) == '[' {
        let rb = scan_char(s, 1, n, ']');
        if rb >= n || rb + 1 >= n || s.get_char(rb + 1) != ':' {
            return None;
        }
        let ip = match parse_ipv6_range(s, 1, rb) {
            Some(v) => v,
            None => {
                return None;
            },
        };
        let port = match parse_port_range(s, rb + 2, n) {
            Some(p) => p,
            None => {
                return None;
            },
        };
        Some(SockAddr { ip: IpVal::V6(ip), port })
    } else {
        let k = scan_char(s, 0, n, ':');
        if k >= n {
            return None;
        }
        let ip = match parse_ipv4_range(s, 0, k) {
            Some(v) => v,
            None => {
                return None;
            },
        };
        let port = match parse_port_range(s, k + 1, n) {
            Some(p) => p,
            None => {
                return None;
            },
        };
        Some(SockAddr { ip: IpVal::V4(ip), port })
    }
}

} // verus!
