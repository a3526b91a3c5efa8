//! Parsing of the daemon's listening address: an IPv4 address and a port.
use vstd::prelude::*;
use crate::text::{chars_of, slice_chars};
use crate::propfile::find_char;

verus! {

/// The value of a string of decimal digits.
pub open spec fn digits_value(s: Seq<char>) -> nat
    decreases s.len(),
{
    if s.len() == 0 {
        0
    } else {
        digits_value(s.drop_last()) * 10 + ((s.last() as u32) - 48) as nat
    }
}

pub open spec fn all_digits(s: Seq<char>) -> bool {
    forall|i: int| 0 <= i < s.len() ==> '0' <= #[trigger] s[i] && s[i] <= '9'
}

/// An unsigned integer as `str::parse` reads it: an optional `+`, then one or more
/// decimal digits, whose value is at most `max`.
pub open spec fn parse_unsigned(s: Seq<char>, max: nat) -> Option<nat> {
    let d = if s.len() > 0 && s[0] == '+' {
        s.drop_first()
    } else {
        s
    };
    if d.len() > 0 && all_digits(d) && digits_value(d) <= max {
        Some(digits_value(d))
    } else {
        None
    }
}

proof fn lemma_digits_value_grows(s: Seq<char>, i: int)
    requires
        0 <= i <= s.len(),
        all_digits(s),
    ensures
        digits_value(s.subrange(0, i)) <= digits_value(s),
    decreases s.len() - i,
{
    if i < s.len() {
        lemma_digits_value_grows(s, i + 1);
        assert(s.subrange(0, i + 1).drop_last() =~= s.subrange(0, i));
    } else {
        assert(s.subrange(0, i) =~= s);
    }
}

fn parse_digits(s: &Vec<char>, from: usize, max: u64) -> (r: Option<u64>)
    requires
        from <= s@.len(),
        max <= 0xFFFF_FFFF,
    ensures
        match parse_unsigned(s@.subrange(from as int, s@.len() as int), max as nat) {
            Some(v) => r == Some(v as u64),
            None => r is None,
        },
{
    let ghost all = s@.subrange(from as int, s@.len() as int);
    let mut start = from;
    if start < s.len() && s[start] == '+' {
        start = start + 1;
        assert(all.drop_first() =~= s@.subrange(start as int, s@.len() as int));
    }
    let ghost d = s@.subrange(start as int, s@.len() as int);
    assert(d == (if all.len() > 0 && all[0] == '+' { all.drop_first() } else { all }));
    if start == s.len() {
        return None;
    }
    let mut v: u64 = 0;
    let mut i = start;
    while i < s.len()
        invariant
            start <= i <= s@.len(),
            start < s@.len(),
            d == s@.subrange(start as int, s@.len() as int),
            all == s@.subrange(from as int, s@.len() as int),
            d == (if all.len() > 0 && all[0] == '+' { all.drop_first() } else { all }),
            max <= 0xFFFF_FFFF,
            all_digits(s@.subrange(start as int, i as int)),
            v == digits_value(s@.subrange(start as int, i as int)),
            v <= max,
        decreases s@.len() - i,
    {
        let c = s[i];
        assert(s@.subrange(start as int, i + 1).drop_last() =~= s@.subrange(start as int, i as int));
        if !('0' <= c && c <= '9') {
            assert(d[i - start] == c);
            assert(!all_digits(d));
            return None;
        }
        let next = v * 10 + (c as u32 - 48) as u64;
        assert(digits_value(s@.subrange(start as int, i + 1)) == next);
        if next > max {
            proof {
                assert(all_digits(s@.subrange(start as int, i + 1)));
                if all_digits(d) {
                    assert(d.subrange(0, i + 1 - start) =~= s@.subrange(start as int, i + 1));
                    lemma_digits_value_grows(d, i + 1 - start);
                    assert(digits_value(d) > max);
                }
            }
            return None;
        }
        v = next;
        i = i + 1;
    }
    assert(s@.subrange(start as int, i as int) =~= d);
    Some(v)
}

/// A port: an unsigned integer up to 65535.
pub fn parse_port(port: &str) -> (r: Option<u16>)
    ensures
        match parse_unsigned(port@, 0xFFFF) {
            Some(v) => r == Some(v as u16),
            None => r is None,
        },
{
    let s = chars_of(port);
    assert(s@.subrange(0, s@.len() as int) =~= port@);
    match parse_digits(&s, 0, 0xFFFF) {
        Some(v) => Some(v as u16),
        None => None,
    }
}

/// Position of the first `.` at or after `from`, or the length of `s`.
pub open spec fn next_dot(s: Seq<char>, from: int) -> int {
    from + crate::propfile::index_of(s.subrange(from, s.len() as int), '.')
}

/// The four parts of a dotted IPv4 address, if it has exactly three dots.
pub open spec fn dotted_parts(s: Seq<char>) -> Option<(Seq<char>, Seq<char>, Seq<char>, Seq<char>)> {
    let a = next_dot(s, 0);
    let b = next_dot(s, a + 1);
    let c = next_dot(s, b + 1);
    if a < s.len() && b < s.len() && c < s.len() && next_dot(s, c + 1) == s.len() {
        Some((s.subrange(0, a), s.subrange(a + 1, b), s.subrange(b + 1, c), s.subrange(c + 1, s.len() as int)))
    } else {
        None
    }
}

/// The listening address: the empty text stands for 0.0.0.0; otherwise four dotted
/// parts, each an unsigned integer up to 255.
pub open spec fn ip_of(s: Seq<char>) -> Option<Seq<u8>> {
    if s.len() == 0 {
        Some(seq![0u8, 0u8, 0u8, 0u8])
    } else {
        match dotted_parts(s) {
            Some((p0, p1, p2, p3)) => match (
                parse_unsigned(p0, 255),
                parse_unsigned(p1, 255),
                parse_unsigned(p2, 255),
                parse_unsigned(p3, 255),
            ) {
                (Some(a), Some(b), Some(c), Some(d)) => Some(seq![a as u8, b as u8, c as u8, d as u8]),
                _ => None,
            },
            None => None,
        }
    }
}

fn parse_octet(s: &Vec<char>) -> (r: Option<u8>)
    ensures
        match parse_unsigned(s@, 255) {
            Some(v) => r == Some(v as u8),
            None => r is None,
        },
{
    assert(s@.subrange(0, s@.len() as int) =~= s@);
    match parse_digits(s, 0, 255) {
        Some(v) => Some(v as u8),
        None => None,
    }
}

/// The listening address in `ip`: empty for 0.0.0.0, else a dotted IPv4 address.
pub fn parse_ip(ip: &str) -> (r: Option<[u8; 4]>)
    ensures
        match ip_of(ip@) {
            Some(a) => r matches Some(b) && b@ == a,
            None => r is None,
        },
{
    let s = chars_of(ip);
    let n = s.len();
    if n == 0 {
        let r = [0u8, 0u8, 0u8, 0u8];
        assert(r@ =~= seq![0u8, 0u8, 0u8, 0u8]);
        return Some(r);
    }
    assert(s@.subrange(0, n as int) =~= s@);
    assert(s@ == ip@);
    let a = find_char(&s, 0, '.');
    if a == n {
        return None;
    }
    let b = find_char(&s, a + 1, '.');
    if b == n {
        return None;
    }
    let c = find_char(&s, b + 1, '.');
    if c == n {
        return None;
    }
    let d = find_char(&s, c + 1, '.');
    if d < n {
        return None;
    }
    let p0 = slice_chars(&s, 0, a);
    let p1 = slice_chars(&s, a + 1, b);
    let p2 = slice_chars(&s, b + 1, c);
    let p3 = slice_chars(&s, c + 1, n);
    let o0 = parse_octet(&p0);
    let o1 = parse_octet(&p1);
    let o2 = parse_octet(&p2);
    let o3 = parse_octet(&p3);
    match (o0, o1, o2, o3) {
        (Some(x0), Some(x1), Some(x2), Some(x3)) => {
            let r = [x0, x1, x2, x3];
            assert(r@ =~= ip_of(ip@).unwrap());
            Some(r)
        },
        _ => None,
    }
}

} // verus!
