//! Save names: which names are safe as directory names, and the decoding of names
//! taken from a request path.
use vstd::prelude::*;
use crate::errors::ApiError;
use crate::text::{chars_of, flat_map, hex_char, hex_value, is_control, lemma_flat_map_concat, from_hex_digit, lemma_hex_char_value, push_char};

verus! {

/// Characters a save name may not hold: control characters and those that paths or
/// the shell treat specially.
pub open spec fn bad_char(c: char) -> bool {
    is_control(c) || c == '/' || c == '\\' || c == ':' || c == '*' || c == '?' || c == '"' || c == '<'
        || c == '>'
}

/// ASCII upper case of a character.
pub open spec fn upper(c: char) -> char {
    if 'a' <= c && c <= 'z' {
        ((c as u32) - 32) as u32 as char
    } else {
        c
    }
}

pub open spec fn reserved_word(a: char, b: char, c: char) -> bool {
    (a == 'C' && b == 'O' && c == 'N') || (a == 'P' && b == 'R' && c == 'N') || (a == 'A' && b == 'U'
        && c == 'X') || (a == 'N' && b == 'U' && c == 'L')
}

/// The names Windows reserves, in any case: `.`, `..`, `CON`, `PRN`, `AUX`, `NUL`,
/// `COM1` to `COM9` and `LPT1` to `LPT9`.
pub open spec fn is_reserved(s: Seq<char>) -> bool {
    (s.len() == 1 && s[0] == '.') || (s.len() == 2 && s[0] == '.' && s[1] == '.') || (s.len() == 3
        && reserved_word(upper(s[0]), upper(s[1]), upper(s[2]))) || (s.len() == 4 && ((upper(s[0])
        == 'C' && upper(s[1]) == 'O' && upper(s[2]) == 'M') || (upper(s[0]) == 'L' && upper(s[1])
        == 'P' && upper(s[2]) == 'T')) && '1' <= s[3] && s[3] <= '9')
}

/// A name that can be used as a save's directory name.
pub open spec fn safe_name(s: Seq<char>) -> bool {
    &&& s.len() > 0
    &&& forall|i: int| 0 <= i < s.len() ==> (#[trigger] s[i] as u32) < 128
    &&& s.last() != '.'
    &&& s[0] != ' '
    &&& s.last() != ' '
    &&& forall|i: int| 0 <= i < s.len() ==> !bad_char(#[trigger] s[i])
    &&& !is_reserved(s)
}

fn upper_char(c: char) -> (r: char)
    ensures
        r == upper(c),
{
    if 'a' <= c && c <= 'z' {
        let u = c as u32 - 32;
        proof {
            vstd::utf8::char_u32_cast(c, c as u32);
        }
        (u as u8) as char
    } else {
        c
    }
}

fn check_reserved(s: &Vec<char>) -> (r: bool)
    ensures
        r == is_reserved(s@),
{
    let n = s.len();
    if n == 1 {
        s[0] == '.'
    } else if n == 2 {
        s[0] == '.' && s[1] == '.'
    } else if n == 3 {
        let a = upper_char(s[0]);
        let b = upper_char(s[1]);
        let c = upper_char(s[2]);
        (a == 'C' && b == 'O' && c == 'N') || (a == 'P' && b == 'R' && c == 'N') || (a == 'A' && b
            == 'U' && c == 'X') || (a == 'N' && b == 'U' && c == 'L')
    } else if n == 4 {
        let a = upper_char(s[0]);
        let b = upper_char(s[1]);
        let c = upper_char(s[2]);
        ((a == 'C' && b == 'O' && c == 'M') || (a == 'L' && b == 'P' && c == 'T')) && '1' <= s[3]
            && s[3] <= '9'
    } else {
        false
    }
}

/// Whether `text` can be used as a save's name: not empty, ASCII, not starting with a
/// space nor ending in a space or a dot, free of control characters and of
/// `/ \ : * ? " < >`, and not a name Windows reserves.
pub fn is_safe(text: &str) -> (r: bool)
    ensures
        r == safe_name(text@),
{
    let s = chars_of(text);
    let n = s.len();
    if n == 0 {
        return false;
    }
    if s[n - 1] == '.' || s[0] == ' ' || s[n - 1] == ' ' {
        return false;
    }
    let mut i: usize = 0;
    while i < n
        invariant
            i <= n,
            n == s@.len(),
            s@ == text@,
            forall|j: int| 0 <= j < i ==> (#[trigger] s@[j] as u32) < 128 && !bad_char(s@[j]),
        decreases n - i,
    {
        let c = s[i];
        if c as u32 >= 128 {
            assert(!((s@[i as int] as u32) < 128));
            return false;
        }
        if (c as u32) < 32 || c as u32 == 127 || c == '/' || c == '\\' || c == ':' || c == '*' || c
            == '?' || c == '"' || c == '<' || c == '>' {
            assert(bad_char(s@[i as int]));
            return false;
        }
        i = i + 1;
    }
    !check_reserved(&s)
}

/// Percent-decoding of ASCII text: `%HH` stands for a byte below 0x80; a byte at or above
/// 0x80, written or decoded, or a `%` without two hexadecimal digits gives `None`.
pub open spec fn uri_decode(s: Seq<char>) -> Option<Seq<char>>
    decreases s.len(),
{
    if s.len() == 0 {
        Some(Seq::empty())
    } else if s[0] == '%' {
        if s.len() < 3 {
            None
        } else {
            match (hex_value(s[1]), hex_value(s[2])) {
                (Some(h), Some(l)) => {
                    let b = h * 16 + l;
                    if b >= 128 {
                        None
                    } else {
                        prepend(seq![b as u8 as char], uri_decode(s.subrange(3, s.len() as int)))
                    }
                },
                _ => None,
            }
        }
    } else if (s[0] as u32) >= 128 {
        None
    } else {
        prepend(seq![s[0]], uri_decode(s.drop_first()))
    }
}

pub open spec fn prepend(p: Seq<char>, o: Option<Seq<char>>) -> Option<Seq<char>> {
    match o {
        Some(r) => Some(p + r),
        None => None,
    }
}

/// What a name taken from a request path stands for: the name itself, or, where it holds
/// a `%`, its percent-decoding; either must be a safe name.
pub open spec fn name_outcome(s: Seq<char>) -> Result<Seq<char>, ApiError> {
    if !s.contains('%') {
        if safe_name(s) {
            Ok(s)
        } else {
            Err(ApiError::BadName)
        }
    } else {
        match uri_decode(s) {
            None => Err(ApiError::BadRequest),
            Some(d) => if safe_name(d) {
                Ok(d)
            } else {
                Err(ApiError::BadName)
            },
        }
    }
}

fn decode_uri(s: &Vec<char>) -> (r: Option<String>)
    ensures
        r is None <==> uri_decode(s@) is None,
        r matches Some(d) ==> uri_decode(s@) == Some(d@),
{
    let n = s.len();
    let mut out = String::new();
    let mut i: usize = 0;
    assert(s@.subrange(0, n as int) =~= s@);
    assert(Seq::<char>::empty() + s@ =~= s@);
    while i < n
        invariant
            i <= n,
            n == s@.len(),
            uri_decode(s@) == prepend(out@, uri_decode(s@.subrange(i as int, n as int))),
        decreases n - i,
    {
        let ghost t = s@.subrange(i as int, n as int);
        let ghost before = out@;
        let c = s[i];
        assert(t[0] == c);
        if c == '%' {
            if n - i < 3 {
                return None;
            }
            assert(t[1] == s@[i + 1] && t[2] == s@[i + 2]);
            let hi = from_hex_digit(s[i + 1]);
            let lo = from_hex_digit(s[i + 2]);
            match (hi, lo) {
                (Some(h), Some(l)) => {
                    let b = h * 16 + l;
                    if b >= 128 {
                        return None;
                    }
                    push_char(&mut out, b as char);
                    assert(t.subrange(3, t.len() as int) =~= s@.subrange(i + 3, n as int));
                    i = i + 3;
                },
                _ => {
                    return None;
                },
            }
        } else if c as u32 >= 128 {
            return None;
        } else {
            push_char(&mut out, c);
            assert(t.drop_first() =~= s@.subrange(i + 1, n as int));
            i = i + 1;
        }
        proof {
            let rest = uri_decode(s@.subrange(i as int, n as int));
            if let Some(r) = rest {
                assert(before + ((out@.subrange(before.len() as int, out@.len() as int)) + r) =~= out@ + r);
                assert(out@ =~= before + out@.subrange(before.len() as int, out@.len() as int));
            }
        }
    }
    assert(s@.subrange(n as int, n as int) =~= Seq::<char>::empty());
    assert(out@ + Seq::<char>::empty() =~= out@);
    Some(out)
}

fn contains_percent(s: &Vec<char>) -> (r: bool)
    ensures
        r == s@.contains('%'),
{
    let mut i: usize = 0;
    while i < s.len()
        invariant
            i <= s@.len(),
            forall|j: int| 0 <= j < i ==> s@[j] != '%',
        decreases s@.len() - i,
    {
        if s[i] == '%' {
            assert(s@[i as int] == '%');
            return true;
        }
        i = i + 1;
    }
    false
}

/// The save name that a request path's component stands for: percent-decoded where it
/// holds a `%` (`BadRequest` where that fails), and then `BadName` unless it is safe.
pub fn parse_name(name: String) -> (r: Result<String, ApiError>)
    ensures
        match name_outcome(name@) {
            Ok(d) => r is Ok && r->Ok_0@ == d,
            Err(e) => r == Err::<String, ApiError>(e),
        },
{
    let s = chars_of(name.as_str());
    if contains_percent(&s) {
        match decode_uri(&s) {
            None => Err(ApiError::BadRequest),
            Some(decoded) => {
                if is_safe(decoded.as_str()) {
                    Ok(decoded)
                } else {
                    Err(ApiError::BadName)
                }
            },
        }
    } else {
        if is_safe(name.as_str()) {
            Ok(name)
        } else {
            Err(ApiError::BadName)
        }
    }
}

/// Characters that percent-encoding of a URI component leaves as they are.
pub open spec fn uri_keeps(c: char) -> bool {
    ('a' <= c && c <= 'z') || ('A' <= c && c <= 'Z') || ('0' <= c && c <= '9') || c == '-' || c
        == '_' || c == '.' || c == '!' || c == '~' || c == '*' || c == '\'' || c == '(' || c == ')'
}

/// Percent-encoding of one ASCII character.
pub open spec fn uri_char(c: char) -> Seq<char> {
    if uri_keeps(c) {
        seq![c]
    } else {
        seq!['%', hex_char((c as u32 / 16) as u8), hex_char((c as u32 % 16) as u8)]
    }
}

pub open spec fn uri_escape() -> spec_fn(char) -> Seq<char> {
    |c: char| uri_char(c)
}

/// Percent-encoding of a URI component, as a browser writes it.
pub open spec fn uri_encode(s: Seq<char>) -> Seq<char> {
    flat_map(s, uri_escape())
}

pub open spec fn all_ascii(s: Seq<char>) -> bool {
    forall|i: int| 0 <= i < s.len() ==> (#[trigger] s[i] as u32) < 128
}

proof fn lemma_flat_map_single(c: char, f: spec_fn(char) -> Seq<char>)
    ensures
        flat_map(seq![c], f) == f(c),
{
    assert(seq![c].drop_last() =~= Seq::<char>::empty());
    assert(flat_map(Seq::<char>::empty(), f) == Seq::<char>::empty());
    assert(flat_map(seq![c], f) =~= f(c));
}

proof fn lemma_decode_plain(s: Seq<char>)
    requires
        all_ascii(s),
        !s.contains('%'),
    ensures
        uri_decode(s) == Some(s),
    decreases s.len(),
{
    if s.len() > 0 {
        assert(s[0] != '%');
        assert((s[0] as u32) < 128);
        let rest = s.drop_first();
        assert(!rest.contains('%')) by {
            if rest.contains('%') {
                let j = choose|j: int| 0 <= j < rest.len() && rest[j] == '%';
                assert(s[j + 1] == '%');
            }
        }
        assert forall|i: int| 0 <= i < rest.len() implies (#[trigger] rest[i] as u32) < 128 by {
            assert(rest[i] == s[i + 1]);
        }
        lemma_decode_plain(rest);
        assert(seq![s[0]] + rest =~= s);
    } else {
        assert(s =~= Seq::<char>::empty());
    }
}

proof fn lemma_encode_ascii(s: Seq<char>)
    requires
        all_ascii(s),
    ensures
        all_ascii(uri_encode(s)),
    decreases s.len(),
{
    if s.len() > 0 {
        assert forall|i: int| 0 <= i < s.drop_last().len() implies (#[trigger] s.drop_last()[i] as u32)
            < 128 by {
            assert(s.drop_last()[i] == s[i]);
        }
        lemma_encode_ascii(s.drop_last());
        assert((s.last() as u32) < 128);
        let c = s.last();
        let p = uri_encode(s.drop_last());
        let q = uri_char(c);
        if !uri_keeps(c) {
            lemma_hex_char_value((c as u32 / 16) as u8);
            lemma_hex_char_value((c as u32 % 16) as u8);
        }
        assert(forall|i: int| 0 <= i < q.len() ==> (#[trigger] q[i] as u32) < 128);
        assert forall|i: int| 0 <= i < (p + q).len() implies (#[trigger] (p + q)[i] as u32) < 128 by {
            if i >= p.len() {
                assert((p + q)[i] == q[i - p.len()]);
            }
        }
    }
}

proof fn lemma_decode_encoded(s: Seq<char>)
    requires
        all_ascii(s),
    ensures
        uri_decode(uri_encode(s)) == Some(s),
    decreases s.len(),
{
    if s.len() > 0 {
        let c = s[0];
        let rest = s.drop_first();
        assert(s =~= seq![c] + rest);
        assert forall|i: int| 0 <= i < rest.len() implies (#[trigger] rest[i] as u32) < 128 by {
            assert(rest[i] == s[i + 1]);
        }
        lemma_decode_encoded(rest);
        lemma_flat_map_concat(seq![c], rest, uri_escape());
        lemma_flat_map_single(c, uri_escape());
        let e = uri_encode(rest);
        let x = uri_char(c) + e;
        assert(uri_encode(s) == x);
        assert((c as u32) < 128);
        if uri_keeps(c) {
            assert(x.drop_first() =~= e);
        } else {
            let d1 = (c as u32 / 16) as u8;
            let d2 = (c as u32 % 16) as u8;
            lemma_hex_char_value(d1);
            lemma_hex_char_value(d2);
            assert(x[1] == hex_char(d1) && x[2] == hex_char(d2));
            assert(x.subrange(3, x.len() as int) =~= e);
            vstd::utf8::char_u32_cast(c, c as u32);
            assert((d1 * 16 + d2) as u8 as char == c);
        }
    } else {
        assert(uri_encode(s) =~= Seq::<char>::empty());
        assert(s =~= Seq::<char>::empty());
    }
}

/// A safe name survives percent-encoding: the name that the encoded text stands for is
/// the name itself, so it is safe again.
pub proof fn lemma_uri_round_trip(n: Seq<char>)
    requires
        safe_name(n),
    ensures
        name_outcome(uri_encode(n)) == Ok::<Seq<char>, ApiError>(n),
        safe_name(n),
{
    lemma_decode_encoded(n);
    let e = uri_encode(n);
    if !e.contains('%') {
        lemma_encode_ascii(n);
        lemma_decode_plain(e);
    }
}

} // verus!
