//! Property values, their escaped form in a properties file, and the checks that
//! a client's values must pass against the schema.
use vstd::prelude::*;
use crate::errors::ApiError;
use crate::text::{
    chars_of, dec_int, dec_nat, flat_map, hex_char, hex_value, is_control, lemma_flat_map_step, push_char,
    hex_digit, from_hex_digit, append_i64, append_u64, char_from_u32, lemma_flat_map_concat, lemma_hex_char_value,
};

verus! {

/// Who may see and change a property.
#[derive(Clone, Copy, PartialEq, Eq, Structural, Debug)]
pub enum PropAccess {
    /// kept in the file, never shown to clients
    Hidden,
    Read,
    Write,
}

/// A value sent by a client for a property.
#[derive(Clone, Debug)]
pub enum PropValue {
    Boolean(bool),
    String(String),
    Int(i64),
    Uint(u64),
}

/// The type of a property, with its default value.
pub enum PropType {
    Bool(bool),
    String(&'static str),
    /// default, min, max
    Int(i64, i64, i64),
    /// default, min, max
    Uint(u64, u64, u64),
    /// a `YYYY-MM-DD HH:MM:SS` string whose default is the current time
    Datetime,
    /// default index, then the label of each member; a member's value is its index
    IntEnum(u64, Vec<&'static str>),
    /// default index, then each member as (value, label)
    StrEnum(usize, Vec<(&'static str, &'static str)>),
}

/// One property of the schema.
pub struct PropDef {
    pub access: PropAccess,
    pub ty: PropType,
    pub name: &'static str,
    pub label: &'static str,
    pub desc: &'static str,
}

/// Escaped form of one character in a property value.
pub open spec fn prop_char(c: char) -> Seq<char> {
    if c == '=' {
        seq!['\\', '=']
    } else if c == ':' {
        seq!['\\', ':']
    } else if c == '\n' {
        seq!['\\', 'n']
    } else if c == '\r' {
        seq!['\\', 'r']
    } else if c == '\t' {
        seq!['\\', 't']
    } else if is_control(c) {
        seq!['\\', 'u', '0', '0', hex_char((c as u32 / 16) as u8), hex_char((c as u32 % 16) as u8)]
    } else {
        seq![c]
    }
}

pub open spec fn prop_escape() -> spec_fn(char) -> Seq<char> {
    |c: char| prop_char(c)
}

/// Escaped form of a property value.
pub open spec fn escaped(s: Seq<char>) -> Seq<char> {
    flat_map(s, prop_escape())
}

/// Number of hexadecimal digits at `s[i..]`, at most `n`.
pub open spec fn hex_run(s: Seq<char>, i: int, n: nat) -> nat
    decreases n,
{
    if n == 0 || i < 0 || i >= s.len() || hex_value(s[i]) is None {
        0
    } else {
        1 + hex_run(s, i + 1, (n - 1) as nat)
    }
}

/// The number written by hexadecimal digits.
pub open spec fn hex_number(s: Seq<char>) -> nat
    decreases s.len(),
{
    if s.len() == 0 {
        0
    } else {
        hex_number(s.drop_last()) * 16 + match hex_value(s.last()) {
            Some(v) => v as nat,
            None => 0,
        }
    }
}

/// The character a `\u` escape stands for; nothing where the code is no scalar value.
pub open spec fn code_char(code: nat) -> Seq<char> {
    if code < 0xD800 || (0xDFFF < code && code <= 0x10FFFF) {
        seq![code as u32 as char]
    } else {
        Seq::empty()
    }
}

pub proof fn lemma_hex_run_bound(s: Seq<char>, i: int, n: nat)
    requires
        0 <= i <= s.len(),
    ensures
        hex_run(s, i, n) <= s.len() - i,
        hex_run(s, i, n) <= n,
    decreases n,
{
    if n > 0 && i < s.len() && hex_value(s[i]) is Some {
        lemma_hex_run_bound(s, i + 1, (n - 1) as nat);
    }
}

#[via_fn]
proof fn unescaped_decreases(s: Seq<char>) {
    if s.len() >= 2 {
        lemma_hex_run_bound(s, 2, 4);
    }
}

/// Unescaped text of a property value.
pub open spec fn unescaped(s: Seq<char>) -> Seq<char>
    decreases s.len() via unescaped_decreases
{
    if s.len() == 0 {
        Seq::empty()
    } else if s[0] != '\\' {
        seq![s[0]] + unescaped(s.drop_first())
    } else if s.len() == 1 {
        seq!['\\']
    } else if s[1] == 'n' {
        seq!['\n'] + unescaped(s.subrange(2, s.len() as int))
    } else if s[1] == 'r' {
        seq!['\r'] + unescaped(s.subrange(2, s.len() as int))
    } else if s[1] == 't' {
        seq!['\t'] + unescaped(s.subrange(2, s.len() as int))
    } else if s[1] == 'u' {
        let k = hex_run(s, 2, 4) as int;
        code_char(hex_number(s.subrange(2, 2 + k))) + unescaped(s.subrange(2 + k, s.len() as int))
    } else {
        seq![s[1]] + unescaped(s.subrange(2, s.len() as int))
    }
}

/// The text a value takes in a properties file.
pub open spec fn value_text(v: PropValue) -> Seq<char> {
    match v {
        PropValue::Boolean(b) => if b { "true"@ } else { "false"@ },
        PropValue::String(s) => escaped(s@),
        PropValue::Int(n) => dec_int(n as int),
        PropValue::Uint(n) => dec_nat(n as nat),
    }
}

fn append_prop_char(out: &mut String, c: char)
    ensures
        final(out)@ == old(out)@ + prop_char(c),
{
    let ghost start = out@;
    if c == '=' {
        push_char(out, '\\');
        push_char(out, '=');
    } else if c == ':' {
        push_char(out, '\\');
        push_char(out, ':');
    } else if c == '\n' {
        push_char(out, '\\');
        push_char(out, 'n');
    } else if c == '\r' {
        push_char(out, '\\');
        push_char(out, 'r');
    } else if c == '\t' {
        push_char(out, '\\');
        push_char(out, 't');
    } else if (c as u32) < 32 || c as u32 == 127 {
        push_char(out, '\\');
        push_char(out, 'u');
        push_char(out, '0');
        push_char(out, '0');
        let code = c as u32;
        push_char(out, hex_digit((code / 16) as u8));
        push_char(out, hex_digit((code % 16) as u8));
    } else {
        push_char(out, c);
    }
    assert(out@ =~= start + prop_char(c));
}

/// Appends the escaped form of `value`.
pub fn append_prop_escaped(out: &mut String, value: &str)
    ensures
        final(out)@ == old(out)@ + escaped(value@),
{
    let ghost start = out@;
    let chars = chars_of(value);
    let mut i: usize = 0;
    while i < chars.len()
        invariant
            i <= chars.len(),
            chars@ == value@,
            out@ == start + flat_map(chars@.subrange(0, i as int), prop_escape()),
        decreases chars.len() - i,
    {
        append_prop_char(out, chars[i]);
        proof {
            lemma_flat_map_step(chars@, i as int, prop_escape());
        }
        i = i + 1;
    }
    assert(chars@.subrange(0, chars@.len() as int) =~= value@);
}

pub open spec fn pow16(k: nat) -> nat
    decreases k,
{
    if k == 0 {
        1
    } else {
        16 * pow16((k - 1) as nat)
    }
}

proof fn lemma_pow16_step(code: int, v: int, k: nat)
    requires
        0 <= code < pow16(k),
        0 <= v < 16,
        k < 4,
    ensures
        code * 16 + v < pow16(k + 1),
        pow16(k + 1) <= 0x10000,
{
    reveal_with_fuel(pow16, 5);
    assert(code * 16 + v < pow16(k) * 16) by (nonlinear_arith)
        requires
            0 <= code < pow16(k),
            0 <= v < 16,
    ;
}

/// The unescaped text of a property value read from a file.
pub fn parse_prop_unescaped(value: &str) -> (r: String)
    ensures
        r@ == unescaped(value@),
{
    let chars = chars_of(value);
    let n = chars.len();
    let mut out = String::new();
    let mut i: usize = 0;
    assert(chars@.subrange(0, n as int) =~= value@);
    assert(out@ + unescaped(value@) =~= unescaped(value@));
    while i < n
        invariant
            i <= n,
            n == chars@.len(),
            chars@ == value@,
            unescaped(value@) == out@ + unescaped(chars@.subrange(i as int, n as int)),
        decreases n - i,
    {
        let ghost t = chars@.subrange(i as int, n as int);
        let ghost before = out@;
        let ghost mut piece: Seq<char> = Seq::empty();
        let c = chars[i];
        assert(t[0] == c);
        if c != '\\' {
            push_char(&mut out, c);
            assert(t.drop_first() =~= chars@.subrange(i + 1, n as int));
            proof { piece = seq![c]; }
            i = i + 1;
        } else if i + 1 == n {
            push_char(&mut out, c);
            assert(chars@.subrange(n as int, n as int) =~= Seq::<char>::empty());
            proof { piece = seq![c]; }
            i = i + 1;
        } else {
            let next = chars[i + 1];
            assert(t[1] == next);
            assert(t.subrange(2, t.len() as int) =~= chars@.subrange(i + 2, n as int));
            if next == 'n' {
                push_char(&mut out, '\n');
                proof { piece = seq!['\n']; }
                i = i + 2;
            } else if next == 'r' {
                push_char(&mut out, '\r');
                proof { piece = seq!['\r']; }
                i = i + 2;
            } else if next == 't' {
                push_char(&mut out, '\t');
                proof { piece = seq!['\t']; }
                i = i + 2;
            } else if next == 'u' {
                let mut k: usize = 0;
                let mut code: u32 = 0;
                while k < 4 && i + 2 + k < n && from_hex_digit(chars[i + 2 + k]).is_some()
                    invariant
                        k <= 4,
                        i + 2 + k <= n,
                        n == chars@.len(),
                        t == chars@.subrange(i as int, n as int),
                        hex_run(t, 2, 4) == k + hex_run(t, 2 + k, (4 - k) as nat),
                        code == hex_number(t.subrange(2, 2 + k)),
                        code < pow16(k as nat),
                    decreases 4 - k,
                {
                    let v = from_hex_digit(chars[i + 2 + k]).unwrap();
                    assert(t.subrange(2, 2 + k + 1).drop_last() =~= t.subrange(2, 2 + k));
                    assert(t[2 + k] == chars@[i + 2 + k]);
                    proof {
                        lemma_pow16_step(code as int, v as int, k as nat);
                    }
                    code = code * 16 + v as u32;
                    k = k + 1;
                }
                proof {
                    if k < 4 {
                        assert(hex_run(t, 2 + k, (4 - k) as nat) == 0);
                    }
                }
                match char_from_u32(code) {
                    Some(d) => {
                        push_char(&mut out, d);
                    },
                    None => {},
                }
                proof { piece = code_char(code as nat); }
                assert(t.subrange(2 + k, t.len() as int) =~= chars@.subrange(i + 2 + k, n as int));
                i = i + 2 + k;
            } else {
                push_char(&mut out, next);
                proof { piece = seq![next]; }
                i = i + 2;
            }
        }
        assert(out@ =~= before + piece);
        assert(unescaped(t) == piece + unescaped(chars@.subrange(i as int, n as int)));
        assert(before + (piece + unescaped(chars@.subrange(i as int, n as int))) =~= out@
            + unescaped(chars@.subrange(i as int, n as int)));
    }
    assert(chars@.subrange(n as int, n as int) =~= Seq::<char>::empty());
    out
}

proof fn lemma_unescape_char(c: char, e: Seq<char>)
    requires
        c != '\\',
    ensures
        unescaped(prop_char(c) + e) == seq![c] + unescaped(e),
{
    let x = prop_char(c) + e;
    if c == '=' || c == ':' || c == '\n' || c == '\r' || c == '\t' {
        assert(x.subrange(2, x.len() as int) =~= e);
    } else if is_control(c) {
        let code = c as u32;
        let d1 = (code / 16) as u8;
        let d2 = (code % 16) as u8;
        lemma_hex_char_value(d1);
        lemma_hex_char_value(d2);
        reveal_with_fuel(hex_run, 5);
        assert(x[2] == '0' && x[3] == '0' && x[4] == hex_char(d1) && x[5] == hex_char(d2));
        assert(hex_run(x, 2, 4) == 4);
        let digits = x.subrange(2, 6);
        assert(digits.drop_last().drop_last().drop_last().drop_last() =~= Seq::<char>::empty());
        reveal_with_fuel(hex_number, 5);
        assert(hex_number(digits) == (d1 as nat) * 16 + d2 as nat);
        assert(hex_number(digits) == code as nat);
        vstd::utf8::char_u32_cast(c, code);
        assert(code_char(code as nat) == seq![c]);
        assert(x.subrange(6, x.len() as int) =~= e);
    } else {
        assert(x.drop_first() =~= e);
    }
}

/// Escaping a value and unescaping the result gives the value back, for every value
/// without a backslash (a backslash is written as it is, and read as an escape).
pub proof fn lemma_prop_escape_round_trip(s: Seq<char>)
    requires
        !s.contains('\\'),
    ensures
        unescaped(escaped(s)) == s,
    decreases s.len(),
{
    if s.len() > 0 {
        let c = s[0];
        let rest = s.drop_first();
        assert(s =~= seq![c] + rest);
        lemma_flat_map_concat(seq![c], rest, prop_escape());
        assert(seq![c].drop_last() =~= Seq::<char>::empty());
        assert(flat_map(Seq::<char>::empty(), prop_escape()) == Seq::<char>::empty());
        assert(seq![c].last() == c);
        assert(flat_map(seq![c], prop_escape()) == flat_map(Seq::<char>::empty(), prop_escape())
            + prop_char(c));
        assert(flat_map(seq![c], prop_escape()) =~= prop_char(c));
        assert(!rest.contains('\\')) by {
            if rest.contains('\\') {
                let j = choose|j: int| 0 <= j < rest.len() && rest[j] == '\\';
                assert(s[j + 1] == '\\');
            }
        }
        lemma_prop_escape_round_trip(rest);
        assert(s[0] != '\\');
        lemma_unescape_char(c, escaped(rest));
    } else {
        assert(escaped(s) =~= Seq::<char>::empty());
        assert(s =~= Seq::<char>::empty());
    }
}

impl PropValue {
    /// Appends the text this value takes in a properties file.
    pub fn to_prop_value(&self, out: &mut String)
        ensures
            final(out)@ == old(out)@ + value_text(*self),
    {
        match self {
            PropValue::Boolean(b) => {
                if *b {
                    out.append("true");
                } else {
                    out.append("false");
                }
            },
            PropValue::String(v) => append_prop_escaped(out, v.as_str()),
            PropValue::Int(n) => append_i64(out, *n),
            PropValue::Uint(n) => append_u64(out, *n),
        }
    }
}

pub uninterp spec fn datetime_parses(s: Seq<char>) -> bool;

/// Relies on chrono's `NaiveDateTime::parse_from_str` with the format `%Y-%m-%d %H:%M:%S`:
/// whether the text is a date and time in that form. The answer depends on the text alone.
#[verifier::external_body]
fn parse_datetime(s: &str) -> (r: bool)
    ensures
        r == datetime_parses(s@),
{
    chrono::NaiveDateTime::parse_from_str(s, "%Y-%m-%d %H:%M:%S").is_ok()
}

/// Whether `v` lies in the domain of `ty`; `datetime_ok` says whether a string value
/// parses as a date and time.
pub open spec fn in_domain(ty: PropType, v: PropValue, datetime_ok: bool) -> bool {
    match ty {
        PropType::Bool(_) => v is Boolean,
        PropType::String(_) => v is String,
        PropType::Int(_, min, max) => match v {
            PropValue::Int(n) => min <= n <= max,
            PropValue::Uint(n) => n <= i64::MAX && min <= n <= max,
            _ => false,
        },
        PropType::Uint(_, min, max) => match v {
            PropValue::Uint(n) => min <= n <= max,
            PropValue::Int(n) => 0 <= n && min <= n <= max,
            _ => false,
        },
        PropType::Datetime => match v {
            PropValue::String(s) => s@.len() == 19 && datetime_ok,
            _ => false,
        },
        PropType::IntEnum(_, members) => match v {
            PropValue::Int(n) => 0 <= n < members@.len(),
            PropValue::Uint(n) => n < members@.len(),
            _ => false,
        },
        PropType::StrEnum(_, members) => match v {
            PropValue::String(s) => exists|i: int| 0 <= i < members@.len() && (#[trigger] members@[i]).0@ == s@,
            _ => false,
        },
    }
}

/// Whether a string value parses as a date and time.
pub open spec fn datetime_of(v: PropValue) -> bool {
    match v {
        PropValue::String(s) => datetime_parses(s@),
        _ => false,
    }
}

fn is_member(members: &Vec<(&'static str, &'static str)>, s: &String) -> (r: bool)
    ensures
        r == exists|i: int| 0 <= i < members@.len() && (#[trigger] members@[i]).0@ == s@,
{
    let mut i: usize = 0;
    while i < members.len()
        invariant
            i <= members@.len(),
            forall|j: int| 0 <= j < i ==> (#[trigger] members@[j]).0@ != s@,
        decreases members@.len() - i,
    {
        if String::from_str(members[i].0) == *s {
            assert(members@[i as int].0@ == s@);
            return true;
        }
        i = i + 1;
    }
    false
}

/// Whether `value` lies in the domain of `ty`, given whether it parses as a date and time.
pub fn value_in_domain(ty: &PropType, value: &PropValue, datetime_ok: bool) -> (r: bool)
    ensures
        r == in_domain(*ty, *value, datetime_ok),
{
    match ty {
        PropType::Bool(_) => matches!(value, PropValue::Boolean(_)),
        PropType::String(_) => matches!(value, PropValue::String(_)),
        PropType::Int(_, min, max) => match value {
            PropValue::Int(n) => *min <= *n && *n <= *max,
            PropValue::Uint(n) => *n <= i64::MAX as u64 && *min <= *n as i64 && *n as i64 <= *max,
            _ => false,
        },
        PropType::Uint(_, min, max) => match value {
            PropValue::Uint(n) => *min <= *n && *n <= *max,
            PropValue::Int(n) => 0 <= *n && *min <= *n as u64 && *n as u64 <= *max,
            _ => false,
        },
        PropType::Datetime => match value {
            PropValue::String(s) => chars_of(s.as_str()).len() == 19 && datetime_ok,
            _ => false,
        },
        PropType::IntEnum(_, members) => match value {
            PropValue::Int(n) => 0 <= *n && (*n as u64) < members.len() as u64,
            PropValue::Uint(n) => *n < members.len() as u64,
            _ => false,
        },
        PropType::StrEnum(_, members) => match value {
            PropValue::String(s) => is_member(members, s),
            _ => false,
        },
    }
}

/// Index of the first property named `k`.
pub open spec fn def_index(schema: Seq<PropDef>, k: Seq<char>) -> int
    decreases schema.len(),
{
    if schema.len() == 0 {
        -1
    } else if schema.last().name@ == k && def_index(schema.drop_last(), k) < 0 {
        schema.len() - 1
    } else {
        def_index(schema.drop_last(), k)
    }
}

/// Index of the first property named `k` in the schema, if there is one.
pub fn find_def(schema: &Vec<PropDef>, k: &String) -> (r: Option<usize>)
    ensures
        r is None ==> def_index(schema@, k@) == -1,
        r matches Some(i) ==> def_index(schema@, k@) == i && i < schema@.len(),
{
    let ghost d = schema@;
    let mut i: usize = 0;
    while i < schema.len()
        invariant
            i <= schema@.len(),
            d == schema@,
            def_index(d.subrange(0, i as int), k@) == -1,
        decreases schema@.len() - i,
    {
        assert(d.subrange(0, i + 1).drop_last() =~= d.subrange(0, i as int));
        if String::from_str(schema[i].name) == *k {
            proof {
                lemma_def_index_prefix(d, i as int + 1, k@);
            }
            return Some(i);
        }
        i = i + 1;
    }
    assert(d.subrange(0, i as int) =~= d);
    None
}

proof fn lemma_def_index_prefix(d: Seq<PropDef>, n: int, k: Seq<char>)
    requires
        0 <= n <= d.len(),
        def_index(d.subrange(0, n), k) >= 0,
    ensures
        def_index(d, k) == def_index(d.subrange(0, n), k),
    decreases d.len() - n,
{
    if n < d.len() {
        assert(d.subrange(0, n + 1).drop_last() =~= d.subrange(0, n));
        lemma_def_index_prefix(d, n + 1, k);
    } else {
        assert(d.subrange(0, n) =~= d);
    }
}

/// The error an override meets, if any: an unknown key, a key clients may not write, or
/// a value outside the property's domain.
pub open spec fn override_error(schema: Seq<PropDef>, key: String, v: PropValue) -> Option<ApiError> {
    let i = def_index(schema, key@);
    if i < 0 {
        Some(ApiError::PropertyNotFound(key))
    } else if schema[i].access != PropAccess::Write {
        Some(ApiError::PropertyReadOnly(key))
    } else if !in_domain(schema[i].ty, v, datetime_of(v)) {
        Some(ApiError::PropertyInvalid(key))
    } else {
        None
    }
}

/// Every override passes the schema.
pub open spec fn overrides_valid(schema: Seq<PropDef>, ov: Seq<(String, PropValue)>) -> bool {
    forall|i: int| 0 <= i < ov.len() ==> #[trigger] override_error(schema, ov[i].0, ov[i].1) is None
}

/// `e` is the error of the first override that fails.
pub open spec fn first_error_is(schema: Seq<PropDef>, ov: Seq<(String, PropValue)>, e: ApiError) -> bool {
    exists|i: int|
        0 <= i < ov.len() && (forall|j: int| 0 <= j < i ==> #[trigger] override_error(schema, ov[j].0, ov[j].1) is None)
            && override_error(schema, ov[i].0, ov[i].1) == Some(e)
}

/// Checks the overrides, in order, against the schema; the first one that fails decides
/// the error.
pub fn validate_properties(schema: &Vec<PropDef>, values: &Vec<(String, PropValue)>) -> (r: Result<(), ApiError>)
    ensures
        r is Ok <==> overrides_valid(schema@, values@),
        r matches Err(e) ==> first_error_is(schema@, values@, e),
{
    let mut i: usize = 0;
    while i < values.len()
        invariant
            i <= values@.len(),
            forall|j: int| 0 <= j < i ==> #[trigger] override_error(schema@, values@[j].0, values@[j].1) is None,
        decreases values@.len() - i,
    {
        let key = &values[i].0;
        let value = &values[i].1;
        match find_def(schema, key) {
            None => {
                let e = ApiError::PropertyNotFound(key.clone());
                assert(override_error(schema@, values@[i as int].0, values@[i as int].1) == Some(e));
                return Err(e);
            },
            Some(d) => {
                let def = &schema[d];
                if def.access != PropAccess::Write {
                    let e = ApiError::PropertyReadOnly(key.clone());
                    assert(override_error(schema@, values@[i as int].0, values@[i as int].1) == Some(e));
                    return Err(e);
                }
                let datetime_ok = match value {
                    PropValue::String(s) => parse_datetime(s.as_str()),
                    _ => false,
                };
                if !value_in_domain(&def.ty, value, datetime_ok) {
                    let e = ApiError::PropertyInvalid(key.clone());
                    assert(override_error(schema@, values@[i as int].0, values@[i as int].1) == Some(e));
                    return Err(e);
                }
                assert(override_error(schema@, values@[i as int].0, values@[i as int].1) is None);
            },
        }
        i = i + 1;
    }
    Ok(())
}

} // verus!
