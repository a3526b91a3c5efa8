//! Writing overrides into a properties file and reading it back gives the overrides.
use vstd::prelude::*;
use crate::properties::{
    def_index, escaped, lemma_prop_escape_round_trip, override_error, overrides_valid, prop_char, prop_escape,
    unescaped, value_text, PropDef, PropValue,
};
use crate::propfile::{
    appended_body, appended_lines, crlf, entries_of, file_lines, file_properties, has_override, index_of,
    key_in_lines, keys_distinct, lemma_index_of_bound, line_entry, line_key, merged, merged_body, merged_line,
    merged_lines, override_for, pairs_map, strip_cr,
};
use crate::save::access_key;
use crate::text::{dec_int, dec_nat, flat_map, hex_char, is_control, lemma_hex_char_value, lead_end, trail_start, trim};

verus! {

/// Lines, each followed by CRLF.
pub open spec fn joined(bs: Seq<Seq<char>>) -> Seq<char>
    decreases bs.len(),
{
    if bs.len() == 0 {
        Seq::empty()
    } else {
        joined(bs.drop_last()) + bs.last() + crlf()
    }
}

proof fn lemma_joined_front(bs: Seq<Seq<char>>)
    requires
        bs.len() > 0,
    ensures
        joined(bs) == bs[0] + crlf() + joined(bs.drop_first()),
    decreases bs.len(),
{
    if bs.len() == 1 {
        assert(bs.drop_last() =~= Seq::<Seq<char>>::empty());
        assert(bs.drop_first() =~= Seq::<Seq<char>>::empty());
        assert(joined(bs) =~= bs[0] + crlf() + joined(bs.drop_first()));
    } else {
        lemma_joined_front(bs.drop_last());
        assert(bs.drop_last().drop_first() =~= bs.drop_first().drop_last());
        assert(bs.drop_first().last() == bs.last());
        assert(joined(bs) =~= bs[0] + crlf() + joined(bs.drop_first()));
    }
}

proof fn lemma_joined_concat(a: Seq<Seq<char>>, b: Seq<Seq<char>>)
    ensures
        joined(a + b) == joined(a) + joined(b),
    decreases b.len(),
{
    if b.len() == 0 {
        assert(a + b =~= a);
        assert(joined(a) + joined(b) =~= joined(a));
    } else {
        lemma_joined_concat(a, b.drop_last());
        assert((a + b).drop_last() =~= a + b.drop_last());
        assert(joined(a + b) =~= joined(a) + joined(b));
    }
}

proof fn lemma_index_of_concat(a: Seq<char>, b: Seq<char>, c: char)
    requires
        !a.contains(c),
    ensures
        index_of(a + b, c) == a.len() + index_of(b, c),
    decreases a.len(),
{
    if a.len() > 0 {
        assert(a[0] != c);
        assert(!a.drop_first().contains(c)) by {
            if a.drop_first().contains(c) {
                let j = choose|j: int| 0 <= j < a.drop_first().len() && a.drop_first()[j] == c;
                assert(a[j + 1] == c);
            }
        }
        lemma_index_of_concat(a.drop_first(), b, c);
        assert((a + b).drop_first() =~= a.drop_first() + b);
    } else {
        assert(a + b =~= b);
    }
}

/// Lines without `\n`, joined with CRLF, are read back as they were.
pub proof fn lemma_lines_of_joined(bs: Seq<Seq<char>>)
    requires
        forall|i: int| 0 <= i < bs.len() ==> !(#[trigger] bs[i]).contains('\n'),
    ensures
        file_lines(joined(bs)) == bs,
    decreases bs.len(),
{
    if bs.len() == 0 {
        assert(file_lines(joined(bs)) =~= bs);
    } else {
        lemma_joined_front(bs);
        let b0 = bs[0];
        let rest = bs.drop_first();
        let s = joined(bs);
        assert(!b0.contains('\n'));
        assert(b0 + crlf() + joined(rest) =~= (b0 + seq!['\r']) + (seq!['\n'] + joined(rest)));
        assert(!(b0 + seq!['\r']).contains('\n')) by {
            if (b0 + seq!['\r']).contains('\n') {
                let j = choose|j: int| 0 <= j < (b0 + seq!['\r']).len() && (b0 + seq!['\r'])[j] == '\n';
                if j < b0.len() {
                    assert(b0[j] == '\n');
                }
            }
        }
        lemma_index_of_concat(b0 + seq!['\r'], seq!['\n'] + joined(rest), '\n');
        let e: int = b0.len() as int + 1;
        assert(index_of(s, '\n') == e);
        assert(s.subrange(0, e) =~= b0 + seq!['\r']);
        assert(strip_cr(s.subrange(0, e)) =~= b0);
        assert(s.subrange(e + 1, s.len() as int) =~= joined(rest));
        assert forall|i: int| 0 <= i < rest.len() implies !(#[trigger] rest[i]).contains('\n') by {
            assert(rest[i] == bs[i + 1]);
        }
        lemma_lines_of_joined(rest);
        assert(file_lines(s) =~= seq![b0] + rest);
        assert(seq![b0] + rest =~= bs);
    }
}

/// No line that a file is split into holds `\n`.
pub proof fn lemma_file_lines_no_newline(s: Seq<char>)
    ensures
        forall|i: int| 0 <= i < file_lines(s).len() ==> !(#[trigger] file_lines(s)[i]).contains('\n'),
    decreases s.len(),
{
    if s.len() > 0 {
        lemma_index_of_bound(s, '\n');
        let e = index_of(s, '\n') as int;
        if e < s.len() {
            let rest = s.subrange(e + 1, s.len() as int);
            lemma_file_lines_no_newline(rest);
            let first = strip_cr(s.subrange(0, e));
            assert(!first.contains('\n')) by {
                if first.contains('\n') {
                    let j = choose|j: int| 0 <= j < first.len() && first[j] == '\n';
                    assert(s[j] == '\n');
                }
            }
            assert forall|i: int| 0 <= i < file_lines(s).len() implies !(#[trigger] file_lines(s)[i]).contains('\n') by {
                if i > 0 {
                    assert(file_lines(s)[i] == file_lines(rest)[i - 1]);
                }
            }
        } else {
            assert(!s.contains('\n')) by {
                if s.contains('\n') {
                    let j = choose|j: int| 0 <= j < s.len() && s[j] == '\n';
                }
            }
            assert(file_lines(s) =~= seq![s]);
        }
    }
}

/// The lines of the file after the overrides, up to line `n`, without terminators.
pub open spec fn merged_bodies(ls: Seq<Seq<char>>, n: nat, ov: Seq<(String, PropValue)>) -> Seq<Seq<char>>
    decreases n,
{
    if n == 0 {
        Seq::empty()
    } else {
        merged_bodies(ls, (n - 1) as nat, ov).push(merged_body(ls, n - 1, ov))
    }
}

/// The lines added for the first `m` overrides, without terminators.
pub open spec fn appended_bodies(ls: Seq<Seq<char>>, ov: Seq<(String, PropValue)>, m: nat) -> Seq<Seq<char>>
    decreases m,
{
    if m == 0 {
        Seq::empty()
    } else {
        appended_bodies(ls, ov, (m - 1) as nat) + if key_in_lines(ls, ls.len() as int, ov[m - 1].0@) {
            Seq::<Seq<char>>::empty()
        } else {
            seq![appended_body(ov[m - 1])]
        }
    }
}

proof fn lemma_merged_bodies(ls: Seq<Seq<char>>, n: nat, ov: Seq<(String, PropValue)>)
    ensures
        merged_lines(ls, n, ov) == joined(merged_bodies(ls, n, ov)),
        merged_bodies(ls, n, ov).len() == n,
        forall|i: int| 0 <= i < n ==> #[trigger] merged_bodies(ls, n, ov)[i] == merged_body(ls, i, ov),
    decreases n,
{
    if n > 0 {
        lemma_merged_bodies(ls, (n - 1) as nat, ov);
        let b = merged_bodies(ls, n, ov);
        assert(b.drop_last() =~= merged_bodies(ls, (n - 1) as nat, ov));
        assert(merged_lines(ls, n, ov) =~= joined(b));
    }
}

proof fn lemma_appended_bodies(ls: Seq<Seq<char>>, ov: Seq<(String, PropValue)>, m: nat)
    requires
        m <= ov.len(),
    ensures
        appended_lines(ls, ov, m) == joined(appended_bodies(ls, ov, m)),
        forall|x: int| 0 <= x < appended_bodies(ls, ov, m).len() ==> exists|j: int| 0 <= j < m
            && !key_in_lines(ls, ls.len() as int, ov[j].0@) && #[trigger] appended_bodies(ls, ov, m)[x]
            == appended_body(ov[j]),
        forall|j: int| 0 <= j < m && !key_in_lines(ls, ls.len() as int, ov[j].0@) ==> #[trigger] appended_bodies(ls, ov, m).contains(
            appended_body(ov[j]),
        ),
    decreases m,
{
    if m > 0 {
        let p = appended_bodies(ls, ov, (m - 1) as nat);
        lemma_appended_bodies(ls, ov, (m - 1) as nat);
        let a = appended_bodies(ls, ov, m);
        let extra = if key_in_lines(ls, ls.len() as int, ov[m - 1].0@) {
            Seq::<Seq<char>>::empty()
        } else {
            seq![appended_body(ov[m - 1])]
        };
        assert(a == p + extra);
        if key_in_lines(ls, ls.len() as int, ov[m - 1].0@) {
            assert(a =~= p);
            assert(appended_lines(ls, ov, m) =~= appended_lines(ls, ov, (m - 1) as nat));
        } else {
            let y = appended_body(ov[m - 1]);
            assert(a =~= p.push(y));
            assert(a.drop_last() =~= p);
            assert(appended_lines(ls, ov, m) =~= joined(a));
            assert(a[p.len() as int] == y);
        }
        assert forall|x: int| 0 <= x < a.len() implies exists|j: int| 0 <= j < m
            && !key_in_lines(ls, ls.len() as int, ov[j].0@) && #[trigger] a[x] == appended_body(ov[j]) by {
            if x < p.len() {
                assert(a[x] == p[x]);
                assert(exists|j: int| 0 <= j < m - 1 && !key_in_lines(ls, ls.len() as int, ov[j].0@)
                    && #[trigger] p[x] == appended_body(ov[j]));
            } else {
                assert(!key_in_lines(ls, ls.len() as int, ov[m - 1].0@) && a[x] == appended_body(ov[m - 1]));
            }
        }
        assert forall|j: int| 0 <= j < m && !key_in_lines(ls, ls.len() as int, ov[j].0@) implies #[trigger] a.contains(
            appended_body(ov[j]),
        ) by {
            if j < m - 1 {
                assert(p.contains(appended_body(ov[j])));
                let x = choose|x: int| 0 <= x < p.len() && p[x] == appended_body(ov[j]);
                assert(a[x] == p[x]);
            } else {
                assert(a[p.len() as int] == appended_body(ov[j]));
            }
        }
    } else {
        assert(appended_lines(ls, ov, m) =~= joined(appended_bodies(ls, ov, m)));
    }
}

/// A key that can stand on its own in a line: no `=` nor `\n`, no leading `#`, and no
/// whitespace to trim.
pub open spec fn plain_key(k: Seq<char>) -> bool {
    &&& !k.contains('=')
    &&& !k.contains('\n')
    &&& (k.len() > 0 ==> k[0] != '#')
    &&& trim(k) == k
}

/// The unescaped value of a line that holds a property.
pub open spec fn line_value(l: Seq<char>) -> Seq<char> {
    unescaped(line_entry(l)->Some_0.1)
}

proof fn lemma_appended_entry(k: Seq<char>, t: Seq<char>)
    requires
        plain_key(k),
    ensures
        line_entry(k + seq!['='] + t) == Some((k, t)),
{
    let l = k + seq!['='] + t;
    lemma_index_of_concat(k, seq!['='] + t, '=');
    assert(l =~= k + (seq!['='] + t));
    assert(index_of(l, '=') == k.len());
    assert(l.subrange(0, k.len() as int) =~= k);
    assert(l.subrange(k.len() as int + 1, l.len() as int) =~= t);
    if k.len() > 0 {
        assert(l[0] == k[0]);
    }
}

proof fn lemma_replaced_entry(l: Seq<char>, t: Seq<char>)
    requires
        line_entry(l) is Some,
    ensures
        line_entry(l.subrange(0, index_of(l, '=') as int) + seq!['='] + t) == Some((line_entry(l)->Some_0.0, t)),
{
    lemma_index_of_bound(l, '=');
    let e = index_of(l, '=') as int;
    let raw = l.subrange(0, e);
    let b = raw + seq!['='] + t;
    assert(!raw.contains('=')) by {
        if raw.contains('=') {
            let j = choose|j: int| 0 <= j < raw.len() && raw[j] == '=';
            assert(l[j] == '=');
        }
    }
    lemma_index_of_concat(raw, seq!['='] + t, '=');
    assert(b =~= raw + (seq!['='] + t));
    assert(b.subrange(0, e) =~= raw);
    assert(b.subrange(e + 1, b.len() as int) =~= t);
    if e > 0 {
        assert(b[0] == l[0]);
    }
}

/// `k` maps to the same thing, or to nothing, in both maps.
pub open spec fn agree_on(a: Map<Seq<char>, Seq<char>>, b: Map<Seq<char>, Seq<char>>, k: Seq<char>) -> bool {
    a.contains_key(k) == b.contains_key(k) && (a.contains_key(k) ==> a[k] == b[k])
}

proof fn lemma_entries_step(ls: Seq<Seq<char>>)
    requires
        ls.len() > 0,
    ensures
        line_entry(ls.last()) is None ==> pairs_map(entries_of(ls)) == pairs_map(entries_of(ls.drop_last())),
        line_entry(ls.last()) is Some ==> pairs_map(entries_of(ls)) == pairs_map(entries_of(ls.drop_last())).insert(
            line_key(ls.last())->Some_0,
            line_value(ls.last()),
        ),
{
    let p = entries_of(ls.drop_last());
    if line_entry(ls.last()) is Some {
        let e = line_entry(ls.last())->Some_0;
        assert(p.push((e.0, unescaped(e.1))).drop_last() =~= p);
    }
}

proof fn lemma_pairs_value(ls: Seq<Seq<char>>, k: Seq<char>, v: Seq<char>)
    requires
        exists|j: int| 0 <= j < ls.len() && #[trigger] line_key(ls[j]) == Some(k),
        forall|j: int| 0 <= j < ls.len() && #[trigger] line_key(ls[j]) == Some(k) ==> line_value(ls[j]) == v,
    ensures
        pairs_map(entries_of(ls)).contains_key(k),
        pairs_map(entries_of(ls))[k] == v,
    decreases ls.len(),
{
    lemma_entries_step(ls);
    let d = ls.drop_last();
    if line_key(ls.last()) == Some(k) {
    } else {
        let j = choose|j: int| 0 <= j < ls.len() && #[trigger] line_key(ls[j]) == Some(k);
        assert(j < ls.len() - 1);
        assert(d[j] == ls[j]);
        assert forall|i: int| 0 <= i < d.len() && #[trigger] line_key(d[i]) == Some(k) implies line_value(d[i]) == v by {
            assert(d[i] == ls[i]);
        }
        lemma_pairs_value(d, k, v);
    }
}

proof fn lemma_pairs_agree(a: Seq<Seq<char>>, b: Seq<Seq<char>>, k: Seq<char>)
    requires
        a.len() == b.len(),
        forall|i: int| 0 <= i < a.len() ==> (line_key(#[trigger] a[i]) == Some(k)) == (line_key(b[i]) == Some(k)),
        forall|i: int| 0 <= i < a.len() && line_key(#[trigger] a[i]) == Some(k) ==> line_value(a[i]) == line_value(b[i]),
    ensures
        agree_on(pairs_map(entries_of(a)), pairs_map(entries_of(b)), k),
    decreases a.len(),
{
    if a.len() > 0 {
        lemma_entries_step(a);
        lemma_entries_step(b);
        let n = a.len() - 1;
        assert forall|i: int| 0 <= i < a.drop_last().len() implies (line_key(#[trigger] a.drop_last()[i]) == Some(k))
            == (line_key(b.drop_last()[i]) == Some(k)) by {
            assert(a.drop_last()[i] == a[i] && b.drop_last()[i] == b[i]);
        }
        assert forall|i: int| 0 <= i < a.drop_last().len() && line_key(#[trigger] a.drop_last()[i]) == Some(k) implies line_value(
            a.drop_last()[i],
        ) == line_value(b.drop_last()[i]) by {
            assert(a.drop_last()[i] == a[i] && b.drop_last()[i] == b[i]);
        }
        lemma_pairs_agree(a.drop_last(), b.drop_last(), k);
        assert(a.last() == a[n] && b.last() == b[n]);
    } else {
        assert(entries_of(a) =~= entries_of(b));
    }
}

proof fn lemma_pairs_suffix(a: Seq<Seq<char>>, x: Seq<Seq<char>>, k: Seq<char>)
    requires
        forall|i: int| 0 <= i < x.len() ==> line_key(#[trigger] x[i]) != Some(k),
    ensures
        agree_on(pairs_map(entries_of(a + x)), pairs_map(entries_of(a)), k),
    decreases x.len(),
{
    if x.len() == 0 {
        assert(a + x =~= a);
    } else {
        lemma_entries_step(a + x);
        assert((a + x).drop_last() =~= a + x.drop_last());
        assert((a + x).last() == x.last());
        assert(line_key(x[x.len() - 1]) != Some(k));
        assert forall|i: int| 0 <= i < x.drop_last().len() implies line_key(#[trigger] x.drop_last()[i]) != Some(k) by {
            assert(x.drop_last()[i] == x[i]);
        }
        lemma_pairs_suffix(a, x.drop_last(), k);
    }
}

proof fn lemma_flat_map_avoids(s: Seq<char>, f: spec_fn(char) -> Seq<char>, x: char)
    requires
        forall|c: char| !(#[trigger] f(c)).contains(x),
    ensures
        !flat_map(s, f).contains(x),
    decreases s.len(),
{
    if s.len() > 0 {
        lemma_flat_map_avoids(s.drop_last(), f, x);
        let p = flat_map(s.drop_last(), f);
        let q = f(s.last());
        assert(!q.contains(x));
        if (p + q).contains(x) {
            let j = choose|j: int| 0 <= j < (p + q).len() && (p + q)[j] == x;
            if j < p.len() {
                assert(p[j] == x);
            } else {
                assert(q[j - p.len()] == x);
            }
        }
    }
}

proof fn lemma_prop_char_avoids(c: char)
    ensures
        !prop_char(c).contains('\n'),
{
    let q = prop_char(c);
    if is_control(c) && c != '=' && c != ':' && c != '\n' && c != '\r' && c != '\t' {
        lemma_hex_char_value((c as u32 / 16) as u8);
        lemma_hex_char_value((c as u32 % 16) as u8);
        assert(hex_char((c as u32 / 16) as u8) != '\n');
        assert(hex_char((c as u32 % 16) as u8) != '\n');
    }
    if q.contains('\n') {
        let j = choose|j: int| 0 <= j < q.len() && q[j] == '\n';
    }
}

proof fn lemma_dec_nat_digits(n: nat)
    ensures
        forall|i: int| 0 <= i < dec_nat(n).len() ==> '0' <= #[trigger] dec_nat(n)[i] && dec_nat(n)[i] <= '9',
    decreases n,
{
    if n >= 10 {
        lemma_dec_nat_digits(n / 10);
        let d = dec_nat(n / 10);
        let c = (48 + n % 10) as u8 as char;
        assert(dec_nat(n) == d.push(c));
        assert('0' <= c && c <= '9');
        assert forall|i: int| 0 <= i < dec_nat(n).len() implies '0' <= #[trigger] dec_nat(n)[i] && dec_nat(n)[i] <= '9' by {
            if i < d.len() {
                assert(dec_nat(n)[i] == d[i]);
            }
        }
    } else {
        let c = (48 + n) as u8 as char;
        assert('0' <= c && c <= '9');
        assert(dec_nat(n) == seq![c]);
    }
}

proof fn lemma_no_char_in_dec(n: int, x: char)
    requires
        x != '-',
        !('0' <= x && x <= '9'),
    ensures
        !dec_int(n).contains(x),
{
    let d = dec_nat(if n < 0 { (-n) as nat } else { n as nat });
    lemma_dec_nat_digits(if n < 0 { (-n) as nat } else { n as nat });
    let t = dec_int(n);
    if t.contains(x) {
        let j = choose|j: int| 0 <= j < t.len() && t[j] == x;
        if n < 0 {
            assert(t =~= seq!['-'] + d);
            if j > 0 {
                assert(d[j - 1] == x);
            }
        } else {
            assert(d[j] == x);
        }
    }
}

proof fn lemma_unescaped_plain(x: Seq<char>)
    requires
        !x.contains('\\'),
    ensures
        unescaped(x) == x,
    decreases x.len(),
{
    if x.len() > 0 {
        assert(x[0] != '\\');
        assert(!x.drop_first().contains('\\')) by {
            if x.drop_first().contains('\\') {
                let j = choose|j: int| 0 <= j < x.drop_first().len() && x.drop_first()[j] == '\\';
                assert(x[j + 1] == '\\');
            }
        }
        lemma_unescaped_plain(x.drop_first());
        assert(seq![x[0]] + x.drop_first() =~= x);
    } else {
        assert(x =~= Seq::<char>::empty());
    }
}

/// The text a value stands for once read back from a file.
pub open spec fn plain_text(v: PropValue) -> Seq<char> {
    match v {
        PropValue::String(s) => s@,
        _ => value_text(v),
    }
}

/// A string value without a backslash; other values always qualify.
pub open spec fn backslash_free(v: PropValue) -> bool {
    match v {
        PropValue::String(s) => !s@.contains('\\'),
        _ => true,
    }
}

proof fn lemma_value_text(v: PropValue)
    requires
        backslash_free(v),
    ensures
        !value_text(v).contains('\n'),
        unescaped(value_text(v)) == plain_text(v),
{
    reveal_strlit("true");
    reveal_strlit("false");
    match v {
        PropValue::String(s) => {
            assert forall|c: char| !(#[trigger] prop_escape()(c)).contains('\n') by {
                lemma_prop_char_avoids(c);
            }
            lemma_flat_map_avoids(s@, prop_escape(), '\n');
            lemma_prop_escape_round_trip(s@);
        },
        PropValue::Boolean(b) => {
            let t = value_text(v);
            if t.contains('\n') {
                let j = choose|j: int| 0 <= j < t.len() && t[j] == '\n';
            }
            if t.contains('\\') {
                let j = choose|j: int| 0 <= j < t.len() && t[j] == '\\';
            }
            lemma_unescaped_plain(t);
        },
        PropValue::Int(n) => {
            lemma_no_char_in_dec(n as int, '\n');
            lemma_no_char_in_dec(n as int, '\\');
            lemma_unescaped_plain(value_text(v));
        },
        PropValue::Uint(n) => {
            assert(dec_int(n as int) == dec_nat(n as nat));
            lemma_no_char_in_dec(n as int, '\n');
            lemma_no_char_in_dec(n as int, '\\');
            lemma_unescaped_plain(value_text(v));
        },
    }
}

proof fn lemma_body_entry(ls: Seq<Seq<char>>, i: int, ov: Seq<(String, PropValue)>)
    requires
        0 <= i < ls.len(),
    ensures
        line_key(merged_body(ls, i, ov)) == line_key(ls[i]),
        (line_key(ls[i]) matches Some(k) && has_override(ov, k)) ==> line_value(
            merged_body(ls, i, ov),
        ) == unescaped(value_text(override_for(ov, line_key(ls[i])->Some_0))),
        !(line_key(ls[i]) matches Some(k) && has_override(ov, k)) ==> merged_body(ls, i, ov)
            == ls[i],
{
    let l = ls[i];
    if let Some(k) = line_key(l) {
        if has_override(ov, k) {
            lemma_replaced_entry(l, value_text(override_for(ov, k)));
        }
    }
}

proof fn lemma_def_index_name(schema: Seq<PropDef>, k: Seq<char>)
    ensures
        -1 <= def_index(schema, k) < schema.len(),
        def_index(schema, k) >= 0 ==> schema[def_index(schema, k)].name@ == k,
    decreases schema.len(),
{
    if schema.len() > 0 {
        lemma_def_index_name(schema.drop_last(), k);
    }
}

/// Writing overrides with plain keys into a file and reading it back gives each
/// override's value, and every other property keeps its value. String values must hold
/// no backslash: a backslash is written as it is and read as an escape.
pub proof fn lemma_merge_then_read(content: Seq<char>, ov: Seq<(String, PropValue)>)
    requires
        keys_distinct(ov),
        forall|m: int| 0 <= m < ov.len() ==> plain_key(#[trigger] ov[m].0@),
        forall|m: int| 0 <= m < ov.len() ==> backslash_free(#[trigger] ov[m].1),
    ensures
        forall|m: int| 0 <= m < ov.len() ==> #[trigger] file_properties(merged(content, ov)).contains_key(ov[m].0@)
            && file_properties(merged(content, ov))[ov[m].0@] == plain_text(ov[m].1),
        forall|k: Seq<char>| #[trigger] file_properties(content).contains_key(k) && !has_override(ov, k) ==> file_properties(
            merged(content, ov),
        ).contains_key(k) && file_properties(merged(content, ov))[k] == file_properties(content)[k],
        forall|k: Seq<char>| #[trigger] file_properties(content).contains_key(k) ==> file_properties(merged(content, ov)).contains_key(k),
{
    let ls = file_lines(content);
    let n = ls.len();
    let a = merged_bodies(ls, n, ov);
    let x = appended_bodies(ls, ov, ov.len());
    lemma_merged_bodies(ls, n, ov);
    lemma_appended_bodies(ls, ov, ov.len());
    lemma_joined_concat(a, x);
    assert(merged(content, ov) == joined(a + x));
    lemma_file_lines_no_newline(content);
    assert forall|m: int| 0 <= m < ov.len() implies !value_text(#[trigger] ov[m].1).contains('\n') && unescaped(
        value_text(ov[m].1),
    ) == plain_text(ov[m].1) by {
        lemma_value_text(ov[m].1);
    }
    assert forall|m: int| 0 <= m < ov.len() implies line_key(#[trigger] appended_body(ov[m])) == Some(ov[m].0@) && line_value(
        appended_body(ov[m]),
    ) == plain_text(ov[m].1) by {
        lemma_appended_entry(ov[m].0@, value_text(ov[m].1));
    }
    assert forall|m: int| 0 <= m < ov.len() implies override_for(ov, #[trigger] ov[m].0@) == ov[m].1 by {
        let c = choose|j: int| 0 <= j < ov.len() && ov[j].0@ == ov[m].0@;
        assert(c == m);
    }
    // no line of the new file holds a line break
    let b = a + x;
    assert forall|i: int| 0 <= i < b.len() implies !(#[trigger] b[i]).contains('\n') by {
        if i < n {
            lemma_body_entry(ls, i, ov);
            assert(b[i] == merged_body(ls, i, ov));
            let l = ls[i];
            assert(!l.contains('\n'));
            if let Some(k) = line_key(l) {
                if has_override(ov, k) {
                    let m = choose|m: int| 0 <= m < ov.len() && ov[m].0@ == k;
                    lemma_index_of_bound(l, '=');
                    let raw = l.subrange(0, index_of(l, '=') as int);
                    let t = value_text(override_for(ov, k));
                    assert(!t.contains('\n'));
                    if (raw + seq!['='] + t).contains('\n') {
                        let j = choose|j: int| 0 <= j < (raw + seq!['='] + t).len() && (raw + seq!['='] + t)[j] == '\n';
                        if j < raw.len() {
                            assert(l[j] == '\n');
                        } else if j > raw.len() {
                            assert(t[j - raw.len() - 1] == '\n');
                        }
                    }
                }
            }
        } else {
            assert(b[i] == x[i - n]);
            let j = choose|j: int| 0 <= j < ov.len() && !key_in_lines(ls, n as int, ov[j].0@) && #[trigger] x[i - n]
                == appended_body(ov[j]);
            let body = appended_body(ov[j]);
            let k = ov[j].0@;
            let t = value_text(ov[j].1);
            assert(plain_key(k));
            if body.contains('\n') {
                let p = choose|p: int| 0 <= p < body.len() && body[p] == '\n';
                if p < k.len() {
                    assert(k[p] == '\n');
                } else if p > k.len() {
                    assert(t[p - k.len() - 1] == '\n');
                }
            }
        }
    }
    lemma_lines_of_joined(b);
    assert(file_lines(merged(content, ov)) == b);
    // the overridden keys
    assert forall|m: int| 0 <= m < ov.len() implies #[trigger] file_properties(merged(content, ov)).contains_key(ov[m].0@)
        && file_properties(merged(content, ov))[ov[m].0@] == plain_text(ov[m].1) by {
        let k = ov[m].0@;
        let v = plain_text(ov[m].1);
        assert forall|i: int| 0 <= i < b.len() && #[trigger] line_key(b[i]) == Some(k) implies line_value(b[i]) == v by {
            if i < n {
                lemma_body_entry(ls, i, ov);
                assert(b[i] == merged_body(ls, i, ov));
                assert(line_key(ls[i]) == Some(k));
                assert(has_override(ov, k));
            } else {
                assert(b[i] == x[i - n]);
                let j = choose|j: int| 0 <= j < ov.len() && !key_in_lines(ls, n as int, ov[j].0@) && #[trigger] x[i - n]
                    == appended_body(ov[j]);
                assert(line_key(appended_body(ov[j])) == Some(ov[j].0@));
                assert(j == m);
            }
        }
        if key_in_lines(ls, n as int, k) {
            let j = choose|j: int| 0 <= j < n && line_key(ls[j]) == Some(k);
            lemma_body_entry(ls, j, ov);
            assert(b[j] == merged_body(ls, j, ov));
            assert(line_key(b[j]) == Some(k));
        } else {
            assert(x.contains(appended_body(ov[m])));
            let p = choose|p: int| 0 <= p < x.len() && x[p] == appended_body(ov[m]);
            assert(b[n + p] == x[p]);
            assert(line_key(b[n + p]) == Some(k));
        }
        lemma_pairs_value(b, k, v);
    }
    // the other keys
    assert forall|k: Seq<char>| #[trigger] file_properties(content).contains_key(k) && !has_override(ov, k) implies file_properties(
        merged(content, ov),
    ).contains_key(k) && file_properties(merged(content, ov))[k] == file_properties(content)[k] by {
        assert forall|i: int| 0 <= i < x.len() implies line_key(#[trigger] x[i]) != Some(k) by {
            let j = choose|j: int| 0 <= j < ov.len() && !key_in_lines(ls, n as int, ov[j].0@) && #[trigger] x[i]
                == appended_body(ov[j]);
            assert(line_key(appended_body(ov[j])) == Some(ov[j].0@));
            if ov[j].0@ == k {
                assert(has_override(ov, k));
            }
        }
        lemma_pairs_suffix(a, x, k);
        assert forall|i: int| 0 <= i < a.len() implies (line_key(#[trigger] a[i]) == Some(k)) == (line_key(ls[i]) == Some(k)) by {
            lemma_body_entry(ls, i, ov);
        }
        assert forall|i: int| 0 <= i < a.len() && line_key(#[trigger] a[i]) == Some(k) implies line_value(a[i]) == line_value(
            ls[i],
        ) by {
            lemma_body_entry(ls, i, ov);
        }
        lemma_pairs_agree(a, ls, k);
    }
    assert forall|k: Seq<char>| #[trigger] file_properties(content).contains_key(k) implies file_properties(merged(content, ov)).contains_key(k) by {
        if has_override(ov, k) {
            let m = choose|m: int| 0 <= m < ov.len() && ov[m].0@ == k;
            assert(file_properties(merged(content, ov)).contains_key(ov[m].0@));
        }
    }
}


/// Writing overrides that the schema accepts into a file and reading the file back gives
/// each override's value, and every other property keeps its value. This holds where the
/// schema's names are plain keys and no string value holds a backslash (a backslash is
/// written as it is and read as an escape).
pub proof fn lemma_write_then_read(content: Seq<char>, schema: Seq<PropDef>, ov: Seq<(String, PropValue)>)
    requires
        keys_distinct(ov),
        overrides_valid(schema, ov),
        forall|i: int| 0 <= i < schema.len() ==> plain_key(#[trigger] schema[i].name@),
        forall|m: int| 0 <= m < ov.len() ==> backslash_free(#[trigger] ov[m].1),
    ensures
        forall|m: int| 0 <= m < ov.len() ==> #[trigger] file_properties(merged(content, ov)).contains_key(ov[m].0@)
            && file_properties(merged(content, ov))[ov[m].0@] == plain_text(ov[m].1),
        forall|k: Seq<char>| #[trigger] file_properties(content).contains_key(k) && !has_override(ov, k) ==> file_properties(
            merged(content, ov),
        ).contains_key(k) && file_properties(merged(content, ov))[k] == file_properties(content)[k],
        forall|k: Seq<char>| #[trigger] file_properties(content).contains_key(k) ==> file_properties(merged(content, ov)).contains_key(k),
{
    assert forall|m: int| 0 <= m < ov.len() implies plain_key(#[trigger] ov[m].0@) by {
        assert(override_error(schema, ov[m].0, ov[m].1) is None);
        lemma_def_index_name(schema, ov[m].0@);
        assert(schema[def_index(schema, ov[m].0@)].name@ == ov[m].0@);
    }
    lemma_merge_then_read(content, ov);
}

proof fn lemma_access_key_plain()
    ensures
        plain_key(access_key()),
{
    let k = access_key();
    reveal_strlit("mc-manager-access-time");
    assert(k =~= seq!['m', 'c', '-', 'm', 'a', 'n', 'a', 'g', 'e', 'r', '-', 'a', 'c', 'c', 'e', 's', 's', '-', 't', 'i', 'm', 'e']);
    assert(!k.contains('=') && !k.contains('\n')) by {
        if k.contains('=') || k.contains('\n') {
            let j = choose|j: int| 0 <= j < k.len() && (k[j] == '=' || k[j] == '\n');
        }
    }
    assert(lead_end(k, 0) == 0);
    assert(trail_start(k, 0, k.len() as int) == k.len());
    assert(trim(k) =~= k);
}

/// Once the access time is set to `t`, reading the file back gives `t` for it, and
/// every other property keeps its value, also where the key stands on several lines.
pub proof fn lemma_access_reads_back(content: Seq<char>, k: String, t: String)
    requires
        k@ == access_key(),
        !t@.contains('\\'),
    ensures
        file_properties(merged(content, seq![(k, PropValue::String(t))])).contains_key(access_key()),
        file_properties(merged(content, seq![(k, PropValue::String(t))]))[access_key()] == t@,
        forall|o: Seq<char>| o != access_key() && #[trigger] file_properties(content).contains_key(o) ==> file_properties(
            merged(content, seq![(k, PropValue::String(t))]),
        ).contains_key(o) && file_properties(merged(content, seq![(k, PropValue::String(t))]))[o] == file_properties(
            content,
        )[o],
{
    let ov = seq![(k, PropValue::String(t))];
    lemma_access_key_plain();
    lemma_merge_then_read(content, ov);
    assert(ov[0].0@ == access_key());
    assert forall|o: Seq<char>| o != access_key() && #[trigger] file_properties(content).contains_key(o) implies !has_override(
        ov,
        o,
    ) by {
        if has_override(ov, o) {
            let m = choose|m: int| 0 <= m < ov.len() && ov[m].0@ == o;
        }
    }
}

} // verus!
