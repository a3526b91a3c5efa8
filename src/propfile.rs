//! The properties file: `key=value` lines with CRLF terminators, `#` comments, and
//! values in escaped form.
use vstd::prelude::*;
use crate::properties::{unescaped, value_text, PropValue};
use crate::text::{append_chars, chars_of, push_char, slice_chars, string_of, trim, trim_chars};

verus! {

/// Position of the first `c` in `s`, or its length when there is none.
pub open spec fn index_of(s: Seq<char>, c: char) -> nat
    decreases s.len(),
{
    if s.len() == 0 {
        0
    } else if s[0] == c {
        0
    } else {
        1 + index_of(s.drop_first(), c)
    }
}

pub proof fn lemma_index_of_bound(s: Seq<char>, c: char)
    ensures
        index_of(s, c) <= s.len(),
        index_of(s, c) < s.len() ==> s[index_of(s, c) as int] == c,
        forall|j: int| 0 <= j < index_of(s, c) ==> s[j] != c,
    decreases s.len(),
{
    if s.len() > 0 && s[0] != c {
        lemma_index_of_bound(s.drop_first(), c);
        assert forall|j: int| 0 <= j < index_of(s, c) implies s[j] != c by {
            if j > 0 {
                assert(s[j] == s.drop_first()[j - 1]);
            }
        }
    }
}

/// Position of the first `c` at or after `from`, or the length of `s`.
pub fn find_char(s: &Vec<char>, from: usize, c: char) -> (r: usize)
    requires
        from <= s@.len(),
    ensures
        r == from + index_of(s@.subrange(from as int, s@.len() as int), c),
        r <= s@.len(),
{
    let n = s.len();
    let mut j = from;
    while j < n && s[j] != c
        invariant
            from <= j <= n,
            n == s@.len(),
            from + index_of(s@.subrange(from as int, n as int), c) == j + index_of(
                s@.subrange(j as int, n as int),
                c,
            ),
        decreases n - j,
    {
        assert(s@.subrange(j as int, n as int).drop_first() =~= s@.subrange(j + 1, n as int));
        j = j + 1;
    }
    if j == n {
        assert(s@.subrange(n as int, n as int).len() == 0);
    }
    j
}

/// A line without its final carriage return, if it has one.
pub open spec fn strip_cr(l: Seq<char>) -> Seq<char> {
    if l.len() > 0 && l.last() == '\r' {
        l.drop_last()
    } else {
        l
    }
}

/// The lines of a text as a buffered reader yields them: split at `\n`, a `\r` before
/// the `\n` taken off, and no empty line after a final `\n`.
pub open spec fn file_lines(s: Seq<char>) -> Seq<Seq<char>>
    decreases s.len(),
{
    if s.len() == 0 {
        Seq::empty()
    } else {
        let e = index_of(s, '\n') as int;
        if e < s.len() {
            seq![strip_cr(s.subrange(0, e))] + file_lines(s.subrange(e + 1, s.len() as int))
        } else {
            seq![s]
        }
    }
}

/// The lines of `s`, as `file_lines` gives them.
pub fn split_lines(s: &Vec<char>) -> (r: Vec<Vec<char>>)
    ensures
        r@.len() == file_lines(s@).len(),
        forall|i: int| 0 <= i < r@.len() ==> #[trigger] r@[i]@ == file_lines(s@)[i],
{
    let n = s.len();
    let mut r: Vec<Vec<char>> = Vec::new();
    let mut pos: usize = 0;
    let ghost mut done: Seq<Seq<char>> = Seq::empty();
    assert(s@.subrange(0, n as int) =~= s@);
    while pos < n
        invariant
            pos <= n,
            n == s@.len(),
            r@.len() == done.len(),
            forall|i: int| 0 <= i < r@.len() ==> #[trigger] r@[i]@ == done[i],
            file_lines(s@) == done + file_lines(s@.subrange(pos as int, n as int)),
        decreases n - pos,
    {
        let ghost t = s@.subrange(pos as int, n as int);
        let e = find_char(s, pos, '\n');
        proof {
            lemma_index_of_bound(t, '\n');
        }
        let line: Vec<char>;
        if e < n {
            let mut end = e;
            if end > pos && s[end - 1] == '\r' {
                end = end - 1;
            }
            line = slice_chars(s, pos, end);
            assert(t.subrange(0, e - pos) =~= s@.subrange(pos as int, e as int));
            assert(strip_cr(t.subrange(0, e - pos)) =~= line@);
            assert(t.subrange(e - pos + 1, t.len() as int) =~= s@.subrange(e + 1, n as int));
            r.push(line);
            proof {
                done = done.push(line@);
            }
            assert(file_lines(s@) =~= done + file_lines(s@.subrange(e + 1, n as int)));
            pos = e + 1;
        } else {
            line = slice_chars(s, pos, n);
            r.push(line);
            proof {
                done = done.push(line@);
            }
            assert(s@.subrange(n as int, n as int).len() == 0);
            assert(file_lines(s@) =~= done + file_lines(s@.subrange(n as int, n as int)));
            pos = n;
        }
    }
    assert(s@.subrange(n as int, n as int).len() == 0);
    assert(done + file_lines(s@.subrange(n as int, n as int)) =~= done);
    r
}

/// Key, trimmed, and escaped value of a line; nothing for a comment or a line without `=`.
pub open spec fn line_entry(l: Seq<char>) -> Option<(Seq<char>, Seq<char>)> {
    if l.len() > 0 && l[0] == '#' {
        None
    } else {
        let e = index_of(l, '=') as int;
        if e < l.len() {
            Some((trim(l.subrange(0, e)), l.subrange(e + 1, l.len() as int)))
        } else {
            None
        }
    }
}

/// The (key, unescaped value) pairs of the lines, in order.
pub open spec fn entries_of(ls: Seq<Seq<char>>) -> Seq<(Seq<char>, Seq<char>)>
    decreases ls.len(),
{
    if ls.len() == 0 {
        Seq::empty()
    } else {
        let p = entries_of(ls.drop_last());
        match line_entry(ls.last()) {
            Some(e) => p.push((e.0, unescaped(e.1))),
            None => p,
        }
    }
}

/// Pairs as a map; a later pair replaces an earlier one with the same key.
pub open spec fn pairs_map(s: Seq<(Seq<char>, Seq<char>)>) -> Map<Seq<char>, Seq<char>>
    decreases s.len(),
{
    if s.len() == 0 {
        Map::empty()
    } else {
        pairs_map(s.drop_last()).insert(s.last().0, s.last().1)
    }
}

/// The value of the first pair with key `k`.
pub open spec fn first_of(s: Seq<(Seq<char>, Seq<char>)>, k: Seq<char>) -> Option<Seq<char>>
    decreases s.len(),
{
    if s.len() == 0 {
        None
    } else if s[0].0 == k {
        Some(s[0].1)
    } else {
        first_of(s.drop_first(), k)
    }
}

/// The properties a file holds, the last line of a key deciding its value.
pub open spec fn file_properties(content: Seq<char>) -> Map<Seq<char>, Seq<char>> {
    pairs_map(entries_of(file_lines(content)))
}

/// The value of the first line with key `k`.
pub open spec fn file_property(content: Seq<char>, k: Seq<char>) -> Option<Seq<char>> {
    first_of(entries_of(file_lines(content)), k)
}

/// Properties read from a file: its key/value pairs in file order.
pub struct PropertyMap {
    pub entries: Vec<(String, String)>,
}

impl View for PropertyMap {
    type V = Map<Seq<char>, Seq<char>>;

    open spec fn view(&self) -> Map<Seq<char>, Seq<char>> {
        pairs_map(self.pairs())
    }
}

impl PropertyMap {
    pub open spec fn pairs(&self) -> Seq<(Seq<char>, Seq<char>)> {
        self.entries@.map_values(|e: (String, String)| (e.0@, e.1@))
    }

    /// The value of `key`, if the file holds it.
    pub fn get(&self, key: &String) -> (r: Option<String>)
        ensures
            r is Some <==> self@.contains_key(key@),
            r matches Some(v) ==> v@ == self@[key@],
    {
        let ghost p = self.pairs();
        let mut i = self.entries.len();
        assert(p.subrange(0, i as int) =~= p);
        while i > 0
            invariant
                i <= self.entries@.len(),
                p == self.pairs(),
                self@.contains_key(key@) == pairs_map(p.subrange(0, i as int)).contains_key(key@),
                self@.contains_key(key@) ==> self@[key@] == pairs_map(p.subrange(0, i as int))[key@],
            decreases i,
        {
            assert(p.subrange(0, i as int).drop_last() =~= p.subrange(0, i - 1));
            if self.entries[i - 1].0 == *key {
                return Some(self.entries[i - 1].1.clone());
            }
            i = i - 1;
        }
        None
    }
}

/// Key, trimmed, and the position of the `=` of a line that holds a property.
fn line_parts(l: &Vec<char>) -> (r: Option<(Vec<char>, usize)>)
    ensures
        r is Some <==> line_entry(l@) is Some,
        r matches Some(kp) ==> {
            &&& kp.1 == index_of(l@, '=')
            &&& kp.1 < l@.len()
            &&& line_entry(l@) == Some((kp.0@, l@.subrange(kp.1 + 1, l@.len() as int)))
        },
{
    if l.len() > 0 && l[0] == '#' {
        return None;
    }
    let e = find_char(l, 0, '=');
    assert(l@.subrange(0, l@.len() as int) =~= l@);
    if e < l.len() {
        let raw = slice_chars(l, 0, e);
        let key = trim_chars(&raw);
        Some((key, e))
    } else {
        None
    }
}

/// Reads the properties of a file's text: for each line that is not a comment, the
/// text before the first `=`, trimmed, is the key and the rest, unescaped, its value.
pub fn read_properties(content: &str) -> (r: PropertyMap)
    ensures
        r.pairs() == entries_of(file_lines(content@)),
        r@ == file_properties(content@),
{
    let chars = chars_of(content);
    let lines = split_lines(&chars);
    let ghost ls = file_lines(content@);
    let mut entries: Vec<(String, String)> = Vec::new();
    let mut i: usize = 0;
    while i < lines.len()
        invariant
            i <= lines@.len(),
            chars@ == content@,
            ls == file_lines(content@),
            lines@.len() == ls.len(),
            forall|j: int| 0 <= j < lines@.len() ==> #[trigger] lines@[j]@ == ls[j],
            entries@.map_values(|e: (String, String)| (e.0@, e.1@)) == entries_of(
                ls.subrange(0, i as int),
            ),
        decreases lines@.len() - i,
    {
        let l = &lines[i];
        assert(ls.subrange(0, i + 1).drop_last() =~= ls.subrange(0, i as int));
        assert(ls.subrange(0, i + 1).last() == l@);
        let ghost before = entries@;
        match line_parts(l) {
            Some((key, e)) => {
                let raw = slice_chars(l, e + 1, l.len());
                let value_raw = string_of(&raw);
                let value = crate::properties::parse_prop_unescaped(value_raw.as_str());
                entries.push((string_of(&key), value));
                assert(entries@.map_values(|e: (String, String)| (e.0@, e.1@)) =~= before.map_values(
                    |e: (String, String)| (e.0@, e.1@),
                ).push((key@, unescaped(raw@))));
            },
            None => {},
        }
        i = i + 1;
    }
    assert(ls.subrange(0, lines@.len() as int) =~= ls);
    PropertyMap { entries }
}

/// The value of the first line with key `key`, unescaped.
pub fn read_property(content: &str, key: &str) -> (r: Option<String>)
    ensures
        r matches Some(v) ==> file_property(content@, key@) == Some(v@),
        r is None ==> file_property(content@, key@) is None,
{
    let props = read_properties(content);
    let k = String::from_str(key);
    let ghost p = props.pairs();
    let n = props.entries.len();
    let mut i: usize = 0;
    assert(p.subrange(0, n as int) =~= p);
    while i < n
        invariant
            i <= n,
            n == props.entries@.len(),
            p == props.pairs(),
            p == entries_of(file_lines(content@)),
            k@ == key@,
            first_of(p, key@) == first_of(p.subrange(i as int, n as int), key@),
        decreases n - i,
    {
        assert(p.subrange(i as int, n as int).drop_first() =~= p.subrange(i + 1, n as int));
        assert(p.subrange(i as int, n as int)[0] == p[i as int]);
        if props.entries[i].0 == k {
            let v = props.entries[i].1.clone();
            assert(p[i as int] == (props.entries@[i as int].0@, props.entries@[i as int].1@));
            assert(first_of(p.subrange(i as int, n as int), key@) == Some(p[i as int].1));
            return Some(v);
        }
        i = i + 1;
    }
    None
}

/// The key of a line that holds a property.
pub open spec fn line_key(l: Seq<char>) -> Option<Seq<char>> {
    match line_entry(l) {
        Some(e) => Some(e.0),
        None => None,
    }
}

/// No two overrides share a key.
pub open spec fn keys_distinct(ov: Seq<(String, PropValue)>) -> bool {
    forall|a: int, b: int| 0 <= a < b < ov.len() ==> ov[a].0@ != ov[b].0@
}

/// Some line before line `n` has key `k`.
pub open spec fn key_in_lines(ls: Seq<Seq<char>>, n: int, k: Seq<char>) -> bool {
    exists|j: int| 0 <= j < n && line_key(ls[j]) == Some(k)
}

pub open spec fn has_override(ov: Seq<(String, PropValue)>, k: Seq<char>) -> bool {
    exists|m: int| 0 <= m < ov.len() && ov[m].0@ == k
}

/// The override for `k`.
pub open spec fn override_for(ov: Seq<(String, PropValue)>, k: Seq<char>) -> PropValue {
    ov[choose|m: int| 0 <= m < ov.len() && ov[m].0@ == k].1
}

pub open spec fn crlf() -> Seq<char> {
    seq!['\r', '\n']
}

/// Line `i` as it is written back, without its terminator: a line of an overridden key
/// gets the new value.
pub open spec fn merged_body(ls: Seq<Seq<char>>, i: int, ov: Seq<(String, PropValue)>) -> Seq<char> {
    let l = ls[i];
    match line_key(l) {
        Some(k) => if has_override(ov, k) {
            l.subrange(0, index_of(l, '=') as int) + seq!['='] + value_text(override_for(ov, k))
        } else {
            l
        },
        None => l,
    }
}

/// Line `i` as it is written back.
pub open spec fn merged_line(ls: Seq<Seq<char>>, i: int, ov: Seq<(String, PropValue)>) -> Seq<char> {
    merged_body(ls, i, ov) + crlf()
}

pub open spec fn merged_lines(ls: Seq<Seq<char>>, n: nat, ov: Seq<(String, PropValue)>) -> Seq<char>
    decreases n,
{
    if n == 0 {
        Seq::empty()
    } else {
        merged_lines(ls, (n - 1) as nat, ov) + merged_line(ls, n - 1, ov)
    }
}

/// The line added for an override whose key no line holds, without its terminator.
pub open spec fn appended_body(e: (String, PropValue)) -> Seq<char> {
    e.0@ + seq!['='] + value_text(e.1)
}

/// The lines added for the first `m` overrides whose key no line holds.
pub open spec fn appended_lines(ls: Seq<Seq<char>>, ov: Seq<(String, PropValue)>, m: nat) -> Seq<char>
    decreases m,
{
    if m == 0 {
        Seq::empty()
    } else {
        let e = ov[m - 1];
        appended_lines(ls, ov, (m - 1) as nat) + if key_in_lines(ls, ls.len() as int, e.0@) {
            Seq::empty()
        } else {
            appended_body(e) + crlf()
        }
    }
}

/// A file's text once the overrides are written into it.
pub open spec fn merged(content: Seq<char>, ov: Seq<(String, PropValue)>) -> Seq<char> {
    let ls = file_lines(content);
    merged_lines(ls, ls.len(), ov) + appended_lines(ls, ov, ov.len())
}

/// Index of the override with key `k`.
pub fn find_override(values: &Vec<(String, PropValue)>, k: &String) -> (r: Option<usize>)
    requires
        keys_distinct(values@),
    ensures
        r is None <==> !has_override(values@, k@),
        r matches Some(m) ==> m < values@.len() && values@[m as int].0@ == k@ && override_for(values@, k@)
            == values@[m as int].1,
{
    let mut m: usize = 0;
    while m < values.len()
        invariant
            m <= values@.len(),
            keys_distinct(values@),
            forall|j: int| 0 <= j < m ==> values@[j].0@ != k@,
        decreases values@.len() - m,
    {
        if values[m].0 == *k {
            assert(values@[m as int].0@ == k@);
            let ghost c = choose|j: int| 0 <= j < values@.len() && values@[j].0@ == k@;
            assert(values@[c].0@ == values@[m as int].0@);
            assert(c == m as int);
            return Some(m);
        }
        m = m + 1;
    }
    None
}

/// Writes the overrides into a file's text: every line of an overridden key gets the
/// new value, the other lines stay as they are, and overrides whose key no line holds
/// are added at the end. Every line ends in CRLF.
pub fn write_properties(content: &str, values: &Vec<(String, PropValue)>) -> (r: String)
    requires
        keys_distinct(values@),
    ensures
        r@ == merged(content@, values@),
{
    let chars = chars_of(content);
    let lines = split_lines(&chars);
    let ghost ls = file_lines(content@);
    let ghost ov = values@;
    let mut used: Vec<bool> = Vec::new();
    let mut m: usize = 0;
    while m < values.len()
        invariant
            m <= values@.len(),
            used@.len() == m,
            forall|j: int| 0 <= j < m ==> !used@[j],
        decreases values@.len() - m,
    {
        used.push(false);
        m = m + 1;
    }
    let mut out = String::new();
    let mut i: usize = 0;
    while i < lines.len()
        invariant
            i <= lines@.len(),
            chars@ == content@,
            ls == file_lines(content@),
            ov == values@,
            keys_distinct(ov),
            lines@.len() == ls.len(),
            forall|j: int| 0 <= j < lines@.len() ==> #[trigger] lines@[j]@ == ls[j],
            used@.len() == ov.len(),
            forall|j: int| 0 <= j < ov.len() ==> #[trigger] used@[j] == key_in_lines(ls, i as int, ov[j].0@),
            out@ == merged_lines(ls, i as nat, ov),
        decreases lines@.len() - i,
    {
        let l = &lines[i];
        assert(l@ == ls[i as int]);
        let ghost before = out@;
        let ghost used_before = used@;
        match line_parts(l) {
            Some((key, e)) => {
                let k = string_of(&key);
                assert(line_key(l@) == Some(k@));
                match find_override(values, &k) {
                    Some(m) => {
                        let raw = slice_chars(l, 0, e);
                        append_chars(&mut out, &raw);
                        push_char(&mut out, '=');
                        values[m].1.to_prop_value(&mut out);
                        push_char(&mut out, '\r');
                        push_char(&mut out, '\n');
                        used.set(m, true);
                        assert(out@ =~= before + merged_line(ls, i as int, ov));
                        assert forall|j: int| 0 <= j < ov.len() implies #[trigger] used@[j]
                            == key_in_lines(ls, i + 1, ov[j].0@) by {
                            if key_in_lines(ls, i + 1, ov[j].0@) && j != m {
                                let w = choose|w: int| 0 <= w < i + 1 && line_key(ls[w]) == Some(ov[j].0@);
                                assert(w != i);
                            }
                            if j == m {
                                assert(line_key(ls[i as int]) == Some(ov[j].0@));
                            }
                            if key_in_lines(ls, i as int, ov[j].0@) {
                                let w = choose|w: int| 0 <= w < i && line_key(ls[w]) == Some(ov[j].0@);
                                assert(0 <= w < i + 1);
                            }
                        }
                    },
                    None => {
                        append_chars(&mut out, l);
                        push_char(&mut out, '\r');
                        push_char(&mut out, '\n');
                        assert(out@ =~= before + merged_line(ls, i as int, ov));
                        assert forall|j: int| 0 <= j < ov.len() implies #[trigger] used@[j]
                            == key_in_lines(ls, i + 1, ov[j].0@) by {
                            if key_in_lines(ls, i + 1, ov[j].0@) {
                                let w = choose|w: int| 0 <= w < i + 1 && line_key(ls[w]) == Some(ov[j].0@);
                                if w == i {
                                    assert(has_override(ov, k@));
                                }
                            }
                            if key_in_lines(ls, i as int, ov[j].0@) {
                                let w = choose|w: int| 0 <= w < i && line_key(ls[w]) == Some(ov[j].0@);
                                assert(0 <= w < i + 1);
                            }
                        }
                    },
                }
            },
            None => {
                append_chars(&mut out, l);
                push_char(&mut out, '\r');
                push_char(&mut out, '\n');
                assert(out@ =~= before + merged_line(ls, i as int, ov));
                assert forall|j: int| 0 <= j < ov.len() implies #[trigger] used@[j]
                    == key_in_lines(ls, i + 1, ov[j].0@) by {
                    if key_in_lines(ls, i + 1, ov[j].0@) {
                        let w = choose|w: int| 0 <= w < i + 1 && line_key(ls[w]) == Some(ov[j].0@);
                        assert(w != i);
                    }
                    if key_in_lines(ls, i as int, ov[j].0@) {
                        let w = choose|w: int| 0 <= w < i && line_key(ls[w]) == Some(ov[j].0@);
                        assert(0 <= w < i + 1);
                    }
                }
            },
        }
        i = i + 1;
    }
    let ghost head = out@;
    let mut m: usize = 0;
    while m < values.len()
        invariant
            m <= values@.len(),
            ov == values@,
            ls == file_lines(content@),
            lines@.len() == ls.len(),
            used@.len() == ov.len(),
            forall|j: int| 0 <= j < ov.len() ==> #[trigger] used@[j] == key_in_lines(ls, ls.len() as int, ov[j].0@),
            out@ == head + appended_lines(ls, ov, m as nat),
        decreases values@.len() - m,
    {
        let ghost before = out@;
        if !used[m] {
            append_chars(&mut out, &chars_of(values[m].0.as_str()));
            push_char(&mut out, '=');
            values[m].1.to_prop_value(&mut out);
            push_char(&mut out, '\r');
            push_char(&mut out, '\n');
        }
        assert(out@ =~= head + appended_lines(ls, ov, (m + 1) as nat));
        m = m + 1;
    }
    out
}

} // verus!
