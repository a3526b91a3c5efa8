//! The version catalogue page: the versions it lists and the link to a version's server
//! image, and the JSON list of versions offered to clients.
use vstd::prelude::*;
use crate::propfile::{index_of, find_char, lemma_index_of_bound};
use crate::text::{append_comma_separated, chars_of, comma_join, slice_chars, string_of, views_of};

verus! {

/// `pat` stands in `s` at position `i`.
pub open spec fn matches_at(s: Seq<char>, i: int, pat: Seq<char>) -> bool {
    0 <= i && i + pat.len() <= s.len() && s.subrange(i, i + pat.len()) == pat
}

/// The first position at or after `i` where `pat` stands in `s`, or -1.
pub open spec fn find_from(s: Seq<char>, pat: Seq<char>, i: int) -> int
    decreases s.len() - i,
{
    if i < 0 || i + pat.len() > s.len() {
        -1
    } else if pat.len() == 0 || matches_at(s, i, pat) {
        i
    } else {
        find_from(s, pat, i + 1)
    }
}

proof fn lemma_find_from_bounds(s: Seq<char>, pat: Seq<char>, i: int)
    ensures
        find_from(s, pat, i) == -1 || (i <= find_from(s, pat, i) && find_from(s, pat, i) + pat.len() <= s.len()
            && matches_at(s, find_from(s, pat, i), pat)),
    decreases s.len() - i,
{
    if !(i < 0 || i + pat.len() > s.len()) && !(pat.len() == 0 || matches_at(s, i, pat)) {
        lemma_find_from_bounds(s, pat, i + 1);
    } else if pat.len() == 0 && 0 <= i <= s.len() {
        assert(s.subrange(i, i) =~= pat);
    }
}

/// The first position at or after `from` where `pat` stands in `s`.
pub fn find_str(s: &Vec<char>, pat: &Vec<char>, from: usize) -> (r: Option<usize>)
    requires
        from <= s@.len(),
    ensures
        match r {
            Some(q) => find_from(s@, pat@, from as int) == q as int,
            None => find_from(s@, pat@, from as int) == -1,
        },
{
    let n = s.len();
    let m = pat.len();
    if m > n {
        return None;
    }
    let mut i = from;
    while i <= n - m
        invariant
            from <= i,
            m <= n,
            n == s@.len(),
            m == pat@.len(),
            find_from(s@, pat@, from as int) == find_from(s@, pat@, i as int),
        decreases n - i + 1,
    {
        let mut k: usize = 0;
        while k < m && s[i + k] == pat[k]
            invariant
                k <= m,
                i + m <= n,
                n == s@.len(),
                m == pat@.len(),
                forall|j: int| 0 <= j < k ==> s@[i + j] == pat@[j],
            decreases m - k,
        {
            k = k + 1;
        }
        if k == m {
            assert(s@.subrange(i as int, i + m) =~= pat@);
            return Some(i);
        }
        assert(s@.subrange(i as int, i + m)[k as int] != pat@[k as int]);
        i = i + 1;
    }
    None
}

#[via_fn]
proof fn parts_from_decreases(s: Seq<char>, d: Seq<char>, p: int) {
    lemma_find_from_bounds(s, d, p);
}

/// The pieces of `s` from `p` on between occurrences of `d`, as `str::split` yields them.
pub open spec fn parts_from(s: Seq<char>, d: Seq<char>, p: int) -> Seq<Seq<char>>
    decreases s.len() - p when d.len() > 0 && 0 <= p <= s.len() via parts_from_decreases
{
    let q = find_from(s, d, p);
    if q < 0 {
        seq![s.subrange(p, s.len() as int)]
    } else {
        seq![s.subrange(p, q)] + parts_from(s, d, q + d.len())
    }
}

/// What follows each occurrence of `d` in `s`, up to the next: `s.split(d).skip(1)`.
pub open spec fn parts_after(s: Seq<char>, d: Seq<char>) -> Seq<Seq<char>> {
    let q = find_from(s, d, 0);
    if q < 0 {
        Seq::empty()
    } else {
        parts_from(s, d, q + d.len())
    }
}

/// The pieces of `s` after each occurrence of `d`: `s.split(d).skip(1)`.
pub fn split_after(s: &Vec<char>, d: &Vec<char>) -> (r: Vec<Vec<char>>)
    requires
        d@.len() > 0,
    ensures
        r@.len() == parts_after(s@, d@).len(),
        forall|i: int| 0 <= i < r@.len() ==> #[trigger] r@[i]@ == parts_after(s@, d@)[i],
{
    let n = s.len();
    let mut r: Vec<Vec<char>> = Vec::new();
    let first = find_str(s, d, 0);
    proof {
        lemma_find_from_bounds(s@, d@, 0);
    }
    let mut p = match first {
        None => {
            return r;
        },
        Some(q) => q + d.len(),
    };
    let ghost mut done: Seq<Seq<char>> = Seq::empty();
    assert(parts_after(s@, d@) =~= done + parts_from(s@, d@, p as int));
    loop
        invariant
            p <= n,
            n == s@.len(),
            d@.len() > 0,
            parts_after(s@, d@) == done + parts_from(s@, d@, p as int),
            r@.len() == done.len(),
            forall|i: int| 0 <= i < r@.len() ==> #[trigger] r@[i]@ == done[i],
        decreases n - p,
    {
        let next = find_str(s, d, p);
        proof {
            lemma_find_from_bounds(s@, d@, p as int);
        }
        match next {
            None => {
                let part = slice_chars(s, p, n);
                r.push(part);
                proof {
                    done = done.push(part@);
                }
                assert(parts_after(s@, d@) =~= done);
                return r;
            },
            Some(q) => {
                let part = slice_chars(s, p, q);
                r.push(part);
                proof {
                    done = done.push(part@);
                }
                assert(parts_after(s@, d@) =~= done + parts_from(s@, d@, q + d@.len()));
                p = q + d.len();
            },
        }
    }
}

/// The version a catalogue entry names: its text up to the closing quote, where it
/// starts with a digit.
pub open spec fn entry_version(part: Seq<char>) -> Option<Seq<char>> {
    if part.len() > 0 && '0' <= part[0] && part[0] <= '9' {
        let e = index_of(part, '"') as int;
        if e < part.len() {
            Some(part.subrange(0, e))
        } else {
            None
        }
    } else {
        None
    }
}

/// The versions the entries name, in order.
pub open spec fn listed_versions(parts: Seq<Seq<char>>) -> Seq<Seq<char>>
    decreases parts.len(),
{
    if parts.len() == 0 {
        Seq::empty()
    } else {
        let p = listed_versions(parts.drop_last());
        match entry_version(parts.last()) {
            Some(v) => p.push(v),
            None => p,
        }
    }
}

/// Position of the first element equal to `v`, or -1.
pub open spec fn first_index(list: Seq<Seq<char>>, v: Seq<char>) -> int
    decreases list.len(),
{
    if list.len() == 0 {
        -1
    } else if list.last() == v && first_index(list.drop_last(), v) < 0 {
        list.len() - 1
    } else {
        first_index(list.drop_last(), v)
    }
}

/// `list` without its first element equal to `v`.
pub open spec fn remove_first(list: Seq<Seq<char>>, v: Seq<char>) -> Seq<Seq<char>> {
    let j = first_index(list, v);
    if j < 0 {
        list
    } else {
        list.remove(j)
    }
}

/// `existing` without the versions of `listed`, each taken out once.
pub open spec fn unlisted(existing: Seq<Seq<char>>, listed: Seq<Seq<char>>) -> Seq<Seq<char>>
    decreases listed.len(),
{
    if listed.len() == 0 {
        existing
    } else {
        remove_first(unlisted(existing, listed.drop_last()), listed.last())
    }
}

pub open spec fn quoted(v: Seq<char>) -> Seq<char> {
    seq!['"'] + v + seq!['"']
}

/// The versions offered to clients as a JSON array: those the catalogue page lists,
/// then the installed ones it does not list.
pub open spec fn versions_json(page: Seq<char>, existing: Seq<Seq<char>>) -> Seq<char> {
    let listed = listed_versions(parts_after(page, "data-version=\""@));
    let all = listed + unlisted(existing, listed);
    "["@ + comma_join(all.map_values(|v: Seq<char>| quoted(v))) + "]"@
}

proof fn lemma_first_index(list: Seq<Seq<char>>, v: Seq<char>, j: int)
    requires
        0 <= j <= list.len(),
        forall|i: int| 0 <= i < j ==> list[i] != v,
        j < list.len() ==> list[j] == v,
    ensures
        first_index(list, v) == if j < list.len() { j } else { -1 },
    decreases list.len(),
{
    if list.len() > 0 {
        let d = list.drop_last();
        if j < list.len() - 1 {
            lemma_first_index(d, v, j);
            lemma_first_index_prefix(list, v, j);
        } else if j == list.len() - 1 {
            lemma_first_index(d, v, j);
        } else {
            lemma_first_index(d, v, j - 1);
        }
    }
}

proof fn lemma_first_index_prefix(list: Seq<Seq<char>>, v: Seq<char>, j: int)
    requires
        0 <= j < list.len() - 1,
        first_index(list.drop_last(), v) == j,
    ensures
        first_index(list, v) == j,
{
}

fn quoted_string(v: &String) -> (r: String)
    ensures
        r@ == quoted(v@),
{
    let mut out = String::from_str("\"");
    out.append(v.as_str());
    out.append("\"");
    proof {
        reveal_strlit("\"");
    }
    assert(out@ =~= quoted(v@));
    out
}

/// The JSON array of versions: those the catalogue page lists, then the installed ones
/// (`existing`) it does not list.
pub fn version_list(page: &str, existing: Vec<String>) -> (r: String)
    ensures
        r@ == versions_json(page@, views_of(existing@)),
{
    let s = chars_of(page);
    let d = chars_of("data-version=\"");
    proof {
        reveal_strlit("data-version=\"");
    }
    let parts = split_after(&s, &d);
    let ghost ps = parts_after(page@, "data-version=\""@);
    let mut rest = existing;
    let ghost initial = views_of(rest@);
    let mut listed: Vec<String> = Vec::new();
    let mut i: usize = 0;
    while i < parts.len()
        invariant
            i <= parts@.len(),
            ps == parts_after(page@, "data-version=\""@),
            parts@.len() == ps.len(),
            forall|j: int| 0 <= j < parts@.len() ==> #[trigger] parts@[j]@ == ps[j],
            views_of(listed@) == listed_versions(ps.subrange(0, i as int)),
            views_of(rest@) == unlisted(initial, views_of(listed@)),
        decreases parts@.len() - i,
    {
        let part = &parts[i];
        assert(ps.subrange(0, i + 1).drop_last() =~= ps.subrange(0, i as int));
        assert(ps.subrange(0, i + 1).last() == part@);
        if part.len() > 0 && '0' <= part[0] && part[0] <= '9' {
            let e = find_char(part, 0, '"');
            assert(part@.subrange(0, part@.len() as int) =~= part@);
            if e < part.len() {
                let version = string_of(&slice_chars(part, 0, e));
                let ghost before = views_of(rest@);
                let mut j: usize = 0;
                while j < rest.len() && rest[j] != version
                    invariant
                        j <= rest@.len(),
                        forall|k: int| 0 <= k < j ==> rest@[k]@ != version@,
                    decreases rest@.len() - j,
                {
                    j = j + 1;
                }
                proof {
                    lemma_first_index(before, version@, j as int);
                }
                if j < rest.len() {
                    rest.remove(j);
                    assert(views_of(rest@) =~= before.remove(j as int));
                }
                let ghost l0 = views_of(listed@);
                listed.push(version);
                assert(views_of(listed@) =~= l0.push(version@));
                assert(views_of(listed@).drop_last() =~= l0);
            }
        }
        i = i + 1;
    }
    assert(ps.subrange(0, parts@.len() as int) =~= ps);
    let mut items: Vec<String> = Vec::new();
    let mut k: usize = 0;
    while k < listed.len()
        invariant
            k <= listed@.len(),
            items@.len() == k,
            forall|j: int| 0 <= j < k ==> (#[trigger] items@[j])@ == quoted(listed@[j]@),
        decreases listed@.len() - k,
    {
        items.push(quoted_string(&listed[k]));
        k = k + 1;
    }
    let mut k: usize = 0;
    while k < rest.len()
        invariant
            k <= rest@.len(),
            items@.len() == listed@.len() + k,
            forall|j: int| 0 <= j < listed@.len() ==> (#[trigger] items@[j])@ == quoted(listed@[j]@),
            forall|j: int| 0 <= j < k ==> (#[trigger] items@[listed@.len() + j])@ == quoted(rest@[j]@),
        decreases rest@.len() - k,
    {
        items.push(quoted_string(&rest[k]));
        k = k + 1;
    }
    let ghost all = views_of(listed@) + views_of(rest@);
    assert forall|j: int| 0 <= j < items@.len() implies #[trigger] views_of(items@)[j] == all.map_values(
        |v: Seq<char>| quoted(v),
    )[j] by {
        if j >= listed@.len() {
            assert(items@[listed@.len() + (j - listed@.len())] == items@[j]);
        }
    }
    assert(views_of(items@) =~= all.map_values(|v: Seq<char>| quoted(v)));
    let mut out = String::from_str("[");
    append_comma_separated(&items, &mut out);
    out.append("]");
    out
}

/// The link of a catalogue tag whose text is the server image's download label: the
/// `href` value among the attributes before that label.
pub open spec fn tag_link(tag: Seq<char>) -> Option<Seq<char>> {
    let a = find_from(tag, ">Download Server Jar</a>"@, 0);
    if a < 0 {
        None
    } else {
        let attrs = tag.subrange(0, a);
        let h = find_from(attrs, "href=\""@, 0);
        if h < 0 {
            None
        } else {
            let href = attrs.subrange(h + "href=\""@.len(), attrs.len() as int);
            let e = index_of(href, '"') as int;
            if e < href.len() {
                Some(href.subrange(0, e))
            } else {
                None
            }
        }
    }
}

/// The first link that the tags yield.
pub open spec fn first_link(tags: Seq<Seq<char>>) -> Option<Seq<char>>
    decreases tags.len(),
{
    if tags.len() == 0 {
        None
    } else {
        match tag_link(tags[0]) {
            Some(l) => Some(l),
            None => first_link(tags.drop_first()),
        }
    }
}

fn link_of_tag(tag: &Vec<char>, label: &Vec<char>, href: &Vec<char>) -> (r: Option<String>)
    requires
        label@ == ">Download Server Jar</a>"@,
        href@ == "href=\""@,
    ensures
        match tag_link(tag@) {
            Some(l) => r matches Some(x) && x@ == l,
            None => r is None,
        },
{
    proof {
        lemma_find_from_bounds(tag@, label@, 0);
    }
    let a = match find_str(tag, label, 0) {
        None => {
            return None;
        },
        Some(a) => a,
    };
    let attrs = slice_chars(tag, 0, a);
    proof {
        lemma_find_from_bounds(attrs@, href@, 0);
    }
    let h = match find_str(&attrs, href, 0) {
        None => {
            return None;
        },
        Some(h) => h,
    };
    let rest = slice_chars(&attrs, h + href.len(), attrs.len());
    let e = find_char(&rest, 0, '"');
    assert(rest@.subrange(0, rest@.len() as int) =~= rest@);
    if e < rest.len() {
        Some(string_of(&slice_chars(&rest, 0, e)))
    } else {
        None
    }
}

/// The link to a version's server image on its catalogue page: the first anchor tag
/// whose text is the download label and that has an `href`.
pub fn download_link(page: &str) -> (r: Option<String>)
    ensures
        match first_link(parts_after(page@, "<a "@)) {
            Some(l) => r matches Some(x) && x@ == l,
            None => r is None,
        },
{
    let s = chars_of(page);
    let d = chars_of("<a ");
    proof {
        reveal_strlit("<a ");
    }
    let label = chars_of(">Download Server Jar</a>");
    let href = chars_of("href=\"");
    let tags = split_after(&s, &d);
    let ghost ts = parts_after(page@, "<a "@);
    let mut i: usize = 0;
    assert(ts.subrange(0, ts.len() as int) =~= ts);
    while i < tags.len()
        invariant
            i <= tags@.len(),
            ts == parts_after(page@, "<a "@),
            tags@.len() == ts.len(),
            forall|j: int| 0 <= j < tags@.len() ==> #[trigger] tags@[j]@ == ts[j],
            label@ == ">Download Server Jar</a>"@,
            href@ == "href=\""@,
            first_link(ts) == first_link(ts.subrange(i as int, ts.len() as int)),
        decreases tags@.len() - i,
    {
        assert(ts.subrange(i as int, ts.len() as int)[0] == ts[i as int]);
        assert(ts.subrange(i as int, ts.len() as int).drop_first() =~= ts.subrange(i + 1, ts.len() as int));
        if let Some(link) = link_of_tag(&tags[i], &label, &href) {
            return Some(link);
        }
        i = i + 1;
    }
    None
}

} // verus!
