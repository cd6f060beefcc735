//! Prometheus text exposition: splitting a scrape body into
//! `(metric key, value token)` entries, and the pool-metric filter.
//!
//! A line holds `name{labels} value [timestamp]`. Comments (`#`) and blank
//! lines are skipped; a line whose key is not followed by a value is
//! ignored. The metric key ends at the first whitespace outside a
//! `{...}` label block, since label values may contain spaces.

use vstd::prelude::*;
use crate::text::{
    before_char, chars_of, contains_seq, is_whitespace, is_ws, leading_ws, str_contains,
    string_of_range, take_before, trim_chars, trimmed,
};

verus! {

/// `s` cut at every `c` (as `str::split` does): always at least one piece.
pub open spec fn split_on(s: Seq<char>, c: char) -> Seq<Seq<char>>
    decreases s.len(),
{
    if s.len() == 0 {
        seq![Seq::empty()]
    } else {
        let init = split_on(s.drop_last(), c);
        if s.last() == c {
            init.push(Seq::empty())
        } else {
            init.update(init.len() - 1, init.last().push(s.last()))
        }
    }
}

/// Is index `i` of `t` inside a `{...}` label block, judging by the braces
/// before it?
pub open spec fn in_labels_before(t: Seq<char>, i: int) -> bool
    decreases i,
{
    if i <= 0 {
        false
    } else if t[i - 1] == '{' {
        true
    } else if t[i - 1] == '}' {
        false
    } else {
        in_labels_before(t, i - 1)
    }
}

/// Does the metric key of `t` end at index `i`?
pub open spec fn key_ends_at(t: Seq<char>, i: int) -> bool {
    0 <= i < t.len() && is_ws(t[i]) && !in_labels_before(t, i)
}

/// The number of leading non-whitespace characters of `s`.
pub open spec fn word_len(s: Seq<char>) -> nat
    decreases s.len(),
{
    if s.len() == 0 || is_ws(s[0]) {
        0
    } else {
        1 + word_len(s.drop_first())
    }
}

/// The first whitespace-delimited token of `s`.
pub open spec fn first_token(s: Seq<char>) -> Seq<char> {
    let r = s.skip(leading_ws(s) as int);
    r.take(word_len(r) as int)
}

/// The first index at which the metric key of `t` ends (meaningful when
/// there is one).
pub open spec fn key_end(t: Seq<char>) -> int {
    choose|i: int| key_ends_at(t, i) && forall|j: int| 0 <= j < i ==> !key_ends_at(t, j)
}

/// What one line of the body contributes: its key and value token, if any.
pub open spec fn line_entry(line: Seq<char>) -> Option<(Seq<char>, Seq<char>)> {
    let t = trimmed(line);
    if t.len() == 0 || t[0] == '#' {
        None
    } else if exists|i: int| key_ends_at(t, i) {
        let i = key_end(t);
        Some((t.take(i), first_token(t.skip(i))))
    } else {
        None
    }
}

/// The entries of a list of lines, in order.
pub open spec fn entries_of(lines: Seq<Seq<char>>) -> Seq<(Seq<char>, Seq<char>)>
    decreases lines.len(),
{
    if lines.len() == 0 {
        Seq::empty()
    } else {
        let e = entries_of(lines.drop_last());
        match line_entry(lines.last()) {
            Some(x) => e.push(x),
            None => e,
        }
    }
}

/// The entries of a scrape body.
pub open spec fn metric_entries_of(body: Seq<char>) -> Seq<(Seq<char>, Seq<char>)> {
    entries_of(split_on(body, '\n'))
}

/// The views of a list of `(key, value)` string pairs.
pub open spec fn pair_views(v: Seq<(String, String)>) -> Seq<(Seq<char>, Seq<char>)> {
    v.map_values(|p: (String, String)| (p.0@, p.1@))
}

/// The first whitespace-delimited token of `s[from..]`.
fn token_at(s: &[char], from: usize) -> (out: String)
    requires
        from <= s@.len(),
    ensures
        out@ == first_token(s@.skip(from as int)),
{
    let ghost rest = s@.skip(from as int);
    let mut a = from;
    assert(rest.skip(0) =~= rest);
    while a < s.len() && is_whitespace(s[a])
        invariant
            from <= a <= s@.len(),
            rest == s@.skip(from as int),
            leading_ws(rest) == (a - from) + leading_ws(s@.skip(a as int)),
        decreases s@.len() - a,
    {
        assert(s@.skip(a as int).drop_first() =~= s@.skip(a + 1));
        assert(s@.skip(a as int)[0] == s@[a as int]);
        a = a + 1;
    }
    proof {
        if a < s@.len() {
            assert(s@.skip(a as int)[0] == s@[a as int]);
        }
        assert(rest.skip(leading_ws(rest) as int) =~= s@.skip(a as int));
    }
    let ghost r = s@.skip(a as int);
    let mut b = a;
    while b < s.len() && !is_whitespace(s[b])
        invariant
            a <= b <= s@.len(),
            r == s@.skip(a as int),
            word_len(r) == (b - a) + word_len(s@.skip(b as int)),
        decreases s@.len() - b,
    {
        assert(s@.skip(b as int).drop_first() =~= s@.skip(b + 1));
        assert(s@.skip(b as int)[0] == s@[b as int]);
        b = b + 1;
    }
    proof {
        if b < s@.len() {
            assert(s@.skip(b as int)[0] == s@[b as int]);
        }
    }
    let out = string_of_range(s, a, b);
    assert(out@ =~= r.take(word_len(r) as int));
    out
}

/// The key and value token of one line, if it has them.
pub fn parse_metric_line(line: &[char]) -> (r: Option<(String, String)>)
    ensures
        match r {
            Some(p) => line_entry(line@) == Some((p.0@, p.1@)),
            None => line_entry(line@) is None,
        },
{
    let t = trim_chars(line);
    if t.len() == 0 || t[0] == '#' {
        return None;
    }
    let mut in_labels = false;
    let mut i: usize = 0;
    while i < t.len()
        invariant
            i <= t@.len(),
            t@ == trimmed(line@),
            t@.len() > 0 && t@[0] != '#',
            in_labels == in_labels_before(t@, i as int),
            forall|j: int| 0 <= j < i ==> !key_ends_at(t@, j),
        decreases t@.len() - i,
    {
        let c = t[i];
        if c == '{' {
            in_labels = true;
        } else if c == '}' {
            in_labels = false;
        } else if is_whitespace(c) && !in_labels {
            let ghost first = i as int;
            assert(key_ends_at(t@, first));
            let key = string_of_range(&t, 0, i);
            let value = token_at(&t, i);
            proof {
                assert(key_ends_at(t@, first) && forall|k: int| 0 <= k < first ==> !key_ends_at(t@, k));
                let chosen = key_end(t@);
                assert(key_ends_at(t@, chosen) && forall|k: int| 0 <= k < chosen ==> !key_ends_at(t@, k));
                if chosen < first {
                    assert(!key_ends_at(t@, chosen));
                } else if chosen > first {
                    assert(!key_ends_at(t@, first));
                }
                assert(chosen == first);
                assert(key@ =~= t@.take(first));
                assert(t@.skip(first) =~= t@.skip(i as int));
                assert(t@ == trimmed(line@));
                assert(t@.len() > 0 && t@[0] != '#');
                assert(exists|j: int| key_ends_at(t@, j));
                assert(line_entry(line@) == Some((t@.take(first), first_token(t@.skip(first)))));
                assert(value@ == first_token(t@.skip(first)));
            }
            return Some((key, value));
        }
        i = i + 1;
    }
    None
}

/// Split a scrape body into `(key, value token)` entries, one per metric
/// line, in order.
pub fn metric_entries(body: &str) -> (out: Vec<(String, String)>)
    ensures
        pair_views(out@) == metric_entries_of(body@),
{
    let cs = chars_of(body);
    let mut out: Vec<(String, String)> = Vec::new();
    let mut cur: Vec<char> = Vec::new();
    let mut k: usize = 0;
    assert(cs@.take(0) =~= Seq::<char>::empty());
    while k < cs.len()
        invariant
            k <= cs@.len(),
            split_on(cs@.take(k as int), '\n').len() >= 1,
            cur@ == split_on(cs@.take(k as int), '\n').last(),
            pair_views(out@) == entries_of(split_on(cs@.take(k as int), '\n').drop_last()),
        decreases cs@.len() - k,
    {
        let ghost before = split_on(cs@.take(k as int), '\n');
        let ghost next = cs@.take(k + 1);
        assert(next.drop_last() =~= cs@.take(k as int));
        assert(next.last() == cs@[k as int]);
        if cs[k] == '\n' {
            assert(split_on(next, '\n') == before.push(Seq::empty()));
            let ghost old_out = out@;
            match parse_metric_line(&cur) {
                Some(p) => {
                    out.push(p);
                },
                None => {},
            }
            proof {
                assert(before.push(Seq::<char>::empty()).drop_last() =~= before);
                assert(before =~= before.drop_last().push(before.last()));
                assert(pair_views(out@) =~= entries_of(before));
            }
            cur = Vec::new();
        } else {
            let ghost after = before.update(before.len() - 1, before.last().push(cs@[k as int]));
            assert(split_on(next, '\n') == after);
            assert(after.drop_last() =~= before.drop_last());
            cur.push(cs[k]);
        }
        k = k + 1;
    }
    assert(cs@.take(cs@.len() as int) =~= cs@);
    let ghost all = split_on(cs@, '\n');
    match parse_metric_line(&cur) {
        Some(p) => {
            out.push(p);
        },
        None => {},
    }
    proof {
        assert(all =~= all.drop_last().push(all.last()));
        assert(pair_views(out@) =~= entries_of(all));
    }
    out
}

/// Does the metric name (the key before any `{`) mention `pool` or
/// `connection`?
pub open spec fn pool_metric(key: Seq<char>) -> bool {
    let name = before_char(key, '{');
    contains_seq(name, "pool"@) || contains_seq(name, "connection"@)
}

/// The metric-key filter for connection-pool gauges.
pub fn is_pool_metric(key: &str) -> (r: bool)
    ensures
        r == pool_metric(key@),
{
    let name = take_before(key, '{');
    str_contains(name.as_str(), "pool") || str_contains(name.as_str(), "connection")
}

} // verus!
