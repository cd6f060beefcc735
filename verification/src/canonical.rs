//! Order-free snapshots: a list is rendered by its items' texts sorted
//! lexicographically and joined by newlines, so the order the server
//! happened to list them in is not part of the snapshot, their content is.

use vstd::prelude::*;
use vstd::relations::{sorted_by, total_ordering};
use crate::text::{chars_of, joined, push_char, push_signed, push_str, signed_digits, string_from_chars, views};

verus! {

broadcast use vstd::seq_lib::group_to_multiset_ensures;

/// Lexicographic order on texts, by code point (the order of their UTF-8
/// bytes): a proper prefix comes first.
pub open spec fn lex_le(a: Seq<char>, b: Seq<char>) -> bool
    decreases a.len(),
{
    if a.len() == 0 {
        true
    } else if b.len() == 0 {
        false
    } else if a[0] != b[0] {
        (a[0] as u32) < (b[0] as u32)
    } else {
        lex_le(a.drop_first(), b.drop_first())
    }
}

/// The lexicographic order as a relation.
pub open spec fn lex() -> spec_fn(Seq<char>, Seq<char>) -> bool {
    |a: Seq<char>, b: Seq<char>| lex_le(a, b)
}

proof fn lemma_lex_reflexive(a: Seq<char>)
    ensures
        lex_le(a, a),
    decreases a.len(),
{
    if a.len() > 0 {
        lemma_lex_reflexive(a.drop_first());
    }
}

proof fn lemma_lex_antisymmetric(a: Seq<char>, b: Seq<char>)
    requires
        lex_le(a, b),
        lex_le(b, a),
    ensures
        a == b,
    decreases a.len(),
{
    if a.len() > 0 {
        lemma_lex_antisymmetric(a.drop_first(), b.drop_first());
        assert(a =~= seq![a[0]] + a.drop_first());
        assert(b =~= seq![b[0]] + b.drop_first());
    } else {
        assert(a =~= b);
    }
}

proof fn lemma_lex_transitive(a: Seq<char>, b: Seq<char>, c: Seq<char>)
    requires
        lex_le(a, b),
        lex_le(b, c),
    ensures
        lex_le(a, c),
    decreases a.len(),
{
    if a.len() > 0 && b.len() > 0 && c.len() > 0 && a[0] == b[0] && b[0] == c[0] {
        lemma_lex_transitive(a.drop_first(), b.drop_first(), c.drop_first());
    }
}

proof fn lemma_lex_total(a: Seq<char>, b: Seq<char>)
    ensures
        lex_le(a, b) || lex_le(b, a),
    decreases a.len(),
{
    if a.len() > 0 && b.len() > 0 {
        if a[0] == b[0] {
            lemma_lex_total(a.drop_first(), b.drop_first());
        } else {
            vstd::utf8::char_u32_cast(a[0], a[0] as u32);
            vstd::utf8::char_u32_cast(b[0], b[0] as u32);
        }
    }
}

/// The lexicographic order is a total order.
pub proof fn lemma_lex_total_ordering()
    ensures
        total_ordering(lex()),
{
    assert forall|x: Seq<char>| #[trigger] (lex())(x, x) by {
        lemma_lex_reflexive(x);
    }
    assert forall|x: Seq<char>, y: Seq<char>| #[trigger] (lex())(x, y) && #[trigger] (lex())(y, x)
        implies x == y by {
        lemma_lex_antisymmetric(x, y);
    }
    assert forall|x: Seq<char>, y: Seq<char>, z: Seq<char>|
        #[trigger] (lex())(x, y) && #[trigger] (lex())(y, z) implies (lex())(x, z) by {
        lemma_lex_transitive(x, y, z);
    }
    assert forall|x: Seq<char>, y: Seq<char>| #[trigger] (lex())(x, y) || #[trigger] (lex())(y, x) by {
        lemma_lex_total(x, y);
    }
}

/// Is `a` lexicographically at most `b`?
pub fn lex_le_exec(a: &[char], b: &[char]) -> (r: bool)
    ensures
        r == lex_le(a@, b@),
{
    let mut i: usize = 0;
    assert(a@.skip(0) =~= a@);
    assert(b@.skip(0) =~= b@);
    while i < a.len() && i < b.len()
        invariant
            i <= a@.len(),
            i <= b@.len(),
            lex_le(a@, b@) == lex_le(a@.skip(i as int), b@.skip(i as int)),
        decreases a@.len() - i,
    {
        assert(a@.skip(i as int)[0] == a@[i as int]);
        assert(b@.skip(i as int)[0] == b@[i as int]);
        if a[i] != b[i] {
            return (a[i] as u32) < (b[i] as u32);
        }
        assert(a@.skip(i as int).drop_first() =~= a@.skip(i + 1));
        assert(b@.skip(i as int).drop_first() =~= b@.skip(i + 1));
        i = i + 1;
    }
    i == a.len()
}

/// The texts of a list of character vectors.
pub open spec fn texts(v: Seq<Vec<char>>) -> Seq<Seq<char>> {
    v.map_values(|x: Vec<char>| x@)
}

/// The texts of `lines`, sorted lexicographically.
pub(crate) fn sorted_texts(lines: &[String]) -> (out: Vec<Vec<char>>)
    ensures
        texts(out@) == views(lines@).sort_by(lex()),
{
    let ghost src = views(lines@);
    let mut out: Vec<Vec<char>> = Vec::new();
    let mut i: usize = 0;
    proof {
        lemma_lex_total_ordering();
    }
    assert(src.take(0) =~= Seq::<Seq<char>>::empty());
    assert(texts(out@) =~= Seq::<Seq<char>>::empty());
    while i < lines.len()
        invariant
            i <= lines@.len(),
            src == views(lines@),
            total_ordering(lex()),
            sorted_by(texts(out@), lex()),
            texts(out@).to_multiset() == src.take(i as int).to_multiset(),
        decreases lines@.len() - i,
    {
        let x = chars_of(lines[i].as_str());
        let mut p: usize = 0;
        while p < out.len() && lex_le_exec(&out[p], &x)
            invariant
                p <= out@.len(),
                forall|k: int| 0 <= k < p ==> lex_le(#[trigger] texts(out@)[k], x@),
            decreases out@.len() - p,
        {
            p = p + 1;
        }
        let ghost before = texts(out@);
        proof {
            if p < out@.len() {
                lemma_lex_total(before[p as int], x@);
            }
        }
        out.insert(p, x);
        proof {
            let now = texts(out@);
            assert(now =~= before.insert(p as int, x@));
            assert(now.remove(p as int) =~= before);
            assert forall|a: int, b: int| 0 <= a < b < now.len() implies #[trigger] (lex())(
                now[a],
                now[b],
            ) by {
                if b < p {
                    assert((lex())(before[a], before[b]));
                } else if b == p {
                } else if a < p {
                    assert((lex())(before[a], before[b - 1]));
                } else if a == p {
                    if b - 1 > p {
                        assert((lex())(before[p as int], before[b - 1]));
                        lemma_lex_transitive(x@, before[p as int], before[b - 1]);
                    }
                } else {
                    assert((lex())(before[a - 1], before[b - 1]));
                }
            }
            assert(src.take(i + 1) =~= src.take(i as int).push(x@));
        }
        i = i + 1;
    }
    proof {
        assert(src.take(src.len() as int) =~= src);
        src.lemma_sort_by_ensures(lex());
        vstd::seq_lib::lemma_sorted_unique(texts(out@), src.sort_by(lex()), lex());
    }
    out
}

/// The canonical text of a list: its items' texts, sorted, one per line.
pub open spec fn canonical_spec(items: Seq<Seq<char>>) -> Seq<char> {
    joined(items.sort_by(lex()), "\n"@)
}

/// Render a list order-free: its items' texts sorted lexicographically and
/// joined by newlines.
pub fn canonical_text(lines: &[String]) -> (out: String)
    ensures
        out@ == canonical_spec(views(lines@)),
{
    let sorted = sorted_texts(lines);
    let ghost ts = texts(sorted@);
    let mut out = String::new();
    let mut i: usize = 0;
    assert(ts.take(0) =~= Seq::<Seq<char>>::empty());
    while i < sorted.len()
        invariant
            i <= sorted@.len(),
            ts == texts(sorted@),
            out@ == joined(ts.take(i as int), "\n"@),
        decreases sorted@.len() - i,
    {
        let ghost before = out@;
        if i > 0 {
            push_char(&mut out, '\n');
        }
        let part = string_from_chars(&sorted[i]);
        push_str(&mut out, part.as_str());
        proof {
            reveal_strlit("\n");
            let next = ts.take(i + 1);
            assert(next.drop_last() =~= ts.take(i as int));
            assert(next.last() == sorted@[i as int]@);
            if i == 0 {
                assert(out@ =~= next[0]);
            } else {
                assert(out@ =~= joined(ts.take(i as int), "\n"@) + "\n"@ + next.last());
            }
        }
        i = i + 1;
    }
    assert(ts.take(ts.len() as int) =~= ts);
    out
}

/// One snapshot section: the list's reported total, then its canonical
/// text.
pub open spec fn section_spec(total: i64, items: Seq<Seq<char>>) -> Seq<char> {
    "total="@ + signed_digits(total as int) + "\n"@ + canonical_spec(items)
}

/// The text of one snapshot section (`total=<n>` and the canonical list).
pub fn section_text(total: i64, lines: &[String]) -> (out: String)
    ensures
        out@ == section_spec(total, views(lines@)),
{
    let mut out = String::new();
    push_str(&mut out, "total=");
    push_signed(&mut out, total);
    push_char(&mut out, '\n');
    let body = canonical_text(lines);
    push_str(&mut out, body.as_str());
    proof {
        reveal_strlit("total=");
        reveal_strlit("\n");
    }
    out
}

/// The order a list comes in never shows in its snapshot: two lists with
/// the same items, in any order, render the same canonical text (and so
/// the same section).
pub proof fn law_canonical_ignores_order(a: Seq<Seq<char>>, b: Seq<Seq<char>>, total: i64)
    requires
        a.to_multiset() == b.to_multiset(),
    ensures
        canonical_spec(a) == canonical_spec(b),
        section_spec(total, a) == section_spec(total, b),
{
    lemma_lex_total_ordering();
    a.lemma_sort_by_ensures(lex());
    b.lemma_sort_by_ensures(lex());
    vstd::seq_lib::lemma_sorted_unique(a.sort_by(lex()), b.sort_by(lex()), lex());
}

} // verus!
