//! LIKE-style capability globs: `*` matches any (possibly empty) run of
//! characters, every other character matches itself.

use vstd::prelude::*;
use crate::text::{
    chars_of, find_char, find_range, has_prefix, has_suffix, matches_range_at, occurs_at, seq_eq,
};

verus! {

/// `text` matches the glob `pattern`.
pub open spec fn like_match(pattern: Seq<char>, text: Seq<char>) -> bool
    decreases pattern.len() + text.len(),
{
    if pattern.len() == 0 {
        text.len() == 0
    } else if pattern[0] == '*' {
        like_match(pattern.drop_first(), text) || (text.len() > 0 && like_match(
            pattern,
            text.drop_first(),
        ))
    } else {
        text.len() > 0 && text[0] == pattern[0] && like_match(
            pattern.drop_first(),
            text.drop_first(),
        )
    }
}

/// `s` holds no `*`.
pub open spec fn star_free(s: Seq<char>) -> bool {
    forall|i: int| 0 <= i < s.len() ==> s[i] != '*'
}

/// A star-free pattern matches exactly itself.
proof fn lemma_literal(p: Seq<char>, t: Seq<char>)
    requires
        star_free(p),
    ensures
        like_match(p, t) == (p == t),
    decreases p.len() + t.len(),
{
    if p.len() == 0 {
        if t.len() != 0 {
            assert(p != t);
        } else {
            assert(p =~= t);
        }
    } else {
        assert(p[0] != '*');
        assert(star_free(p.drop_first()));
        if t.len() > 0 {
            lemma_literal(p.drop_first(), t.drop_first());
            if p == t {
                assert(p.drop_first() =~= t.drop_first());
            }
            if t[0] == p[0] && p.drop_first() == t.drop_first() {
                assert(p =~= seq![p[0]] + p.drop_first());
                assert(t =~= seq![t[0]] + t.drop_first());
            }
        } else {
            assert(p != t);
        }
    }
}

/// A star-free head must match a prefix of the text literally.
proof fn lemma_literal_head(lit: Seq<char>, rest: Seq<char>, t: Seq<char>)
    requires
        star_free(lit),
    ensures
        like_match(lit + rest, t) == (has_prefix(t, lit) && like_match(
            rest,
            t.skip(lit.len() as int),
        )),
    decreases lit.len(),
{
    if lit.len() == 0 {
        assert(lit + rest =~= rest);
        assert(t.skip(0) =~= t);
        assert(t.subrange(0, 0) =~= lit);
    } else {
        let p = lit + rest;
        assert(p[0] == lit[0]);
        assert(lit[0] != '*');
        assert(p.drop_first() =~= lit.drop_first() + rest);
        assert(star_free(lit.drop_first()));
        if t.len() > 0 {
            lemma_literal_head(lit.drop_first(), rest, t.drop_first());
            if lit.len() <= t.len() {
                assert(t.drop_first().skip(lit.drop_first().len() as int) =~= t.skip(
                    lit.len() as int,
                ));
            }
            if has_prefix(t, lit) {
                assert(t[0] == t.subrange(0, lit.len() as int)[0]);
                assert(t.drop_first().subrange(0, lit.drop_first().len() as int) =~= t.subrange(
                    0,
                    lit.len() as int,
                ).drop_first());
            }
            if t[0] == lit[0] && has_prefix(t.drop_first(), lit.drop_first()) {
                assert(t.subrange(0, lit.len() as int) =~= seq![t[0]] + t.drop_first().subrange(
                    0,
                    lit.drop_first().len() as int,
                ));
                assert(lit =~= seq![lit[0]] + lit.drop_first());
            }
        }
    }
}

/// A leading `*` may absorb any prefix of the text.
proof fn lemma_star_skip(q: Seq<char>, t: Seq<char>, k: int)
    requires
        0 <= k <= t.len(),
        like_match(q, t.skip(k)),
    ensures
        like_match(seq!['*'] + q, t),
    decreases k,
{
    let p = seq!['*'] + q;
    assert(p.drop_first() =~= q);
    if k == 0 {
        assert(t.skip(0) =~= t);
    } else {
        assert(t.drop_first().skip(k - 1) =~= t.skip(k));
        lemma_star_skip(q, t.drop_first(), k - 1);
    }
}

/// A leading `*` matches iff the rest matches some suffix of the text.
proof fn lemma_star_witness(q: Seq<char>, t: Seq<char>) -> (k: int)
    requires
        like_match(seq!['*'] + q, t),
    ensures
        0 <= k <= t.len(),
        like_match(q, t.skip(k)),
    decreases t.len(),
{
    let p = seq!['*'] + q;
    assert(p.drop_first() =~= q);
    if like_match(q, t) {
        assert(t.skip(0) =~= t);
        0
    } else {
        let k1 = lemma_star_witness(q, t.drop_first());
        assert(t.drop_first().skip(k1) =~= t.skip(k1 + 1));
        k1 + 1
    }
}

/// Starting a leading-`*` match earlier in the text never hurts.
proof fn lemma_star_monotone(q: Seq<char>, t: Seq<char>, a: int, b: int)
    requires
        0 <= b <= a <= t.len(),
        like_match(seq!['*'] + q, t.skip(a)),
    ensures
        like_match(seq!['*'] + q, t.skip(b)),
{
    let k = lemma_star_witness(q, t.skip(a));
    assert(t.skip(a).skip(k) =~= t.skip(b).skip(a - b + k));
    lemma_star_skip(q, t.skip(b), a - b + k);
}

/// `*` followed by a star-free tail matches exactly the texts ending in it.
proof fn lemma_star_last(seg: Seq<char>, t: Seq<char>)
    requires
        star_free(seg),
    ensures
        like_match(seq!['*'] + seg, t) == has_suffix(t, seg),
{
    if like_match(seq!['*'] + seg, t) {
        let k = lemma_star_witness(seg, t);
        lemma_literal(seg, t.skip(k));
        assert(t.subrange(t.len() - seg.len(), t.len() as int) =~= t.skip(k));
    }
    if has_suffix(t, seg) {
        let k = t.len() - seg.len();
        assert(t.skip(k) =~= t.subrange(k, t.len() as int));
        lemma_literal(seg, t.skip(k));
        lemma_star_skip(seg, t, k);
    }
}


/// A star-free middle segment after a `*` must occur somewhere in the text.
proof fn lemma_star_mid_witness(seg: Seq<char>, q: Seq<char>, t: Seq<char>) -> (k: int)
    requires
        star_free(seg),
        like_match(seq!['*'] + (seg + q), t),
    ensures
        occurs_at(t, seg, k),
        like_match(q, t.skip(k + seg.len())),
{
    let k = lemma_star_witness(seg + q, t);
    lemma_literal_head(seg, q, t.skip(k));
    assert(t.skip(k).subrange(0, seg.len() as int) =~= t.subrange(k, k + seg.len()));
    assert(t.skip(k).skip(seg.len() as int) =~= t.skip(k + seg.len()));
    k
}

/// Any occurrence of the middle segment followed by a matching rest is a match.
proof fn lemma_star_mid_at(seg: Seq<char>, q: Seq<char>, t: Seq<char>, k: int)
    requires
        star_free(seg),
        occurs_at(t, seg, k),
        like_match(q, t.skip(k + seg.len())),
    ensures
        like_match(seq!['*'] + (seg + q), t),
{
    assert(t.skip(k).subrange(0, seg.len() as int) =~= t.subrange(k, k + seg.len()));
    assert(t.skip(k).skip(seg.len() as int) =~= t.skip(k + seg.len()));
    lemma_literal_head(seg, q, t.skip(k));
    lemma_star_skip(seg + q, t, k);
}

/// LIKE-style match: `*` in `pattern` matches any (possibly empty)
/// sequence; every other character matches itself. Segments between stars
/// are placed leftmost-first, which loses no match.
pub fn glob_match(pattern: &str, text: &str) -> (r: bool)
    ensures
        r == like_match(pattern@, text@),
{
    let p = chars_of(pattern);
    let t = chars_of(text);
    let first_star = find_char(&p, '*', 0);
    let i = match first_star {
        None => {
            proof {
                lemma_literal(p@, t@);
            }
            return seq_eq(&p, &t);
        },
        Some(i) => i,
    };
    proof {
        assert(p@ =~= p@.subrange(0, i as int) + p@.skip(i as int));
        lemma_literal_head(p@.subrange(0, i as int), p@.skip(i as int), t@);
    }
    if !matches_range_at(&t, &p, 0, i, 0) {
        proof {
            assert(t@.subrange(0, i as int) =~= t@.subrange(0, p@.subrange(0, i as int).len() as int));
        }
        return false;
    }
    let plen = p.len();
    assert(i < plen);
    let mut pos: usize = i;
    let mut seg: usize = i + 1;
    loop
        invariant
            1 <= seg <= p@.len(),
            p@[seg - 1] == '*',
            pos <= t@.len(),
            p@.len() == p.len(),
            t@.len() == t.len(),
            like_match(pattern@, text@) == like_match(p@.skip(seg - 1), t@.skip(pos as int)),
            p@ == pattern@,
            t@ == text@,
        decreases p@.len() - seg,
    {
        let ghost tail = t@.skip(pos as int);
        match find_char(&p, '*', seg) {
            None => {
                let ghost last = p@.skip(seg as int);
                proof {
                    assert(p@.skip(seg - 1) =~= seq!['*'] + last);
                    lemma_star_last(last, tail);
                }
                let len = p.len() - seg;
                if len > t.len() - pos {
                    return false;
                }
                let r = matches_range_at(&t, &p, seg, p.len(), t.len() - len);
                proof {
                    assert(p@.subrange(seg as int, p@.len() as int) =~= last);
                    assert(tail.subrange(tail.len() - last.len(), tail.len() as int) =~= t@.subrange(
                        t@.len() - len,
                        t@.len() as int,
                    ));
                }
                return r;
            },
            Some(j) => {
                let ghost mid = p@.subrange(seg as int, j as int);
                let ghost rest = p@.skip(j as int + 1);
                proof {
                    assert(p@.skip(seg - 1) =~= seq!['*'] + (mid + p@.skip(j as int)));
                    assert(p@.skip(j as int) =~= seq!['*'] + rest);
                }
                let len = j - seg;
                let found = find_range(&t, &p, seg, j, pos);
                let k = match found {
                    Some(k) => k,
                    None => {
                    proof {
                        if like_match(p@.skip(seg - 1), tail) {
                            let w = lemma_star_mid_witness(mid, p@.skip(j as int), tail);
                            assert(tail.subrange(w, w + mid.len()) =~= t@.subrange(
                                pos + w,
                                pos + w + mid.len(),
                            ));
                            assert(occurs_at(t@, mid, pos + w));
                        }
                    }
                    return false;
                    },
                };
                proof {
                    let q = p@.skip(j as int);
                    let kk = k - pos;
                    assert(tail.subrange(kk, kk + mid.len()) =~= t@.subrange(
                        k as int,
                        k + mid.len(),
                    ));
                    assert(tail.skip(kk + mid.len()) =~= t@.skip(k + len));
                    if like_match(p@.skip(seg - 1), tail) {
                        let w = lemma_star_mid_witness(mid, q, tail);
                        assert(tail.subrange(w, w + mid.len()) =~= t@.subrange(
                            pos + w,
                            pos + w + mid.len(),
                        ));
                        assert(occurs_at(t@, mid, pos + w));
                        assert(kk <= w);
                        assert(tail.skip(w + mid.len()) =~= t@.skip(pos + w + mid.len()));
                        lemma_star_monotone(rest, t@, pos + w + mid.len(), (k + len) as int);
                    }
                    if like_match(q, t@.skip(k + len)) {
                        lemma_star_mid_at(mid, q, tail, kk);
                    }
                }
                pos = k + len;
                seg = j + 1;
            },
        }
    }
}

} // verus!
