//! The repository lens of a delivery board: the `?repo=` selection, its
//! pruning against the board, which cards it admits, and the lanes it
//! groups by.

use vstd::prelude::*;
use crate::board_data::EntityKind;
use crate::board_rules::{listed, opt_view};
use crate::prom::split_on;
use crate::canonical::{lemma_lex_total_ordering, lex, lex_le, lex_le_exec, sorted_texts, texts};
use crate::text::{chars_of, joined, owned, str_eq, string_clone, views};
use vstd::relations::{sorted_by, total_ordering};

verus! {

/// A card as the lens sees it.
pub struct CardModel {
    pub kind: EntityKind,
    pub short_code: String,
    pub title: String,
    /// The task's work class (tasks only).
    pub work_class: Option<String>,
    /// The bound repository's slug (tasks only).
    pub repository: Option<String>,
}

/// Which repository a lane shows.
pub enum RepoLane {
    /// Every card.
    Any,
    /// Tasks bound to this slug.
    Slug(String),
    /// Cards with no repository.
    Unbound,
}

/// Does the lane admit a card bound to `repository`?
pub open spec fn lane_admits(lane: RepoLane, repository: Option<Seq<char>>) -> bool {
    match lane {
        RepoLane::Any => true,
        RepoLane::Slug(slug) => repository == Some(slug@),
        RepoLane::Unbound => repository is None,
    }
}

impl RepoLane {
    /// Does this lane admit the card?
    pub fn admits(&self, card: &CardModel) -> (r: bool)
        ensures
            r == lane_admits(*self, opt_view(card.repository)),
    {
        match self {
            RepoLane::Any => true,
            RepoLane::Slug(slug) => match &card.repository {
                Some(r) => str_eq(r.as_str(), slug.as_str()),
                None => false,
            },
            RepoLane::Unbound => card.repository.is_none(),
        }
    }
}

/// The non-empty pieces of `segs`, first occurrence of each, in order.
pub open spec fn distinct_nonempty(segs: Seq<Seq<char>>) -> Seq<Seq<char>>
    decreases segs.len(),
{
    if segs.len() == 0 {
        Seq::empty()
    } else {
        let r = distinct_nonempty(segs.drop_last());
        let s = segs.last();
        if s.len() == 0 || r.contains(s) {
            r
        } else {
            r.push(s)
        }
    }
}

/// The slugs a `?repo=a,b` query requests.
pub open spec fn requested_of(query: Option<Seq<char>>) -> Seq<Seq<char>> {
    match query {
        Some(q) => distinct_nonempty(split_on(q, ',')),
        None => Seq::empty(),
    }
}

/// Append `seg` to `out` unless it is empty or already there.
fn add_distinct(out: &mut Vec<String>, seg: &Vec<char>)
    ensures
        views(final(out)@) == if seg@.len() == 0 || views(old(out)@).contains(seg@) {
            views(old(out)@)
        } else {
            views(old(out)@).push(seg@)
        },
{
    if seg.len() == 0 {
        return;
    }
    let s = crate::text::string_from_chars(seg);
    let mut i: usize = 0;
    while i < out.len()
        invariant
            i <= out@.len(),
            s@ == seg@,
            forall|k: int| 0 <= k < i ==> #[trigger] out@[k]@ != seg@,
        decreases out@.len() - i,
    {
        if str_eq(out[i].as_str(), s.as_str()) {
            proof {
                assert(views(out@)[i as int] == seg@);
            }
            return;
        }
        i = i + 1;
    }
    proof {
        assert forall|k: int| 0 <= k < views(out@).len() implies views(out@)[k] != seg@ by {
            assert(out@[k]@ != seg@);
        }
    }
    let ghost before = out@;
    out.push(s);
    assert(views(out@) =~= views(before).push(seg@));
}

/// Parse `?repo=a,b` into the requested slugs: empty pieces dropped,
/// duplicates removed (first occurrence wins, order kept).
pub fn parse_repo_query(query: Option<&str>) -> (r: Vec<String>)
    ensures
        views(r@) == requested_of(
            match query {
                Some(q) => Some(q@),
                None => None,
            },
        ),
{
    let mut out: Vec<String> = Vec::new();
    let q = match query {
        Some(q) => q,
        None => {
            return out;
        },
    };
    let cs = chars_of(q);
    let mut cur: Vec<char> = Vec::new();
    let mut k: usize = 0;
    assert(cs@.take(0) =~= Seq::<char>::empty());
    while k < cs.len()
        invariant
            k <= cs@.len(),
            split_on(cs@.take(k as int), ',').len() >= 1,
            cur@ == split_on(cs@.take(k as int), ',').last(),
            views(out@) == distinct_nonempty(split_on(cs@.take(k as int), ',').drop_last()),
        decreases cs@.len() - k,
    {
        let ghost before = split_on(cs@.take(k as int), ',');
        let ghost next = cs@.take(k + 1);
        assert(next.drop_last() =~= cs@.take(k as int));
        assert(next.last() == cs@[k as int]);
        if cs[k] == ',' {
            assert(split_on(next, ',') == before.push(Seq::empty()));
            add_distinct(&mut out, &cur);
            proof {
                assert(before.push(Seq::<char>::empty()).drop_last() =~= before);
                assert(before =~= before.drop_last().push(before.last()));
            }
            cur = Vec::new();
        } else {
            let ghost after = before.update(before.len() - 1, before.last().push(cs@[k as int]));
            assert(split_on(next, ',') == after);
            assert(after.drop_last() =~= before.drop_last());
            cur.push(cs[k]);
        }
        k = k + 1;
    }
    assert(cs@.take(cs@.len() as int) =~= cs@);
    let ghost all = split_on(cs@, ',');
    add_distinct(&mut out, &cur);
    assert(all =~= all.drop_last().push(all.last()));
    out
}

/// The requested slugs that are on the board, in request order.
pub open spec fn pruned(requested: Seq<Seq<char>>, known: Seq<Seq<char>>) -> Seq<Seq<char>> {
    requested.filter(|s: Seq<char>| known.contains(s))
}

/// Is `s` one of `v` (exec form, over views)?
fn listed_in(v: &[String], s: &str) -> (r: bool)
    ensures
        r == views(v@).contains(s@),
{
    let mut i: usize = 0;
    while i < v.len()
        invariant
            i <= v@.len(),
            forall|k: int| 0 <= k < i ==> #[trigger] v@[k]@ != s@,
        decreases v@.len() - i,
    {
        if str_eq(v[i].as_str(), s) {
            assert(views(v@)[i as int] == s@);
            return true;
        }
        i = i + 1;
    }
    proof {
        if views(v@).contains(s@) {
            let k = choose|k: int| 0 <= k < views(v@).len() && views(v@)[k] == s@;
            assert(v@[k]@ == s@);
        }
    }
    false
}

/// The effective selection: the requested slugs actually on the board.
pub fn prune_repos(requested: &[String], known: &[String]) -> (r: Vec<String>)
    ensures
        views(r@) == pruned(views(requested@), views(known@)),
{
    let ghost pred = |s: Seq<char>| views(known@).contains(s);
    let mut out: Vec<String> = Vec::new();
    let mut i: usize = 0;
    while i < requested.len()
        invariant
            i <= requested@.len(),
            pred == (|s: Seq<char>| views(known@).contains(s)),
            views(out@) == views(requested@).take(i as int).filter(pred),
        decreases requested@.len() - i,
    {
        let keep = listed_in(known, requested[i].as_str());
        proof {
            reveal_with_fuel(Seq::<_>::filter, 1);
            assert(views(requested@).take(i + 1).drop_last() =~= views(requested@).take(i as int));
            assert(views(requested@).take(i + 1).last() == requested@[i as int]@);
        }
        if keep {
            let ghost before = out@;
            out.push(string_clone(&requested[i]));
            assert(views(out@) =~= views(before).push(requested@[i as int]@));
        }
        i = i + 1;
    }
    assert(views(requested@).take(requested@.len() as int) =~= views(requested@));
    out
}

/// Does the lens admit the card? It narrows tasks only; an empty
/// selection admits everything.
pub open spec fn lens_spec(
    kind: EntityKind,
    repository: Option<Seq<char>>,
    selected: Seq<Seq<char>>,
) -> bool {
    selected.len() == 0 || kind != EntityKind::Task || match repository {
        Some(slug) => selected.contains(slug),
        None => false,
    }
}

/// Does the lens admit this card?
pub fn lens_admits(card: &CardModel, selected: &[String]) -> (r: bool)
    ensures
        r == lens_spec(card.kind, opt_view(card.repository), views(selected@)),
{
    if selected.len() == 0 || card.kind != EntityKind::Task {
        return true;
    }
    match &card.repository {
        Some(slug) => listed_in(selected, slug.as_str()),
        None => false,
    }
}

/// The group-by-repository lanes: one per board repository in the
/// effective selection (all of them when nothing is selected), in board
/// order, then the unbound remainder.
pub open spec fn lanes_spec(selected: Seq<Seq<char>>, known: Seq<Seq<char>>) -> Seq<
    Option<Seq<char>>,
> {
    known.filter(|s: Seq<char>| selected.len() == 0 || selected.contains(s)).map_values(
        |s: Seq<char>| Some(s),
    ).push(None)
}

/// The views of a list of optional strings.
pub open spec fn opt_views(v: Seq<Option<String>>) -> Seq<Option<Seq<char>>> {
    v.map_values(|o: Option<String>| opt_view(o))
}

/// The group-by-repository lanes for `selected` over the board's `known`
/// repositories.
pub fn repo_lanes(selected: &[String], known: &[String]) -> (r: Vec<Option<String>>)
    ensures
        opt_views(r@) == lanes_spec(views(selected@), views(known@)),
{
    let ghost pred = |s: Seq<char>| views(selected@).len() == 0 || views(selected@).contains(s);
    let ghost some = |s: Seq<char>| Some(s);
    let mut out: Vec<Option<String>> = Vec::new();
    let mut i: usize = 0;
    while i < known.len()
        invariant
            i <= known@.len(),
            pred == (|s: Seq<char>| views(selected@).len() == 0 || views(selected@).contains(s)),
            some == (|s: Seq<char>| Some(s)),
            opt_views(out@) == views(known@).take(i as int).filter(pred).map_values(some),
        decreases known@.len() - i,
    {
        let keep = selected.len() == 0 || listed_in(selected, known[i].as_str());
        proof {
            reveal_with_fuel(Seq::<_>::filter, 1);
            assert(views(known@).take(i + 1).drop_last() =~= views(known@).take(i as int));
            assert(views(known@).take(i + 1).last() == known@[i as int]@);
            assert(keep == pred(known@[i as int]@));
        }
        let ghost before = out@;
        if keep {
            out.push(Some(string_clone(&known[i])));
            assert(opt_views(out@) =~= opt_views(before).push(Some(known@[i as int]@)));
        }
        assert(opt_views(out@) =~= views(known@).take(i + 1).filter(pred).map_values(some));
        i = i + 1;
    }
    assert(views(known@).take(known@.len() as int) =~= views(known@));
    let ghost before = out@;
    out.push(None);
    assert(opt_views(out@) =~= opt_views(before).push(None));
    out
}

/// The parsed selection never holds an empty slug and never the same slug
/// twice.
pub proof fn law_requested_slugs_are_distinct_and_nonempty(segs: Seq<Seq<char>>)
    ensures
        forall|i: int|
            0 <= i < distinct_nonempty(segs).len() ==> #[trigger] distinct_nonempty(segs)[i].len()
                > 0,
        forall|i: int, j: int|
            0 <= i < j < distinct_nonempty(segs).len() ==> #[trigger] distinct_nonempty(segs)[i]
                != #[trigger] distinct_nonempty(segs)[j],
    decreases segs.len(),
{
    if segs.len() > 0 {
        law_requested_slugs_are_distinct_and_nonempty(segs.drop_last());
        let r = distinct_nonempty(segs.drop_last());
        let d = distinct_nonempty(segs);
        let s = segs.last();
        if !(s.len() == 0 || r.contains(s)) {
            assert forall|i: int, j: int| 0 <= i < j < d.len() implies #[trigger] d[i] != #[trigger] d[j] by {
                if j == d.len() - 1 {
                    assert(d[j] == s);
                    assert(d[i] == r[i]);
                    if d[i] == d[j] {
                        assert(r.contains(s));
                    }
                } else {
                    assert(d[i] == r[i] && d[j] == r[j]);
                }
            }
            assert forall|i: int| 0 <= i < d.len() implies #[trigger] d[i].len() > 0 by {
                if i < r.len() {
                    assert(d[i] == r[i]);
                }
            }
        }
    }
}

/// The effective selection is on the board and in the request, in request
/// order; a request made only of board repositories comes back unchanged
/// (no write-back is due).
pub proof fn law_pruned_selection_is_on_the_board(requested: Seq<Seq<char>>, known: Seq<Seq<char>>)
    ensures
        forall|i: int|
            0 <= i < pruned(requested, known).len() ==> known.contains(
                #[trigger] pruned(requested, known)[i],
            ) && requested.contains(pruned(requested, known)[i]),
        (forall|i: int| 0 <= i < requested.len() ==> known.contains(#[trigger] requested[i]))
            ==> pruned(requested, known) == requested,
{
    let p = |s: Seq<char>| known.contains(s);
    assert forall|i: int| 0 <= i < pruned(requested, known).len() implies known.contains(
        #[trigger] pruned(requested, known)[i],
    ) && requested.contains(pruned(requested, known)[i]) by {
        requested.lemma_filter_pred(p, i);
        assert(requested.filter(p).contains(requested.filter(p)[i]));
        requested.lemma_filter_contains_rev(p, requested.filter(p)[i]);
    }
    if forall|i: int| 0 <= i < requested.len() ==> known.contains(#[trigger] requested[i]) {
        crate::capabilities::lemma_filter_keeps_all(requested, p);
    }
}

/// The group-by lanes end with the unbound lane, and every other lane is a
/// board repository.
pub proof fn law_lanes_are_board_repositories_then_unbound(
    selected: Seq<Seq<char>>,
    known: Seq<Seq<char>>,
)
    ensures
        lanes_spec(selected, known).len() >= 1,
        lanes_spec(selected, known).last() is None,
        forall|i: int|
            0 <= i < lanes_spec(selected, known).len() - 1 ==> (#[trigger] lanes_spec(
                selected,
                known,
            )[i] matches Some(slug) && known.contains(slug)),
{
    let p = |s: Seq<char>| selected.len() == 0 || selected.contains(s);
    let f = known.filter(p);
    let lanes = lanes_spec(selected, known);
    assert forall|i: int| 0 <= i < lanes.len() - 1 implies (#[trigger] lanes[i] matches Some(slug)
        && known.contains(slug)) by {
        assert(lanes[i] == Some(f[i]));
        assert(f.contains(f[i]));
        known.lemma_filter_contains_rev(p, f[i]);
    }
}

/// The repository slugs of the board's task cards, in card order (with
/// repeats).
pub open spec fn repo_slugs(cards: Seq<CardModel>) -> Seq<Seq<char>>
    decreases cards.len(),
{
    if cards.len() == 0 {
        Seq::empty()
    } else {
        let rest = repo_slugs(cards.drop_last());
        let c = cards.last();
        match c.repository {
            Some(r) => if c.kind == EntityKind::Task {
                rest.push(r@)
            } else {
                rest
            },
            None => rest,
        }
    }
}

/// Is `v` strictly ascending in the lexicographic order (sorted, no
/// repeats)?
pub open spec fn strictly_ascending(v: Seq<Seq<char>>) -> bool {
    forall|a: int, b: int| 0 <= a < b < v.len() ==> lex_le(#[trigger] v[a], #[trigger] v[b]) && v[a] != v[b]
}

/// The slugs of the board's task cards, sorted, each once: the lens chips.
pub fn board_repos(cards: &[CardModel]) -> (r: Vec<String>)
    ensures
        strictly_ascending(views(r@)),
        forall|k: Seq<char>| views(r@).contains(k) <==> repo_slugs(cards@).contains(k),
{
    let mut slugs: Vec<String> = Vec::new();
    let mut i: usize = 0;
    while i < cards.len()
        invariant
            i <= cards@.len(),
            views(slugs@) == repo_slugs(cards@.take(i as int)),
        decreases cards@.len() - i,
    {
        assert(cards@.take(i + 1).drop_last() =~= cards@.take(i as int));
        assert(cards@.take(i + 1).last() == cards@[i as int]);
        let c = &cards[i];
        match &c.repository {
            Some(r) => {
                if c.kind == EntityKind::Task {
                    slugs.push(string_clone(r));
                    assert(views(slugs@) =~= repo_slugs(cards@.take(i + 1)));
                }
            },
            None => {},
        }
        i = i + 1;
    }
    assert(cards@.take(cards@.len() as int) =~= cards@);
    let sorted = sorted_texts(slugs.as_slice());
    let ghost ts = texts(sorted@);
    proof {
        lemma_lex_total_ordering();
        views(slugs@).lemma_sort_by_ensures(lex());
    }
    let mut out: Vec<String> = Vec::new();
    let mut j: usize = 0;
    while j < sorted.len()
        invariant
            j <= sorted@.len(),
            ts == texts(sorted@),
            ts == views(slugs@).sort_by(lex()),
            total_ordering(lex()),
            sorted_by(ts, lex()),
            strictly_ascending(views(out@)),
            forall|a: int| 0 <= a < out@.len() ==> exists|k: int| 0 <= k < j && #[trigger] ts[k] == #[trigger] out@[a]@,
            forall|k: int| 0 <= k < j ==> views(out@).contains(#[trigger] ts[k]),
            j > 0 ==> out@.len() > 0 && out@[out@.len() - 1]@ == ts[j - 1],
        decreases sorted@.len() - j,
    {
        let x = &sorted[j];
        let fresh = if out.len() == 0 {
            true
        } else {
            let last = chars_of(out[out.len() - 1].as_str());
            !(lex_le_exec(&last, x) && lex_le_exec(x, &last))
        };
        proof {
            if out@.len() > 0 {
                let l = out@[out@.len() - 1]@;
                if fresh {
                    if l == ts[j as int] {
                        assert((lex())(l, l));
                    }
                } else {
                    assert((lex())(l, ts[j as int]) && (lex())(ts[j as int], l));
                    assert(l == ts[j as int]);
                }
            }
        }
        if fresh {
            let ghost before = out@;
            out.push(crate::text::string_from_chars(x));
            proof {
                let vo = views(out@);
                assert(vo =~= views(before).push(ts[j as int]));
                assert forall|a: int, b: int| 0 <= a < b < vo.len() implies lex_le(#[trigger] vo[a], #[trigger] vo[b])
                    && vo[a] != vo[b] by {
                    if b == vo.len() - 1 {
                        let k = choose|k: int| 0 <= k < j && #[trigger] ts[k] == before[a]@;
                        assert((lex())(ts[k], ts[j as int]));
                        if a < before.len() - 1 {
                            let last = before.len() - 1;
                            assert(lex_le(views(before)[a], views(before)[last]) && views(before)[a] != views(before)[last]);
                            if vo[a] == vo[b] {
                                assert((lex())(ts[j as int], ts[(j - 1) as int]));
                                assert((lex())(ts[(j - 1) as int], ts[j as int]));
                            }
                        }
                    } else {
                        assert(vo[a] == views(before)[a] && vo[b] == views(before)[b]);
                    }
                }
                assert forall|a: int| 0 <= a < out@.len() implies exists|k: int| 0 <= k < j + 1 && #[trigger] ts[k] == #[trigger] out@[a]@ by {
                    if a < before.len() {
                        let k = choose|k: int| 0 <= k < j && #[trigger] ts[k] == before[a]@;
                        assert(out@[a] == before[a]);
                    } else {
                        assert(ts[j as int] == out@[a]@);
                    }
                }
                assert forall|k: int| 0 <= k < j + 1 implies views(out@).contains(#[trigger] ts[k]) by {
                    if k < j {
                        let a = choose|a: int| 0 <= a < views(before).len() && views(before)[a] == ts[k];
                        assert(views(out@)[a] == ts[k]);
                    } else {
                        assert(views(out@)[before.len() as int] == ts[k]);
                    }
                }
            }
        }
        j = j + 1;
    }
    proof {
        broadcast use vstd::seq_lib::group_to_multiset_ensures;
        let vs = views(slugs@);
        vs.lemma_sort_by_ensures(lex());
        assert forall|k: Seq<char>| views(out@).contains(k) <==> repo_slugs(cards@).contains(k) by {
            if views(out@).contains(k) {
                let a = choose|a: int| 0 <= a < views(out@).len() && views(out@)[a] == k;
                let m = choose|m: int| 0 <= m < j && #[trigger] ts[m] == out@[a]@;
                assert(ts.contains(k));
                assert(ts.to_multiset().count(k) > 0);
                assert(vs.contains(k));
            }
            if vs.contains(k) {
                assert(vs.to_multiset().count(k) > 0);
                assert(ts.contains(k));
                let m = choose|m: int| 0 <= m < ts.len() && ts[m] == k;
                assert(views(out@).contains(ts[m]));
            }
        }
    }
    out
}

/// The `?repo=` value for a selection: the slugs joined by commas, or no
/// parameter when nothing is selected.
pub open spec fn repo_param(selected: Seq<Seq<char>>) -> Option<Seq<char>> {
    if selected.len() == 0 {
        None
    } else {
        Some(joined(selected, ","@))
    }
}

/// The first position of `slug` in `v`, if any.
pub open spec fn first_at(v: Seq<Seq<char>>, slug: Seq<char>) -> Option<int> {
    if exists|i: int| 0 <= i < v.len() && v[i] == slug {
        Some(choose|i: int| 0 <= i < v.len() && v[i] == slug && forall|k: int| 0 <= k < i ==> v[k] != slug)
    } else {
        None
    }
}

/// A chip click: a selected slug is dropped (its first occurrence), any
/// other is added at the end.
pub open spec fn toggled(v: Seq<Seq<char>>, slug: Seq<char>) -> Seq<Seq<char>> {
    match first_at(v, slug) {
        Some(i) => v.remove(i),
        None => v.push(slug),
    }
}

/// Toggle `slug` in the selection; returns the new selection and the
/// `?repo=` value to write.
pub fn toggle_repo(selected: &[String], slug: &str) -> (r: (Vec<String>, Option<String>))
    ensures
        views(r.0@) == toggled(views(selected@), slug@),
        opt_view(r.1) == repo_param(views(r.0@)),
{
    let ghost v = views(selected@);
    let mut out: Vec<String> = Vec::new();
    let mut found: Option<usize> = None;
    let mut i: usize = 0;
    while i < selected.len()
        invariant
            i <= selected@.len(),
            v == views(selected@),
            match found {
                None => views(out@) == v.take(i as int) && forall|k: int| 0 <= k < i ==> v[k] != slug@,
                Some(f) => f < i && v[f as int] == slug@ && (forall|k: int| 0 <= k < f ==> v[k] != slug@)
                    && views(out@) == v.take(i as int).remove(f as int),
            },
        decreases selected@.len() - i,
    {
        if found.is_none() && str_eq(selected[i].as_str(), slug) {
            found = Some(i);
            assert(v.take(i + 1).remove(i as int) =~= v.take(i as int));
        } else {
            let ghost before = views(out@);
            out.push(string_clone(&selected[i]));
            proof {
                match found {
                    None => {
                        assert(views(out@) =~= v.take(i + 1));
                    },
                    Some(f) => {
                        assert(views(out@) =~= before.push(v[i as int]));
                        assert(v.take(i + 1).remove(f as int) =~= v.take(i as int).remove(f as int).push(v[i as int]));
                    },
                }
            }
        }
        i = i + 1;
    }
    assert(v.take(v.len() as int) =~= v);
    match found {
        None => {
            out.push(owned(slug));
            assert(views(out@) =~= v.push(slug@));
        },
        Some(f) => {
            proof {
                assert(0 <= f < v.len() && v[f as int] == slug@);
                let c = choose|i: int| 0 <= i < v.len() && v[i] == slug@ && forall|k: int| 0 <= k < i ==> v[k] != slug@;
                assert(c == f as int);
            }
        },
    }
    let param = if out.len() == 0 {
        None
    } else {
        Some(join_commas(&out))
    };
    (out, param)
}

/// The slugs joined by commas.
fn join_commas(v: &Vec<String>) -> (r: String)
    ensures
        r@ == joined(views(v@), ","@),
{
    let mut r = String::new();
    let mut i: usize = 0;
    assert(views(v@).take(0) =~= Seq::<Seq<char>>::empty());
    while i < v.len()
        invariant
            i <= v@.len(),
            r@ == joined(views(v@).take(i as int), ","@),
        decreases v@.len() - i,
    {
        let ghost before = r@;
        if i > 0 {
            crate::text::push_str(&mut r, ",");
        }
        crate::text::push_str(&mut r, v[i].as_str());
        proof {
            reveal_strlit(",");
            let next = views(v@).take(i + 1);
            assert(next.drop_last() =~= views(v@).take(i as int));
            if i == 0 {
                assert(r@ =~= next[0]);
            } else {
                assert(r@ =~= joined(views(v@).take(i as int), ","@) + ","@ + next.last());
            }
        }
        i = i + 1;
    }
    assert(views(v@).take(v@.len() as int) =~= views(v@));
    r
}

/// Which lens controls show: the lens row when the board has repositories
/// or a lens parameter is set; the group-by toggle when grouping means
/// something (more than one repository) or is already on; and whether
/// grouping is on (`?by_repo=1`).
pub open spec fn lens_controls_spec(repo_count: nat, repo_param: Option<Seq<char>>, by_repo: Option<Seq<char>>) -> (
    bool,
    bool,
    bool,
) {
    let grouped = by_repo == Some("1"@);
    (repo_count > 0 || repo_param is Some || by_repo is Some, repo_count > 1 || grouped, grouped)
}

/// The lens controls for a board with `repo_count` repositories and the
/// current `?repo=` and `?by_repo=` parameters: (lens row shown, group-by
/// toggle shown, grouped by repository).
pub fn lens_controls(repo_count: usize, repo_param: Option<&str>, by_repo: Option<&str>) -> (r: (
    bool,
    bool,
    bool,
))
    ensures
        r == lens_controls_spec(repo_count as nat, crate::board_rules::opt_str_view(repo_param), crate::board_rules::opt_str_view(by_repo)),
{
    let grouped = match by_repo {
        Some(v) => str_eq(v, "1"),
        None => false,
    };
    (repo_count > 0 || repo_param.is_some() || by_repo.is_some(), repo_count > 1 || grouped, grouped)
}

/// The lens narrows tasks only, and by membership in the whole
/// selection: with a non-empty selection, a task bound to repository `r`
/// is admitted exactly when `r` is one of the selected slugs (any of
/// them, not only the first); an unbound task is not admitted; any other
/// card, and every card under an empty selection, is.
pub proof fn law_lens_admits_by_membership(
    kind: EntityKind,
    repository: Option<Seq<char>>,
    selected: Seq<Seq<char>>,
)
    ensures
        selected.len() == 0 || kind != EntityKind::Task ==> lens_spec(kind, repository, selected),
        selected.len() > 0 && kind == EntityKind::Task && repository is None ==> !lens_spec(
            kind,
            repository,
            selected,
        ),
        selected.len() > 0 && kind == EntityKind::Task && repository is Some ==> (lens_spec(
            kind,
            repository,
            selected,
        ) == exists|k: int| 0 <= k < selected.len() && #[trigger] selected[k] == repository->0),
{
}

} // verus!
