//! Run-world bookkeeping and end-of-run invariants: board lookup, the
//! bystander tenant's snapshot comparison, and the history-boundedness
//! findings.

use vstd::prelude::*;
use crate::board_rules::opt_view;
use crate::config::{debug_quoted, debug_str};
use crate::stats::{breach_view, Breach, Severity};
use crate::text::{joined, join_strings, owned, push_signed, push_str, signed_digits, str_eq, string_clone, views};

verus! {

/// A delivery board with its transition adjacency.
pub struct BoardInfo {
    pub id: String,
    pub slug: String,
    /// `column_id -> allowed target column ids`.
    pub targets: Vec<(String, Vec<String>)>,
}

/// Everything the workers share.
pub struct World {
    pub delivery_boards: Vec<BoardInfo>,
    /// Contended tasks for the deliberate 409 mix.
    pub collision_codes: Vec<String>,
    /// Traverse root (the seeded strategy).
    pub strategy_code: String,
    /// The initiative this run's tasks notionally belong to.
    pub soak_initiative_code: String,
    /// Rotating full-text search terms.
    pub search_terms: Vec<String>,
}

impl World {
    /// The first delivery board whose id is `id`.
    pub fn board_by_id(&self, id: &str) -> (r: Option<&BoardInfo>)
        ensures
            match r {
                Some(b) => exists|i: int|
                    0 <= i < self.delivery_boards@.len() && self.delivery_boards@[i] == *b
                        && b.id@ == id@ && forall|k: int|
                        0 <= k < i ==> #[trigger] self.delivery_boards@[k].id@ != id@,
                None => forall|k: int|
                    0 <= k < self.delivery_boards@.len() ==> #[trigger] self.delivery_boards@[k].id@
                        != id@,
            },
    {
        let mut i: usize = 0;
        while i < self.delivery_boards.len()
            invariant
                i <= self.delivery_boards@.len(),
                forall|k: int| 0 <= k < i ==> #[trigger] self.delivery_boards@[k].id@ != id@,
            decreases self.delivery_boards@.len() - i,
        {
            if str_eq(self.delivery_boards[i].id.as_str(), id) {
                return Some(&self.delivery_boards[i]);
            }
            i = i + 1;
        }
        None
    }
}

/// The allowed targets of column `col` (the first entry keyed `col`).
pub open spec fn targets_for(targets: Seq<(String, Vec<String>)>, col: Seq<char>) -> Option<
    Seq<String>,
>
    decreases targets.len(),
{
    if targets.len() == 0 {
        None
    } else if targets[0].0@ == col {
        Some(targets[0].1@)
    } else {
        targets_for(targets.drop_first(), col)
    }
}

/// The allowed targets of column `col`, if the board lists it.
pub fn lookup_targets<'a>(targets: &'a Vec<(String, Vec<String>)>, col: &str) -> (r: Option<
    &'a Vec<String>,
>)
    ensures
        match r {
            Some(v) => targets_for(targets@, col@) == Some(v@),
            None => targets_for(targets@, col@) is None,
        },
{
    let mut i: usize = 0;
    assert(targets@.skip(0) =~= targets@);
    while i < targets.len()
        invariant
            i <= targets@.len(),
            targets_for(targets@, col@) == targets_for(targets@.skip(i as int), col@),
        decreases targets@.len() - i,
    {
        assert(targets@.skip(i as int).drop_first() =~= targets@.skip(i + 1));
        assert(targets@.skip(i as int)[0] == targets@[i as int]);
        if str_eq(targets[i].0.as_str(), col) {
            return Some(&targets[i].1);
        }
        i = i + 1;
    }
    assert(targets@.skip(i as int).len() == 0);
    None
}

/// The targets of column `col` on the first board with id `id`.
pub open spec fn board_targets(boards: Seq<BoardInfo>, id: Seq<char>, col: Seq<char>) -> Option<
    Seq<String>,
>
    decreases boards.len(),
{
    if boards.len() == 0 {
        None
    } else if boards[0].id@ == id {
        targets_for(boards[0].targets@, col)
    } else {
        board_targets(boards.drop_first(), id, col)
    }
}

/// The first board with id `id` decides `board_targets`.
pub proof fn lemma_board_targets_first(boards: Seq<BoardInfo>, i: int, id: Seq<char>, col: Seq<char>)
    requires
        0 <= i < boards.len(),
        boards[i].id@ == id,
        forall|k: int| 0 <= k < i ==> #[trigger] boards[k].id@ != id,
    ensures
        board_targets(boards, id, col) == targets_for(boards[i].targets@, col),
    decreases i,
{
    if i > 0 {
        assert forall|k: int| 0 <= k < i - 1 implies #[trigger] boards.drop_first()[k].id@ != id by {
            assert(boards.drop_first()[k] == boards[k + 1]);
        }
        lemma_board_targets_first(boards.drop_first(), i - 1, id, col);
    }
}

/// No board with id `id`: no targets.
pub proof fn lemma_board_targets_none(boards: Seq<BoardInfo>, id: Seq<char>, col: Seq<char>)
    requires
        forall|k: int| 0 <= k < boards.len() ==> #[trigger] boards[k].id@ != id,
    ensures
        board_targets(boards, id, col) is None,
    decreases boards.len(),
{
    if boards.len() > 0 {
        assert forall|k: int| 0 <= k < boards.drop_first().len() implies #[trigger] boards.drop_first()[k].id@ != id by {
            assert(boards.drop_first()[k] == boards[k + 1]);
        }
        lemma_board_targets_none(boards.drop_first(), id, col);
    }
}

/// The views of a transition adjacency.
pub open spec fn adjacency_view(a: Seq<(String, Vec<String>)>) -> Seq<(Seq<char>, Seq<Seq<char>>)> {
    a.map_values(|e: (String, Vec<String>)| (e.0@, crate::text::views(e.1@)))
}

/// The `to` columns of the transitions out of `from`, in order.
pub open spec fn tos_from(transitions: Seq<(String, String)>, from: Seq<char>) -> Seq<Seq<char>>
    decreases transitions.len(),
{
    if transitions.len() == 0 {
        Seq::empty()
    } else {
        let r = tos_from(transitions.drop_last(), from);
        if transitions.last().0@ == from {
            r.push(transitions.last().1@)
        } else {
            r
        }
    }
}

/// Does some transition leave `from`?
pub open spec fn has_from(transitions: Seq<(String, String)>, from: Seq<char>) -> bool {
    exists|j: int| 0 <= j < transitions.len() && #[trigger] transitions[j].0@ == from
}

/// A well-formed adjacency for `transitions`: one entry per column that
/// has transitions out of it, holding exactly those targets in order.
pub open spec fn adjacency_of(a: Seq<(Seq<char>, Seq<Seq<char>>)>, transitions: Seq<(String, String)>) -> bool {
    &&& forall|i: int, j: int| 0 <= i < j < a.len() ==> #[trigger] a[i].0 != #[trigger] a[j].0
    &&& forall|i: int| 0 <= i < a.len() ==> #[trigger] a[i].1 == tos_from(transitions, a[i].0)
        && has_from(transitions, a[i].0)
    &&& forall|j: int| 0 <= j < transitions.len() ==> keyed(a, #[trigger] transitions[j].0@)
}

/// Does the adjacency have an entry for column `k`?
pub open spec fn keyed(a: Seq<(Seq<char>, Seq<Seq<char>>)>, k: Seq<char>) -> bool {
    exists|i: int| 0 <= i < a.len() && #[trigger] a[i].0 == k
}

/// Is `k` one of the strings of `keys`?
pub open spec fn has_key(keys: Seq<String>, k: Seq<char>) -> bool {
    exists|i: int| 0 <= i < keys.len() && #[trigger] keys[i]@ == k
}

/// The targets of the transitions out of `from`, in order.
fn targets_out_of(transitions: &[(String, String)], from: &str) -> (r: Vec<String>)
    ensures
        crate::text::views(r@) == tos_from(transitions@, from@),
{
    let mut r: Vec<String> = Vec::new();
    let mut t: usize = 0;
    while t < transitions.len()
        invariant
            t <= transitions@.len(),
            crate::text::views(r@) == tos_from(transitions@.take(t as int), from@),
        decreases transitions@.len() - t,
    {
        assert(transitions@.take(t + 1).drop_last() =~= transitions@.take(t as int));
        assert(transitions@.take(t + 1).last() == transitions@[t as int]);
        if str_eq(transitions[t].0.as_str(), from) {
            let ghost before = r@;
            r.push(string_clone(&transitions[t].1));
            assert(crate::text::views(r@) =~= crate::text::views(before).push(transitions@[t as int].1@));
        }
        t = t + 1;
    }
    assert(transitions@.take(transitions@.len() as int) =~= transitions@);
    r
}

/// The distinct source columns of `transitions`, first appearance first.
fn source_columns(transitions: &[(String, String)]) -> (r: Vec<String>)
    ensures
        forall|i: int, j: int| 0 <= i < j < r@.len() ==> #[trigger] r@[i]@ != #[trigger] r@[j]@,
        forall|i: int| 0 <= i < r@.len() ==> has_from(transitions@, #[trigger] r@[i]@),
        forall|j: int| 0 <= j < transitions@.len() ==> has_key(r@, #[trigger] transitions@[j].0@),
{
    let mut keys: Vec<String> = Vec::new();
    let mut t: usize = 0;
    while t < transitions.len()
        invariant
            t <= transitions@.len(),
            forall|i: int, j: int| 0 <= i < j < keys@.len() ==> #[trigger] keys@[i]@ != #[trigger] keys@[j]@,
            forall|i: int| 0 <= i < keys@.len() ==> has_from(transitions@, #[trigger] keys@[i]@),
            forall|j: int| 0 <= j < t ==> has_key(keys@, #[trigger] transitions@[j].0@),
        decreases transitions@.len() - t,
    {
        let from = &transitions[t].0;
        let mut i: usize = 0;
        while i < keys.len() && !str_eq(keys[i].as_str(), from.as_str())
            invariant
                i <= keys@.len(),
                forall|k: int| 0 <= k < i ==> #[trigger] keys@[k]@ != from@,
            decreases keys@.len() - i,
        {
            i = i + 1;
        }
        if i == keys.len() {
            let ghost before = keys@;
            keys.push(string_clone(from));
            proof {
                assert(has_from(transitions@, from@)) by {
                    assert(transitions@[t as int].0@ == from@);
                }
                assert forall|a: int, b: int| 0 <= a < b < keys@.len() implies #[trigger] keys@[a]@
                    != #[trigger] keys@[b]@ by {
                    if b == keys@.len() - 1 {
                        assert(keys@[a] == before[a]);
                    } else {
                        assert(keys@[a] == before[a] && keys@[b] == before[b]);
                    }
                }
                assert forall|a: int| 0 <= a < keys@.len() implies has_from(transitions@, #[trigger] keys@[a]@) by {
                    if a < before.len() {
                        assert(keys@[a] == before[a]);
                    }
                }
                assert forall|j: int| 0 <= j < t + 1 implies has_key(keys@, #[trigger] transitions@[j].0@) by {
                    if j == t {
                        assert(keys@[keys@.len() - 1]@ == transitions@[j].0@);
                    } else {
                        assert(has_key(before, transitions@[j].0@));
                        let a = choose|a: int| 0 <= a < before.len() && #[trigger] before[a]@ == transitions@[j].0@;
                        assert(keys@[a] == before[a]);
                    }
                }
            }
        } else {
            proof {
                assert(keys@[i as int]@ == from@);
                assert forall|j: int| 0 <= j < t + 1 implies has_key(keys@, #[trigger] transitions@[j].0@) by {
                    if j == t {
                        assert(keys@[i as int]@ == transitions@[j].0@);
                    }
                }
            }
        }
        t = t + 1;
    }
    keys
}

/// Group a board's `(from, to)` transitions by source column: one entry per
/// source column, holding its targets in transition order.
pub fn group_targets(transitions: &[(String, String)]) -> (r: Vec<(String, Vec<String>)>)
    ensures
        adjacency_of(adjacency_view(r@), transitions@),
{
    let keys = source_columns(transitions);
    let mut out: Vec<(String, Vec<String>)> = Vec::new();
    let mut k: usize = 0;
    while k < keys.len()
        invariant
            k <= keys@.len(),
            out@.len() == k,
            forall|i: int| 0 <= i < k ==> #[trigger] out@[i].0@ == keys@[i]@,
            forall|i: int|
                0 <= i < k ==> crate::text::views(#[trigger] out@[i].1@) == tos_from(transitions@, keys@[i]@),
        decreases keys@.len() - k,
    {
        let tos = targets_out_of(transitions, keys[k].as_str());
        out.push((string_clone(&keys[k]), tos));
        k = k + 1;
    }
    proof {
        let a = adjacency_view(out@);
        assert forall|i: int, j: int| 0 <= i < j < a.len() implies #[trigger] a[i].0 != #[trigger] a[j].0 by {
            assert(a[i].0 == keys@[i]@ && a[j].0 == keys@[j]@);
        }
        assert forall|i: int| 0 <= i < a.len() implies #[trigger] a[i].1 == tos_from(transitions@, a[i].0)
            && has_from(transitions@, a[i].0) by {
            assert(a[i].0 == keys@[i]@);
            assert(a[i].1 == crate::text::views(out@[i].1@));
        }
        assert forall|j: int| 0 <= j < transitions@.len() implies keyed(a, #[trigger] transitions@[j].0@) by {
            assert(has_key(keys@, transitions@[j].0@));
            let i = choose|i: int| 0 <= i < keys@.len() && #[trigger] keys@[i]@ == transitions@[j].0@;
            assert(a[i].0 == keys@[i]@);
        }
    }
    out
}

/// The refusal when the first workforce identity is not the org admin.
pub open spec fn not_admin_message(role: Seq<char>) -> Seq<char> {
    "setup: alice is "@ + crate::config::debug_str(role)
        + ", not the seeded org admin \u{2014} wrong tenant or fixture?"@
}

/// Setup needs the first identity to be the seeded org admin.
pub fn check_admin_role(role: &str) -> (r: Result<(), String>)
    ensures
        role@ == "admin"@ ==> r is Ok,
        role@ != "admin"@ ==> (r matches Err(m) && m@ == not_admin_message(role@)),
{
    if str_eq(role, "admin") {
        return Ok(());
    }
    let mut m = owned("setup: alice is ");
    push_str(&mut m, crate::config::debug_quoted(role).as_str());
    push_str(&mut m, ", not the seeded org admin \u{2014} wrong tenant or fixture?");
    Err(m)
}

/// The enrollment address of a workforce identity.
pub fn member_email(name: &str) -> (r: String)
    ensures
        r@ == name@ + "@kairos.test"@,
{
    let mut r = owned(name);
    push_str(&mut r, "@kairos.test");
    r
}

/// The boards setup found, by role.
#[derive(Debug)]
pub struct Discovered {
    /// Indices of the delivery boards, in list order.
    pub delivery: Vec<usize>,
    /// The id of the (last listed) initiative board.
    pub initiative: String,
    /// The id of the (last listed) strategy board, if any.
    pub strategy: Option<String>,
}

/// The id of the last board of `level` among `boards` (`(id, level)`).
pub open spec fn last_of_level(boards: Seq<(String, String)>, level: Seq<char>) -> Option<Seq<char>>
    decreases boards.len(),
{
    if boards.len() == 0 {
        None
    } else if boards.last().1@ == level {
        Some(boards.last().0@)
    } else {
        last_of_level(boards.drop_last(), level)
    }
}

/// Sort the listed boards (`(id, level)`) into delivery boards, the
/// initiative board and the strategy board; setup needs at least one
/// delivery board and an initiative board.
pub fn discover_boards(boards: &[(String, String)]) -> (r: Result<Discovered, String>)
    ensures
        match r {
            Ok(d) => (forall|k: int| 0 <= k < d.delivery@.len() ==> #[trigger] d.delivery@[k] < boards@.len()
                && boards@[d.delivery@[k] as int].1@ == "delivery"@) && (forall|i: int|
                0 <= i < boards@.len() && #[trigger] boards@[i].1@ == "delivery"@ ==> d.delivery@.contains(
                    i as usize,
                )) && (forall|a: int, b: int|
                0 <= a < b < d.delivery@.len() ==> #[trigger] d.delivery@[a] < #[trigger] d.delivery@[b])
                && d.delivery@.len() > 0 && last_of_level(boards@, "initiative"@) == Some(
                d.initiative@,
            ) && crate::board_rules::opt_view(d.strategy) == last_of_level(boards@, "strategy"@),
            Err(m) => (forall|i: int| 0 <= i < boards@.len() ==> #[trigger] boards@[i].1@ != "delivery"@)
                && m@ == "setup: no delivery boards found \u{2014} is the demo tenant seeded?"@
                || (exists|i: int| 0 <= i < boards@.len() && #[trigger] boards@[i].1@ == "delivery"@)
                && last_of_level(boards@, "initiative"@) is None
                && m@ == "setup: no initiative board \u{2014} is the demo tenant seeded?"@,
        },
{
    let mut delivery: Vec<usize> = Vec::new();
    let mut initiative: Option<String> = None;
    let mut strategy: Option<String> = None;
    let mut i: usize = 0;
    assert(boards@.take(0) =~= Seq::<(String, String)>::empty());
    while i < boards.len()
        invariant
            i <= boards@.len(),
            forall|k: int| 0 <= k < delivery@.len() ==> #[trigger] delivery@[k] < i
                && boards@[delivery@[k] as int].1@ == "delivery"@,
            forall|j: int| 0 <= j < i && #[trigger] boards@[j].1@ == "delivery"@ ==> delivery@.contains(j as usize),
            forall|a: int, b: int| 0 <= a < b < delivery@.len() ==> #[trigger] delivery@[a] < #[trigger] delivery@[b],
            crate::board_rules::opt_view(initiative) == last_of_level(boards@.take(i as int), "initiative"@),
            crate::board_rules::opt_view(strategy) == last_of_level(boards@.take(i as int), "strategy"@),
        decreases boards@.len() - i,
    {
        assert(boards@.take(i + 1).drop_last() =~= boards@.take(i as int));
        assert(boards@.take(i + 1).last() == boards@[i as int]);
        proof {
            reveal_strlit("delivery");
            reveal_strlit("initiative");
            reveal_strlit("strategy");
            assert("delivery"@.len() == 8 && "initiative"@.len() == 10 && "strategy"@.len() == 8);
            assert("delivery"@[0] == 'd' && "strategy"@[0] == 's');
        }
        let level = boards[i].1.as_str();
        if str_eq(level, "delivery") {
            let ghost before = delivery@;
            delivery.push(i);
            proof {
                assert forall|j: int| 0 <= j < i + 1 && #[trigger] boards@[j].1@ == "delivery"@ implies delivery@.contains(j as usize) by {
                    if j < i {
                        let k = choose|k: int| 0 <= k < before.len() && before[k] == j as usize;
                        assert(delivery@[k] == before[k]);
                    } else {
                        assert(delivery@[before.len() as int] == i);
                    }
                }
            }
        } else if str_eq(level, "initiative") {
            initiative = Some(string_clone(&boards[i].0));
        } else if str_eq(level, "strategy") {
            strategy = Some(string_clone(&boards[i].0));
        }
        i = i + 1;
    }
    assert(boards@.take(boards@.len() as int) =~= boards@);
    if delivery.len() == 0 {
        proof {
            assert forall|j: int| 0 <= j < boards@.len() implies #[trigger] boards@[j].1@ != "delivery"@ by {
                if boards@[j].1@ == "delivery"@ {
                    assert(delivery@.contains(j as usize));
                }
            }
        }
        return Err(owned("setup: no delivery boards found \u{2014} is the demo tenant seeded?"));
    }
    let initiative = match initiative {
        Some(id) => id,
        None => {
            proof {
                assert(boards@[delivery@[0] as int].1@ == "delivery"@);
            }
            return Err(owned("setup: no initiative board \u{2014} is the demo tenant seeded?"));
        },
    };
    Ok(Discovered { delivery, initiative, strategy })
}

/// `setup (<stage>): <error>`.
pub fn setup_err(stage: &str, e: &str) -> (r: String)
    ensures
        r@ == "setup ("@ + stage@ + "): "@ + e@,
{
    let mut r = owned("setup (");
    push_str(&mut r, stage);
    push_str(&mut r, "): ");
    push_str(&mut r, e);
    r
}

/// A section map as plain values.
pub open spec fn sections_view(m: Seq<(String, String)>) -> Seq<(Seq<char>, Seq<char>)> {
    m.map_values(|e: (String, String)| (e.0@, e.1@))
}

/// The value of the first entry of `m` keyed `k`.
pub open spec fn lookup(m: Seq<(Seq<char>, Seq<char>)>, k: Seq<char>) -> Option<Seq<char>>
    decreases m.len(),
{
    if m.len() == 0 {
        None
    } else if m[0].0 == k {
        Some(m[0].1)
    } else {
        lookup(m.drop_first(), k)
    }
}

/// The attribution for a baseline section that did not survive unchanged.
pub open spec fn changed_label(e: (Seq<char>, Seq<char>), current: Seq<(Seq<char>, Seq<char>)>) -> Seq<char> {
    if lookup(current, e.0) is None {
        e.0 + " (missing)"@
    } else {
        e.0
    }
}

/// The changed-section names: every baseline section that is missing or
/// different now (in baseline order), then every section that is new (in
/// current order).
pub open spec fn spec_changed_sections(
    baseline: Seq<(Seq<char>, Seq<char>)>,
    current: Seq<(Seq<char>, Seq<char>)>,
) -> Seq<Seq<char>> {
    baseline.filter(|e: (Seq<char>, Seq<char>)| lookup(current, e.0) != Some(e.1)).map_values(
        |e: (Seq<char>, Seq<char>)| changed_label(e, current),
    ) + current.filter(|e: (Seq<char>, Seq<char>)| lookup(baseline, e.0) is None).map_values(
        |e: (Seq<char>, Seq<char>)| e.0 + " (new)"@,
    )
}

/// The value of the first entry of `m` keyed `k` (exec).
fn find_section<'a>(m: &'a [(String, String)], k: &str) -> (r: Option<&'a String>)
    ensures
        match r {
            Some(v) => lookup(sections_view(m@), k@) == Some(v@),
            None => lookup(sections_view(m@), k@) is None,
        },
{
    let mut i: usize = 0;
    assert(sections_view(m@).skip(0) =~= sections_view(m@));
    while i < m.len()
        invariant
            i <= m@.len(),
            lookup(sections_view(m@), k@) == lookup(sections_view(m@).skip(i as int), k@),
        decreases m@.len() - i,
    {
        proof {
            let rest = sections_view(m@).skip(i as int);
            assert(rest.drop_first() =~= sections_view(m@).skip(i + 1));
            assert(rest[0] == (m@[i as int].0@, m@[i as int].1@));
        }
        if str_eq(m[i].0.as_str(), k) {
            return Some(&m[i].1);
        }
        i = i + 1;
    }
    None
}

/// Compare a fresh snapshot against the baseline; returns the changed
/// section names (empty = isolation held).
pub fn changed_sections(baseline: &[(String, String)], current: &[(String, String)]) -> (out: Vec<
    String,
>)
    ensures
        out@.map_values(|s: String| s@) == spec_changed_sections(
            sections_view(baseline@),
            sections_view(current@),
        ),
{
    let ghost b = sections_view(baseline@);
    let ghost c = sections_view(current@);
    let ghost p1 = |e: (Seq<char>, Seq<char>)| lookup(c, e.0) != Some(e.1);
    let ghost f1 = |e: (Seq<char>, Seq<char>)| changed_label(e, c);
    let ghost p2 = |e: (Seq<char>, Seq<char>)| lookup(b, e.0) is None;
    let ghost f2 = |e: (Seq<char>, Seq<char>)| e.0 + " (new)"@;
    let mut changed: Vec<String> = Vec::new();
    let mut i: usize = 0;
    while i < baseline.len()
        invariant
            i <= baseline@.len(),
            b == sections_view(baseline@),
            c == sections_view(current@),
            p1 == (|e: (Seq<char>, Seq<char>)| lookup(c, e.0) != Some(e.1)),
            f1 == (|e: (Seq<char>, Seq<char>)| changed_label(e, c)),
            changed@.map_values(|s: String| s@) == b.take(i as int).filter(p1).map_values(f1),
        decreases baseline@.len() - i,
    {
        let (section, before) = (&baseline[i].0, &baseline[i].1);
        let ghost e = b[i as int];
        proof {
            reveal_with_fuel(Seq::<_>::filter, 1);
            assert(b.take(i + 1).drop_last() =~= b.take(i as int));
            assert(b.take(i + 1).last() == e);
            assert(e == (section@, before@));
        }
        let ghost prev = changed@;
        match find_section(current, section.as_str()) {
            Some(now) => {
                if !str_eq(now.as_str(), before.as_str()) {
                    changed.push(string_clone(section));
                    assert(changed@.map_values(|s: String| s@) =~= prev.map_values(|s: String| s@).push(f1(e)));
                    assert(b.take(i as int).filter(p1).push(e).map_values(f1) =~= b.take(i as int).filter(
                        p1,
                    ).map_values(f1).push(f1(e)));
                }
            },
            None => {
                let mut label = string_clone(section);
                push_str(&mut label, " (missing)");
                changed.push(label);
                assert(changed@.map_values(|s: String| s@) =~= prev.map_values(|s: String| s@).push(f1(e)));
                assert(b.take(i as int).filter(p1).push(e).map_values(f1) =~= b.take(i as int).filter(
                    p1,
                ).map_values(f1).push(f1(e)));
            },
        }
        i = i + 1;
    }
    assert(b.take(b.len() as int) =~= b);
    let ghost head = changed@.map_values(|s: String| s@);
    let mut j: usize = 0;
    while j < current.len()
        invariant
            j <= current@.len(),
            b == sections_view(baseline@),
            c == sections_view(current@),
            p2 == (|e: (Seq<char>, Seq<char>)| lookup(b, e.0) is None),
            f2 == (|e: (Seq<char>, Seq<char>)| e.0 + " (new)"@),
            changed@.map_values(|s: String| s@) == head + c.take(j as int).filter(p2).map_values(f2),
        decreases current@.len() - j,
    {
        let section = &current[j].0;
        let ghost e = c[j as int];
        proof {
            reveal_with_fuel(Seq::<_>::filter, 1);
            assert(c.take(j + 1).drop_last() =~= c.take(j as int));
            assert(c.take(j + 1).last() == e);
            assert(e.0 == section@);
        }
        if find_section(baseline, section.as_str()).is_none() {
            let ghost prev = changed@;
            let mut label = string_clone(section);
            push_str(&mut label, " (new)");
            changed.push(label);
            assert(changed@.map_values(|s: String| s@) =~= prev.map_values(|s: String| s@).push(f2(e)));
            assert(c.take(j as int).filter(p2).push(e).map_values(f2) =~= c.take(j as int).filter(
                p2,
            ).map_values(f2).push(f2(e)));
            assert((head + c.take(j as int).filter(p2).map_values(f2)).push(f2(e)) =~= head + c.take(
                j as int,
            ).filter(p2).map_values(f2).push(f2(e)));
        }
        j = j + 1;
    }
    assert(c.take(c.len() as int) =~= c);
    changed
}

/// No two entries of `m` share a key (a map's entries).
pub open spec fn unique_keys(m: Seq<(Seq<char>, Seq<char>)>) -> bool {
    forall|i: int, j: int| 0 <= i < j < m.len() ==> #[trigger] m[i].0 != #[trigger] m[j].0
}

proof fn lemma_lookup_found(m: Seq<(Seq<char>, Seq<char>)>, k: Seq<char>) -> (i: int)
    requires
        lookup(m, k) is Some,
    ensures
        0 <= i < m.len(),
        m[i].0 == k,
        lookup(m, k) == Some(m[i].1),
    decreases m.len(),
{
    if m[0].0 == k {
        0
    } else {
        let j = lemma_lookup_found(m.drop_first(), k);
        j + 1
    }
}

proof fn lemma_lookup_at(m: Seq<(Seq<char>, Seq<char>)>, i: int)
    requires
        0 <= i < m.len(),
        unique_keys(m),
    ensures
        lookup(m, m[i].0) == Some(m[i].1),
    decreases m.len(),
{
    if i > 0 {
        assert(m[0].0 != m[i].0);
        assert(unique_keys(m.drop_first())) by {
            assert forall|a: int, b: int| 0 <= a < b < m.drop_first().len() implies #[trigger] m.drop_first()[a].0
                != #[trigger] m.drop_first()[b].0 by {
                assert(m.drop_first()[a] == m[a + 1] && m.drop_first()[b] == m[b + 1]);
            }
        }
        lemma_lookup_at(m.drop_first(), i - 1);
    }
}

/// Isolation held exactly when nothing changed: the changed-section list
/// is empty iff the baseline and the current snapshot hold the same
/// sections with the same contents.
pub proof fn law_no_changes_iff_same_snapshot(
    baseline: Seq<(Seq<char>, Seq<char>)>,
    current: Seq<(Seq<char>, Seq<char>)>,
)
    requires
        unique_keys(baseline),
        unique_keys(current),
    ensures
        (spec_changed_sections(baseline, current).len() == 0) == (forall|k: Seq<char>|
            #[trigger] lookup(baseline, k) == lookup(current, k)),
{
    let p1 = |e: (Seq<char>, Seq<char>)| lookup(current, e.0) != Some(e.1);
    let p2 = |e: (Seq<char>, Seq<char>)| lookup(baseline, e.0) is None;
    if spec_changed_sections(baseline, current).len() == 0 {
        assert(baseline.filter(p1).len() == 0);
        assert(current.filter(p2).len() == 0);
        assert forall|k: Seq<char>| #[trigger] lookup(baseline, k) == lookup(current, k) by {
            if lookup(baseline, k) is Some {
                let i = lemma_lookup_found(baseline, k);
                if p1(baseline[i]) {
                    baseline.lemma_filter_contains(p1, i);
                }
            } else if lookup(current, k) is Some {
                let j = lemma_lookup_found(current, k);
                current.lemma_filter_contains(p2, j);
            }
        }
    }
    if forall|k: Seq<char>| #[trigger] lookup(baseline, k) == lookup(current, k) {
        if baseline.filter(p1).len() > 0 {
            let e = baseline.filter(p1)[0];
            baseline.lemma_filter_pred(p1, 0);
            assert(baseline.filter(p1).contains(e));
            lemma_filter_subset(baseline, p1, e);
            let i = choose|i: int| 0 <= i < baseline.len() && baseline[i] == e;
            lemma_lookup_at(baseline, i);
            assert(lookup(baseline, e.0) == lookup(current, e.0));
        }
        if current.filter(p2).len() > 0 {
            let e = current.filter(p2)[0];
            current.lemma_filter_pred(p2, 0);
            assert(current.filter(p2).contains(e));
            lemma_filter_subset(current, p2, e);
            let j = choose|j: int| 0 <= j < current.len() && current[j] == e;
            lemma_lookup_at(current, j);
            assert(lookup(baseline, e.0) == lookup(current, e.0));
        }
    }
}

proof fn lemma_filter_subset(
    s: Seq<(Seq<char>, Seq<char>)>,
    p: spec_fn((Seq<char>, Seq<char>)) -> bool,
    e: (Seq<char>, Seq<char>),
)
    requires
        s.filter(p).contains(e),
    ensures
        exists|i: int| 0 <= i < s.len() && s[i] == e,
    decreases s.len(),
{
    reveal_with_fuel(Seq::<_>::filter, 1);
    if s.len() > 0 {
        if p(s.last()) && e == s.last() {
            assert(s[s.len() - 1] == e);
        } else {
            if p(s.last()) {
                let f = s.drop_last().filter(p);
                let k = choose|k: int| 0 <= k < s.filter(p).len() && s.filter(p)[k] == e;
                assert(s.filter(p) == f.push(s.last()));
                assert(k < f.len());
                assert(f[k] == e);
                assert(f.contains(e));
            }
            lemma_filter_subset(s.drop_last(), p, e);
            let i = choose|i: int| 0 <= i < s.drop_last().len() && s.drop_last()[i] == e;
            assert(s[i] == e);
        }
    }
}

/// Per-item history summary for the report.
pub struct HistoryBound {
    pub short_code: String,
    pub version: i32,
    pub history_rows: i64,
}

/// The history-boundedness breach details for one item: rows must equal
/// the item's version (history grows only with edits), and stay under the
/// cap.
pub open spec fn history_breach_details(code: Seq<char>, version: i32, rows: i64, max_rows: i64) -> Seq<
    Seq<char>,
> {
    (if rows != version as i64 {
        seq![
            code + ": "@ + signed_digits(rows as int) + " history rows for version "@
                + signed_digits(version as int)
                + " \u{2014} history must grow only with edits (A-0004)"@,
        ]
    } else {
        Seq::empty()
    }) + (if rows > max_rows {
        seq![
            code + ": "@ + signed_digits(rows as int) + " history rows exceeds the configured cap "@
                + signed_digits(max_rows as int),
        ]
    } else {
        Seq::empty()
    })
}

/// The history-bound record and breaches for one fetched item: its
/// version and history row count, checked against `max_rows_per_item`.
pub fn history_findings(code: &str, version: i32, history_rows: i64, max_rows_per_item: i64) -> (r: (
    HistoryBound,
    Vec<Breach>,
))
    ensures
        r.0.short_code@ == code@,
        r.0.version == version,
        r.0.history_rows == history_rows,
        r.1@.map_values(|b: Breach| b.detail@) == history_breach_details(
            code@,
            version,
            history_rows,
            max_rows_per_item,
        ),
        forall|i: int|
            0 <= i < r.1@.len() ==> #[trigger] r.1@[i].severity == Severity::Breach && r.1@[i].check@
                == "history_bound"@,
{
    let mut breaches: Vec<Breach> = Vec::new();
    if history_rows != version as i64 {
        let mut detail = owned(code);
        push_str(&mut detail, ": ");
        push_signed(&mut detail, history_rows);
        push_str(&mut detail, " history rows for version ");
        push_signed(&mut detail, version as i64);
        push_str(&mut detail, " \u{2014} history must grow only with edits (A-0004)");
        breaches.push(Breach::now(Severity::Breach, "history_bound", detail));
    }
    let ghost first = breaches@.map_values(|b: Breach| b.detail@);
    if history_rows > max_rows_per_item {
        let mut detail = owned(code);
        push_str(&mut detail, ": ");
        push_signed(&mut detail, history_rows);
        push_str(&mut detail, " history rows exceeds the configured cap ");
        push_signed(&mut detail, max_rows_per_item);
        let ghost prev = breaches@;
        breaches.push(Breach::now(Severity::Breach, "history_bound", detail));
        assert(breaches@.map_values(|b: Breach| b.detail@) =~= prev.map_values(|b: Breach| b.detail@).push(
            detail@,
        ));
    }
    assert(breaches@.map_values(|b: Breach| b.detail@) =~= history_breach_details(
        code@,
        version,
        history_rows,
        max_rows_per_item,
    ));
    (HistoryBound { short_code: owned(code), version, history_rows }, breaches)
}

/// Why the bystander check could not run.
pub enum BystanderUnavailable {
    /// The caller is not a deployment admin on this deployment.
    NotDeploymentAdmin(String),
    /// Any other setup failure.
    Failed(String),
}

/// The bystander status line for a setup that could not run.
pub open spec fn unavailable_status(e: BystanderUnavailable) -> Seq<char> {
    match e {
        BystanderUnavailable::NotDeploymentAdmin(m) => "unavailable: caller is not a deployment admin ("@
            + m@ + ") \u{2014} set KAIROS_DEPLOYMENT_ADMINS to alice's OIDC sub (angreal test soak does)"@,
        BystanderUnavailable::Failed(m) => "unavailable: "@ + m@,
    }
}

/// The status the report and the console give when the bystander check
/// could not be set up; a breach of `tenant_isolation` follows when the
/// thresholds require the bystander.
pub fn bystander_unavailable_status(e: &BystanderUnavailable) -> (r: String)
    ensures
        r@ == unavailable_status(*e),
{
    let mut r = String::new();
    match e {
        BystanderUnavailable::NotDeploymentAdmin(m) => {
            push_str(&mut r, "unavailable: caller is not a deployment admin (");
            push_str(&mut r, m.as_str());
            push_str(
                &mut r,
                ") \u{2014} set KAIROS_DEPLOYMENT_ADMINS to alice's OIDC sub (angreal test soak does)",
            );
        },
        BystanderUnavailable::Failed(m) => {
            push_str(&mut r, "unavailable: ");
            push_str(&mut r, m.as_str());
        },
    }
    r
}

/// What a bystander snapshot gave: the changed sections, or why it failed.
pub enum SnapshotResult {
    Changed(Vec<String>),
    Failed(String),
}

/// The tenant-isolation verdict on one bystander snapshot, as plain
/// values: (the status to report, the breach to record as (severity,
/// check, detail), stop the run). Mid-run, any change is a fatal breach
/// that stops the run and a failed snapshot is a plain breach; the status
/// is kept. At the end, the status says `unchanged`, `CHANGED` (with a
/// fatal breach) or why the snapshot failed (with a plain breach); the run
/// is over, so nothing stops.
pub open spec fn verdict_spec(tenant: Seq<char>, snapshot: Result<Seq<Seq<char>>, Seq<char>>, mid_run: bool) -> (
    Option<Seq<char>>,
    Option<(Severity, Seq<char>, Seq<char>)>,
    bool,
) {
    match snapshot {
        Ok(changed) => if changed.len() == 0 {
            (if mid_run { None } else { Some("unchanged"@) }, None, false)
        } else if mid_run {
            (
                None,
                Some((
                    Severity::Fatal,
                    "tenant_isolation"@,
                    "bystander tenant "@ + debug_str(tenant) + " changed mid-run (sections: "@
                        + joined(changed, ", "@) + ") \u{2014} STOPPING the run"@,
                )),
                true,
            )
        } else {
            (
                Some("CHANGED"@),
                Some((
                    Severity::Fatal,
                    "tenant_isolation"@,
                    "bystander tenant "@ + debug_str(tenant) + " changed over the run (sections: "@
                        + joined(changed, ", "@) + ")"@,
                )),
                false,
            )
        },
        Err(e) => if mid_run {
            (
                None,
                Some((Severity::Breach, "tenant_isolation"@, "mid-run bystander snapshot failed: "@ + e)),
                false,
            )
        } else {
            (
                Some("unavailable at end: "@ + e),
                Some((Severity::Breach, "tenant_isolation"@, "final bystander snapshot failed: "@ + e)),
                false,
            )
        },
    }
}

/// A snapshot result as plain values.
pub open spec fn snapshot_view(r: SnapshotResult) -> Result<Seq<Seq<char>>, Seq<char>> {
    match r {
        SnapshotResult::Changed(c) => Ok(views(c@)),
        SnapshotResult::Failed(e) => Err(e@),
    }
}

/// Judge tenant isolation on one bystander snapshot of `tenant`, mid-run
/// or at the end: the status to report (`None`: keep it), the breach to
/// record, and whether to stop the run.
pub fn bystander_verdict(tenant: &str, snapshot: &SnapshotResult, mid_run: bool) -> (r: (
    Option<String>,
    Option<Breach>,
    bool,
))
    ensures
        (opt_view(r.0), match r.1 {
            Some(b) => Some(breach_view(b)),
            None => None,
        }, r.2) == verdict_spec(tenant@, snapshot_view(*snapshot), mid_run),
{
    match snapshot {
        SnapshotResult::Changed(changed) => {
            if changed.len() == 0 {
                let status = if mid_run {
                    None
                } else {
                    Some(owned("unchanged"))
                };
                return (status, None, false);
            }
            let mut detail = owned("bystander tenant ");
            push_str(&mut detail, debug_quoted(tenant).as_str());
            if mid_run {
                push_str(&mut detail, " changed mid-run (sections: ");
            } else {
                push_str(&mut detail, " changed over the run (sections: ");
            }
            push_str(&mut detail, join_strings(changed.as_slice(), ", ").as_str());
            if mid_run {
                push_str(&mut detail, ") \u{2014} STOPPING the run");
                (None, Some(Breach::now(Severity::Fatal, "tenant_isolation", detail)), true)
            } else {
                push_str(&mut detail, ")");
                (
                    Some(owned("CHANGED")),
                    Some(Breach::now(Severity::Fatal, "tenant_isolation", detail)),
                    false,
                )
            }
        },
        SnapshotResult::Failed(e) => {
            if mid_run {
                let mut detail = owned("mid-run bystander snapshot failed: ");
                push_str(&mut detail, e.as_str());
                (None, Some(Breach::now(Severity::Breach, "tenant_isolation", detail)), false)
            } else {
                let mut status = owned("unavailable at end: ");
                push_str(&mut status, e.as_str());
                let mut detail = owned("final bystander snapshot failed: ");
                push_str(&mut detail, e.as_str());
                (Some(status), Some(Breach::now(Severity::Breach, "tenant_isolation", detail)), false)
            }
        },
    }
}

/// The breach a bystander that could not be set up is worth: a plain
/// tenant-isolation breach carrying its status, when the thresholds
/// require the bystander; none otherwise.
pub fn unavailable_breach(status: &str, require_bystander: bool) -> (r: Option<Breach>)
    ensures
        match r {
            Some(b) => require_bystander && breach_view(b) == (Severity::Breach, "tenant_isolation"@, status@),
            None => !require_bystander,
        },
{
    if require_bystander {
        Some(Breach::now(Severity::Breach, "tenant_isolation", owned(status)))
    } else {
        None
    }
}

/// A tenant-isolation change is always fatal: a snapshot that shows any
/// changed section, mid-run or at the end, yields a fatal breach, and
/// mid-run it stops the run; nothing else is fatal or stops it.
pub proof fn law_isolation_change_is_fatal(
    tenant: Seq<char>,
    snapshot: Result<Seq<Seq<char>>, Seq<char>>,
    mid_run: bool,
)
    ensures
        ({
            let v = verdict_spec(tenant, snapshot, mid_run);
            let changed = snapshot matches Ok(c) && c.len() > 0;
            &&& changed ==> (v.1 matches Some(b) && b.0 == Severity::Fatal)
            &&& (v.1 matches Some(b) && b.0 == Severity::Fatal) ==> changed
            &&& v.2 == (changed && mid_run)
        }),
{
}

} // verus!
