//! The board list: boards bucketed into flight-level bands, the delivery
//! band grouped by owning team; and the document-parent candidates of a
//! board.

use vstd::prelude::*;
use crate::board_data::{Board, BoardColumnItems, BoardView, Initiative, Strategy, Task, pairs_view};
use crate::board_rules::opt_view;
use crate::text::{owned, push_str, str_eq, string_clone};

verus! {

/// A team as the board list reads it.
pub struct Team {
    pub id: String,
    pub name: String,
    pub slug: String,
    pub team_type: String,
    pub delivery_board_id: Option<String>,
}

/// A board as plain values: id, name, slug, level, owning team.
pub type BoardV = (Seq<char>, Seq<char>, Seq<char>, Seq<char>, Option<Seq<char>>);

/// One group of a band: an optional (heading, link) and its boards.
pub type GroupV = (Option<(Seq<char>, Seq<char>)>, Seq<BoardV>);

/// One band: level, label, groups.
pub type BandV = (Seq<char>, Seq<char>, Seq<GroupV>);

/// The plain values of a board.
pub open spec fn board_v(b: Board) -> BoardV {
    (b.id@, b.name@, b.slug@, b.board_level@, opt_view(b.team_id))
}

/// The plain values of a list of boards.
pub open spec fn boards_v(bs: Seq<Board>) -> Seq<BoardV> {
    bs.map_values(|b: Board| board_v(b))
}

/// One board-list group.
pub struct BoardGroup {
    pub heading: Option<(String, String)>,
    pub boards: Vec<Board>,
}

/// One board-list band: a level heading and its groups.
pub struct BandModel {
    pub level: String,
    pub label: String,
    pub groups: Vec<BoardGroup>,
}

/// The plain values of a group.
pub open spec fn group_v(g: BoardGroup) -> GroupV {
    (
        match g.heading {
            Some(h) => Some((h.0@, h.1@)),
            None => None,
        },
        boards_v(g.boards@),
    )
}

/// The plain values of a band.
pub open spec fn band_v(m: BandModel) -> BandV {
    (m.level@, m.label@, m.groups@.map_values(|g: BoardGroup| group_v(g)))
}

/// The plain values of a list of bands.
pub open spec fn bands_v(ms: Seq<BandModel>) -> Seq<BandV> {
    ms.map_values(|m: BandModel| band_v(m))
}

/// The flight levels in band order, with their labels.
pub open spec fn level_bands() -> Seq<(Seq<char>, Seq<char>)> {
    seq![
        ("strategy"@, "Strategy"@),
        ("initiative"@, "Initiatives"@),
        ("delivery"@, "Delivery"@),
        ("adr"@, "Decisions"@),
    ]
}

/// Is `l` one of the four flight levels?
pub open spec fn known_level(l: Seq<char>) -> bool {
    l == "strategy"@ || l == "initiative"@ || l == "delivery"@ || l == "adr"@
}

/// Does some team of `teams` have the id `t`?
pub open spec fn known_team(teams: Seq<Team>, t: Option<Seq<char>>) -> bool {
    match t {
        Some(id) => exists|k: int| 0 <= k < teams.len() && #[trigger] teams[k].id@ == id,
        None => false,
    }
}

/// Which boards a filter keeps.
pub enum Selection {
    /// Boards of this level.
    Level(String),
    /// Boards owned by this team.
    OwnedBy(String),
    /// Boards owned by no team of the list.
    Orphan,
    /// Boards of no known level.
    UnknownLevel,
}

/// Does the selection keep board `b`?
pub open spec fn keeps(sel: Selection, teams: Seq<Team>, b: BoardV) -> bool {
    match sel {
        Selection::Level(l) => b.3 == l@,
        Selection::OwnedBy(id) => b.4 == Some(id@),
        Selection::Orphan => !known_team(teams, b.4),
        Selection::UnknownLevel => !known_level(b.3),
    }
}

/// The boards of `bs` the selection keeps, in order.
pub open spec fn selected(bs: Seq<BoardV>, sel: Selection, teams: Seq<Team>) -> Seq<BoardV> {
    bs.filter(|b: BoardV| keeps(sel, teams, b))
}

/// The delivery band's per-team groups, in team order, non-empty only.
pub open spec fn team_groups(bs: Seq<BoardV>, teams: Seq<Team>, all: Seq<Team>) -> Seq<GroupV>
    decreases teams.len(),
{
    if teams.len() == 0 {
        Seq::empty()
    } else {
        let r = team_groups(bs, teams.drop_last(), all);
        let t = teams.last();
        let g = selected(bs, Selection::OwnedBy(t.id), all);
        if g.len() > 0 {
            r.push((Some((t.name@, "/teams/"@ + t.slug@)), g))
        } else {
            r
        }
    }
}

/// The delivery band's groups: per team, then the teamless boards under
/// their own heading, so no board becomes unreachable.
pub open spec fn delivery_groups(bs: Seq<BoardV>, teams: Seq<Team>) -> Seq<GroupV> {
    let orphans = selected(bs, Selection::Orphan, teams);
    team_groups(bs, teams, teams) + if orphans.len() > 0 {
        seq![(Some(("No team"@, Seq::<char>::empty())), orphans)]
    } else {
        Seq::empty()
    }
}

/// The bands of the known levels among `levels`, in order, non-empty only.
pub open spec fn known_bands(
    bs: Seq<BoardV>,
    teams: Seq<Team>,
    levels: Seq<(Seq<char>, Seq<char>)>,
) -> Seq<BandV>
    decreases levels.len(),
{
    if levels.len() == 0 {
        Seq::empty()
    } else {
        let r = known_bands(bs, teams, levels.drop_last());
        let l = levels.last().0;
        let of_level = bs.filter(|b: BoardV| b.3 == l);
        if of_level.len() > 0 {
            r.push(
                (
                    l,
                    levels.last().1,
                    if l == "delivery"@ {
                        delivery_groups(of_level, teams)
                    } else {
                        seq![(None, of_level)]
                    },
                ),
            )
        } else {
            r
        }
    }
}

/// The board list: level bands in flight order (strategy, initiative,
/// delivery, adr), then one `Other` band for unknown levels.
pub open spec fn bands_spec(bs: Seq<BoardV>, teams: Seq<Team>) -> Seq<BandV> {
    let unknown = selected(bs, Selection::UnknownLevel, teams);
    known_bands(bs, teams, level_bands()) + if unknown.len() > 0 {
        seq![("other"@, "Other"@, seq![(None, unknown)])]
    } else {
        Seq::empty()
    }
}

/// A copy of an optional string.
fn clone_opt(o: &Option<String>) -> (r: Option<String>)
    ensures
        opt_view(r) == opt_view(*o),
{
    match o {
        Some(s) => Some(string_clone(s)),
        None => None,
    }
}

/// A copy of a board.
pub fn clone_board(b: &Board) -> (r: Board)
    ensures
        board_v(r) == board_v(*b),
{
    Board {
        id: string_clone(&b.id),
        name: string_clone(&b.name),
        slug: string_clone(&b.slug),
        board_level: string_clone(&b.board_level),
        team_id: clone_opt(&b.team_id),
    }
}

/// Is `id` the id of some team (exec form)?
fn team_known(teams: &[Team], id: &Option<String>) -> (r: bool)
    ensures
        r == known_team(teams@, opt_view(*id)),
{
    let want = match id {
        Some(w) => w,
        None => {
            return false;
        },
    };
    let mut k: usize = 0;
    while k < teams.len()
        invariant
            k <= teams@.len(),
            opt_view(*id) == Some(want@),
            forall|j: int| 0 <= j < k ==> #[trigger] teams@[j].id@ != want@,
        decreases teams@.len() - k,
    {
        if str_eq(teams[k].id.as_str(), want.as_str()) {
            assert(teams@[k as int].id@ == want@);
            return true;
        }
        k = k + 1;
    }
    false
}

/// Does the selection keep board `b` (exec form)?
fn keeps_board(sel: &Selection, teams: &[Team], b: &Board) -> (r: bool)
    ensures
        r == keeps(*sel, teams@, board_v(*b)),
{
    match sel {
        Selection::Level(l) => str_eq(b.board_level.as_str(), l.as_str()),
        Selection::OwnedBy(id) => match &b.team_id {
            Some(t) => str_eq(t.as_str(), id.as_str()),
            None => false,
        },
        Selection::Orphan => !team_known(teams, &b.team_id),
        Selection::UnknownLevel => {
            let l = b.board_level.as_str();
            !(str_eq(l, "strategy") || str_eq(l, "initiative") || str_eq(l, "delivery") || str_eq(
                l,
                "adr",
            ))
        },
    }
}

/// Copies of the boards of `bs` the selection keeps, in order.
fn select_boards(bs: &Vec<Board>, sel: &Selection, teams: &[Team]) -> (r: Vec<Board>)
    ensures
        boards_v(r@) == selected(boards_v(bs@), *sel, teams@),
{
    let ghost pred = |b: BoardV| keeps(*sel, teams@, b);
    let mut out: Vec<Board> = Vec::new();
    let mut i: usize = 0;
    while i < bs.len()
        invariant
            i <= bs@.len(),
            pred == (|b: BoardV| keeps(*sel, teams@, b)),
            boards_v(out@) == boards_v(bs@).take(i as int).filter(pred),
        decreases bs@.len() - i,
    {
        let keep = keeps_board(sel, teams, &bs[i]);
        proof {
            reveal_with_fuel(Seq::<_>::filter, 1);
            assert(boards_v(bs@).take(i + 1).drop_last() =~= boards_v(bs@).take(i as int));
            assert(boards_v(bs@).take(i + 1).last() == board_v(bs@[i as int]));
        }
        if keep {
            let ghost before = out@;
            out.push(clone_board(&bs[i]));
            assert(boards_v(out@) =~= boards_v(before).push(board_v(bs@[i as int])));
        }
        i = i + 1;
    }
    assert(boards_v(bs@).take(bs@.len() as int) =~= boards_v(bs@));
    out
}

/// The `i`-th flight level and its label.
fn level_band(i: usize) -> (r: (&'static str, &'static str))
    requires
        i < 4,
    ensures
        (r.0@, r.1@) == level_bands()[i as int],
{
    match i {
        0 => ("strategy", "Strategy"),
        1 => ("initiative", "Initiatives"),
        2 => ("delivery", "Delivery"),
        _ => ("adr", "Decisions"),
    }
}

/// The delivery band's groups for the delivery boards `of_level`.
fn delivery_band_groups(of_level: &Vec<Board>, teams: &[Team]) -> (r: Vec<BoardGroup>)
    ensures
        r@.map_values(|g: BoardGroup| group_v(g)) == delivery_groups(boards_v(of_level@), teams@),
{
    let ghost bs = boards_v(of_level@);
    let mut groups: Vec<BoardGroup> = Vec::new();
    let mut i: usize = 0;
    while i < teams.len()
        invariant
            i <= teams@.len(),
            bs == boards_v(of_level@),
            groups@.map_values(|g: BoardGroup| group_v(g)) == team_groups(
                bs,
                teams@.take(i as int),
                teams@,
            ),
        decreases teams@.len() - i,
    {
        let team = &teams[i];
        let sel = Selection::OwnedBy(string_clone(&team.id));
        let of_team = select_boards(of_level, &sel, teams);
        proof {
            assert(teams@.take(i + 1).drop_last() =~= teams@.take(i as int));
            assert(teams@.take(i + 1).last() == teams@[i as int]);
            assert(selected(bs, sel, teams@) == selected(
                bs,
                Selection::OwnedBy(teams@[i as int].id),
                teams@,
            )) by {
                assert(keeps(sel, teams@, bs[0]) == keeps(
                    Selection::OwnedBy(teams@[i as int].id),
                    teams@,
                    bs[0],
                )) by {}
                assert(selected(bs, sel, teams@) =~= selected(
                    bs,
                    Selection::OwnedBy(teams@[i as int].id),
                    teams@,
                )) by {
                    let p1 = |b: BoardV| keeps(sel, teams@, b);
                    let p2 = |b: BoardV| keeps(Selection::OwnedBy(teams@[i as int].id), teams@, b);
                    assert(p1 =~= p2);
                }
            }
        }
        if of_team.len() > 0 {
            let mut href = owned("/teams/");
            push_str(&mut href, team.slug.as_str());
            let ghost before = groups@;
            groups.push(
                BoardGroup { heading: Some((string_clone(&team.name), href)), boards: of_team },
            );
            assert(groups@.map_values(|g: BoardGroup| group_v(g)) =~= before.map_values(
                |g: BoardGroup| group_v(g),
            ).push(group_v(groups@[before.len() as int])));
        }
        i = i + 1;
    }
    assert(teams@.take(teams@.len() as int) =~= teams@);
    let orphans = select_boards(of_level, &Selection::Orphan, teams);
    if orphans.len() > 0 {
        let ghost before = groups@;
        groups.push(BoardGroup { heading: Some((owned("No team"), String::new())), boards: orphans });
        assert(groups@.map_values(|g: BoardGroup| group_v(g)) =~= before.map_values(
            |g: BoardGroup| group_v(g),
        ).push(group_v(groups@[before.len() as int])));
    } else {
        assert(groups@.map_values(|g: BoardGroup| group_v(g)) =~= groups@.map_values(
            |g: BoardGroup| group_v(g),
        ) + Seq::<GroupV>::empty());
    }
    groups
}

/// Bucket boards into flight-level bands (strategy, initiative, delivery,
/// adr; unknown levels last), the delivery band grouped by owning team.
pub fn band_models(boards: Vec<Board>, teams: &[Team]) -> (r: Vec<BandModel>)
    ensures
        bands_v(r@) == bands_spec(boards_v(boards@), teams@),
{
    let ghost bs = boards_v(boards@);
    let mut bands: Vec<BandModel> = Vec::new();
    let mut i: usize = 0;
    while i < 4
        invariant
            i <= 4,
            bs == boards_v(boards@),
            bands_v(bands@) == known_bands(bs, teams@, level_bands().take(i as int)),
        decreases 4 - i,
    {
        let (level, label) = level_band(i);
        let sel = Selection::Level(owned(level));
        let of_level = select_boards(&boards, &sel, teams);
        proof {
            assert(level_bands().take(i + 1).drop_last() =~= level_bands().take(i as int));
            assert(level_bands().take(i + 1).last() == level_bands()[i as int]);
            let l = level_bands().take(i + 1).last().0;
            assert(l == level@);
            let p1 = |b: BoardV| keeps(sel, teams@, b);
            let p2 = |b: BoardV| b.3 == l;
            assert(p1 =~= p2);
            assert(boards_v(of_level@) == bs.filter(p2));
        }
        if of_level.len() > 0 {
            let groups = if str_eq(level, "delivery") {
                delivery_band_groups(&of_level, teams)
            } else {
                let mut g: Vec<BoardGroup> = Vec::new();
                g.push(BoardGroup { heading: None, boards: of_level });
                assert(g@.map_values(|x: BoardGroup| group_v(x)) =~= seq![
                    group_v(g@[0]),
                ]);
                g
            };
            let ghost before = bands@;
            bands.push(BandModel { level: owned(level), label: owned(label), groups });
            assert(bands_v(bands@) =~= bands_v(before).push(band_v(bands@[before.len() as int])));
        }
        i = i + 1;
    }
    assert(level_bands().take(4) =~= level_bands());
    let unknown = select_boards(&boards, &Selection::UnknownLevel, teams);
    if unknown.len() > 0 {
        let mut g: Vec<BoardGroup> = Vec::new();
        g.push(BoardGroup { heading: None, boards: unknown });
        assert(g@.map_values(|x: BoardGroup| group_v(x)) =~= seq![group_v(g@[0])]);
        let ghost before = bands@;
        bands.push(BandModel { level: owned("other"), label: owned("Other"), groups: g });
        assert(bands_v(bands@) =~= bands_v(before).push(band_v(bands@[before.len() as int])));
    } else {
        assert(bands_v(bands@) =~= bands_v(bands@) + Seq::<BandV>::empty());
    }
    bands
}

/// Does some group of some band hold the board `x`?
pub open spec fn reachable(bands: Seq<BandV>, x: BoardV) -> bool {
    exists|b: int, g: int|
        0 <= b < bands.len() && 0 <= g < bands[b].2.len() && #[trigger] bands[b].2[g].1.contains(x)
}

proof fn lemma_selected_contains(bs: Seq<BoardV>, sel: Selection, teams: Seq<Team>, x: BoardV)
    requires
        bs.contains(x),
        keeps(sel, teams, x),
    ensures
        selected(bs, sel, teams).contains(x),
{
    let i = choose|i: int| 0 <= i < bs.len() && bs[i] == x;
    bs.lemma_filter_contains(|b: BoardV| keeps(sel, teams, b), i);
}

proof fn lemma_team_groups_reach(bs: Seq<BoardV>, teams: Seq<Team>, all: Seq<Team>, x: BoardV, id: Seq<char>)
    requires
        bs.contains(x),
        x.4 == Some(id),
        exists|j: int| 0 <= j < teams.len() && #[trigger] teams[j].id@ == id,
    ensures
        exists|g: int|
            0 <= g < team_groups(bs, teams, all).len() && #[trigger] team_groups(bs, teams, all)[g].1.contains(x),
    decreases teams.len(),
{
    let j = choose|j: int| 0 <= j < teams.len() && #[trigger] teams[j].id@ == id;
    let init = teams.drop_last();
    let r = team_groups(bs, init, all);
    let res = team_groups(bs, teams, all);
    let t = teams.last();
    let sel = selected(bs, Selection::OwnedBy(t.id), all);
    if j < teams.len() - 1 {
        assert(init[j] == teams[j]);
        lemma_team_groups_reach(bs, init, all, x, id);
        let g = choose|g: int| 0 <= g < r.len() && #[trigger] r[g].1.contains(x);
        if sel.len() > 0 {
            assert(res[g] == r[g]);
        }
    } else {
        assert(t == teams[j]);
        lemma_selected_contains(bs, Selection::OwnedBy(t.id), all, x);
        assert(sel.len() > 0);
        assert(res[res.len() - 1].1 == sel);
    }
}

proof fn lemma_known_bands_reach(bs: Seq<BoardV>, teams: Seq<Team>, levels: Seq<(Seq<char>, Seq<char>)>, x: BoardV)
    requires
        bs.contains(x),
        exists|m: int| 0 <= m < levels.len() && #[trigger] levels[m].0 == x.3,
    ensures
        reachable(known_bands(bs, teams, levels), x),
    decreases levels.len(),
{
    let m = choose|m: int| 0 <= m < levels.len() && #[trigger] levels[m].0 == x.3;
    let init = levels.drop_last();
    let r = known_bands(bs, teams, init);
    let res = known_bands(bs, teams, levels);
    let l = levels.last().0;
    let of_level = bs.filter(|b: BoardV| b.3 == l);
    if m < levels.len() - 1 {
        assert(init[m] == levels[m]);
        lemma_known_bands_reach(bs, teams, init, x);
        let (b, g) = choose|b: int, g: int|
            0 <= b < r.len() && 0 <= g < r[b].2.len() && #[trigger] r[b].2[g].1.contains(x);
        if of_level.len() > 0 {
            assert(res[b] == r[b]);
        }
        assert(res[b].2[g].1.contains(x));
    } else {
        assert(levels[m] == levels.last());
        let i = choose|i: int| 0 <= i < bs.len() && bs[i] == x;
        bs.lemma_filter_contains(|b: BoardV| b.3 == l, i);
        assert(of_level.contains(x));
        let band = res[res.len() - 1];
        if l == "delivery"@ {
            let groups = delivery_groups(of_level, teams);
            assert(band.2 == groups);
            let orphans = selected(of_level, Selection::Orphan, teams);
            let tg = team_groups(of_level, teams, teams);
            if known_team(teams, x.4) {
                let id = x.4->0;
                lemma_team_groups_reach(of_level, teams, teams, x, id);
                let g = choose|g: int| 0 <= g < tg.len() && #[trigger] tg[g].1.contains(x);
                assert(groups[g] == tg[g]);
                assert(band.2[g].1.contains(x));
            } else {
                lemma_selected_contains(of_level, Selection::Orphan, teams, x);
                assert(orphans.len() > 0);
                assert(groups[groups.len() - 1].1 == orphans);
                assert(band.2[band.2.len() - 1].1.contains(x));
            }
        } else {
            assert(band.2[0].1 == of_level);
        }
    }
}

/// Nothing becomes unreachable: every board lands in some group of some
/// band (unknown levels in `Other`, teamless or unknown-team delivery
/// boards under `No team`).
pub proof fn law_every_board_is_reachable(bs: Seq<BoardV>, teams: Seq<Team>)
    ensures
        forall|k: int| 0 <= k < bs.len() ==> reachable(bands_spec(bs, teams), #[trigger] bs[k]),
{
    assert forall|k: int| 0 <= k < bs.len() implies reachable(bands_spec(bs, teams), #[trigger] bs[k]) by {
        let x = bs[k];
        let kb = known_bands(bs, teams, level_bands());
        let unknown = selected(bs, Selection::UnknownLevel, teams);
        let all = bands_spec(bs, teams);
        assert(bs.contains(x));
        if known_level(x.3) {
            let ls = level_bands();
            if x.3 == "strategy"@ {
                assert(ls[0].0 == x.3);
            } else if x.3 == "initiative"@ {
                assert(ls[1].0 == x.3);
            } else if x.3 == "delivery"@ {
                assert(ls[2].0 == x.3);
            } else {
                assert(ls[3].0 == x.3);
            }
            lemma_known_bands_reach(bs, teams, ls, x);
            let (b, g) = choose|b: int, g: int|
                0 <= b < kb.len() && 0 <= g < kb[b].2.len() && #[trigger] kb[b].2[g].1.contains(x);
            assert(all[b] == kb[b]);
        } else {
            lemma_selected_contains(bs, Selection::UnknownLevel, teams, x);
            assert(unknown.len() > 0);
            assert(all[all.len() - 1].2[0].1 == unknown);
        }
    }
}

/// The `(short_code, title)` candidates of one column: its strategies,
/// then its initiatives, then its tasks.
pub open spec fn column_parents(c: BoardColumnItems) -> Seq<(Seq<char>, Seq<char>)> {
    c.strategies@.map_values(|x: Strategy| (x.short_code@, x.title@)) + c.initiatives@.map_values(
        |x: Initiative| (x.short_code@, x.title@),
    ) + c.tasks@.map_values(|x: Task| (x.short_code@, x.title@))
}

/// The document-parent candidates of the columns, column by column.
pub open spec fn parents_of(cols: Seq<BoardColumnItems>) -> Seq<(Seq<char>, Seq<char>)>
    decreases cols.len(),
{
    if cols.len() == 0 {
        Seq::empty()
    } else {
        parents_of(cols.drop_last()) + column_parents(cols.last())
    }
}

/// The `(short_code, title)` of the board's document-parent candidates
/// (strategies, initiatives and tasks; ADRs take no documents).
pub fn doc_parent_options(view: &BoardView) -> (r: Vec<(String, String)>)
    ensures
        pairs_view(r@) == parents_of(view.items.columns@),
{
    let cols = &view.items.columns;
    let mut out: Vec<(String, String)> = Vec::new();
    let mut c: usize = 0;
    while c < cols.len()
        invariant
            c <= cols@.len(),
            pairs_view(out@) == parents_of(cols@.take(c as int)),
        decreases cols@.len() - c,
    {
        let col = &cols[c];
        let ghost start = pairs_view(out@);
        let mut k: usize = 0;
        while k < col.strategies.len()
            invariant
                k <= col.strategies@.len(),
                pairs_view(out@) == start + col.strategies@.take(k as int).map_values(
                    |x: Strategy| (x.short_code@, x.title@),
                ),
            decreases col.strategies@.len() - k,
        {
            let x = &col.strategies[k];
            let ghost before = out@;
            out.push((string_clone(&x.short_code), string_clone(&x.title)));
            proof {
                assert(pairs_view(out@) =~= pairs_view(before).push((x.short_code@, x.title@)));
                assert(col.strategies@.take(k + 1) =~= col.strategies@.take(k as int).push(col.strategies@[k as int]));
                assert(col.strategies@.take(k + 1).map_values(|x: Strategy| (x.short_code@, x.title@))
                    =~= col.strategies@.take(k as int).map_values(|x: Strategy| (x.short_code@, x.title@)).push(
                    (x.short_code@, x.title@),
                ));
            }
            k = k + 1;
            assert(pairs_view(out@) =~= start + col.strategies@.take(k as int).map_values(
                |x: Strategy| (x.short_code@, x.title@),
            ));
        }
        assert(col.strategies@.take(k as int) =~= col.strategies@);
        let ghost mid = pairs_view(out@);
        let mut k: usize = 0;
        while k < col.initiatives.len()
            invariant
                k <= col.initiatives@.len(),
                pairs_view(out@) == mid + col.initiatives@.take(k as int).map_values(
                    |x: Initiative| (x.short_code@, x.title@),
                ),
            decreases col.initiatives@.len() - k,
        {
            let x = &col.initiatives[k];
            let ghost before = out@;
            out.push((string_clone(&x.short_code), string_clone(&x.title)));
            proof {
                assert(pairs_view(out@) =~= pairs_view(before).push((x.short_code@, x.title@)));
                assert(col.initiatives@.take(k + 1) =~= col.initiatives@.take(k as int).push(col.initiatives@[k as int]));
                assert(col.initiatives@.take(k + 1).map_values(|x: Initiative| (x.short_code@, x.title@))
                    =~= col.initiatives@.take(k as int).map_values(|x: Initiative| (x.short_code@, x.title@)).push(
                    (x.short_code@, x.title@),
                ));
            }
            k = k + 1;
            assert(pairs_view(out@) =~= mid + col.initiatives@.take(k as int).map_values(
                |x: Initiative| (x.short_code@, x.title@),
            ));
        }
        assert(col.initiatives@.take(k as int) =~= col.initiatives@);
        let ghost mid2 = pairs_view(out@);
        let mut k: usize = 0;
        while k < col.tasks.len()
            invariant
                k <= col.tasks@.len(),
                pairs_view(out@) == mid2 + col.tasks@.take(k as int).map_values(
                    |x: Task| (x.short_code@, x.title@),
                ),
            decreases col.tasks@.len() - k,
        {
            let x = &col.tasks[k];
            let ghost before = out@;
            out.push((string_clone(&x.short_code), string_clone(&x.title)));
            proof {
                assert(pairs_view(out@) =~= pairs_view(before).push((x.short_code@, x.title@)));
                assert(col.tasks@.take(k + 1) =~= col.tasks@.take(k as int).push(col.tasks@[k as int]));
                assert(col.tasks@.take(k + 1).map_values(|x: Task| (x.short_code@, x.title@))
                    =~= col.tasks@.take(k as int).map_values(|x: Task| (x.short_code@, x.title@)).push(
                    (x.short_code@, x.title@),
                ));
            }
            k = k + 1;
            assert(pairs_view(out@) =~= mid2 + col.tasks@.take(k as int).map_values(
                |x: Task| (x.short_code@, x.title@),
            ));
        }
        assert(col.tasks@.take(k as int) =~= col.tasks@);
        proof {
            assert(cols@.take(c + 1).drop_last() =~= cols@.take(c as int));
            assert(cols@.take(c + 1).last() == cols@[c as int]);
            assert(pairs_view(out@) =~= parents_of(cols@.take(c as int)) + column_parents(
                cols@[c as int],
            ));
        }
        c = c + 1;
    }
    assert(cols@.take(cols@.len() as int) =~= cols@);
    out
}

} // verus!
