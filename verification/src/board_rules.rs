//! The board view's decisions: accent tokens, lanes, what a drop does,
//! what the signed-in user may do on a board, and the repository lens.

use vstd::prelude::*;
use crate::api::{Whoami, WhoamiBoardCapabilities, WhoamiTeam};
use crate::board_data::EntityKind;
use crate::text::{has_prefix, owned, starts_with, str_eq, string_clone};

verus! {

/// The design-system accent tokens the views use.
#[derive(Clone, Copy, Debug, PartialEq, Eq, Structural)]
pub enum Token {
    Okay,
    Bad,
    Ice,
    Violet,
    Gold,
    Muted,
    Teal,
    Skip,
}

/// The accent of a board level.
pub open spec fn level_token(level: Seq<char>) -> Token {
    if level == "strategy"@ {
        Token::Violet
    } else if level == "initiative"@ {
        Token::Ice
    } else if level == "delivery"@ {
        Token::Teal
    } else if level == "adr"@ {
        Token::Gold
    } else {
        Token::Skip
    }
}

/// The accent token for a board level.
pub fn level_color(level: &str) -> (r: Token)
    ensures
        r == level_token(level@),
{
    if str_eq(level, "strategy") {
        Token::Violet
    } else if str_eq(level, "initiative") {
        Token::Ice
    } else if str_eq(level, "delivery") {
        Token::Teal
    } else if str_eq(level, "adr") {
        Token::Gold
    } else {
        Token::Skip
    }
}

/// The accent of an entity kind: the accent of the level that produces it.
pub open spec fn kind_token(kind: EntityKind) -> Token {
    match kind {
        EntityKind::Strategy => Token::Violet,
        EntityKind::Initiative => Token::Ice,
        EntityKind::Task => Token::Teal,
        EntityKind::Adr => Token::Gold,
    }
}

/// The accent token for an entity kind.
pub fn kind_color(kind: EntityKind) -> (r: Token)
    ensures
        r == kind_token(kind),
{
    match kind {
        EntityKind::Strategy => Token::Violet,
        EntityKind::Initiative => Token::Ice,
        EntityKind::Task => Token::Teal,
        EntityKind::Adr => Token::Gold,
    }
}

/// The in-flight card drag: the card, its column, the columns its
/// column's transitions allow, and its lane (tasks only).
pub struct DragData {
    pub kind: EntityKind,
    pub short_code: String,
    pub targets: Vec<String>,
    pub source_column: String,
    pub work_class: Option<String>,
}

/// The two board lanes, a projection of a task's work class.
pub open spec fn lane_of(work_class: Option<Seq<char>>) -> Seq<char> {
    match work_class {
        Some(w) => if w == "support"@ {
            "support"@
        } else {
            "planned"@
        },
        None => "planned"@,
    }
}

/// Which lane a card renders in: tasks follow their work class; other
/// kinds render in the planned lane.
pub fn card_lane(work_class: Option<&str>) -> (r: &'static str)
    ensures
        r@ == lane_of(
            match work_class {
                Some(w) => Some(w@),
                None => None,
            },
        ),
{
    match work_class {
        Some(w) => if str_eq(w, "support") {
            "support"
        } else {
            "planned"
        },
        None => "planned",
    }
}

/// What a drop does: move to a column, rewrite the lane, or both.
#[derive(Debug, PartialEq)]
pub struct DropEffect {
    pub transition_to: Option<String>,
    pub set_work_class: Option<String>,
}

/// The view of an optional string.
pub open spec fn opt_view(o: Option<String>) -> Option<Seq<char>> {
    match o {
        Some(s) => Some(s@),
        None => None,
    }
}

/// The view of an optional string slice.
pub open spec fn opt_str_view(o: Option<&str>) -> Option<Seq<char>> {
    match o {
        Some(s) => Some(s@),
        None => None,
    }
}

/// Is `s` one of the strings of `v`?
pub open spec fn listed(v: Seq<String>, s: Seq<char>) -> bool {
    exists|i: int| 0 <= i < v.len() && #[trigger] v[i]@ == s
}

/// The effect of dropping the drag onto (column, lane), as views: `None`
/// for a no-op or an illegal move. The same column in another lane is a
/// lane write alone (legal from any column); another column needs a
/// transition from the source column, whatever the lane; only cards that
/// carry a lane can change it.
pub open spec fn drop_spec(
    source: Seq<char>,
    targets: Seq<String>,
    work_class: Option<Seq<char>>,
    column: Seq<char>,
    lane: Option<Seq<char>>,
) -> Option<(Option<Seq<char>>, Option<Seq<char>>)> {
    let column_change = source != column;
    let lane_change = match (lane, work_class) {
        (Some(l), Some(c)) => c != l,
        _ => false,
    };
    if !column_change && !lane_change {
        None
    } else if !column_change {
        Some((None, lane))
    } else if !listed(targets, column) {
        None
    } else if !lane_change {
        Some((Some(column), None))
    } else {
        Some((Some(column), lane))
    }
}

/// The view of a drop effect.
pub open spec fn effect_view(e: DropEffect) -> (Option<Seq<char>>, Option<Seq<char>>) {
    (opt_view(e.transition_to), opt_view(e.set_work_class))
}

/// Owned copy of an optional string slice.
fn owned_opt(o: Option<&str>) -> (r: Option<String>)
    ensures
        opt_view(r) == opt_str_view(o),
{
    match o {
        Some(s) => Some(owned(s)),
        None => None,
    }
}

/// Does `v` hold the string `s`?
fn holds(v: &Vec<String>, s: &str) -> (r: bool)
    ensures
        r == listed(v@, s@),
{
    let mut i: usize = 0;
    while i < v.len()
        invariant
            i <= v@.len(),
            forall|k: int| 0 <= k < i ==> #[trigger] v@[k]@ != s@,
        decreases v@.len() - i,
    {
        if str_eq(v[i].as_str(), s) {
            return true;
        }
        i = i + 1;
    }
    false
}

/// What dropping the in-flight drag onto (column, lane) would do; `None`
/// when the drop is a no-op or illegal.
pub fn drop_effect(drag: &DragData, column_id: &str, lane: Option<&str>) -> (r: Option<DropEffect>)
    ensures
        match r {
            Some(e) => drop_spec(
                drag.source_column@,
                drag.targets@,
                opt_view(drag.work_class),
                column_id@,
                opt_str_view(lane),
            ) == Some(effect_view(e)),
            None => drop_spec(
                drag.source_column@,
                drag.targets@,
                opt_view(drag.work_class),
                column_id@,
                opt_str_view(lane),
            ) is None,
        },
{
    let column_change = !str_eq(drag.source_column.as_str(), column_id);
    let lane_change = match (lane, &drag.work_class) {
        (Some(l), Some(current)) => !str_eq(current.as_str(), l),
        _ => false,
    };
    if !column_change && !lane_change {
        None
    } else if !column_change {
        Some(DropEffect { transition_to: None, set_work_class: owned_opt(lane) })
    } else if !holds(&drag.targets, column_id) {
        None
    } else if !lane_change {
        Some(DropEffect { transition_to: Some(owned(column_id)), set_work_class: None })
    } else {
        Some(DropEffect { transition_to: Some(owned(column_id)), set_work_class: owned_opt(lane) })
    }
}

/// What the signed-in user may do on one board.
#[derive(Clone, Copy, Debug, PartialEq, Eq, Structural)]
pub struct BoardPowers {
    /// May move cards.
    pub transition: bool,
    /// May create this board level's entity.
    pub create: bool,
    /// May create documents.
    pub documents: bool,
}

impl Default for BoardPowers {
    fn default() -> (p: BoardPowers)
        ensures
            !p.transition && !p.create && !p.documents,
    {
        BoardPowers { transition: false, create: false, documents: false }
    }
}

/// The capability that creating an entity of `kind` requires.
pub open spec fn create_cap(kind: EntityKind) -> Seq<char> {
    match kind {
        EntityKind::Strategy => "manage_strategies"@,
        EntityKind::Initiative => "manage_initiatives"@,
        EntityKind::Task => "manage_tasks"@,
        EntityKind::Adr => "manage_adrs"@,
    }
}

/// The `manage_*` capability that creating this kind requires.
pub fn create_capability(kind: EntityKind) -> (r: &'static str)
    ensures
        r@ == create_cap(kind),
{
    match kind {
        EntityKind::Strategy => "manage_strategies",
        EntityKind::Initiative => "manage_initiatives",
        EntityKind::Task => "manage_tasks",
        EntityKind::Adr => "manage_adrs",
    }
}

/// Does a stored grant cover `required`? Exact match, `*`, or a trailing
/// `*` glob whose stem prefixes `required`.
pub open spec fn covers(grant: Seq<char>, required: Seq<char>) -> bool {
    grant == "*"@ || grant == required || (grant.len() > 0 && grant.last() == '*' && has_prefix(
        required,
        grant.drop_last(),
    ))
}

/// Does a stored grant cover `required` (exec form)?
pub fn grant_covers(grant: &str, required: &str) -> (r: bool)
    ensures
        r == covers(grant@, required@),
{
    if str_eq(grant, "*") || str_eq(grant, required) {
        return true;
    }
    let g = crate::text::chars_of(grant);
    let n = g.len();
    if n == 0 || g[n - 1] != '*' {
        return false;
    }
    let stem = crate::text::string_of_range(&g, 0, n - 1);
    assert(stem@ =~= grant@.drop_last());
    starts_with(required, stem.as_str())
}

/// The capabilities that membership in a board's owning team implies.
pub open spec fn implied_by_team(required: Seq<char>) -> bool {
    required == "manage_tasks"@ || required == "manage_documents"@ || required
        == "transition_items"@
}

/// Does team membership imply `required` (exec form)?
pub fn team_implies(required: &str) -> (r: bool)
    ensures
        r == implied_by_team(required@),
{
    str_eq(required, "manage_tasks") || str_eq(required, "manage_documents") || str_eq(
        required,
        "transition_items",
    )
}

/// Is the caller a member of the team `team`?
pub open spec fn in_team(teams: Seq<WhoamiTeam>, team: Seq<char>) -> bool {
    exists|i: int| 0 <= i < teams.len() && #[trigger] teams[i].id@ == team
}

/// Does some grant on the board `slug` cover `required`?
pub open spec fn granted_on(
    caps: Seq<WhoamiBoardCapabilities>,
    slug: Seq<char>,
    required: Seq<char>,
) -> bool {
    exists|i: int, j: int|
        0 <= i < caps.len() && caps[i].board_slug@ == slug && 0 <= j < caps[i].grants@.len()
            && #[trigger] covers(caps[i].grants@[j]@, required)
}

/// Does the caller hold `required` on the board, by team implication or
/// by an explicit grant?
pub open spec fn has_power(
    me: Whoami,
    slug: Seq<char>,
    team: Option<Seq<char>>,
    required: Seq<char>,
) -> bool {
    let team_member = match team {
        Some(t) => in_team(me.teams@, t),
        None => false,
    };
    (team_member && implied_by_team(required)) || granted_on(me.capabilities@, slug, required)
}

/// The powers of `me` on a board: org admins may do everything; others get
/// what a grant on this board or the owning team's implication gives.
pub open spec fn powers_spec(
    me: Whoami,
    slug: Seq<char>,
    team: Option<Seq<char>>,
    create_kind: Option<EntityKind>,
) -> BoardPowers {
    if me.organization.role@ == "admin"@ {
        BoardPowers { transition: true, create: create_kind is Some, documents: true }
    } else {
        BoardPowers {
            transition: has_power(me, slug, team, "transition_items"@),
            create: match create_kind {
                Some(k) => has_power(me, slug, team, create_cap(k)),
                None => false,
            },
            documents: has_power(me, slug, team, "manage_documents"@),
        }
    }
}

/// Is the caller a member of `team` (exec form)?
fn member_of(teams: &Vec<WhoamiTeam>, team: &str) -> (r: bool)
    ensures
        r == in_team(teams@, team@),
{
    let mut i: usize = 0;
    while i < teams.len()
        invariant
            i <= teams@.len(),
            forall|k: int| 0 <= k < i ==> #[trigger] teams@[k].id@ != team@,
        decreases teams@.len() - i,
    {
        if str_eq(teams[i].id.as_str(), team) {
            return true;
        }
        i = i + 1;
    }
    false
}

/// Does some grant on board `slug` cover `required` (exec form)?
fn granted(caps: &Vec<WhoamiBoardCapabilities>, slug: &str, required: &str) -> (r: bool)
    ensures
        r == granted_on(caps@, slug@, required@),
{
    let mut i: usize = 0;
    while i < caps.len()
        invariant
            i <= caps@.len(),
            forall|a: int, b: int|
                0 <= a < i && caps@[a].board_slug@ == slug@ && 0 <= b < caps@[a].grants@.len()
                    ==> !#[trigger] covers(caps@[a].grants@[b]@, required@),
        decreases caps@.len() - i,
    {
        if str_eq(caps[i].board_slug.as_str(), slug) {
            let grants = &caps[i].grants;
            let mut j: usize = 0;
            while j < grants.len()
                invariant
                    i < caps@.len(),
                    caps@[i as int].board_slug@ == slug@,
                    grants@ == caps@[i as int].grants@,
                    j <= grants@.len(),
                    forall|a: int, b: int|
                        0 <= a < i && caps@[a].board_slug@ == slug@ && 0 <= b
                            < caps@[a].grants@.len() ==> !#[trigger] covers(
                            caps@[a].grants@[b]@,
                            required@,
                        ),
                    forall|b: int| 0 <= b < j ==> !#[trigger] covers(grants@[b]@, required@),
                decreases grants@.len() - j,
            {
                if grant_covers(grants[j].as_str(), required) {
                    return true;
                }
                j = j + 1;
            }
        }
        i = i + 1;
    }
    false
}

/// Does the caller hold `required` on the board (exec form)?
fn has(me: &Whoami, slug: &str, team: Option<&str>, required: &str) -> (r: bool)
    ensures
        r == has_power(*me, slug@, opt_str_view(team), required@),
{
    let team_member = match team {
        Some(t) => member_of(&me.teams, t),
        None => false,
    };
    (team_member && team_implies(required)) || granted(&me.capabilities, slug, required)
}

/// The powers of `me` on the board `board_slug` (owned by
/// `board_team_id`, creating `create_kind` items).
pub fn board_powers(
    me: &Whoami,
    board_slug: &str,
    board_team_id: Option<&str>,
    create_kind: Option<EntityKind>,
) -> (p: BoardPowers)
    ensures
        p == powers_spec(*me, board_slug@, opt_str_view(board_team_id), create_kind),
{
    if str_eq(me.organization.role.as_str(), "admin") {
        return BoardPowers { transition: true, create: create_kind.is_some(), documents: true };
    }
    let create = match create_kind {
        Some(kind) => has(me, board_slug, board_team_id, create_capability(kind)),
        None => false,
    };
    BoardPowers {
        transition: has(me, board_slug, board_team_id, "transition_items"),
        create,
        documents: has(me, board_slug, board_team_id, "manage_documents"),
    }
}

/// A drop effect moves the card only to `column`, and only when `column`
/// is one of the drag's targets.
pub open spec fn moves_legally(
    r: Option<(Option<Seq<char>>, Option<Seq<char>>)>,
    targets: Seq<String>,
    column: Seq<char>,
) -> bool {
    match r {
        Some(e) => e.0 is Some ==> listed(targets, column) && e.0 == Some(column),
        None => true,
    }
}

/// A drop effect rewrites no lane.
pub open spec fn keeps_lane(r: Option<(Option<Seq<char>>, Option<Seq<char>>)>) -> bool {
    match r {
        Some(e) => e.1 is None,
        None => true,
    }
}

/// A drop effect moves no card between columns.
pub open spec fn keeps_column(r: Option<(Option<Seq<char>>, Option<Seq<char>>)>) -> bool {
    match r {
        Some(e) => e.0 is None,
        None => true,
    }
}

/// Column legality stays with the transitions: a drop that moves the card
/// to another column is offered only when that column is one of the drag's
/// targets, whatever the lane; a card without a lane is never re-laned;
/// a drop onto the card's own column never moves it.
pub proof fn law_drops_respect_transitions(
    source: Seq<char>,
    targets: Seq<String>,
    work_class: Option<Seq<char>>,
    column: Seq<char>,
    lane: Option<Seq<char>>,
)
    ensures
        moves_legally(drop_spec(source, targets, work_class, column, lane), targets, column),
        source != column && !listed(targets, column) ==> drop_spec(
            source,
            targets,
            work_class,
            column,
            lane,
        ) == None::<(Option<Seq<char>>, Option<Seq<char>>)>,
        work_class == None::<Seq<char>> ==> keeps_lane(
            drop_spec(source, targets, work_class, column, lane),
        ),
        source == column ==> keeps_column(drop_spec(source, targets, work_class, column, lane)),
{
}

/// Org admins may do everything on every board (creating only where the
/// board level has an entity kind).
pub proof fn law_org_admin_holds_every_power(
    me: Whoami,
    slug: Seq<char>,
    team: Option<Seq<char>>,
    create_kind: Option<EntityKind>,
)
    requires
        me.organization.role@ == "admin"@,
    ensures
        powers_spec(me, slug, team, create_kind) == (BoardPowers {
            transition: true,
            create: create_kind is Some,
            documents: true,
        }),
{
}

/// No power at all.
pub open spec fn no_powers(p: BoardPowers) -> bool {
    !p.transition && !p.create && !p.documents
}

/// For everyone else, powers are board-scoped: with no grant entry for the
/// board and no membership in its owning team, nothing is allowed; and team
/// membership never grants creating strategies, initiatives or ADRs.
pub proof fn law_powers_are_board_scoped(
    me: Whoami,
    slug: Seq<char>,
    team: Option<Seq<char>>,
    create_kind: Option<EntityKind>,
)
    requires
        me.organization.role@ != "admin"@,
    ensures
        ((forall|i: int|
            0 <= i < me.capabilities@.len() ==> #[trigger] me.capabilities@[i].board_slug@ != slug)
            && !(team matches Some(t) && in_team(me.teams@, t)) ==> no_powers(
            powers_spec(me, slug, team, create_kind),
        )),
        forall|k: EntityKind|
            k != EntityKind::Task && !granted_on(me.capabilities@, slug, #[trigger] create_cap(k))
                ==> !has_power(me, slug, team, create_cap(k)),
{
    assert forall|k: EntityKind|
        k != EntityKind::Task && !granted_on(me.capabilities@, slug, #[trigger] create_cap(k))
            implies !has_power(me, slug, team, create_cap(k)) by {
        reveal_strlit("manage_strategies");
        reveal_strlit("manage_initiatives");
        reveal_strlit("manage_adrs");
        reveal_strlit("manage_tasks");
        reveal_strlit("manage_documents");
        reveal_strlit("transition_items");
        assert(!implied_by_team(create_cap(k))) by {
            assert(create_cap(k).len() != "manage_tasks"@.len() || create_cap(k)[7] != "manage_tasks"@[7]);
            assert(create_cap(k).len() != "manage_documents"@.len() || create_cap(k)[7]
                != "manage_documents"@[7]);
            assert(create_cap(k)[0] != "transition_items"@[0]);
        }
    }
}

} // verus!
