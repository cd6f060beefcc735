//! The board view's data: the board, its columns and transitions, the
//! grouped items, and the entity kinds a board level produces.

use vstd::prelude::*;
use crate::text::{push_str, str_eq, string_clone};

verus! {

/// A board (`board_level` is `strategy`, `initiative`, `delivery` or `adr`).
pub struct Board {
    pub id: String,
    pub name: String,
    pub slug: String,
    pub board_level: String,
    pub team_id: Option<String>,
}

/// One column of a board.
pub struct BoardColumn {
    pub id: String,
    pub name: String,
    pub position: i32,
}

/// One allowed move between two columns.
pub struct BoardTransition {
    pub from_column_id: String,
    pub to_column_id: String,
}

/// A board with its configuration.
pub struct BoardDetail {
    pub board: Board,
    pub columns: Vec<BoardColumn>,
    pub transitions: Vec<BoardTransition>,
}

/// A page of boards.
pub struct BoardListEnvelope {
    pub items: Vec<Board>,
}

/// A strategy card.
pub struct Strategy {
    pub short_code: String,
    pub title: String,
}

/// An initiative card.
pub struct Initiative {
    pub short_code: String,
    pub title: String,
    pub complexity: Option<String>,
    pub is_bucket: bool,
    pub bucket_type: Option<String>,
}

/// A task card (`task_type` is `task`, `bug` or `tech_debt`).
pub struct Task {
    pub short_code: String,
    pub title: String,
    pub task_type: String,
}

/// An ADR card.
pub struct Adr {
    pub short_code: String,
    pub title: String,
    pub decision_date: Option<String>,
}

/// The items of one column, grouped by kind.
pub struct BoardColumnItems {
    pub column: BoardColumn,
    pub strategies: Vec<Strategy>,
    pub initiatives: Vec<Initiative>,
    pub tasks: Vec<Task>,
    pub adrs: Vec<Adr>,
}

/// A board's items, column by column.
pub struct BoardItemsResponse {
    pub board: Board,
    pub columns: Vec<BoardColumnItems>,
}

/// A document template.
pub struct Template {
    pub id: String,
    pub name: String,
}

/// A page of templates.
pub struct TemplateListEnvelope {
    pub items: Vec<Template>,
}

/// A live event: only its name, since the view re-fetches on any event.
pub struct ThinEvent {
    pub event: String,
}

/// Everything the board view renders.
pub struct BoardView {
    pub detail: BoardDetail,
    pub items: BoardItemsResponse,
}

/// The four board-item entity kinds.
#[derive(Clone, Copy, Debug, PartialEq, Eq, Structural)]
pub enum EntityKind {
    Strategy,
    Initiative,
    Task,
    Adr,
}

/// The URL family of a kind (`/api/{family}/...`).
pub open spec fn family_of(kind: EntityKind) -> Seq<char> {
    match kind {
        EntityKind::Strategy => "strategies"@,
        EntityKind::Initiative => "initiatives"@,
        EntityKind::Task => "tasks"@,
        EntityKind::Adr => "adrs"@,
    }
}

/// The card label of a kind.
pub open spec fn label_of(kind: EntityKind) -> Seq<char> {
    match kind {
        EntityKind::Strategy => "strategy"@,
        EntityKind::Initiative => "initiative"@,
        EntityKind::Task => "task"@,
        EntityKind::Adr => "adr"@,
    }
}

/// The kind a board level's create flow produces (one family per level).
pub open spec fn kind_for_level(level: Seq<char>) -> Option<EntityKind> {
    if level == "strategy"@ {
        Some(EntityKind::Strategy)
    } else if level == "initiative"@ {
        Some(EntityKind::Initiative)
    } else if level == "delivery"@ {
        Some(EntityKind::Task)
    } else if level == "adr"@ {
        Some(EntityKind::Adr)
    } else {
        None
    }
}

impl EntityKind {
    /// The URL family (`/api/{family}/{short_code}/...`).
    pub fn api_family(self) -> (r: &'static str)
        ensures
            r@ == family_of(self),
    {
        match self {
            EntityKind::Strategy => "strategies",
            EntityKind::Initiative => "initiatives",
            EntityKind::Task => "tasks",
            EntityKind::Adr => "adrs",
        }
    }

    /// The card label.
    pub fn label(self) -> (r: &'static str)
        ensures
            r@ == label_of(self),
    {
        match self {
            EntityKind::Strategy => "strategy",
            EntityKind::Initiative => "initiative",
            EntityKind::Task => "task",
            EntityKind::Adr => "adr",
        }
    }

    /// The entity kind a board level's create flow produces.
    pub fn for_board_level(level: &str) -> (r: Option<EntityKind>)
        ensures
            r == kind_for_level(level@),
    {
        if str_eq(level, "strategy") {
            Some(EntityKind::Strategy)
        } else if str_eq(level, "initiative") {
            Some(EntityKind::Initiative)
        } else if str_eq(level, "delivery") {
            Some(EntityKind::Task)
        } else if str_eq(level, "adr") {
            Some(EntityKind::Adr)
        } else {
            None
        }
    }
}

/// The create-from-column form data.
pub struct NewItem {
    pub title: String,
    pub content: String,
    pub hypothesis: Option<String>,
    pub complexity: Option<String>,
    pub task_type: Option<String>,
    pub team_id: Option<String>,
    pub decision_maker: Option<String>,
    pub decision_date: Option<String>,
}

/// Does board `b` answer to the route parameter `param` (its slug, or its
/// id as a fallback)?
pub open spec fn board_answers(b: Board, param: Seq<char>) -> bool {
    b.slug@ == param || b.id@ == param
}

/// The first board of `boards` that answers to `param`.
pub fn find_board(boards: &[Board], param: &str) -> (r: Option<usize>)
    ensures
        match r {
            Some(i) => i < boards@.len() && board_answers(boards@[i as int], param@) && forall|
                k: int,
            |
                0 <= k < i ==> !board_answers(#[trigger] boards@[k], param@),
            None => forall|k: int|
                0 <= k < boards@.len() ==> !board_answers(#[trigger] boards@[k], param@),
        },
{
    let mut i: usize = 0;
    while i < boards.len()
        invariant
            i <= boards@.len(),
            forall|k: int| 0 <= k < i ==> !board_answers(#[trigger] boards@[k], param@),
        decreases boards@.len() - i,
    {
        if str_eq(boards[i].slug.as_str(), param) || str_eq(boards[i].id.as_str(), param) {
            return Some(i);
        }
        i = i + 1;
    }
    None
}

/// Is `i` the board's entry column: the first column of lowest position?
pub open spec fn is_entry(columns: Seq<BoardColumn>, i: int) -> bool {
    &&& 0 <= i < columns.len()
    &&& forall|k: int| 0 <= k < columns.len() ==> columns[i].position <= #[trigger] columns[k].position
    &&& forall|k: int| 0 <= k < i ==> #[trigger] columns[k].position > columns[i].position
}

/// The entry column, where every created item lands: the column of lowest
/// position (the first of them on a tie); `None` for a board without
/// columns.
pub fn entry_column(columns: &[BoardColumn]) -> (r: Option<usize>)
    ensures
        match r {
            Some(i) => is_entry(columns@, i as int),
            None => columns@.len() == 0,
        },
{
    if columns.len() == 0 {
        return None;
    }
    let mut best: usize = 0;
    let mut i: usize = 1;
    while i < columns.len()
        invariant
            1 <= i <= columns@.len(),
            best < i,
            forall|k: int| 0 <= k < i ==> columns@[best as int].position <= #[trigger] columns@[k].position,
            forall|k: int| 0 <= k < best ==> #[trigger] columns@[k].position > columns@[best as int].position,
        decreases columns@.len() - i,
    {
        if columns[i].position < columns[best].position {
            best = i;
        }
        i = i + 1;
    }
    Some(best)
}

/// The path that moves an item: `/api/{family}/{short_code}/transition`.
pub fn transition_path(kind: EntityKind, short_code: &str) -> (r: String)
    ensures
        r@ == "/api/"@ + family_of(kind) + "/"@ + short_code@ + "/transition"@,
{
    let mut r = String::new();
    push_str(&mut r, "/api/");
    push_str(&mut r, kind.api_family());
    push_str(&mut r, "/");
    push_str(&mut r, short_code);
    push_str(&mut r, "/transition");
    r
}

/// The path that creates an item of `kind`: `/api/{family}`.
pub fn create_path(kind: EntityKind) -> (r: String)
    ensures
        r@ == "/api/"@ + family_of(kind),
{
    let mut r = String::new();
    push_str(&mut r, "/api/");
    push_str(&mut r, kind.api_family());
    r
}

/// The column drop targets the board's transitions allow from `column_id`,
/// each with its target column's name (empty when the target is unknown),
/// in transition order.
pub open spec fn column_name_of(columns: Seq<BoardColumn>, id: Seq<char>) -> Seq<char>
    decreases columns.len(),
{
    if columns.len() == 0 {
        Seq::empty()
    } else if columns[0].id@ == id {
        columns[0].name@
    } else {
        column_name_of(columns.drop_first(), id)
    }
}

/// The `(target id, target name)` pairs of the transitions out of
/// `column_id`, in transition order.
pub open spec fn targets_of(
    transitions: Seq<BoardTransition>,
    columns: Seq<BoardColumn>,
    column_id: Seq<char>,
) -> Seq<(Seq<char>, Seq<char>)>
    decreases transitions.len(),
{
    if transitions.len() == 0 {
        Seq::empty()
    } else {
        let rest = targets_of(transitions.drop_last(), columns, column_id);
        let t = transitions.last();
        if t.from_column_id@ == column_id {
            rest.push((t.to_column_id@, column_name_of(columns, t.to_column_id@)))
        } else {
            rest
        }
    }
}

/// The views of a list of string pairs.
pub open spec fn pairs_view(v: Seq<(String, String)>) -> Seq<(Seq<char>, Seq<char>)> {
    v.map_values(|p: (String, String)| (p.0@, p.1@))
}

/// The name of the column with id `id` (empty when there is none).
pub fn column_name(columns: &[BoardColumn], id: &str) -> (r: String)
    ensures
        r@ == column_name_of(columns@, id@),
{
    let mut i: usize = 0;
    assert(columns@.skip(0) =~= columns@);
    while i < columns.len()
        invariant
            i <= columns@.len(),
            column_name_of(columns@, id@) == column_name_of(columns@.skip(i as int), id@),
        decreases columns@.len() - i,
    {
        assert(columns@.skip(i as int).drop_first() =~= columns@.skip(i + 1));
        assert(columns@.skip(i as int)[0] == columns@[i as int]);
        if str_eq(columns[i].id.as_str(), id) {
            return string_clone(&columns[i].name);
        }
        i = i + 1;
    }
    assert(columns@.skip(i as int).len() == 0);
    String::new()
}

/// The drop targets of a column: only the moves the board's transitions
/// allow from it, so invalid moves are never offered.
pub fn column_targets(detail: &BoardDetail, column_id: &str) -> (r: Vec<(String, String)>)
    ensures
        pairs_view(r@) == targets_of(detail.transitions@, detail.columns@, column_id@),
{
    let mut r: Vec<(String, String)> = Vec::new();
    let mut i: usize = 0;
    while i < detail.transitions.len()
        invariant
            i <= detail.transitions@.len(),
            pairs_view(r@) == targets_of(
                detail.transitions@.take(i as int),
                detail.columns@,
                column_id@,
            ),
        decreases detail.transitions@.len() - i,
    {
        let t = &detail.transitions[i];
        assert(detail.transitions@.take(i + 1).drop_last() =~= detail.transitions@.take(i as int));
        if str_eq(t.from_column_id.as_str(), column_id) {
            let name = column_name(&detail.columns, t.to_column_id.as_str());
            r.push((string_clone(&t.to_column_id), name));
        }
        assert(pairs_view(r@) =~= targets_of(
            detail.transitions@.take(i + 1),
            detail.columns@,
            column_id@,
        ));
        i = i + 1;
    }
    assert(detail.transitions@.take(detail.transitions@.len() as int) =~= detail.transitions@);
    r
}

/// Does some transition out of `column_id` lead to `target`?
pub open spec fn leads_to(transitions: Seq<BoardTransition>, column_id: Seq<char>, target: Seq<char>) -> bool {
    exists|j: int|
        0 <= j < transitions.len() && #[trigger] transitions[j].from_column_id@ == column_id
            && transitions[j].to_column_id@ == target
}

/// Is `target` among the offered drop targets?
pub open spec fn offered(targets: Seq<(Seq<char>, Seq<char>)>, target: Seq<char>) -> bool {
    exists|k: int| 0 <= k < targets.len() && #[trigger] targets[k].0 == target
}

/// Invalid moves are never offered: every drop target of a column is the
/// target of a transition out of that column, and every transition out of
/// it is offered.
pub proof fn law_targets_are_the_columns_transitions(
    transitions: Seq<BoardTransition>,
    columns: Seq<BoardColumn>,
    column_id: Seq<char>,
)
    ensures
        forall|k: int|
            0 <= k < targets_of(transitions, columns, column_id).len() ==> leads_to(
                transitions,
                column_id,
                #[trigger] targets_of(transitions, columns, column_id)[k].0,
            ),
        forall|j: int|
            0 <= j < transitions.len() && #[trigger] transitions[j].from_column_id@ == column_id
                ==> offered(targets_of(transitions, columns, column_id), transitions[j].to_column_id@),
    decreases transitions.len(),
{
    if transitions.len() > 0 {
        let init = transitions.drop_last();
        law_targets_are_the_columns_transitions(init, columns, column_id);
        let r = targets_of(init, columns, column_id);
        let t = targets_of(transitions, columns, column_id);
        let last = transitions.last();
        assert forall|k: int| 0 <= k < t.len() implies leads_to(
            transitions,
            column_id,
            #[trigger] t[k].0,
        ) by {
            if k < r.len() {
                assert(t[k] == r[k]);
                assert(leads_to(init, column_id, r[k].0));
                let j = choose|j: int|
                    0 <= j < init.len() && #[trigger] init[j].from_column_id@ == column_id
                        && init[j].to_column_id@ == r[k].0;
                assert(transitions[j] == init[j]);
            } else {
                let j = transitions.len() - 1;
                assert(transitions[j] == last);
            }
        }
        assert forall|j: int|
            0 <= j < transitions.len() && #[trigger] transitions[j].from_column_id@ == column_id
                implies offered(t, transitions[j].to_column_id@) by {
            if j < init.len() {
                assert(transitions[j] == init[j]);
                assert(init[j].from_column_id@ == column_id);
                assert(offered(r, init[j].to_column_id@));
                let k = choose|k: int| 0 <= k < r.len() && #[trigger] r[k].0 == init[j].to_column_id@;
                assert(t[k] == r[k]);
            } else {
                assert(transitions[j] == last);
                assert(t[t.len() - 1].0 == last.to_column_id@);
            }
        }
    }
}

} // verus!
