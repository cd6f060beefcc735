//! The item page's decisions: tab links, the capability a restore asks
//! for, how a put-away moment reads, state accents and relationship
//! labels.

use vstd::prelude::*;
use crate::activity::{render_when, when_spec};
use crate::board_rules::Token;
use crate::text::{owned, push_str, str_eq};

verus! {

/// The five entity families an item page serves.
#[derive(Clone, Copy, Debug, PartialEq, Eq, Structural)]
pub enum Family {
    Strategy,
    Initiative,
    Task,
    Document,
    Adr,
}

/// The Details and Graph tab targets for a short code; `None` while the
/// code is still empty, so no link is ever built without it.
pub fn tab_hrefs(code: &str) -> (r: Option<(String, String)>)
    ensures
        code@.len() == 0 ==> r is None,
        code@.len() != 0 ==> (r matches Some((details, graph)) && details@ == "/items/"@ + code@
            && graph@ == "/items/"@ + code@ + "?view=graph"@),
{
    if code.is_empty() {
        return None;
    }
    let mut details = owned("/items/");
    push_str(&mut details, code);
    let mut graph = owned("/items/");
    push_str(&mut graph, code);
    push_str(&mut graph, "?view=graph");
    Some((details, graph))
}

/// The capability archiving (and so restoring) an item of a family needs.
pub open spec fn manage_cap(family: Family) -> Seq<char> {
    match family {
        Family::Strategy => "manage_strategies"@,
        Family::Initiative => "manage_initiatives"@,
        Family::Task => "manage_tasks"@,
        Family::Document => "manage_documents"@,
        Family::Adr => "manage_adrs"@,
    }
}

/// The `manage_<family>` capability that putting an item away asked for,
/// and so the one restoring it asks for.
pub fn manage_capability(family: Family) -> (r: &'static str)
    ensures
        r@ == manage_cap(family),
{
    match family {
        Family::Strategy => "manage_strategies",
        Family::Initiative => "manage_initiatives",
        Family::Task => "manage_tasks",
        Family::Document => "manage_documents",
        Family::Adr => "manage_adrs",
    }
}

/// `2026-09-23T11:30:07.479107Z` reads `2026-09-23 11:30 UTC`; text that is
/// not a timestamp passes through.
pub fn put_away_when(rfc3339: &str) -> (r: String)
    ensures
        r@ == when_spec(rfc3339@, 5, " UTC"@),
{
    render_when(rfc3339, 5, " UTC")
}

/// The badge accent of a document lifecycle state.
pub open spec fn lifecycle_token(state: Seq<char>) -> Token {
    if state == "published"@ {
        Token::Okay
    } else if state == "review"@ {
        Token::Gold
    } else {
        Token::Muted
    }
}

/// The badge color of a document lifecycle state.
pub fn lifecycle_color(state: &str) -> (r: Token)
    ensures
        r == lifecycle_token(state@),
{
    if str_eq(state, "published") {
        Token::Okay
    } else if str_eq(state, "review") {
        Token::Gold
    } else {
        Token::Muted
    }
}

/// The accent of a forge link's state; nothing reads as an error.
pub open spec fn link_state_token(state: Seq<char>) -> Token {
    if state == "open"@ {
        Token::Ice
    } else if state == "merged"@ {
        Token::Violet
    } else {
        Token::Muted
    }
}

/// The accent for a forge link's state.
pub fn link_state_color(state: &str) -> (r: Token)
    ensures
        r == link_state_token(state@),
{
    if str_eq(state, "open") {
        Token::Ice
    } else if str_eq(state, "merged") {
        Token::Violet
    } else {
        Token::Muted
    }
}

/// How a relationship reads from this item's side: an outgoing `parent`
/// edge lists children; the passive voice marks incoming edges; unknown
/// types state their direction.
pub open spec fn relationship_label_spec(relationship: Seq<char>, outgoing: bool) -> Seq<char> {
    if relationship == "parent"@ {
        if outgoing {
            "children"@
        } else {
            "parent"@
        }
    } else if relationship == "blocks"@ {
        if outgoing {
            "blocks"@
        } else {
            "blocked by"@
        }
    } else if relationship == "supports"@ {
        if outgoing {
            "supporting material"@
        } else {
            "supports"@
        }
    } else if relationship == "informs"@ {
        if outgoing {
            "informs"@
        } else {
            "informed by"@
        }
    } else if relationship == "supersedes"@ {
        if outgoing {
            "supersedes"@
        } else {
            "superseded by"@
        }
    } else if outgoing {
        relationship + " (outgoing)"@
    } else {
        relationship + " (incoming)"@
    }
}

/// The label of one direction of a relationship type.
pub fn relationship_label(relationship: &str, outgoing: bool) -> (r: String)
    ensures
        r@ == relationship_label_spec(relationship@, outgoing),
{
    if str_eq(relationship, "parent") {
        owned(if outgoing { "children" } else { "parent" })
    } else if str_eq(relationship, "blocks") {
        owned(if outgoing { "blocks" } else { "blocked by" })
    } else if str_eq(relationship, "supports") {
        owned(if outgoing { "supporting material" } else { "supports" })
    } else if str_eq(relationship, "informs") {
        owned(if outgoing { "informs" } else { "informed by" })
    } else if str_eq(relationship, "supersedes") {
        owned(if outgoing { "supersedes" } else { "superseded by" })
    } else {
        let mut r = owned(relationship);
        push_str(&mut r, if outgoing { " (outgoing)" } else { " (incoming)" });
        r
    }
}

/// The absolute detail URL of an item, from the page's origin.
pub fn item_url(origin: &str, code: &str) -> (r: String)
    ensures
        r@ == origin@ + "/items/"@ + code@,
{
    let mut r = owned(origin);
    push_str(&mut r, "/items/");
    push_str(&mut r, code);
    r
}

} // verus!
