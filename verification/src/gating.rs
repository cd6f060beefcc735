//! Whoami-driven admin access gating: which admin surfaces the client
//! offers, mirroring the server's capability matching.

use vstd::prelude::*;
use crate::api::{Whoami, WhoamiBoardCapabilities};
use crate::glob::{glob_match, like_match};
use crate::text::str_eq;

verus! {

/// Does the stored grant `granted` satisfy the concrete `required`
/// capability? A bare `*` grants all; otherwise `*` in `granted` is a
/// multi-character wildcard and everything else is literal.
pub open spec fn grant_satisfies(granted: Seq<char>, required: Seq<char>) -> bool {
    granted == "*"@ || like_match(granted, required)
}

/// Does some board in `caps` carry a grant satisfying `required`?
pub open spec fn holds_on_some_board(caps: Seq<WhoamiBoardCapabilities>, required: Seq<char>) -> bool {
    exists|i: int, j: int|
        0 <= i < caps.len() && 0 <= j < caps[i].grants@.len() && #[trigger] grant_satisfies(
            caps[i].grants@[j]@,
            required,
        )
}

/// The caller is an org admin.
pub open spec fn spec_is_org_admin(me: Whoami) -> bool {
    me.organization.role@ == "admin"@
}

/// The caller holds a board-configuration capability on some board.
pub open spec fn spec_has_board_config(me: Whoami) -> bool {
    holds_on_some_board(me.capabilities@, "configure_boards"@) || holds_on_some_board(
        me.capabilities@,
        "manage_members"@,
    )
}

/// Does the stored grant `granted` satisfy the concrete `required`
/// capability?
pub fn capability_matches(granted: &str, required: &str) -> (r: bool)
    ensures
        r == grant_satisfies(granted@, required@),
{
    if str_eq(granted, "*") {
        return true;
    }
    glob_match(granted, required)
}

/// Does the caller hold `required` on ANY board (whitelist: no grant, no
/// access)?
pub fn holds_any(caps: &[WhoamiBoardCapabilities], required: &str) -> (r: bool)
    ensures
        r == holds_on_some_board(caps@, required@),
{
    let mut i: usize = 0;
    while i < caps.len()
        invariant
            i <= caps@.len(),
            forall|a: int, b: int|
                0 <= a < i && 0 <= b < caps@[a].grants@.len() ==> !#[trigger] grant_satisfies(
                    caps@[a].grants@[b]@,
                    required@,
                ),
        decreases caps@.len() - i,
    {
        let grants = &caps[i].grants;
        let mut j: usize = 0;
        while j < grants.len()
            invariant
                i < caps@.len(),
                grants@ == caps@[i as int].grants@,
                j <= grants@.len(),
                forall|a: int, b: int|
                    0 <= a < i && 0 <= b < caps@[a].grants@.len() ==> !#[trigger] grant_satisfies(
                        caps@[a].grants@[b]@,
                        required@,
                    ),
                forall|b: int| 0 <= b < j ==> !#[trigger] grant_satisfies(grants@[b]@, required@),
            decreases grants@.len() - j,
        {
            if capability_matches(grants[j].as_str(), required) {
                return true;
            }
            j = j + 1;
        }
        i = i + 1;
    }
    false
}

/// Whether the caller is an org admin (full access to every admin surface).
pub fn is_org_admin(me: &Whoami) -> (r: bool)
    ensures
        r == spec_is_org_admin(*me),
{
    str_eq(me.organization.role.as_str(), "admin")
}

/// Whether the caller holds a board-configuration capability
/// (`configure_boards` or `manage_members`) on at least one board.
pub fn has_board_config(me: &Whoami) -> (r: bool)
    ensures
        r == spec_has_board_config(*me),
{
    holds_any(&me.capabilities, "configure_boards") || holds_any(&me.capabilities, "manage_members")
}

/// May the caller reach the admin section at all? Org admins always;
/// other users iff they hold a board-configuration capability somewhere.
pub fn can_access(me: &Whoami) -> (r: bool)
    ensures
        r == (spec_is_org_admin(*me) || spec_has_board_config(*me)),
{
    is_org_admin(me) || has_board_config(me)
}

/// A grant on any board counts, not only on the first: whenever some
/// board `i` of `caps` carries a grant `j` satisfying `required`, the
/// caller holds it (and so, for a board-configuration capability, reaches
/// the admin section); without such a board and grant, it does not.
pub proof fn law_grant_on_any_board_counts(caps: Seq<WhoamiBoardCapabilities>, required: Seq<char>)
    ensures
        forall|i: int, j: int|
            0 <= i < caps.len() && 0 <= j < caps[i].grants@.len() && grant_satisfies(
                #[trigger] caps[i].grants@[j]@,
                required,
            ) ==> holds_on_some_board(caps, required),
        holds_on_some_board(caps, required) ==> exists|i: int, j: int|
            0 <= i < caps.len() && 0 <= j < caps[i].grants@.len() && grant_satisfies(
                #[trigger] caps[i].grants@[j]@,
                required,
            ),
{
    assert forall|i: int, j: int|
        0 <= i < caps.len() && 0 <= j < caps[i].grants@.len() && grant_satisfies(
            #[trigger] caps[i].grants@[j]@,
            required,
        ) implies holds_on_some_board(caps, required) by {
        assert(grant_satisfies(caps[i].grants@[j]@, required));
    }
}

/// A non-admin reaches the admin section exactly when some board, any of
/// them, carries a grant satisfying `configure_boards` or
/// `manage_members`.
pub proof fn law_admin_access_from_any_board(me: Whoami)
    ensures
        !spec_is_org_admin(me) ==> ((spec_is_org_admin(me) || spec_has_board_config(me)) == exists|
            i: int,
            j: int,
        |
            0 <= i < me.capabilities@.len() && 0 <= j < me.capabilities@[i].grants@.len() && (
            grant_satisfies(#[trigger] me.capabilities@[i].grants@[j]@, "configure_boards"@)
                || grant_satisfies(me.capabilities@[i].grants@[j]@, "manage_members"@))),
{
    law_grant_on_any_board_counts(me.capabilities@, "configure_boards"@);
    law_grant_on_any_board_counts(me.capabilities@, "manage_members"@);
}

} // verus!
