//! The records the admin area reads and writes: boards with their
//! configuration, members, templates, metadata definitions and forge
//! connections.

use vstd::prelude::*;
use crate::text::owned;

verus! {

/// A board as the admin area lists it.
pub struct Board {
    pub id: String,
    pub name: String,
    pub slug: String,
    pub board_level: String,
    pub team_id: Option<String>,
}

/// One configured column; occupants of a done column count as completed.
pub struct BoardColumn {
    pub id: String,
    pub name: String,
    pub position: i32,
    pub is_done: bool,
}

/// One configured transition between two columns.
pub struct BoardTransition {
    pub id: String,
    pub from_column_id: String,
    pub to_column_id: String,
}

/// A board with its columns and transitions.
pub struct BoardDetail {
    pub board: Board,
    pub columns: Vec<BoardColumn>,
    pub transitions: Vec<BoardTransition>,
}

/// A board member with the capabilities granted to them on that board.
pub struct BoardMember {
    pub user_id: String,
    pub email: String,
    pub display_name: String,
    pub capabilities: Vec<String>,
}

/// An organization member and their role.
pub struct OrgMember {
    pub user_id: String,
    pub email: String,
    pub display_name: String,
    pub role: String,
}

/// A document template as listed.
pub struct Template {
    pub id: String,
    pub name: String,
    pub slug: String,
    pub is_system_default: bool,
}

/// One metadata field of a template.
pub struct TemplateMetadataField {
    pub slug: String,
    pub default_value: Option<String>,
    pub required: bool,
}

/// A template with its content and metadata fields.
pub struct TemplateDetail {
    pub id: String,
    pub name: String,
    pub slug: String,
    pub content: String,
    pub is_system_default: bool,
    pub metadata: Vec<TemplateMetadataField>,
}

/// One template-to-definition association in a template write.
pub struct TemplateMetadataEntry {
    pub definition_slug: String,
    pub default_value: Option<String>,
    pub required: bool,
}

/// A metadata definition (`enum_options` is non-empty exactly for `enum`).
pub struct MetadataDefinition {
    pub id: String,
    pub name: String,
    pub slug: String,
    pub field_type: String,
    pub is_system_default: bool,
    pub enum_options: Vec<String>,
}

/// A newly created forge connection, with the secret shown once.
pub struct CreatedForgeConnection {
    pub id: String,
    pub webhook_url: String,
    pub webhook_secret: String,
}

/// A repository's forge connection, if it has one.
pub struct RepositoryDetail {
    pub connection_id: Option<String>,
}

impl TemplateMetadataEntry {
    /// The association an editor row describes: an empty default means no
    /// default.
    pub fn from_row(slug: &str, default_value: &str, required: bool) -> (e: TemplateMetadataEntry)
        ensures
            e.definition_slug@ == slug@,
            e.required == required,
            match e.default_value {
                Some(d) => default_value@.len() != 0 && d@ == default_value@,
                None => default_value@.len() == 0,
            },
    {
        TemplateMetadataEntry {
            definition_slug: owned(slug),
            default_value: if default_value.is_empty() {
                None
            } else {
                Some(owned(default_value))
            },
            required,
        }
    }
}

/// The first member of `members` with email `email`, by index.
pub open spec fn first_with_email(members: Seq<OrgMember>, email: Seq<char>) -> Option<int>
    decreases members.len(),
{
    if members.len() == 0 {
        None
    } else if members[0].email@ == email {
        Some(0)
    } else {
        match first_with_email(members.drop_first(), email) {
            Some(i) => Some(i + 1),
            None => None,
        }
    }
}

/// The outcome of adding a board member: the picked member's user id, or
/// why not (no organization member has that email; no capability
/// selected), checked in that order.
pub open spec fn add_member_spec(members: Seq<OrgMember>, email: Seq<char>, capability_count: nat) -> Result<
    Seq<char>,
    Seq<char>,
> {
    match first_with_email(members, email) {
        None => Err("Pick an organization member to add."@),
        Some(i) => if capability_count == 0 {
            Err("Select at least one capability \u{2014} grants are whitelist-only (A-0006)."@)
        } else {
            Ok(members[i].user_id@)
        },
    }
}

/// Check an add-member request: the user id to grant, or the message to
/// show.
pub fn member_to_add(members: &[OrgMember], email: &str, capabilities: &[String]) -> (r: Result<
    String,
    String,
>)
    ensures
        match r {
            Ok(id) => add_member_spec(members@, email@, capabilities@.len()) == Ok::<Seq<char>, Seq<char>>(id@),
            Err(m) => add_member_spec(members@, email@, capabilities@.len()) == Err::<Seq<char>, Seq<char>>(m@),
        },
{
    let mut i: usize = 0;
    assert(members@.skip(0) =~= members@);
    while i < members.len()
        invariant
            i <= members@.len(),
            first_with_email(members@, email@) == match first_with_email(members@.skip(i as int), email@) {
                Some(k) => Some(k + i),
                None => None::<int>,
            },
        decreases members@.len() - i,
    {
        proof {
            let rest = members@.skip(i as int);
            assert(rest[0] == members@[i as int]);
            assert(rest.drop_first() =~= members@.skip(i + 1));
        }
        if crate::text::str_eq(members[i].email.as_str(), email) {
            if capabilities.len() == 0 {
                return Err(owned("Select at least one capability \u{2014} grants are whitelist-only (A-0006)."));
            }
            return Ok(crate::text::string_clone(&members[i].user_id));
        }
        i = i + 1;
    }
    assert(members@.skip(i as int).len() == 0);
    Err(owned("Pick an organization member to add."))
}

/// Check a grant update: a member keeps at least one capability (removing
/// the last one is what Remove is for).
pub fn check_grant_update(capabilities: &[String]) -> (r: Result<(), String>)
    ensures
        match r {
            Ok(()) => capabilities@.len() > 0,
            Err(m) => capabilities@.len() == 0
                && m@ == "A member needs at least one capability \u{2014} use Remove to revoke membership."@,
        },
{
    if capabilities.len() == 0 {
        Err(owned("A member needs at least one capability \u{2014} use Remove to revoke membership."))
    } else {
        Ok(())
    }
}

} // verus!
