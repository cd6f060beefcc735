//! The JSON bodies of the board's create requests: one object per entity
//! kind, fields in wire order, absent optional fields left out.

use vstd::prelude::*;
use crate::board_data::{EntityKind, NewItem};
use crate::board_rules::{opt_str_view, opt_view};
use crate::live::{json_escaped, push_json_escaped};
use crate::text::{chars_of, push_str, str_eq, trim_chars, trimmed};

verus! {

/// One member of a JSON object: `"key":"value"`.
pub open spec fn json_member(key: Seq<char>, value: Seq<char>) -> Seq<char> {
    "\""@ + json_escaped(key) + "\":\""@ + json_escaped(value) + "\""@
}

/// The fields that are present, in order.
pub open spec fn present(fields: Seq<(Seq<char>, Option<Seq<char>>)>) -> Seq<(Seq<char>, Seq<char>)>
    decreases fields.len(),
{
    if fields.len() == 0 {
        Seq::empty()
    } else {
        let rest = present(fields.drop_last());
        match fields.last().1 {
            Some(v) => rest.push((fields.last().0, v)),
            None => rest,
        }
    }
}

/// The members of `ps`, comma-separated.
pub open spec fn json_members(ps: Seq<(Seq<char>, Seq<char>)>) -> Seq<char>
    decreases ps.len(),
{
    if ps.len() == 0 {
        Seq::empty()
    } else {
        json_members(ps.drop_last()) + (if ps.len() == 1 {
            Seq::empty()
        } else {
            ","@
        }) + json_member(ps.last().0, ps.last().1)
    }
}

/// A JSON object of string fields, leaving out the absent ones.
pub open spec fn json_object(fields: Seq<(Seq<char>, Option<Seq<char>>)>) -> Seq<char> {
    "{"@ + json_members(present(fields)) + "}"@
}

/// A field list as plain values.
pub open spec fn fields_view(fields: Seq<(&str, Option<&str>)>) -> Seq<(Seq<char>, Option<Seq<char>>)> {
    fields.map_values(|f: (&str, Option<&str>)| (f.0@, opt_str_view(f.1)))
}

/// Serialize string fields as a compact JSON object, leaving out absent
/// ones.
pub fn json_object_body(fields: &[(&str, Option<&str>)]) -> (out: String)
    ensures
        out@ == json_object(fields_view(fields@)),
{
    let mut out = String::new();
    push_str(&mut out, "{");
    let ghost fv = fields_view(fields@);
    let mut count: usize = 0;
    let mut i: usize = 0;
    assert(fv.take(0) =~= Seq::<(Seq<char>, Option<Seq<char>>)>::empty());
    while i < fields.len()
        invariant
            i <= fields@.len(),
            fv == fields_view(fields@),
            count == present(fv.take(i as int)).len(),
            count <= i,
            out@ == "{"@ + json_members(present(fv.take(i as int))),
        decreases fields@.len() - i,
    {
        let (key, value) = fields[i];
        proof {
            assert(fv.take(i + 1).drop_last() =~= fv.take(i as int));
            assert(fv.take(i + 1).last() == (key@, opt_str_view(value)));
        }
        match value {
            Some(v) => {
                let ghost before = present(fv.take(i as int));
                if count > 0 {
                    push_str(&mut out, ",");
                }
                push_str(&mut out, "\"");
                push_json_escaped(&mut out, key);
                push_str(&mut out, "\":\"");
                push_json_escaped(&mut out, v);
                push_str(&mut out, "\"");
                count = count + 1;
                proof {
                    let now = present(fv.take(i + 1));
                    assert(now == before.push((key@, v@)));
                    assert(now.drop_last() =~= before);
                    assert(out@ =~= "{"@ + json_members(now));
                }
            },
            None => {
                assert(present(fv.take(i + 1)) == present(fv.take(i as int)));
            },
        }
        i = i + 1;
    }
    assert(fv.take(i as int) =~= fv);
    push_str(&mut out, "}");
    out
}

/// The exec form of `opt_view`.
fn as_str_opt(o: &Option<String>) -> (r: Option<&str>)
    ensures
        opt_str_view(r) == opt_view(*o),
{
    match o {
        Some(s) => Some(s.as_str()),
        None => None,
    }
}

/// The fields a create request carries for `kind`: the board, the column,
/// the title and the content, then the kind's own optional fields.
pub open spec fn create_fields(
    kind: EntityKind,
    board_id: Seq<char>,
    column_id: Seq<char>,
    item: NewItem,
) -> Seq<(Seq<char>, Option<Seq<char>>)> {
    seq![
        ("board_id"@, Some(board_id)),
        ("column_id"@, Some(column_id)),
        ("title"@, Some(item.title@)),
        ("content"@, Some(item.content@)),
    ] + match kind {
        EntityKind::Strategy => seq![("hypothesis"@, opt_view(item.hypothesis))],
        EntityKind::Initiative => seq![("complexity"@, opt_view(item.complexity))],
        EntityKind::Task => seq![
            ("task_type"@, opt_view(item.task_type)),
            ("team_id"@, opt_view(item.team_id)),
        ],
        EntityKind::Adr => seq![
            ("decision_maker"@, opt_view(item.decision_maker)),
            ("decision_date"@, opt_view(item.decision_date)),
        ],
    }
}

/// The body of the request that creates `item` as a `kind` in column
/// `column_id` of board `board_id` (posted to `create_path(kind)`).
pub fn create_request_body(kind: EntityKind, board_id: &str, column_id: &str, item: &NewItem) -> (out:
    String)
    ensures
        out@ == json_object(create_fields(kind, board_id@, column_id@, *item)),
{
    let mut fields: Vec<(&str, Option<&str>)> = Vec::new();
    fields.push(("board_id", Some(board_id)));
    fields.push(("column_id", Some(column_id)));
    fields.push(("title", Some(item.title.as_str())));
    fields.push(("content", Some(item.content.as_str())));
    match kind {
        EntityKind::Strategy => {
            fields.push(("hypothesis", as_str_opt(&item.hypothesis)));
        },
        EntityKind::Initiative => {
            fields.push(("complexity", as_str_opt(&item.complexity)));
        },
        EntityKind::Task => {
            fields.push(("task_type", as_str_opt(&item.task_type)));
            fields.push(("team_id", as_str_opt(&item.team_id)));
        },
        EntityKind::Adr => {
            fields.push(("decision_maker", as_str_opt(&item.decision_maker)));
            fields.push(("decision_date", as_str_opt(&item.decision_date)));
        },
    }
    assert(fields_view(fields@) =~= create_fields(kind, board_id@, column_id@, *item));
    json_object_body(fields.as_slice())
}

/// The fields of a document-create request.
pub open spec fn document_fields(
    title: Seq<char>,
    template_id: Option<Seq<char>>,
    parent_short_code: Seq<char>,
) -> Seq<(Seq<char>, Option<Seq<char>>)> {
    seq![
        ("title"@, Some(title)),
        ("template_id"@, template_id),
        ("parent_short_code"@, Some(parent_short_code)),
    ]
}

/// The body of the request that creates a document attached to the item
/// `parent_short_code` (posted to `/api/documents`).
pub fn document_request_body(title: &str, template_id: Option<&str>, parent_short_code: &str) -> (out:
    String)
    ensures
        out@ == json_object(document_fields(title@, opt_str_view(template_id), parent_short_code@)),
{
    let fields: Vec<(&str, Option<&str>)> = vec![
        ("title", Some(title)),
        ("template_id", template_id),
        ("parent_short_code", Some(parent_short_code)),
    ];
    assert(fields_view(fields@) =~= document_fields(
        title@,
        opt_str_view(template_id),
        parent_short_code@,
    ));
    json_object_body(fields.as_slice())
}

/// A free-text form field: absent when blank (empty or whitespace only).
pub open spec fn opt_text(s: Seq<char>) -> Option<Seq<char>> {
    if trimmed(s).len() == 0 {
        None
    } else {
        Some(s)
    }
}

/// A free-text field as an optional value (`None` when blank).
fn optional_text(s: String) -> (r: Option<String>)
    ensures
        opt_view(r) == opt_text(s@),
{
    let cs = chars_of(s.as_str());
    if trim_chars(&cs).len() == 0 {
        None
    } else {
        Some(s)
    }
}

/// The create form's fields as a new item: blank hypothesis, decision
/// maker and decision date are left out; a complexity of `none` means
/// none; the task type is always sent.
pub fn new_item_from_form(
    title: String,
    content: String,
    hypothesis: String,
    complexity: String,
    task_type: String,
    team_id: Option<String>,
    decision_maker: String,
    decision_date: String,
) -> (r: NewItem)
    ensures
        r.title@ == title@,
        r.content@ == content@,
        opt_view(r.hypothesis) == opt_text(hypothesis@),
        opt_view(r.complexity) == if complexity@ == "none"@ {
            None
        } else {
            Some(complexity@)
        },
        opt_view(r.task_type) == Some(task_type@),
        opt_view(r.team_id) == opt_view(team_id),
        opt_view(r.decision_maker) == opt_text(decision_maker@),
        opt_view(r.decision_date) == opt_text(decision_date@),
{
    let complexity = if str_eq(complexity.as_str(), "none") {
        None
    } else {
        Some(complexity)
    };
    NewItem {
        title,
        content,
        hypothesis: optional_text(hypothesis),
        complexity,
        task_type: Some(task_type),
        team_id,
        decision_maker: optional_text(decision_maker),
        decision_date: optional_text(decision_date),
    }
}

} // verus!
