//! The activity feed and item history: the records they show, short-code
//! routing, query encoding, timestamp display, action accents, the line
//! diff between two versions, and actor labels.

use vstd::prelude::*;
use crate::board_rules::Token;
use crate::encoding::{form_component, form_escaped};
use crate::text::{
    byte_prefix, byte_prefix_of, chars_of, owned, push_signed, push_str, signed_digits, split_once,
    split_once_spec, str_eq, string_clone, string_of_range, trim_chars,
};
use crate::world::{lookup, sections_view};
use crate::web_api::ApiError;

verus! {

/// A page of a list.
pub struct ListEnvelope<T> {
    pub items: Vec<T>,
    pub total: i64,
    pub limit: i64,
    pub offset: i64,
}

/// One version in an item's history.
pub struct HistoryVersion {
    pub version: i32,
    pub edited_by: String,
    pub edited_at: String,
}

/// One full historical snapshot of an item.
pub struct HistorySnapshot {
    pub version: i32,
    pub title: String,
    pub content: String,
    pub edited_by: String,
    pub edited_at: String,
}

/// One entry of the audit trail.
pub struct ActivityEntry {
    pub id: String,
    pub actor_id: String,
    pub action: String,
    pub entity_id: Option<String>,
    pub entity_type: Option<String>,
    pub details: String,
    pub occurred_at: String,
}

/// An organization member as the feed names actors.
pub struct Member {
    pub user_id: String,
    pub email: String,
    pub display_name: String,
}

/// The head every item family shares.
pub struct ItemHead {
    pub id: String,
    pub short_code: String,
    pub title: String,
    pub version: i32,
}

/// The index of the last `c` in `s`, if any.
pub open spec fn last_index(s: Seq<char>, c: char) -> Option<int>
    decreases s.len(),
{
    if s.len() == 0 {
        None
    } else if s.last() == c {
        Some(s.len() - 1)
    } else {
        last_index(s.drop_last(), c)
    }
}

/// Is every character of `s` an ASCII digit?
pub open spec fn all_digits(s: Seq<char>) -> bool {
    forall|i: int| 0 <= i < s.len() ==> '0' <= #[trigger] s[i] && s[i] <= '9'
}

/// The family of a type letter.
pub open spec fn family_of_letter(letter: Seq<char>) -> Option<Seq<char>> {
    if letter == "S"@ {
        Some("strategies"@)
    } else if letter == "I"@ {
        Some("initiatives"@)
    } else if letter == "T"@ {
        Some("tasks"@)
    } else if letter == "D"@ {
        Some("documents"@)
    } else if letter == "A"@ {
        Some("adrs"@)
    } else {
        None
    }
}

/// The API family of a `{PREFIX}-{LETTER}-{NUMBER}` short code, cut at its
/// last two dashes; `None` unless the prefix is non-empty, the number is
/// non-empty and all digits, and the letter names a family.
pub open spec fn family_spec(code: Seq<char>) -> Option<Seq<char>> {
    match last_index(code, '-') {
        None => None,
        Some(j) => match last_index(code.take(j), '-') {
            None => None,
            Some(i) => {
                let prefix = code.take(i);
                let letter = code.subrange(i + 1, j);
                let number = code.skip(j + 1);
                if prefix.len() == 0 || number.len() == 0 || !all_digits(number) {
                    None
                } else {
                    family_of_letter(letter)
                }
            },
        },
    }
}

/// The index of the last `c` in `cs[..end]`.
fn last_index_in(cs: &[char], c: char, end: usize) -> (r: Option<usize>)
    requires
        end <= cs@.len(),
    ensures
        match r {
            Some(i) => last_index(cs@.take(end as int), c) == Some(i as int) && i < end,
            None => last_index(cs@.take(end as int), c) is None,
        },
{
    let mut k = end;
    while k > 0
        invariant
            k <= end <= cs@.len(),
            last_index(cs@.take(end as int), c) == last_index(cs@.take(k as int), c),
        decreases k,
    {
        assert(cs@.take(k as int).drop_last() =~= cs@.take(k - 1));
        assert(cs@.take(k as int).last() == cs@[k - 1]);
        if cs[k - 1] == c {
            return Some(k - 1);
        }
        k = k - 1;
    }
    None
}

/// The exec form of `family_of_letter`.
fn letter_family(letter: &str) -> (r: Option<&'static str>)
    ensures
        match r {
            Some(f) => family_of_letter(letter@) == Some(f@),
            None => family_of_letter(letter@) is None,
        },
{
    if str_eq(letter, "S") {
        Some("strategies")
    } else if str_eq(letter, "I") {
        Some("initiatives")
    } else if str_eq(letter, "T") {
        Some("tasks")
    } else if str_eq(letter, "D") {
        Some("documents")
    } else if str_eq(letter, "A") {
        Some("adrs")
    } else {
        None
    }
}

/// Map a short code onto its API family path segment (`None` for
/// anything that does not parse).
pub fn family_of_short_code(code: &str) -> (r: Option<&'static str>)
    ensures
        match r {
            Some(f) => family_spec(code@) == Some(f@),
            None => family_spec(code@) is None,
        },
{
    let cs = chars_of(code);
    assert(cs@.take(cs@.len() as int) =~= cs@);
    let j = match last_index_in(&cs, '-', cs.len()) {
        Some(j) => j,
        None => {
            return None;
        },
    };
    let i = match last_index_in(&cs, '-', j) {
        Some(i) => i,
        None => {
            return None;
        },
    };
    if i == 0 || j + 1 >= cs.len() {
        return None;
    }
    let mut k = j + 1;
    while k < cs.len()
        invariant
            j + 1 <= k <= cs@.len(),
            cs@ == code@,
            i < j,
            i > 0,
            last_index(cs@, '-') == Some(j as int),
            last_index(cs@.take(j as int), '-') == Some(i as int),
            forall|m: int| j + 1 <= m < k ==> '0' <= #[trigger] cs@[m] && cs@[m] <= '9',
        decreases cs@.len() - k,
    {
        if !('0' <= cs[k] && cs[k] <= '9') {
            assert(cs@.skip(j + 1)[k - (j + 1)] == cs@[k as int]);
            assert(!all_digits(cs@.skip(j + 1)));
            return None;
        }
        k = k + 1;
    }
    proof {
        assert forall|m: int| 0 <= m < cs@.skip(j + 1).len() implies '0' <= #[trigger] cs@.skip(
            j + 1,
        )[m] && cs@.skip(j + 1)[m] <= '9' by {
            assert(cs@.skip(j + 1)[m] == cs@[j + 1 + m]);
        }
    }
    let letter = string_of_range(&cs, i + 1, j);
    letter_family(letter.as_str())
}

/// Percent-encode one query-string value.
pub fn encode_query(value: &str) -> (r: String)
    ensures
        r@ == form_escaped(value@),
{
    form_component(value)
}

/// Is `c` an ASCII digit?
pub open spec fn is_digit(c: char) -> bool {
    48 <= (c as u32) <= 57
}

/// The two-digit number at `i` (its digits' values).
pub open spec fn two_digits(s: Seq<char>, i: int) -> int {
    ((s[i] as u32) - 48) * 10 + ((s[i + 1] as u32) - 48)
}

/// Are `s[i]` and `s[i + 1]` digits forming a number in `lo..=hi`?
pub open spec fn number_at(s: Seq<char>, i: int, lo: int, hi: int) -> bool {
    is_digit(s[i]) && is_digit(s[i + 1]) && lo <= two_digits(s, i) <= hi
}

/// How many digits `t` starts with.
pub open spec fn lead_digits(t: Seq<char>) -> nat
    decreases t.len(),
{
    if t.len() > 0 && is_digit(t[0]) {
        1 + lead_digits(t.drop_first())
    } else {
        0
    }
}

/// A time offset: `Z` (or `z`), or a sign and `hh:mm`.
pub open spec fn is_offset(t: Seq<char>) -> bool {
    (t.len() == 1 && (t[0] == 'Z' || t[0] == 'z')) || (t.len() == 6 && (t[0] == '+' || t[0] == '-')
        && number_at(t, 1, 0, 23) && t[3] == ':' && number_at(t, 4, 0, 59))
}

/// What may follow the seconds: an optional fraction (`.` and at least one
/// digit), then the offset.
pub open spec fn is_time_tail(r: Seq<char>) -> bool {
    if r.len() > 0 && r[0] == '.' {
        let n = lead_digits(r.drop_first());
        n >= 1 && is_offset(r.skip(1 + n as int))
    } else {
        is_offset(r)
    }
}

/// Is `s` an RFC 3339 date-time (`YYYY-MM-DDThh:mm:ss[.frac](Z|±hh:mm)`,
/// month 01-12, day 01-31, hour 00-23, minute 00-59, second 00-60)?
pub open spec fn is_rfc3339(s: Seq<char>) -> bool {
    &&& s.len() >= 20
    &&& is_digit(s[0]) && is_digit(s[1]) && is_digit(s[2]) && is_digit(s[3])
    &&& s[4] == '-' && number_at(s, 5, 1, 12)
    &&& s[7] == '-' && number_at(s, 8, 1, 31)
    &&& s[10] == 'T' && number_at(s, 11, 0, 23)
    &&& s[13] == ':' && number_at(s, 14, 0, 59)
    &&& s[16] == ':' && number_at(s, 17, 0, 60)
    &&& is_time_tail(s.skip(19))
}

/// How a timestamp displays: `{date} {clock}` with the clock cut to
/// `width` bytes when it has that many; anything that is not an RFC 3339
/// timestamp passes through unchanged.
pub open spec fn when_spec(s: Seq<char>, width: nat, suffix: Seq<char>) -> Seq<char> {
    if is_rfc3339(s) {
        match split_once_spec(s, 'T') {
            Some((date, time)) => date + " "@ + (match byte_prefix(time, width) {
                Some(clock) => clock,
                None => time,
            }) + suffix,
            None => s,
        }
    } else {
        s
    }
}

/// Is `c` an ASCII digit (exec form)?
fn digit_char(c: char) -> (r: bool)
    ensures
        r == is_digit(c),
{
    48 <= (c as u32) && (c as u32) <= 57
}

/// Do `s[i]`, `s[i + 1]` form a number in `lo..=hi` (exec form)?
fn number_at_exec(s: &[char], i: usize, lo: u32, hi: u32) -> (r: bool)
    requires
        i + 1 < s@.len(),
    ensures
        r == number_at(s@, i as int, lo as int, hi as int),
{
    if !digit_char(s[i]) || !digit_char(s[i + 1]) {
        return false;
    }
    let v = ((s[i] as u32) - 48) * 10 + ((s[i + 1] as u32) - 48);
    lo <= v && v <= hi
}

/// How many digits `t[from..]` starts with (exec form).
fn lead_digits_exec(t: &[char], from: usize) -> (n: usize)
    requires
        from <= t@.len(),
    ensures
        n == lead_digits(t@.skip(from as int)),
        from + n <= t@.len(),
{
    let mut k = from;
    assert(lead_digits(t@.skip(from as int)) == (k - from) + lead_digits(t@.skip(k as int)));
    while k < t.len() && digit_char(t[k])
        invariant
            from <= k <= t@.len(),
            lead_digits(t@.skip(from as int)) == (k - from) + lead_digits(t@.skip(k as int)),
        decreases t@.len() - k,
    {
        assert(t@.skip(k as int).drop_first() =~= t@.skip(k + 1));
        assert(t@.skip(k as int)[0] == t@[k as int]);
        k = k + 1;
    }
    if k < t.len() {
        assert(t@.skip(k as int)[0] == t@[k as int]);
    }
    k - from
}

/// Is `t[from..]` a time offset (exec form)?
fn offset_at(t: &[char], from: usize) -> (r: bool)
    requires
        from <= t@.len(),
    ensures
        r == is_offset(t@.skip(from as int)),
{
    let n = t.len() - from;
    let ghost o = t@.skip(from as int);
    if n == 1 {
        assert(o[0] == t@[from as int]);
        return t[from] == 'Z' || t[from] == 'z';
    }
    if n == 6 {
        assert(o[0] == t@[from as int] && o[3] == t@[from + 3]);
        assert(number_at(o, 1, 0, 23) == number_at(t@, from + 1, 0, 23));
        assert(number_at(o, 4, 0, 59) == number_at(t@, from + 4, 0, 59));
        return (t[from] == '+' || t[from] == '-') && number_at_exec(t, from + 1, 0, 23) && t[from
            + 3] == ':' && number_at_exec(t, from + 4, 0, 59);
    }
    false
}

/// Is `s` an RFC 3339 date-time?
pub fn rfc3339_shape(s: &[char]) -> (r: bool)
    ensures
        r == is_rfc3339(s@),
{
    if s.len() < 20 {
        return false;
    }
    let head = digit_char(s[0]) && digit_char(s[1]) && digit_char(s[2]) && digit_char(s[3]) && s[4]
        == '-' && number_at_exec(s, 5, 1, 12) && s[7] == '-' && number_at_exec(s, 8, 1, 31) && s[10]
        == 'T' && number_at_exec(s, 11, 0, 23) && s[13] == ':' && number_at_exec(s, 14, 0, 59)
        && s[16] == ':' && number_at_exec(s, 17, 0, 60);
    if !head {
        return false;
    }
    let ghost r = s@.skip(19);
    if s[19] == '.' {
        assert(r[0] == s@[19]);
        let n = lead_digits_exec(s, 20);
        assert(r.drop_first() =~= s@.skip(20));
        assert(r.skip(1 + n as int) =~= s@.skip(20 + n as int));
        n >= 1 && offset_at(s, 20 + n)
    } else {
        assert(r[0] == s@[19]);
        offset_at(s, 19)
    }
}

/// Render a timestamp as date, a space, the first `width` bytes of the
/// time, and `suffix`; anything else passes through unchanged.
pub(crate) fn render_when(rfc3339: &str, width: usize, suffix: &str) -> (r: String)
    ensures
        r@ == when_spec(rfc3339@, width as nat, suffix@),
{
    let cs = chars_of(rfc3339);
    if !rfc3339_shape(&cs) {
        return owned(rfc3339);
    }
    match split_once(rfc3339, 'T') {
        Some((date, time)) => {
            let clock = match byte_prefix_of(time.as_str(), width) {
                Some(c) => c,
                None => time,
            };
            let mut r = date;
            push_str(&mut r, " ");
            push_str(&mut r, clock.as_str());
            push_str(&mut r, suffix);
            r
        },
        None => owned(rfc3339),
    }
}

/// `2026-07-14T23:10:11.123456Z` → `2026-07-14 23:10:11`; text that is
/// not a timestamp passes through.
pub fn format_when(rfc3339: &str) -> (r: String)
    ensures
        r@ == when_spec(rfc3339@, 8, ""@),
{
    render_when(rfc3339, 8, "")
}

/// The accent of an activity action.
pub open spec fn action_token(action: Seq<char>) -> Token {
    if action == "create"@ {
        Token::Okay
    } else if action == "delete"@ {
        Token::Bad
    } else if action == "transition"@ {
        Token::Ice
    } else if action == "relationship_add"@ || action == "relationship_remove"@ {
        Token::Violet
    } else if action == "capability_grant"@ || action == "capability_revoke"@ {
        Token::Gold
    } else {
        Token::Muted
    }
}

/// The accent token for an activity action pill.
pub fn action_color(action: &str) -> (r: Token)
    ensures
        r == action_token(action@),
{
    if str_eq(action, "create") {
        Token::Okay
    } else if str_eq(action, "delete") {
        Token::Bad
    } else if str_eq(action, "transition") {
        Token::Ice
    } else if str_eq(action, "relationship_add") || str_eq(action, "relationship_remove") {
        Token::Violet
    } else if str_eq(action, "capability_grant") || str_eq(action, "capability_revoke") {
        Token::Gold
    } else {
        Token::Muted
    }
}

/// The documented activity actions.
pub open spec fn actions() -> Seq<Seq<char>> {
    seq![
        "transition"@,
        "create"@,
        "delete"@,
        "relationship_add"@,
        "relationship_remove"@,
        "capability_grant"@,
        "capability_revoke"@,
        "board_config"@,
    ]
}

/// Every documented action but `board_config` gets its own accent; no
/// documented action reads as an error except `delete`.
pub proof fn law_documented_actions_have_accents()
    ensures
        forall|i: int|
            0 <= i < actions().len() && actions()[i] != "board_config"@ ==> action_token(
                #[trigger] actions()[i],
            ) != Token::Muted,
{
    assert forall|i: int|
        0 <= i < actions().len() && actions()[i] != "board_config"@ implies action_token(
        #[trigger] actions()[i],
    ) != Token::Muted by {
        reveal_strlit("transition");
        reveal_strlit("create");
        reveal_strlit("delete");
        reveal_strlit("relationship_add");
        reveal_strlit("relationship_remove");
        reveal_strlit("capability_grant");
        reveal_strlit("capability_revoke");
        reveal_strlit("board_config");
    }
}

/// The kind of one line of a line diff.
#[derive(Clone, Copy, Debug, PartialEq, Eq, Structural)]
pub enum LineChange {
    Equal,
    Delete,
    Insert,
}

/// The changes of a line diff of `old` against `new`, in order, each with
/// its line (line ending included), as `similar`'s line diff gives them.
pub uninterp spec fn line_diff(old: Seq<char>, new: Seq<char>) -> Seq<(LineChange, Seq<char>)>;

/// The views of diff changes.
pub open spec fn changes_view(v: Seq<(LineChange, String)>) -> Seq<(LineChange, Seq<char>)> {
    v.map_values(|c: (LineChange, String)| (c.0, c.1@))
}

/// `similar::TextDiff::from_lines(old, new).iter_all_changes()`, each change
/// as its tag and its line. The diff runs without a deadline, so its result
/// depends on the two texts alone; what it is (a Myers line diff) is named,
/// not stated.
#[verifier::external_body]
fn text_line_changes(old: &str, new: &str) -> (r: Vec<(LineChange, String)>)
    ensures
        changes_view(r@) == line_diff(old@, new@),
{
    let mut out = Vec::new();
    for change in similar::TextDiff::from_lines(old, new).iter_all_changes() {
        let tag = match change.tag() {
            similar::ChangeTag::Equal => LineChange::Equal,
            similar::ChangeTag::Delete => LineChange::Delete,
            similar::ChangeTag::Insert => LineChange::Insert,
        };
        out.push((tag, change.value().to_string()));
    }
    out
}

/// One rendered diff line: `+` inserted, `-` deleted, ` ` unchanged.
#[derive(Debug, PartialEq)]
pub struct DiffLine {
    pub sign: char,
    pub text: String,
}

/// The sign a change renders with.
pub open spec fn sign_of(c: LineChange) -> char {
    match c {
        LineChange::Delete => '-',
        LineChange::Insert => '+',
        LineChange::Equal => ' ',
    }
}

/// `s` without its trailing newlines.
pub open spec fn trim_newlines(s: Seq<char>) -> Seq<char>
    decreases s.len(),
{
    if s.len() > 0 && s.last() == '\n' {
        trim_newlines(s.drop_last())
    } else {
        s
    }
}

/// The rendered lines of a list of changes.
pub open spec fn rendered(changes: Seq<(LineChange, Seq<char>)>) -> Seq<(char, Seq<char>)> {
    changes.map_values(|c: (LineChange, Seq<char>)| (sign_of(c.0), trim_newlines(c.1)))
}

/// The views of rendered diff lines.
pub open spec fn lines_view(v: Seq<DiffLine>) -> Seq<(char, Seq<char>)> {
    v.map_values(|l: DiffLine| (l.sign, l.text@))
}

/// Render one change's line: `s` without trailing newlines.
pub fn strip_newlines(s: &str) -> (r: String)
    ensures
        r@ == trim_newlines(s@),
{
    let cs = chars_of(s);
    let mut end = cs.len();
    assert(cs@.take(cs@.len() as int) =~= cs@);
    while end > 0 && cs[end - 1] == '\n'
        invariant
            end <= cs@.len(),
            trim_newlines(cs@) == trim_newlines(cs@.take(end as int)),
        decreases end,
    {
        assert(cs@.take(end as int).drop_last() =~= cs@.take(end - 1));
        assert(cs@.take(end as int).last() == cs@[end - 1]);
        end = end - 1;
    }
    assert(cs@.take(cs@.len() as int) =~= cs@);
    proof {
        if end > 0 {
            assert(cs@.take(end as int).last() == cs@[end - 1]);
        }
    }
    let r = string_of_range(&cs, 0, end);
    assert(r@ =~= cs@.take(end as int));
    r
}

/// Render a line diff: each change signed (`-`, `+`, or a space), its line
/// without the line ending.
pub fn render_diff(changes: &[(LineChange, String)]) -> (r: Vec<DiffLine>)
    ensures
        lines_view(r@) == rendered(changes_view(changes@)),
{
    let mut out: Vec<DiffLine> = Vec::new();
    let mut i: usize = 0;
    while i < changes.len()
        invariant
            i <= changes@.len(),
            lines_view(out@) == rendered(changes_view(changes@).take(i as int)),
        decreases changes@.len() - i,
    {
        let (tag, ref line) = changes[i];
        let sign = match tag {
            LineChange::Delete => '-',
            LineChange::Insert => '+',
            LineChange::Equal => ' ',
        };
        let text = strip_newlines(line.as_str());
        let ghost before = out@;
        out.push(DiffLine { sign, text });
        proof {
            let cv = changes_view(changes@);
            assert(cv.take(i + 1) =~= cv.take(i as int).push(cv[i as int]));
            assert(lines_view(out@) =~= lines_view(before).push((sign, text@)));
            assert(rendered(cv.take(i + 1)) =~= rendered(cv.take(i as int)).push(
                (sign_of(cv[i as int].0), trim_newlines(cv[i as int].1)),
            ));
        }
        i = i + 1;
    }
    assert(changes_view(changes@).take(changes@.len() as int) =~= changes_view(changes@));
    out
}

/// The client-side line diff between two versions' texts: each change of
/// the line diff, signed, its line without the line ending.
pub fn diff_lines(old: &str, new: &str) -> (r: Vec<DiffLine>)
    ensures
        lines_view(r@) == rendered(line_diff(old@, new@)),
{
    let changes = text_line_changes(old, new);
    render_diff(changes.as_slice())
}

/// The style of one diff line, colored by its sign.
pub open spec fn diff_style_spec(sign: char) -> Seq<char> {
    "margin:0;white-space:pre-wrap;font-family:var(--font-mono);font-size:var(--fs-xs);line-height:1.5;color:var("@
        + (if sign == '+' {
        "--ok"@
    } else if sign == '-' {
        "--bad"@
    } else {
        "--muted"@
    }) + ");"@
}

/// Style and color for one diff line.
pub fn diff_line_style(sign: char) -> (r: String)
    ensures
        r@ == diff_style_spec(sign),
{
    let mut r = owned(
        "margin:0;white-space:pre-wrap;font-family:var(--font-mono);font-size:var(--fs-xs);line-height:1.5;color:var(",
    );
    if sign == '+' {
        push_str(&mut r, "--ok");
    } else if sign == '-' {
        push_str(&mut r, "--bad");
    } else {
        push_str(&mut r, "--muted");
    }
    push_str(&mut r, ");");
    r
}

/// The label of an actor: the member's display name, or the first eight
/// bytes of the id followed by an ellipsis.
pub open spec fn actor_label_spec(names: Seq<(Seq<char>, Seq<char>)>, actor_id: Seq<char>) -> Seq<
    char,
> {
    match lookup(names, actor_id) {
        Some(name) => name,
        None => (match byte_prefix(actor_id, 8) {
            Some(head) => head,
            None => actor_id,
        }) + "\u{2026}"@,
    }
}

/// Resolve an actor id to a display name through the `(user id, name)`
/// pairs, falling back to a shortened id.
pub fn actor_label(names: &[(String, String)], actor_id: &str) -> (r: String)
    ensures
        r@ == actor_label_spec(sections_view(names@), actor_id@),
{
    let mut i: usize = 0;
    assert(sections_view(names@).skip(0) =~= sections_view(names@));
    while i < names.len()
        invariant
            i <= names@.len(),
            lookup(sections_view(names@), actor_id@) == lookup(
                sections_view(names@).skip(i as int),
                actor_id@,
            ),
        decreases names@.len() - i,
    {
        let ghost m = sections_view(names@);
        assert(m.skip(i as int).drop_first() =~= m.skip(i + 1));
        assert(m.skip(i as int)[0] == (names@[i as int].0@, names@[i as int].1@));
        if str_eq(names[i].0.as_str(), actor_id) {
            return string_clone(&names[i].1);
        }
        i = i + 1;
    }
    assert(sections_view(names@).skip(i as int).len() == 0);
    let mut r = match byte_prefix_of(actor_id, 8) {
        Some(head) => head,
        None => owned(actor_id),
    };
    push_str(&mut r, "\u{2026}");
    r
}

/// How a member appears in the actor filter: `name <email>`.
pub fn member_option(member: &Member) -> (r: String)
    ensures
        r@ == member.display_name@ + " <"@ + member.email@ + ">"@,
{
    let mut r = string_clone(&member.display_name);
    push_str(&mut r, " <");
    push_str(&mut r, member.email.as_str());
    push_str(&mut r, ">");
    r
}

/// Feed page size.
pub const PAGE_SIZE: i64 = 25;

/// `&{key}={value}` with the value percent-encoded, or nothing when the
/// value is empty.
pub open spec fn filter_part(key: Seq<char>, value: Seq<char>) -> Seq<char> {
    if value.len() == 0 {
        Seq::empty()
    } else {
        "&"@ + key + "="@ + form_escaped(value)
    }
}

/// The activity-feed query: page size and offset, then each non-empty
/// filter (the entity by id, the actor, the action, and the trimmed
/// `since` bound).
pub open spec fn feed_query_spec(
    offset: i64,
    entity_id: Option<Seq<char>>,
    actor_id: Seq<char>,
    action: Seq<char>,
    since: Seq<char>,
) -> Seq<char> {
    "limit=25&offset="@ + crate::text::signed_digits(offset as int) + match entity_id {
        Some(id) => "&entity_id="@ + form_escaped(id),
        None => Seq::empty(),
    } + filter_part("actor_id"@, actor_id) + filter_part("action"@, action) + (if since.len()
        == 0 {
        Seq::empty()
    } else {
        "&since="@ + form_escaped(crate::text::trimmed(since))
    })
}

/// Append `&{key}={value}` when `value` is not empty.
fn push_filter(q: &mut String, key: &str, value: &str)
    ensures
        final(q)@ == old(q)@ + filter_part(key@, value@),
{
    if value.is_empty() {
        assert(old(q)@ + filter_part(key@, value@) =~= old(q)@);
        return;
    }
    push_str(q, "&");
    push_str(q, key);
    push_str(q, "=");
    push_str(q, form_component(value).as_str());
}

/// The activity-feed query for one page and the applied filters; the
/// entity filter is the resolved entity id.
pub fn feed_query(
    offset: i64,
    entity_id: Option<&str>,
    actor_id: &str,
    action: &str,
    since: &str,
) -> (r: String)
    ensures
        r@ == feed_query_spec(
            offset,
            match entity_id {
                Some(id) => Some(id@),
                None => None,
            },
            actor_id@,
            action@,
            since@,
        ),
{
    let mut q = owned("limit=25&offset=");
    crate::text::push_signed(&mut q, offset);
    match entity_id {
        Some(id) => {
            push_str(&mut q, "&entity_id=");
            push_str(&mut q, form_component(id).as_str());
        },
        None => {},
    }
    push_filter(&mut q, "actor_id", actor_id);
    push_filter(&mut q, "action", action);
    if !since.is_empty() {
        let cs = chars_of(since);
        let t = trim_chars(&cs);
        let trimmed = crate::text::string_from_chars(&t);
        push_str(&mut q, "&since=");
        push_str(&mut q, form_component(trimmed.as_str()).as_str());
    }
    q
}

/// The banner after a rollback attempt.
pub enum RollbackNotice {
    /// The snapshot of `from` was copied forward as `new_version`.
    Done { from: i32, new_version: i32 },
    /// Someone saved in between (409); the message says what.
    Conflict(String),
    /// Any other failure.
    Failed(String),
}

/// A rollback notice as plain values: (kind 0/1/2, from, new version,
/// message).
pub open spec fn notice_view(n: RollbackNotice) -> (int, i32, i32, Seq<char>) {
    match n {
        RollbackNotice::Done { from, new_version } => (0, from, new_version, Seq::empty()),
        RollbackNotice::Conflict(m) => (1, 0, 0, m@),
        RollbackNotice::Failed(m) => (2, 0, 0, m@),
    }
}

/// The notice for a rollback of `from` that ended in `outcome`, and whether
/// the history refetches: a success or a 409 refetches; a 409 is a
/// conflict; any other failure shows its message (the fixed
/// unreachable-server text for a network failure).
pub open spec fn rollback_spec(from: i32, outcome: Result<i32, ApiError>) -> ((int, i32, i32, Seq<char>), bool) {
    match outcome {
        Ok(v) => ((0, from, v, Seq::empty()), true),
        Err(ApiError::Http { status, message, .. }) => if status == 409 {
            ((1, 0, 0, message@), true)
        } else {
            ((2, 0, 0, message@), false)
        },
        Err(ApiError::Network) => ((2, 0, 0, "the server is unreachable"@), false),
        Err(ApiError::Unknown(m)) => ((2, 0, 0, m@), false),
    }
}

/// What a rollback attempt of `from` shows, and whether to refetch.
pub fn rollback_notice(from: i32, outcome: Result<i32, ApiError>) -> (r: (RollbackNotice, bool))
    ensures
        (notice_view(r.0), r.1) == rollback_spec(from, outcome),
{
    match outcome {
        Ok(new_version) => (RollbackNotice::Done { from, new_version }, true),
        Err(ApiError::Http { status, message, .. }) => if status == 409 {
            (RollbackNotice::Conflict(message), true)
        } else {
            (RollbackNotice::Failed(message), false)
        },
        Err(ApiError::Network) => (RollbackNotice::Failed(owned("the server is unreachable")), false),
        Err(ApiError::Unknown(m)) => (RollbackNotice::Failed(m), false),
    }
}

/// The banner text of a successful rollback or of a conflict (a failure
/// shows its message as it is).
pub open spec fn notice_text_spec(n: (int, i32, i32, Seq<char>)) -> Seq<char> {
    if n.0 == 0 {
        "Rolled back: the v"@ + signed_digits(n.1 as int) + " snapshot was copied forward as new version v"@
            + signed_digits(n.2 as int) + "."@
    } else if n.0 == 1 {
        "Someone saved a newer version while rolling back: "@ + n.3
            + ". The list below has been refreshed \u{2014} pick a version and try again."@
    } else {
        n.3
    }
}

/// The text a rollback banner shows.
pub fn notice_text(n: &RollbackNotice) -> (r: String)
    ensures
        r@ == notice_text_spec(notice_view(*n)),
{
    match n {
        RollbackNotice::Done { from, new_version } => {
            let mut r = owned("Rolled back: the v");
            push_signed(&mut r, *from as i64);
            push_str(&mut r, " snapshot was copied forward as new version v");
            push_signed(&mut r, *new_version as i64);
            push_str(&mut r, ".");
            r
        },
        RollbackNotice::Conflict(m) => {
            let mut r = owned("Someone saved a newer version while rolling back: ");
            push_str(&mut r, m.as_str());
            push_str(
                &mut r,
                ". The list below has been refreshed \u{2014} pick a version and try again.",
            );
            r
        },
        RollbackNotice::Failed(m) => string_clone(m),
    }
}

} // verus!
