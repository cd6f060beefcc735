//! The markdown editor's logic: the syntax toolbar's insertion at the
//! selection (in UTF-16 code units, as the browser counts them), and the
//! versioned save with its conflict dialog as a state machine.
//!
//! A save carries the version the edit was based on. A conflict opens the
//! merge dialog with three ways out, all of which carry the server's
//! version forward: keep mine (save again on the server's version), take
//! theirs (load the server's copy), merge manually (keep the draft,
//! rebase, and keep the server's copy in view until the next save).

use vstd::prelude::*;
use crate::text::{chars_of, str_eq};

verus! {

/// The UTF-16 encoding of one character.
pub open spec fn utf16_of_char(c: char) -> Seq<u16> {
    let v = c as u32;
    if v < 0x10000 {
        seq![v as u16]
    } else {
        let w = (v - 0x10000) as u32;
        seq![(0xD800 + w / 1024) as u16, (0xDC00 + w % 1024) as u16]
    }
}

/// The UTF-16 encoding of a text.
pub open spec fn utf16_of(s: Seq<char>) -> Seq<u16>
    decreases s.len(),
{
    if s.len() == 0 {
        Seq::empty()
    } else {
        utf16_of(s.drop_last()) + utf16_of_char(s.last())
    }
}

/// A leading (high) surrogate.
pub open spec fn is_high(u: u16) -> bool {
    0xD800 <= u <= 0xDBFF
}

/// A trailing (low) surrogate.
pub open spec fn is_low(u: u16) -> bool {
    0xDC00 <= u <= 0xDFFF
}

/// Code units as they come back after decoding them lossily and encoding
/// the text again: surrogate pairs stay, every unpaired surrogate becomes
/// U+FFFD, everything else stays.
pub open spec fn lossy_units(u: Seq<u16>) -> Seq<u16>
    decreases u.len(),
{
    if u.len() == 0 {
        Seq::empty()
    } else if u.len() >= 2 && is_high(u[0]) && is_low(u[1]) {
        seq![u[0], u[1]] + lossy_units(u.skip(2))
    } else if is_high(u[0]) || is_low(u[0]) {
        seq![0xFFFDu16] + lossy_units(u.skip(1))
    } else {
        seq![u[0]] + lossy_units(u.skip(1))
    }
}

/// The selection start, clamped to the text.
pub open spec fn sel_start(len: nat, start: nat) -> nat {
    if start < len {
        start
    } else {
        len
    }
}

/// The selection end, clamped between the start and the text's end.
pub open spec fn sel_end(len: nat, start: nat, end: nat) -> nat {
    let s = sel_start(len, start);
    if end < s {
        s
    } else if end > len {
        len
    } else {
        end
    }
}

/// What the toolbar inserts: the prefix, the selection (the placeholder
/// when nothing is selected), the suffix.
pub open spec fn inserted_units(
    units: Seq<u16>,
    s: nat,
    e: nat,
    prefix: Seq<char>,
    suffix: Seq<char>,
    placeholder: Seq<char>,
) -> Seq<u16> {
    utf16_of(prefix) + (if s == e {
        utf16_of(placeholder)
    } else {
        lossy_units(units.subrange(s as int, e as int))
    }) + utf16_of(suffix)
}

/// The text after the toolbar wraps the selection `start..end` of `units`
/// in `prefix`/`suffix`, and the cursor, placed after the insertion.
pub open spec fn syntax_spec(
    units: Seq<u16>,
    start: nat,
    end: nat,
    prefix: Seq<char>,
    suffix: Seq<char>,
    placeholder: Seq<char>,
) -> (Seq<u16>, nat) {
    let s = sel_start(units.len(), start);
    let e = sel_end(units.len(), start, end);
    let ins = inserted_units(units, s, e, prefix, suffix, placeholder);
    (units.take(s as int) + ins + units.skip(e as int), s + ins.len())
}

/// Append the UTF-16 encoding of `s`.
fn push_utf16(out: &mut Vec<u16>, s: &str)
    ensures
        final(out)@ == old(out)@ + utf16_of(s@),
{
    let cs = chars_of(s);
    let ghost start = out@;
    let mut i: usize = 0;
    assert(cs@.take(0) =~= Seq::<char>::empty());
    while i < cs.len()
        invariant
            i <= cs@.len(),
            cs@ == s@,
            out@ == start + utf16_of(cs@.take(i as int)),
        decreases cs@.len() - i,
    {
        let c = cs[i];
        proof {
            vstd::utf8::char_is_scalar(c);
        }
        let v = c as u32;
        let ghost before = out@;
        if v < 0x10000 {
            out.push(v as u16);
        } else {
            let w = v - 0x10000;
            out.push((0xD800 + w / 1024) as u16);
            out.push((0xDC00 + w % 1024) as u16);
        }
        proof {
            assert(cs@.take(i + 1).drop_last() =~= cs@.take(i as int));
            assert(cs@.take(i + 1).last() == c);
            assert(out@ =~= before + utf16_of_char(c));
        }
        i = i + 1;
    }
    assert(cs@.take(cs@.len() as int) =~= cs@);
}

/// Append `units[from..to]` as it comes back from a lossy round trip.
fn push_lossy(out: &mut Vec<u16>, units: &[u16], from: usize, to: usize)
    requires
        from <= to <= units@.len(),
    ensures
        final(out)@ == old(out)@ + lossy_units(units@.subrange(from as int, to as int)),
{
    let ghost whole = lossy_units(units@.subrange(from as int, to as int));
    let ghost start = out@;
    let mut i = from;
    while i < to
        invariant
            from <= i <= to <= units@.len(),
            start + whole == out@ + lossy_units(units@.subrange(i as int, to as int)),
        decreases to - i,
    {
        let ghost rest = units@.subrange(i as int, to as int);
        let u = units[i];
        assert(rest[0] == u);
        if i + 1 < to && 0xD800 <= u && u <= 0xDBFF && 0xDC00 <= units[i + 1] && units[i + 1] <= 0xDFFF {
            assert(rest[1] == units@[i + 1]);
            assert(rest.skip(2) =~= units@.subrange(i + 2, to as int));
            out.push(u);
            out.push(units[i + 1]);
            i = i + 2;
        } else {
            assert(rest.skip(1) =~= units@.subrange(i + 1, to as int));
            if i + 1 < to {
                assert(rest[1] == units@[i + 1]);
            }
            if 0xD800 <= u && u <= 0xDFFF {
                out.push(0xFFFD);
            } else {
                out.push(u);
            }
            i = i + 1;
        }
    }
    assert(units@.subrange(i as int, to as int) =~= Seq::<u16>::empty());
}

/// Apply a toolbar button to the text `units` with the selection
/// `start..end`: the selection (clamped to the text) is replaced by
/// `prefix`, the selected text or `placeholder` when nothing is selected,
/// and `suffix`; the cursor goes right after the insertion.
pub fn apply_syntax(
    units: &[u16],
    start: usize,
    end: usize,
    prefix: &str,
    suffix: &str,
    placeholder: &str,
) -> (r: (Vec<u16>, usize))
    ensures
        (r.0@, r.1 as nat) == syntax_spec(units@, start as nat, end as nat, prefix@, suffix@, placeholder@),
{
    let len = units.len();
    let s = if start < len {
        start
    } else {
        len
    };
    let e = if end < s {
        s
    } else if end > len {
        len
    } else {
        end
    };
    let mut out: Vec<u16> = Vec::new();
    let mut k: usize = 0;
    while k < s
        invariant
            k <= s <= len == units@.len(),
            out@ == units@.take(k as int),
        decreases s - k,
    {
        out.push(units[k]);
        k = k + 1;
        assert(out@ =~= units@.take(k as int));
    }
    let ghost head = out@;
    push_utf16(&mut out, prefix);
    if s == e {
        push_utf16(&mut out, placeholder);
    } else {
        push_lossy(&mut out, units, s, e);
    }
    push_utf16(&mut out, suffix);
    let cursor = out.len();
    let ghost ins = inserted_units(units@, s as nat, e as nat, prefix@, suffix@, placeholder@);
    assert(out@ =~= head + ins);
    let mut k = e;
    while k < len
        invariant
            e <= k <= len == units@.len(),
            out@ == head + ins + units@.subrange(e as int, k as int),
        decreases len - k,
    {
        out.push(units[k]);
        k = k + 1;
        assert(out@ =~= head + ins + units@.subrange(e as int, k as int));
    }
    assert(units@.subrange(e as int, len as int) =~= units@.skip(e as int));
    (out, cursor)
}

/// The server's current copy, as a conflict reports it.
pub struct ServerCopy {
    pub version: i32,
    pub title: String,
    pub content: String,
}

/// The editor's state: the draft, the baseline it is compared with, the
/// version it is based on, and what the save and merge flow shows.
pub struct EditorState {
    pub title: String,
    pub content: String,
    pub orig_title: String,
    pub orig_content: String,
    /// The version the draft is based on (sent with every save).
    pub base_version: i32,
    /// A save is in flight.
    pub saving: bool,
    /// The last save failure, shown until the next attempt.
    pub error: Option<String>,
    /// The merge dialog is open on this server copy.
    pub conflict: Option<ServerCopy>,
    /// A manual merge is in progress; the server copy stays in view.
    pub reference: Option<ServerCopy>,
}

/// What happens to the editor.
pub enum EditorEvent {
    /// The title or content changed (typing, or a toolbar insertion).
    Edit(String, String),
    /// Save was pressed.
    Save,
    /// The save succeeded with this new version.
    SaveOk(i32),
    /// The save was refused: someone saved first; this is their copy.
    SaveConflict(ServerCopy),
    /// The save failed otherwise.
    SaveFailed(String),
    /// Keep mine: save again, based on the server's version.
    KeepMine,
    /// Take theirs: load the server's copy, drop the draft.
    TakeTheirs,
    /// Merge manually: keep the draft, rebase, keep the server copy in view.
    MergeManually,
    /// Close the merge dialog without choosing.
    CancelConflict,
    /// Stop showing the server copy.
    DismissReference,
}

/// What the editor asks its host to do.
pub enum EditorAction {
    Nothing,
    /// Send the draft's title and content, based on `version`.
    Submit(i32),
    /// A save succeeded: tell the page (it refetches).
    Saved(i32),
}

/// Does the draft differ from its baseline?
pub open spec fn is_dirty(s: EditorState) -> bool {
    s.title@ != s.orig_title@ || s.content@ != s.orig_content@
}

/// Start a save based on `version`, unless one is in flight.
pub open spec fn save_as(s: EditorState, version: i32) -> (EditorState, EditorAction) {
    if s.saving {
        (s, EditorAction::Nothing)
    } else {
        (EditorState { saving: true, error: None, ..s }, EditorAction::Submit(version))
    }
}

/// One step of the editor.
pub open spec fn editor_step_spec(s: EditorState, e: EditorEvent) -> (EditorState, EditorAction) {
    match e {
        EditorEvent::Edit(t, c) => (EditorState { title: t, content: c, ..s }, EditorAction::Nothing),
        EditorEvent::Save => save_as(s, s.base_version),
        EditorEvent::SaveOk(v) => (
            EditorState { saving: false, conflict: None, reference: None, base_version: v, ..s },
            EditorAction::Saved(v),
        ),
        EditorEvent::SaveConflict(c) => (
            EditorState { saving: false, conflict: Some(c), ..s },
            EditorAction::Nothing,
        ),
        EditorEvent::SaveFailed(m) => (
            EditorState { saving: false, error: Some(m), ..s },
            EditorAction::Nothing,
        ),
        EditorEvent::KeepMine => match s.conflict {
            Some(c) => save_as(s, c.version),
            None => (s, EditorAction::Nothing),
        },
        EditorEvent::TakeTheirs => match s.conflict {
            Some(c) => (
                EditorState {
                    title: c.title,
                    content: c.content,
                    orig_title: c.title,
                    orig_content: c.content,
                    base_version: c.version,
                    conflict: None,
                    reference: None,
                    ..s
                },
                EditorAction::Nothing,
            ),
            None => (s, EditorAction::Nothing),
        },
        EditorEvent::MergeManually => match s.conflict {
            Some(c) => (
                EditorState { base_version: c.version, reference: Some(c), conflict: None, ..s },
                EditorAction::Nothing,
            ),
            None => (s, EditorAction::Nothing),
        },
        EditorEvent::CancelConflict => (EditorState { conflict: None, ..s }, EditorAction::Nothing),
        EditorEvent::DismissReference => (EditorState { reference: None, ..s }, EditorAction::Nothing),
    }
}

impl EditorState {
    /// A fresh editor on the server's `title`, `content` and `version`.
    pub fn new(title: String, content: String, version: i32) -> (s: EditorState)
        ensures
            s.title == title && s.content == content,
            s.orig_title == title && s.orig_content == content,
            s.base_version == version,
            !s.saving && s.error is None && s.conflict is None && s.reference is None,
    {
        let orig_title = title.clone();
        let orig_content = content.clone();
        EditorState {
            title,
            content,
            orig_title,
            orig_content,
            base_version: version,
            saving: false,
            error: None,
            conflict: None,
            reference: None,
        }
    }

    /// Does the draft differ from its baseline?
    pub fn dirty(&self) -> (r: bool)
        ensures
            r == is_dirty(*self),
    {
        !str_eq(self.title.as_str(), self.orig_title.as_str()) || !str_eq(
            self.content.as_str(),
            self.orig_content.as_str(),
        )
    }

    /// Save is offered while nothing is in flight and the draft changed.
    pub fn save_enabled(&self) -> (r: bool)
        ensures
            r == (!self.saving && is_dirty(*self)),
    {
        !self.saving && self.dirty()
    }
}

/// Start a save based on `version`, unless one is in flight.
fn start_save(s: EditorState, version: i32) -> (r: (EditorState, EditorAction))
    ensures
        r == save_as(s, version),
{
    if s.saving {
        (s, EditorAction::Nothing)
    } else {
        let mut s = s;
        s.saving = true;
        s.error = None;
        (s, EditorAction::Submit(version))
    }
}

/// One step of the editor: the new state, and what the host should do.
pub fn editor_step(s: EditorState, e: EditorEvent) -> (r: (EditorState, EditorAction))
    ensures
        r == editor_step_spec(s, e),
{
    let mut s = s;
    match e {
        EditorEvent::Edit(t, c) => {
            s.title = t;
            s.content = c;
            (s, EditorAction::Nothing)
        },
        EditorEvent::Save => {
            let v = s.base_version;
            start_save(s, v)
        },
        EditorEvent::SaveOk(v) => {
            s.saving = false;
            s.conflict = None;
            s.reference = None;
            s.base_version = v;
            (s, EditorAction::Saved(v))
        },
        EditorEvent::SaveConflict(c) => {
            s.saving = false;
            s.conflict = Some(c);
            (s, EditorAction::Nothing)
        },
        EditorEvent::SaveFailed(m) => {
            s.saving = false;
            s.error = Some(m);
            (s, EditorAction::Nothing)
        },
        EditorEvent::KeepMine => {
            let version = match &s.conflict {
                Some(c) => Some(c.version),
                None => None,
            };
            match version {
                Some(v) => start_save(s, v),
                None => (s, EditorAction::Nothing),
            }
        },
        EditorEvent::TakeTheirs => {
            let taken = s.conflict.take();
            match taken {
                Some(c) => {
                    s.orig_title = c.title.clone();
                    s.orig_content = c.content.clone();
                    s.title = c.title;
                    s.content = c.content;
                    s.base_version = c.version;
                    s.reference = None;
                    (s, EditorAction::Nothing)
                },
                None => (s, EditorAction::Nothing),
            }
        },
        EditorEvent::MergeManually => {
            let taken = s.conflict.take();
            match taken {
                Some(c) => {
                    s.base_version = c.version;
                    s.reference = Some(c);
                    (s, EditorAction::Nothing)
                },
                None => (s, EditorAction::Nothing),
            }
        },
        EditorEvent::CancelConflict => {
            s.conflict = None;
            (s, EditorAction::Nothing)
        },
        EditorEvent::DismissReference => {
            s.reference = None;
            (s, EditorAction::Nothing)
        },
    }
}

} // verus!
