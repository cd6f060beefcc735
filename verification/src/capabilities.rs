//! The capability vocabulary as editor toggles: stored grants parse into
//! flags, flags compose back into the grant list the API receives.

use vstd::prelude::*;
use crate::text::{contains_str, contains_view, owned, starts_with, str_eq, views, has_prefix};

verus! {

/// The concrete capabilities the editor can emit besides the globs, in
/// presentation order.
pub open spec fn all_singles() -> Seq<Seq<char>> {
    seq![
        "manage_strategies"@,
        "manage_initiatives"@,
        "manage_tasks"@,
        "manage_documents"@,
        "manage_adrs"@,
        "transition_items"@,
        "configure_boards"@,
        "administer_members"@,
    ]
}

/// The `i`-th concrete capability of the editor vocabulary.
pub fn single(i: usize) -> (r: &'static str)
    requires
        i < 8,
    ensures
        r@ == all_singles()[i as int],
{
    match i {
        0 => "manage_strategies",
        1 => "manage_initiatives",
        2 => "manage_tasks",
        3 => "manage_documents",
        4 => "manage_adrs",
        5 => "transition_items",
        6 => "configure_boards",
        _ => "administer_members",
    }
}

/// The editor's state as plain booleans.
pub struct SelectionFlags {
    pub full_access: bool,
    pub manage_all: bool,
    pub configure_all: bool,
    /// Enabled concrete capabilities, in vocabulary order.
    pub singles: Vec<String>,
}

/// Is the concrete capability `single` enabled by the stored grants
/// `caps`? A stored `transition_*` stands for `transition_items`.
pub open spec fn single_held(caps: Seq<String>, single: Seq<char>) -> bool {
    contains_view(caps, single) || (single == "transition_items"@ && contains_view(
        caps,
        "transition_*"@,
    ))
}

/// The flags that a stored grant list parses into.
pub open spec fn flags_from(caps: Seq<String>, flags: SelectionFlags) -> bool {
    &&& flags.full_access == contains_view(caps, "*"@)
    &&& flags.manage_all == contains_view(caps, "manage_*"@)
    &&& flags.configure_all == contains_view(caps, "configure_*"@)
    &&& views(flags.singles@) == all_singles().filter(|s: Seq<char>| single_held(caps, s))
}

/// Is `single` already covered by an enabled family glob?
pub open spec fn covered_by(manage_all: bool, configure_all: bool, single: Seq<char>) -> bool {
    (manage_all && has_prefix(single, "manage_"@)) || (configure_all && has_prefix(
        single,
        "configure_"@,
    ))
}

/// Is `single` already covered by an enabled family glob of `flags`?
pub open spec fn covered(flags: SelectionFlags, single: Seq<char>) -> bool {
    covered_by(flags.manage_all, flags.configure_all, single)
}

/// The grant list the API receives for these toggles: `*` alone wins;
/// family globs travel as globs; singles already covered by an enabled
/// glob are dropped.
pub open spec fn composed_of(
    full_access: bool,
    manage_all: bool,
    configure_all: bool,
    singles: Seq<Seq<char>>,
) -> Seq<Seq<char>> {
    if full_access {
        seq!["*"@]
    } else {
        (if manage_all {
            seq!["manage_*"@]
        } else {
            Seq::empty()
        }) + (if configure_all {
            seq!["configure_*"@]
        } else {
            Seq::empty()
        }) + singles.filter(|s: Seq<char>| !covered_by(manage_all, configure_all, s))
    }
}

/// The grant list the API receives for `flags`.
pub open spec fn composed(flags: SelectionFlags) -> Seq<Seq<char>> {
    composed_of(flags.full_access, flags.manage_all, flags.configure_all, views(flags.singles@))
}

impl SelectionFlags {
    /// Parse a stored grant set into editor flags. Unknown values are
    /// ignored; a stored `transition_*` normalizes to `transition_items`.
    pub fn from_capabilities(capabilities: &[String]) -> (flags: SelectionFlags)
        ensures
            flags_from(capabilities@, flags),
    {
        let ghost pred = |s: Seq<char>| single_held(capabilities@, s);
        let has_transition_glob = contains_str(capabilities, "transition_*");
        let mut singles: Vec<String> = Vec::new();
        let mut i: usize = 0;
        while i < 8
            invariant
                i <= 8,
                has_transition_glob == contains_view(capabilities@, "transition_*"@),
                pred == (|s: Seq<char>| single_held(capabilities@, s)),
                views(singles@) == all_singles().take(i as int).filter(pred),
            decreases 8 - i,
        {
            let name = single(i);
            let keep = contains_str(capabilities, name) || (str_eq(name, "transition_items")
                && has_transition_glob);
            proof {
                reveal_with_fuel(Seq::<_>::filter, 1);
                assert(all_singles().take(i + 1).drop_last() =~= all_singles().take(i as int));
                assert(all_singles().take(i + 1).last() == all_singles()[i as int]);
                assert(keep == pred(all_singles()[i as int]));
            }
            if keep {
                let ghost before = singles@;
                singles.push(owned(name));
                assert(views(singles@) =~= views(before).push(name@));
            }
            i = i + 1;
        }
        assert(all_singles().take(8) =~= all_singles());
        SelectionFlags {
            full_access: contains_str(capabilities, "*"),
            manage_all: contains_str(capabilities, "manage_*"),
            configure_all: contains_str(capabilities, "configure_*"),
            singles,
        }
    }
}

/// Flags to the capability list the API receives.
pub fn compose_selection(flags: &SelectionFlags) -> (selection: Vec<String>)
    ensures
        views(selection@) == composed(*flags),
{
    if flags.full_access {
        let mut v: Vec<String> = Vec::new();
        v.push(owned("*"));
        assert(views(v@) =~= seq!["*"@]);
        return v;
    }
    let mut selection: Vec<String> = Vec::new();
    if flags.manage_all {
        selection.push(owned("manage_*"));
    }
    if flags.configure_all {
        selection.push(owned("configure_*"));
    }
    let ghost head = views(selection@);
    assert(head =~= (if flags.manage_all {
        seq!["manage_*"@]
    } else {
        Seq::<Seq<char>>::empty()
    }) + (if flags.configure_all {
        seq!["configure_*"@]
    } else {
        Seq::<Seq<char>>::empty()
    }));
    let ghost pred = |s: Seq<char>| !covered_by(flags.manage_all, flags.configure_all, s);
    let mut i: usize = 0;
    while i < flags.singles.len()
        invariant
            i <= flags.singles@.len(),
            pred == (|s: Seq<char>| !covered_by(flags.manage_all, flags.configure_all, s)),
            views(selection@) == head + views(flags.singles@).take(i as int).filter(pred),
        decreases flags.singles@.len() - i,
    {
        let single = flags.singles[i].as_str();
        let is_covered = (flags.manage_all && starts_with(single, "manage_")) || (
        flags.configure_all && starts_with(single, "configure_"));
        proof {
            reveal_with_fuel(Seq::<_>::filter, 1);
            assert(views(flags.singles@).take(i + 1).drop_last() =~= views(flags.singles@).take(
                i as int,
            ));
            assert(views(flags.singles@)[i as int] == single@);
            assert(views(flags.singles@).take(i + 1).last() == single@);
            assert(is_covered == !pred(single@));
        }
        if !is_covered {
            let ghost before = views(selection@);
            selection.push(owned(single));
            assert(views(selection@) =~= before.push(single@));
            assert(before.push(single@) =~= head + views(flags.singles@).take(i as int).filter(
                pred,
            ).push(single@));
        }
        i = i + 1;
    }
    assert(views(flags.singles@).take(flags.singles@.len() as int) =~= views(flags.singles@));
    selection
}

impl Default for SelectionFlags {
    /// Nothing selected.
    fn default() -> (f: SelectionFlags)
        ensures
            !f.full_access && !f.manage_all && !f.configure_all && f.singles@.len() == 0,
    {
        SelectionFlags {
            full_access: false,
            manage_all: false,
            configure_all: false,
            singles: Vec::new(),
        }
    }
}

/// The capability editor's toggles.
pub struct EditorState {
    pub full_access: bool,
    pub manage_all: bool,
    pub configure_all: bool,
    pub manage_strategies: bool,
    pub manage_initiatives: bool,
    pub manage_tasks: bool,
    pub manage_documents: bool,
    pub manage_adrs: bool,
    pub transition_items: bool,
    pub configure_boards: bool,
    pub administer_members: bool,
}

/// The toggle of the `i`-th concrete capability.
pub open spec fn toggle(e: EditorState, i: int) -> bool {
    if i == 0 {
        e.manage_strategies
    } else if i == 1 {
        e.manage_initiatives
    } else if i == 2 {
        e.manage_tasks
    } else if i == 3 {
        e.manage_documents
    } else if i == 4 {
        e.manage_adrs
    } else if i == 5 {
        e.transition_items
    } else if i == 6 {
        e.configure_boards
    } else {
        e.administer_members
    }
}

/// The enabled concrete capabilities of the editor, in vocabulary order.
pub open spec fn enabled_singles(e: EditorState, n: int) -> Seq<Seq<char>>
    decreases n,
{
    if n <= 0 {
        Seq::empty()
    } else {
        let r = enabled_singles(e, n - 1);
        if toggle(e, n - 1) {
            r.push(all_singles()[n - 1])
        } else {
            r
        }
    }
}

impl EditorState {
    /// A fresh editor: everything off (no grant by default).
    pub fn new() -> (e: EditorState)
        ensures
            !e.full_access && !e.manage_all && !e.configure_all,
            forall|i: int| 0 <= i < 8 ==> !toggle(e, i),
    {
        EditorState {
            full_access: false,
            manage_all: false,
            configure_all: false,
            manage_strategies: false,
            manage_initiatives: false,
            manage_tasks: false,
            manage_documents: false,
            manage_adrs: false,
            transition_items: false,
            configure_boards: false,
            administer_members: false,
        }
    }

    /// An editor prefilled from a member's stored grants.
    pub fn from_capabilities(capabilities: &[String]) -> (e: EditorState)
        ensures
            e.full_access == contains_view(capabilities@, "*"@),
            e.manage_all == contains_view(capabilities@, "manage_*"@),
            e.configure_all == contains_view(capabilities@, "configure_*"@),
            forall|i: int|
                0 <= i < 8 ==> toggle(e, i) == single_held(capabilities@, all_singles()[i]),
    {
        let held = |k: usize| -> (r: bool)
            requires
                k < 8,
            ensures
                r == single_held(capabilities@, all_singles()[k as int]),
            {
                let name = single(k);
                contains_str(capabilities, name) || (str_eq(name, "transition_items")
                    && contains_str(capabilities, "transition_*"))
            };
        let e = EditorState {
            full_access: contains_str(capabilities, "*"),
            manage_all: contains_str(capabilities, "manage_*"),
            configure_all: contains_str(capabilities, "configure_*"),
            manage_strategies: held(0),
            manage_initiatives: held(1),
            manage_tasks: held(2),
            manage_documents: held(3),
            manage_adrs: held(4),
            transition_items: held(5),
            configure_boards: held(6),
            administer_members: held(7),
        };
        assert forall|i: int| 0 <= i < 8 implies toggle(e, i) == single_held(
            capabilities@,
            all_singles()[i],
        ) by {
            if i == 0 {
            } else if i == 1 {
            } else if i == 2 {
            } else if i == 3 {
            } else if i == 4 {
            } else if i == 5 {
            } else if i == 6 {
            } else {
            }
        }
        e
    }

    /// The toggle of the `i`-th concrete capability (exec form).
    fn toggle_at(&self, i: usize) -> (r: bool)
        requires
            i < 8,
        ensures
            r == toggle(*self, i as int),
    {
        match i {
            0 => self.manage_strategies,
            1 => self.manage_initiatives,
            2 => self.manage_tasks,
            3 => self.manage_documents,
            4 => self.manage_adrs,
            5 => self.transition_items,
            6 => self.configure_boards,
            _ => self.administer_members,
        }
    }

    /// Snapshot the toggles into flags.
    pub fn flags(&self) -> (f: SelectionFlags)
        ensures
            f.full_access == self.full_access,
            f.manage_all == self.manage_all,
            f.configure_all == self.configure_all,
            views(f.singles@) == enabled_singles(*self, 8),
    {
        let mut singles: Vec<String> = Vec::new();
        let mut i: usize = 0;
        while i < 8
            invariant
                i <= 8,
                views(singles@) == enabled_singles(*self, i as int),
            decreases 8 - i,
        {
            if self.toggle_at(i) {
                let ghost before = singles@;
                singles.push(owned(single(i)));
                assert(views(singles@) =~= views(before).push(all_singles()[i as int]));
            }
            i = i + 1;
        }
        SelectionFlags {
            full_access: self.full_access,
            manage_all: self.manage_all,
            configure_all: self.configure_all,
            singles,
        }
    }

    /// The capability list to send.
    pub fn selection(&self) -> (r: Vec<String>)
        ensures
            views(r@) == composed_of(
                self.full_access,
                self.manage_all,
                self.configure_all,
                enabled_singles(*self, 8),
            ),
    {
        let f = self.flags();
        let r = compose_selection(&f);
        r
    }
}

/// Filtering by two predicates that agree on every element gives the same
/// result.
pub proof fn lemma_filter_congruent<A>(s: Seq<A>, p: spec_fn(A) -> bool, q: spec_fn(A) -> bool)
    requires
        forall|i: int| 0 <= i < s.len() ==> p(#[trigger] s[i]) == q(s[i]),
    ensures
        s.filter(p) == s.filter(q),
    decreases s.len(),
{
    reveal_with_fuel(Seq::<_>::filter, 1);
    if s.len() > 0 {
        assert forall|i: int| 0 <= i < s.drop_last().len() implies p(
            #[trigger] s.drop_last()[i],
        ) == q(s.drop_last()[i]) by {
            assert(s.drop_last()[i] == s[i]);
        }
        lemma_filter_congruent(s.drop_last(), p, q);
        assert(p(s[s.len() - 1]) == q(s[s.len() - 1]));
    }
}

/// Filtering by a predicate every element meets changes nothing.
pub proof fn lemma_filter_keeps_all<A>(s: Seq<A>, p: spec_fn(A) -> bool)
    requires
        forall|i: int| 0 <= i < s.len() ==> p(#[trigger] s[i]),
    ensures
        s.filter(p) == s,
    decreases s.len(),
{
    reveal_with_fuel(Seq::<_>::filter, 1);
    if s.len() > 0 {
        assert forall|i: int| 0 <= i < s.drop_last().len() implies p(#[trigger] s.drop_last()[i]) by {
            assert(s.drop_last()[i] == s[i]);
        }
        lemma_filter_keeps_all(s.drop_last(), p);
        assert(p(s[s.len() - 1]));
        assert(s.drop_last().push(s.last()) =~= s);
    }
}

proof fn lemma_vocabulary_literals()
    ensures
        !all_singles().contains("*"@),
        !all_singles().contains("manage_*"@),
        !all_singles().contains("configure_*"@),
        !all_singles().contains("transition_*"@),
{
    reveal_strlit("*");
    reveal_strlit("manage_*");
    reveal_strlit("configure_*");
    reveal_strlit("transition_*");
    reveal_strlit("manage_strategies");
    reveal_strlit("manage_initiatives");
    reveal_strlit("manage_tasks");
    reveal_strlit("manage_documents");
    reveal_strlit("manage_adrs");
    reveal_strlit("transition_items");
    reveal_strlit("configure_boards");
    reveal_strlit("administer_members");
    let v = all_singles();
    assert forall|k: int| 0 <= k < v.len() implies v[k] != "*"@ && v[k] != "manage_*"@ && v[k]
        != "configure_*"@ && v[k] != "transition_*"@ by {
        assert(v[k].len() > 1);
        if k == 0 {
            assert(v[k][11] != "manage_*"@[7]);
            assert(v[k].len() != "configure_*"@.len());
            assert(v[k].len() != "transition_*"@.len());
        } else if k == 1 {
            assert(v[k][7] != "manage_*"@[7]);
            assert(v[k].len() != "configure_*"@.len());
            assert(v[k].len() != "transition_*"@.len());
        } else if k == 2 {
            assert(v[k].len() != "manage_*"@.len());
            assert(v[k][0] != "configure_*"@[0]);
            assert(v[k][0] != "transition_*"@[0]);
        } else if k == 3 {
            assert(v[k].len() != "manage_*"@.len());
            assert(v[k].len() != "configure_*"@.len());
            assert(v[k].len() != "transition_*"@.len());
        } else if k == 4 {
            assert(v[k].len() != "manage_*"@.len());
            assert(v[k][0] != "configure_*"@[0]);
            assert(v[k][0] != "transition_*"@[0]);
        } else if k == 5 {
            assert(v[k].len() != "manage_*"@.len());
            assert(v[k].len() != "configure_*"@.len());
            assert(v[k][11] != "transition_*"@[11]);
        } else if k == 6 {
            assert(v[k].len() != "manage_*"@.len());
            assert(v[k].len() != "configure_*"@.len());
            assert(v[k][0] != "transition_*"@[0]);
        } else {
            assert(v[k].len() != "manage_*"@.len());
            assert(v[k].len() != "configure_*"@.len());
            assert(v[k].len() != "transition_*"@.len());
        }
    }
}

proof fn lemma_stored_within(stored: Seq<String>, keep: spec_fn(Seq<char>) -> bool, x: Seq<char>)
    requires
        views(stored) == all_singles().filter(keep),
        contains_view(stored, x),
    ensures
        all_singles().contains(x),
        keep(x),
{
    let i = choose|i: int| 0 <= i < stored.len() && #[trigger] stored[i]@ == x;
    assert(views(stored)[i] == x);
    assert(all_singles().filter(keep).contains(x));
    all_singles().lemma_filter_contains_rev(keep, x);
    all_singles().lemma_filter_pred(keep, i);
}

/// Full access always composes to exactly `*`, whatever else is toggled.
pub proof fn law_full_access_composes_to_star(flags: SelectionFlags)
    requires
        flags.full_access,
    ensures
        composed(flags) == seq!["*"@],
{
}

/// An enabled family glob travels as the glob and swallows every single it
/// covers: no composed grant but the glob itself starts with `manage_`
/// when `manage_*` is on (likewise `configure_`).
pub proof fn law_family_glob_swallows_covered_singles(flags: SelectionFlags)
    requires
        !flags.full_access,
    ensures
        forall|i: int|
            0 <= i < composed(flags).len() && #[trigger] composed(flags)[i] != "manage_*"@
                && composed(flags)[i] != "configure_*"@ ==> !covered(flags, composed(flags)[i]),
{
    let pred = |s: Seq<char>| !covered_by(flags.manage_all, flags.configure_all, s);
    let tail = views(flags.singles@).filter(pred);
    let head = (if flags.manage_all {
        seq!["manage_*"@]
    } else {
        Seq::<Seq<char>>::empty()
    }) + (if flags.configure_all {
        seq!["configure_*"@]
    } else {
        Seq::<Seq<char>>::empty()
    });
    assert(composed(flags) == head + tail);
    assert forall|i: int|
        0 <= i < composed(flags).len() && #[trigger] composed(flags)[i] != "manage_*"@
            && composed(flags)[i] != "configure_*"@ implies !covered(flags, composed(flags)[i]) by {
        if i >= head.len() {
            assert(composed(flags)[i] == tail[i - head.len()]);
            views(flags.singles@).lemma_filter_pred(pred, i - head.len());
        } else {
            if flags.manage_all && i == 0 {
                assert(composed(flags)[i] == "manage_*"@);
            } else {
                assert(composed(flags)[i] == "configure_*"@);
            }
        }
    }
}

/// Stored grants made of vocabulary singles, in vocabulary order, parse
/// into flags with no glob on and compose back to exactly the same list.
pub proof fn law_singles_round_trip(
    stored: Seq<String>,
    keep: spec_fn(Seq<char>) -> bool,
    flags: SelectionFlags,
)
    requires
        views(stored) == all_singles().filter(keep),
        flags_from(stored, flags),
    ensures
        !flags.full_access && !flags.manage_all && !flags.configure_all,
        composed(flags) == views(stored),
{
    lemma_vocabulary_literals();
    if contains_view(stored, "*"@) {
        lemma_stored_within(stored, keep, "*"@);
    }
    if contains_view(stored, "manage_*"@) {
        lemma_stored_within(stored, keep, "manage_*"@);
    }
    if contains_view(stored, "configure_*"@) {
        lemma_stored_within(stored, keep, "configure_*"@);
    }
    if contains_view(stored, "transition_*"@) {
        lemma_stored_within(stored, keep, "transition_*"@);
    }
    let held = |s: Seq<char>| single_held(stored, s);
    let v = all_singles();
    assert forall|k: int| 0 <= k < v.len() implies held(#[trigger] v[k]) == keep(v[k]) by {
        if keep(v[k]) {
            v.lemma_filter_contains(keep, k);
            let j = choose|j: int| 0 <= j < views(stored).len() && views(stored)[j] == v[k];
            assert(stored[j]@ == v[k]);
        }
        if contains_view(stored, v[k]) {
            lemma_stored_within(stored, keep, v[k]);
        }
    }
    lemma_filter_congruent(v, held, keep);
    let never = |s: Seq<char>| !covered_by(false, false, s);
    lemma_filter_keeps_all(views(flags.singles@), never);
    assert(composed(flags) =~= Seq::<Seq<char>>::empty() + Seq::<Seq<char>>::empty() + views(
        flags.singles@,
    ).filter(never));
}

/// The grant sent is exactly the enabled set, minus what a family glob
/// already covers: unless full access is on (then only `*` is sent),
/// every enabled single that is neither a `manage_` capability under
/// `manage_*` nor a `configure_` capability under `configure_*` is sent;
/// and everything sent besides the two globs is such a single.
pub proof fn law_uncovered_singles_are_sent(flags: SelectionFlags)
    ensures
        flags.full_access ==> composed(flags) == seq!["*"@],
        !flags.full_access ==> forall|k: int|
            0 <= k < flags.singles@.len() && !(flags.manage_all && has_prefix(
                #[trigger] flags.singles@[k]@,
                "manage_"@,
            )) && !(flags.configure_all && has_prefix(flags.singles@[k]@, "configure_"@))
                ==> composed(flags).contains(flags.singles@[k]@),
        !flags.full_access ==> forall|x: Seq<char>|
            #[trigger] composed(flags).contains(x) && x != "manage_*"@ && x != "configure_*"@
                ==> views(flags.singles@).contains(x) && !(flags.manage_all && has_prefix(
                x,
                "manage_"@,
            )) && !(flags.configure_all && has_prefix(x, "configure_"@)),
{
    if !flags.full_access {
        let singles = views(flags.singles@);
        let pred = |s: Seq<char>| !covered_by(flags.manage_all, flags.configure_all, s);
        let globs = (if flags.manage_all {
            seq!["manage_*"@]
        } else {
            Seq::<Seq<char>>::empty()
        }) + (if flags.configure_all {
            seq!["configure_*"@]
        } else {
            Seq::<Seq<char>>::empty()
        });
        let kept = singles.filter(pred);
        assert(composed(flags) == globs + kept);
        assert forall|k: int|
            0 <= k < flags.singles@.len() && !(flags.manage_all && has_prefix(
                #[trigger] flags.singles@[k]@,
                "manage_"@,
            )) && !(flags.configure_all && has_prefix(flags.singles@[k]@, "configure_"@))
            implies composed(flags).contains(flags.singles@[k]@) by {
            assert(singles[k] == flags.singles@[k]@);
            singles.lemma_filter_contains(pred, k);
            let m = choose|m: int| 0 <= m < kept.len() && kept[m] == singles[k];
            assert((globs + kept)[globs.len() + m] == kept[m]);
        }
        assert forall|x: Seq<char>|
            #[trigger] composed(flags).contains(x) && x != "manage_*"@ && x != "configure_*"@
            implies singles.contains(x) && !(flags.manage_all && has_prefix(x, "manage_"@)) && !(
            flags.configure_all && has_prefix(x, "configure_"@)) by {
            let m = choose|m: int| 0 <= m < (globs + kept).len() && (globs + kept)[m] == x;
            if m < globs.len() {
                assert(globs[m] == x);
            } else {
                assert(kept[m - globs.len()] == x);
                singles.lemma_filter_pred(pred, m - globs.len());
                assert(kept.contains(x));
                singles.lemma_filter_contains_rev(pred, x);
            }
        }
    }
}

} // verus!
