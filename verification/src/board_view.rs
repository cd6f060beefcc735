//! The board view's column models: each column's drop targets and its
//! cards, strategies first, then initiatives, tasks and ADRs, each card
//! with the accented facts it shows.

use vstd::prelude::*;
use crate::board_data::{
    column_targets, pairs_view, targets_of, Adr, BoardColumnItems, BoardView, EntityKind,
    Initiative, Strategy, Task,
};
use crate::board_rules::Token;
use crate::text::{owned, push_str, str_eq, string_clone};

verus! {

/// One card as the board renders it.
pub struct CardView {
    pub kind: EntityKind,
    pub short_code: String,
    pub title: String,
    /// Short facts shown on the card, each with its accent.
    pub meta: Vec<(String, Token)>,
}

/// One column as the board renders it.
pub struct ColumnModel {
    pub id: String,
    pub name: String,
    /// `(target column id, target name)` for each allowed move.
    pub targets: Vec<(String, String)>,
    pub cards: Vec<CardView>,
}

/// A card's facts as plain values.
pub type MetaV = Seq<(Seq<char>, Token)>;

/// A card as plain values: (kind, short code, title, facts).
pub type CardV = (EntityKind, Seq<char>, Seq<char>, MetaV);

/// The facts as plain values.
pub open spec fn meta_view(m: Seq<(String, Token)>) -> MetaV {
    m.map_values(|p: (String, Token)| (p.0@, p.1))
}

/// A card as plain values.
pub open spec fn card_view(c: CardView) -> CardV {
    (c.kind, c.short_code@, c.title@, meta_view(c.meta@))
}

/// An initiative's facts: its complexity (ice), then, for a bucket, the
/// bucket type (gold; empty when unnamed).
pub open spec fn initiative_facts(i: Initiative) -> MetaV {
    (match i.complexity {
        Some(c) => seq![("complexity "@ + c@, Token::Ice)],
        None => Seq::empty(),
    }) + if i.is_bucket {
        seq![(
            "bucket \u{b7} "@ + match i.bucket_type {
                Some(b) => b@,
                None => Seq::empty(),
            },
            Token::Gold,
        )]
    } else {
        Seq::empty()
    }
}

/// A task's facts by its type: bugs (bad), tech debt and support (gold);
/// plain tasks show none.
pub open spec fn task_facts(task_type: Seq<char>) -> MetaV {
    if task_type == "bug"@ {
        seq![("bug"@, Token::Bad)]
    } else if task_type == "tech_debt"@ {
        seq![("tech debt"@, Token::Gold)]
    } else if task_type == "support"@ {
        seq![("support"@, Token::Gold)]
    } else {
        Seq::empty()
    }
}

/// An ADR's facts: its decision date (violet), when decided.
pub open spec fn adr_facts(a: Adr) -> MetaV {
    match a.decision_date {
        Some(d) => seq![("decided "@ + d@, Token::Violet)],
        None => Seq::empty(),
    }
}

/// The card of a strategy.
pub open spec fn strategy_card(s: Strategy) -> CardV {
    (EntityKind::Strategy, s.short_code@, s.title@, Seq::empty())
}

/// The card of an initiative.
pub open spec fn initiative_card(i: Initiative) -> CardV {
    (EntityKind::Initiative, i.short_code@, i.title@, initiative_facts(i))
}

/// The card of a task.
pub open spec fn task_card(t: Task) -> CardV {
    (EntityKind::Task, t.short_code@, t.title@, task_facts(t.task_type@))
}

/// The card of an ADR.
pub open spec fn adr_card(a: Adr) -> CardV {
    (EntityKind::Adr, a.short_code@, a.title@, adr_facts(a))
}

/// A column's cards: strategies, initiatives, tasks, ADRs, each group in
/// the order the server sent it.
pub open spec fn column_cards_spec(g: BoardColumnItems) -> Seq<CardV> {
    g.strategies@.map_values(|s: Strategy| strategy_card(s)) + g.initiatives@.map_values(
        |i: Initiative| initiative_card(i),
    ) + g.tasks@.map_values(|t: Task| task_card(t)) + g.adrs@.map_values(|a: Adr| adr_card(a))
}

/// The facts shown on an initiative's card.
pub fn initiative_meta(i: &Initiative) -> (m: Vec<(String, Token)>)
    ensures
        meta_view(m@) == initiative_facts(*i),
{
    let mut m: Vec<(String, Token)> = Vec::new();
    if let Some(c) = &i.complexity {
        let mut text = owned("complexity ");
        push_str(&mut text, c.as_str());
        m.push((text, Token::Ice));
    }
    let ghost first = m@;
    if i.is_bucket {
        let mut text = owned("bucket \u{b7} ");
        match &i.bucket_type {
            Some(b) => push_str(&mut text, b.as_str()),
            None => {},
        }
        m.push((text, Token::Gold));
    }
    assert(meta_view(m@) =~= initiative_facts(*i));
    m
}

/// The facts shown on a task's card.
pub fn task_meta(task_type: &str) -> (m: Vec<(String, Token)>)
    ensures
        meta_view(m@) == task_facts(task_type@),
{
    let mut m: Vec<(String, Token)> = Vec::new();
    if str_eq(task_type, "bug") {
        m.push((owned("bug"), Token::Bad));
    } else if str_eq(task_type, "tech_debt") {
        m.push((owned("tech debt"), Token::Gold));
    } else if str_eq(task_type, "support") {
        m.push((owned("support"), Token::Gold));
    }
    assert(meta_view(m@) =~= task_facts(task_type@));
    m
}

/// The facts shown on an ADR's card.
pub fn adr_meta(a: &Adr) -> (m: Vec<(String, Token)>)
    ensures
        meta_view(m@) == adr_facts(*a),
{
    let mut m: Vec<(String, Token)> = Vec::new();
    if let Some(d) = &a.decision_date {
        let mut text = owned("decided ");
        push_str(&mut text, d.as_str());
        m.push((text, Token::Violet));
    }
    assert(meta_view(m@) =~= adr_facts(*a));
    m
}

/// The cards of one column, in render order.
pub fn column_cards(g: &BoardColumnItems) -> (cards: Vec<CardView>)
    ensures
        cards@.map_values(|c: CardView| card_view(c)) == column_cards_spec(*g),
{
    let mut cards: Vec<CardView> = Vec::new();
    let mut i: usize = 0;
    while i < g.strategies.len()
        invariant
            i <= g.strategies@.len(),
            cards@.map_values(|c: CardView| card_view(c)) == g.strategies@.take(i as int).map_values(
                |s: Strategy| strategy_card(s),
            ),
        decreases g.strategies@.len() - i,
    {
        let s = &g.strategies[i];
        let card = CardView {
            kind: EntityKind::Strategy,
            short_code: string_clone(&s.short_code),
            title: string_clone(&s.title),
            meta: Vec::new(),
        };
        assert(meta_view(card.meta@) =~= Seq::empty());
        let ghost before = cards@;
        let ghost cv = card_view(card);
        assert(cv == strategy_card(*s));
        cards.push(card);
        assert(cards@.map_values(|c: CardView| card_view(c)) =~= before.map_values(
            |c: CardView| card_view(c),
        ).push(cv));
        assert(g.strategies@.take(i + 1) =~= g.strategies@.take(i as int).push(*s));
        assert(cards@.map_values(|c: CardView| card_view(c)) =~= g.strategies@.take(i + 1).map_values(
            |s: Strategy| strategy_card(s),
        ));
        i = i + 1;
    }
    assert(g.strategies@.take(i as int) =~= g.strategies@);
    let ghost done = cards@.map_values(|c: CardView| card_view(c));
    let mut i: usize = 0;
    while i < g.initiatives.len()
        invariant
            i <= g.initiatives@.len(),
            cards@.map_values(|c: CardView| card_view(c)) == done + g.initiatives@.take(
                i as int,
            ).map_values(|x: Initiative| initiative_card(x)),
        decreases g.initiatives@.len() - i,
    {
        let x = &g.initiatives[i];
        let card = CardView {
            kind: EntityKind::Initiative,
            short_code: string_clone(&x.short_code),
            title: string_clone(&x.title),
            meta: initiative_meta(x),
        };
        let ghost before = cards@;
        let ghost cv = card_view(card);
        assert(cv == initiative_card(*x));
        cards.push(card);
        assert(cards@.map_values(|c: CardView| card_view(c)) =~= before.map_values(
            |c: CardView| card_view(c),
        ).push(cv));
        assert(g.initiatives@.take(i + 1) =~= g.initiatives@.take(i as int).push(*x));
        assert(cards@.map_values(|c: CardView| card_view(c)) =~= done + g.initiatives@.take(
            i + 1,
        ).map_values(|x: Initiative| initiative_card(x)));
        i = i + 1;
    }
    assert(g.initiatives@.take(i as int) =~= g.initiatives@);
    let ghost done = cards@.map_values(|c: CardView| card_view(c));
    let mut i: usize = 0;
    while i < g.tasks.len()
        invariant
            i <= g.tasks@.len(),
            cards@.map_values(|c: CardView| card_view(c)) == done + g.tasks@.take(i as int).map_values(
                |x: Task| task_card(x),
            ),
        decreases g.tasks@.len() - i,
    {
        let x = &g.tasks[i];
        let card = CardView {
            kind: EntityKind::Task,
            short_code: string_clone(&x.short_code),
            title: string_clone(&x.title),
            meta: task_meta(x.task_type.as_str()),
        };
        let ghost before = cards@;
        let ghost cv = card_view(card);
        assert(cv == task_card(*x));
        cards.push(card);
        assert(cards@.map_values(|c: CardView| card_view(c)) =~= before.map_values(
            |c: CardView| card_view(c),
        ).push(cv));
        assert(g.tasks@.take(i + 1) =~= g.tasks@.take(i as int).push(*x));
        assert(cards@.map_values(|c: CardView| card_view(c)) =~= done + g.tasks@.take(i + 1).map_values(
            |x: Task| task_card(x),
        ));
        i = i + 1;
    }
    assert(g.tasks@.take(i as int) =~= g.tasks@);
    let ghost done = cards@.map_values(|c: CardView| card_view(c));
    let mut i: usize = 0;
    while i < g.adrs.len()
        invariant
            i <= g.adrs@.len(),
            cards@.map_values(|c: CardView| card_view(c)) == done + g.adrs@.take(i as int).map_values(
                |x: Adr| adr_card(x),
            ),
        decreases g.adrs@.len() - i,
    {
        let x = &g.adrs[i];
        let card = CardView {
            kind: EntityKind::Adr,
            short_code: string_clone(&x.short_code),
            title: string_clone(&x.title),
            meta: adr_meta(x),
        };
        let ghost before = cards@;
        let ghost cv = card_view(card);
        assert(cv == adr_card(*x));
        cards.push(card);
        assert(cards@.map_values(|c: CardView| card_view(c)) =~= before.map_values(
            |c: CardView| card_view(c),
        ).push(cv));
        assert(g.adrs@.take(i + 1) =~= g.adrs@.take(i as int).push(*x));
        assert(cards@.map_values(|c: CardView| card_view(c)) =~= done + g.adrs@.take(i + 1).map_values(
            |x: Adr| adr_card(x),
        ));
        i = i + 1;
    }
    assert(g.adrs@.take(i as int) =~= g.adrs@);
    assert(cards@.map_values(|c: CardView| card_view(c)) =~= column_cards_spec(*g));
    cards
}

/// Does `m` render column `g` of a board whose detail is `view`?
pub open spec fn renders_column(m: ColumnModel, g: BoardColumnItems, view: BoardView) -> bool {
    &&& m.id@ == g.column.id@
    &&& m.name@ == g.column.name@
    &&& pairs_view(m.targets@) == targets_of(
        view.detail.transitions@,
        view.detail.columns@,
        g.column.id@,
    )
    &&& m.cards@.map_values(|c: CardView| card_view(c)) == column_cards_spec(g)
}

/// The view models of every column, in the server's column order: each
/// offers only the moves the board's transitions allow from it.
pub fn column_models(view: &BoardView) -> (out: Vec<ColumnModel>)
    ensures
        out@.len() == view.items.columns@.len(),
        forall|i: int|
            0 <= i < out@.len() ==> renders_column(
                #[trigger] out@[i],
                view.items.columns@[i],
                *view,
            ),
{
    let mut out: Vec<ColumnModel> = Vec::new();
    let mut i: usize = 0;
    while i < view.items.columns.len()
        invariant
            i <= view.items.columns@.len(),
            out@.len() == i,
            forall|k: int|
                0 <= k < i ==> renders_column(#[trigger] out@[k], view.items.columns@[k], *view),
        decreases view.items.columns@.len() - i,
    {
        let g = &view.items.columns[i];
        let model = ColumnModel {
            id: string_clone(&g.column.id),
            name: string_clone(&g.column.name),
            targets: column_targets(&view.detail, g.column.id.as_str()),
            cards: column_cards(g),
        };
        out.push(model);
        i = i + 1;
    }
    out
}

} // verus!
