//! Properties of the rules that span moves: what every move keeps, and
//! what the gold, the deal and the stock do over time.

use crate::deck::{full_deck_seq, suit_at};
use crate::game::{
    deal_offset, dealt_column, dealt_view,
    all_complete, fits_foundation, hidden_total, hidden_in, links, movable_run, toggled, zeus_revealed_card,
    after_draw, after_zeus_vision, draw_amount, reveal_column, after_foundation_move, after_tableau_move, face_up_card, flip_top, foundation_source, Card, GameView, Selection, TableauCard,
    FOUNDATION_COUNT, TABLEAU_COUNT, Suit,
};
use vstd::multiset::Multiset;
use vstd::prelude::*;

verus! {

broadcast use vstd::seq_lib::group_to_multiset_ensures, vstd::multiset::group_multiset_axioms;

/// The cards of a column, face up or not.
pub open spec fn cards_of(p: Seq<TableauCard>) -> Seq<Card> {
    p.map_values(|t: TableauCard| t.card)
}

/// The columns seen as sequences of cards.
pub open spec fn column_cards(t: Seq<Seq<TableauCard>>) -> Seq<Seq<Card>> {
    t.map_values(|p: Seq<TableauCard>| cards_of(p))
}

/// All the cards of a sequence of piles, counted with repetition.
pub open spec fn pile_sum(ps: Seq<Seq<Card>>) -> Multiset<Card>
    decreases ps.len(),
{
    if ps.len() == 0 {
        Multiset::empty()
    } else {
        pile_sum(ps.drop_last()).add(ps.last().to_multiset())
    }
}

/// Every card in the game, wherever it lies, counted with repetition.
pub open spec fn all_cards(v: GameView) -> Multiset<Card> {
    v.stock.to_multiset().add(v.waste.to_multiset()).add(pile_sum(v.foundations)).add(
        pile_sum(column_cards(v.tableau)),
    )
}

proof fn lemma_ms_drop_last(s: Seq<Card>)
    requires
        s.len() > 0,
    ensures
        s.to_multiset() =~= s.drop_last().to_multiset().insert(s.last()),
{
    s.lemma_add_last_back();
    assert(s.drop_last().push(s.last()).to_multiset() =~= s.drop_last().to_multiset().insert(
        s.last(),
    ));
}

proof fn lemma_pile_sum_update(ps: Seq<Seq<Card>>, i: int, x: Seq<Card>)
    requires
        0 <= i < ps.len(),
    ensures
        pile_sum(ps.update(i, x)).add(ps[i].to_multiset()) =~= pile_sum(ps).add(x.to_multiset()),
    decreases ps.len(),
{
    let u = ps.update(i, x);
    assert(pile_sum(u) == pile_sum(u.drop_last()).add(u.last().to_multiset()));
    assert(pile_sum(ps) == pile_sum(ps.drop_last()).add(ps.last().to_multiset()));
    if i == ps.len() - 1 {
        assert(u.drop_last() =~= ps.drop_last());
        assert(u.last() == x);
    } else {
        assert(u.drop_last() =~= ps.drop_last().update(i, x));
        assert(u.last() == ps.last());
        lemma_pile_sum_update(ps.drop_last(), i, x);
        let a = pile_sum(ps.drop_last().update(i, x));
        let b = pile_sum(ps.drop_last());
        assert(a.add(ps[i].to_multiset()) =~= b.add(x.to_multiset()));
        assert forall|c: Card|
            #![auto]
            pile_sum(u).add(ps[i].to_multiset()).count(c) == pile_sum(ps).add(
                x.to_multiset(),
            ).count(c) by {
            assert(a.add(ps[i].to_multiset()).count(c) == b.add(x.to_multiset()).count(c));
        }
    }
}

proof fn lemma_cancel(a: Multiset<Card>, b: Multiset<Card>, m: Multiset<Card>)
    requires
        a.add(m) =~= b.add(m),
    ensures
        a =~= b,
{
    assert forall|c: Card| #![auto] a.count(c) == b.count(c) by {
        assert(a.add(m).count(c) == b.add(m).count(c));
    }
}

/// Replacing pile `i` by `x` where `x` is the old pile with `card` on top
/// adds `card` to the sum.
proof fn lemma_pile_sum_push(ps: Seq<Seq<Card>>, i: int, card: Card)
    requires
        0 <= i < ps.len(),
    ensures
        pile_sum(ps.update(i, ps[i].push(card))) =~= pile_sum(ps).insert(card),
{
    lemma_pile_sum_update(ps, i, ps[i].push(card));
    let m = ps[i].to_multiset();
    assert(ps[i].push(card).to_multiset() =~= m.insert(card));
    assert(pile_sum(ps).add(m.insert(card)) =~= pile_sum(ps).insert(card).add(m));
    lemma_cancel(pile_sum(ps.update(i, ps[i].push(card))), pile_sum(ps).insert(card), m);
}

/// Replacing non-empty pile `i` by itself without its top removes that top
/// from the sum.
proof fn lemma_pile_sum_pop(ps: Seq<Seq<Card>>, i: int)
    requires
        0 <= i < ps.len(),
        ps[i].len() > 0,
    ensures
        pile_sum(ps.update(i, ps[i].drop_last())).insert(ps[i].last()) =~= pile_sum(ps),
{
    lemma_pile_sum_update(ps, i, ps[i].drop_last());
    lemma_ms_drop_last(ps[i]);
    let m = ps[i].drop_last().to_multiset();
    let u = pile_sum(ps.update(i, ps[i].drop_last()));
    assert(u.add(m.insert(ps[i].last())) =~= u.insert(ps[i].last()).add(m));
    lemma_cancel(u.insert(ps[i].last()), pile_sum(ps), m);
}

proof fn lemma_cards_of_push(p: Seq<TableauCard>, t: TableauCard)
    ensures
        cards_of(p.push(t)) =~= cards_of(p).push(t.card),
{
}

proof fn lemma_cards_of_drop_last_flip(p: Seq<TableauCard>)
    requires
        p.len() > 0,
    ensures
        cards_of(flip_top(p.drop_last())) =~= cards_of(p).drop_last(),
{
}

proof fn lemma_column_cards_update(t: Seq<Seq<TableauCard>>, i: int, x: Seq<TableauCard>)
    requires
        0 <= i < t.len(),
    ensures
        column_cards(t.update(i, x)) =~= column_cards(t).update(i, cards_of(x)),
{
}

/// Moving the cards of pile `i` from position `k` onto the end of pile
/// `j` keeps the sum.
proof fn lemma_pile_sum_shift(ps: Seq<Seq<Card>>, i: int, j: int, k: int)
    requires
        0 <= i < ps.len(),
        0 <= j < ps.len(),
        i != j,
        0 <= k <= ps[i].len(),
    ensures
        pile_sum(ps.update(j, ps[j] + ps[i].skip(k)).update(i, ps[i].take(k))) =~= pile_sum(ps),
{
    let a = ps[j] + ps[i].skip(k);
    let b = ps[i].take(k);
    let ps1 = ps.update(j, a);
    let ps2 = ps1.update(i, b);
    lemma_pile_sum_update(ps, j, a);
    lemma_pile_sum_update(ps1, i, b);
    vstd::seq_lib::lemma_multiset_commutative(ps[j], ps[i].skip(k));
    vstd::seq_lib::lemma_multiset_commutative(b, ps[i].skip(k));
    assert(b + ps[i].skip(k) =~= ps[i]);
    assert forall|c: Card| #![auto] pile_sum(ps2).count(c) == pile_sum(ps).count(c) by {
        assert(pile_sum(ps2).add(ps1[i].to_multiset()).count(c) == pile_sum(ps1).add(
            b.to_multiset(),
        ).count(c));
        assert(pile_sum(ps1).add(ps[j].to_multiset()).count(c) == pile_sum(ps).add(
            a.to_multiset(),
        ).count(c));
    }
}

proof fn lemma_cards_of_flip(p: Seq<TableauCard>)
    ensures
        cards_of(flip_top(p)) =~= cards_of(p),
{
}

proof fn lemma_cards_of_split(p: Seq<TableauCard>, q: Seq<TableauCard>, k: int)
    requires
        0 <= k <= p.len(),
    ensures
        cards_of(q + p.skip(k)) =~= cards_of(q) + cards_of(p).skip(k),
        cards_of(p.take(k)) =~= cards_of(p).take(k),
{
}

/// Moving a card to a foundation neither creates nor destroys a card.
pub proof fn lemma_foundation_move_keeps_cards(v: GameView, target: int)
    requires
        v.foundations.len() == FOUNDATION_COUNT,
        v.tableau.len() == TABLEAU_COUNT,
        after_foundation_move(v, target) is Some,
    ensures
        all_cards(after_foundation_move(v, target)->0) =~= all_cards(v),
{
    let next = after_foundation_move(v, target)->0;
    let card = foundation_source(v)->0;
    lemma_pile_sum_push(v.foundations, target, card);
    match v.selected {
        Some(Selection::Tableau { pile, index }) => {
            let col = v.tableau[pile as int];
            lemma_cards_of_drop_last_flip(col);
            lemma_column_cards_update(v.tableau, pile as int, flip_top(col.drop_last()));
            lemma_pile_sum_pop(column_cards(v.tableau), pile as int);
            assert(cards_of(col).last() == card);
        },
        _ => {
            lemma_ms_drop_last(v.waste);
        },
    }
}

/// Moving cards onto a tableau column neither creates nor destroys a card.
pub proof fn lemma_tableau_move_keeps_cards(v: GameView, target: int)
    requires
        v.foundations.len() == FOUNDATION_COUNT,
        v.tableau.len() == TABLEAU_COUNT,
        after_tableau_move(v, target) is Some,
    ensures
        all_cards(after_tableau_move(v, target)->0) =~= all_cards(v),
{
    let next = after_tableau_move(v, target)->0;
    let cc = column_cards(v.tableau);
    match v.selected {
        Some(Selection::Waste) => {
            let card = v.waste.last();
            lemma_cards_of_push(v.tableau[target], face_up_card(card));
            lemma_column_cards_update(v.tableau, target, v.tableau[target].push(face_up_card(card)));
            lemma_pile_sum_push(cc, target, card);
            lemma_ms_drop_last(v.waste);
        },
        Some(Selection::Foundation { pile }) => {
            let card = v.foundations[pile as int].last();
            lemma_cards_of_push(v.tableau[target], face_up_card(card));
            lemma_column_cards_update(v.tableau, target, v.tableau[target].push(face_up_card(card)));
            lemma_pile_sum_push(cc, target, card);
            lemma_pile_sum_pop(v.foundations, pile as int);
        },
        Some(Selection::Tableau { pile, index }) => {
            let from = v.tableau[pile as int];
            let k = index as int;
            let t1 = v.tableau.update(target, v.tableau[target] + from.skip(k));
            lemma_cards_of_split(from, v.tableau[target], k);
            lemma_cards_of_flip(from.take(k));
            lemma_column_cards_update(v.tableau, target, v.tableau[target] + from.skip(k));
            lemma_column_cards_update(t1, pile as int, flip_top(from.take(k)));
            lemma_pile_sum_shift(cc, pile as int, target, k);
            assert(column_cards(next.tableau) =~= cc.update(target, cc[target] + cc[pile as int].skip(
                k,
            )).update(pile as int, cc[pile as int].take(k)));
        },
        None => {},
    }
}

/// A stock turn neither creates nor destroys a card, except where a draw
/// count of zero turns a non-empty waste over a non-empty stock, which
/// replaces the stock.
pub proof fn lemma_draw_keeps_cards(v: GameView)
    requires
        !(v.draw_count == 0 && v.stock.len() > 0 && v.waste.len() > 0),
    ensures
        all_cards(after_draw(v)) =~= all_cards(v),
{
    let n = v.stock.len() as int;
    let k = draw_amount(v) as int;
    if k > 0 {
        v.stock.skip(n - k).lemma_reverse_to_multiset();
        vstd::seq_lib::lemma_multiset_commutative(v.waste, v.stock.skip(n - k).reverse());
        vstd::seq_lib::lemma_multiset_commutative(v.stock.take(n - k), v.stock.skip(n - k));
        assert(v.stock.take(n - k) + v.stock.skip(n - k) =~= v.stock);
    } else if v.waste.len() > 0 {
        v.waste.lemma_reverse_to_multiset();
        assert(v.stock.to_multiset() =~= Multiset::empty());
        assert(Seq::<Card>::empty().to_multiset() =~= Multiset::empty());
    }
}

/// Zeus' Vision turns cards over but neither creates nor destroys one.
pub proof fn lemma_zeus_vision_keeps_cards(v: GameView)
    ensures
        all_cards(after_zeus_vision(v)) =~= all_cards(v),
{
    assert(column_cards(after_zeus_vision(v).tableau) =~= column_cards(v.tableau)) by {
        assert forall|i: int| 0 <= i < v.tableau.len() implies #[trigger] cards_of(
            reveal_column(v.tableau[i]),
        ) =~= cards_of(v.tableau[i]) by {}
    }
}

/// A foundation pile built from Ace up in one suit.
pub open spec fn ordered_pile(p: Seq<Card>) -> bool {
    forall|j: int| #![trigger p[j]] 0 <= j < p.len() ==> (p[j].rank == j + 1 && p[j].suit == p[0].suit)
}

pub open spec fn foundations_ordered(f: Seq<Seq<Card>>) -> bool {
    forall|i: int| 0 <= i < f.len() ==> ordered_pile(#[trigger] f[i])
}

/// Every non-empty tableau column shows its top card.
pub open spec fn tops_face_up(t: Seq<Seq<TableauCard>>) -> bool {
    forall|i: int| 0 <= i < t.len() && #[trigger] t[i].len() > 0 ==> t[i].last().face_up
}

proof fn lemma_ordered_push(p: Seq<Card>, c: Card)
    requires
        ordered_pile(p),
        fits_foundation(c, p),
    ensures
        ordered_pile(p.push(c)),
{
    let q = p.push(c);
    if p.len() > 0 {
        assert(p[p.len() - 1].rank == p.len());
        assert(q[0] == p[0]);
    }
    assert forall|j: int| #![trigger q[j]] 0 <= j < q.len() implies (q[j].rank == j + 1 && q[j].suit
        == q[0].suit) by {
        if j < p.len() {
            assert(q[j] == p[j]);
        } else {
            assert(q[j] == c);
            if p.len() > 0 {
                assert(p.last() == p[p.len() - 1]);
                assert(p[p.len() - 1].suit == p[0].suit);
            }
        }
    }
}

/// Foundations stay built from Ace up in one suit: a move to a foundation
/// adds the next rank of the pile's suit, a move from it takes its top.
pub proof fn lemma_foundations_stay_ordered(v: GameView, target: int)
    requires
        foundations_ordered(v.foundations),
        v.foundations.len() == FOUNDATION_COUNT,
    ensures
        after_foundation_move(v, target) is Some ==> foundations_ordered(
            after_foundation_move(v, target)->0.foundations,
        ),
        after_tableau_move(v, target) is Some ==> foundations_ordered(
            after_tableau_move(v, target)->0.foundations,
        ),
        foundations_ordered(after_draw(v).foundations),
        foundations_ordered(after_zeus_vision(v).foundations),
{
    if after_foundation_move(v, target) is Some {
        let card = foundation_source(v)->0;
        lemma_ordered_push(v.foundations[target], card);
        let f = after_foundation_move(v, target)->0.foundations;
        assert forall|i: int| 0 <= i < f.len() implies ordered_pile(#[trigger] f[i]) by {
            if i != target {
                assert(f[i] == v.foundations[i]);
            }
        }
    }
    if after_tableau_move(v, target) is Some {
        if let Some(Selection::Foundation { pile }) = v.selected {
            let f = after_tableau_move(v, target)->0.foundations;
            assert forall|i: int| 0 <= i < f.len() implies ordered_pile(#[trigger] f[i]) by {
                if i == pile {
                    assert(ordered_pile(v.foundations[i]));
                    assert forall|j: int| #![trigger f[i][j]] 0 <= j < f[i].len() implies (f[i][j].rank == j
                        + 1 && f[i][j].suit == f[i][0].suit) by {
                        assert(f[i][j] == v.foundations[i][j]);
                        assert(f[i][0] == v.foundations[i][0]);
                    }
                } else {
                    assert(f[i] == v.foundations[i]);
                }
            }
        }
    }
}

proof fn lemma_run_top_face_up(cards: Seq<TableauCard>, index: int)
    requires
        movable_run(cards, index),
    ensures
        cards.last().face_up,
{
    if index < cards.len() - 1 {
        assert(links(cards, cards.len() - 2));
    }
}

/// No move leaves a face-down card on top of a column that showed its top.
pub proof fn lemma_tops_stay_face_up(v: GameView, target: int)
    requires
        tops_face_up(v.tableau),
        v.tableau.len() == TABLEAU_COUNT,
    ensures
        after_foundation_move(v, target) is Some ==> tops_face_up(
            after_foundation_move(v, target)->0.tableau,
        ),
        after_tableau_move(v, target) is Some ==> tops_face_up(
            after_tableau_move(v, target)->0.tableau,
        ),
        tops_face_up(after_draw(v).tableau),
        tops_face_up(after_zeus_vision(v).tableau),
{
    if after_tableau_move(v, target) is Some {
        if let Some(Selection::Tableau { pile, index }) = v.selected {
            lemma_run_top_face_up(v.tableau[pile as int], index as int);
            let from = v.tableau[pile as int];
            let t = after_tableau_move(v, target)->0.tableau;
            assert((v.tableau[target] + from.skip(index as int)).last() == from.last());
            assert forall|i: int| 0 <= i < t.len() && #[trigger] t[i].len() > 0 implies t[i].last().face_up by {
                if i != target && i != pile {
                    assert(t[i] == v.tableau[i]);
                }
            }
        }
    }
    let z = after_zeus_vision(v).tableau;
    assert forall|i: int| 0 <= i < z.len() && #[trigger] z[i].len() > 0 implies z[i].last().face_up by {
        assert(z[i] == reveal_column(v.tableau[i]));
        assert(z[i].last() == zeus_revealed_card(v.tableau[i].last()));
    }
}

/// The card a selection puts at the head of what it moves: the waste top,
/// a foundation's top, or the card at the start of a column run.
pub open spec fn head_card(v: GameView, s: Selection) -> Card {
    match s {
        Selection::Waste => v.waste[v.waste.len() - 1],
        Selection::Foundation { pile } => v.foundations[pile as int][v.foundations[pile as int].len()
            - 1],
        Selection::Tableau { pile, index } => v.tableau[pile as int][index as int].card,
    }
}

/// Hearts and diamonds are red.
pub open spec fn red_suit(s: Suit) -> bool {
    s == Suit::Hearts || s == Suit::Diamonds
}

/// A move onto a column lays the moved cards on top of it, headed by the
/// selected card: a King onto an empty column, or otherwise a card one rank
/// below the column's face-up top and of the other colour. So the face-up
/// cards of a column keep alternating colours and descending ranks.
pub proof fn lemma_tableau_move_alternates(v: GameView, t: int)
    requires
        v.tableau.len() == TABLEAU_COUNT,
        after_tableau_move(v, t) is Some,
    ensures
        ({
            let head = head_card(v, v.selected->0);
            let col = v.tableau[t];
            let next = after_tableau_move(v, t)->0.tableau[t];
            &&& 0 <= t < TABLEAU_COUNT
            &&& col.len() == 0 ==> head.rank == 13
            &&& col.len() > 0 ==> {
                &&& col[col.len() - 1].face_up
                &&& red_suit(head.suit) != red_suit(col[col.len() - 1].card.suit)
                &&& head.rank + 1 == col[col.len() - 1].card.rank
            }
            &&& next.len() > col.len()
            &&& next[col.len() as int].card == head
            &&& next[col.len() as int].face_up
            &&& next.take(col.len() as int) == col
        }),
{
    let col = v.tableau[t];
    let next = after_tableau_move(v, t)->0.tableau[t];
    match v.selected {
        Some(Selection::Tableau { pile, index }) => {
            let from = v.tableau[pile as int];
            assert(next == col + from.skip(index as int));
            assert(next.take(col.len() as int) =~= col);
        },
        _ => {
            assert(next.take(col.len() as int) =~= col);
        },
    }
}

/// A column whose face-down cards all lie beneath its face-up ones: above
/// a face-up card every card is face up.
pub open spec fn column_shaped(p: Seq<TableauCard>) -> bool {
    forall|i: int, j: int| #![trigger p[i], p[j]] 0 <= i < j < p.len() && p[i].face_up ==> p[j].face_up
}

pub open spec fn columns_shaped(t: Seq<Seq<TableauCard>>) -> bool {
    forall|i: int| 0 <= i < t.len() ==> column_shaped(#[trigger] t[i])
}

proof fn lemma_shaped_prefix(p: Seq<TableauCard>, k: int)
    requires
        column_shaped(p),
        0 <= k <= p.len(),
    ensures
        column_shaped(p.take(k)),
{
    let q = p.take(k);
    assert forall|i: int, j: int| #![trigger q[i], q[j]] 0 <= i < j < q.len() && q[i].face_up implies q[j].face_up by {
        assert(q[i] == p[i] && q[j] == p[j]);
    }
}

proof fn lemma_shaped_flip_top(p: Seq<TableauCard>)
    requires
        column_shaped(p),
    ensures
        column_shaped(flip_top(p)),
{
    let q = flip_top(p);
    assert forall|i: int, j: int| #![trigger q[i], q[j]] 0 <= i < j < q.len() && q[i].face_up implies q[j].face_up by {
        if j < p.len() - 1 {
            assert(q[i] == p[i] && q[j] == p[j]);
        }
    }
}

/// Cards laid face up onto a shaped column leave it shaped.
proof fn lemma_shaped_append(p: Seq<TableauCard>, b: Seq<TableauCard>)
    requires
        column_shaped(p),
        forall|k: int| 0 <= k < b.len() ==> (#[trigger] b[k]).face_up,
    ensures
        column_shaped(p + b),
{
    let q = p + b;
    assert forall|i: int, j: int| #![trigger q[i], q[j]] 0 <= i < j < q.len() && q[i].face_up implies q[j].face_up by {
        if j < p.len() {
            assert(q[i] == p[i] && q[j] == p[j]);
        } else {
            assert(q[j] == b[j - p.len()]);
        }
    }
}

proof fn lemma_run_face_up(cards: Seq<TableauCard>, index: int)
    requires
        movable_run(cards, index),
    ensures
        forall|k: int| 0 <= k < cards.skip(index).len() ==> (#[trigger] cards.skip(index)[k]).face_up,
{
    assert forall|k: int| 0 <= k < cards.skip(index).len() implies (#[trigger] cards.skip(index)[k]).face_up by {
        if k > 0 {
            assert(links(cards, index + k - 1));
        }
    }
}

/// Every column stays face-down cards under face-up ones: a move to a
/// foundation or a column takes cards off a column's top and turns the new
/// top face up, lays face-up cards on top, and Zeus' Vision turns every card
/// face up.
pub proof fn lemma_columns_stay_shaped(v: GameView, target: int)
    requires
        columns_shaped(v.tableau),
        v.tableau.len() == TABLEAU_COUNT,
    ensures
        after_foundation_move(v, target) is Some ==> columns_shaped(
            after_foundation_move(v, target)->0.tableau,
        ),
        after_tableau_move(v, target) is Some ==> columns_shaped(
            after_tableau_move(v, target)->0.tableau,
        ),
        columns_shaped(after_draw(v).tableau),
        columns_shaped(after_zeus_vision(v).tableau),
{
    if after_foundation_move(v, target) is Some {
        if let Some(Selection::Tableau { pile, index }) = v.selected {
            let from = v.tableau[pile as int];
            lemma_shaped_prefix(from, from.len() - 1);
            assert(from.drop_last() == from.take(from.len() - 1));
            lemma_shaped_flip_top(from.drop_last());
            let t = after_foundation_move(v, target)->0.tableau;
            assert forall|i: int| 0 <= i < t.len() implies column_shaped(#[trigger] t[i]) by {
                if i != pile {
                    assert(t[i] == v.tableau[i]);
                }
            }
        }
    }
    if after_tableau_move(v, target) is Some {
        let t = after_tableau_move(v, target)->0.tableau;
        match v.selected {
            Some(Selection::Tableau { pile, index }) => {
                let from = v.tableau[pile as int];
                lemma_run_face_up(from, index as int);
                lemma_shaped_append(v.tableau[target], from.skip(index as int));
                lemma_shaped_prefix(from, index as int);
                lemma_shaped_flip_top(from.take(index as int));
                assert forall|i: int| 0 <= i < t.len() implies column_shaped(#[trigger] t[i]) by {
                    if i != target && i != pile {
                        assert(t[i] == v.tableau[i]);
                    }
                }
            },
            Some(Selection::Waste) => {
                lemma_shaped_append(v.tableau[target], seq![face_up_card(v.waste.last())]);
                assert(v.tableau[target].push(face_up_card(v.waste.last())) == v.tableau[target]
                    + seq![face_up_card(v.waste.last())]);
                assert forall|i: int| 0 <= i < t.len() implies column_shaped(#[trigger] t[i]) by {
                    if i != target {
                        assert(t[i] == v.tableau[i]);
                    }
                }
            },
            Some(Selection::Foundation { pile }) => {
                let card = face_up_card(v.foundations[pile as int].last());
                lemma_shaped_append(v.tableau[target], seq![card]);
                assert(v.tableau[target].push(card) == v.tableau[target] + seq![card]);
                assert forall|i: int| 0 <= i < t.len() implies column_shaped(#[trigger] t[i]) by {
                    if i != target {
                        assert(t[i] == v.tableau[i]);
                    }
                }
            },
            None => {},
        }
    }
    let z = after_zeus_vision(v).tableau;
    assert forall|i: int| 0 <= i < z.len() implies column_shaped(#[trigger] z[i]) by {
        assert(z[i] == reveal_column(v.tableau[i]));
        let q = z[i];
        assert forall|a: int, b: int| #![trigger q[a], q[b]] 0 <= a < b < q.len() && q[a].face_up implies q[b].face_up by {
            assert(q[b] == zeus_revealed_card(v.tableau[i][b]));
        }
    }
}

/// A deal lays every column out face-down cards under one face-up card.
pub proof fn lemma_deal_columns_shaped(deck: Seq<Card>, draw_count: int)
    requires
        deck.len() >= 28,
    ensures
        columns_shaped(dealt_view(deck, draw_count).tableau),
{
    let t = dealt_view(deck, draw_count).tableau;
    assert forall|p: int| 0 <= p < t.len() implies column_shaped(#[trigger] t[p]) by {
        assert(t[p] == dealt_column(deck, p));
        let q = t[p];
        assert forall|i: int, j: int| #![trigger q[i], q[j]] 0 <= i < j < q.len() && q[i].face_up implies q[j].face_up by {
            assert(q[i].face_up == (i == p));
        }
    }
}

/// Above each face-up card of a column lies a card of the other colour and
/// one rank lower.
pub open spec fn column_alternates(p: Seq<TableauCard>) -> bool {
    forall|j: int| 0 <= j < p.len() - 1 && p[j].face_up ==> #[trigger] alternates_at(p, j)
}

/// The card above position `j` is of the other colour and one rank lower.
pub open spec fn alternates_at(p: Seq<TableauCard>, j: int) -> bool {
    &&& red_suit(p[j].card.suit) != red_suit(p[j + 1].card.suit)
    &&& p[j].card.rank == p[j + 1].card.rank + 1
}

pub open spec fn columns_alternate(t: Seq<Seq<TableauCard>>) -> bool {
    forall|i: int| 0 <= i < t.len() ==> column_alternates(#[trigger] t[i])
}

proof fn lemma_alternates_prefix(p: Seq<TableauCard>, k: int)
    requires
        column_alternates(p),
        0 <= k <= p.len(),
    ensures
        column_alternates(p.take(k)),
{
    let q = p.take(k);
    assert forall|j: int| 0 <= j < q.len() - 1 && q[j].face_up implies #[trigger] alternates_at(q, j) by {
        assert(q[j] == p[j] && q[j + 1] == p[j + 1]);
        assert(alternates_at(p, j));
    }
}

/// Turning up the top of a shaped column keeps it alternating: the card
/// beneath a face-down top is face down.
proof fn lemma_alternates_flip_top(p: Seq<TableauCard>)
    requires
        column_alternates(p),
        column_shaped(p),
    ensures
        column_alternates(flip_top(p)),
{
    let q = flip_top(p);
    assert forall|j: int| 0 <= j < q.len() - 1 && q[j].face_up implies #[trigger] alternates_at(q, j) by {
        assert(q[j] == p[j]);
        if j + 1 == p.len() - 1 && !p[p.len() - 1].face_up {
            assert(p[j].face_up ==> p[j + 1].face_up);
        } else {
            assert(q[j + 1] == p[j + 1]);
        }
    }
}

/// Laying cards `b` on column `p`: the result alternates if both do and the
/// first of `b` goes with the top of `p`.
proof fn lemma_alternates_append(p: Seq<TableauCard>, b: Seq<TableauCard>)
    requires
        column_alternates(p),
        column_alternates(b),
        b.len() > 0,
        p.len() > 0 && p[p.len() - 1].face_up ==> red_suit(p[p.len() - 1].card.suit) != red_suit(
            b[0].card.suit,
        ) && p[p.len() - 1].card.rank == b[0].card.rank + 1,
    ensures
        column_alternates(p + b),
{
    let q = p + b;
    assert forall|j: int| 0 <= j < q.len() - 1 && q[j].face_up implies #[trigger] alternates_at(q, j) by {
        if j < p.len() - 1 {
            assert(q[j] == p[j] && q[j + 1] == p[j + 1]);
            assert(alternates_at(p, j));
        } else if j == p.len() - 1 {
            assert(q[j] == p[j] && q[j + 1] == b[0]);
        } else {
            assert(q[j] == b[j - p.len()] && q[j + 1] == b[j - p.len() + 1]);
            assert(alternates_at(b, j - p.len()));
        }
    }
}

proof fn lemma_run_alternates(cards: Seq<TableauCard>, index: int)
    requires
        movable_run(cards, index),
    ensures
        column_alternates(cards.skip(index)),
{
    let b = cards.skip(index);
    assert forall|j: int| 0 <= j < b.len() - 1 && b[j].face_up implies #[trigger] alternates_at(b, j) by {
        assert(links(cards, index + j));
        assert(b[j] == cards[index + j] && b[j + 1] == cards[index + j + 1]);
    }
}

/// The face-up cards of every column keep alternating in colour and
/// descending in rank: no move to a foundation or a column, and no stock
/// turn, breaks it in a game whose columns are face-down cards under
/// face-up ones.
pub proof fn lemma_columns_keep_alternating(v: GameView, target: int)
    requires
        v.tableau.len() == TABLEAU_COUNT,
        columns_shaped(v.tableau),
        columns_alternate(v.tableau),
    ensures
        after_foundation_move(v, target) is Some ==> columns_alternate(
            after_foundation_move(v, target)->0.tableau,
        ),
        after_tableau_move(v, target) is Some ==> columns_alternate(
            after_tableau_move(v, target)->0.tableau,
        ),
        columns_alternate(after_draw(v).tableau),
{
    if after_foundation_move(v, target) is Some {
        if let Some(Selection::Tableau { pile, index }) = v.selected {
            let from = v.tableau[pile as int];
            assert(column_shaped(from) && column_alternates(from));
            lemma_alternates_prefix(from, from.len() - 1);
            lemma_shaped_prefix(from, from.len() - 1);
            assert(from.drop_last() == from.take(from.len() - 1));
            lemma_alternates_flip_top(from.drop_last());
            let t = after_foundation_move(v, target)->0.tableau;
            assert forall|i: int| 0 <= i < t.len() implies column_alternates(#[trigger] t[i]) by {
                if i != pile {
                    assert(t[i] == v.tableau[i]);
                }
            }
        }
    }
    if after_tableau_move(v, target) is Some {
        lemma_tableau_move_alternates(v, target);
        let t = after_tableau_move(v, target)->0.tableau;
        let col = v.tableau[target];
        assert(column_alternates(col));
        match v.selected {
            Some(Selection::Tableau { pile, index }) => {
                let from = v.tableau[pile as int];
                assert(column_shaped(from) && column_alternates(from));
                lemma_run_alternates(from, index as int);
                assert(from.skip(index as int)[0] == from[index as int]);
                lemma_alternates_append(col, from.skip(index as int));
                lemma_alternates_prefix(from, index as int);
                lemma_shaped_prefix(from, index as int);
                lemma_alternates_flip_top(from.take(index as int));
                assert forall|i: int| 0 <= i < t.len() implies column_alternates(#[trigger] t[i]) by {
                    if i != target && i != pile {
                        assert(t[i] == v.tableau[i]);
                    }
                }
            },
            Some(Selection::Waste) => {
                let b = seq![face_up_card(v.waste.last())];
                assert(column_alternates(b));
                lemma_alternates_append(col, b);
                assert(col.push(face_up_card(v.waste.last())) == col + b);
                assert forall|i: int| 0 <= i < t.len() implies column_alternates(#[trigger] t[i]) by {
                    if i != target {
                        assert(t[i] == v.tableau[i]);
                    }
                }
            },
            Some(Selection::Foundation { pile }) => {
                let b = seq![face_up_card(v.foundations[pile as int].last())];
                assert(column_alternates(b));
                lemma_alternates_append(col, b);
                assert(col.push(face_up_card(v.foundations[pile as int].last())) == col + b);
                assert forall|i: int| 0 <= i < t.len() implies column_alternates(#[trigger] t[i]) by {
                    if i != target {
                        assert(t[i] == v.tableau[i]);
                    }
                }
            },
            None => {},
        }
    }
}

/// A deal starts every column alternating: only its top card is face up.
pub proof fn lemma_deal_columns_alternate(deck: Seq<Card>, draw_count: int)
    requires
        deck.len() >= 28,
    ensures
        columns_alternate(dealt_view(deck, draw_count).tableau),
{
    let t = dealt_view(deck, draw_count).tableau;
    assert forall|p: int| 0 <= p < t.len() implies column_alternates(#[trigger] t[p]) by {
        assert(t[p] == dealt_column(deck, p));
        let q = t[p];
        assert forall|j: int| 0 <= j < q.len() - 1 && q[j].face_up implies #[trigger] alternates_at(q, j) by {
            assert(q[j].face_up == (j == p));
        }
    }
}

/// Temple gold: a card reaching a foundation earns one; a waste or
/// foundation card placed on a column earns one; moving a run between
/// columns earns none; turning the waste over costs one, never going below
/// zero; drawing and Zeus' Vision leave it alone.
pub proof fn lemma_gold_accounting(v: GameView, target: int)
    ensures
        after_foundation_move(v, target) is Some ==> after_foundation_move(v, target)->0.temple_gold
            == v.temple_gold + 1,
        after_tableau_move(v, target) is Some ==> after_tableau_move(v, target)->0.temple_gold
            == v.temple_gold + if v.selected matches Some(Selection::Tableau { .. }) {
            0int
        } else {
            1int
        },
        after_draw(v).temple_gold == if draw_amount(v) == 0 && v.waste.len() > 0
            && v.temple_gold > 0 {
            v.temple_gold - 1
        } else {
            v.temple_gold as int
        },
        after_zeus_vision(v).temple_gold == v.temple_gold,
{
}

/// Every successful move, draw or turn-over counts exactly one move.
pub proof fn lemma_moves_count_one(v: GameView, target: int)
    ensures
        after_foundation_move(v, target) is Some ==> after_foundation_move(v, target)->0.moves
            == v.moves + 1,
        after_tableau_move(v, target) is Some ==> after_tableau_move(v, target)->0.moves
            == v.moves + 1,
        after_draw(v).moves == if draw_amount(v) > 0 || v.waste.len() > 0 {
            v.moves + 1
        } else {
            v.moves
        },
{
}

/// Stock turns keep the cycle of stock and waste in order: reading the
/// waste from the bottom and then the stock from its top gives the same
/// sequence before and after a turn, whether it draws or turns the waste
/// over. So a turned-over waste is drawn again in the order it was drawn.
pub proof fn lemma_draw_keeps_order(v: GameView)
    requires
        v.draw_count > 0,
    ensures
        after_draw(v).waste + after_draw(v).stock.reverse() =~= v.waste + v.stock.reverse(),
{
    let n = v.stock.len() as int;
    let k = draw_amount(v) as int;
    if k > 0 {
        assert(v.stock.take(n - k) + v.stock.skip(n - k) =~= v.stock);
        assert(v.stock.reverse() =~= v.stock.skip(n - k).reverse() + v.stock.take(n - k).reverse());
    } else {
        assert(v.waste.reverse().reverse() =~= v.waste);
    }
}

/// The game after `n` stock turns.
pub open spec fn draws(v: GameView, n: nat) -> GameView
    decreases n,
{
    if n == 0 {
        v
    } else {
        after_draw(draws(v, (n - 1) as nat))
    }
}

/// How many cards `n` stock turns take from a stock of `len` cards.
pub open spec fn drawn_after(len: int, draw_count: int, n: int) -> int {
    if n * draw_count <= len {
        n * draw_count
    } else {
        len
    }
}

/// While each turn still finds the stock non-empty, `n` turns have moved
/// the top cards of the stock onto the waste, one by one.
#[verifier::spinoff_prover]
proof fn lemma_draws_take_the_top(v: GameView, n: nat)
    requires
        v.waste.len() == 0,
        v.draw_count > 0,
        (n - 1) * v.draw_count < v.stock.len(),
    ensures
        ({
            let d = drawn_after(v.stock.len() as int, v.draw_count as int, n as int);
            let w = draws(v, n);
            &&& w.stock == v.stock.take(v.stock.len() - d)
            &&& w.waste == v.stock.skip(v.stock.len() - d).reverse()
            &&& w.moves == v.moves + n
            &&& w.temple_gold == v.temple_gold
            &&& w.draw_count == v.draw_count
        }),
    decreases n,
{
    let len = v.stock.len() as int;
    let dc = v.draw_count as int;
    if n == 0 {
        assert(v.stock.take(len) =~= v.stock);
        assert(v.stock.skip(len).reverse() =~= v.waste);
    } else {
        let m = (n - 1) as nat;
        assert((m - 1) * dc < m * dc && m * dc == n * dc - dc) by (nonlinear_arith)
            requires
                dc > 0,
                m == n - 1,
        ;
        lemma_draws_take_the_top(v, m);
        let w = draws(v, m);
        let before = m * dc;
        assert(drawn_after(len, dc, m as int) == before);
        let rest = len - before;
        assert(w.stock.len() == rest && rest > 0);
        let k = draw_amount(w) as int;
        assert(k == if dc <= rest { dc } else { rest });
        assert(drawn_after(len, dc, n as int) == before + k);
        let x = rest - k;
        assert(draws(v, n) == after_draw(w));
        assert(v.stock.take(rest).take(x) =~= v.stock.take(x));
        assert(v.stock.skip(rest).reverse() + v.stock.take(rest).skip(x).reverse() =~= v.stock.skip(
            x,
        ).reverse());
    }
}

/// A full pass through the stock followed by a turn-over of the waste gives
/// the stock back in its order: starting with an empty waste, `m` turns,
/// as many as it takes to draw every card, and one turn more restore the
/// stock, leave the waste empty, cost one gold (never below zero) and count
/// `m + 1` moves.
pub proof fn lemma_full_pass_restores_stock(v: GameView, m: nat)
    requires
        v.waste.len() == 0,
        v.stock.len() > 0,
        v.draw_count > 0,
        (m - 1) * v.draw_count < v.stock.len() <= m * v.draw_count,
    ensures
        draws(v, m + 1).stock == v.stock,
        draws(v, m + 1).waste.len() == 0,
        draws(v, m + 1).temple_gold == if v.temple_gold > 0 {
            (v.temple_gold - 1) as nat
        } else {
            0
        },
        draws(v, m + 1).moves == v.moves + m + 1,
{
    lemma_draws_take_the_top(v, m);
    let len = v.stock.len() as int;
    assert(drawn_after(len, v.draw_count as int, m as int) == len);
    let w = draws(v, m);
    assert(w.stock.len() == 0);
    assert(w.waste == v.stock.reverse()) by {
        assert(v.stock.skip(0) =~= v.stock);
    }
    assert(draws(v, m + 1) == after_draw(w));
    assert(v.stock.reverse().reverse() =~= v.stock);
}

/// Selecting the same thing twice clears the selection, unless it was
/// already selected, in which case it is selected again.
pub proof fn lemma_select_twice(current: Option<Selection>, s: Selection)
    ensures
        toggled(toggled(current, s), s) == if current == Some(s) {
            Some(s)
        } else {
            None
        },
{
}

proof fn lemma_reveal_hides_nothing(p: Seq<TableauCard>)
    ensures
        hidden_in(reveal_column(p)) == 0,
        reveal_column(reveal_column(p)) =~= reveal_column(p),
    decreases p.len(),
{
    if p.len() > 0 {
        lemma_reveal_hides_nothing(p.drop_last());
        assert(reveal_column(p).drop_last() =~= reveal_column(p.drop_last()));
    }
}

proof fn lemma_reveal_all_hides_nothing(t: Seq<Seq<TableauCard>>)
    ensures
        hidden_total(t.map_values(|p: Seq<TableauCard>| reveal_column(p))) == 0,
    decreases t.len(),
{
    if t.len() > 0 {
        lemma_reveal_all_hides_nothing(t.drop_last());
        lemma_reveal_hides_nothing(t.last());
        assert(t.map_values(|p: Seq<TableauCard>| reveal_column(p)).drop_last() =~= t.drop_last().map_values(
            |p: Seq<TableauCard>| reveal_column(p),
        ));
    }
}

/// After Zeus' Vision no tableau card is face down, so a second vision
/// reveals nothing and changes nothing.
pub proof fn lemma_zeus_vision_reveals_all(v: GameView)
    ensures
        hidden_total(after_zeus_vision(v).tableau) == 0,
        after_zeus_vision(after_zeus_vision(v)) =~= after_zeus_vision(v),
{
    lemma_reveal_all_hides_nothing(v.tableau);
    let t = after_zeus_vision(v).tableau;
    assert(t.map_values(|p: Seq<TableauCard>| reveal_column(p)) =~= t) by {
        assert forall|i: int| 0 <= i < t.len() implies #[trigger] reveal_column(t[i]) == t[i] by {
            lemma_reveal_hides_nothing(v.tableau[i]);
        }
    }
}

/// A won game has every foundation built from Ace to King in one suit.
pub proof fn lemma_won_means_complete_suits(v: GameView, target: int)
    requires
        foundations_ordered(v.foundations),
        v.foundations.len() == FOUNDATION_COUNT,
        after_foundation_move(v, target) is Some,
        after_foundation_move(v, target)->0.won,
    ensures
        forall|i: int|
            0 <= i < FOUNDATION_COUNT ==> #[trigger] after_foundation_move(
                v,
                target,
            )->0.foundations[i].len() == 13 && ordered_pile(
                after_foundation_move(v, target)->0.foundations[i],
            ),
{
    lemma_foundations_stay_ordered(v, target);
    let f = after_foundation_move(v, target)->0.foundations;
    assert(all_complete(f));
}

proof fn lemma_deal_offset_values()
    ensures
        deal_offset(0) == 0,
        deal_offset(1) == 1,
        deal_offset(2) == 3,
        deal_offset(3) == 6,
        deal_offset(4) == 10,
        deal_offset(5) == 15,
        deal_offset(6) == 21,
        deal_offset(7) == 28,
{
    reveal_with_fuel(deal_offset, 8);
}

/// A deal of the fifty-two cards leaves twenty-four in the stock and
/// column `p` with `p + 1` cards, only its top face up; the waste and the
/// foundations are empty, nothing is selected and nothing is scored.
pub proof fn lemma_deal_layout(deck: Seq<Card>, draw_count: int)
    requires
        deck.len() == 52,
    ensures
        ({
            let v = dealt_view(deck, draw_count);
            &&& v.stock.len() == 24
            &&& v.waste.len() == 0
            &&& forall|i: int| 0 <= i < FOUNDATION_COUNT ==> #[trigger] v.foundations[i].len() == 0
            &&& forall|p: int|
                0 <= p < TABLEAU_COUNT ==> #[trigger] v.tableau[p].len() == p + 1
                    && v.tableau[p].last().face_up
            &&& forall|p: int, r: int|
                0 <= p < TABLEAU_COUNT && 0 <= r < p ==> !(#[trigger] v.tableau[p][r]).face_up
            &&& v.selected is None
            &&& v.moves == 0
            &&& v.temple_gold == 0
            &&& !v.won
        }),
{
    lemma_deal_offset_values();
}

proof fn lemma_dealt_column_cards(d: Seq<Card>, p: int)
    requires
        0 <= p < TABLEAU_COUNT,
        d.len() >= 28,
    ensures
        cards_of(dealt_column(d, p)).to_multiset() =~= d.subrange(
            d.len() - deal_offset(p + 1),
            d.len() - deal_offset(p),
        ).to_multiset(),
{
    lemma_deal_offset_values();
    let n = d.len() as int;
    let seg = d.subrange(n - deal_offset(p + 1), n - deal_offset(p));
    assert(cards_of(dealt_column(d, p)) =~= seg.reverse());
    seg.lemma_reverse_to_multiset();
}

proof fn lemma_dealt_columns_cards(d: Seq<Card>, p: int)
    requires
        0 <= p <= TABLEAU_COUNT,
        d.len() >= 28,
    ensures
        pile_sum(column_cards(Seq::new(7, |q: int| dealt_column(d, q))).take(p)) =~= d.subrange(
            d.len() - deal_offset(p),
            d.len() as int,
        ).to_multiset(),
    decreases p,
{
    lemma_deal_offset_values();
    let n = d.len() as int;
    let cc = column_cards(Seq::new(7, |q: int| dealt_column(d, q)));
    if p == 0 {
        assert(cc.take(0) =~= Seq::<Seq<Card>>::empty());
        assert(d.subrange(n, n) =~= Seq::<Card>::empty());
    } else {
        lemma_dealt_columns_cards(d, p - 1);
        lemma_dealt_column_cards(d, p - 1);
        assert(cc.take(p).drop_last() =~= cc.take(p - 1));
        assert(cc.take(p).last() == cards_of(dealt_column(d, p - 1)));
        let lo = d.subrange(n - deal_offset(p), n - deal_offset(p - 1));
        let hi = d.subrange(n - deal_offset(p - 1), n);
        assert(d.subrange(n - deal_offset(p), n) =~= lo + hi);
        vstd::seq_lib::lemma_multiset_commutative(lo, hi);
    }
}

/// A deal hands out exactly the cards of the deck: none is lost or added.
pub proof fn lemma_deal_keeps_cards(deck: Seq<Card>, draw_count: int)
    requires
        deck.len() >= 28,
    ensures
        all_cards(dealt_view(deck, draw_count)) =~= deck.to_multiset(),
{
    lemma_deal_offset_values();
    let n = deck.len() as int;
    let v = dealt_view(deck, draw_count);
    lemma_dealt_columns_cards(deck, 7);
    let cc = column_cards(v.tableau);
    assert(cc.take(7) =~= cc);
    assert(pile_sum(v.foundations) =~= Multiset::empty()) by {
        reveal_with_fuel(pile_sum, 5);
        assert(v.foundations.drop_last().drop_last().drop_last().drop_last() =~= Seq::<
            Seq<Card>,
        >::empty());
    }
    assert(deck =~= deck.take(n - 28) + deck.subrange(n - 28, n));
    vstd::seq_lib::lemma_multiset_commutative(deck.take(n - 28), deck.subrange(n - 28, n));
    assert(Seq::<Card>::empty().to_multiset() =~= Multiset::empty());
}

/// The fifty-two cards of a fresh deck are pairwise different.
pub proof fn lemma_full_deck_distinct()
    ensures
        full_deck_seq().no_duplicates(),
{
    let d = full_deck_seq();
    assert forall|i: int, j: int| 0 <= i < d.len() && 0 <= j < d.len() && i != j implies d[i]
        != d[j] by {
        if i / 13 == j / 13 {
            assert(i % 13 != j % 13);
            assert((i % 13 + 1) as u8 != (j % 13 + 1) as u8);
        } else {
            assert(suit_at(i / 13) != suit_at(j / 13));
        }
    }
}

/// A game dealt from any arrangement of the fifty-two cards holds each of
/// them exactly once and no other card.
pub proof fn lemma_new_game_holds_each_card_once(deck: Seq<Card>, draw_count: int)
    requires
        deck.to_multiset() =~= full_deck_seq().to_multiset(),
    ensures
        forall|c: Card| #[trigger]
            all_cards(dealt_view(deck, draw_count)).count(c) == if full_deck_seq().contains(c) {
                1nat
            } else {
                0nat
            },
{
    assert(deck.len() == 52) by {
        assert(deck.len() == deck.to_multiset().len());
        assert(full_deck_seq().len() == full_deck_seq().to_multiset().len());
    }
    lemma_deal_keeps_cards(deck, draw_count);
    lemma_full_deck_distinct();
    full_deck_seq().lemma_multiset_has_no_duplicates();
}

} // verus!
