//! Cards, piles and the moves of the game.

use crate::deck::{chacha_shuffle, full_deck, full_deck_seq, shuffle_deck, ClockReading};
use vstd::prelude::*;

verus! {

/// Cards drawn per stock turn on the hard setting.
pub const HARD_DRAW_COUNT: usize = 3;

/// Cards drawn per stock turn on the easy setting.
pub const EASY_DRAW_COUNT: usize = 1;

/// Number of foundation (temple) piles.
pub const FOUNDATION_COUNT: usize = 4;

/// Number of tableau columns.
pub const TABLEAU_COUNT: usize = 7;

#[derive(Clone, Copy, Debug, PartialEq, Eq, Structural)]
pub enum Suit {
    Clubs,
    Diamonds,
    Hearts,
    Spades,
}

/// Diamonds and hearts are red; clubs and spades are black.
pub open spec fn suit_red(s: Suit) -> bool {
    s == Suit::Diamonds || s == Suit::Hearts
}

pub open spec fn suit_symbol(s: Suit) -> Seq<char> {
    match s {
        Suit::Clubs => "♣"@,
        Suit::Diamonds => "♦"@,
        Suit::Hearts => "♥"@,
        Suit::Spades => "♠"@,
    }
}

pub open spec fn suit_latin_name(s: Suit) -> Seq<char> {
    match s {
        Suit::Clubs => "LAUREL"@,
        Suit::Diamonds => "GOLD"@,
        Suit::Hearts => "CUPID"@,
        Suit::Spades => "BACCHUS"@,
    }
}

impl Suit {
    pub fn is_red(self) -> (r: bool)
        ensures
            r == suit_red(self),
    {
        match self {
            Suit::Diamonds | Suit::Hearts => true,
            _ => false,
        }
    }

    pub fn symbol(self) -> (r: &'static str)
        ensures
            r@ == suit_symbol(self),
    {
        match self {
            Suit::Clubs => "♣",
            Suit::Diamonds => "♦",
            Suit::Hearts => "♥",
            Suit::Spades => "♠",
        }
    }

    pub fn latin_name(self) -> (r: &'static str)
        ensures
            r@ == suit_latin_name(self),
    {
        match self {
            Suit::Clubs => "LAUREL",
            Suit::Diamonds => "GOLD",
            Suit::Hearts => "CUPID",
            Suit::Spades => "BACCHUS",
        }
    }
}

#[derive(Clone, Copy, Debug, PartialEq, Eq, Structural)]
pub struct Card {
    pub suit: Suit,
    pub rank: u8,
}

pub open spec fn card_red(c: Card) -> bool {
    suit_red(c.suit)
}

/// The corner label of a rank: A, 2..10, J, Q, K, and `?` for anything else.
pub open spec fn rank_label_of(rank: u8) -> Seq<char> {
    if rank == 1 {
        "A"@
    } else if rank == 2 {
        "2"@
    } else if rank == 3 {
        "3"@
    } else if rank == 4 {
        "4"@
    } else if rank == 5 {
        "5"@
    } else if rank == 6 {
        "6"@
    } else if rank == 7 {
        "7"@
    } else if rank == 8 {
        "8"@
    } else if rank == 9 {
        "9"@
    } else if rank == 10 {
        "10"@
    } else if rank == 11 {
        "J"@
    } else if rank == 12 {
        "Q"@
    } else if rank == 13 {
        "K"@
    } else {
        "?"@
    }
}

/// The word printed under a card's centre art.
pub open spec fn motif_of(c: Card) -> Seq<char> {
    if c.rank == 1 {
        "LAUREL"@
    } else if c.rank == 11 {
        "CUPID"@
    } else if c.rank == 12 {
        "IVY"@
    } else if c.rank == 13 {
        "BACCHUS"@
    } else {
        suit_latin_name(c.suit)
    }
}

impl Card {
    pub fn rank_label(self) -> (r: &'static str)
        ensures
            r@ == rank_label_of(self.rank),
    {
        match self.rank {
            1 => "A",
            2 => "2",
            3 => "3",
            4 => "4",
            5 => "5",
            6 => "6",
            7 => "7",
            8 => "8",
            9 => "9",
            10 => "10",
            11 => "J",
            12 => "Q",
            13 => "K",
            _ => "?",
        }
    }

    pub fn is_red(self) -> (r: bool)
        ensures
            r == card_red(self),
    {
        self.suit.is_red()
    }

    pub fn motif(self) -> (r: &'static str)
        ensures
            r@ == motif_of(self),
    {
        match self.rank {
            1 => "LAUREL",
            11 => "CUPID",
            12 => "IVY",
            13 => "BACCHUS",
            _ => self.suit.latin_name(),
        }
    }
}

#[derive(Clone, Copy, Debug, PartialEq, Eq, Structural)]
pub struct TableauCard {
    pub card: Card,
    pub face_up: bool,
    pub zeus_revealed: bool,
}

#[derive(Clone, Copy, Debug, PartialEq, Eq, Structural)]
pub enum Selection {
    Waste,
    Foundation { pile: usize },
    Tableau { pile: usize, index: usize },
}


#[derive(Clone, Debug, PartialEq, Eq)]
pub struct GameState {
    pub stock: Vec<Card>,
    pub waste: Vec<Card>,
    pub foundations: [Vec<Card>; 4],
    pub tableau: [Vec<TableauCard>; 7],
    pub draw_count: usize,
    pub selected: Option<Selection>,
    pub moves: usize,
    pub temple_gold: usize,
    pub won: bool,
}

/// The mathematical picture of a game: every pile as a sequence, bottom
/// card first, top card last.
#[verifier::ext_equal]
pub struct GameView {
    pub stock: Seq<Card>,
    pub waste: Seq<Card>,
    pub foundations: Seq<Seq<Card>>,
    pub tableau: Seq<Seq<TableauCard>>,
    pub draw_count: nat,
    pub selected: Option<Selection>,
    pub moves: nat,
    pub temple_gold: nat,
    pub won: bool,
}

impl View for GameState {
    type V = GameView;

    open spec fn view(&self) -> GameView {
        GameView {
            stock: self.stock@,
            waste: self.waste@,
            foundations: Seq::new(4, |i: int| self.foundations@[i]@),
            tableau: Seq::new(7, |i: int| self.tableau@[i]@),
            draw_count: self.draw_count as nat,
            selected: self.selected,
            moves: self.moves as nat,
            temple_gold: self.temple_gold as nat,
            won: self.won,
        }
    }
}

/// The draw count a requested one is turned into: one card for a request of
/// at most one, three otherwise.
pub open spec fn sanitized_draw_count(requested: int) -> nat {
    if requested <= EASY_DRAW_COUNT {
        EASY_DRAW_COUNT as nat
    } else {
        HARD_DRAW_COUNT as nat
    }
}

pub open spec fn top_of<T>(p: Seq<T>) -> Option<T> {
    if p.len() == 0 {
        None
    } else {
        Some(p.last())
    }
}

/// A card may go onto a foundation pile: an Ace onto an empty pile, or the
/// next rank of the same suit onto its top.
pub open spec fn fits_foundation(card: Card, pile: Seq<Card>) -> bool {
    if pile.len() == 0 {
        card.rank == 1
    } else {
        pile.last().suit == card.suit && card.rank == pile.last().rank + 1
    }
}

/// A card may head a run placed on a tableau column: a King onto an empty
/// column, or one rank lower and of the other colour onto a face-up top.
pub open spec fn fits_tableau(card: Card, pile: Seq<TableauCard>) -> bool {
    if pile.len() == 0 {
        card.rank == 13
    } else {
        &&& pile.last().face_up
        &&& card_red(pile.last().card) != card_red(card)
        &&& card.rank + 1 == pile.last().card.rank
    }
}

/// `cards[i + 1]` lies correctly on `cards[i]` within a face-up run.
pub open spec fn links(cards: Seq<TableauCard>, i: int) -> bool {
    &&& cards[i + 1].face_up
    &&& card_red(cards[i].card) != card_red(cards[i + 1].card)
    &&& cards[i].card.rank == cards[i + 1].card.rank + 1
}

/// The cards of `cards` from `index` to the top form a face-up run of
/// alternating colours and descending ranks.
pub open spec fn movable_run(cards: Seq<TableauCard>, index: int) -> bool {
    &&& 0 <= index < cards.len()
    &&& cards[index].face_up
    &&& forall|i: int| index <= i < cards.len() - 1 ==> #[trigger] links(cards, i)
}

pub open spec fn face_up_card(card: Card) -> TableauCard {
    TableauCard { card, face_up: true, zeus_revealed: false }
}

/// Turns a face-down top card of a column face up; anything else is kept.
pub open spec fn flip_top(p: Seq<TableauCard>) -> Seq<TableauCard> {
    if p.len() > 0 && !p.last().face_up {
        p.update(p.len() - 1, face_up_card(p.last().card))
    } else {
        p
    }
}

/// Every foundation pile holds thirteen cards.
pub open spec fn all_complete(f: Seq<Seq<Card>>) -> bool {
    forall|i: int| 0 <= i < f.len() ==> #[trigger] f[i].len() == 13
}

/// A selection toggled at `s`: selecting the current selection clears it.
pub open spec fn toggled(current: Option<Selection>, s: Selection) -> Option<Selection> {
    if current == Some(s) {
        None
    } else {
        Some(s)
    }
}

/// Whether a tableau run starting at (`pile`, `index`) may be selected.
pub open spec fn selectable_run(v: GameView, pile: int, index: int) -> bool {
    0 <= pile < TABLEAU_COUNT && movable_run(v.tableau[pile], index)
}

/// The card that the current selection picks up, if any.
pub open spec fn selected_card_of(v: GameView) -> Option<Card> {
    match v.selected {
        Some(Selection::Waste) => top_of(v.waste),
        Some(Selection::Foundation { pile }) => if pile < FOUNDATION_COUNT {
            top_of(v.foundations[pile as int])
        } else {
            None
        },
        Some(Selection::Tableau { pile, index }) => if pile < TABLEAU_COUNT && index
            < v.tableau[pile as int].len() && v.tableau[pile as int][index as int].face_up {
            Some(v.tableau[pile as int][index as int].card)
        } else {
            None
        },
        None => None,
    }
}

/// The state with only its selection replaced.
pub open spec fn with_selection(v: GameView, s: Option<Selection>) -> GameView {
    GameView { selected: s, ..v }
}

/// The state after a move: the selection is cleared, the move counted, the
/// gold added and the win flag recomputed from the foundations.
pub open spec fn finish_move(
    v: GameView,
    waste: Seq<Card>,
    foundations: Seq<Seq<Card>>,
    tableau: Seq<Seq<TableauCard>>,
    gold: nat,
) -> GameView {
    GameView {
        stock: v.stock,
        waste,
        foundations,
        tableau,
        draw_count: v.draw_count,
        selected: None,
        moves: v.moves + 1,
        temple_gold: v.temple_gold + gold,
        won: all_complete(foundations),
    }
}


/// The card that a move to a foundation would carry: the waste top, or a
/// face-up tableau card that is the top of its column. A foundation card
/// never moves to another foundation.
pub open spec fn foundation_source(v: GameView) -> Option<Card> {
    match v.selected {
        Some(Selection::Waste) => top_of(v.waste),
        Some(Selection::Tableau { pile, index }) => if pile < TABLEAU_COUNT && index + 1
            == v.tableau[pile as int].len() && v.tableau[pile as int][index as int].face_up {
            Some(v.tableau[pile as int][index as int].card)
        } else {
            None
        },
        _ => None,
    }
}

/// The state after moving the selected card onto foundation `target`, or
/// `None` where the rules refuse the move.
pub open spec fn after_foundation_move(v: GameView, target: int) -> Option<GameView> {
    match foundation_source(v) {
        Some(card) => if 0 <= target < FOUNDATION_COUNT && fits_foundation(
            card,
            v.foundations[target],
        ) {
            let foundations = v.foundations.update(target, v.foundations[target].push(card));
            match v.selected {
                Some(Selection::Tableau { pile, index }) => Some(
                    finish_move(
                        v,
                        v.waste,
                        foundations,
                        v.tableau.update(
                            pile as int,
                            flip_top(v.tableau[pile as int].drop_last()),
                        ),
                        1,
                    ),
                ),
                _ => Some(finish_move(v, v.waste.drop_last(), foundations, v.tableau, 1)),
            }
        } else {
            None
        },
        None => None,
    }
}

/// The first foundation, counting from `from`, that accepts the selected card.
pub open spec fn first_foundation_from(v: GameView, from: int) -> Option<int>
    decreases FOUNDATION_COUNT - from,
{
    if from >= FOUNDATION_COUNT || from < 0 {
        None
    } else if after_foundation_move(v, from) is Some {
        Some(from)
    } else {
        first_foundation_from(v, from + 1)
    }
}

/// The state after moving the selection onto tableau column `target`, or
/// `None` where the rules refuse the move. A waste or foundation card earns
/// one gold; a run moved between columns earns none.
pub open spec fn after_tableau_move(v: GameView, target: int) -> Option<GameView> {
    if !(0 <= target < TABLEAU_COUNT) {
        None
    } else {
        match v.selected {
            Some(Selection::Waste) => if v.waste.len() > 0 && fits_tableau(
                v.waste.last(),
                v.tableau[target],
            ) {
                Some(
                    finish_move(
                        v,
                        v.waste.drop_last(),
                        v.foundations,
                        v.tableau.update(
                            target,
                            v.tableau[target].push(face_up_card(v.waste.last())),
                        ),
                        1,
                    ),
                )
            } else {
                None
            },
            Some(Selection::Foundation { pile }) => if pile < FOUNDATION_COUNT
                && v.foundations[pile as int].len() > 0 && fits_tableau(
                v.foundations[pile as int].last(),
                v.tableau[target],
            ) {
                Some(
                    finish_move(
                        v,
                        v.waste,
                        v.foundations.update(pile as int, v.foundations[pile as int].drop_last()),
                        v.tableau.update(
                            target,
                            v.tableau[target].push(face_up_card(v.foundations[pile as int].last())),
                        ),
                        1,
                    ),
                )
            } else {
                None
            },
            Some(Selection::Tableau { pile, index }) => if pile != target && selectable_run(
                v,
                pile as int,
                index as int,
            ) && fits_tableau(v.tableau[pile as int][index as int].card, v.tableau[target]) {
                let from = v.tableau[pile as int];
                Some(
                    finish_move(
                        v,
                        v.waste,
                        v.foundations,
                        v.tableau.update(target, v.tableau[target] + from.skip(index as int)).update(
                            pile as int,
                            flip_top(from.take(index as int)),
                        ),
                        0,
                    ),
                )
            } else {
                None
            },
            None => None,
        }
    }
}

/// How many cards a stock turn draws: the draw count, or what is left.
pub open spec fn draw_amount(v: GameView) -> nat {
    if v.draw_count <= v.stock.len() {
        v.draw_count
    } else {
        v.stock.len()
    }
}

/// The state after a stock turn. Cards drawn leave the stock from its top
/// and land on the waste one by one; with the stock empty the waste is
/// turned over into a new stock for one gold (never below zero); with both
/// empty only the selection is cleared.
pub open spec fn after_draw(v: GameView) -> GameView {
    let k = draw_amount(v);
    let n = v.stock.len();
    if k > 0 {
        GameView {
            stock: v.stock.take(n - k),
            waste: v.waste + v.stock.skip(n - k).reverse(),
            selected: None,
            moves: v.moves + 1,
            ..v
        }
    } else if v.waste.len() > 0 {
        GameView {
            stock: v.waste.reverse(),
            waste: Seq::empty(),
            selected: None,
            moves: v.moves + 1,
            temple_gold: if v.temple_gold > 0 {
                (v.temple_gold - 1) as nat
            } else {
                0
            },
            ..v
        }
    } else {
        with_selection(v, None)
    }
}

/// A tableau card as Zeus' Vision leaves it: every hidden card turns face
/// up and is marked as revealed by Zeus.
pub open spec fn zeus_revealed_card(c: TableauCard) -> TableauCard {
    if c.face_up {
        c
    } else {
        TableauCard { card: c.card, face_up: true, zeus_revealed: true }
    }
}

pub open spec fn reveal_column(p: Seq<TableauCard>) -> Seq<TableauCard> {
    p.map_values(|c: TableauCard| zeus_revealed_card(c))
}

pub open spec fn after_zeus_vision(v: GameView) -> GameView {
    GameView {
        tableau: v.tableau.map_values(|p: Seq<TableauCard>| reveal_column(p)),
        selected: None,
        ..v
    }
}

/// The number of face-down cards in a column.
pub open spec fn hidden_in(p: Seq<TableauCard>) -> nat
    decreases p.len(),
{
    if p.len() == 0 {
        0
    } else {
        hidden_in(p.drop_last()) + if p.last().face_up {
            0nat
        } else {
            1nat
        }
    }
}

/// The number of face-down cards in all columns.
pub open spec fn hidden_total(t: Seq<Seq<TableauCard>>) -> nat
    decreases t.len(),
{
    if t.len() == 0 {
        0
    } else {
        hidden_total(t.drop_last()) + hidden_in(t.last())
    }
}


/// The sources automatic promotion considers, in order: the waste top
/// (`k == 0`), then the top card of column `k - 1`.
pub open spec fn promotion_candidate(v: GameView, k: int) -> Selection {
    if k == 0 {
        Selection::Waste
    } else {
        Selection::Tableau { pile: (k - 1) as usize, index: (v.tableau[k - 1].len() - 1) as usize }
    }
}

/// Selecting `s` picks up the waste top or a column's face-up top card, and
/// some foundation accepts that card.
pub open spec fn promotable(v: GameView, s: Selection) -> bool {
    &&& (s is Waste || s is Tableau)
    &&& first_foundation_from(with_selection(v, Some(s)), 0) is Some
}

/// Some card can be promoted to a foundation.
pub open spec fn can_promote(v: GameView) -> bool {
    exists|s: Selection| #[trigger] promotable(v, s)
}

/// The rank of the card that selecting `s` would carry to a foundation.
pub open spec fn promotion_rank(v: GameView, s: Selection) -> u8 {
    foundation_source(with_selection(v, Some(s)))->0.rank
}

/// Candidate `k` is the one automatic promotion moves: it is promotable,
/// no promotable candidate has a lower rank, and no earlier one the same.
pub open spec fn chosen_promotion(v: GameView, k: int) -> bool {
    &&& 0 <= k < 8
    &&& promotable(v, promotion_candidate(v, k))
    &&& forall|j: int|
        0 <= j < 8 && promotable(v, #[trigger] promotion_candidate(v, j)) ==> promotion_rank(
            v,
            promotion_candidate(v, k),
        ) <= promotion_rank(v, promotion_candidate(v, j))
    &&& forall|j: int|
        0 <= j < k && promotable(v, #[trigger] promotion_candidate(v, j)) ==> promotion_rank(
            v,
            promotion_candidate(v, k),
        ) < promotion_rank(v, promotion_candidate(v, j))
}

/// The state after selecting `s` and moving it to the first foundation that
/// accepts it.
pub open spec fn after_promotion(v: GameView, s: Selection) -> GameView {
    let w = with_selection(v, Some(s));
    after_foundation_move(w, first_foundation_from(w, 0)->0)->0
}

/// `next` is the state automatic promotion leaves: the chosen candidate
/// moved to the first foundation that accepts it.
pub open spec fn auto_promoted(v: GameView, next: GameView) -> bool {
    exists|k: int| #[trigger] chosen_promotion(v, k) && next == after_promotion(v, promotion_candidate(v, k))
}

/// Selecting `s` and moving it onto foundation or column `t` is allowed.
pub open spec fn move_possible(v: GameView, s: Selection, t: int) -> bool {
    ||| after_foundation_move(with_selection(v, Some(s)), t) is Some
    ||| after_tableau_move(with_selection(v, Some(s)), t) is Some
}

/// Selecting `s` leads to some allowed move.
pub open spec fn source_movable(v: GameView, s: Selection) -> bool {
    exists|t: int| #[trigger] move_possible(v, s, t)
}

/// Some play remains: a draw or a turn-over of the waste, or a move of some
/// selection onto some foundation or column.
pub open spec fn has_legal_move(v: GameView) -> bool {
    ||| v.stock.len() > 0
    ||| v.waste.len() > 0
    ||| exists|s: Selection| #[trigger] source_movable(v, s)
}

/// A foundation found for a selection accepts it.
proof fn lemma_first_foundation_found(w: GameView, from: int)
    ensures
        first_foundation_from(w, from) matches Some(t) ==> from <= t < FOUNDATION_COUNT
            && after_foundation_move(w, t) is Some,
    decreases FOUNDATION_COUNT - from,
{
    if 0 <= from < FOUNDATION_COUNT {
        lemma_first_foundation_found(w, from + 1);
    }
}

/// Every promotable selection is one of the candidates.
proof fn lemma_promotable_is_candidate(v: GameView, s: Selection)
    requires
        v.tableau.len() == TABLEAU_COUNT,
        promotable(v, s),
    ensures
        exists|k: int| 0 <= k < 8 && #[trigger] promotion_candidate(v, k) == s,
{
    let w = with_selection(v, Some(s));
    lemma_first_foundation_found(w, 0);
    match s {
        Selection::Waste => {
            assert(promotion_candidate(v, 0) == s);
        },
        Selection::Tableau { pile, index } => {
            assert(pile < TABLEAU_COUNT && index + 1 == v.tableau[pile as int].len());
            assert(promotion_candidate(v, pile + 1) == s);
        },
        _ => {},
    }
}

/// A foundation that accepts a selection is found by the first-fit search.
proof fn lemma_first_foundation_exists(w: GameView, from: int, t: int)
    requires
        0 <= from <= t,
        after_foundation_move(w, t) is Some,
    ensures
        first_foundation_from(w, from) is Some,
    decreases t - from,
{
    if from < t {
        if after_foundation_move(w, from) is None {
            lemma_first_foundation_exists(w, from + 1, t);
        }
    }
}

/// Auto To Temple is complete and takes the lowest card: whenever some
/// selection can be moved onto some foundation, automatic promotion moves a
/// card, and whatever it leaves is some selection's card moved onto some
/// foundation, ranked no higher than the card of that selection.
pub proof fn lemma_auto_promotion_complete(v: GameView, s: Selection, t: int)
    requires
        v.tableau.len() == TABLEAU_COUNT,
        after_foundation_move(with_selection(v, Some(s)), t) is Some,
    ensures
        can_promote(v),
        forall|next: GameView|
            #[trigger] auto_promoted(v, next) ==> exists|s2: Selection, t2: int|
                #![trigger after_foundation_move(with_selection(v, Some(s2)), t2)]
                {
                    &&& after_foundation_move(with_selection(v, Some(s2)), t2) is Some
                    &&& next == after_foundation_move(with_selection(v, Some(s2)), t2)->0
                    &&& selected_card_of(with_selection(v, Some(s2)))->0.rank
                        <= selected_card_of(with_selection(v, Some(s)))->0.rank
                },
{
    let w = with_selection(v, Some(s));
    lemma_first_foundation_exists(w, 0, t);
    assert(promotable(v, s));
    assert forall|next: GameView| #[trigger] auto_promoted(v, next) implies exists|s2: Selection, t2: int|
        #![trigger after_foundation_move(with_selection(v, Some(s2)), t2)]
        {
            &&& after_foundation_move(with_selection(v, Some(s2)), t2) is Some
            &&& next == after_foundation_move(with_selection(v, Some(s2)), t2)->0
            &&& selected_card_of(with_selection(v, Some(s2)))->0.rank
                <= selected_card_of(with_selection(v, Some(s)))->0.rank
        } by {
        let k = choose|k: int| #[trigger] chosen_promotion(v, k) && next == after_promotion(v, promotion_candidate(v, k));
        let s2 = promotion_candidate(v, k);
        let w2 = with_selection(v, Some(s2));
        let t2 = first_foundation_from(w2, 0)->0;
        lemma_first_foundation_found(w2, 0);
        lemma_promotable_is_candidate(v, s);
        let j = choose|j: int| 0 <= j < 8 && #[trigger] promotion_candidate(v, j) == s;
        assert(promotable(v, promotion_candidate(v, j)));
        assert(after_foundation_move(with_selection(v, Some(s2)), t2) is Some);
    }
}

/// A game has a legal move exactly when the stock or the waste holds a card
/// to draw or turn over, or some selection can be moved onto some
/// foundation or column, a run from under a column's top included.
pub proof fn lemma_legal_move_complete(v: GameView, s: Selection, t: int)
    ensures
        after_foundation_move(with_selection(v, Some(s)), t) is Some ==> has_legal_move(v),
        after_tableau_move(with_selection(v, Some(s)), t) is Some ==> has_legal_move(v),
        v.stock.len() > 0 || v.waste.len() > 0 ==> has_legal_move(v),
        has_legal_move(v) ==> v.stock.len() > 0 || v.waste.len() > 0 || exists|s2: Selection, t2: int|
            #![trigger after_foundation_move(with_selection(v, Some(s2)), t2)]
            #![trigger after_tableau_move(with_selection(v, Some(s2)), t2)]
            after_foundation_move(with_selection(v, Some(s2)), t2) is Some || after_tableau_move(
                with_selection(v, Some(s2)),
                t2,
            ) is Some,
{
    if after_foundation_move(with_selection(v, Some(s)), t) is Some || after_tableau_move(
        with_selection(v, Some(s)),
        t,
    ) is Some {
        assert(move_possible(v, s, t));
        assert(source_movable(v, s));
    }
    if has_legal_move(v) && v.stock.len() == 0 && v.waste.len() == 0 {
        let s2 = choose|s2: Selection| #[trigger] source_movable(v, s2);
        let t2 = choose|t2: int| #[trigger] move_possible(v, s2, t2);
        assert(after_foundation_move(with_selection(v, Some(s2)), t2) is Some || after_tableau_move(
            with_selection(v, Some(s2)),
            t2,
        ) is Some);
    }
}

/// The selection bookkeeping shared by the three `select_*` methods.
fn same_selection(current: Option<Selection>, s: Selection) -> (r: bool)
    ensures
        r == (current == Some(s)),
{
    match (current, s) {
        (Some(Selection::Waste), Selection::Waste) => true,
        (Some(Selection::Foundation { pile: a }), Selection::Foundation { pile: b }) => a == b,
        (
            Some(Selection::Tableau { pile: a, index: i }),
            Selection::Tableau { pile: b, index: j },
        ) => a == b && i == j,
        _ => false,
    }
}

fn sanitize_draw_count(draw_count: usize) -> (r: usize)
    ensures
        r == sanitized_draw_count(draw_count as int),
{
    if draw_count <= EASY_DRAW_COUNT {
        EASY_DRAW_COUNT
    } else {
        HARD_DRAW_COUNT
    }
}

fn can_place_on_foundation(card: Card, pile: &[Card]) -> (r: bool)
    ensures
        r == fits_foundation(card, pile@),
{
    let n = pile.len();
    if n == 0 {
        card.rank == 1
    } else {
        let top = pile[n - 1];
        top.suit == card.suit && card.rank as u16 == top.rank as u16 + 1
    }
}

fn can_place_on_tableau(card: Card, pile: &[TableauCard]) -> (r: bool)
    ensures
        r == fits_tableau(card, pile@),
{
    let n = pile.len();
    if n == 0 {
        card.rank == 13
    } else {
        let top = pile[n - 1];
        top.face_up && top.card.is_red() != card.is_red() && card.rank as u16 + 1
            == top.card.rank as u16
    }
}


proof fn lemma_hidden_in_step(p: Seq<TableauCard>, j: int)
    requires
        0 <= j < p.len(),
    ensures
        hidden_in(p.take(j + 1)) == hidden_in(p.take(j)) + if p[j].face_up {
            0nat
        } else {
            1nat
        },
{
    assert(p.take(j + 1).drop_last() =~= p.take(j));
}

proof fn lemma_hidden_in_prefix(p: Seq<TableauCard>, j: int)
    requires
        0 <= j <= p.len(),
    ensures
        hidden_in(p.take(j)) <= hidden_in(p),
    decreases p.len() - j,
{
    if j < p.len() {
        lemma_hidden_in_step(p, j);
        lemma_hidden_in_prefix(p, j + 1);
    } else {
        assert(p.take(j) =~= p);
    }
}

proof fn lemma_hidden_total_step(t: Seq<Seq<TableauCard>>, k: int)
    requires
        0 <= k < t.len(),
    ensures
        hidden_total(t.take(k + 1)) == hidden_total(t.take(k)) + hidden_in(t[k]),
{
    assert(t.take(k + 1).drop_last() =~= t.take(k));
}

proof fn lemma_hidden_total_prefix(t: Seq<Seq<TableauCard>>, k: int)
    requires
        0 <= k <= t.len(),
    ensures
        hidden_total(t.take(k)) <= hidden_total(t),
    decreases t.len() - k,
{
    if k < t.len() {
        lemma_hidden_total_step(t, k);
        lemma_hidden_total_prefix(t, k + 1);
    } else {
        assert(t.take(k) =~= t);
    }
}


/// How many cards the deal hands out before column `p`: 0, 1, 3, 6, ...
pub open spec fn deal_offset(p: int) -> int
    decreases p,
{
    if p <= 0 {
        0
    } else {
        deal_offset(p - 1) + p
    }
}

proof fn lemma_deal_offset_nonneg(p: int)
    ensures
        deal_offset(p) >= 0,
    decreases p,
{
    if p > 0 {
        lemma_deal_offset_nonneg(p - 1);
    }
}

/// Column `p` as dealt from `deck`: `p + 1` cards taken from the deck's top
/// in turn, only the last of them face up.
pub open spec fn dealt_column(deck: Seq<Card>, p: int) -> Seq<TableauCard> {
    Seq::new(
        (p + 1) as nat,
        |r: int|
            TableauCard {
                card: deck[deck.len() - 1 - (deal_offset(p) + r)],
                face_up: r == p,
                zeus_revealed: false,
            },
    )
}

/// The game dealt from `deck`: seven columns of one to seven cards, the
/// remaining cards as the stock, everything else empty or zero.
pub open spec fn dealt_view(deck: Seq<Card>, draw_count: int) -> GameView {
    GameView {
        stock: deck.take(deck.len() - 28),
        waste: Seq::empty(),
        foundations: Seq::new(4, |i: int| Seq::<Card>::empty()),
        tableau: Seq::new(7, |p: int| dealt_column(deck, p)),
        draw_count: sanitized_draw_count(draw_count),
        selected: None,
        moves: 0,
        temple_gold: 0,
        won: false,
    }
}

impl GameState {
    /// A game with every pile empty, the hard draw count, nothing selected,
    /// no moves and no gold.
    pub fn empty() -> (r: Self)
        ensures
            r@.stock.len() == 0,
            r@.waste.len() == 0,
            forall|i: int| 0 <= i < FOUNDATION_COUNT ==> #[trigger] r@.foundations[i].len() == 0,
            forall|i: int| 0 <= i < TABLEAU_COUNT ==> #[trigger] r@.tableau[i].len() == 0,
            r@.draw_count == HARD_DRAW_COUNT,
            r@.selected is None,
            r@.moves == 0,
            r@.temple_gold == 0,
            !r@.won,
    {
        GameState {
            stock: Vec::new(),
            waste: Vec::new(),
            foundations: [Vec::new(), Vec::new(), Vec::new(), Vec::new()],
            tableau: [
                Vec::new(),
                Vec::new(),
                Vec::new(),
                Vec::new(),
                Vec::new(),
                Vec::new(),
                Vec::new(),
            ],
            draw_count: HARD_DRAW_COUNT,
            selected: None,
            moves: 0,
            temple_gold: 0,
            won: false,
        }
    }

    /// Sets the draw count: one card for a request of at most one, three
    /// for anything larger.
    pub fn set_draw_count(&mut self, draw_count: usize)
        ensures
            final(self)@ == (GameView {
                draw_count: sanitized_draw_count(draw_count as int),
                ..old(self)@
            }),
    {
        self.draw_count = sanitize_draw_count(draw_count);
    }

    pub fn clear_selection(&mut self)
        ensures
            final(self)@ == with_selection(old(self)@, None),
    {
        self.selected = None;
    }

    pub fn is_selected(&self, selection: Selection) -> (r: bool)
        ensures
            r == (self@.selected == Some(selection)),
    {
        same_selection(self.selected, selection)
    }

    /// Toggles the waste selection; refused on an empty waste.
    pub fn select_waste(&mut self) -> (r: bool)
        ensures
            r == (old(self)@.waste.len() > 0),
            r ==> final(self)@ == with_selection(
                old(self)@,
                toggled(old(self)@.selected, Selection::Waste),
            ),
            !r ==> final(self)@ == old(self)@,
    {
        if self.waste.len() == 0 {
            return false;
        }
        let selection = Selection::Waste;
        if same_selection(self.selected, selection) {
            self.selected = None;
        } else {
            self.selected = Some(selection);
        }
        true
    }

    /// Toggles the selection of a foundation's top card; refused for a pile
    /// that does not exist or is empty.
    pub fn select_foundation(&mut self, pile: usize) -> (r: bool)
        ensures
            r == (pile < FOUNDATION_COUNT && old(self)@.foundations[pile as int].len() > 0),
            r ==> final(self)@ == with_selection(
                old(self)@,
                toggled(old(self)@.selected, Selection::Foundation { pile }),
            ),
            !r ==> final(self)@ == old(self)@,
    {
        if pile >= FOUNDATION_COUNT || self.foundations[pile].len() == 0 {
            return false;
        }
        let selection = Selection::Foundation { pile };
        if same_selection(self.selected, selection) {
            self.selected = None;
        } else {
            self.selected = Some(selection);
        }
        true
    }

    /// Whether the cards of column `pile` from `index` up form a face-up run
    /// of alternating colours and descending ranks.
    pub fn can_select_tableau(&self, pile: usize, index: usize) -> (r: bool)
        ensures
            r == selectable_run(self@, pile as int, index as int),
    {
        if pile >= TABLEAU_COUNT {
            return false;
        }
        let cards = &self.tableau[pile];
        if index >= cards.len() || !cards[index].face_up {
            return false;
        }
        let end = cards.len() - 1;
        let mut i = index;
        while i < end
            invariant
                pile < TABLEAU_COUNT,
                cards@ == self@.tableau[pile as int],
                end == cards@.len() - 1,
                index < cards@.len(),
                cards@[index as int].face_up,
                index <= i <= end,
                forall|j: int| index <= j < i ==> #[trigger] links(cards@, j),
            decreases end - i,
        {
            let lower = cards[i].card;
            let upper = cards[i + 1].card;
            if !cards[i + 1].face_up || lower.is_red() == upper.is_red() || lower.rank as u16
                != upper.rank as u16 + 1 {
                assert(!links(cards@, i as int));
                return false;
            }
            assert(links(cards@, i as int));
            i += 1;
        }
        true
    }

    /// Toggles the selection of the run starting at (`pile`, `index`);
    /// refused where that is no movable run.
    pub fn select_tableau(&mut self, pile: usize, index: usize) -> (r: bool)
        ensures
            r == selectable_run(old(self)@, pile as int, index as int),
            r ==> final(self)@ == with_selection(
                old(self)@,
                toggled(old(self)@.selected, Selection::Tableau { pile, index }),
            ),
            !r ==> final(self)@ == old(self)@,
    {
        if !self.can_select_tableau(pile, index) {
            return false;
        }
        let selection = Selection::Tableau { pile, index };
        if same_selection(self.selected, selection) {
            self.selected = None;
        } else {
            self.selected = Some(selection);
        }
        true
    }

    /// The card the current selection picks up.
    pub fn selected_card(&self) -> (r: Option<Card>)
        ensures
            r == selected_card_of(self@),
    {
        match self.selected {
            Some(Selection::Waste) => {
                let n = self.waste.len();
                if n == 0 {
                    None
                } else {
                    Some(self.waste[n - 1])
                }
            },
            Some(Selection::Foundation { pile }) => {
                if pile >= FOUNDATION_COUNT {
                    return None;
                }
                let n = self.foundations[pile].len();
                if n == 0 {
                    None
                } else {
                    Some(self.foundations[pile][n - 1])
                }
            },
            Some(Selection::Tableau { pile, index }) => {
                if pile >= TABLEAU_COUNT || index >= self.tableau[pile].len() {
                    return None;
                }
                let c = self.tableau[pile][index];
                if c.face_up {
                    Some(c.card)
                } else {
                    None
                }
            },
            None => None,
        }
    }

    /// Turns the top card of column `pile` face up if it lies face down.
    fn flip_tableau_top(&mut self, pile: usize)
        requires
            pile < TABLEAU_COUNT,
        ensures
            final(self)@ == (GameView {
                tableau: old(self)@.tableau.update(
                    pile as int,
                    flip_top(old(self)@.tableau[pile as int]),
                ),
                ..old(self)@
            }),
    {
        let n = self.tableau[pile].len();
        if n > 0 && !self.tableau[pile][n - 1].face_up {
            let card = self.tableau[pile][n - 1].card;
            self.tableau[pile][n - 1] = TableauCard { card, face_up: true, zeus_revealed: false };
        }
        assert(self@.tableau =~= old(self)@.tableau.update(
            pile as int,
            flip_top(old(self)@.tableau[pile as int]),
        ));
    }

    /// Sets the win flag: all four foundations hold thirteen cards.
    fn refresh_win(&mut self)
        ensures
            final(self)@ == (GameView { won: all_complete(old(self)@.foundations), ..old(self)@ }),
    {
        self.won = self.foundations[0].len() == 13 && self.foundations[1].len() == 13
            && self.foundations[2].len() == 13 && self.foundations[3].len() == 13;
        assert(self.won == all_complete(old(self)@.foundations)) by {
            if !self.won {
                let k: int = if self.foundations[0].len() != 13 {
                    0
                } else if self.foundations[1].len() != 13 {
                    1
                } else if self.foundations[2].len() != 13 {
                    2
                } else {
                    3
                };
                assert(old(self)@.foundations[k].len() != 13);
            }
        }
    }

    /// Moves the selected card onto foundation `target`. Only the waste
    /// top, or a face-up card that tops its column, may move; it must be an
    /// Ace on an empty pile or the next rank of the pile's suit. A move earns
    /// one gold, counts one move, clears the selection and turns up a
    /// column's newly exposed top; a refused move changes nothing.
    pub fn move_selected_to_foundation(&mut self, target: usize) -> (r: bool)
        requires
            old(self).moves < usize::MAX,
            old(self).temple_gold < usize::MAX,
        ensures
            match after_foundation_move(old(self)@, target as int) {
                Some(next) => r && final(self)@ == next,
                None => !r && final(self)@ == old(self)@,
            },
    {
        if target >= FOUNDATION_COUNT {
            return false;
        }
        let selection = match self.selected {
            Some(selection) => selection,
            None => return false,
        };
        let card = match selection {
            Selection::Waste => {
                let n = self.waste.len();
                if n == 0 {
                    return false;
                }
                self.waste[n - 1]
            },
            Selection::Foundation { .. } => {
                return false;
            },
            Selection::Tableau { pile, index } => {
                if pile >= TABLEAU_COUNT {
                    return false;
                }
                let n = self.tableau[pile].len();
                if n == 0 || index != n - 1 {
                    return false;
                }
                let tableau_card = self.tableau[pile][index];
                if !tableau_card.face_up {
                    return false;
                }
                tableau_card.card
            },
        };
        if !can_place_on_foundation(card, self.foundations[target].as_slice()) {
            return false;
        }
        let ghost v = old(self)@;
        match selection {
            Selection::Waste => {
                self.waste.pop();
            },
            Selection::Foundation { .. } => {
                return false;
            },
            Selection::Tableau { pile, .. } => {
                self.tableau[pile].pop();
                assert(self@.tableau =~= v.tableau.update(
                    pile as int,
                    v.tableau[pile as int].drop_last(),
                ));
                self.flip_tableau_top(pile);
            },
        }
        self.foundations[target].push(card);
        assert(self@.foundations =~= v.foundations.update(
            target as int,
            v.foundations[target as int].push(card),
        ));
        self.selected = None;
        self.moves += 1;
        self.temple_gold += 1;
        self.refresh_win();
        true
    }

    /// Moves the selected card onto the first foundation, in order, that
    /// accepts it.
    pub fn move_selected_to_any_foundation(&mut self) -> (r: bool)
        requires
            old(self).moves < usize::MAX,
            old(self).temple_gold < usize::MAX,
        ensures
            match first_foundation_from(old(self)@, 0) {
                Some(t) => r && final(self)@ == after_foundation_move(old(self)@, t)->0,
                None => !r && final(self)@ == old(self)@,
            },
    {
        let mut foundation: usize = 0;
        while foundation < FOUNDATION_COUNT
            invariant
                foundation <= FOUNDATION_COUNT,
                self@ == old(self)@,
                self.moves < usize::MAX,
                self.temple_gold < usize::MAX,
                first_foundation_from(self@, 0) == first_foundation_from(
                    self@,
                    foundation as int,
                ),
            decreases FOUNDATION_COUNT - foundation,
        {
            if self.move_selected_to_foundation(foundation) {
                return true;
            }
            foundation += 1;
        }
        false
    }

    /// Moves the selection onto tableau column `target`: the waste top, a
    /// foundation's top card, or a selectable run from another column. The
    /// card heading what moves must be a King onto an empty column, or one
    /// rank below the face-up top and of the other colour. A waste or
    /// foundation card earns one gold, a run moved between columns none;
    /// the move is counted, the selection cleared and a column's newly
    /// exposed top turned up. A refused move changes nothing.
    pub fn move_selected_to_tableau(&mut self, target: usize) -> (r: bool)
        requires
            old(self).moves < usize::MAX,
            old(self).temple_gold < usize::MAX,
        ensures
            match after_tableau_move(old(self)@, target as int) {
                Some(next) => r && final(self)@ == next,
                None => !r && final(self)@ == old(self)@,
            },
    {
        if target >= TABLEAU_COUNT {
            return false;
        }
        let selection = match self.selected {
            Some(selection) => selection,
            None => return false,
        };
        let first_card = match selection {
            Selection::Waste => {
                let n = self.waste.len();
                if n == 0 {
                    return false;
                }
                self.waste[n - 1]
            },
            Selection::Foundation { pile } => {
                if pile >= FOUNDATION_COUNT {
                    return false;
                }
                let n = self.foundations[pile].len();
                if n == 0 {
                    return false;
                }
                self.foundations[pile][n - 1]
            },
            Selection::Tableau { pile, index } => {
                if pile == target || !self.can_select_tableau(pile, index) {
                    return false;
                }
                self.tableau[pile][index].card
            },
        };
        if !can_place_on_tableau(first_card, self.tableau[target].as_slice()) {
            return false;
        }
        let ghost v = old(self)@;
        let gold_earned: usize = match selection {
            Selection::Waste => {
                let card = match self.waste.pop() {
                    Some(card) => card,
                    None => return false,
                };
                self.tableau[target].push(TableauCard { card, face_up: true, zeus_revealed: false });
                assert(self@.tableau =~= v.tableau.update(
                    target as int,
                    v.tableau[target as int].push(face_up_card(card)),
                ));
                1
            },
            Selection::Foundation { pile } => {
                let card = match self.foundations[pile].pop() {
                    Some(card) => card,
                    None => return false,
                };
                assert(self@.foundations =~= v.foundations.update(
                    pile as int,
                    v.foundations[pile as int].drop_last(),
                ));
                self.tableau[target].push(TableauCard { card, face_up: true, zeus_revealed: false });
                assert(self@.tableau =~= v.tableau.update(
                    target as int,
                    v.tableau[target as int].push(face_up_card(card)),
                ));
                1
            },
            Selection::Tableau { pile, index } => {
                let mut moved = self.tableau[pile].split_off(index);
                self.tableau[target].append(&mut moved);
                let ghost from = v.tableau[pile as int];
                assert(self@.tableau =~= v.tableau.update(
                    target as int,
                    v.tableau[target as int] + from.skip(index as int),
                ).update(pile as int, from.take(index as int)));
                self.flip_tableau_top(pile);
                0
            },
        };
        self.selected = None;
        self.moves += 1;
        self.temple_gold += gold_earned;
        self.refresh_win();
        true
    }

    /// One stock turn: clears the selection, then draws up to the draw
    /// count from the stock's top onto the waste; if nothing was drawn, a
    /// non-empty waste is turned over into the stock at the cost of one
    /// gold (never below zero). Drawing or turning over counts one move.
    pub fn draw_or_recycle(&mut self)
        requires
            old(self).moves < usize::MAX,
        ensures
            final(self)@ == after_draw(old(self)@),
    {
        self.selected = None;
        let ghost v = old(self)@;
        let ghost n = v.stock.len();
        let mut drew_any = false;
        let mut drawn: usize = 0;
        while drawn < self.draw_count && self.stock.len() > 0
            invariant
                v.moves < usize::MAX,
                drawn <= v.draw_count,
                drawn <= n,
                self.draw_count == v.draw_count,
                n == v.stock.len(),
                self.stock@ == v.stock.take(n - drawn),
                self.waste@ == v.waste + v.stock.skip(n - drawn).reverse(),
                drew_any == (drawn > 0),
                self@.foundations == v.foundations,
                self@.tableau == v.tableau,
                self.moves == v.moves,
                self.temple_gold == v.temple_gold,
                self.won == v.won,
                self.selected is None,
            decreases v.draw_count - drawn,
        {
            let card = self.stock.pop().unwrap();
            assert(card == v.stock[n - drawn - 1]);
            drew_any = true;
            self.waste.push(card);
            assert(v.stock.skip(n - (drawn + 1)).reverse() =~= v.stock.skip(n - drawn).reverse().push(
                card,
            ));
            assert(self.waste@ =~= v.waste + v.stock.skip(n - (drawn + 1)).reverse());
            assert(self.stock@ =~= v.stock.take(n - (drawn + 1)));
            drawn += 1;
        }
        assert(drawn == draw_amount(v));
        if drew_any {
            self.moves += 1;
            assert(self@ =~= after_draw(v));
            return;
        }
        if self.waste.len() > 0 {
            let ghost w = v.waste;
            let mut new_stock: Vec<Card> = Vec::new();
            while self.waste.len() > 0
                invariant
                    self.waste@ == w.take(self.waste@.len() as int),
                    self.waste@.len() <= w.len(),
                    new_stock@ == w.skip(self.waste@.len() as int).reverse(),
                    self@.foundations == v.foundations,
                    self@.tableau == v.tableau,
                    self.moves == v.moves,
                    self.temple_gold == v.temple_gold,
                    self.won == v.won,
                    self.draw_count == v.draw_count,
                    self.selected is None,
                    v.moves < usize::MAX,
                decreases self.waste@.len(),
            {
                let ghost m = self.waste@.len() as int;
                let card = self.waste.pop().unwrap();
                new_stock.push(card);
                assert(w.skip(m - 1).reverse() =~= w.skip(m).reverse().push(card));
                assert(self.waste@ =~= w.take(m - 1));
            }
            assert(w.skip(0) =~= w);
            self.stock = new_stock;
            self.moves += 1;
            if self.temple_gold > 0 {
                self.temple_gold -= 1;
            }
            assert(self@ =~= after_draw(v));
        } else {
            assert(self@ =~= after_draw(v));
        }
    }

    /// Zeus' Vision: clears the selection and turns every face-down tableau
    /// card face up, marking it as revealed by Zeus. Returns how many cards
    /// it turned.
    pub fn zeus_vision(&mut self) -> (r: usize)
        requires
            hidden_total(old(self)@.tableau) <= usize::MAX,
        ensures
            final(self)@ == after_zeus_vision(old(self)@),
            r == hidden_total(old(self)@.tableau),
    {
        self.selected = None;
        let ghost v = old(self)@;
        let mut revealed: usize = 0;
        let mut pile: usize = 0;
        while pile < TABLEAU_COUNT
            invariant
                pile <= TABLEAU_COUNT,
                hidden_total(v.tableau) <= usize::MAX,
                revealed == hidden_total(v.tableau.take(pile as int)),
                v.tableau.len() == TABLEAU_COUNT,
                forall|q: int| 0 <= q < pile ==> #[trigger] self.tableau@[q]@ == reveal_column(v.tableau[q]),
                forall|q: int| pile <= q < TABLEAU_COUNT ==> #[trigger] self.tableau@[q]@ == v.tableau[q],
                self@.stock == v.stock,
                self@.waste == v.waste,
                self@.foundations == v.foundations,
                self.draw_count == v.draw_count,
                self.moves == v.moves,
                self.temple_gold == v.temple_gold,
                self.won == v.won,
                self.selected is None,
            decreases TABLEAU_COUNT - pile,
        {
            let ghost col = v.tableau[pile as int];
            proof {
                lemma_hidden_total_step(v.tableau, pile as int);
                lemma_hidden_total_prefix(v.tableau, pile + 1);
            }
            let mut j: usize = 0;
            while j < self.tableau[pile].len()
                invariant
                    pile < TABLEAU_COUNT,
                    self.tableau@[pile as int]@.len() == col.len(),
                    j <= col.len(),
                    forall|i: int| 0 <= i < j ==> #[trigger] self.tableau@[pile as int]@[i] == zeus_revealed_card(col[i]),
                    forall|i: int| j <= i < col.len() ==> #[trigger] self.tableau@[pile as int]@[i] == col[i],
                    revealed == hidden_total(v.tableau.take(pile as int)) + hidden_in(col.take(j as int)),
                    hidden_total(v.tableau.take(pile as int)) + hidden_in(col) <= usize::MAX,
                    v.tableau.len() == TABLEAU_COUNT,
                    forall|q: int| 0 <= q < pile ==> #[trigger] self.tableau@[q]@ == reveal_column(v.tableau[q]),
                    forall|q: int| pile < q < TABLEAU_COUNT ==> #[trigger] self.tableau@[q]@ == v.tableau[q],
                    self@.stock == v.stock,
                    self@.waste == v.waste,
                    self@.foundations == v.foundations,
                    self.draw_count == v.draw_count,
                    self.moves == v.moves,
                    self.temple_gold == v.temple_gold,
                    self.won == v.won,
                    self.selected is None,
                decreases col.len() - j,
            {
                proof {
                    lemma_hidden_in_step(col, j as int);
                    lemma_hidden_in_prefix(col, j + 1);
                }
                let tableau_card = self.tableau[pile][j];
                if !tableau_card.face_up {
                    self.tableau[pile][j] = TableauCard {
                        card: tableau_card.card,
                        face_up: true,
                        zeus_revealed: true,
                    };
                    revealed += 1;
                }
                j += 1;
            }
            assert(col.take(col.len() as int) =~= col);
            assert(self@.tableau[pile as int] =~= reveal_column(col));
            pile += 1;
        }
        assert(v.tableau.take(7) =~= v.tableau);
        assert(self@ =~= after_zeus_vision(v));
        revealed
    }

    /// Deals a game from `deck`, whose last card is its top: column `p`
    /// takes the next `p + 1` cards, the last of them face up; the rest of
    /// the deck becomes the stock.
    pub fn deal(deck: Vec<Card>, draw_count: usize) -> (r: Self)
        requires
            deck@.len() >= 28,
        ensures
            r@ == dealt_view(deck@, draw_count as int),
    {
        let ghost d = deck@;
        let ghost n = d.len();
        let draw_count = sanitize_draw_count(draw_count);
        let mut deck = deck;
        let mut tableau: [Vec<TableauCard>; 7] = [
            Vec::new(),
            Vec::new(),
            Vec::new(),
            Vec::new(),
            Vec::new(),
            Vec::new(),
            Vec::new(),
        ];
        let mut pile: usize = 0;
        while pile < TABLEAU_COUNT
            invariant
                pile <= TABLEAU_COUNT,
                n == d.len(),
                n >= 28,
                deck@ == d.take(n - deal_offset(pile as int)),
                forall|q: int| 0 <= q < pile ==> #[trigger] tableau@[q]@ == dealt_column(d, q),
                forall|q: int| pile <= q < TABLEAU_COUNT ==> #[trigger] tableau@[q]@.len() == 0,
            decreases TABLEAU_COUNT - pile,
        {
            assert(deal_offset(pile as int) + pile + 1 <= 28) by {
                reveal_with_fuel(deal_offset, 8);
            }
            proof {
                lemma_deal_offset_nonneg(pile as int);
            }
            let mut row: usize = 0;
            while row <= pile
                invariant
                    pile < TABLEAU_COUNT,
                    row <= pile + 1,
                    n == d.len(),
                    deal_offset(pile as int) + pile + 1 <= 28,
                    deal_offset(pile as int) >= 0,
                    n >= 28,
                    deck@ == d.take(n - (deal_offset(pile as int) + row)),
                    tableau@[pile as int]@ == dealt_column(d, pile as int).take(row as int),
                    forall|q: int| 0 <= q < pile ==> #[trigger] tableau@[q]@ == dealt_column(d, q),
                    forall|q: int| pile < q < TABLEAU_COUNT ==> #[trigger] tableau@[q]@.len() == 0,
                decreases pile + 1 - row,
            {
                let card = deck.pop().unwrap();
                tableau[pile].push(TableauCard { card, face_up: row == pile, zeus_revealed: false });
                assert(deck@ =~= d.take(n - (deal_offset(pile as int) + row + 1)));
                assert(tableau@[pile as int]@ =~= dealt_column(d, pile as int).take(row + 1));
                row += 1;
            }
            assert(tableau@[pile as int]@ =~= dealt_column(d, pile as int));
            assert(deal_offset(pile + 1) == deal_offset(pile as int) + pile + 1);
            pile += 1;
        }
        assert(deal_offset(7) == 28) by {
            reveal_with_fuel(deal_offset, 8);
        }
        let r = GameState {
            stock: deck,
            waste: Vec::new(),
            foundations: [Vec::new(), Vec::new(), Vec::new(), Vec::new()],
            tableau,
            draw_count,
            selected: None,
            moves: 0,
            temple_gold: 0,
            won: false,
        };
        assert(r@ =~= dealt_view(d, draw_count as int));
        r
    }

    /// A new game dealt from a freshly shuffled deck, on the hard setting;
    /// `clock` seeds the shuffle where the operating system has no
    /// randomness.
    pub fn new_shuffled(clock: ClockReading) -> (r: Self)
        ensures
            exists|seed: Seq<u8>|
                seed.len() == 32 && r@ == dealt_view(
                    #[trigger] chacha_shuffle(full_deck_seq(), seed),
                    HARD_DRAW_COUNT as int,
                ),
            exists|deck: Seq<Card>|
                deck.to_multiset() == full_deck_seq().to_multiset() && r@ == #[trigger] dealt_view(
                    deck,
                    HARD_DRAW_COUNT as int,
                ),
    {
        Self::new_shuffled_with_draw_count(HARD_DRAW_COUNT, clock)
    }

    /// A new game dealt from a freshly shuffled deck of the fifty-two cards,
    /// with the draw count set as `set_draw_count` sets it; `clock` seeds the
    /// shuffle where the operating system has no randomness.
    pub fn new_shuffled_with_draw_count(draw_count: usize, clock: ClockReading) -> (r: Self)
        ensures
            exists|seed: Seq<u8>|
                seed.len() == 32 && r@ == dealt_view(
                    #[trigger] chacha_shuffle(full_deck_seq(), seed),
                    draw_count as int,
                ),
            exists|deck: Seq<Card>|
                deck.to_multiset() == full_deck_seq().to_multiset() && r@ == #[trigger] dealt_view(
                    deck,
                    draw_count as int,
                ),
    {
        let mut deck = full_deck();
        shuffle_deck(&mut deck, clock);
        proof {
            broadcast use vstd::seq_lib::group_to_multiset_ensures;

            assert(deck@.len() == deck@.to_multiset().len());
            assert(full_deck_seq().len() == full_deck_seq().to_multiset().len());
        }
        let ghost shuffled = deck@;
        let r = Self::deal(deck, draw_count);
        assert(r@ == dealt_view(shuffled, draw_count as int));
        r
    }
}


impl GameState {
    /// The card that selecting `s` would carry to a foundation: the waste
    /// top, or a column's face-up top card.
    fn promotion_source(&self, s: Selection) -> (r: Option<Card>)
        ensures
            r == foundation_source(with_selection(self@, Some(s))),
    {
        match s {
            Selection::Waste => {
                let n = self.waste.len();
                if n == 0 {
                    None
                } else {
                    Some(self.waste[n - 1])
                }
            },
            Selection::Foundation { .. } => None,
            Selection::Tableau { pile, index } => {
                if pile >= TABLEAU_COUNT {
                    return None;
                }
                let n = self.tableau[pile].len();
                if n == 0 || index != n - 1 {
                    return None;
                }
                let t = self.tableau[pile][index];
                if t.face_up {
                    Some(t.card)
                } else {
                    None
                }
            },
        }
    }

    /// Whether selecting `s` and moving it onto foundation `t` is allowed.
    fn can_move_to_foundation(&self, s: Selection, t: usize) -> (r: bool)
        ensures
            r == (after_foundation_move(with_selection(self@, Some(s)), t as int) is Some),
    {
        if t >= FOUNDATION_COUNT {
            return false;
        }
        match self.promotion_source(s) {
            Some(card) => can_place_on_foundation(card, self.foundations[t].as_slice()),
            None => false,
        }
    }

    /// The first foundation, in order, that would accept what selecting `s`
    /// carries.
    fn promotion_target(&self, s: Selection) -> (r: Option<usize>)
        ensures
            match first_foundation_from(with_selection(self@, Some(s)), 0) {
                Some(t) => r == Some(t as usize),
                None => r is None,
            },
    {
        let ghost w = with_selection(self@, Some(s));
        let mut t: usize = 0;
        while t < FOUNDATION_COUNT
            invariant
                t <= FOUNDATION_COUNT,
                w == with_selection(self@, Some(s)),
                first_foundation_from(w, 0) == first_foundation_from(w, t as int),
            decreases FOUNDATION_COUNT - t,
        {
            if self.can_move_to_foundation(s, t) {
                return Some(t);
            }
            t += 1;
        }
        None
    }

    /// Whether selecting `s` and moving it onto column `t` is allowed.
    fn can_move_to_tableau(&self, s: Selection, t: usize) -> (r: bool)
        ensures
            r == (after_tableau_move(with_selection(self@, Some(s)), t as int) is Some),
    {
        if t >= TABLEAU_COUNT {
            return false;
        }
        match s {
            Selection::Waste => {
                let n = self.waste.len();
                n > 0 && can_place_on_tableau(self.waste[n - 1], self.tableau[t].as_slice())
            },
            Selection::Foundation { pile } => {
                if pile >= FOUNDATION_COUNT {
                    return false;
                }
                let n = self.foundations[pile].len();
                n > 0 && can_place_on_tableau(
                    self.foundations[pile][n - 1],
                    self.tableau[t].as_slice(),
                )
            },
            Selection::Tableau { pile, index } => {
                if pile == t || !self.can_select_tableau(pile, index) {
                    return false;
                }
                can_place_on_tableau(self.tableau[pile][index].card, self.tableau[t].as_slice())
            },
        }
    }

    /// Whether selecting `s` leads to some allowed move.
    fn source_can_move(&self, s: Selection) -> (r: bool)
        ensures
            r == source_movable(self@, s),
    {
        let ghost v = self@;
        let mut t: usize = 0;
        while t < TABLEAU_COUNT
            invariant
                t <= TABLEAU_COUNT,
                v == self@,
                forall|u: int| 0 <= u < t ==> !#[trigger] move_possible(v, s, u),
            decreases TABLEAU_COUNT - t,
        {
            if self.can_move_to_foundation(s, t) || self.can_move_to_tableau(s, t) {
                assert(move_possible(v, s, t as int));
                return true;
            }
            t += 1;
        }
        assert forall|u: int| !#[trigger] move_possible(v, s, u) by {
            if u < 0 || u >= TABLEAU_COUNT {
                assert(after_foundation_move(with_selection(v, Some(s)), u) is None);
                assert(after_tableau_move(with_selection(v, Some(s)), u) is None);
            }
        }
        false
    }

    /// Whether any play remains: a draw or a turn-over of the waste, or a
    /// move of some selection onto some foundation or column.
    pub fn has_any_legal_move(&self) -> (r: bool)
        ensures
            r == has_legal_move(self@),
    {
        let ghost v = self@;
        if self.stock.len() > 0 || self.waste.len() > 0 {
            return true;
        }
        let mut p: usize = 0;
        while p < FOUNDATION_COUNT
            invariant
                p <= FOUNDATION_COUNT,
                v == self@,
                forall|q: usize| q < p ==> !#[trigger] source_movable(v, Selection::Foundation { pile: q }),
            decreases FOUNDATION_COUNT - p,
        {
            if self.source_can_move(Selection::Foundation { pile: p }) {
                return true;
            }
            p += 1;
        }
        let mut p: usize = 0;
        while p < TABLEAU_COUNT
            invariant
                p <= TABLEAU_COUNT,
                v == self@,
                forall|q: usize| q < FOUNDATION_COUNT ==> !#[trigger] source_movable(v, Selection::Foundation { pile: q }),
                forall|q: usize, i: usize|
                    q < p && i < v.tableau[q as int].len() ==> !#[trigger] source_movable(
                        v,
                        Selection::Tableau { pile: q, index: i },
                    ),
            decreases TABLEAU_COUNT - p,
        {
            let n = self.tableau[p].len();
            let mut i: usize = 0;
            while i < n
                invariant
                    p < TABLEAU_COUNT,
                    i <= n,
                    n == v.tableau[p as int].len(),
                    v == self@,
                    forall|q: usize| q < FOUNDATION_COUNT ==> !#[trigger] source_movable(v, Selection::Foundation { pile: q }),
                    forall|q: usize, j: usize|
                        (q < p && j < v.tableau[q as int].len()) || (q == p && j < i) ==> !#[trigger] source_movable(
                            v,
                            Selection::Tableau { pile: q, index: j },
                        ),
                decreases n - i,
            {
                if self.source_can_move(Selection::Tableau { pile: p, index: i }) {
                    return true;
                }
                i += 1;
            }
            p += 1;
        }
        assert forall|s: Selection| !#[trigger] source_movable(v, s) by {
            match s {
                Selection::Waste => {
                    assert forall|u: int| !#[trigger] move_possible(v, s, u) by {
                        assert(after_foundation_move(with_selection(v, Some(s)), u) is None);
                        assert(after_tableau_move(with_selection(v, Some(s)), u) is None);
                    }
                },
                Selection::Foundation { pile } => {
                    if pile >= FOUNDATION_COUNT {
                        assert forall|u: int| !#[trigger] move_possible(v, s, u) by {
                            assert(after_foundation_move(with_selection(v, Some(s)), u) is None);
                            assert(after_tableau_move(with_selection(v, Some(s)), u) is None);
                        }
                    }
                },
                Selection::Tableau { pile, index } => {
                    if pile >= TABLEAU_COUNT || index >= v.tableau[pile as int].len() {
                        assert forall|u: int| !#[trigger] move_possible(v, s, u) by {
                            assert(after_foundation_move(with_selection(v, Some(s)), u) is None);
                            assert(after_tableau_move(with_selection(v, Some(s)), u) is None);
                        }
                    }
                },
            }
        }
        false
    }

    /// Auto To Temple: among the waste top and the columns' top cards, moves
    /// one that some foundation accepts, of the lowest rank (the first such,
    /// waste before columns and columns in order), onto the first foundation
    /// that accepts it. Returns whether a card moved; otherwise nothing
    /// changes.
    pub fn auto_promote_lowest(&mut self) -> (r: bool)
        requires
            old(self).moves < usize::MAX,
            old(self).temple_gold < usize::MAX,
        ensures
            r == can_promote(old(self)@),
            r ==> auto_promoted(old(self)@, final(self)@),
            !r ==> final(self)@ == old(self)@,
    {
        let ghost v = self@;
        let mut best: Option<(Selection, u8)> = None;
        let ghost mut best_k: int = 0;
        let mut k: usize = 0;
        while k < 8
            invariant
                k <= 8,
                v == self@,
                match best {
                    Some((s, rank)) => {
                        &&& 0 <= best_k < k
                        &&& s == promotion_candidate(v, best_k)
                        &&& promotable(v, s)
                        &&& rank == promotion_rank(v, s)
                        &&& forall|j: int|
                            0 <= j < k && promotable(v, #[trigger] promotion_candidate(v, j))
                                ==> rank <= promotion_rank(v, promotion_candidate(v, j))
                        &&& forall|j: int|
                            0 <= j < best_k && promotable(v, #[trigger] promotion_candidate(v, j))
                                ==> rank < promotion_rank(v, promotion_candidate(v, j))
                    },
                    None => forall|j: int| 0 <= j < k ==> !promotable(v, #[trigger] promotion_candidate(v, j)),
                },
            decreases 8 - k,
        {
            let candidate: Option<Selection> = if k == 0 {
                Some(Selection::Waste)
            } else {
                let n = self.tableau[k - 1].len();
                if n == 0 {
                    None
                } else {
                    Some(Selection::Tableau { pile: k - 1, index: n - 1 })
                }
            };
            match candidate {
                Some(s) => {
                    assert(s == promotion_candidate(v, k as int));
                    match self.promotion_source(s) {
                        Some(card) => {
                            if self.promotion_target(s).is_some() {
                                let better = match best {
                                    Some((_, rank)) => card.rank < rank,
                                    None => true,
                                };
                                if better {
                                    best = Some((s, card.rank));
                                    proof {
                                        best_k = k as int;
                                    }
                                }
                            }
                        },
                        None => {
                            proof {
                                lemma_first_foundation_found(with_selection(v, Some(s)), 0);
                            }
                        },
                    }
                },
                None => {
                    proof {
                        let s = promotion_candidate(v, k as int);
                        lemma_first_foundation_found(with_selection(v, Some(s)), 0);
                    }
                },
            }
            k += 1;
        }
        match best {
            Some((s, _)) => {
                assert(chosen_promotion(v, best_k));
                self.selected = Some(s);
                assert(self@ == with_selection(v, Some(s)));
                self.move_selected_to_any_foundation();
                assert(promotable(v, s));
                true
            },
            None => {
                assert forall|s: Selection| !#[trigger] promotable(v, s) by {
                    if promotable(v, s) {
                        lemma_promotable_is_candidate(v, s);
                    }
                }
                false
            },
        }
    }
}

} // verus!
