//! A play session: the game together with what the table shows about it
//! (the status line, the ending, the help strip) and the decisions each
//! player action takes. Drawing, measuring and animating stay with the
//! caller, which hands every action here and shows what comes back.

use crate::deck::{chacha_shuffle, full_deck_seq, ClockReading};
use crate::game::{
    after_draw, after_foundation_move, auto_promoted, can_promote, has_legal_move, after_tableau_move, after_zeus_vision, dealt_view,
    draw_amount, first_foundation_from, hidden_total, rank_label_of, sanitized_draw_count,
    selectable_run, selected_card_of, suit_symbol, toggled, with_selection, Card, GameState,
    GameView, Selection, EASY_DRAW_COUNT, FOUNDATION_COUNT, HARD_DRAW_COUNT, TABLEAU_COUNT,
};
use crate::text::{decimal, decimal_seq, lemma_decimal_digits, parse_usize, parsed_usize};
use vstd::prelude::*;

verus! {

/// Status wording that the click and drag paths must agree on word for word.
pub const ILLEGAL_TABLEAU_MOVE: &'static str = "Illegal tableau move.";

pub const ILLEGAL_FOUNDATION_MOVE: &'static str = "Illegal foundation move.";

pub const EMPTY_TABLEAU_NEEDS_KING: &'static str = "Only a King can move into an empty tableau column.";

pub const WELCOME: &'static str = "Draw from stock and build the four temples from Ace to King.";

/// How a game ended.
#[derive(Clone, Copy, Debug, PartialEq, Eq, Structural)]
pub enum EndState {
    ZeusThunder,
    OutOfGold,
    Victory,
    Stalemate,
}

impl EndState {
    /// Every ending but victory is a loss.
    pub fn is_loss(self) -> (r: bool)
        ensures
            r == !(self is Victory),
    {
        match self {
            EndState::ZeusThunder | EndState::OutOfGold | EndState::Stalemate => true,
            EndState::Victory => false,
        }
    }
}

/// A destination a drop can land on.
#[derive(Clone, Copy, Debug, PartialEq, Eq, Structural)]
pub enum DropTarget {
    Tableau(usize),
    Foundation(usize),
}

/// Whether a drop moved the cards, and the status line to show.
#[derive(Clone, Debug, PartialEq, Eq)]
pub struct DropOutcome {
    pub moved: bool,
    pub status: String,
}

/// What a stock turn did: whether the stock had a card to draw or the
/// waste one to turn over, and how many cards landed on the waste.
#[derive(Clone, Copy, Debug, PartialEq, Eq, Structural)]
pub struct DrawOutcome {
    pub had_stock: bool,
    pub had_waste: bool,
    pub drawn: usize,
}

/// The game and what the table shows about it.
pub struct Session {
    pub game: GameState,
    pub status: String,
    pub end_state: Option<EndState>,
    pub help_expanded: bool,
    pub victory_gold_award: usize,
    pub victory_rain_dismissed: bool,
    pub all_to_temple_running: bool,
    /// Set when a drag resolves, so the click the browser synthesizes right
    /// after it is ignored rather than run again on the same input.
    pub just_dragged: bool,
}

/// Everything but the game and the status line is as in `b`.
pub open spec fn same_flags(a: Session, b: Session) -> bool {
    &&& a.end_state == b.end_state
    &&& a.help_expanded == b.help_expanded
    &&& a.victory_gold_award == b.victory_gold_award
    &&& a.victory_rain_dismissed == b.victory_rain_dismissed
    &&& a.all_to_temple_running == b.all_to_temple_running
    &&& a.just_dragged == b.just_dragged
}

/// A card as the status line names it: its rank label, then its suit symbol.
pub open spec fn describe_seq(c: Card) -> Seq<char> {
    rank_label_of(c.rank) + suit_symbol(c.suit)
}

pub open spec fn tableau_move_text(pile: int) -> Seq<char> {
    "Moved cards to tableau column "@ + decimal_seq((pile + 1) as nat) + "."@
}

pub open spec fn foundation_move_text(pile: int) -> Seq<char> {
    "Placed card on foundation "@ + decimal_seq((pile + 1) as nat) + "."@
}

/// A refused move onto column `pile`: an empty column needs a King, any
/// other refusal is an illegal move.
pub open spec fn rejection_text(v: GameView, pile: int) -> Seq<char> {
    if v.tableau[pile].len() == 0 {
        EMPTY_TABLEAU_NEEDS_KING@
    } else {
        ILLEGAL_TABLEAU_MOVE@
    }
}

pub open spec fn victory_text(gold: nat) -> Seq<char> {
    "Dionysus honors you with "@ + decimal_seq(gold) + " gold."@
}

/// The gold stored from an earlier session, read back: the stored number
/// if it parses as one, zero otherwise.
pub open spec fn stored_gold(stored: Option<Seq<char>>) -> usize {
    match stored {
        Some(s) => match parsed_usize(s) {
            Some(n) => n,
            None => 0,
        },
        None => 0,
    }
}


/// The game after `origin` is selected the way a click selects it: a
/// non-empty waste, a non-empty foundation or a movable run toggles; any
/// other origin leaves the game as it is.
pub open spec fn after_select(v: GameView, origin: Selection) -> GameView {
    if can_select(v, origin) {
        with_selection(v, toggled(v.selected, origin))
    } else {
        v
    }
}

pub open spec fn can_select(v: GameView, origin: Selection) -> bool {
    match origin {
        Selection::Waste => v.waste.len() > 0,
        Selection::Foundation { pile } => pile < FOUNDATION_COUNT && v.foundations[pile as int].len()
            > 0,
        Selection::Tableau { pile, index } => selectable_run(v, pile as int, index as int),
    }
}

/// The cards a drag from `origin` carries: the waste or foundation top, or
/// the column's cards from `index` up.
pub open spec fn dragged_of(v: GameView, origin: Selection) -> Seq<Card> {
    match origin {
        Selection::Waste => if v.waste.len() > 0 {
            seq![v.waste.last()]
        } else {
            Seq::empty()
        },
        Selection::Foundation { pile } => if pile < FOUNDATION_COUNT && v.foundations[pile as int].len()
            > 0 {
            seq![v.foundations[pile as int].last()]
        } else {
            Seq::empty()
        },
        Selection::Tableau { pile, index } => if pile < TABLEAU_COUNT && index <= v.tableau[
            pile as int
        ].len() {
            v.tableau[pile as int].skip(index as int).map_values(
                |t: crate::game::TableauCard| t.card,
            )
        } else {
            Seq::empty()
        },
    }
}

pub open spec fn selected_text(prefix: Seq<char>, c: Card, suffix: Seq<char>) -> Seq<char> {
    prefix + describe_seq(c) + suffix
}

pub open spec fn recycle_text(collected: nat) -> Seq<char> {
    if collected > 0 {
        "Recycled waste back into stock. Temple collected "@ + decimal_seq(collected) + " gold."@
    } else {
        "Recycled waste back into stock."@
    }
}

pub open spec fn drew_text(drawn: nat) -> Seq<char> {
    "Drew "@ + decimal_seq(drawn) + " card"@ + (if drawn == 1 {
        ""@
    } else {
        "s"@
    }) + " to the waste pile."@
}

/// What the status line says of a game that has ended, at any action.
pub open spec fn ended_text(e: EndState, award: nat) -> Seq<char> {
    match e {
        EndState::ZeusThunder => "Zeus' Thunder is heard"@,
        EndState::OutOfGold => "Temple Gold has run out. You lose. Final vision reveals all cards."@,
        EndState::Victory => victory_text(award),
        EndState::Stalemate => "Zeus demands obeisance! Only surrender remains."@,
    }
}

/// What a tap on column `pile` does: with a selection, moves it there (a
/// refused move worded as a drop would word it); without one, selects the
/// column's face-up top card, if it has one.
pub open spec fn tableau_pile_tapped(before: Session, after: Session, pile: usize) -> bool {
    &&& same_flags(after, before)
    &&& before.game.selected is Some ==> match after_tableau_move(before.game@, pile as int) {
        Some(next) => after.game@ == next && after.status@ == tableau_move_text(pile as int),
        None => after.game@ == before.game@ && after.status@ == rejection_text(
            before.game@,
            pile as int,
        ),
    }
    &&& before.game.selected is None ==> {
        let col = before.game@.tableau[pile as int];
        if col.len() > 0 && col.last().face_up {
            &&& after.game@ == with_selection(
                before.game@,
                Some(Selection::Tableau { pile, index: (col.len() - 1) as usize }),
            )
            &&& after.status@ == selected_text("Selected top card "@, col.last().card, "."@)
        } else {
            after.game@ == before.game@ && after.status == before.status
        }
    }
}

/// What a drop over `target` makes of the game: the game after it,
/// whether the cards moved, and the status line. A refused drop leaves the
/// game as it was; no target at all is an illegal tableau move.
pub open spec fn dropped(v: GameView, target: Option<DropTarget>) -> (GameView, bool, Seq<char>) {
    match target {
        Some(DropTarget::Tableau(p)) => match after_tableau_move(v, p as int) {
            Some(next) => (next, true, tableau_move_text(p as int)),
            None => (v, false, rejection_text(v, p as int)),
        },
        Some(DropTarget::Foundation(p)) => match after_foundation_move(v, p as int) {
            Some(next) => (next, true, foundation_move_text(p as int)),
            None => (v, false, ILLEGAL_FOUNDATION_MOVE@),
        },
        None => (v, false, ILLEGAL_TABLEAU_MOVE@),
    }
}

/// `after` is `before` with its game, whatever it now is, ended in victory
/// as `trigger_victory` ends it: the temple gold is awarded and the march
/// stops, unless the game had already ended that way.
pub open spec fn ended_in_victory(before: Session, after: Session) -> bool {
    &&& after.end_state == Some(EndState::Victory)
    &&& after.help_expanded == before.help_expanded
    &&& after.victory_rain_dismissed == before.victory_rain_dismissed
    &&& after.just_dragged == before.just_dragged
    &&& if before.end_state == Some(EndState::Victory) {
        &&& after.victory_gold_award == before.victory_gold_award
        &&& after.status == before.status
        &&& after.all_to_temple_running == before.all_to_temple_running
    } else {
        &&& after.victory_gold_award == after.game.temple_gold
        &&& after.status@ == victory_text(after.game.temple_gold as nat)
        &&& !after.all_to_temple_running
    }
}

/// The temple gold to start with, from what was stored (if anything).
pub fn temple_gold_from_stored(stored: Option<String>) -> (r: usize)
    ensures
        r == stored_gold(
            match stored {
                Some(s) => Some(s@),
                None => None,
            },
        ),
{
    match stored {
        Some(s) => match parse_usize(s.as_str()) {
            Some(n) => n,
            None => 0,
        },
        None => 0,
    }
}

/// Builds `a`, `b`, `c` into one string.
fn join3(a: &str, b: &str, c: &str) -> (r: String)
    ensures
        r@ == a@ + b@ + c@,
{
    let mut s = a.to_owned();
    s.append(b);
    s.append(c);
    s
}

impl Session {
    /// A session on `game`, greeting the player, with nothing ended.
    pub fn start(game: GameState) -> (s: Session)
        ensures
            s.game == game,
            s.status@ == WELCOME@,
            s.end_state is None,
            !s.help_expanded,
            s.victory_gold_award == 0,
            !s.victory_rain_dismissed,
            !s.all_to_temple_running,
            !s.just_dragged,
    {
        Session {
            game,
            status: WELCOME.to_owned(),
            end_state: None,
            help_expanded: false,
            victory_gold_award: 0,
            victory_rain_dismissed: false,
            all_to_temple_running: false,
            just_dragged: false,
        }
    }

    /// Cards cannot be played once the game has ended or while All To
    /// Temple is running.
    pub fn interactions_locked(&self) -> (r: bool)
        ensures
            r == (self.end_state is Some || self.all_to_temple_running),
    {
        self.end_state.is_some() || self.all_to_temple_running
    }

    /// The draw count may change only before the first move, and not
    /// once the game has ended or while All To Temple is running.
    pub fn can_switch_draw_mode(&self) -> (r: bool)
        ensures
            r == (self.end_state is None && !self.all_to_temple_running && self.game.moves == 0),
    {
        !self.interactions_locked() && self.game.moves == 0
    }

    pub fn describe_card(card: Card) -> (r: String)
        ensures
            r@ == describe_seq(card),
    {
        let mut s = card.rank_label().to_owned();
        s.append(card.suit.symbol());
        s
    }

    pub fn tableau_move_status(pile: usize) -> (r: String)
        requires
            pile < usize::MAX,
        ensures
            r@ == tableau_move_text(pile as int),
    {
        let n = decimal(pile + 1);
        join3("Moved cards to tableau column ", n.as_str(), ".")
    }

    pub fn foundation_move_status(pile: usize) -> (r: String)
        requires
            pile < usize::MAX,
        ensures
            r@ == foundation_move_text(pile as int),
    {
        let n = decimal(pile + 1);
        join3("Placed card on foundation ", n.as_str(), ".")
    }

    /// Words a refused move onto column `pile`.
    pub fn tableau_rejection_status(&self, pile: usize) -> (r: String)
        requires
            pile < 7,
        ensures
            r@ == rejection_text(self.game@, pile as int),
    {
        if self.game.tableau[pile].len() == 0 {
            EMPTY_TABLEAU_NEEDS_KING.to_owned()
        } else {
            ILLEGAL_TABLEAU_MOVE.to_owned()
        }
    }

    pub fn stop_all_to_temple(&mut self)
        ensures
            !final(self).all_to_temple_running,
            final(self).game == old(self).game,
            final(self).status == old(self).status,
            final(self).end_state == old(self).end_state,
            final(self).help_expanded == old(self).help_expanded,
            final(self).victory_gold_award == old(self).victory_gold_award,
            final(self).victory_rain_dismissed == old(self).victory_rain_dismissed,
            final(self).just_dragged == old(self).just_dragged,
    {
        self.all_to_temple_running = false;
    }

    /// Ends the game in victory, awarding the temple gold, unless it already
    /// ended that way.
    pub fn trigger_victory(&mut self)
        ensures
            old(self).end_state == Some(EndState::Victory) ==> *final(self) == *old(self),
            old(self).end_state != Some(EndState::Victory) ==> {
                &&& final(self).end_state == Some(EndState::Victory)
                &&& final(self).victory_gold_award == old(self).game.temple_gold
                &&& !final(self).all_to_temple_running
                &&& final(self).status@ == victory_text(old(self).game.temple_gold as nat)
                &&& final(self).game == old(self).game
                &&& final(self).help_expanded == old(self).help_expanded
                &&& final(self).victory_rain_dismissed == old(self).victory_rain_dismissed
                &&& final(self).just_dragged == old(self).just_dragged
            },
    {
        if let Some(EndState::Victory) = self.end_state {
            return;
        }
        let reward = self.game.temple_gold;
        self.victory_gold_award = reward;
        self.end_state = Some(EndState::Victory);
        self.stop_all_to_temple();
        let n = decimal(reward);
        self.status = join3("Dionysus honors you with ", n.as_str(), " gold.");
    }

    /// Resolves a drag's drop against the target under the pointer, through
    /// the same moves a click makes and worded the same way. No target at
    /// all is an illegal tableau move.
    pub fn resolve_drop(&mut self, target: Option<DropTarget>) -> (outcome: DropOutcome)
        requires
            old(self).game.moves < usize::MAX,
            old(self).game.temple_gold < usize::MAX,
            target matches Some(DropTarget::Tableau(p)) ==> p < 7,
        ensures
            final(self).status == old(self).status,
            same_flags(*final(self), *old(self)),
            (final(self).game@, outcome.moved, outcome.status@) == dropped(old(self).game@, target),
    {
        match target {
            Some(DropTarget::Tableau(pile)) => {
                if self.game.move_selected_to_tableau(pile) {
                    DropOutcome { moved: true, status: Self::tableau_move_status(pile) }
                } else {
                    DropOutcome { moved: false, status: self.tableau_rejection_status(pile) }
                }
            },
            Some(DropTarget::Foundation(pile)) => {
                if self.game.move_selected_to_foundation(pile) {
                    DropOutcome { moved: true, status: Self::foundation_move_status(pile) }
                } else {
                    DropOutcome { moved: false, status: ILLEGAL_FOUNDATION_MOVE.to_owned() }
                }
            },
            None => DropOutcome { moved: false, status: ILLEGAL_TABLEAU_MOVE.to_owned() },
        }
    }

    /// Resolves a tap on column `pile`: with a selection, moves it there;
    /// without one, selects the column's face-up top card. A refused move is
    /// worded as a drop would word it.
    pub fn click_tableau_pile(&mut self, pile: usize)
        requires
            pile < TABLEAU_COUNT,
            old(self).game.moves < usize::MAX,
            old(self).game.temple_gold < usize::MAX,
        ensures
            tableau_pile_tapped(*old(self), *final(self), pile),
    {
        if self.game.selected.is_some() {
            if self.game.move_selected_to_tableau(pile) {
                self.status = Self::tableau_move_status(pile);
            } else {
                self.status = self.tableau_rejection_status(pile);
            }
        } else {
            let n = self.game.tableau[pile].len();
            if n > 0 {
                let top_index = n - 1;
                if self.game.tableau[pile][top_index].face_up && self.game.select_tableau(
                    pile,
                    top_index,
                ) {
                    match self.game.selected_card() {
                        Some(card) => {
                            let d = Self::describe_card(card);
                            self.status = join3("Selected top card ", d.as_str(), ".");
                        },
                        None => {},
                    }
                }
            }
        }
    }

    /// The cards a drag from `origin` carries, read from the game.
    pub fn dragged_cards(&self, origin: Selection) -> (r: Vec<Card>)
        ensures
            r@ == dragged_of(self.game@, origin),
    {
        let mut r: Vec<Card> = Vec::new();
        match origin {
            Selection::Waste => {
                let n = self.game.waste.len();
                if n > 0 {
                    r.push(self.game.waste[n - 1]);
                }
            },
            Selection::Foundation { pile } => {
                if pile < FOUNDATION_COUNT {
                    let n = self.game.foundations[pile].len();
                    if n > 0 {
                        r.push(self.game.foundations[pile][n - 1]);
                    }
                }
            },
            Selection::Tableau { pile, index } => {
                if pile < TABLEAU_COUNT && index <= self.game.tableau[pile].len() {
                    let cards = &self.game.tableau[pile];
                    let ghost run = cards@.skip(index as int).map_values(
                        |t: crate::game::TableauCard| t.card,
                    );
                    let mut i = index;
                    while i < cards.len()
                        invariant
                            index <= i <= cards@.len(),
                            r@ == run.take(i - index),
                            run.len() == cards@.len() - index,
                            forall|j: int| 0 <= j < run.len() ==> #[trigger] run[j] == cards@[j + index].card,
                        decreases cards@.len() - i,
                    {
                        r.push(cards[i].card);
                        assert(r@ =~= run.take(i + 1 - index));
                        i += 1;
                    }
                    assert(r@ =~= run);
                }
            },
        }
        r
    }

    /// Starts a drag from `origin`: selects it unless it already is
    /// selected (selecting again would clear it), and returns the cards the
    /// drag carries.
    pub fn lift_drag(&mut self, origin: Selection) -> (dragged: Vec<Card>)
        ensures
            dragged@ == dragged_of(old(self).game@, origin),
            final(self).game@ == if old(self).game.selected == Some(origin) {
                old(self).game@
            } else {
                after_select(old(self).game@, origin)
            },
            final(self).status == old(self).status,
            same_flags(*final(self), *old(self)),
    {
        let dragged = self.dragged_cards(origin);
        if self.game.is_selected(origin) {
            return dragged;
        }
        match origin {
            Selection::Waste => {
                self.game.select_waste();
            },
            Selection::Foundation { pile } => {
                self.game.select_foundation(pile);
            },
            Selection::Tableau { pile, index } => {
                self.game.select_tableau(pile, index);
            },
        }
        dragged
    }

    /// Resets the session onto a freshly dealt game carrying `carry_gold`.
    pub fn reset_for_new_game(&mut self, dealt: GameState, carry_gold: usize)
        ensures
            final(self).game@ == (GameView { temple_gold: carry_gold as nat, ..dealt@ }),
            final(self).status@ == "You gave up. A fresh deck has been dealt."@,
            final(self).end_state is None,
            final(self).victory_gold_award == 0,
            !final(self).victory_rain_dismissed,
            !final(self).all_to_temple_running,
            final(self).help_expanded == old(self).help_expanded,
            final(self).just_dragged == old(self).just_dragged,
    {
        self.game = dealt;
        self.game.temple_gold = carry_gold;
        self.stop_all_to_temple();
        self.end_state = None;
        self.victory_gold_award = 0;
        self.victory_rain_dismissed = false;
        self.status = "You gave up. A fresh deck has been dealt.".to_owned();
    }

    /// Deals a fresh game with the same draw count, `clock` seeding the
    /// shuffle where the operating system has no randomness. The temple gold
    /// carries over after a win and starts from zero otherwise.
    pub fn new_game(&mut self, clock: ClockReading)
        ensures
            exists|deck: Seq<Card>|
                deck.to_multiset() == full_deck_seq().to_multiset() && final(self).game@ == (
                GameView {
                    temple_gold: if old(self).end_state == Some(EndState::Victory) {
                        old(self).game.temple_gold as nat
                    } else {
                        0
                    },
                    ..#[trigger] dealt_view(deck, old(self).game.draw_count as int)
                }),
            exists|seed: Seq<u8>|
                seed.len() == 32 && final(self).game@ == (GameView {
                    temple_gold: if old(self).end_state == Some(EndState::Victory) {
                        old(self).game.temple_gold as nat
                    } else {
                        0
                    },
                    ..dealt_view(
                        #[trigger] chacha_shuffle(full_deck_seq(), seed),
                        old(self).game.draw_count as int,
                    )
                }),
            final(self).status@ == "You gave up. A fresh deck has been dealt."@,
            final(self).end_state is None,
            final(self).victory_gold_award == 0,
            !final(self).victory_rain_dismissed,
            !final(self).all_to_temple_running,
            final(self).help_expanded == old(self).help_expanded,
            final(self).just_dragged == old(self).just_dragged,
    {
        let carry_gold = match self.end_state {
            Some(EndState::Victory) => self.game.temple_gold,
            _ => 0,
        };
        let dealt = GameState::new_shuffled_with_draw_count(self.game.draw_count, clock);
        self.reset_for_new_game(dealt, carry_gold);
    }

    /// Words a turn-over of the waste, naming the gold it cost, if any.
    pub fn recycle_status(&self, gold_before: usize) -> (r: String)
        ensures
            r@ == recycle_text(
                if gold_before > self.game.temple_gold {
                    (gold_before - self.game.temple_gold) as nat
                } else {
                    0
                },
            ),
    {
        let collected = if gold_before > self.game.temple_gold {
            gold_before - self.game.temple_gold
        } else {
            0
        };
        if collected > 0 {
            let n = decimal(collected);
            join3("Recycled waste back into stock. Temple collected ", n.as_str(), " gold.")
        } else {
            "Recycled waste back into stock.".to_owned()
        }
    }

    /// One stock turn as the Draw button plays it: draws or turns the waste
    /// over and words what happened. Turning the waste over when that leaves
    /// no gold ends the game: every hidden card is revealed and the game is
    /// lost.
    pub fn draw_from_stock(&mut self) -> (outcome: DrawOutcome)
        requires
            old(self).game.moves < usize::MAX,
            hidden_total(old(self).game@.tableau) <= usize::MAX,
        ensures
            ({
                let v = old(self).game@;
                let drawn_v = after_draw(v);
                let out_of_gold = v.stock.len() == 0 && v.waste.len() > 0 && drawn_v.temple_gold
                    == 0;
                &&& outcome.had_stock == (v.stock.len() > 0)
                &&& outcome.had_waste == (v.waste.len() > 0)
                &&& outcome.drawn == draw_amount(v)
                &&& if out_of_gold {
                    &&& final(self).game@ == after_zeus_vision(drawn_v)
                    &&& final(self).end_state == Some(EndState::OutOfGold)
                    &&& !final(self).all_to_temple_running
                    &&& final(self).status@
                        == "Temple Gold has run out. You lose. Final vision reveals all cards."@
                } else {
                    &&& final(self).game@ == drawn_v
                    &&& final(self).end_state == old(self).end_state
                    &&& final(self).all_to_temple_running == old(self).all_to_temple_running
                    &&& final(self).status@ == if v.stock.len() > 0 {
                        drew_text(draw_amount(v))
                    } else if v.waste.len() > 0 {
                        recycle_text(
                            if v.temple_gold > drawn_v.temple_gold {
                                (v.temple_gold - drawn_v.temple_gold) as nat
                            } else {
                                0
                            },
                        )
                    } else {
                        "No cards available to draw."@
                    }
                }
                &&& final(self).help_expanded == old(self).help_expanded
                &&& final(self).victory_gold_award == old(self).victory_gold_award
                &&& final(self).victory_rain_dismissed == old(self).victory_rain_dismissed
                &&& final(self).just_dragged == old(self).just_dragged
            }),
    {
        let gold_before = self.game.temple_gold;
        let had_stock = self.game.stock.len() > 0;
        let had_waste = self.game.waste.len() > 0;
        let waste_before = self.game.waste.len();
        self.game.draw_or_recycle();
        let drawn = if self.game.waste.len() > waste_before {
            self.game.waste.len() - waste_before
        } else {
            0
        };
        let outcome = DrawOutcome { had_stock, had_waste, drawn };
        if had_stock {
            let n = decimal(drawn);
            let suffix = if drawn == 1 {
                ""
            } else {
                "s"
            };
            let mut text = join3("Drew ", n.as_str(), " card");
            text.append(suffix);
            text.append(" to the waste pile.");
            self.status = text;
        } else if had_waste {
            self.status = self.recycle_status(gold_before);
        } else {
            self.status = "No cards available to draw.".to_owned();
        }
        if !had_stock && had_waste && self.game.temple_gold == 0 {
            proof {
                assert(hidden_total(self.game@.tableau) == hidden_total(old(self).game@.tableau));
            }
            self.game.zeus_vision();
            self.stop_all_to_temple();
            self.end_state = Some(EndState::OutOfGold);
            self.status = "Temple Gold has run out. You lose. Final vision reveals all cards.".to_owned();
        }
        outcome
    }

    /// The cards a draw of `drawn` cards lays silently beneath the new waste
    /// top: all of them but the top one.
    pub fn draw_covers(&self, drawn: usize) -> (r: Vec<Card>)
        requires
            drawn <= self.game.waste@.len(),
        ensures
            r@ == if drawn > 1 {
                self.game.waste@.subrange(
                    self.game.waste@.len() - drawn,
                    self.game.waste@.len() - 1,
                )
            } else {
                Seq::empty()
            },
    {
        let mut r: Vec<Card> = Vec::new();
        if drawn > 1 {
            let n = self.game.waste.len();
            let mut i = n - drawn;
            while i < n - 1
                invariant
                    n == self.game.waste@.len(),
                    drawn <= n,
                    drawn > 1,
                    n - drawn <= i <= n - 1,
                    r@ == self.game.waste@.subrange(n - drawn, i as int),
                decreases n - 1 - i,
            {
                r.push(self.game.waste[i]);
                assert(r@ =~= self.game.waste@.subrange(n - drawn, i + 1));
                i += 1;
            }
        }
        r
    }

    /// A click on the waste: toggles its selection.
    pub fn click_waste(&mut self) -> (handled: bool)
        ensures
            old(self).just_dragged ==> !handled && *final(self) == *old(self),
            !old(self).just_dragged ==> {
                &&& handled
                &&& same_flags(*final(self), *old(self))
                &&& final(self).game@ == after_select(old(self).game@, Selection::Waste)
                &&& final(self).status@ == if old(self).game@.waste.len() > 0 {
                    match selected_card_of(final(self).game@) {
                        Some(c) => selected_text("Selected waste card "@, c, "."@),
                        None => "Selection cleared."@,
                    }
                } else {
                    "Waste pile is empty."@
                }
            },
    {
        if self.just_dragged {
            return false;
        }
        if self.game.select_waste() {
            match self.game.selected_card() {
                Some(card) => {
                    let d = Self::describe_card(card);
                    self.status = join3("Selected waste card ", d.as_str(), ".");
                },
                None => {
                    self.status = "Selection cleared.".to_owned();
                },
            }
        } else {
            self.status = "Waste pile is empty.".to_owned();
        }
        true
    }

    /// A double click on the waste: sends its top card to the first
    /// foundation that takes it.
    pub fn double_click_waste(&mut self) -> (handled: bool)
        requires
            old(self).game.moves < usize::MAX,
            old(self).game.temple_gold < usize::MAX,
        ensures
            old(self).just_dragged ==> !handled && *final(self) == *old(self),
            !old(self).just_dragged ==> {
                let picked = after_select(old(self).game@, Selection::Waste);
                &&& handled
                &&& same_flags(*final(self), *old(self))
                &&& if old(self).game@.waste.len() == 0 {
                    final(self).game@ == old(self).game@ && final(self).status@
                        == "Waste pile is empty."@
                } else {
                    match first_foundation_from(picked, 0) {
                        Some(t) => final(self).game@ == after_foundation_move(picked, t)->0
                            && final(self).status@ == "Moved waste card to a foundation."@,
                        None => final(self).game@ == with_selection(picked, None)
                            && final(self).status@
                            == "Waste card cannot move to any foundation yet."@,
                    }
                }
            },
    {
        if self.just_dragged {
            return false;
        }
        if self.game.waste.len() == 0 {
            self.status = "Waste pile is empty.".to_owned();
        } else {
            let _ = self.game.select_waste();
            if self.game.move_selected_to_any_foundation() {
                self.status = "Moved waste card to a foundation.".to_owned();
            } else {
                self.game.clear_selection();
                self.status = "Waste card cannot move to any foundation yet.".to_owned();
            }
        }
        true
    }

    /// A click on foundation `pile`: with a selection, moves it there, or
    /// else picks that foundation's top card up to move back; without one,
    /// picks the top card up.
    pub fn click_foundation(&mut self, pile: usize) -> (handled: bool)
        requires
            !old(self).just_dragged && old(self).game.selected is None ==> pile < usize::MAX,
            old(self).game.moves < usize::MAX,
            old(self).game.temple_gold < usize::MAX,
        ensures
            old(self).just_dragged ==> !handled && *final(self) == *old(self),
            !old(self).just_dragged ==> {
                let v = old(self).game@;
                let origin = Selection::Foundation { pile };
                let picked = after_select(v, origin);
                let picked_text = match selected_card_of(picked) {
                    Some(c) => selected_text("Selected foundation card "@, c, " to move back."@),
                    None => "Selection cleared."@,
                };
                &&& handled
                &&& same_flags(*final(self), *old(self))
                &&& if v.selected is Some {
                    match after_foundation_move(v, pile as int) {
                        Some(next) => final(self).game@ == next && final(self).status@
                            == foundation_move_text(pile as int),
                        None => if can_select(v, origin) {
                            final(self).game@ == picked && final(self).status@ == picked_text
                        } else {
                            final(self).game@ == v && final(self).status@
                                == ILLEGAL_FOUNDATION_MOVE@
                        },
                    }
                } else if can_select(v, origin) {
                    final(self).game@ == picked && final(self).status@ == picked_text
                } else {
                    final(self).game@ == v && final(self).status@ == "Foundation "@ + decimal_seq(
                        (pile + 1) as nat,
                    ) + " is empty."@
                }
            },
    {
        if self.just_dragged {
            return false;
        }
        if self.game.selected.is_some() {
            if self.game.move_selected_to_foundation(pile) {
                self.status = Self::foundation_move_status(pile);
            } else if self.game.select_foundation(pile) {
                self.word_foundation_pick();
            } else {
                self.status = ILLEGAL_FOUNDATION_MOVE.to_owned();
            }
        } else if self.game.select_foundation(pile) {
            self.word_foundation_pick();
        } else {
            let n = decimal(pile + 1);
            self.status = join3("Foundation ", n.as_str(), " is empty.");
        }
        true
    }

    fn word_foundation_pick(&mut self)
        ensures
            final(self).game == old(self).game,
            same_flags(*final(self), *old(self)),
            final(self).status@ == match selected_card_of(old(self).game@) {
                Some(c) => selected_text("Selected foundation card "@, c, " to move back."@),
                None => "Selection cleared."@,
            },
    {
        match self.game.selected_card() {
            Some(card) => {
                let d = Self::describe_card(card);
                self.status = join3("Selected foundation card ", d.as_str(), " to move back.");
            },
            None => {
                self.status = "Selection cleared.".to_owned();
            },
        }
    }

    /// A click on the tableau card at (`pile`, `index`): with a selection,
    /// moves it onto that column, or else selects the run from that card;
    /// without one, selects the run.
    pub fn click_tableau_card(&mut self, pile: usize, index: usize) -> (handled: bool)
        requires
            old(self).game.moves < usize::MAX,
            old(self).game.temple_gold < usize::MAX,
        ensures
            old(self).just_dragged ==> !handled && *final(self) == *old(self),
            !old(self).just_dragged ==> {
                let v = old(self).game@;
                let origin = Selection::Tableau { pile, index };
                let picked = after_select(v, origin);
                let picked_status = match selected_card_of(picked) {
                    Some(c) => final(self).status@ == selected_text(
                        "Selected tableau run starting at "@,
                        c,
                        "."@,
                    ),
                    None => final(self).status == old(self).status,
                };
                &&& handled
                &&& same_flags(*final(self), *old(self))
                &&& if v.selected is Some {
                    match after_tableau_move(v, pile as int) {
                        Some(next) => final(self).game@ == next && final(self).status@
                            == tableau_move_text(pile as int),
                        None => if can_select(v, origin) {
                            final(self).game@ == picked && picked_status
                        } else {
                            final(self).game@ == v && final(self).status@ == ILLEGAL_TABLEAU_MOVE@
                        },
                    }
                } else if can_select(v, origin) {
                    final(self).game@ == picked && picked_status
                } else {
                    final(self).game@ == v && final(self).status@
                        == "That card is blocked by game rules."@
                }
            },
    {
        if self.just_dragged {
            return false;
        }
        if self.game.selected.is_some() {
            if self.game.move_selected_to_tableau(pile) {
                self.status = Self::tableau_move_status(pile);
            } else if self.game.select_tableau(pile, index) {
                self.word_run_pick();
            } else {
                self.status = ILLEGAL_TABLEAU_MOVE.to_owned();
            }
        } else if self.game.select_tableau(pile, index) {
            self.word_run_pick();
        } else {
            self.status = "That card is blocked by game rules.".to_owned();
        }
        true
    }

    fn word_run_pick(&mut self)
        ensures
            final(self).game == old(self).game,
            same_flags(*final(self), *old(self)),
            match selected_card_of(old(self).game@) {
                Some(c) => final(self).status@ == selected_text(
                    "Selected tableau run starting at "@,
                    c,
                    "."@,
                ),
                None => final(self).status == old(self).status,
            },
    {
        match self.game.selected_card() {
            Some(card) => {
                let d = Self::describe_card(card);
                self.status = join3("Selected tableau run starting at ", d.as_str(), ".");
            },
            None => {},
        }
    }

    /// A double click on a tableau card: selects it and sends it to the
    /// first foundation that takes it.
    pub fn double_click_tableau_card(&mut self, pile: usize, index: usize) -> (handled: bool)
        requires
            old(self).game.moves < usize::MAX,
            old(self).game.temple_gold < usize::MAX,
        ensures
            old(self).just_dragged ==> !handled && *final(self) == *old(self),
            !old(self).just_dragged ==> {
                let v = old(self).game@;
                let origin = Selection::Tableau { pile, index };
                let picked = after_select(v, origin);
                &&& handled
                &&& same_flags(*final(self), *old(self))
                &&& if can_select(v, origin) {
                    match first_foundation_from(picked, 0) {
                        Some(t) => final(self).game@ == after_foundation_move(picked, t)->0
                            && final(self).status@ == "Moved top tableau card to a foundation."@,
                        None => final(self).game@ == with_selection(picked, None)
                            && final(self).status@ == "No legal foundation move for that card."@,
                    }
                } else {
                    final(self).game@ == v && final(self).status@
                        == "Only exposed cards can jump to foundations."@
                }
            },
    {
        if self.just_dragged {
            return false;
        }
        if self.game.select_tableau(pile, index) {
            if self.game.move_selected_to_any_foundation() {
                self.status = "Moved top tableau card to a foundation.".to_owned();
            } else {
                self.game.clear_selection();
                self.status = "No legal foundation move for that card.".to_owned();
            }
        } else {
            self.status = "Only exposed cards can jump to foundations.".to_owned();
        }
        true
    }

    /// A tap on the empty part of column `pile`, ignored right after a drag.
    pub fn tap_tableau_pile(&mut self, pile: usize) -> (handled: bool)
        requires
            pile < TABLEAU_COUNT,
            old(self).game.moves < usize::MAX,
            old(self).game.temple_gold < usize::MAX,
        ensures
            handled == !old(self).just_dragged,
            old(self).just_dragged ==> *final(self) == *old(self),
            !old(self).just_dragged ==> tableau_pile_tapped(*old(self), *final(self), pile),
    {
        if self.just_dragged {
            return false;
        }
        self.click_tableau_pile(pile);
        true
    }

    /// Zeus' Vision: reveals every hidden card, takes all the gold and ends
    /// the game.
    pub fn call_zeus_vision(&mut self)
        requires
            hidden_total(old(self).game@.tableau) <= usize::MAX,
        ensures
            final(self).game@ == (GameView { temple_gold: 0, ..after_zeus_vision(old(self).game@) }),
            final(self).end_state == Some(EndState::ZeusThunder),
            !final(self).all_to_temple_running,
            final(self).status@ == "Zeus' Thunder is heard"@,
            final(self).help_expanded == old(self).help_expanded,
            final(self).victory_gold_award == old(self).victory_gold_award,
            final(self).victory_rain_dismissed == old(self).victory_rain_dismissed,
            final(self).just_dragged == old(self).just_dragged,
    {
        self.stop_all_to_temple();
        self.game.zeus_vision();
        self.game.temple_gold = 0;
        self.end_state = Some(EndState::ZeusThunder);
        self.status = "Zeus' Thunder is heard".to_owned();
    }

    /// Switches between drawing one card (easy) and three (hard).
    /// Switches between drawing one card (easy) and three (hard), only
    /// before the first move, and not once the game has ended or while All
    /// To Temple is running. Returns whether it switched; otherwise nothing
    /// changes.
    pub fn switch_draw_mode(&mut self) -> (switched: bool)
        ensures
            switched == (old(self).end_state is None && !old(self).all_to_temple_running
                && old(self).game.moves == 0),
            switched ==> ({
                let next = if old(self).game.draw_count == EASY_DRAW_COUNT {
                    HARD_DRAW_COUNT
                } else {
                    EASY_DRAW_COUNT
                };
                &&& final(self).game@ == (GameView {
                    draw_count: next as nat,
                    ..old(self).game@
                })
                &&& final(self).status@ == if next == EASY_DRAW_COUNT {
                    "Easy mode: draw 1 card from stock."@
                } else {
                    "Hard mode: draw 3 cards from stock."@
                }
                &&& same_flags(*final(self), *old(self))
            }),
            !switched ==> *final(self) == *old(self),
    {
        if !self.can_switch_draw_mode() {
            return false;
        }
        let next = if self.game.draw_count == EASY_DRAW_COUNT {
            HARD_DRAW_COUNT
        } else {
            EASY_DRAW_COUNT
        };
        self.game.set_draw_count(next);
        if next == EASY_DRAW_COUNT {
            self.status = "Easy mode: draw 1 card from stock.".to_owned();
        } else {
            self.status = "Hard mode: draw 3 cards from stock.".to_owned();
        }
        true
    }

    pub fn toggle_help(&mut self)
        ensures
            final(self).help_expanded == !old(self).help_expanded,
            final(self).status@ == if final(self).help_expanded {
                "Help expanded."@
            } else {
                "Help minimized."@
            },
            final(self).game == old(self).game,
            final(self).end_state == old(self).end_state,
            final(self).victory_gold_award == old(self).victory_gold_award,
            final(self).victory_rain_dismissed == old(self).victory_rain_dismissed,
            final(self).all_to_temple_running == old(self).all_to_temple_running,
            final(self).just_dragged == old(self).just_dragged,
    {
        self.help_expanded = !self.help_expanded;
        if self.help_expanded {
            self.status = "Help expanded.".to_owned();
        } else {
            self.status = "Help minimized.".to_owned();
        }
    }

    /// Stops the victory coin rain, once, after a win.
    pub fn dismiss_victory_rain(&mut self) -> (handled: bool)
        ensures
            handled == (old(self).end_state == Some(EndState::Victory)
                && !old(self).victory_rain_dismissed),
            handled ==> final(self).victory_rain_dismissed,
            !handled ==> final(self).victory_rain_dismissed == old(self).victory_rain_dismissed,
            final(self).game == old(self).game,
            final(self).status == old(self).status,
            final(self).end_state == old(self).end_state,
            final(self).help_expanded == old(self).help_expanded,
            final(self).victory_gold_award == old(self).victory_gold_award,
            final(self).all_to_temple_running == old(self).all_to_temple_running,
            final(self).just_dragged == old(self).just_dragged,
    {
        if let Some(EndState::Victory) = self.end_state {
            if !self.victory_rain_dismissed {
                self.victory_rain_dismissed = true;
                return true;
            }
        }
        false
    }

    /// Settles a drag released over `target`: the drop is resolved, a
    /// refused drop restores the selection held before the press, and the
    /// click the browser synthesizes next is to be ignored.
    pub fn finish_drop(
        &mut self,
        target: Option<DropTarget>,
        selection_before: Option<Selection>,
    ) -> (moved: bool)
        requires
            old(self).game.moves < usize::MAX,
            old(self).game.temple_gold < usize::MAX,
            target matches Some(DropTarget::Tableau(p)) ==> p < 7,
        ensures
            final(self).just_dragged,
            final(self).end_state == old(self).end_state,
            final(self).help_expanded == old(self).help_expanded,
            final(self).victory_gold_award == old(self).victory_gold_award,
            final(self).victory_rain_dismissed == old(self).victory_rain_dismissed,
            final(self).all_to_temple_running == old(self).all_to_temple_running,
            ({
                let (game, landed, text) = dropped(old(self).game@, target);
                &&& moved == landed
                &&& final(self).status@ == text
                &&& final(self).game@ == if landed {
                    game
                } else {
                    with_selection(game, selection_before)
                }
            }),
    {
        let outcome = self.resolve_drop(target);
        self.just_dragged = true;
        if !outcome.moved {
            self.game.selected = selection_before;
        }
        self.status = outcome.status;
        outcome.moved
    }

    /// Once the game has ended, any player action only repeats how it
    /// ended. Returns whether the game has ended.
    pub fn repeat_ending(&mut self) -> (ended: bool)
        ensures
            ended == old(self).end_state is Some,
            ended ==> final(self).status@ == ended_text(
                old(self).end_state->0,
                old(self).victory_gold_award as nat,
            ),
            !ended ==> final(self).status == old(self).status,
            final(self).game == old(self).game,
            same_flags(*final(self), *old(self)),
    {
        match self.end_state {
            None => false,
            Some(e) => {
                self.status = match e {
                    EndState::ZeusThunder => "Zeus' Thunder is heard".to_owned(),
                    EndState::OutOfGold => {
                        "Temple Gold has run out. You lose. Final vision reveals all cards.".to_owned()
                    },
                    EndState::Victory => {
                        let n = decimal(self.victory_gold_award);
                        join3("Dionysus honors you with ", n.as_str(), " gold.")
                    },
                    EndState::Stalemate => {
                        "Zeus demands obeisance! Only surrender remains.".to_owned()
                    },
                };
                true
            },
        }
    }

    /// After an action: a game whose foundations are complete ends in
    /// victory; a game with no play left ends in stalemate, Zeus revealing
    /// every hidden card and taking all the gold.
    pub fn settle(&mut self)
        requires
            hidden_total(old(self).game@.tableau) <= usize::MAX,
        ensures
            (old(self).game.won && old(self).end_state is None) ==> {
                &&& final(self).end_state == Some(EndState::Victory)
                &&& final(self).victory_gold_award == old(self).game.temple_gold
                &&& !final(self).all_to_temple_running
                &&& final(self).status@ == victory_text(old(self).game.temple_gold as nat)
                &&& final(self).game == old(self).game
                &&& final(self).help_expanded == old(self).help_expanded
                &&& final(self).victory_rain_dismissed == old(self).victory_rain_dismissed
                &&& final(self).just_dragged == old(self).just_dragged
            },
            (!old(self).game.won && old(self).end_state is None && !has_legal_move(
                old(self).game@,
            )) ==> {
                &&& final(self).game@ == (GameView {
                    temple_gold: 0,
                    ..after_zeus_vision(old(self).game@)
                })
                &&& final(self).end_state == Some(EndState::Stalemate)
                &&& !final(self).all_to_temple_running
                &&& final(self).status@ == "Zeus demands obeisance! Only surrender remains."@
                &&& final(self).victory_gold_award == old(self).victory_gold_award
                &&& final(self).help_expanded == old(self).help_expanded
                &&& final(self).victory_rain_dismissed == old(self).victory_rain_dismissed
                &&& final(self).just_dragged == old(self).just_dragged
            },
            (old(self).end_state is Some || (!old(self).game.won && has_legal_move(
                old(self).game@,
            ))) ==> *final(self) == *old(self),
    {
        if self.game.won && self.end_state.is_none() {
            self.trigger_victory();
        }
        if self.end_state.is_none() && !self.game.has_any_legal_move() {
            self.stop_all_to_temple();
            self.game.zeus_vision();
            self.game.temple_gold = 0;
            self.end_state = Some(EndState::Stalemate);
            self.status = "Zeus demands obeisance! Only surrender remains.".to_owned();
        }
    }

    /// Auto To Temple: sends one eligible card to a temple, the lowest
    /// first, and words the result.
    pub fn auto_foundation(&mut self)
        requires
            old(self).game.moves < usize::MAX,
            old(self).game.temple_gold < usize::MAX,
        ensures
            same_flags(*final(self), *old(self)),
            can_promote(old(self).game@) ==> auto_promoted(old(self).game@, final(self).game@)
                && final(self).status@ == "Moved one card to a foundation."@,
            !can_promote(old(self).game@) ==> final(self).game@ == old(self).game@
                && final(self).status@ == "No automatic foundation move available."@,
    {
        if self.game.auto_promote_lowest() {
            self.status = "Moved one card to a foundation.".to_owned();
        } else {
            self.status = "No automatic foundation move available.".to_owned();
        }
    }

    /// All To Temple: unless already running, clears the selection and
    /// sends a first eligible card to a temple; if that wins the game the
    /// game ends in victory, otherwise the march goes on, a card per step,
    /// until no temple move remains. Returns whether the action was taken.
    pub fn all_to_temple(&mut self) -> (handled: bool)
        requires
            old(self).game.moves < usize::MAX,
            old(self).game.temple_gold < usize::MAX,
        ensures
            old(self).all_to_temple_running ==> !handled && *final(self) == *old(self),
            !old(self).all_to_temple_running ==> handled && ({
                let v = with_selection(old(self).game@, None);
                if can_promote(v) {
                    &&& auto_promoted(v, final(self).game@)
                    &&& if final(self).game@.won {
                        ended_in_victory(*old(self), *final(self))
                    } else {
                        &&& final(self).all_to_temple_running
                        &&& final(self).status@ == "All available cards are marching to the temple."@
                        &&& final(self).end_state == old(self).end_state
                        &&& final(self).victory_gold_award == old(self).victory_gold_award
                        &&& final(self).help_expanded == old(self).help_expanded
                        &&& final(self).victory_rain_dismissed == old(self).victory_rain_dismissed
                        &&& final(self).just_dragged == old(self).just_dragged
                    }
                } else {
                    &&& final(self).game@ == v
                    &&& final(self).status@ == "No automatic temple moves available."@
                    &&& same_flags(*final(self), *old(self))
                }
            }),
    {
        if self.all_to_temple_running {
            return false;
        }
        self.game.clear_selection();
        if self.game.auto_promote_lowest() {
            if self.game.won {
                self.trigger_victory();
            } else {
                self.all_to_temple_running = true;
                self.status = "All available cards are marching to the temple.".to_owned();
            }
        } else {
            self.status = "No automatic temple moves available.".to_owned();
        }
        true
    }

    /// One step of All To Temple while it runs: sends the next eligible card
    /// to a temple, ending the game in victory if that wins it; with none
    /// left, the march stops. Returns whether the march was running.
    pub fn all_to_temple_step(&mut self) -> (handled: bool)
        requires
            old(self).game.moves < usize::MAX,
            old(self).game.temple_gold < usize::MAX,
        ensures
            !old(self).all_to_temple_running ==> !handled && *final(self) == *old(self),
            old(self).all_to_temple_running ==> handled && if can_promote(old(self).game@) {
                &&& auto_promoted(old(self).game@, final(self).game@)
                &&& if final(self).game@.won {
                    ended_in_victory(*old(self), *final(self))
                } else {
                    final(self).status == old(self).status && same_flags(*final(self), *old(self))
                }
            } else {
                &&& final(self).game@ == old(self).game@
                &&& !final(self).all_to_temple_running
                &&& final(self).status@ == "All possible cards have been moved to temple."@
                &&& final(self).end_state == old(self).end_state
                &&& final(self).victory_gold_award == old(self).victory_gold_award
                &&& final(self).help_expanded == old(self).help_expanded
                &&& final(self).victory_rain_dismissed == old(self).victory_rain_dismissed
                &&& final(self).just_dragged == old(self).just_dragged
            },
    {
        if !self.all_to_temple_running {
            return false;
        }
        if self.game.auto_promote_lowest() {
            if self.game.won {
                self.trigger_victory();
            }
        } else {
            self.stop_all_to_temple();
            self.status = "All possible cards have been moved to temple.".to_owned();
        }
        true
    }

    /// Undoes a cancelled drag: the selection returns to what it was before
    /// the press.
    pub fn cancel_drag(&mut self, selection_before: Option<Selection>)
        ensures
            final(self).game@ == with_selection(old(self).game@, selection_before),
            final(self).status == old(self).status,
            same_flags(*final(self), *old(self)),
    {
        self.game.selected = selection_before;
    }
}

/// Gold stored as `decimal` writes it is read back unchanged: what one
/// session saves, the next one starts with.
pub proof fn lemma_stored_gold_round_trip(gold: usize)
    ensures
        stored_gold(Some(decimal_seq(gold as nat))) == gold,
{
    lemma_decimal_digits(gold as nat);
    let s = decimal_seq(gold as nat);
    assert('0' <= s[0] <= '9');
}

/// A tap on a column with a selection changes the game and words the
/// result exactly as a drag dropped on that column does.
pub proof fn lemma_tap_agrees_with_drop(before: Session, after: Session, pile: usize)
    requires
        before.game.selected is Some,
        tableau_pile_tapped(before, after, pile),
    ensures
        after.game@ == dropped(before.game@, Some(DropTarget::Tableau(pile))).0,
        after.status@ == dropped(before.game@, Some(DropTarget::Tableau(pile))).2,
{
}

} // verus!
