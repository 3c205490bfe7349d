//! Which cards fly when a move is made, and what shows beneath a card
//! that is away: the card-level half of card-flight planning. On-screen
//! geometry and timing stay with the caller; here a departure is whatever
//! value the caller measured for a card.

use crate::game::{Card, GameState, GameView, Suit, TableauCard, FOUNDATION_COUNT, TABLEAU_COUNT};
use crate::text::{decimal, decimal_seq};
use vstd::prelude::*;

verus! {

/// Why a card is flying: a normal move travels briskly, a rejected drop
/// settles back more gently.
#[derive(Clone, Copy, Debug, PartialEq, Eq, Structural)]
pub enum FlightKind {
    Travel,
    SettleBack,
}

/// A flight's duration in milliseconds: 220 to travel, 280 to settle back.
pub open spec fn flight_duration(kind: FlightKind) -> u32 {
    match kind {
        FlightKind::Travel => 220u32,
        FlightKind::SettleBack => 280u32,
    }
}

impl FlightKind {
    pub fn duration_ms(self) -> (r: u32)
        ensures
            r == flight_duration(self),
    {
        match self {
            FlightKind::Travel => 220,
            FlightKind::SettleBack => 280,
        }
    }

    /// A flight always lands: every hidden card reappears no later than
    /// its duration plus 100 ms.
    pub fn deadline_ms(self) -> (r: u32)
        ensures
            r == flight_duration(self) + 100,
    {
        self.duration_ms() + 100
    }
}

/// Where a face-up card sits: which pile, not its position within it.
#[derive(Clone, Copy, Debug, PartialEq, Eq, Structural)]
pub enum Slot {
    Waste,
    Foundation(usize),
    Tableau(usize),
}

/// The entry for the top card of a pile, if it has one.
pub open spec fn top_entry(p: Seq<Card>, slot: Slot) -> Seq<(Card, Slot)> {
    if p.len() == 0 {
        Seq::empty()
    } else {
        seq![(p.last(), slot)]
    }
}

/// The top cards of the first `k` foundations, in pile order.
pub open spec fn foundation_entries(f: Seq<Seq<Card>>, k: int) -> Seq<(Card, Slot)>
    decreases k,
{
    if k <= 0 {
        Seq::empty()
    } else {
        foundation_entries(f, k - 1) + top_entry(f[k - 1], Slot::Foundation((k - 1) as usize))
    }
}

/// The face-up cards of a column, bottom first.
pub open spec fn column_entries(p: Seq<crate::game::TableauCard>, pile: int) -> Seq<(Card, Slot)>
    decreases p.len(),
{
    if p.len() == 0 {
        Seq::empty()
    } else {
        column_entries(p.drop_last(), pile) + if p.last().face_up {
            seq![(p.last().card, Slot::Tableau(pile as usize))]
        } else {
            Seq::empty()
        }
    }
}

/// The face-up cards of the first `k` columns, column by column.
pub open spec fn tableau_entries(t: Seq<Seq<crate::game::TableauCard>>, k: int) -> Seq<(Card, Slot)>
    decreases k,
{
    if k <= 0 {
        Seq::empty()
    } else {
        tableau_entries(t, k - 1) + column_entries(t[k - 1], k - 1)
    }
}

/// Every visible card and its pile: the waste top, each foundation's top,
/// then every face-up tableau card, column by column, bottom first.
pub open spec fn snapshot_of(v: GameView) -> Seq<(Card, Slot)> {
    top_entry(v.waste, Slot::Waste) + foundation_entries(v.foundations, 4) + tableau_entries(
        v.tableau,
        7,
    )
}

/// `e` is a card the player can see, with the pile it sits in: the waste
/// top, a foundation's top, or a face-up card of a column.
pub open spec fn visible_entry(v: GameView, e: (Card, Slot)) -> bool {
    ||| v.waste.len() > 0 && e == (v.waste[v.waste.len() - 1], Slot::Waste)
    ||| exists|i: int|
        0 <= i < FOUNDATION_COUNT && v.foundations[i].len() > 0 && e == (
            #[trigger] v.foundations[i][v.foundations[i].len() - 1],
            Slot::Foundation(i as usize),
        )
    ||| exists|p: int, j: int|
        0 <= p < TABLEAU_COUNT && 0 <= j < v.tableau[p].len() && (#[trigger] v.tableau[p][j]).face_up
            && e == (v.tableau[p][j].card, Slot::Tableau(p as usize))
}

proof fn lemma_concat_contains<A>(a: Seq<A>, b: Seq<A>, x: A)
    ensures
        (a + b).contains(x) <==> (a.contains(x) || b.contains(x)),
{
    if a.contains(x) {
        let i = choose|i: int| 0 <= i < a.len() && a[i] == x;
        assert((a + b)[i] == x);
    }
    if b.contains(x) {
        let i = choose|i: int| 0 <= i < b.len() && b[i] == x;
        assert((a + b)[a.len() + i] == x);
    }
    if (a + b).contains(x) {
        let i = choose|i: int| 0 <= i < (a + b).len() && (a + b)[i] == x;
        if i < a.len() {
            assert(a[i] == x);
        } else {
            assert(b[i - a.len()] == x);
        }
    }
}

proof fn lemma_foundation_entries_contain(f: Seq<Seq<Card>>, k: int, e: (Card, Slot))
    requires
        0 <= k <= FOUNDATION_COUNT,
    ensures
        foundation_entries(f, k).contains(e) <==> exists|i: int|
            0 <= i < k && f[i].len() > 0 && e == (#[trigger] f[i][f[i].len() - 1], Slot::Foundation(
                i as usize,
            )),
    decreases k,
{
    if k > 0 {
        lemma_foundation_entries_contain(f, k - 1, e);
        let top = top_entry(f[k - 1], Slot::Foundation((k - 1) as usize));
        lemma_concat_contains(foundation_entries(f, k - 1), top, e);
        if top.contains(e) {
            assert(f[k - 1].len() > 0 && e == top[0]);
            assert(f[k - 1][f[k - 1].len() - 1] == f[k - 1].last());
        }
        if exists|i: int|
            0 <= i < k && f[i].len() > 0 && e == (#[trigger] f[i][f[i].len() - 1], Slot::Foundation(
                i as usize,
            )) {
            let i = choose|i: int|
                0 <= i < k && f[i].len() > 0 && e == (#[trigger] f[i][f[i].len() - 1], Slot::Foundation(
                    i as usize,
                ));
            if i == k - 1 {
                assert(top[0] == e);
            }
        }
    } else {
        assert(foundation_entries(f, k) =~= Seq::<(Card, Slot)>::empty());
    }
}

proof fn lemma_column_entries_contain(p: Seq<TableauCard>, pile: int, e: (Card, Slot))
    ensures
        column_entries(p, pile).contains(e) <==> exists|j: int|
            0 <= j < p.len() && (#[trigger] p[j]).face_up && e == (p[j].card, Slot::Tableau(
                pile as usize,
            )),
    decreases p.len(),
{
    if p.len() > 0 {
        let q = p.drop_last();
        lemma_column_entries_contain(q, pile, e);
        let last: Seq<(Card, Slot)> = if p.last().face_up {
            seq![(p.last().card, Slot::Tableau(pile as usize))]
        } else {
            Seq::empty()
        };
        lemma_concat_contains(column_entries(q, pile), last, e);
        if last.contains(e) {
            assert(p[p.len() - 1] == p.last());
        }
        if exists|j: int|
            0 <= j < q.len() && (#[trigger] q[j]).face_up && e == (q[j].card, Slot::Tableau(
                pile as usize,
            )) {
            let j = choose|j: int|
                0 <= j < q.len() && (#[trigger] q[j]).face_up && e == (q[j].card, Slot::Tableau(
                    pile as usize,
                ));
            assert(p[j] == q[j]);
        }
        if exists|j: int|
            0 <= j < p.len() && (#[trigger] p[j]).face_up && e == (p[j].card, Slot::Tableau(
                pile as usize,
            )) {
            let j = choose|j: int|
                0 <= j < p.len() && (#[trigger] p[j]).face_up && e == (p[j].card, Slot::Tableau(
                    pile as usize,
                ));
            if j < q.len() {
                assert(q[j] == p[j]);
            } else {
                assert(last[0] == e);
            }
        }
    } else {
        assert(column_entries(p, pile) =~= Seq::<(Card, Slot)>::empty());
    }
}

proof fn lemma_tableau_entries_contain(t: Seq<Seq<TableauCard>>, k: int, e: (Card, Slot))
    requires
        0 <= k <= TABLEAU_COUNT,
    ensures
        tableau_entries(t, k).contains(e) <==> exists|p: int, j: int|
            0 <= p < k && 0 <= j < t[p].len() && (#[trigger] t[p][j]).face_up && e == (
                t[p][j].card,
                Slot::Tableau(p as usize),
            ),
    decreases k,
{
    if k > 0 {
        lemma_tableau_entries_contain(t, k - 1, e);
        lemma_column_entries_contain(t[k - 1], k - 1, e);
        lemma_concat_contains(tableau_entries(t, k - 1), column_entries(t[k - 1], k - 1), e);
        if exists|p: int, j: int|
            0 <= p < k && 0 <= j < t[p].len() && (#[trigger] t[p][j]).face_up && e == (
                t[p][j].card,
                Slot::Tableau(p as usize),
            ) {
            let (p, j) = choose|p: int, j: int|
                0 <= p < k && 0 <= j < t[p].len() && (#[trigger] t[p][j]).face_up && e == (
                    t[p][j].card,
                    Slot::Tableau(p as usize),
                );
            if p == k - 1 {
                assert(t[k - 1][j].face_up);
            }
        }
        if column_entries(t[k - 1], k - 1).contains(e) {
            let j = choose|j: int|
                0 <= j < t[k - 1].len() && (#[trigger] t[k - 1][j]).face_up && e == (
                    t[k - 1][j].card,
                    Slot::Tableau((k - 1) as usize),
                );
            assert(t[k - 1][j].face_up);
        }
    } else {
        assert(tableau_entries(t, k) =~= Seq::<(Card, Slot)>::empty());
    }
}

/// The snapshot lists exactly the cards the player can see, each with the
/// pile it sits in: the waste top, every foundation's top and every face-up
/// column card, and nothing else.
pub proof fn lemma_snapshot_lists_visible_cards(v: GameView, e: (Card, Slot))
    ensures
        snapshot_of(v).contains(e) <==> visible_entry(v, e),
{
    let w = top_entry(v.waste, Slot::Waste);
    let f = foundation_entries(v.foundations, 4);
    let t = tableau_entries(v.tableau, 7);
    lemma_concat_contains(w + f, t, e);
    lemma_concat_contains(w, f, e);
    lemma_foundation_entries_contain(v.foundations, 4, e);
    lemma_tableau_entries_contain(v.tableau, 7, e);
    if w.contains(e) {
        assert(w[0] == e);
        assert(v.waste[v.waste.len() - 1] == v.waste.last());
    }
    if v.waste.len() > 0 && e == (v.waste[v.waste.len() - 1], Slot::Waste) {
        assert(w[0] == e);
    }
}

/// Every face-up card's slot: the input a move's before/after diff reads.
pub fn snapshot(game: &GameState) -> (slots: Vec<(Card, Slot)>)
    ensures
        slots@ == snapshot_of(game@),
        forall|e: (Card, Slot)| #[trigger] slots@.contains(e) <==> visible_entry(game@, e),
{
    let mut slots: Vec<(Card, Slot)> = Vec::new();
    let n = game.waste.len();
    if n > 0 {
        slots.push((game.waste[n - 1], Slot::Waste));
    }
    assert(slots@ =~= top_entry(game@.waste, Slot::Waste));
    let ghost head = slots@;
    let mut pile: usize = 0;
    while pile < FOUNDATION_COUNT
        invariant
            pile <= FOUNDATION_COUNT,
            slots@ == head + foundation_entries(game@.foundations, pile as int),
        decreases FOUNDATION_COUNT - pile,
    {
        let len = game.foundations[pile].len();
        if len > 0 {
            slots.push((game.foundations[pile][len - 1], Slot::Foundation(pile)));
        }
        assert(slots@ =~= head + foundation_entries(game@.foundations, pile + 1));
        pile += 1;
    }
    let ghost head = slots@;
    let mut pile: usize = 0;
    while pile < TABLEAU_COUNT
        invariant
            pile <= TABLEAU_COUNT,
            slots@ == head + tableau_entries(game@.tableau, pile as int),
        decreases TABLEAU_COUNT - pile,
    {
        let cards = &game.tableau[pile];
        let ghost before = slots@;
        let mut i: usize = 0;
        while i < cards.len()
            invariant
                pile < TABLEAU_COUNT,
                cards@ == game@.tableau[pile as int],
                i <= cards@.len(),
                slots@ == before + column_entries(cards@.take(i as int), pile as int),
            decreases cards@.len() - i,
        {
            let tableau_card = cards[i];
            assert(cards@.take(i + 1).drop_last() =~= cards@.take(i as int));
            if tableau_card.face_up {
                slots.push((tableau_card.card, Slot::Tableau(pile)));
            }
            assert(slots@ =~= before + column_entries(cards@.take(i + 1), pile as int));
            i += 1;
        }
        assert(cards@.take(cards@.len() as int) =~= cards@);
        assert(slots@ =~= head + tableau_entries(game@.tableau, pile + 1));
        pile += 1;
    }
    assert(slots@ =~= snapshot_of(game@));
    assert forall|e: (Card, Slot)| #[trigger] slots@.contains(e) <==> visible_entry(game@, e) by {
        lemma_snapshot_lists_visible_cards(game@, e);
    }
    slots
}

/// The slot of the first entry for `card`, if any.
pub open spec fn first_slot(s: Seq<(Card, Slot)>, card: Card) -> Option<Slot>
    decreases s.len(),
{
    if s.len() == 0 {
        None
    } else if s[0].0 == card {
        Some(s[0].1)
    } else {
        first_slot(s.drop_first(), card)
    }
}

fn slot_of(snapshot: &Vec<(Card, Slot)>, card: Card) -> (r: Option<Slot>)
    ensures
        r == first_slot(snapshot@, card),
{
    assert(snapshot@.skip(0) =~= snapshot@);
    let mut i: usize = 0;
    while i < snapshot.len()
        invariant
            i <= snapshot@.len(),
            first_slot(snapshot@, card) == first_slot(snapshot@.skip(i as int), card),
        decreases snapshot@.len() - i,
    {
        let (c, slot) = snapshot[i];
        assert(snapshot@.skip(i as int)[0] == snapshot@[i as int]);
        if c == card {
            return Some(slot);
        }
        assert(snapshot@.skip(i as int).drop_first() =~= snapshot@.skip(i + 1));
        i += 1;
    }
    None
}

/// Whether the card of entry `e` sat in another pile before.
pub open spec fn relocated(before: Seq<(Card, Slot)>, e: (Card, Slot)) -> bool {
    match first_slot(before, e.0) {
        Some(previous) => previous != e.1,
        None => false,
    }
}

/// The cards of `after`, in order, whose slot differs from their first
/// slot in `before`.
pub open spec fn moved_of(before: Seq<(Card, Slot)>, after: Seq<(Card, Slot)>) -> Seq<Card>
    decreases after.len(),
{
    if after.len() == 0 {
        Seq::empty()
    } else {
        moved_of(before, after.drop_last()) + if relocated(before, after.last()) {
            seq![after.last().0]
        } else {
            Seq::empty()
        }
    }
}

/// Cards whose slot changed between two snapshots: relocated to another
/// pile, not merely re-fanned in place. A card absent from `before` (just
/// turned face up, or freshly dealt) does not count.
pub fn moved_cards(before: &Vec<(Card, Slot)>, after: &Vec<(Card, Slot)>) -> (r: Vec<Card>)
    ensures
        r@ == moved_of(before@, after@),
{
    let mut r: Vec<Card> = Vec::new();
    let mut i: usize = 0;
    while i < after.len()
        invariant
            i <= after@.len(),
            r@ == moved_of(before@, after@.take(i as int)),
        decreases after@.len() - i,
    {
        let (card, slot) = after[i];
        assert(after@.take(i + 1).drop_last() =~= after@.take(i as int));
        match slot_of(before, card) {
            Some(previous) => {
                if previous != slot {
                    r.push(card);
                }
            },
            None => {},
        }
        assert(r@ =~= moved_of(before@, after@.take(i + 1)));
        i += 1;
    }
    assert(after@.take(after@.len() as int) =~= after@);
    r
}

/// The value recorded for the first entry of `card`, if any.
pub open spec fn first_departure<R>(d: Seq<(Card, R)>, card: Card) -> Option<R>
    decreases d.len(),
{
    if d.len() == 0 {
        None
    } else if d[0].0 == card {
        Some(d[0].1)
    } else {
        first_departure(d.drop_first(), card)
    }
}

/// The cards of `cards`, in order, each paired with its first departure;
/// a card without one is left out.
pub open spec fn paired_departures<R>(cards: Seq<Card>, d: Seq<(Card, R)>) -> Seq<(Card, R)>
    decreases cards.len(),
{
    if cards.len() == 0 {
        Seq::empty()
    } else {
        paired_departures(cards.drop_last(), d) + match first_departure(d, cards.last()) {
            Some(r) => seq![(cards.last(), r)],
            None => Seq::empty(),
        }
    }
}

fn departure_of<R: Copy>(departures: &[(Card, R)], card: Card) -> (r: Option<R>)
    ensures
        r == first_departure(departures@, card),
{
    assert(departures@.skip(0) =~= departures@);
    let mut i: usize = 0;
    while i < departures.len()
        invariant
            i <= departures@.len(),
            first_departure(departures@, card) == first_departure(departures@.skip(i as int), card),
        decreases departures@.len() - i,
    {
        let (c, r) = departures[i];
        assert(departures@.skip(i as int)[0] == departures@[i as int]);
        if c == card {
            return Some(r);
        }
        assert(departures@.skip(i as int).drop_first() =~= departures@.skip(i + 1));
        i += 1;
    }
    None
}

/// Pairs each card with the departure captured for it: the cards that get
/// a flight, in order. A card whose departure could not be measured gets
/// none.
pub fn pair_departures<R: Copy>(cards: &[Card], departures: &[(Card, R)]) -> (r: Vec<(Card, R)>)
    ensures
        r@ == paired_departures(cards@, departures@),
{
    let mut r: Vec<(Card, R)> = Vec::new();
    let mut i: usize = 0;
    while i < cards.len()
        invariant
            i <= cards@.len(),
            r@ == paired_departures(cards@.take(i as int), departures@),
        decreases cards@.len() - i,
    {
        let card = cards[i];
        assert(cards@.take(i + 1).drop_last() =~= cards@.take(i as int));
        match departure_of(departures, card) {
            Some(rect) => {
                r.push((card, rect));
            },
            None => {},
        }
        assert(r@ =~= paired_departures(cards@.take(i + 1), departures@));
        i += 1;
    }
    assert(cards@.take(cards@.len() as int) =~= cards@);
    r
}

/// The flights a move plans: every card the snapshot diff calls moved that
/// has a captured departure, in snapshot order; none under reduced motion.
pub fn plan_flights_for_move<R: Copy>(
    before: &Vec<(Card, Slot)>,
    after: &Vec<(Card, Slot)>,
    departures: &[(Card, R)],
    reduced_motion: bool,
) -> (r: Vec<(Card, R)>)
    ensures
        r@ == if reduced_motion {
            Seq::empty()
        } else {
            paired_departures(moved_of(before@, after@), departures@)
        },
{
    if reduced_motion {
        return Vec::new();
    }
    let moved = moved_cards(before, after);
    pair_departures(moved.as_slice(), departures)
}

/// The flights a drag's release plans: every dragged card with a captured
/// departure flies from there.
pub fn plan_drag_flights<R: Copy>(dragged: &[Card], departures: &[(Card, R)]) -> (r: Vec<(Card, R)>)
    ensures
        r@ == paired_departures(dragged@, departures@),
{
    pair_departures(dragged, departures)
}

/// How a released drag's cards fly: on to where they landed, or back
/// where they came from.
pub fn release_flight_kind(moved: bool) -> (kind: FlightKind)
    ensures
        kind == if moved {
            FlightKind::Travel
        } else {
            FlightKind::SettleBack
        },
{
    if moved {
        FlightKind::Travel
    } else {
        FlightKind::SettleBack
    }
}

/// A draw's new waste top departs from the stock slot; nothing flies on a
/// turn-over (no new top) or under reduced motion.
pub fn plan_draw_flight<R: Copy>(new_top: Option<Card>, stock_slot: R, reduced_motion: bool) -> (r:
    Option<(Card, R)>)
    ensures
        r == if reduced_motion {
            None
        } else {
            match new_top {
                Some(card) => Some((card, stock_slot)),
                None => None,
            }
        },
{
    if reduced_motion {
        return None;
    }
    match new_top {
        Some(card) => Some((card, stock_slot)),
        None => None,
    }
}

/// A card in the air, as the underlay reads it: the card itself and the
/// cards that arrived silently beneath it in the same batch.
pub struct Airborne {
    pub card: Card,
    pub covers: Vec<Card>,
}

/// The first airborne entry for `card`, as its cover list.
pub open spec fn first_flight(flights: Seq<Airborne>, card: Card) -> Option<Seq<Card>>
    decreases flights.len(),
{
    if flights.len() == 0 {
        None
    } else if flights[0].card == card {
        Some(flights[0].covers@)
    } else {
        first_flight(flights.drop_first(), card)
    }
}

/// Whether some airborne card covers `card`.
pub open spec fn covered(flights: Seq<Airborne>, card: Card) -> bool {
    exists|i: int| 0 <= i < flights.len() && #[trigger] flights[i].covers@.contains(card)
}

/// The underlay among the lowest `index` cards of `pile`: walking down from
/// the top, a flying card is skipped with as many cards beneath it as it
/// covers (none at all shows if that runs past the bottom), a covered card
/// is skipped, and the first other card shows.
pub open spec fn underlay_from(pile: Seq<Card>, flights: Seq<Airborne>, index: int) -> Option<Card>
    decreases index,
{
    if index <= 0 {
        None
    } else {
        let i = index - 1;
        let candidate = pile[i];
        match first_flight(flights, candidate) {
            Some(covers) => if i < covers.len() {
                None
            } else {
                underlay_from(pile, flights, i - covers.len())
            },
            None => if covered(flights, candidate) {
                underlay_from(pile, flights, i)
            } else {
                Some(candidate)
            },
        }
    }
}

fn flight_for<'a>(flights: &'a [Airborne], card: Card) -> (r: Option<&'a Airborne>)
    ensures
        match first_flight(flights@, card) {
            Some(covers) => r is Some && r->0.card == card && r->0.covers@ == covers,
            None => r is None,
        },
{
    assert(flights@.skip(0) =~= flights@);
    let mut i: usize = 0;
    while i < flights.len()
        invariant
            i <= flights@.len(),
            first_flight(flights@, card) == first_flight(flights@.skip(i as int), card),
        decreases flights@.len() - i,
    {
        assert(flights@.skip(i as int)[0] == flights@[i as int]);
        if flights[i].card == card {
            return Some(&flights[i]);
        }
        assert(flights@.skip(i as int).drop_first() =~= flights@.skip(i + 1));
        i += 1;
    }
    None
}

fn contains_card(cards: &Vec<Card>, card: Card) -> (r: bool)
    ensures
        r == cards@.contains(card),
{
    let mut i: usize = 0;
    while i < cards.len()
        invariant
            i <= cards@.len(),
            forall|j: int| 0 <= j < i ==> cards@[j] != card,
        decreases cards@.len() - i,
    {
        if cards[i] == card {
            return true;
        }
        i += 1;
    }
    false
}

fn is_covered(flights: &[Airborne], card: Card) -> (r: bool)
    ensures
        r == covered(flights@, card),
{
    let mut i: usize = 0;
    while i < flights.len()
        invariant
            i <= flights@.len(),
            forall|j: int| 0 <= j < i ==> !(#[trigger] flights@[j].covers@.contains(card)),
        decreases flights@.len() - i,
    {
        if contains_card(&flights[i].covers, card) {
            return true;
        }
        i += 1;
    }
    false
}

/// The card an underlay shows beneath a pile's flying or lifted top: the
/// highest remaining card that is neither flying itself nor a silent
/// sibling of a flight yet to land. `pile` excludes the top card itself.
pub fn underlay_card(pile: &[Card], flights: &[Airborne]) -> (r: Option<Card>)
    ensures
        r == underlay_from(pile@, flights@, pile@.len() as int),
{
    let mut index = pile.len();
    while index > 0
        invariant
            index <= pile@.len(),
            underlay_from(pile@, flights@, pile@.len() as int) == underlay_from(
                pile@,
                flights@,
                index as int,
            ),
        decreases index,
    {
        index -= 1;
        let candidate = pile[index];
        match flight_for(flights, candidate) {
            Some(flight) => {
                let skip = flight.covers.len();
                if index < skip {
                    return None;
                }
                index -= skip;
                continue;
            },
            None => {},
        }
        if is_covered(flights, candidate) {
            continue;
        }
        return Some(candidate);
    }
    None
}

/// The letter naming a suit in a card key.
pub open spec fn suit_letter_of(s: Suit) -> char {
    match s {
        Suit::Clubs => 'C',
        Suit::Diamonds => 'D',
        Suit::Hearts => 'H',
        Suit::Spades => 'S',
    }
}

fn suit_letter(suit: Suit) -> (r: &'static str)
    ensures
        r@ == seq![suit_letter_of(suit)],
{
    proof {
        reveal_strlit("C");
        reveal_strlit("D");
        reveal_strlit("H");
        reveal_strlit("S");
    }
    match suit {
        Suit::Clubs => "C",
        Suit::Diamonds => "D",
        Suit::Hearts => "H",
        Suit::Spades => "S",
    }
}

/// A card's stable identity string: its rank in decimal, then its suit
/// letter ("7H", "10S").
pub fn card_key(card: Card) -> (r: String)
    ensures
        r@ == decimal_seq(card.rank as nat).push(suit_letter_of(card.suit)),
{
    let mut key = decimal(card.rank as usize);
    key.append(suit_letter(card.suit));
    key
}

} // verus!
