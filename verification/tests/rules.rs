use solitare::deck::{fallback_seed, full_deck, shuffle_deck, ClockReading};
use solitare::game::{
    Card, GameState, Selection, Suit, TableauCard, EASY_DRAW_COUNT, HARD_DRAW_COUNT,
};
use solitare::text::decimal;

fn clock() -> ClockReading {
    let since = std::time::SystemTime::now().duration_since(std::time::UNIX_EPOCH);
    ClockReading::System(since.ok().map(|d| d.as_nanos()))
}

fn c(rank: u8, suit: Suit) -> Card {
    Card { rank, suit }
}

fn up(card: Card) -> TableauCard {
    TableauCard {
        card,
        face_up: true,
        zeus_revealed: false,
    }
}

fn down(card: Card) -> TableauCard {
    TableauCard {
        card,
        face_up: false,
        zeus_revealed: false,
    }
}

/// Every card of a game, sorted, for comparing what a game holds.
fn all_cards(game: &GameState) -> Vec<(u8, u8)> {
    let mut cards: Vec<Card> = Vec::new();
    cards.extend(game.stock.iter().copied());
    cards.extend(game.waste.iter().copied());
    for pile in &game.foundations {
        cards.extend(pile.iter().copied());
    }
    for pile in &game.tableau {
        cards.extend(pile.iter().map(|t| t.card));
    }
    let mut keys: Vec<(u8, u8)> = cards
        .iter()
        .map(|card| {
            let suit = match card.suit {
                Suit::Clubs => 0,
                Suit::Diamonds => 1,
                Suit::Hearts => 2,
                Suit::Spades => 3,
            };
            (suit, card.rank)
        })
        .collect();
    keys.sort();
    keys
}

#[test]
fn suit_and_card_faces() {
    assert!(Suit::Hearts.is_red() && Suit::Diamonds.is_red());
    assert!(!Suit::Clubs.is_red() && !Suit::Spades.is_red());
    assert_eq!(Suit::Clubs.symbol(), "♣");
    assert_eq!(Suit::Diamonds.latin_name(), "GOLD");
    assert_eq!(Suit::Spades.latin_name(), "BACCHUS");
    assert_eq!(c(1, Suit::Clubs).rank_label(), "A");
    assert_eq!(c(10, Suit::Clubs).rank_label(), "10");
    assert_eq!(c(11, Suit::Clubs).rank_label(), "J");
    assert_eq!(c(13, Suit::Clubs).rank_label(), "K");
    assert_eq!(c(14, Suit::Clubs).rank_label(), "?");
    assert_eq!(c(1, Suit::Hearts).motif(), "LAUREL");
    assert_eq!(c(12, Suit::Hearts).motif(), "IVY");
    assert_eq!(c(5, Suit::Hearts).motif(), "CUPID");
    assert!(c(5, Suit::Diamonds).is_red());
}

#[test]
fn a_fresh_deck_holds_the_fifty_two_cards_once() {
    let deck = full_deck();
    assert_eq!(deck.len(), 52);
    assert_eq!(deck[0], c(1, Suit::Clubs));
    assert_eq!(deck[51], c(13, Suit::Spades));
    let mut seen = std::collections::HashSet::new();
    for card in &deck {
        assert!(seen.insert((card.rank, card.suit as u8)));
    }
}

#[test]
fn a_shuffle_permutes_the_deck() {
    let mut deck = full_deck();
    shuffle_deck(&mut deck, clock());
    let game = GameState::deal(deck, HARD_DRAW_COUNT);
    let ordered = GameState::deal(full_deck(), HARD_DRAW_COUNT);
    assert_eq!(all_cards(&game), all_cards(&ordered));
    // The chance that a shuffle of fifty-two cards leaves them in order
    // is one in 52!, so a deal from the shuffled deck differs.
    assert_ne!(game, ordered);
}

#[test]
fn dealing_lays_out_the_columns_from_the_top_of_the_deck() {
    let game = GameState::deal(full_deck(), 0);
    assert_eq!(game.draw_count, EASY_DRAW_COUNT);
    assert_eq!(game.tableau[0][0].card, c(13, Suit::Spades));
    assert!(game.tableau[0][0].face_up);
    assert_eq!(game.tableau[1][0].card, c(12, Suit::Spades));
    assert!(!game.tableau[1][0].face_up);
    assert_eq!(game.tableau[1][1].card, c(11, Suit::Spades));
    assert!(game.tableau[1][1].face_up);
    assert_eq!(game.stock.len(), 24);
    assert_eq!(game.stock[23], c(11, Suit::Diamonds));
    let hidden: usize = game
        .tableau
        .iter()
        .map(|p| p.iter().filter(|t| !t.face_up).count())
        .sum();
    assert_eq!(hidden, 21);
}

#[test]
fn a_new_game_holds_every_card_once() {
    let game = GameState::new_shuffled_with_draw_count(1, clock());
    let ordered = GameState::deal(full_deck(), 1);
    assert_eq!(all_cards(&game), all_cards(&ordered));
    assert_eq!(game.draw_count, 1);
    let hard = GameState::new_shuffled(clock());
    assert_eq!(hard.draw_count, HARD_DRAW_COUNT);
}

#[test]
fn the_draw_count_is_one_or_three() {
    let mut game = GameState::empty();
    game.set_draw_count(0);
    assert_eq!(game.draw_count, 1);
    game.set_draw_count(2);
    assert_eq!(game.draw_count, 3);
    game.set_draw_count(100);
    assert_eq!(game.draw_count, 3);
}

#[test]
fn moves_keep_every_card() {
    let mut game = GameState::new_shuffled(clock());
    let before = all_cards(&game);
    for turn in 0..60 {
        game.draw_or_recycle();
        game.select_waste();
        game.move_selected_to_any_foundation();
        game.select_waste();
        game.move_selected_to_tableau(turn % 7);
        for pile in 0..7 {
            let len = game.tableau[pile].len();
            if len > 0 && game.select_tableau(pile, len - 1) {
                game.move_selected_to_any_foundation();
                game.clear_selection();
            }
        }
        assert_eq!(all_cards(&game), before);
    }
    game.zeus_vision();
    assert_eq!(all_cards(&game), before);
}

#[test]
fn a_turned_over_waste_is_drawn_again_in_order() {
    let mut game = GameState::empty();
    game.set_draw_count(EASY_DRAW_COUNT);
    game.temple_gold = 5;
    game.stock = vec![c(1, Suit::Clubs), c(2, Suit::Clubs), c(3, Suit::Clubs)];
    for _ in 0..3 {
        game.draw_or_recycle();
    }
    let waste = game.waste.clone();
    assert_eq!(
        waste,
        vec![c(3, Suit::Clubs), c(2, Suit::Clubs), c(1, Suit::Clubs)]
    );
    game.draw_or_recycle();
    assert!(game.waste.is_empty());
    assert_eq!(game.temple_gold, 4);
    for _ in 0..3 {
        game.draw_or_recycle();
    }
    assert_eq!(game.waste, waste);
    assert_eq!(game.moves, 7);
}

#[test]
fn a_recycle_never_takes_gold_below_zero() {
    let mut game = GameState::empty();
    game.waste.push(c(2, Suit::Hearts));
    game.draw_or_recycle();
    assert_eq!(game.temple_gold, 0);
    assert_eq!(game.stock.len(), 1);
    assert_eq!(game.moves, 1);
}

#[test]
fn drawing_from_nothing_only_clears_the_selection() {
    let mut game = GameState::empty();
    game.selected = Some(Selection::Waste);
    game.draw_or_recycle();
    assert_eq!(game.selected, None);
    assert_eq!(game.moves, 0);
}

#[test]
fn selecting_twice_clears_the_selection() {
    let mut game = GameState::empty();
    game.waste.push(c(2, Suit::Hearts));
    assert!(game.select_waste());
    assert!(game.is_selected(Selection::Waste));
    assert_eq!(game.selected_card(), Some(c(2, Suit::Hearts)));
    assert!(game.select_waste());
    assert_eq!(game.selected, None);
    assert_eq!(game.selected_card(), None);
}

#[test]
fn a_second_zeus_vision_reveals_nothing() {
    let mut game = GameState::empty();
    game.tableau[5] = vec![down(c(3, Suit::Clubs)), up(c(2, Suit::Hearts))];
    game.selected = Some(Selection::Waste);
    assert_eq!(game.zeus_vision(), 1);
    assert_eq!(game.selected, None);
    let after = game.clone();
    assert_eq!(game.zeus_vision(), 0);
    assert_eq!(game, after);
}

#[test]
fn foundations_build_up_to_a_win() {
    let mut game = GameState::empty();
    for (pile, suit) in [Suit::Clubs, Suit::Diamonds, Suit::Hearts, Suit::Spades]
        .into_iter()
        .enumerate()
    {
        for rank in 1..=13 {
            game.waste.push(c(rank, suit));
            assert!(game.select_waste());
            assert!(game.move_selected_to_foundation(pile));
        }
    }
    assert!(game.won);
    assert_eq!(game.temple_gold, 52);
    assert_eq!(game.moves, 52);
}

#[test]
fn a_move_lands_on_the_first_foundation_that_takes_it() {
    let mut game = GameState::empty();
    game.foundations[0].push(c(1, Suit::Clubs));
    game.foundations[2].push(c(1, Suit::Hearts));
    game.waste.push(c(2, Suit::Hearts));
    game.select_waste();
    assert!(game.move_selected_to_any_foundation());
    assert_eq!(game.foundations[2].len(), 2);
    assert_eq!(game.temple_gold, 1);
}

#[test]
fn a_foundation_card_moved_back_earns_gold() {
    let mut game = GameState::empty();
    game.foundations[1].push(c(1, Suit::Spades));
    game.foundations[1].push(c(2, Suit::Spades));
    game.tableau[3].push(up(c(3, Suit::Hearts)));
    assert!(game.select_foundation(1));
    assert!(game.move_selected_to_tableau(3));
    assert_eq!(game.foundations[1].len(), 1);
    assert_eq!(game.tableau[3][1].card, c(2, Suit::Spades));
    assert_eq!(game.temple_gold, 1);
}

#[test]
fn a_foundation_card_never_moves_to_another_foundation() {
    let mut game = GameState::empty();
    game.foundations[1].push(c(1, Suit::Spades));
    assert!(game.select_foundation(1));
    assert!(!game.move_selected_to_foundation(0));
    assert!(game.foundations[0].is_empty());
}

#[test]
fn a_run_must_alternate_colours_and_descend() {
    let mut game = GameState::empty();
    game.tableau[0] = vec![up(c(9, Suit::Hearts)), up(c(8, Suit::Diamonds))];
    game.tableau[1] = vec![up(c(9, Suit::Hearts)), up(c(7, Suit::Clubs))];
    game.tableau[2] = vec![up(c(9, Suit::Hearts)), up(c(8, Suit::Clubs))];
    assert!(!game.can_select_tableau(0, 0));
    assert!(!game.can_select_tableau(1, 0));
    assert!(game.can_select_tableau(2, 0));
    assert!(game.can_select_tableau(2, 1));
    assert!(!game.can_select_tableau(2, 2));
    assert!(!game.can_select_tableau(7, 0));
    assert!(!game.select_tableau(0, 0));
}

#[test]
fn refused_moves_change_nothing() {
    let mut game = GameState::empty();
    game.waste.push(c(7, Suit::Clubs));
    game.tableau[0].push(up(c(9, Suit::Hearts)));
    game.select_waste();
    let before = game.clone();
    assert!(!game.move_selected_to_tableau(0));
    assert!(!game.move_selected_to_tableau(9));
    assert!(!game.move_selected_to_foundation(0));
    assert!(!game.move_selected_to_foundation(4));
    assert_eq!(game, before);
}

#[test]
fn decimal_text() {
    assert_eq!(decimal(0), "0");
    assert_eq!(decimal(9), "9");
    assert_eq!(decimal(10), "10");
    assert_eq!(decimal(4096), "4096");
    assert_eq!(decimal(usize::MAX), usize::MAX.to_string());
}

#[test]
fn a_fallback_seed_mixes_the_clock() {
    let a = fallback_seed(ClockReading::System(Some(1)));
    let b = fallback_seed(ClockReading::System(Some(2)));
    let none = fallback_seed(ClockReading::System(None));
    assert_ne!(a, b);
    let word: u64 = 0xD1B5_4A32_CAF0_0042;
    for (i, byte) in none.iter().enumerate() {
        let expected = (word.rotate_left(i as u32) as u8) ^ (i as u8).wrapping_mul(53);
        assert_eq!(*byte, expected);
    }
}

#[test]
fn a_browser_clock_seed_mixes_its_nanoseconds() {
    let nanos: u64 = 1_700_000_000_000 * 1_000_000;
    let seed = fallback_seed(ClockReading::Browser(nanos));
    for (i, byte) in seed.iter().enumerate() {
        let expected = (nanos.rotate_left(i as u32) as u8) ^ (i as u8).wrapping_mul(37);
        assert_eq!(*byte, expected);
    }
    assert_ne!(seed, fallback_seed(ClockReading::Browser(nanos + 1)));
}

#[test]
fn a_full_pass_and_a_turn_over_restore_the_stock() {
    for draw_count in [EASY_DRAW_COUNT, HARD_DRAW_COUNT] {
        let mut game = GameState::empty();
        game.set_draw_count(draw_count);
        game.temple_gold = 5;
        let stock = vec![
            c(1, Suit::Clubs),
            c(2, Suit::Hearts),
            c(3, Suit::Spades),
            c(4, Suit::Diamonds),
        ];
        game.stock = stock.clone();
        let turns = (stock.len() + draw_count - 1) / draw_count;
        for _ in 0..turns {
            game.draw_or_recycle();
        }
        assert!(game.stock.is_empty());
        game.draw_or_recycle();
        assert_eq!(game.stock, stock);
        assert!(game.waste.is_empty());
        assert_eq!(game.temple_gold, 4);
        assert_eq!(game.moves, turns + 1);
    }
}
