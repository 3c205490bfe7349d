use solitare::game::{Card, GameState, Selection, Suit, TableauCard};
use solitare::session::{EndState, Session};

fn c(rank: u8, suit: Suit) -> Card {
    Card { rank, suit }
}

fn up(card: Card) -> TableauCard {
    TableauCard {
        card,
        face_up: true,
        zeus_revealed: false,
    }
}

fn down(card: Card) -> TableauCard {
    TableauCard {
        card,
        face_up: false,
        zeus_revealed: false,
    }
}

#[test]
fn auto_promotion_moves_the_lowest_card_first() {
    let mut game = GameState::empty();
    game.foundations[0].push(c(1, Suit::Hearts));
    game.waste.push(c(2, Suit::Hearts));
    game.tableau[3] = vec![down(c(9, Suit::Clubs)), up(c(1, Suit::Spades))];

    assert!(game.auto_promote_lowest());
    assert_eq!(game.foundations[1], vec![c(1, Suit::Spades)]);
    assert_eq!(game.tableau[3], vec![up(c(9, Suit::Clubs))]);
    assert_eq!(game.waste.len(), 1);
    assert_eq!(game.temple_gold, 1);
    assert_eq!(game.moves, 1);
    assert_eq!(game.selected, None);

    assert!(game.auto_promote_lowest());
    assert_eq!(game.foundations[0], vec![c(1, Suit::Hearts), c(2, Suit::Hearts)]);
    assert!(game.waste.is_empty());
    assert_eq!(game.temple_gold, 2);

    assert!(!game.auto_promote_lowest());
}

#[test]
fn auto_promotion_prefers_the_waste_on_a_tie() {
    let mut game = GameState::empty();
    game.waste.push(c(1, Suit::Clubs));
    game.tableau[0] = vec![up(c(1, Suit::Diamonds))];

    assert!(game.auto_promote_lowest());
    assert_eq!(game.foundations[0], vec![c(1, Suit::Clubs)]);
    assert!(game.waste.is_empty());
    assert_eq!(game.tableau[0].len(), 1);
}

#[test]
fn auto_promotion_ignores_buried_and_face_down_cards() {
    let mut game = GameState::empty();
    game.tableau[0] = vec![up(c(1, Suit::Clubs)), up(c(13, Suit::Hearts))];
    game.tableau[1] = vec![down(c(1, Suit::Spades))];
    game.selected = Some(Selection::Tableau { pile: 0, index: 1 });
    let before = game.clone();

    assert!(!game.auto_promote_lowest());
    assert_eq!(game, before);
}

#[test]
fn a_board_with_a_draw_left_has_a_legal_move() {
    let mut game = GameState::empty();
    assert!(!game.has_any_legal_move());
    game.stock.push(c(5, Suit::Clubs));
    assert!(game.has_any_legal_move());
    game.stock.clear();
    game.waste.push(c(5, Suit::Clubs));
    assert!(game.has_any_legal_move());
}

#[test]
fn a_stuck_board_has_no_legal_move() {
    let mut game = GameState::empty();
    game.tableau[0] = vec![down(c(2, Suit::Clubs)), up(c(5, Suit::Spades))];
    game.foundations[0].push(c(1, Suit::Hearts));
    assert!(!game.has_any_legal_move());

    // A King may always move to an empty column.
    game.tableau[1] = vec![up(c(13, Suit::Hearts))];
    assert!(game.has_any_legal_move());
}

#[test]
fn a_foundation_card_that_fits_a_column_is_a_legal_move() {
    let mut game = GameState::empty();
    game.tableau[0] = vec![up(c(3, Suit::Spades))];
    for rank in 1..=2 {
        game.foundations[0].push(c(rank, Suit::Hearts));
    }
    assert!(game.has_any_legal_move());
}

#[test]
fn settling_a_stuck_game_ends_it_in_stalemate() {
    let mut game = GameState::empty();
    game.tableau[0] = vec![down(c(2, Suit::Clubs)), up(c(5, Suit::Spades))];
    game.temple_gold = 4;
    let mut session = Session::start(game);

    session.settle();

    assert_eq!(session.end_state, Some(EndState::Stalemate));
    assert!(session.end_state.unwrap().is_loss());
    assert_eq!(session.status, "Zeus demands obeisance! Only surrender remains.");
    assert_eq!(session.game.temple_gold, 0);
    assert!(session.game.tableau[0].iter().all(|card| card.face_up));
    assert!(session.game.tableau[0][0].zeus_revealed);

    assert!(session.repeat_ending());
    assert_eq!(session.status, "Zeus demands obeisance! Only surrender remains.");
}

#[test]
fn settling_a_playable_game_changes_nothing() {
    let mut game = GameState::empty();
    game.stock.push(c(5, Suit::Clubs));
    let mut session = Session::start(game);
    session.settle();
    assert_eq!(session.end_state, None);
    assert_eq!(session.status, solitare::session::WELCOME);
}

#[test]
fn auto_to_temple_words_what_happened() {
    let mut game = GameState::empty();
    game.waste.push(c(1, Suit::Diamonds));
    game.stock.push(c(7, Suit::Clubs));
    let mut session = Session::start(game);

    session.auto_foundation();
    assert_eq!(session.status, "Moved one card to a foundation.");
    assert_eq!(session.game.foundations[0], vec![c(1, Suit::Diamonds)]);

    session.auto_foundation();
    assert_eq!(session.status, "No automatic foundation move available.");
}

#[test]
fn all_to_temple_marches_until_nothing_is_left() {
    let mut game = GameState::empty();
    game.waste.push(c(2, Suit::Clubs));
    game.tableau[0] = vec![up(c(1, Suit::Clubs))];
    game.tableau[1] = vec![up(c(9, Suit::Hearts))];
    game.stock.push(c(7, Suit::Clubs));
    game.selected = Some(Selection::Tableau { pile: 1, index: 0 });
    let mut session = Session::start(game);

    assert!(session.all_to_temple());
    assert!(session.all_to_temple_running);
    assert_eq!(session.status, "All available cards are marching to the temple.");
    assert_eq!(session.game.foundations[0], vec![c(1, Suit::Clubs)]);
    assert!(!session.all_to_temple());

    assert!(session.all_to_temple_step());
    assert!(session.all_to_temple_running);
    assert_eq!(session.game.foundations[0], vec![c(1, Suit::Clubs), c(2, Suit::Clubs)]);

    assert!(session.all_to_temple_step());
    assert!(!session.all_to_temple_running);
    assert_eq!(session.status, "All possible cards have been moved to temple.");
    assert!(!session.all_to_temple_step());
    assert_eq!(session.game.temple_gold, 2);
}

#[test]
fn all_to_temple_with_nothing_to_move_says_so() {
    let mut game = GameState::empty();
    game.tableau[0] = vec![up(c(9, Suit::Hearts))];
    game.selected = Some(Selection::Tableau { pile: 0, index: 0 });
    let mut session = Session::start(game);

    assert!(session.all_to_temple());
    assert!(!session.all_to_temple_running);
    assert_eq!(session.status, "No automatic temple moves available.");
    assert_eq!(session.game.selected, None);
}

#[test]
fn all_to_temple_ends_in_victory_with_the_last_card() {
    let mut game = GameState::empty();
    let suits = [Suit::Clubs, Suit::Diamonds, Suit::Hearts, Suit::Spades];
    for (pile, suit) in suits.iter().enumerate() {
        for rank in 1..=13 {
            game.foundations[pile].push(c(rank, *suit));
        }
    }
    let king = game.foundations[3].pop().unwrap();
    game.waste.push(king);
    game.temple_gold = 51;
    let mut session = Session::start(game);

    assert!(session.all_to_temple());
    assert!(session.game.won);
    assert_eq!(session.end_state, Some(EndState::Victory));
    assert_eq!(session.victory_gold_award, 52);
    assert!(!session.all_to_temple_running);
    assert_eq!(session.status, "Dionysus honors you with 52 gold.");
}
