use solitare::deck::ClockReading;
use solitare::game::{
    Card, GameState, Suit, TableauCard, EASY_DRAW_COUNT, HARD_DRAW_COUNT,
};

fn clock() -> ClockReading {
    let since = std::time::SystemTime::now().duration_since(std::time::UNIX_EPOCH);
    ClockReading::System(since.ok().map(|d| d.as_nanos()))
}

fn c(rank: u8, suit: Suit) -> Card {
    Card { rank, suit }
}

#[test]
fn initial_deal_has_correct_counts() {
    let game = GameState::new_shuffled(clock());

    let tableau_total: usize = game.tableau.iter().map(Vec::len).sum();
    assert_eq!(tableau_total, 28);
    assert_eq!(game.stock.len(), 24);
    assert!(game.waste.is_empty());
    assert!(game.foundations.iter().all(Vec::is_empty));
    assert_eq!(tableau_total + game.stock.len(), 52);

    for (idx, pile) in game.tableau.iter().enumerate() {
        assert_eq!(pile.len(), idx + 1);
        assert!(pile.last().is_some_and(|top| top.face_up));
    }
}

#[test]
fn king_can_move_to_empty_tableau() {
    let mut game = GameState::empty();
    game.waste.push(c(13, Suit::Spades));

    assert!(game.select_waste());
    assert!(game.move_selected_to_tableau(0));

    assert!(game.waste.is_empty());
    assert_eq!(game.tableau[0].len(), 1);
    assert_eq!(game.tableau[0][0].card.rank, 13);
    assert!(game.selected.is_none());
}

#[test]
fn non_king_cannot_move_to_empty_tableau() {
    let mut game = GameState::empty();
    game.waste.push(c(10, Suit::Hearts));

    assert!(game.select_waste());
    assert!(!game.move_selected_to_tableau(0));

    assert_eq!(game.waste.len(), 1);
    assert!(game.tableau[0].is_empty());
}

#[test]
fn moving_tableau_run_flips_new_top() {
    let mut game = GameState::empty();
    game.tableau[0] = vec![
        TableauCard {
            card: c(9, Suit::Hearts),
            face_up: false,
            zeus_revealed: false,
        },
        TableauCard {
            card: c(8, Suit::Clubs),
            face_up: true,
            zeus_revealed: false,
        },
    ];
    game.tableau[1] = vec![TableauCard {
        card: c(9, Suit::Diamonds),
        face_up: true,
        zeus_revealed: false,
    }];

    assert!(game.select_tableau(0, 1));
    assert!(game.move_selected_to_tableau(1));

    assert_eq!(game.tableau[0].len(), 1);
    assert!(game.tableau[0][0].face_up);
    assert_eq!(game.tableau[1].len(), 2);
    assert_eq!(game.tableau[1][1].card.rank, 8);
}

#[test]
fn foundation_builds_by_suit() {
    let mut game = GameState::empty();

    game.waste.push(c(1, Suit::Hearts));
    assert!(game.select_waste());
    assert!(game.move_selected_to_foundation(0));

    game.waste.push(c(2, Suit::Hearts));
    assert!(game.select_waste());
    assert!(game.move_selected_to_foundation(0));

    game.waste.push(c(3, Suit::Spades));
    assert!(game.select_waste());
    assert!(!game.move_selected_to_foundation(0));

    assert_eq!(game.foundations[0].len(), 2);
    assert_eq!(game.foundations[0][0].rank, 1);
    assert_eq!(game.foundations[0][1].rank, 2);
}

#[test]
fn only_top_tableau_card_can_go_to_foundation() {
    let mut game = GameState::empty();
    game.foundations[0].push(c(1, Suit::Hearts));
    game.tableau[0] = vec![
        TableauCard {
            card: c(2, Suit::Hearts),
            face_up: true,
            zeus_revealed: false,
        },
        TableauCard {
            card: c(1, Suit::Clubs),
            face_up: true,
            zeus_revealed: false,
        },
    ];

    assert!(game.select_tableau(0, 0));
    assert!(!game.move_selected_to_foundation(0));

    assert!(game.select_tableau(0, 1));
    assert!(game.move_selected_to_foundation(1));
    assert_eq!(game.foundations[0].len(), 1);
    assert_eq!(game.foundations[1].len(), 1);
    assert_eq!(game.temple_gold, 1);
}

#[test]
fn tableau_to_tableau_move_awards_no_gold() {
    let mut game = GameState::empty();
    game.tableau[0] = vec![
        TableauCard {
            card: c(8, Suit::Clubs),
            face_up: true,
            zeus_revealed: false,
        },
        TableauCard {
            card: c(7, Suit::Hearts),
            face_up: true,
            zeus_revealed: false,
        },
    ];
    game.tableau[1] = vec![TableauCard {
        card: c(9, Suit::Diamonds),
        face_up: true,
        zeus_revealed: false,
    }];

    assert!(game.select_tableau(0, 0));
    assert!(game.move_selected_to_tableau(1));
    assert_eq!(game.temple_gold, 0);
}

#[test]
fn temple_gold_decreases_on_recycle() {
    let mut game = GameState::empty();
    game.temple_gold = 2;
    game.waste.push(c(4, Suit::Diamonds));
    game.waste.push(c(8, Suit::Spades));

    game.draw_or_recycle();

    assert_eq!(game.temple_gold, 1);
    assert_eq!(game.stock.len(), 2);
    assert!(game.waste.is_empty());
}

#[test]
fn hard_mode_draws_three_cards_from_stock() {
    let mut game = GameState::empty();
    game.stock = vec![
        c(1, Suit::Clubs),
        c(2, Suit::Clubs),
        c(3, Suit::Clubs),
        c(4, Suit::Clubs),
    ];

    game.draw_or_recycle();

    assert_eq!(game.draw_count, HARD_DRAW_COUNT);
    assert_eq!(game.stock.len(), 1);
    assert_eq!(game.waste.len(), 3);
    assert_eq!(game.moves, 1);
}

#[test]
fn easy_mode_draws_one_card_from_stock() {
    let mut game = GameState::empty();
    game.set_draw_count(EASY_DRAW_COUNT);
    game.stock = vec![c(1, Suit::Spades), c(2, Suit::Spades), c(3, Suit::Spades)];

    game.draw_or_recycle();

    assert_eq!(game.draw_count, EASY_DRAW_COUNT);
    assert_eq!(game.stock.len(), 2);
    assert_eq!(game.waste.len(), 1);
    assert_eq!(game.moves, 1);
}

#[test]
fn zeus_vision_reveals_all_hidden_tableau_cards() {
    let mut game = GameState::empty();
    game.tableau[0] = vec![
        TableauCard {
            card: c(4, Suit::Clubs),
            face_up: false,
            zeus_revealed: false,
        },
        TableauCard {
            card: c(3, Suit::Hearts),
            face_up: false,
            zeus_revealed: false,
        },
        TableauCard {
            card: c(2, Suit::Spades),
            face_up: true,
            zeus_revealed: false,
        },
    ];

    let revealed = game.zeus_vision();

    assert_eq!(revealed, 2);
    assert!(game.tableau[0].iter().all(|card| card.face_up));
    assert!(game.tableau[0][0].zeus_revealed);
    assert!(game.tableau[0][1].zeus_revealed);
    assert!(!game.tableau[0][2].zeus_revealed);
}
