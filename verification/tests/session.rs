use solitare::deck::ClockReading;
use solitare::game::{Card, GameState, Selection, Suit, TableauCard, EASY_DRAW_COUNT};
use solitare::session::{
    DropTarget, EndState, Session, EMPTY_TABLEAU_NEEDS_KING, ILLEGAL_FOUNDATION_MOVE,
    ILLEGAL_TABLEAU_MOVE,
};

fn clock() -> ClockReading {
    let since = std::time::SystemTime::now().duration_since(std::time::UNIX_EPOCH);
    ClockReading::System(since.ok().map(|d| d.as_nanos()))
}

fn card(rank: u8, face_up: bool) -> TableauCard {
    TableauCard {
        card: Card {
            suit: Suit::Spades,
            rank,
        },
        face_up,
        zeus_revealed: false,
    }
}

fn spade(rank: u8) -> Card {
    Card {
        suit: Suit::Spades,
        rank,
    }
}

fn heart(rank: u8) -> Card {
    Card {
        suit: Suit::Hearts,
        rank,
    }
}

fn app_with(game: GameState) -> Session {
    let mut session = Session::start(game);
    session.status = String::new();
    session
}

#[test]
fn resolve_drop_onto_empty_tableau_column_requires_a_king() {
    let mut game = GameState::empty();
    game.waste.push(spade(5));
    game.selected = Some(Selection::Waste);
    let mut app = app_with(game);

    let outcome = app.resolve_drop(Some(DropTarget::Tableau(3)));

    assert!(!outcome.moved);
    assert_eq!(outcome.status, EMPTY_TABLEAU_NEEDS_KING);
}

#[test]
fn resolve_drop_rejects_a_mismatched_tableau_stack() {
    let mut game = GameState::empty();
    game.tableau[0].push(card(9, true));
    game.waste.push(spade(5));
    game.selected = Some(Selection::Waste);
    let mut app = app_with(game);

    let outcome = app.resolve_drop(Some(DropTarget::Tableau(0)));

    assert!(!outcome.moved);
    assert_eq!(outcome.status, ILLEGAL_TABLEAU_MOVE);
}

#[test]
fn click_tableau_pile_rejects_a_mismatched_tableau_stack() {
    let mut game = GameState::empty();
    game.tableau[0].push(card(9, true));
    game.waste.push(spade(5));
    game.selected = Some(Selection::Waste);
    let mut app = app_with(game);

    app.click_tableau_pile(0);

    assert_eq!(app.status, ILLEGAL_TABLEAU_MOVE);
    assert_eq!(app.game.tableau[0].len(), 1);
    assert_eq!(app.game.waste.len(), 1);
    assert_eq!(app.game.selected, Some(Selection::Waste));
}

#[test]
fn click_tableau_pile_onto_empty_column_requires_a_king() {
    let mut game = GameState::empty();
    game.waste.push(spade(5));
    game.selected = Some(Selection::Waste);
    let mut app = app_with(game);

    app.click_tableau_pile(3);

    assert_eq!(app.status, EMPTY_TABLEAU_NEEDS_KING);
    assert_eq!(app.game.waste.len(), 1);
}

#[test]
fn resolve_drop_places_a_legal_tableau_run_and_words_it_like_a_click() {
    let mut game = GameState::empty();
    game.tableau[1].push(TableauCard {
        card: heart(6),
        face_up: true,
        zeus_revealed: false,
    });
    game.waste.push(spade(5));
    game.selected = Some(Selection::Waste);
    let mut app = app_with(game);

    let outcome = app.resolve_drop(Some(DropTarget::Tableau(1)));

    assert!(outcome.moved);
    assert_eq!(outcome.status, "Moved cards to tableau column 2.");
}

#[test]
fn resolve_drop_rejects_a_non_ace_onto_an_empty_foundation() {
    let mut game = GameState::empty();
    game.waste.push(spade(5));
    game.selected = Some(Selection::Waste);
    let mut app = app_with(game);

    let outcome = app.resolve_drop(Some(DropTarget::Foundation(0)));

    assert!(!outcome.moved);
    assert_eq!(outcome.status, ILLEGAL_FOUNDATION_MOVE);
}

#[test]
fn resolve_drop_places_an_ace_and_words_it_like_a_click() {
    let mut game = GameState::empty();
    game.waste.push(spade(1));
    game.selected = Some(Selection::Waste);
    let mut app = app_with(game);

    let outcome = app.resolve_drop(Some(DropTarget::Foundation(0)));

    assert!(outcome.moved);
    assert_eq!(outcome.status, "Placed card on foundation 1.");
}

#[test]
fn resolve_drop_with_no_target_is_an_illegal_tableau_move() {
    let mut game = GameState::empty();
    game.waste.push(spade(5));
    game.selected = Some(Selection::Waste);
    let mut app = app_with(game);

    let outcome = app.resolve_drop(None);

    assert!(!outcome.moved);
    assert_eq!(outcome.status, ILLEGAL_TABLEAU_MOVE);
}

#[test]
fn cancel_release_restores_the_selection_and_settles_home() {
    let mut game = GameState::empty();
    game.waste.push(spade(5));
    game.selected = Some(Selection::Waste);
    let mut app = app_with(game);

    app.cancel_drag(None);

    assert_eq!(app.game.selected, None);
    assert_eq!(app.game.waste.len(), 1);
}

#[test]
fn lift_drag_retires_the_dragged_cards_flight_and_selects_the_origin() {
    let mut game = GameState::empty();
    game.tableau[0].push(TableauCard {
        card: spade(5),
        face_up: true,
        zeus_revealed: false,
    });
    let mut app = app_with(game);
    let origin = Selection::Tableau { pile: 0, index: 0 };

    let dragged = app.lift_drag(origin);

    assert_eq!(dragged, vec![spade(5)]);
    assert_eq!(app.game.selected, Some(origin));
}

#[test]
fn lift_drag_keeps_an_already_selected_origin_selected() {
    let mut game = GameState::empty();
    game.waste.push(spade(5));
    game.selected = Some(Selection::Waste);
    let mut app = app_with(game);

    app.lift_drag(Selection::Waste);

    assert_eq!(app.game.selected, Some(Selection::Waste));
}

#[test]
fn reset_for_new_game_clears_flights_in_the_air() {
    // Flights in the air belong to the front end, which drops them itself;
    // what the session resets is checked here.
    let mut app = app_with(GameState::empty());
    app.end_state = Some(EndState::ZeusThunder);
    app.all_to_temple_running = true;

    let mut dealt = GameState::empty();
    dealt.stock.push(spade(3));
    app.reset_for_new_game(dealt, 0);

    assert_eq!(app.end_state, None);
    assert!(!app.all_to_temple_running);
    assert_eq!(app.game.stock, vec![spade(3)]);
    assert_eq!(app.status, "You gave up. A fresh deck has been dealt.");
}

#[test]
fn recycle_status_clears_flights_in_the_air() {
    // Flights in the air belong to the front end, which drops them itself;
    // the wording of the turn-over is checked here.
    let app = app_with(GameState::empty());

    let status = app.recycle_status(0);

    assert_eq!(status, "Recycled waste back into stock.");
}

#[test]
fn recycle_status_names_the_gold_collected() {
    let mut game = GameState::empty();
    game.temple_gold = 4;
    let app = app_with(game);

    assert_eq!(
        app.recycle_status(5),
        "Recycled waste back into stock. Temple collected 1 gold."
    );
}

#[test]
fn click_tableau_pile_without_selection_selects_the_top_card() {
    let mut game = GameState::empty();
    game.tableau[2].push(card(4, false));
    game.tableau[2].push(TableauCard {
        card: heart(12),
        face_up: true,
        zeus_revealed: false,
    });
    let mut app = app_with(game);

    app.click_tableau_pile(2);

    assert_eq!(
        app.game.selected,
        Some(Selection::Tableau { pile: 2, index: 1 })
    );
    assert_eq!(app.status, "Selected top card Q♥.");
}

#[test]
fn click_waste_selects_and_clears() {
    let mut game = GameState::empty();
    game.waste.push(heart(1));
    let mut app = app_with(game);

    assert!(app.click_waste());
    assert_eq!(app.status, "Selected waste card A♥.");
    assert!(app.click_waste());
    assert_eq!(app.status, "Selection cleared.");
    assert_eq!(app.game.selected, None);
}

#[test]
fn click_waste_on_an_empty_waste() {
    let mut app = app_with(GameState::empty());
    assert!(app.click_waste());
    assert_eq!(app.status, "Waste pile is empty.");
}

#[test]
fn a_click_right_after_a_drag_is_ignored() {
    let mut game = GameState::empty();
    game.waste.push(heart(1));
    let mut app = app_with(game);
    app.just_dragged = true;

    assert!(!app.click_waste());
    assert!(!app.double_click_waste());
    assert!(!app.click_foundation(0));
    assert!(!app.click_tableau_card(0, 0));
    assert!(!app.double_click_tableau_card(0, 0));
    assert!(!app.tap_tableau_pile(0));
    assert_eq!(app.game.selected, None);
    assert_eq!(app.status, "");
}

#[test]
fn double_click_waste_sends_an_ace_to_a_temple() {
    let mut game = GameState::empty();
    game.waste.push(heart(1));
    let mut app = app_with(game);

    assert!(app.double_click_waste());

    assert_eq!(app.status, "Moved waste card to a foundation.");
    assert_eq!(app.game.foundations[0], vec![heart(1)]);
    assert_eq!(app.game.temple_gold, 1);
}

#[test]
fn double_click_waste_without_a_home_clears_the_selection() {
    let mut game = GameState::empty();
    game.waste.push(heart(5));
    let mut app = app_with(game);

    assert!(app.double_click_waste());

    assert_eq!(app.status, "Waste card cannot move to any foundation yet.");
    assert_eq!(app.game.selected, None);
    assert_eq!(app.game.waste.len(), 1);
}

#[test]
fn click_foundation_picks_up_its_top_card() {
    let mut game = GameState::empty();
    game.foundations[1].push(spade(1));
    let mut app = app_with(game);

    assert!(app.click_foundation(1));

    assert_eq!(app.game.selected, Some(Selection::Foundation { pile: 1 }));
    assert_eq!(app.status, "Selected foundation card A♠ to move back.");
}

#[test]
fn click_foundation_on_an_empty_pile_names_it() {
    let mut app = app_with(GameState::empty());

    assert!(app.click_foundation(2));

    assert_eq!(app.status, "Foundation 3 is empty.");
}

#[test]
fn click_foundation_with_a_selection_moves_it_there() {
    let mut game = GameState::empty();
    game.waste.push(spade(1));
    game.selected = Some(Selection::Waste);
    let mut app = app_with(game);

    assert!(app.click_foundation(3));

    assert_eq!(app.status, "Placed card on foundation 4.");
    assert_eq!(app.game.foundations[3], vec![spade(1)]);
}

#[test]
fn click_tableau_card_selects_a_run() {
    let mut game = GameState::empty();
    game.tableau[4].push(card(9, true));
    game.tableau[4].push(TableauCard {
        card: heart(8),
        face_up: true,
        zeus_revealed: false,
    });
    let mut app = app_with(game);

    assert!(app.click_tableau_card(4, 0));

    assert_eq!(
        app.game.selected,
        Some(Selection::Tableau { pile: 4, index: 0 })
    );
    assert_eq!(app.status, "Selected tableau run starting at 9♠.");
}

#[test]
fn click_tableau_card_on_a_hidden_card_is_blocked() {
    let mut game = GameState::empty();
    game.tableau[4].push(card(9, false));
    let mut app = app_with(game);

    assert!(app.click_tableau_card(4, 0));

    assert_eq!(app.status, "That card is blocked by game rules.");
    assert_eq!(app.game.selected, None);
}

#[test]
fn double_click_tableau_card_sends_an_ace_home() {
    let mut game = GameState::empty();
    game.tableau[0].push(card(1, true));
    let mut app = app_with(game);

    assert!(app.double_click_tableau_card(0, 0));

    assert_eq!(app.status, "Moved top tableau card to a foundation.");
    assert!(app.game.tableau[0].is_empty());
    assert_eq!(app.game.foundations[0], vec![spade(1)]);
}

#[test]
fn double_click_tableau_card_on_a_hidden_card_is_refused() {
    let mut game = GameState::empty();
    game.tableau[0].push(card(1, false));
    let mut app = app_with(game);

    assert!(app.double_click_tableau_card(0, 0));

    assert_eq!(app.status, "Only exposed cards can jump to foundations.");
}

#[test]
fn drawing_words_how_many_cards_came() {
    let mut game = GameState::empty();
    game.stock = vec![spade(1), spade(2), spade(3), spade(4)];
    let mut app = app_with(game);

    let outcome = app.draw_from_stock();

    assert!(outcome.had_stock);
    assert_eq!(outcome.drawn, 3);
    assert_eq!(app.status, "Drew 3 cards to the waste pile.");
    assert_eq!(app.draw_covers(outcome.drawn), vec![spade(4), spade(3)]);
}

#[test]
fn drawing_one_card_is_singular() {
    let mut game = GameState::empty();
    game.set_draw_count(EASY_DRAW_COUNT);
    game.stock = vec![spade(1), spade(2)];
    let mut app = app_with(game);

    let outcome = app.draw_from_stock();

    assert_eq!(outcome.drawn, 1);
    assert_eq!(app.status, "Drew 1 card to the waste pile.");
    assert!(app.draw_covers(outcome.drawn).is_empty());
}

#[test]
fn running_out_of_gold_on_a_recycle_ends_the_game() {
    let mut game = GameState::empty();
    game.temple_gold = 1;
    game.waste.push(spade(4));
    game.tableau[0].push(card(9, false));
    let mut app = app_with(game);

    let outcome = app.draw_from_stock();

    assert!(!outcome.had_stock);
    assert!(outcome.had_waste);
    assert_eq!(app.end_state, Some(EndState::OutOfGold));
    assert_eq!(
        app.status,
        "Temple Gold has run out. You lose. Final vision reveals all cards."
    );
    assert!(app.game.tableau[0][0].face_up);
    assert!(app.game.tableau[0][0].zeus_revealed);
}

#[test]
fn recycling_with_gold_left_words_the_cost() {
    let mut game = GameState::empty();
    game.temple_gold = 3;
    game.waste.push(spade(4));
    let mut app = app_with(game);

    app.draw_from_stock();

    assert_eq!(app.end_state, None);
    assert_eq!(app.game.temple_gold, 2);
    assert_eq!(
        app.status,
        "Recycled waste back into stock. Temple collected 1 gold."
    );
}

#[test]
fn nothing_to_draw_is_worded() {
    let mut app = app_with(GameState::empty());

    let outcome = app.draw_from_stock();

    assert!(!outcome.had_stock && !outcome.had_waste);
    assert_eq!(app.status, "No cards available to draw.");
}

#[test]
fn zeus_vision_ends_the_game_and_takes_the_gold() {
    let mut game = GameState::empty();
    game.temple_gold = 7;
    game.tableau[3].push(card(2, false));
    let mut app = app_with(game);

    app.call_zeus_vision();

    assert_eq!(app.end_state, Some(EndState::ZeusThunder));
    assert_eq!(app.game.temple_gold, 0);
    assert!(app.game.tableau[3][0].face_up);
    assert_eq!(app.status, "Zeus' Thunder is heard");
    assert!(app.interactions_locked());
    assert!(app.repeat_ending());
    assert_eq!(app.status, "Zeus' Thunder is heard");
}

#[test]
fn switching_the_draw_mode_alternates() {
    let mut app = app_with(GameState::empty());

    assert!(app.switch_draw_mode());
    assert_eq!(app.game.draw_count, 1);
    assert_eq!(app.status, "Easy mode: draw 1 card from stock.");

    assert!(app.switch_draw_mode());
    assert_eq!(app.game.draw_count, 3);
    assert_eq!(app.status, "Hard mode: draw 3 cards from stock.");
}

#[test]
fn the_draw_mode_stays_after_the_first_move() {
    let mut game = GameState::empty();
    game.moves = 1;
    let mut app = app_with(game);
    let status = app.status.clone();

    assert!(!app.switch_draw_mode());
    assert_eq!(app.game.draw_count, 3);
    assert_eq!(app.status, status);

    app.game.moves = 0;
    app.end_state = Some(EndState::ZeusThunder);
    assert!(!app.switch_draw_mode());
    app.end_state = None;
    app.all_to_temple_running = true;
    assert!(!app.switch_draw_mode());
    assert_eq!(app.game.draw_count, 3);
}

#[test]
fn help_toggles() {
    let mut app = app_with(GameState::empty());

    app.toggle_help();
    assert!(app.help_expanded);
    assert_eq!(app.status, "Help expanded.");
    app.toggle_help();
    assert!(!app.help_expanded);
    assert_eq!(app.status, "Help minimized.");
}

#[test]
fn a_win_is_rewarded_once() {
    let mut game = GameState::empty();
    game.won = true;
    game.temple_gold = 52;
    let mut app = app_with(game);

    app.settle();

    assert_eq!(app.end_state, Some(EndState::Victory));
    assert_eq!(app.victory_gold_award, 52);
    assert_eq!(app.status, "Dionysus honors you with 52 gold.");
    assert!(!EndState::Victory.is_loss());
    assert!(EndState::Stalemate.is_loss());
    assert!(EndState::OutOfGold.is_loss());
    assert!(EndState::ZeusThunder.is_loss());

    assert!(app.dismiss_victory_rain());
    assert!(!app.dismiss_victory_rain());
}

#[test]
fn a_new_game_after_a_win_keeps_the_gold() {
    let mut game = GameState::empty();
    game.temple_gold = 30;
    let mut app = app_with(game);
    app.end_state = Some(EndState::Victory);

    app.new_game(clock());

    assert_eq!(app.game.temple_gold, 30);
    assert_eq!(app.end_state, None);
    assert_eq!(app.game.stock.len(), 24);

    app.end_state = Some(EndState::OutOfGold);
    app.game.temple_gold = 12;
    app.new_game(clock());
    assert_eq!(app.game.temple_gold, 0);
}

#[test]
fn a_refused_drop_restores_the_earlier_selection() {
    let mut game = GameState::empty();
    game.waste.push(spade(5));
    game.selected = Some(Selection::Waste);
    let mut app = app_with(game);

    let moved = app.finish_drop(Some(DropTarget::Foundation(0)), None);

    assert!(!moved);
    assert!(app.just_dragged);
    assert_eq!(app.game.selected, None);
    assert_eq!(app.status, ILLEGAL_FOUNDATION_MOVE);
}

#[test]
fn stored_gold_is_read_back() {
    assert_eq!(solitare::session::temple_gold_from_stored(Some("42".to_string())), 42);
    assert_eq!(solitare::session::temple_gold_from_stored(Some("+7".to_string())), 7);
    assert_eq!(solitare::session::temple_gold_from_stored(Some("-1".to_string())), 0);
    assert_eq!(solitare::session::temple_gold_from_stored(Some("gold".to_string())), 0);
    assert_eq!(solitare::session::temple_gold_from_stored(None), 0);
}

#[test]
fn stored_gold_round_trips_through_its_decimal_text() {
    for gold in [0usize, 7, 10, 4096, usize::MAX] {
        let written = solitare::text::decimal(gold);
        assert_eq!(solitare::session::temple_gold_from_stored(Some(written)), gold);
    }
    let too_big = format!("{}0", usize::MAX);
    assert_eq!(solitare::session::temple_gold_from_stored(Some(too_big)), 0);
    assert_eq!(solitare::session::temple_gold_from_stored(Some(String::new())), 0);
    assert_eq!(solitare::session::temple_gold_from_stored(Some(" 5".to_string())), 0);
    assert_eq!(solitare::session::temple_gold_from_stored(Some("+".to_string())), 0);
    assert_eq!(solitare::session::temple_gold_from_stored(Some("0012".to_string())), 12);
    assert_eq!(solitare::session::temple_gold_from_stored(Some("1_000".to_string())), 0);
}

#[test]
fn describe_card_pairs_label_and_symbol() {
    assert_eq!(Session::describe_card(heart(10)), "10♥");
    assert_eq!(Session::describe_card(spade(13)), "K♠");
}
