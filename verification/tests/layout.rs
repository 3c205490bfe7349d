use solitare::game::{Card, Suit, TableauCard};
use solitare::layout::{fan_offsets, CardSteps};

fn card(rank: u8, face_up: bool) -> TableauCard {
    TableauCard {
        card: Card {
            suit: Suit::Spades,
            rank,
        },
        face_up,
        zeus_revealed: false,
    }
}

fn mixed_pile() -> Vec<TableauCard> {
    vec![
        card(1, false),
        card(2, false),
        card(3, true),
        card(4, true),
        card(5, true),
    ]
}

#[test]
fn fan_offsets_counts_cards_below_each_card() {
    let fan = fan_offsets(&mixed_pile());

    assert_eq!(
        fan.cards,
        vec![
            CardSteps { down: 0, up: 0 },
            CardSteps { down: 1, up: 0 },
            CardSteps { down: 2, up: 0 },
            CardSteps { down: 2, up: 1 },
            CardSteps { down: 2, up: 2 },
        ]
    );
}

#[test]
fn fan_offsets_pile_matches_last_card() {
    let fan = fan_offsets(&mixed_pile());

    assert_eq!(fan.pile, CardSteps { down: 2, up: 2 });
}

#[test]
fn fan_offsets_empty_column_has_zero_steps() {
    let pile: Vec<TableauCard> = vec![];

    let fan = fan_offsets(&pile);

    assert!(fan.cards.is_empty());
    assert_eq!(fan.pile, CardSteps { down: 0, up: 0 });
}

#[test]
fn fan_offsets_counts_a_face_down_card_above_face_up_ones() {
    let pile = vec![card(1, true), card(2, false), card(3, true)];

    let fan = fan_offsets(&pile);

    assert_eq!(fan.cards[2], CardSteps { down: 1, up: 1 });
}
