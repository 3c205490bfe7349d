//! How a tableau column fans out on screen: how many face-down and face-up
//! cards lie beneath each card.

use crate::game::{hidden_in, TableauCard};
use vstd::prelude::*;

verus! {

/// A card's face-down and face-up step counts within its column, counting
/// only the cards beneath it.
#[derive(Clone, Copy, Debug, PartialEq, Eq, Structural)]
pub struct CardSteps {
    pub down: usize,
    pub up: usize,
}

/// Per-card step counts for a column, and the counts for the whole pile:
/// those of its last card, or zero for an empty column.
#[derive(Clone, Debug, PartialEq, Eq)]
pub struct TableauFan {
    pub cards: Vec<CardSteps>,
    pub pile: CardSteps,
}

/// The steps beneath the card at position `i` of `pile`.
pub open spec fn steps_at(pile: Seq<TableauCard>, i: int) -> CardSteps {
    CardSteps {
        down: hidden_in(pile.take(i)) as usize,
        up: (i - hidden_in(pile.take(i))) as usize,
    }
}

proof fn lemma_hidden_step(p: Seq<TableauCard>, i: int)
    requires
        0 <= i < p.len(),
    ensures
        hidden_in(p.take(i + 1)) == hidden_in(p.take(i)) + if p[i].face_up {
            0nat
        } else {
            1nat
        },
        hidden_in(p.take(i)) <= i,
    decreases i,
{
    assert(p.take(i + 1).drop_last() =~= p.take(i));
    if i > 0 {
        lemma_hidden_step(p, i - 1);
    }
}

/// Step counts for every card of a column, bottom first.
pub fn fan_offsets(pile: &[TableauCard]) -> (fan: TableauFan)
    ensures
        fan.cards@.len() == pile@.len(),
        forall|i: int| 0 <= i < pile@.len() ==> #[trigger] fan.cards@[i] == steps_at(pile@, i),
        fan.pile == if pile@.len() == 0 {
            CardSteps { down: 0, up: 0 }
        } else {
            steps_at(pile@, pile@.len() - 1)
        },
{
    let mut down: usize = 0;
    let mut up: usize = 0;
    let mut cards: Vec<CardSteps> = Vec::new();
    let mut i: usize = 0;
    while i < pile.len()
        invariant
            i <= pile@.len(),
            cards@.len() == i,
            down == hidden_in(pile@.take(i as int)),
            down + up == i,
            forall|j: int| 0 <= j < i ==> #[trigger] cards@[j] == steps_at(pile@, j),
        decreases pile@.len() - i,
    {
        proof {
            lemma_hidden_step(pile@, i as int);
        }
        cards.push(CardSteps { down, up });
        if pile[i].face_up {
            up += 1;
        } else {
            down += 1;
        }
        i += 1;
    }
    let n = cards.len();
    let pile_steps = if n == 0 {
        CardSteps { down: 0, up: 0 }
    } else {
        cards[n - 1]
    };
    TableauFan { cards, pile: pile_steps }
}

} // verus!
