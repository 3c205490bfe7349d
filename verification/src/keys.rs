//! The keyboard: which key plays which command.

use crate::text::chars_of;
use vstd::prelude::*;

verus! {

/// What a key press asks for.
#[derive(Clone, Copy, Debug, PartialEq, Eq, Structural)]
pub enum KeyCommand {
    DrawStock,
    AllToTemple,
    AutoFoundation,
}

/// The command a key plays: `d` or `D` draws, `a` or `A` sends every
/// eligible card to a temple, the space bar sends one, and Enter draws
/// unless a button has the focus (Enter then presses that button). Any
/// other key plays nothing.
pub open spec fn key_command_of(key: Seq<char>, button_focused: bool) -> Option<KeyCommand> {
    if key == seq!['d'] || key == seq!['D'] {
        Some(KeyCommand::DrawStock)
    } else if key == seq!['a'] || key == seq!['A'] {
        Some(KeyCommand::AllToTemple)
    } else if key == seq![' '] {
        Some(KeyCommand::AutoFoundation)
    } else if key == seq!['E', 'n', 't', 'e', 'r'] {
        if button_focused {
            None
        } else {
            Some(KeyCommand::DrawStock)
        }
    } else {
        None
    }
}

/// The command the key named `key` plays (`KeyboardEvent.key`).
pub fn key_command(key: &str, button_focused: bool) -> (r: Option<KeyCommand>)
    ensures
        r == key_command_of(key@, button_focused),
{
    let c = chars_of(key);
    let ghost k = key@;
    if c.len() == 1 {
        let ch = c[0];
        if ch == 'd' || ch == 'D' {
            assert(k =~= seq![ch]);
            Some(KeyCommand::DrawStock)
        } else if ch == 'a' || ch == 'A' {
            assert(k =~= seq![ch]);
            Some(KeyCommand::AllToTemple)
        } else if ch == ' ' {
            assert(k =~= seq![' ']);
            Some(KeyCommand::AutoFoundation)
        } else {
            assert(k != seq!['d'] && k != seq!['D'] && k != seq!['a'] && k != seq!['A'] && k
                != seq![' ']) by {
                assert(k[0] == ch);
            }
            None
        }
    } else if c.len() == 5 && c[0] == 'E' && c[1] == 'n' && c[2] == 't' && c[3] == 'e' && c[4]
        == 'r' {
        assert(k =~= seq!['E', 'n', 't', 'e', 'r']);
        if button_focused {
            None
        } else {
            Some(KeyCommand::DrawStock)
        }
    } else {
        assert(k != seq!['E', 'n', 't', 'e', 'r']) by {
            if c.len() == 5 {
                assert(k[0] == c[0] && k[1] == c[1] && k[2] == c[2] && k[3] == c[3] && k[4]
                    == c[4]);
            }
        }
        None
    }
}

} // verus!
