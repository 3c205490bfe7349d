use solitare::keys::{key_command, KeyCommand};

#[test]
fn letter_keys_draw_and_march() {
    assert_eq!(key_command("d", false), Some(KeyCommand::DrawStock));
    assert_eq!(key_command("D", true), Some(KeyCommand::DrawStock));
    assert_eq!(key_command("a", false), Some(KeyCommand::AllToTemple));
    assert_eq!(key_command("A", false), Some(KeyCommand::AllToTemple));
    assert_eq!(key_command(" ", false), Some(KeyCommand::AutoFoundation));
}

#[test]
fn enter_draws_unless_a_button_has_the_focus() {
    assert_eq!(key_command("Enter", false), Some(KeyCommand::DrawStock));
    assert_eq!(key_command("Enter", true), None);
}

#[test]
fn other_keys_play_nothing() {
    assert_eq!(key_command("x", false), None);
    assert_eq!(key_command("dd", false), None);
    assert_eq!(key_command("", false), None);
    assert_eq!(key_command("enter", false), None);
    assert_eq!(key_command("Escape", false), None);
    assert_eq!(key_command("é", false), None);
}
