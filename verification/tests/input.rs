use ghost_shell::input::state::InputState;
use ghost_shell::input::text::{floor_boundary, from_utf16, normalize, to_utf16};
use ghost_shell::input::{InputContentType, InputEvent};

#[test]
fn utf16_offsets_and_grapheme_boundaries() {
    let text = "a👩‍💻e\u{301}";
    assert_eq!(from_utf16(text, 1), 1);
    assert_eq!(from_utf16(text, 6), "a👩‍💻".len());
    assert_eq!(to_utf16(text, "a👩‍💻".len()), 6);
    assert_eq!(floor_boundary(text, 5), 1);
    assert_eq!(from_utf16(text, usize::MAX), text.len());
    assert_eq!(normalize("a\r\nb\tc\u{2028}"), "a  b c ");
}

#[test]
fn editing_uses_graphemes_and_restores_history() {
    let mut input = InputState::new();
    input.set_value("a👩‍💻e\u{301}");
    input.backspace();
    assert_eq!(input.value(), "a👩‍💻");
    input.backspace();
    assert_eq!(input.value(), "a");
    input.undo();
    assert_eq!(input.value(), "a👩‍💻");
    input.redo();
    assert_eq!(input.value(), "a");
    input.select_all();
    input.replace_text_in_range(None, "hello\nworld");
    assert_eq!(input.value(), "hello world");
}

#[test]
fn ime_selection_is_relative_to_composition_and_undo_is_atomic() {
    let mut input = InputState::new();
    input.set_value("prefix ");
    input.replace_and_mark_text_in_range(None, "😀x", Some(2..3));
    assert_eq!(input.value(), "prefix 😀x");
    assert_eq!(input.selection, 11..12);
    assert_eq!(input.marked, Some(7..12));
    input.replace_and_mark_text_in_range(None, "😀yz", Some(2..4));
    assert_eq!(input.selection, 11..13);
    input.replace_text_in_range(None, "😀yz");
    assert_eq!(input.marked, None);
    input.undo();
    assert_eq!(input.value(), "prefix ");
    input.redo();
    assert_eq!(input.value(), "prefix 😀yz");
    input.replace_text_in_range(Some(usize::MAX..usize::MAX), "!");
    assert_eq!(input.value(), "prefix 😀yz!");
}

#[test]
fn password_never_copies_cuts_or_keeps_history() {
    let mut input = InputState::new();
    input.configure(false, InputContentType::Password, false);
    input.set_value("secret👩‍💻");
    input.select_all();
    assert_eq!(input.copy(), None);
    assert_eq!(input.cut(), None);
    assert_eq!(input.value(), "secret👩‍💻");
    assert_eq!(input.display_offset(input.value.len()), 7 * '•'.len_utf8());
    input.replace_text_in_range(None, "new secret");
    assert!(input.undo.is_empty());
    input.undo();
    assert_eq!(input.value(), "new secret");
    input.set_value("");
    assert!(input.undo.is_empty());
    assert!(input.redo.is_empty());
}

#[test]
fn disabled_input_rejects_edits_and_stops_blinking() {
    let mut input = InputState::new();
    input.handle_focus();
    input.set_value("original");
    input.configure(true, InputContentType::Text, true);
    input.replace_text_in_range(None, "changed");
    input.replace_and_mark_text_in_range(None, "changed", None);
    input.backspace();
    assert_eq!(input.value(), "original");
    assert!(!input.blink_task);
    assert!(!input.accepts_text_input());
}

#[test]
fn keyboard_actions_emit_change_and_enter() {
    let mut input = InputState::new();
    input.handle_focus();
    input.replace_text_in_range(None, "a");
    input.replace_text_in_range(None, "b");
    input.replace_text_in_range(None, "c");
    input.left();
    input.backspace();
    input.enter(false, false);
    assert_eq!(input.value(), "ac");
    let events = input.take_events();
    assert!(events.contains(&InputEvent::Change));
    assert!(events.contains(&InputEvent::PressEnter { secondary: false, shift: false }));
}

#[test]
fn clearing_focus_cancels_cursor_timer() {
    let mut input = InputState::new();
    input.handle_focus();
    assert!(input.blink_task);
    input.handle_blur();
    assert!(!input.blink_task);
    assert!(!input.cursor_visible);
}

#[test]
fn utf16_round_trip_on_boundaries() {
    let text = "a👩‍💻e\u{301}x";
    for (offset, _) in text.char_indices() {
        assert_eq!(from_utf16(text, to_utf16(text, offset)), offset);
    }
    assert_eq!(from_utf16(text, to_utf16(text, text.len())), text.len());
}

#[test]
fn undo_and_redo_of_one_edit() {
    let mut input = InputState::new();
    input.set_value("hello");
    input.replace_text_in_range(None, " world");
    assert_eq!(input.value(), "hello world");
    input.undo();
    assert_eq!(input.value(), "hello");
    assert_eq!(input.selection, 5..5);
    input.redo();
    assert_eq!(input.value(), "hello world");
}

#[test]
fn value_stays_on_one_line() {
    let mut input = InputState::new();
    input.set_value("one\ntwo");
    input.replace_text_in_range(None, "\tthree\r\n");
    assert!(!input.value().contains('\n'));
    assert!(!input.value().contains('\t'));
    assert_eq!(input.value(), "one two three  ");
}

#[test]
fn masked_input_displays_bullets() {
    let mut input = InputState::new().masked(true);
    input.set_value("ab👩‍💻");
    assert_eq!(input.display_text(), "•••");
    assert_eq!(input.copy(), None);
}
