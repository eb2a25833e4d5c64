use toxxi::input_box::{InputBoxState, InputMode, Outcome};
use toxxi::input_keys::{InputEvent, KeyCode, KeyEvent, KeyModifiers};
use toxxi::input_layout::is_mention_at;

fn state_with(text: &str) -> InputBoxState {
    let mut s = InputBoxState::new();
    s.insert_str(text);
    s
}

fn no_mods() -> KeyModifiers {
    KeyModifiers { shift: false, control: false, alt: false, super_key: false, hyper: false, meta: false }
}

fn key(code: KeyCode, modifiers: KeyModifiers) -> InputEvent {
    InputEvent::Key(KeyEvent { code, modifiers })
}

#[test]
fn new_state_is_empty() {
    let s = InputBoxState::new();
    assert_eq!(s.text, "");
    assert_eq!(s.cursor_pos, 0);
    assert_eq!(s.selection, None);
    assert_eq!(s.mode(), InputMode::SendOnEnter);
}

#[test]
fn toggle_mode_flips() {
    let mut s = InputBoxState::new();
    s.toggle_mode();
    assert_eq!(s.mode(), InputMode::NewlineOnEnter);
    s.toggle_mode();
    assert_eq!(s.mode(), InputMode::SendOnEnter);
}

#[test]
fn insert_and_delete_then_undo_redo() {
    let mut s = state_with("hello");
    assert_eq!((s.text.as_str(), s.cursor_pos), ("hello", 5));
    s.move_cursor_left(false);
    assert_eq!(s.cursor_pos, 4);
    s.delete_prev_char();
    assert_eq!((s.text.as_str(), s.cursor_pos), ("helo", 3));
    s.undo();
    assert_eq!((s.text.as_str(), s.cursor_pos), ("hello", 4));
    s.redo();
    assert_eq!((s.text.as_str(), s.cursor_pos), ("helo", 3));
}

#[test]
fn undo_of_edit_restores_text_and_cursor() {
    let mut s = state_with("abc");
    let before = (s.text.clone(), s.cursor_pos);
    s.insert_char('d');
    assert_eq!(s.text, "abcd");
    s.undo();
    assert_eq!((s.text.clone(), s.cursor_pos), before);
}

#[test]
fn undo_on_empty_history_changes_nothing() {
    let mut s = InputBoxState::new();
    s.undo();
    s.redo();
    assert_eq!((s.text.as_str(), s.cursor_pos), ("", 0));
}

#[test]
fn insert_str_normalizes_line_breaks() {
    let s = state_with("a\r\nb\rc");
    assert_eq!(s.text, "a\nb\nc");
    assert_eq!(s.cursor_pos, 5);
}

#[test]
fn delete_next_char_at_cursor() {
    let mut s = state_with("héllo");
    s.move_to_start(false);
    s.move_cursor_right(false);
    assert_eq!(s.cursor_pos, 1);
    s.delete_next_char();
    assert_eq!(s.text, "hllo");
    assert_eq!(s.cursor_pos, 1);
}

#[test]
fn word_movement_skips_spaces_then_word() {
    let mut s = state_with("foo bar  baz");
    assert_eq!(s.cursor_pos, 12);
    s.move_cursor_word_left(false);
    assert_eq!(s.cursor_pos, 9);
    s.move_cursor_word_left(false);
    assert_eq!(s.cursor_pos, 4);
    s.move_cursor_word_left(false);
    assert_eq!(s.cursor_pos, 0);
    s.move_cursor_word_right(false);
    assert_eq!(s.cursor_pos, 3);
    s.move_cursor_word_right(false);
    assert_eq!(s.cursor_pos, 7);
}

#[test]
fn delete_word_left_and_right() {
    let mut s = state_with("foo bar");
    s.delete_word_left();
    assert_eq!((s.text.as_str(), s.cursor_pos), ("foo ", 4));
    let mut t = state_with("foo bar");
    t.move_to_start(false);
    t.delete_word_right();
    assert_eq!((t.text.as_str(), t.cursor_pos), (" bar", 0));
}

#[test]
fn delete_to_start_and_end() {
    let mut s = state_with("hello world");
    s.move_cursor_word_left(false);
    s.delete_to_start();
    assert_eq!((s.text.as_str(), s.cursor_pos), ("world", 0));
    let mut t = state_with("hello world");
    t.move_cursor_word_left(false);
    t.delete_to_end();
    assert_eq!((t.text.as_str(), t.cursor_pos), ("hello ", 6));
}

#[test]
fn selection_copy_cut_paste() {
    let mut s = state_with("hello");
    s.move_cursor_left(true);
    s.move_cursor_left(true);
    assert_eq!(s.selection, Some((5, 3)));
    assert_eq!(s.cursor_pos, 3);
    s.copy();
    assert_eq!(s.clipboard, "lo");
    s.cut();
    assert_eq!((s.text.as_str(), s.cursor_pos, s.selection), ("hel", 3, None));
    s.paste();
    assert_eq!((s.text.as_str(), s.cursor_pos), ("hello", 5));
}

#[test]
fn moving_back_to_the_anchor_clears_selection() {
    let mut s = state_with("ab");
    s.move_cursor_left(true);
    assert_eq!(s.selection, Some((2, 1)));
    s.move_cursor_right(true);
    assert_eq!(s.selection, None);
}

#[test]
fn clear_and_set_value() {
    let mut s = state_with("abc");
    s.clear();
    assert_eq!((s.text.as_str(), s.cursor_pos), ("", 0));
    s.set_value("héllo".to_string());
    assert_eq!((s.text.as_str(), s.cursor_pos), ("héllo", 6));
    s.undo();
    assert_eq!(s.text, "");
}

#[test]
fn system_clipboard_sequence() {
    let s = InputBoxState::new();
    assert_eq!(s.copy_to_system_clipboard("hi"), "\u{1b}]52;c;aGk=\u{7}");
    assert_eq!(s.copy_to_system_clipboard(""), "\u{1b}]52;c;\u{7}");
    assert_eq!(s.copy_to_system_clipboard("hello!"), "\u{1b}]52;c;aGVsbG8h\u{7}");
}

#[test]
fn layout_wraps_and_places_cursor() {
    let mut s = state_with("hello world");
    s.ensure_layout(10, "> ");
    assert_eq!(s.lines.len(), 2);
    assert!(s.lines[0].is_soft_wrap);
    assert!(!s.lines[1].is_soft_wrap);
    assert_eq!(s.lines[0].graphemes.len(), 7);
    assert_eq!(s.lines[1].graphemes[0].byte_idx, 7);
    assert_eq!(s.lines[1].graphemes[0].screen_x, 2);
    assert_eq!(s.cursor(), (6, 1));
    assert_eq!(s.get_screen_x(1), Some(3));
}

#[test]
fn hit_test_finds_bytes() {
    let mut s = state_with("hello world");
    s.ensure_layout(10, "> ");
    assert_eq!(s.hit_test(3, 0, 2), 1);
    assert_eq!(s.hit_test(0, 0, 2), 0);
    assert_eq!(s.hit_test(100, 1, 2), 11);
    assert_eq!(s.hit_test(4, 5, 2), 9);
}

#[test]
fn cursor_up_goes_to_nearest_column() {
    let mut s = state_with("hello world");
    s.ensure_layout(10, "> ");
    s.move_cursor_up(false);
    assert_eq!(s.cursor_pos, 4);
    s.move_cursor_down(false);
    assert_eq!(s.cursor_pos, 11);
}

#[test]
fn set_cursor_without_layout() {
    let mut s = state_with("abc");
    s.set_cursor(0, 0);
    assert_eq!(s.cursor_pos, 0);
    s.set_cursor(2, 5);
    assert_eq!(s.cursor_pos, 3);
}

#[test]
fn enter_sends_or_breaks_line_by_mode() {
    let mut s = state_with("hi");
    assert_eq!(s.handle_event(&key(KeyCode::Enter, no_mods())), Outcome::Unhandled);
    assert_eq!(s.text, "hi");
    let shift = KeyModifiers { shift: true, ..no_mods() };
    assert_eq!(s.handle_event(&key(KeyCode::Enter, shift)), Outcome::Changed);
    assert_eq!(s.text, "hi\n");
    s.toggle_mode();
    assert_eq!(s.handle_event(&key(KeyCode::Enter, no_mods())), Outcome::Changed);
    assert_eq!(s.text, "hi\n\n");
    assert_eq!(s.handle_event(&key(KeyCode::Enter, shift)), Outcome::Unhandled);
}

#[test]
fn keys_edit_the_text() {
    let mut s = InputBoxState::new();
    assert_eq!(s.handle_event(&key(KeyCode::Char('a'), no_mods())), Outcome::Changed);
    let shift = KeyModifiers { shift: true, ..no_mods() };
    assert_eq!(s.handle_event(&key(KeyCode::Char('B'), shift)), Outcome::Changed);
    assert_eq!(s.text, "aB");
    assert_eq!(s.handle_event(&key(KeyCode::Left, no_mods())), Outcome::Unchanged);
    assert_eq!(s.cursor_pos, 1);
    assert_eq!(s.handle_event(&key(KeyCode::Backspace, no_mods())), Outcome::Changed);
    assert_eq!(s.text, "B");
    let ctrl = KeyModifiers { control: true, ..no_mods() };
    assert_eq!(s.handle_event(&key(KeyCode::Char('z'), ctrl)), Outcome::Changed);
    assert_eq!(s.text, "aB");
    assert_eq!(s.handle_event(&key(KeyCode::Other, no_mods())), Outcome::Unhandled);
    assert_eq!(s.handle_event(&InputEvent::Other), Outcome::Unhandled);
}

#[test]
fn ctrl_a_selects_all() {
    let mut s = state_with("héllo");
    s.move_to_start(false);
    let ctrl = KeyModifiers { control: true, ..no_mods() };
    assert_eq!(s.handle_event(&key(KeyCode::Char('a'), ctrl)), Outcome::Unchanged);
    assert_eq!(s.selection, Some((0, 6)));
    assert_eq!(s.cursor_pos, 6);
}

#[test]
fn ctrl_u_and_ctrl_k() {
    let mut s = state_with("hello world");
    let ctrl = KeyModifiers { control: true, ..no_mods() };
    s.move_cursor_word_left(false);
    assert_eq!(s.handle_event(&key(KeyCode::Char('k'), ctrl)), Outcome::Changed);
    assert_eq!(s.text, "hello ");
    assert_eq!(s.handle_event(&key(KeyCode::Char('u'), ctrl)), Outcome::Changed);
    assert_eq!(s.text, "");
}

#[test]
fn alt_letter_is_not_typed() {
    let mut s = InputBoxState::new();
    let alt = KeyModifiers { alt: true, ..no_mods() };
    assert_eq!(s.handle_event(&key(KeyCode::Char('q'), alt)), Outcome::Unhandled);
    assert_eq!(s.text, "");
}

#[test]
fn mention_detection() {
    assert!(is_mention_at("hi @bob", 7));
    assert!(is_mention_at("(@x", 3));
    assert!(is_mention_at("@x", 2));
    assert!(!is_mention_at("a@b", 3));
    assert!(!is_mention_at("@x y", 4));
    assert!(!is_mention_at("hi", 0));
    assert!(!is_mention_at("plain", 3));
}
