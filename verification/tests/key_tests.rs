use toxxi::chat_keys::{shortcut_of, Shortcut};
use toxxi::config::Config;
use toxxi::domain::{Connection, DomainState, FriendInfo, Key32, Model, UserStatus, WindowId};
use toxxi::input_keys::{KeyCode, KeyEvent, KeyModifiers};
use toxxi::model::{InputMode, UiMode};
use toxxi::msg::{AppCmd, Cmd, ToxAction};
use toxxi::pickers::{EmojiPickerState, QuickSwitcherItem, QuickSwitcherState};

fn key32(first: u8) -> Key32 {
    let mut k = [0u8; 32];
    k[0] = first;
    Key32(k)
}

fn model() -> Model {
    let d = DomainState::new("ID".to_string(), key32(200), "Me".to_string(), String::new(), UserStatus::Available);
    Model::new(d, Config::default(), Config::default())
}

fn mods(shift: bool, control: bool, alt: bool) -> KeyModifiers {
    KeyModifiers { shift, control, alt, super_key: false, hyper: false, meta: false }
}

fn plain(code: KeyCode) -> KeyEvent {
    KeyEvent { code, modifiers: mods(false, false, false) }
}

fn ctrl(c: char) -> KeyEvent {
    KeyEvent { code: KeyCode::Char(c), modifiers: mods(false, true, false) }
}

fn alt(c: char) -> KeyEvent {
    KeyEvent { code: KeyCode::Char(c), modifiers: mods(false, false, true) }
}

fn friend(name: &str, pk: Key32) -> FriendInfo {
    FriendInfo {
        name: name.to_string(),
        public_key: Some(pk),
        status_message: String::new(),
        connection: Connection::Udp,
        last_sent_message_id: None,
        last_read_receipt: None,
        is_typing: false,
    }
}

fn item(name: &str, prefix: &str) -> QuickSwitcherItem {
    QuickSwitcherItem { name: name.to_string(), description: String::new(), prefix: prefix.to_string() }
}

#[test]
fn shortcuts_recognised() {
    assert_eq!(shortcut_of(ctrl('t')), Shortcut::ToggleInputMode);
    assert_eq!(shortcut_of(ctrl('d')), Shortcut::Unhandled);
    assert_eq!(shortcut_of(ctrl(' ')), Shortcut::Unhandled);
    assert_eq!(shortcut_of(alt('3')), Shortcut::JumpToWindow(Some(3)));
    assert_eq!(shortcut_of(alt('x')), Shortcut::JumpToWindow(None));
    assert_eq!(shortcut_of(plain(KeyCode::Char('t'))), Shortcut::Unhandled);
    let shift_page_up = KeyEvent { code: KeyCode::PageUp, modifiers: mods(true, false, false) };
    assert_eq!(shortcut_of(shift_page_up), Shortcut::ScrollTop);
    let ctrl_end = KeyEvent { code: KeyCode::End, modifiers: mods(false, true, false) };
    assert_eq!(shortcut_of(ctrl_end), Shortcut::ScrollBottom);
}

#[test]
fn ctrl_keys_switch_windows_and_modes() {
    let mut m = model();
    m.ensure_group_window(key32(7));
    m.ensure_group_window(key32(8));
    assert_eq!(m.ui.window_ids.len(), 3);
    assert_eq!(m.handle_chat_shortcut(ctrl('n'), 0).map(|c| c.len()), Some(0));
    assert_eq!(m.ui.active_window_index, 1);
    m.handle_chat_shortcut(ctrl('p'), 0);
    m.handle_chat_shortcut(ctrl('p'), 0);
    assert_eq!(m.ui.active_window_index, 2);
    m.handle_chat_shortcut(alt('0'), 0);
    assert_eq!(m.ui.active_window_index, 0);
    m.handle_chat_shortcut(alt('9'), 0);
    assert_eq!(m.ui.active_window_index, 0);
    m.handle_chat_shortcut(ctrl('t'), 0);
    assert_eq!(m.ui.input_mode, InputMode::MultiLine);
    m.handle_chat_shortcut(ctrl('f'), 0);
    assert_eq!(m.ui.window_ids.last(), Some(&WindowId::Files));
    assert_eq!(m.ui.active_window_index, 3);
    m.handle_chat_shortcut(ctrl('f'), 0);
    assert_eq!(m.ui.window_ids.len(), 4);
    let redraw = m.handle_chat_shortcut(ctrl('l'), 0).unwrap();
    assert!(matches!(redraw[0], Cmd::App(AppCmd::Redraw)));
    assert!(m.handle_chat_shortcut(plain(KeyCode::Char('q')), 0).is_none());
}

#[test]
fn ctrl_edits_note_typing() {
    let mut m = model();
    let pk = key32(4);
    m.domain.friends.push((pk, friend("Bob", pk)));
    m.ensure_friend_window(pk);
    m.set_active_window(1);
    m.ui.input_state.insert_str("hello big world");
    let cmds = m.handle_chat_shortcut(ctrl('w'), 42).unwrap();
    assert_eq!(m.ui.input_state.text, "hello big ");
    assert!(matches!(cmds[0], Cmd::Tox(ToxAction::SetTyping(k, true)) if k == pk));
    assert_eq!(m.ui.last_typing_activity, Some(42));
    // Told once only.
    assert!(m.handle_chat_shortcut(ctrl('u'), 43).unwrap().is_empty());
    assert_eq!(m.ui.input_state.text, "");
    m.ui.input_state.insert_str("x");
    m.handle_chat_shortcut(ctrl('o'), 44);
    assert_eq!(m.ui.input_state.text, "x\n");
    m.handle_chat_shortcut(ctrl('c'), 45);
    assert_eq!(m.ui.input_state.text, "");
}

#[test]
fn ctrl_b_toggles_group_peers() {
    let mut m = model();
    m.ensure_group_window(key32(7));
    m.set_active_window(1);
    m.handle_chat_shortcut(ctrl('b'), 0);
    let state = &m.ui.window_state.iter().find(|(w, _)| *w == WindowId::Group(key32(7))).unwrap().1;
    assert!(!state.show_peers);
    m.handle_chat_shortcut(ctrl('b'), 0);
    let state = &m.ui.window_state.iter().find(|(w, _)| *w == WindowId::Group(key32(7))).unwrap().1;
    assert!(state.show_peers);
}

#[test]
fn esc_closes_then_toggles_mode() {
    let mut m = model();
    m.ui.emoji_picker = Some(EmojiPickerState::new());
    assert!(m.handle_overlay_key(plain(KeyCode::Esc), &[]));
    assert!(m.ui.emoji_picker.is_none());
    assert_eq!(m.ui.ui_mode, UiMode::Chat);
    assert!(m.handle_overlay_key(plain(KeyCode::Esc), &[]));
    assert_eq!(m.ui.ui_mode, UiMode::Navigation);
    assert!(m.handle_overlay_key(plain(KeyCode::Esc), &[]));
    assert_eq!(m.ui.ui_mode, UiMode::Chat);
    assert!(!m.handle_overlay_key(plain(KeyCode::Char('a')), &[]));
    m.ui.show_qr = true;
    assert!(m.handle_overlay_key(plain(KeyCode::Char('a')), &[]));
    assert!(!m.ui.show_qr);
}

#[test]
fn switcher_enter_goes_to_window() {
    let mut m = model();
    let pk = key32(4);
    m.domain.friends.push((pk, friend("Bob", pk)));
    m.ensure_friend_window(pk);
    m.ensure_group_window(key32(9));
    let items = vec![item("Status", ">"), item("Bob", "f")];
    m.ui.quick_switcher = Some(QuickSwitcherState::new(items));
    assert!(m.handle_overlay_key(plain(KeyCode::Down), &[]));
    assert!(m.handle_overlay_key(plain(KeyCode::Enter), &[]));
    assert!(m.ui.quick_switcher.is_none());
    assert_eq!(m.ui.window_ids[m.ui.active_window_index], WindowId::Friend(pk));
    m.ui.quick_switcher = Some(QuickSwitcherState::new(vec![item("Status", ">")]));
    m.handle_overlay_key(plain(KeyCode::Enter), &[]);
    assert_eq!(m.ui.active_window_index, 0);
}

#[test]
fn switcher_typing_filters_and_resets() {
    let mut m = model();
    m.ui.quick_switcher = Some(QuickSwitcherState::new(vec![item("Alpha", "f"), item("Beta", "f")]));
    m.handle_overlay_key(plain(KeyCode::Down), &[]);
    assert_eq!(m.ui.quick_switcher.as_ref().unwrap().selected, Some(1));
    m.handle_overlay_key(plain(KeyCode::Char('b')), &[]);
    let s = m.ui.quick_switcher.as_ref().unwrap();
    assert_eq!(s.input_state.text, "b");
    assert_eq!(s.selected, Some(0));
}

#[test]
fn picker_enter_types_emoji() {
    let table = vec![("smile".to_string(), "😄".to_string()), ("heart".to_string(), "❤".to_string())];
    let mut m = model();
    m.ui.emoji_picker = Some(EmojiPickerState::new());
    assert!(m.handle_overlay_key(plain(KeyCode::Right), &table));
    assert_eq!(m.ui.emoji_picker.as_ref().unwrap().selected_index, 1);
    assert!(m.handle_overlay_key(plain(KeyCode::Right), &table));
    assert_eq!(m.ui.emoji_picker.as_ref().unwrap().selected_index, 0);
    assert!(m.handle_overlay_key(plain(KeyCode::Left), &table));
    assert!(m.handle_overlay_key(plain(KeyCode::Enter), &table));
    assert!(m.ui.emoji_picker.is_none());
    assert_eq!(m.ui.input_state.text, "❤");
}

#[test]
fn arrows_recall_history() {
    let mut m = model();
    toxxi::history::record_history(&mut m.ui.history, "first".to_string());
    toxxi::history::record_history(&mut m.ui.history, "second".to_string());
    m.ui.input_state.insert_str("draft");
    assert!(m.handle_chat_arrow(true, false, 0).is_empty());
    assert_eq!(m.ui.input_state.text, "second");
    m.handle_chat_arrow(true, false, 0);
    assert_eq!(m.ui.input_state.text, "first");
    m.handle_chat_arrow(true, false, 0);
    assert_eq!(m.ui.input_state.text, "first");
    m.handle_chat_arrow(false, false, 0);
    assert_eq!(m.ui.input_state.text, "second");
    m.handle_chat_arrow(false, false, 0);
    assert_eq!(m.ui.input_state.text, "draft");
    assert_eq!(m.ui.history.index, None);
}

#[test]
fn input_box_height_counts_lines_and_frame() {
    let mut s = toxxi::input_box::InputBoxState::new();
    s.insert_str("a\nb\nc\nd\ne\nf");
    assert_eq!(toxxi::input_layout::input_box_height(&mut s, "", 20, None, 10), 6);
    assert_eq!(toxxi::input_layout::input_box_height(&mut s, "", 20, Some((2, 2)), 10), 8);
    assert_eq!(toxxi::input_layout::input_box_height(&mut s, "", 20, Some((2, 2)), 7), 7);
    assert_eq!(toxxi::input_layout::input_box_height(&mut s, "", 2, Some((2, 2)), 7), 3);
    let mut e = toxxi::input_box::InputBoxState::new();
    assert_eq!(toxxi::input_layout::input_box_height(&mut e, "", 20, None, 10), 3);
}

#[test]
fn send_text_records_and_asks() {
    let mut m = model();
    let pk = key32(4);
    m.domain.friends.push((pk, friend("Bob", pk)));
    m.ensure_friend_window(pk);
    m.set_active_window(1);
    let now = toxxi::model::Timestamp { secs: 1, nanos: 0, offset_secs: 0 };
    let cmds = m.send_text("hello", now).unwrap();
    assert_eq!(cmds.len(), 3);
    assert!(matches!(&cmds[0], Cmd::IO(toxxi::msg::IOAction::LogMessage(WindowId::Friend(k), _)) if *k == pk));
    assert!(matches!(&cmds[1], Cmd::IO(toxxi::msg::IOAction::LogMessage(_, msg)) if msg.status == toxxi::model::MessageStatus::Sending));
    assert!(matches!(&cmds[2], Cmd::Tox(ToxAction::SendMessage(k, _, t, _)) if *k == pk && t == "hello"));
    let long = "x".repeat(2000);
    let cmds = m.send_text(&long, now).unwrap();
    assert_eq!(cmds.len(), 6);
    assert!(matches!(&cmds[2], Cmd::Tox(ToxAction::SendMessage(_, _, t, _)) if t.len() == 1372));
    assert!(matches!(&cmds[5], Cmd::Tox(ToxAction::SendMessage(_, _, t, _)) if t.len() == 628));
}

#[test]
fn send_text_in_console_echoes() {
    let mut m = model();
    let now = toxxi::model::Timestamp { secs: 1, nanos: 0, offset_secs: 0 };
    assert!(m.send_text("hi", now).unwrap().is_empty());
    let n = m.domain.console_messages.len();
    assert!(n >= 2);
}

#[test]
fn next_then_previous_window_returns() {
    let mut m = model();
    m.ensure_group_window(key32(7));
    m.ensure_group_window(key32(8));
    for start in 0..3 {
        m.set_active_window(start);
        m.handle_chat_shortcut(ctrl('n'), 0);
        m.handle_chat_shortcut(ctrl('p'), 0);
        assert_eq!(m.ui.active_window_index, start);
        m.handle_chat_shortcut(ctrl('p'), 0);
        m.handle_chat_shortcut(ctrl('n'), 0);
        assert_eq!(m.ui.active_window_index, start);
    }
}

#[test]
fn blocked_strings_refuse_the_line() {
    let mut m = model();
    let pk = key32(4);
    m.domain.friends.push((pk, friend("Bob", pk)));
    m.ensure_friend_window(pk);
    m.set_active_window(1);
    m.config.blocked_strings.push("BAD".to_string());
    let now = toxxi::model::Timestamp { secs: 1, nanos: 0, offset_secs: 0 };
    let before = m.domain.console_messages.len();
    let cmds = m.send_text("this is bad and Bad", now).unwrap();
    assert!(cmds.is_empty());
    assert_eq!(m.ui.input_blocked_indices, vec![(8, 11), (16, 19)]);
    assert_eq!(m.ui.input_state.text, "this is bad and Bad");
    assert_eq!(m.ui.input_state.cursor_pos, 19);
    assert_eq!(m.domain.console_messages.len(), before + 1);
    // A clean line goes out.
    assert_eq!(m.send_text("fine", now).unwrap().len(), 3);
}

#[test]
fn blocked_ranges_count_characters() {
    let blocked = vec!["ä".to_string(), "Xy".to_string()];
    assert_eq!(toxxi::blocked::blocked_ranges("Ärger xy ä", &blocked), Some(vec![(0, 1), (9, 10), (6, 8)]));
    assert_eq!(toxxi::blocked::blocked_ranges("nothing", &blocked), Some(vec![]));
    let empty = vec![String::new()];
    assert_eq!(toxxi::blocked::blocked_ranges("abc", &empty), None);
}

#[test]
fn empty_blocked_string_leaves_all_alone() {
    let mut m = model();
    m.config.blocked_strings.push(String::new());
    let now = toxxi::model::Timestamp { secs: 1, nanos: 0, offset_secs: 0 };
    assert!(m.send_text("hi", now).is_none());
    assert!(m.domain.console_messages.is_empty());
}

#[test]
fn enter_sends_and_keeps_history() {
    let mut m = model();
    let pk = key32(4);
    m.domain.friends.push((pk, friend("Bob", pk)));
    m.ensure_friend_window(pk);
    m.set_active_window(1);
    let now = toxxi::model::Timestamp { secs: 1, nanos: 0, offset_secs: 0 };
    m.ui.input_state.insert_str("hello");
    let cmds = m.handle_enter_key(plain(KeyCode::Enter), now, 0).unwrap();
    assert_eq!(cmds.len(), 3);
    assert_eq!(m.ui.input_state.text, "");
    assert_eq!(m.ui.history.entries, vec!["hello".to_string()]);
    // The same line again is not kept twice.
    m.ui.input_state.insert_str("hello");
    m.handle_enter_key(plain(KeyCode::Enter), now, 0);
    assert_eq!(m.ui.history.entries.len(), 1);
    // An empty line sends nothing.
    assert_eq!(m.handle_enter_key(plain(KeyCode::Enter), now, 0).map(|c| c.len()), Some(0));
    // Alt+Enter breaks the line in single-line input.
    m.ui.input_state.insert_str("a");
    let alt_enter = KeyEvent { code: KeyCode::Enter, modifiers: mods(false, false, true) };
    m.handle_enter_key(alt_enter, now, 0).unwrap();
    assert_eq!(m.ui.input_state.text, "a\n");
    // Commands are left to the caller.
    let mut c = model();
    c.ui.input_state.insert_str("/help");
    assert!(c.handle_enter_key(plain(KeyCode::Enter), now, 0).is_none());
    assert_eq!(c.ui.input_state.text, "/help");
}

#[test]
fn multiline_enter_breaks_and_ctrl_d_sends() {
    let mut m = model();
    let now = toxxi::model::Timestamp { secs: 1, nanos: 0, offset_secs: 0 };
    m.ui.input_mode = InputMode::MultiLine;
    m.ui.input_state.insert_str("x");
    m.handle_enter_key(plain(KeyCode::Enter), now, 0).unwrap();
    assert_eq!(m.ui.input_state.text, "x\n");
    assert!(m.handle_enter_key(ctrl('d'), now, 0).unwrap().is_empty());
    assert_eq!(m.ui.input_state.text, "");
    assert_eq!(m.ui.history.entries, vec!["x\n".to_string()]);
    // Ctrl+D in single-line input is not ours.
    m.ui.input_mode = InputMode::SingleLine;
    assert!(m.handle_enter_key(ctrl('d'), now, 0).is_none());
}

#[test]
fn keys_find_their_way() {
    let mut m = model();
    let pk = key32(4);
    m.domain.friends.push((pk, friend("Bob", pk)));
    m.ensure_friend_window(pk);
    let now = toxxi::model::Timestamp { secs: 1, nanos: 0, offset_secs: 0 };
    // Ctrl+N goes to Bob's window.
    m.handle_key_event(ctrl('n'), &[], now, 0).unwrap();
    assert_eq!(m.ui.active_window_index, 1);
    // Typing edits the input and tells Bob once.
    let out = m.handle_key_event(plain(KeyCode::Char('h')), &[], now, 5).unwrap();
    assert!(matches!(out.cmds[0], Cmd::Tox(ToxAction::SetTyping(k, true)) if k == pk));
    assert!(!out.refresh_command_menu);
    m.handle_key_event(plain(KeyCode::Char('i')), &[], now, 6).unwrap();
    assert_eq!(m.ui.input_state.text, "hi");
    // Enter sends it.
    let sent = m.handle_key_event(plain(KeyCode::Enter), &[], now, 7).unwrap();
    assert_eq!(sent.cmds.len(), 3);
    assert_eq!(m.ui.input_state.text, "");
    // A command being typed asks for the menu.
    let slash = m.handle_key_event(plain(KeyCode::Char('/')), &[], now, 8).unwrap();
    assert!(slash.refresh_command_menu);
    // Tab is left to the caller.
    assert!(m.handle_key_event(plain(KeyCode::Tab), &[], now, 9).is_none());
    // Esc enters navigation mode; Esc again leaves it.
    m.handle_key_event(plain(KeyCode::Esc), &[], now, 9).unwrap();
    assert_eq!(m.ui.ui_mode, UiMode::Navigation);
    m.handle_key_event(plain(KeyCode::Esc), &[], now, 9).unwrap();
    assert_eq!(m.ui.ui_mode, UiMode::Chat);
}

#[test]
fn sidebar_cache_filled_once() {
    let mut m = model();
    assert!(m.ui.sidebar_cache.is_none());
    m.refresh_sidebar_cache();
    let n = m.ui.sidebar_cache.as_ref().unwrap().len();
    assert_eq!(n, m.sidebar_items().len());
    m.ensure_group_window(key32(3));
    // Opening a window dropped the cache; it is built again.
    m.refresh_sidebar_cache();
    assert_eq!(m.ui.sidebar_cache.as_ref().unwrap().len(), m.sidebar_items().len());
}
