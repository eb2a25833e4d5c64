use toxxi::config::Config;
use toxxi::domain::{
    DomainState, Key32, MessageContent, MessageType, Model, UserStatus, WindowId, TOX_LOG_LIMIT,
};
use toxxi::model::{ConsoleMessageType, InternalMessageId, MessageStatus, Timestamp, ToxLogLevel};

fn key(first: [u8; 4]) -> Key32 {
    let mut k = [7u8; 32];
    k[..4].copy_from_slice(&first);
    Key32(k)
}

fn ts(secs: i64) -> Timestamp {
    Timestamp { secs, nanos: 0, offset_secs: 3600 }
}

fn model() -> Model {
    let d = DomainState::new("ABCDEF".to_string(), key([1, 1, 1, 1]), "Me".to_string(), String::new(), UserStatus::Available);
    Model::new(d, Config::default(), Config::default())
}

fn state_of(m: &Model, w: WindowId) -> Option<&toxxi::model::WindowUiState> {
    m.ui.window_state.iter().find(|(id, _)| *id == w).map(|(_, s)| s)
}

#[test]
fn new_model_shows_console() {
    let m = model();
    assert_eq!(m.ui.window_ids, vec![WindowId::Console]);
    assert_eq!(m.active_window_id(), WindowId::Console);
    assert_eq!(m.active_window_topic(), "Tox ID: ABCDEF");
    assert_eq!(m.domain.next_internal_id, InternalMessageId(1));
}

#[test]
fn friend_window_named_after_key() {
    let mut m = model();
    let pk = key([0xab, 0xcd, 0x01, 0x02]);
    m.ensure_friend_window(pk);
    m.ensure_friend_window(pk);
    assert_eq!(m.ui.window_ids, vec![WindowId::Console, WindowId::Friend(pk)]);
    assert_eq!(m.domain.conversations.len(), 1);
    assert_eq!(m.domain.conversations[0].1.name, "Friend abcd0102");
}

#[test]
fn group_and_conference_windows_take_session_numbers() {
    let mut m = model();
    let g = key([9, 9, 9, 9]);
    let c = key([8, 8, 8, 8]);
    m.session.group_numbers.push((7, g));
    m.ensure_group_window(g);
    m.ensure_conference_window(c);
    assert_eq!(m.domain.conversations[0].1.name, "Group 7");
    assert_eq!(m.domain.conversations[1].1.name, "Conference");
    m.ensure_window(WindowId::Logs);
    m.ensure_window(WindowId::Logs);
    assert_eq!(m.ui.window_ids.len(), 4);
    assert_eq!(m.domain.conversations.len(), 2);
}

#[test]
fn incoming_message_counts_as_unread() {
    let mut m = model();
    let pk = key([0xab, 0xcd, 0x01, 0x02]);
    let msg = m.add_friend_message(pk, MessageType::Normal, "hello".to_string(), ts(100)).unwrap();
    assert_eq!(msg.internal_id, InternalMessageId(1));
    assert_eq!(msg.sender, "Friend abcd0102");
    assert_eq!(msg.sender_pk, Some(pk));
    assert!(!msg.is_self);
    assert_eq!(msg.status, MessageStatus::Incoming);
    assert_eq!(msg.content.as_text(), Some("hello"));
    assert_eq!(m.total_messages_for(WindowId::Friend(pk)), 1);
    assert_eq!(state_of(&m, WindowId::Friend(pk)).unwrap().unread_count, 1);
    m.add_friend_message(pk, MessageType::Action, "waves".to_string(), ts(101));
    assert_eq!(state_of(&m, WindowId::Friend(pk)).unwrap().unread_count, 2);
    m.set_active_window(1);
    assert_eq!(m.ui.active_window_index, 1);
    assert_eq!(state_of(&m, WindowId::Friend(pk)).unwrap().unread_count, 0);
    assert_eq!(m.active_window_topic(), "Friend abcd0102");
    m.add_friend_message(pk, MessageType::Normal, "again".to_string(), ts(102));
    assert_eq!(state_of(&m, WindowId::Friend(pk)).unwrap().unread_count, 0);
    m.set_active_window(9);
    assert_eq!(m.ui.active_window_index, 1);
}

#[test]
fn outgoing_message_and_receipt() {
    let mut m = model();
    let pk = key([1, 2, 3, 4]);
    let (id, msg) = m.add_outgoing_friend_message(pk, MessageType::Normal, "hi".to_string(), ts(5));
    assert_eq!(id, InternalMessageId(1));
    assert_eq!(msg.sender, "Me");
    assert!(msg.is_self);
    assert_eq!(msg.status, MessageStatus::Pending);
    assert_eq!(m.domain.next_internal_id, InternalMessageId(2));
    let marked = m.mark_message_status(WindowId::Friend(pk), id, MessageStatus::Received).unwrap();
    assert_eq!(marked.status, MessageStatus::Received);
    assert_eq!(m.domain.conversations[0].1.messages[0].status, MessageStatus::Received);
    assert!(m.mark_message_status(WindowId::Friend(pk), InternalMessageId(42), MessageStatus::Failed).is_none());
    let (_, console) = m.add_outgoing_message(WindowId::Console, MessageType::Normal, "x".to_string(), ts(6));
    assert_eq!(console.sender, "Me");
    assert_eq!(m.domain.conversations.len(), 1);
}

#[test]
fn system_messages_go_to_console_or_conversation() {
    let mut m = model();
    assert!(m
        .add_system_message_to(WindowId::Console, ConsoleMessageType::Info, MessageContent::Text("boot".to_string()), ts(1))
        .is_none());
    assert_eq!(m.domain.console_messages.len(), 1);
    m.add_error_message(MessageContent::Text("oops".to_string()), ts(2));
    assert_eq!(m.domain.console_messages.len(), 2);
    assert_eq!(m.domain.console_messages[1].msg_type, ConsoleMessageType::Error);
    let pk = key([5, 5, 5, 5]);
    m.ensure_friend_window(pk);
    let s = m
        .add_system_message_to(WindowId::Friend(pk), ConsoleMessageType::Status, MessageContent::Text("joined".to_string()), ts(3))
        .unwrap();
    assert_eq!(s.sender, "System");
    assert_eq!(m.total_messages_for(WindowId::Friend(pk)), 1);
    assert!(m
        .add_system_message_to(WindowId::Friend(key([6, 6, 6, 6])), ConsoleMessageType::Info, MessageContent::Text("x".to_string()), ts(4))
        .is_none());
    m.add_console_message(ConsoleMessageType::Log, "log line".to_string(), ts(5));
    assert_eq!(m.total_messages_for(WindowId::Console), 3);
}

#[test]
fn highlight_words_and_name() {
    let mut m = model();
    m.config.highlight_strings.push("rust".to_string());
    let pk = key([3, 3, 3, 3]);
    let a = m.add_friend_message(pk, MessageType::Normal, "I love Rust.".to_string(), ts(1)).unwrap();
    assert!(a.highlighted);
    let b = m.add_friend_message(pk, MessageType::Normal, "hello me there".to_string(), ts(2)).unwrap();
    assert!(b.highlighted);
    let c = m.add_friend_message(pk, MessageType::Normal, "nothing to see".to_string(), ts(3)).unwrap();
    assert!(!c.highlighted);
    assert!(m.should_highlight(WindowId::Friend(pk), "ping @me!"));
}

#[test]
fn file_transfer_progress_and_status() {
    let mut m = model();
    let pk = key([4, 4, 4, 4]);
    let file = key([0xf0, 0, 0, 0]);
    m.ensure_friend_window(pk);
    let t = m
        .add_file_transfer_message(WindowId::Friend(pk), false, file, "a.txt".to_string(), 100, true, ts(1))
        .unwrap();
    assert_eq!(t.sender, "Friend 04040404");
    assert_eq!(t.status, MessageStatus::Incoming);
    m.update_file_progress(pk, file, 40, 100, "1 KB/s".to_string());
    match &m.domain.conversations[0].1.messages[0].content {
        MessageContent::FileTransfer { progress_done, progress_total, speed, .. } => {
            assert_eq!((*progress_done, *progress_total, speed.as_str()), (40, 100, "1 KB/s"));
        }
        _ => panic!("a transfer message"),
    }
    m.update_file_progress(pk, file, 50, 0, "2 KB/s".to_string());
    match &m.domain.conversations[0].1.messages[0].content {
        MessageContent::FileTransfer { progress_done, speed, .. } => {
            assert_eq!((*progress_done, speed.as_str()), (40, "2 KB/s"));
        }
        _ => panic!("a transfer message"),
    }
    let done = m.update_file_status(pk, file, MessageStatus::Received).unwrap();
    assert_eq!(done.status, MessageStatus::Received);
    assert!(m.update_file_status(pk, key([1, 0, 0, 0]), MessageStatus::Failed).is_none());
    assert!(m.domain.conversations[0].1.messages[0].content.contains("a.t"));
}

#[test]
fn tox_log_buckets_are_capped() {
    let mut m = model();
    for i in 0..(TOX_LOG_LIMIT + 50) {
        m.add_tox_log(ToxLogLevel::Info, "net.c".to_string(), i as u32, "f".to_string(), format!("line {}", i), ts(i as i64));
    }
    m.add_tox_log(ToxLogLevel::Error, "dht.c".to_string(), 1, "g".to_string(), "bad".to_string(), ts(0));
    assert_eq!(m.total_messages_for(WindowId::Logs), TOX_LOG_LIMIT + 1);
    let info = &m.domain.tox_logs.iter().find(|(l, _)| *l == ToxLogLevel::Info).unwrap().1;
    assert_eq!(info[0].message, "line 50");
    m.ui.log_filters.paused = true;
    m.add_tox_log(ToxLogLevel::Error, "dht.c".to_string(), 2, "g".to_string(), "ignored".to_string(), ts(0));
    assert_eq!(m.total_messages_for(WindowId::Logs), TOX_LOG_LIMIT + 1);
}

#[test]
fn model_scrolling_of_shown_window() {
    let mut m = model();
    m.scroll_up(5);
    let st = state_of(&m, WindowId::Console).unwrap();
    assert_eq!(st.msg_list_state.scroll, 0);
    let i = m.ui.window_state.iter().position(|(id, _)| *id == WindowId::Console).unwrap();
    m.ui.window_state[i].1.msg_list_state.total_height = 40;
    m.ui.window_state[i].1.last_height = 10;
    m.scroll_up(5);
    assert_eq!(state_of(&m, WindowId::Console).unwrap().msg_list_state.scroll, 5);
    m.scroll_top();
    assert_eq!(state_of(&m, WindowId::Console).unwrap().msg_list_state.scroll, 30);
    m.scroll_down(12);
    assert_eq!(state_of(&m, WindowId::Console).unwrap().msg_list_state.scroll, 18);
    m.scroll_bottom();
    assert_eq!(state_of(&m, WindowId::Console).unwrap().msg_list_state.scroll, 0);
}

#[test]
fn content_search() {
    let list = MessageContent::List(vec!["alpha".to_string(), "beta".to_string()]);
    assert!(list.contains("et"));
    assert!(!list.contains("gamma"));
    assert_eq!(list.as_text(), None);
    let game = MessageContent::GameInvite { game_type: "chess".to_string(), challenger: "bob".to_string() };
    assert!(game.contains("hes"));
    assert!(!game.contains("bob"));
}
