use toxxi::config::Config;
use toxxi::domain::{Connection, DomainState, FriendInfo, Key32, Model, UserStatus, WindowId};
use toxxi::input_box::InputBoxState;
use toxxi::message_list::MessageListState;
use toxxi::model::{Timestamp, ToxLogLevel};
use toxxi::reconcile::{ConferenceReconcileInfo, GroupReconcileInfo};
use toxxi::sidebar::{ContactStatus, SidebarItemType};
use toxxi::input_keys::KeyCode;
use toxxi::model::UiMode;
use toxxi::msg::{Cmd, FileControl, IOAction, ToxAction};

fn key(first: u8) -> Key32 {
    let mut k = [0u8; 32];
    k[0] = first;
    Key32(k)
}

fn ts(secs: i64, nanos: u32) -> Timestamp {
    Timestamp { secs, nanos, offset_secs: 0 }
}

fn model() -> Model {
    let d = DomainState::new("ID".to_string(), key(200), "Me".to_string(), String::new(), UserStatus::Available);
    Model::new(d, Config::default(), Config::default())
}

fn friend(name: &str, pk: Key32, connection: Connection) -> FriendInfo {
    FriendInfo {
        name: name.to_string(),
        public_key: Some(pk),
        status_message: "hi".to_string(),
        connection,
        last_sent_message_id: None,
        last_read_receipt: None,
        is_typing: false,
    }
}

#[test]
fn selected_message_scrolled_into_view() {
    let mut s = MessageListState::new();
    s.select(Some(0));
    // three messages of 2, 3 and 4 lines; the oldest sits 7 lines up.
    s.bring_selected_into_view(&[2, 3, 4], 5);
    assert_eq!(s.scroll, 4);
    assert!(!s.ensure_selected_visible);
    s.select(Some(2));
    s.bring_selected_into_view(&[2, 3, 4], 5);
    assert_eq!(s.scroll, 0);
    s.scroll = 1;
    s.select(Some(1));
    s.bring_selected_into_view(&[2, 3, 4], 10);
    assert_eq!(s.scroll, 1);
    s.scroll = 9;
    s.select(Some(1));
    s.bring_selected_into_view(&[2, 3, 4], 10);
    assert_eq!(s.scroll, 4);
}

#[test]
fn logs_listed_by_time() {
    let mut m = model();
    m.add_tox_log(ToxLogLevel::Info, "a.c".to_string(), 1, "f".to_string(), "second".to_string(), ts(5, 0));
    m.add_tox_log(ToxLogLevel::Error, "b.c".to_string(), 2, "g".to_string(), "first".to_string(), ts(4, 9));
    m.add_tox_log(ToxLogLevel::Info, "a.c".to_string(), 3, "f".to_string(), "third".to_string(), ts(5, 1));
    let all: Vec<String> = m.all_tox_logs_unfiltered().into_iter().map(|l| l.message).collect();
    assert_eq!(all, vec!["first", "second", "third"]);
    m.ui.log_filters.levels.push(ToxLogLevel::Info);
    let info: Vec<String> = m.all_tox_logs().into_iter().map(|l| l.message).collect();
    assert_eq!(info, vec!["second", "third"]);
}

#[test]
fn sidebar_orders_by_key() {
    let mut m = model();
    m.domain.friends.push((key(9), friend("Zed", key(9), Connection::Udp)));
    m.domain.friends.push((key(3), friend("Amy", key(3), Connection::Disconnected)));
    m.ensure_group_window(key(7));
    m.ensure_group_window(key(1));
    let items = m.sidebar_items();
    let names: Vec<&str> = items.iter().map(|i| i.name.as_str()).collect();
    assert_eq!(
        names,
        vec!["System", "Status", "Logs", "Files", "Friends", "Amy", "Zed", "Groups", "Group", "Group", "Conferences"]
    );
    assert_eq!(items[5].status, ContactStatus::Offline);
    assert_eq!(items[6].status, ContactStatus::Online);
    assert_eq!(items[6].status_message.as_deref(), Some("hi"));
    assert_eq!(items[8].item_type, SidebarItemType::Group);
    assert_eq!(items[1].status, ContactStatus::Offline);
}

#[test]
fn reconcile_rebuilds_session() {
    let mut m = model();
    m.domain.friends.push((key(3), FriendInfo { last_sent_message_id: Some(4), ..friend("Old", key(3), Connection::Tcp) }));
    m.session.friend_numbers.push((99, key(3)));
    m.reconcile(
        vec![(0, friend("Amy", key(3), Connection::Udp)), (1, friend("Bob", key(4), Connection::Udp))],
        vec![GroupReconcileInfo { number: 5, chat_id: key(7), name: None, role: None, self_name: Some("me".to_string()) }],
        vec![ConferenceReconcileInfo { number: 2, id: key(8), title: Some("Talk".to_string()) }],
    );
    assert_eq!(m.session.friend_numbers, vec![(0, key(3)), (1, key(4))]);
    assert_eq!(m.session.group_numbers, vec![(5, key(7))]);
    assert_eq!(m.domain.friends.len(), 2);
    assert_eq!(m.domain.friends[0].1.name, "Amy");
    assert_eq!(m.domain.friends[0].1.last_sent_message_id, Some(4));
    let conv = |w: WindowId| m.domain.conversations.iter().find(|(id, _)| *id == w).unwrap().1.clone();
    assert_eq!(conv(WindowId::Group(key(7))).name, "Group 5");
    assert_eq!(conv(WindowId::Group(key(7))).self_name.as_deref(), Some("me"));
    assert_eq!(conv(WindowId::Conference(key(8))).name, "Talk");
    assert_eq!(conv(WindowId::Conference(key(8))).topic.as_deref(), Some("Talk"));
    assert_eq!(conv(WindowId::Friend(key(4))).name, "Bob");
    assert!(m.ui.window_ids.contains(&WindowId::Friend(key(3))));
}

#[test]
fn undo_then_redo_round_trip() {
    let mut s = InputBoxState::new();
    s.insert_str("abc");
    s.insert_char('d');
    s.undo();
    assert_eq!((s.text.as_str(), s.cursor_pos), ("abc", 3));
    s.redo();
    assert_eq!((s.text.as_str(), s.cursor_pos), ("abcd", 4));
}

fn nav_key(c: toxxi::input_keys::KeyCode) -> toxxi::input_keys::KeyEvent {
    toxxi::input_keys::KeyEvent {
        code: c,
        modifiers: toxxi::input_keys::KeyModifiers {
            shift: false,
            control: false,
            alt: false,
            super_key: false,
            hyper: false,
            meta: false,
        },
    }
}

#[test]
fn navigation_keys_act_on_transfers() {
    let mut m = model();
    let pk = key(5);
    let file = key(6);
    m.ensure_friend_window(pk);
    m.session.friend_numbers.push((3, pk));
    m.add_file_transfer_message(WindowId::Friend(pk), false, file, "a.txt".to_string(), 10, true, ts(1, 0));
    m.set_active_window(1);
    m.ui.ui_mode = UiMode::Navigation;
    assert!(m.handle_navigation_key(nav_key(KeyCode::Down), ts(2, 0)).is_empty());
    let cmds = m.handle_navigation_key(nav_key(KeyCode::Char('a')), ts(2, 0));
    assert_eq!(cmds.len(), 2);
    assert!(matches!(&cmds[0], Cmd::IO(IOAction::OpenFileForReceiving(p, f, n, 10)) if *p == pk && *f == file && n == "a.txt"));
    assert!(matches!(cmds[1], Cmd::Tox(ToxAction::FileControl(_, _, FileControl::Resume))));
    let x = m.handle_navigation_key(nav_key(KeyCode::Char('x')), ts(2, 0));
    assert!(matches!(x[0], Cmd::Tox(ToxAction::FileControl(_, _, FileControl::Cancel))));
    m.handle_navigation_key(nav_key(KeyCode::Char('o')), ts(2, 0));
    assert!(m.ui.input_state.text.starts_with("/file accept 3 06000000"));
    assert!(m.ui.input_state.text.ends_with(" a.txt"));
    assert_eq!(m.ui.ui_mode, UiMode::Chat);
}
