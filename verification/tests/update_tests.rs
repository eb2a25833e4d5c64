use toxxi::config::Config;
use toxxi::domain::{
    Connection, DomainState, GroupRole, Key32, MessageType, Model, PendingItem, UserStatus, WindowId,
};
use toxxi::model::{ConsoleMessageType, MessageStatus, Timestamp, TransferStatus};
use toxxi::msg::{Cmd, FileControl, GroupModEvent, IOAction, IOEvent, LogContext, LogSeverity, SystemEvent, ToxAction, ToxEvent};

fn key(first: [u8; 4]) -> Key32 {
    let mut k = [7u8; 32];
    k[..4].copy_from_slice(&first);
    Key32(k)
}

fn ts(secs: i64) -> Timestamp {
    Timestamp { secs, nanos: 0, offset_secs: 0 }
}

fn model() -> Model {
    let d = DomainState::new("ABCDEF".to_string(), key([1, 1, 1, 1]), "Me".to_string(), String::new(), UserStatus::Available);
    Model::new(d, Config::default(), Config::default())
}

fn tox(m: &mut Model, e: ToxEvent) -> Vec<Cmd> {
    m.handle_tox_event(e, ts(100), "0 B/s".to_string())
}

fn last_console(m: &Model) -> (ConsoleMessageType, String) {
    let c = m.domain.console_messages.last().unwrap();
    (c.msg_type, c.content.as_text().unwrap().to_string())
}

fn conv<'a>(m: &'a Model, w: WindowId) -> &'a toxxi::domain::Conversation {
    &m.domain.conversations.iter().find(|(id, _)| *id == w).unwrap().1
}

#[test]
fn friend_status_adds_unknown_friend() {
    let mut m = model();
    let pk = key([0xde, 0xad, 0xbe, 0xef]);
    let cmds = tox(&mut m, ToxEvent::FriendStatus(3, Connection::Udp, Some(pk)));
    assert!(cmds.is_empty());
    assert_eq!(m.session.friend_numbers, vec![(3, pk)]);
    assert_eq!(m.domain.friends.len(), 1);
    assert_eq!(m.domain.friends[0].1.name, "Friend deadbeef");
    assert_eq!(m.domain.friends[0].1.connection, Connection::Udp);
    tox(&mut m, ToxEvent::FriendStatus(3, Connection::Tcp, None));
    assert_eq!(m.domain.friends.len(), 1);
    assert_eq!(m.domain.friends[0].1.connection, Connection::Tcp);
    tox(&mut m, ToxEvent::FriendStatus(4, Connection::Tcp, None));
    assert_eq!(m.domain.friends.len(), 1);
}

#[test]
fn friend_name_renames_entry_and_window() {
    let mut m = model();
    let pk = key([1, 2, 3, 4]);
    tox(&mut m, ToxEvent::FriendStatus(0, Connection::Udp, Some(pk)));
    m.ensure_friend_window(pk);
    tox(&mut m, ToxEvent::FriendName(0, "Alice".to_string()));
    assert_eq!(m.domain.friends[0].1.name, "Alice");
    assert_eq!(conv(&m, WindowId::Friend(pk)).name, "Alice");
    tox(&mut m, ToxEvent::FriendStatusMessage(0, "busy day".to_string()));
    tox(&mut m, ToxEvent::FriendTyping(0, true));
    assert_eq!(m.domain.friends[0].1.status_message, "busy day");
    assert!(m.domain.friends[0].1.is_typing);
}

#[test]
fn friend_message_is_logged() {
    let mut m = model();
    let pk = key([1, 2, 3, 4]);
    tox(&mut m, ToxEvent::FriendStatus(0, Connection::Udp, Some(pk)));
    let cmds = tox(&mut m, ToxEvent::Message(0, MessageType::Normal, "hi".to_string()));
    assert_eq!(cmds.len(), 1);
    match &cmds[0] {
        Cmd::IO(IOAction::LogMessage(w, msg)) => {
            assert_eq!(*w, WindowId::Friend(pk));
            assert_eq!(msg.content.as_text(), Some("hi"));
            assert_eq!(msg.sender, "Friend 01020304");
        },
        _ => panic!("expected a log request"),
    }
    assert!(tox(&mut m, ToxEvent::Message(9, MessageType::Normal, "lost".to_string())).is_empty());
}

#[test]
fn sent_and_read_receipts_advance_status() {
    let mut m = model();
    let pk = key([1, 2, 3, 4]);
    tox(&mut m, ToxEvent::FriendStatus(0, Connection::Udp, Some(pk)));
    let out = m.add_outgoing_friend_message(pk, MessageType::Normal, "yo".to_string(), ts(1)).1;
    let cmds = tox(&mut m, ToxEvent::MessageSent(0, 5, out.internal_id));
    assert_eq!(cmds.len(), 1);
    assert_eq!(conv(&m, WindowId::Friend(pk)).messages[0].status, MessageStatus::Sent(5));
    tox(&mut m, ToxEvent::ReadReceipt(0, 4));
    assert_eq!(conv(&m, WindowId::Friend(pk)).messages[0].status, MessageStatus::Sent(5));
    tox(&mut m, ToxEvent::ReadReceipt(0, 5));
    assert_eq!(conv(&m, WindowId::Friend(pk)).messages[0].status, MessageStatus::Received);
    let failed = tox(&mut m, ToxEvent::MessageSendFailed(WindowId::Friend(pk), out.internal_id));
    assert_eq!(failed.len(), 1);
    assert_eq!(conv(&m, WindowId::Friend(pk)).messages[0].status, MessageStatus::Pending);
}

#[test]
fn group_created_opens_and_shows_window() {
    let mut m = model();
    let g = key([9, 9, 9, 9]);
    tox(&mut m, ToxEvent::GroupCreated(2, g, Some("Rust".to_string())));
    assert_eq!(m.session.group_numbers, vec![(2, g)]);
    assert_eq!(m.active_window_id(), WindowId::Group(g));
    assert_eq!(conv(&m, WindowId::Group(g)).name, "Rust");
    let c = key([8, 8, 8, 8]);
    tox(&mut m, ToxEvent::ConferenceCreated(4, c));
    assert_eq!(m.active_window_id(), WindowId::Conference(c));
    assert_eq!(conv(&m, WindowId::Conference(c)).name, "Conference 4");
}

#[test]
fn group_topic_announced_once() {
    let mut m = model();
    let g = key([9, 9, 9, 9]);
    tox(&mut m, ToxEvent::GroupCreated(2, g, None));
    assert_eq!(conv(&m, WindowId::Group(g)).name, "Group 2");
    let cmds = tox(&mut m, ToxEvent::GroupTopic(2, "news".to_string()));
    assert_eq!(cmds.len(), 1);
    let c = conv(&m, WindowId::Group(g));
    assert_eq!(c.topic.as_deref(), Some("news"));
    assert_eq!(c.messages.last().unwrap().content.as_text(), Some("* Topic changed to: news"));
    assert_eq!(c.messages.last().unwrap().sender, "System");
    assert!(tox(&mut m, ToxEvent::GroupTopic(2, "news".to_string())).is_empty());
    let named = tox(&mut m, ToxEvent::GroupName(2, "Crabs".to_string()));
    assert_eq!(named.len(), 1);
    assert_eq!(conv(&m, WindowId::Group(g)).name, "Crabs");
    tox(&mut m, ToxEvent::GroupSelfRole(2, GroupRole::Moderator));
    assert_eq!(conv(&m, WindowId::Group(g)).self_role, Some(GroupRole::Moderator));
}

#[test]
fn conference_title_names_and_tops() {
    let mut m = model();
    let c = key([8, 8, 8, 8]);
    tox(&mut m, ToxEvent::ConferenceCreated(1, c));
    let cmds = tox(&mut m, ToxEvent::ConferenceTitle(1, "Chat".to_string()));
    assert_eq!(cmds.len(), 1);
    assert_eq!(conv(&m, WindowId::Conference(c)).name, "Chat");
    assert_eq!(conv(&m, WindowId::Conference(c)).topic.as_deref(), Some("Chat"));
}

#[test]
fn group_peers_join_rename_and_leave() {
    let mut m = model();
    let g = key([9, 9, 9, 9]);
    let bob = key([5, 5, 5, 5]);
    tox(&mut m, ToxEvent::GroupCreated(2, g, None));
    let joined = tox(&mut m, ToxEvent::GroupPeerJoin(2, 7, "bob".to_string(), GroupRole::User, bob));
    assert_eq!(joined.len(), 1);
    let c = conv(&m, WindowId::Group(g));
    assert_eq!(c.peers.len(), 1);
    assert_eq!(c.peers[0].name, "bob");
    assert_eq!(c.messages.last().unwrap().content.as_text(), Some("* bob joined the group"));
    tox(&mut m, ToxEvent::GroupPeerJoin(2, 7, "bob".to_string(), GroupRole::User, bob));
    assert_eq!(conv(&m, WindowId::Group(g)).peers.len(), 1);
    let renamed = tox(&mut m, ToxEvent::GroupPeerName(2, 7, "robert".to_string(), GroupRole::Moderator, bob));
    assert_eq!(renamed.len(), 1);
    let c = conv(&m, WindowId::Group(g));
    assert_eq!(c.peers[0].name, "robert");
    assert_eq!(c.peers[0].role, Some(GroupRole::Moderator));
    assert_eq!(c.messages.last().unwrap().content.as_text(), Some("* bob is now known as robert"));
    tox(&mut m, ToxEvent::GroupPeerStatus(2, 7, UserStatus::Away));
    assert_eq!(conv(&m, WindowId::Group(g)).peers[0].status, UserStatus::Away);
    let left = tox(&mut m, ToxEvent::GroupPeerLeave(2, 7));
    assert_eq!(left.len(), 1);
    assert!(conv(&m, WindowId::Group(g)).peers.is_empty());
    assert!(m.session.group_peer_numbers.is_empty());
}

#[test]
fn own_join_is_ignored_and_own_rename_sets_nick() {
    let mut m = model();
    let g = key([9, 9, 9, 9]);
    let me = m.domain.self_public_key;
    tox(&mut m, ToxEvent::GroupCreated(2, g, None));
    assert!(tox(&mut m, ToxEvent::GroupPeerJoin(2, 0, "Me".to_string(), GroupRole::Founder, me)).is_empty());
    assert!(conv(&m, WindowId::Group(g)).peers.is_empty());
    let cmds = tox(&mut m, ToxEvent::GroupPeerName(2, 0, "Boss".to_string(), GroupRole::Founder, me));
    assert_eq!(cmds.len(), 1);
    assert_eq!(conv(&m, WindowId::Group(g)).self_name.as_deref(), Some("Boss"));
    assert_eq!(conv(&m, WindowId::Group(g)).self_role, Some(GroupRole::Founder));
}

#[test]
fn conference_peers_follow_events() {
    let mut m = model();
    let c = key([8, 8, 8, 8]);
    let ann = key([6, 6, 6, 6]);
    tox(&mut m, ToxEvent::ConferenceCreated(1, c));
    tox(&mut m, ToxEvent::ConferencePeerJoin(1, 0, "ann".to_string(), ann));
    tox(&mut m, ToxEvent::ConferencePeerName(1, 0, "anna".to_string(), ann));
    assert_eq!(conv(&m, WindowId::Conference(c)).peers[0].name, "anna");
    tox(&mut m, ToxEvent::ConferencePeerLeave(1, 0, ann));
    assert!(conv(&m, WindowId::Conference(c)).peers.is_empty());
}

#[test]
fn invites_and_requests_wait_for_answer() {
    let mut m = model();
    let pk = key([1, 2, 3, 4]);
    tox(&mut m, ToxEvent::FriendRequest(pk, "add me".to_string()));
    assert!(matches!(&m.domain.pending_items[0], PendingItem::FriendRequest { message, .. } if message == "add me"));
    tox(&mut m, ToxEvent::GroupInvite(0, "aa".to_string(), "Club".to_string()));
    assert_eq!(last_console(&m), (ConsoleMessageType::Error, "Received group invite from unknown friend number 0".to_string()));
    tox(&mut m, ToxEvent::FriendStatus(0, Connection::Udp, Some(pk)));
    tox(&mut m, ToxEvent::GroupInvite(0, "aa".to_string(), "Club".to_string()));
    assert_eq!(last_console(&m), (ConsoleMessageType::Info, "Received group invite for 'Club' from friend 0".to_string()));
    assert_eq!(m.domain.pending_items.len(), 2);
    tox(&mut m, ToxEvent::GroupModeration(3, 1, 2, GroupModEvent::Kick));
    assert_eq!(last_console(&m).1, "Group 3: Moderation event TOX_GROUP_MOD_EVENT_KICK on peer 2");
}

#[test]
fn file_offer_recorded_and_controlled() {
    let mut m = model();
    let pk = key([1, 2, 3, 4]);
    let file = key([4, 4, 4, 4]);
    tox(&mut m, ToxEvent::FriendStatus(0, Connection::Udp, Some(pk)));
    m.ensure_friend_window(pk);
    let cmds = tox(&mut m, ToxEvent::FileRecv(0, file, 0, 2048, "cat.png".to_string()));
    assert_eq!(cmds.len(), 1);
    assert_eq!(last_console(&m).1, "File offer from friend 0: cat.png (2048 bytes)");
    assert_eq!(m.domain.file_transfers.len(), 1);
    assert!(m.domain.file_transfers[0].1.is_receiving);
    tox(&mut m, ToxEvent::FileRecvControl(0, file, FileControl::Pause));
    assert_eq!(m.domain.file_transfers[0].1.status, TransferStatus::Paused);
    tox(&mut m, ToxEvent::FileRecvControl(0, file, FileControl::Resume));
    assert_eq!(m.domain.file_transfers[0].1.status, TransferStatus::Active);
    let cancel = tox(&mut m, ToxEvent::FileRecvControl(0, file, FileControl::Cancel));
    assert!(matches!(cancel[0], Cmd::IO(IOAction::CloseFile(p, f)) if p == pk && f == file));
    assert_eq!(cancel.len(), 2);
    assert!(m.domain.file_transfers.is_empty());
    let other = tox(&mut m, ToxEvent::FileRecv(0, file, 1, 10, "avatar".to_string()));
    assert!(matches!(other[0], Cmd::Tox(ToxAction::FileControl(_, _, FileControl::Cancel))));
    assert_eq!(last_console(&m).1, "Ignored file transfer of kind 1 from friend 0: avatar");
}

#[test]
fn chunk_events_track_progress() {
    let mut m = model();
    let pk = key([1, 2, 3, 4]);
    let file = key([4, 4, 4, 4]);
    m.ensure_friend_window(pk);
    let started = m.handle_io_event(IOEvent::FileStarted(pk, file, "/tmp/dir/notes.txt".to_string(), 10), ts(1), String::new());
    assert_eq!(started.len(), 2);
    assert!(matches!(&started[1], Cmd::IO(IOAction::OpenFileForSending(_, _, path)) if path == "/tmp/dir/notes.txt"));
    assert_eq!(m.domain.file_transfers[0].1.filename, "notes.txt");
    tox(&mut m, ToxEvent::FriendStatus(0, Connection::Udp, Some(pk)));
    let part = tox(&mut m, ToxEvent::FileChunkSent(0, file, 0, 4));
    assert!(part.is_empty());
    assert_eq!(m.domain.file_transfers[0].1.transferred, 4);
    let done = tox(&mut m, ToxEvent::FileChunkSent(0, file, 4, 6));
    assert!(matches!(done[0], Cmd::IO(IOAction::CloseFile(_, _))));
    let req = tox(&mut m, ToxEvent::FileChunkRequest(0, file, 8, 2));
    assert!(matches!(req[0], Cmd::IO(IOAction::ReadChunk(_, _, 8, 2))));
    let fin = m.handle_io_event(IOEvent::FileFinished(pk, file), ts(2), String::new());
    assert_eq!(fin.len(), 1);
    assert!(m.domain.file_transfers.is_empty());
    assert!(last_console(&m).1.starts_with("File transfer finished: ID 04040404"));
}

#[test]
fn io_errors_reach_console() {
    let mut m = model();
    m.handle_io_event(IOEvent::ProfileSaved, ts(1), String::new());
    assert_eq!(last_console(&m), (ConsoleMessageType::Status, "Profile saved successfully.".to_string()));
    m.handle_io_event(IOEvent::Error("disk full".to_string()), ts(1), String::new());
    assert_eq!(last_console(&m), (ConsoleMessageType::Error, "I/O Error: disk full".to_string()));
}

#[test]
fn tick_withdraws_typing_and_resends_pending() {
    let mut m = model();
    let pk = key([1, 2, 3, 4]);
    m.ensure_friend_window(pk);
    m.set_active_window(1);
    m.ui.is_typing_sent = true;
    m.ui.last_typing_activity = Some(1000);
    let out = m.add_outgoing_friend_message(pk, MessageType::Normal, "again".to_string(), ts(1)).1;
    assert_eq!(out.status, MessageStatus::Pending);
    let cmds = m.handle_system_event(SystemEvent::Tick, ts(2), 5000);
    assert!(matches!(cmds[0], Cmd::Tox(ToxAction::SetTyping(p, false)) if p == pk));
    assert!(!m.ui.is_typing_sent);
    assert_eq!(m.tick_count, 1);
    m.tick_count = 24;
    let resend = m.handle_system_event(SystemEvent::Tick, ts(3), 5000);
    assert_eq!(resend.len(), 2);
    assert!(matches!(&resend[1], Cmd::Tox(ToxAction::SendMessage(p, _, text, id)) if *p == pk && text == "again" && *id == out.internal_id));
    assert_eq!(conv(&m, WindowId::Friend(pk)).messages[0].status, MessageStatus::Sending);
}

#[test]
fn error_log_reaches_window() {
    let mut m = model();
    let pk = key([1, 2, 3, 4]);
    m.ensure_friend_window(pk);
    let cmds = m.handle_system_event(
        SystemEvent::Log { severity: LogSeverity::Error, context: LogContext::Friend(pk), message: "oops".to_string() },
        ts(1),
        0,
    );
    assert_eq!(cmds.len(), 1);
    assert_eq!(last_console(&m), (ConsoleMessageType::Error, "oops".to_string()));
    assert_eq!(conv(&m, WindowId::Friend(pk)).messages.last().unwrap().content.as_text(), Some("oops"));
    let none = m.handle_system_event(
        SystemEvent::Log { severity: LogSeverity::Warning, context: LogContext::Global, message: "hm".to_string() },
        ts(1),
        0,
    );
    assert!(none.is_empty());
    assert_eq!(last_console(&m).0, ConsoleMessageType::Status);
}

#[test]
fn connection_and_address_recorded() {
    let mut m = model();
    tox(&mut m, ToxEvent::ConnectionStatus(Connection::Tcp));
    assert_eq!(m.domain.self_connection_status, Connection::Tcp);
    tox(&mut m, ToxEvent::Address("FEED".to_string()));
    assert_eq!(m.domain.tox_id, "FEED");
}
