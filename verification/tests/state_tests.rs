use toxxi::bootstrap::{bootstrap_candidates, bootstrap_plan, select_random_nodes, BootstrapStep, Node};
use toxxi::history::{history_down, history_up, record_history, InputHistory};
use toxxi::input_box::InputBoxState;
use toxxi::log_cleaner::{dedupe_records, scan_log, LogRecord};
use toxxi::message_list::{wrap_text, ChatLayout, ChatMessage, MessageContent, MessageListState, MessageStatus};
use toxxi::model::{
    highlight_pattern, should_highlight, status_priority, InputMode, LogFilters, MessageStatus as DeliveryStatus,
    Timestamp, ToxLogItem, ToxLogLevel, UiMode, WindowUiState,
};

fn lines(v: &[toxxi::message_list::WrappedLine]) -> Vec<(String, bool)> {
    v.iter().map(|l| (l.text.clone(), l.is_soft_wrap)).collect()
}

#[test]
fn wrap_text_breaks_between_words() {
    assert_eq!(
        lines(&wrap_text("hello world foo", 11)),
        vec![("hello world".to_string(), true), ("foo".to_string(), false)]
    );
}

#[test]
fn wrap_text_splits_long_words() {
    assert_eq!(
        lines(&wrap_text("abcdefgh", 3)),
        vec![("abc".to_string(), true), ("def".to_string(), true), ("gh".to_string(), false)]
    );
}

#[test]
fn wrap_text_keeps_paragraphs() {
    assert_eq!(
        lines(&wrap_text("a\n\nb", 10)),
        vec![("a".to_string(), false), ("".to_string(), false), ("b".to_string(), false)]
    );
    assert_eq!(lines(&wrap_text("x y", 0)), vec![("x y".to_string(), false)]);
}

fn text_message(sender: &str, t: u64, text: &str) -> ChatMessage {
    ChatMessage {
        sender: sender.to_string(),
        timestamp: "12:00".to_string(),
        unix_timestamp: t,
        content: MessageContent::Text(text.to_string()),
        status: MessageStatus::Delivered,
        is_me: false,
        highlighted: false,
    }
}

#[test]
fn message_list_selection_moves() {
    let mut s = MessageListState::new();
    s.select_next(3);
    assert_eq!(s.selected_index, Some(2));
    s.select_previous();
    assert_eq!(s.selected_index, Some(1));
    s.select(None);
    assert_eq!(s.selected_index, None);
    s.scroll_up();
    s.scroll_up();
    assert_eq!(s.scroll, 2);
    s.scroll_down();
    assert_eq!(s.scroll, 1);
    s.scroll_to_bottom();
    assert_eq!(s.scroll, 0);
}

#[test]
fn jump_to_first_message_at_time() {
    let ms = vec![text_message("a", 10, "x"), text_message("b", 20, "y"), text_message("c", 30, "z")];
    let mut s = MessageListState::new();
    s.jump_to_timestamp(15, &ms);
    assert_eq!(s.selected_index, Some(1));
    assert!(s.ensure_selected_visible);
    let mut t = MessageListState::new();
    t.jump_to_timestamp(99, &ms);
    assert_eq!(t.selected_index, None);
}

#[test]
fn layout_counts_message_heights() {
    let ms = vec![text_message("alice", 0, "hello"), text_message("alice", 10, "again")];
    let mut l = ChatLayout::new();
    l.update(&ms, 80);
    assert_eq!(l.processed_count, 2);
    assert!(l.total_height >= 2);
    let h = l.total_height;
    l.invalidate();
    assert_eq!((l.total_height, l.processed_count), (0, 0));
    l.update(&ms, 80);
    assert_eq!(l.total_height, h);
}

#[test]
fn log_scan_repairs_joined_objects() {
    let scan = scan_log("{\"a\":1}\n\n  {\"b\":2}{\"c\":3}  \r\n{1}{2}{3}\n");
    assert_eq!(scan.total_lines, 3);
    assert_eq!(scan.corrupted_lines, 2);
    assert_eq!(
        scan.objects,
        vec!["{\"a\":1}", "{\"b\":2}", "{\"c\":3}", "{1}", "{2}", "{3}"]
            .into_iter()
            .map(|s| s.to_string())
            .collect::<Vec<_>>()
    );
}

#[test]
fn log_scan_of_empty_text() {
    let scan = scan_log("");
    assert_eq!((scan.total_lines, scan.corrupted_lines, scan.objects.len()), (0, 0, 0));
}

fn rec(secs: i64, id: usize, status: DeliveryStatus) -> LogRecord {
    LogRecord { secs, nanos: 0, id, status }
}

#[test]
fn dedupe_keeps_furthest_record_per_message() {
    let records = vec![
        rec(10, 1, DeliveryStatus::Sending),
        rec(5, 2, DeliveryStatus::Sent(1)),
        rec(10, 1, DeliveryStatus::Received),
        rec(10, 1, DeliveryStatus::Sent(3)),
        rec(5, 2, DeliveryStatus::Sent(2)),
        rec(5, 1, DeliveryStatus::Failed),
    ];
    assert_eq!(dedupe_records(&records), (vec![5, 1, 2], 1));
    assert_eq!(dedupe_records(&vec![]), (vec![], 0));
}

#[test]
fn status_priorities() {
    assert_eq!(status_priority(&DeliveryStatus::Received), 4);
    assert_eq!(status_priority(&DeliveryStatus::Sent(7)), 3);
    assert_eq!(status_priority(&DeliveryStatus::Sending), 2);
    assert_eq!(status_priority(&DeliveryStatus::Pending), 1);
    assert_eq!(status_priority(&DeliveryStatus::Incoming), 0);
    assert_eq!(status_priority(&DeliveryStatus::Failed), -1);
}

#[test]
fn mode_defaults() {
    assert_eq!(InputMode::default(), InputMode::SingleLine);
    assert_eq!(UiMode::default(), UiMode::Chat);
}

#[test]
fn window_scrolling_is_bounded() {
    let mut w = WindowUiState::default();
    assert!(w.show_peers);
    w.msg_list_state.total_height = 50;
    w.last_height = 20;
    w.scroll_up(10);
    assert_eq!(w.msg_list_state.scroll, 10);
    w.scroll_up(100);
    assert_eq!(w.msg_list_state.scroll, 30);
    w.scroll_down(5);
    assert_eq!(w.msg_list_state.scroll, 25);
    w.scroll_down(100);
    assert_eq!(w.msg_list_state.scroll, 0);
    w.scroll_top();
    assert_eq!(w.msg_list_state.scroll, 30);
    w.scroll_bottom();
    assert_eq!(w.msg_list_state.scroll, 0);
    w.dirty_indices.insert(3);
    w.invalidate_full_cache();
    assert!(w.dirty_indices.is_empty());
    assert!(w.cached_messages.is_none());
}

fn log_item(level: ToxLogLevel, file: &str, func: &str, message: &str) -> ToxLogItem {
    ToxLogItem {
        level,
        file: file.to_string(),
        line: 1,
        func: func.to_string(),
        message: message.to_string(),
        timestamp: Timestamp { secs: 0, nanos: 0, offset_secs: 0 },
    }
}

#[test]
fn log_filters() {
    let item = log_item(ToxLogLevel::Info, "network.c", "net_connect", "connected to peer");
    let mut f = LogFilters::default();
    assert!(f.matches(&item));
    f.levels = vec![ToxLogLevel::Error];
    assert!(!f.matches(&item));
    f.levels = vec![ToxLogLevel::Error, ToxLogLevel::Info];
    assert!(f.matches(&item));
    f.file_pattern = Some("net".to_string());
    assert!(f.matches(&item));
    f.msg_pattern = Some("xyz".to_string());
    assert!(!f.matches(&item));
    f.msg_pattern = None;
    f.func_pattern = Some("connect".to_string());
    assert!(f.matches(&item));
}

#[test]
fn highlight_pattern_escapes_name() {
    assert_eq!(highlight_pattern("a.b"), "(?i)(^|[\\s@:.,!?])\\ba\\.b\\b($|[\\s:.,!?']|'s)");
    assert_eq!(highlight_pattern("bob"), "(?i)(^|[\\s@:.,!?])\\bbob\\b($|[\\s:.,!?']|'s)");
}

#[test]
fn highlight_by_name() {
    let none: Vec<String> = Vec::new();
    assert!(should_highlight(&none, "Alice", None, "hi alice!"));
    assert!(should_highlight(&none, "Alice", None, "@alice's turn"));
    assert!(!should_highlight(&none, "Alice", None, "hi alices"));
    assert!(should_highlight(&none, "Alice", Some("Bob"), "hey bob"));
    assert!(should_highlight(&vec!["rust".to_string()], "Alice", None, "I like Rust."));
    assert!(!should_highlight(&vec!["".to_string()], "", None, "anything at all"));
}

#[test]
fn history_recall_and_return() {
    let mut h = InputHistory::new();
    record_history(&mut h, "one".to_string());
    record_history(&mut h, "two".to_string());
    record_history(&mut h, "two".to_string());
    assert_eq!(h.entries, vec!["one".to_string(), "two".to_string()]);
    let mut input = InputBoxState::new();
    input.insert_str("draft");
    history_up(&mut h, &mut input);
    assert_eq!((h.index, input.text.as_str(), h.saved.as_str()), (Some(1), "two", "draft"));
    assert_eq!(input.cursor_pos, 3);
    history_up(&mut h, &mut input);
    assert_eq!((h.index, input.text.as_str()), (Some(0), "one"));
    history_up(&mut h, &mut input);
    assert_eq!((h.index, input.text.as_str()), (Some(0), "one"));
    history_down(&mut h, &mut input);
    assert_eq!((h.index, input.text.as_str()), (Some(1), "two"));
    history_down(&mut h, &mut input);
    assert_eq!((h.index, input.text.as_str()), (None, "draft"));
    history_down(&mut h, &mut input);
    assert_eq!((h.index, input.text.as_str()), (None, "draft"));
}

#[test]
fn history_up_without_entries_does_nothing() {
    let mut h = InputHistory::new();
    let mut input = InputBoxState::new();
    input.insert_str("typing");
    history_up(&mut h, &mut input);
    assert_eq!((h.index, input.text.as_str()), (None, "typing"));
}

fn node(ip: &str, udp: bool, tcp: bool, key: &str, tcp_ports: Option<Vec<u16>>) -> Node {
    Node {
        ipv4: ip.to_string(),
        ipv6: "-".to_string(),
        port: 33445,
        tcp_ports,
        public_key: key.to_string(),
        status_udp: udp,
        status_tcp: tcp,
        maintainer: "m".to_string(),
        location: "Earth".to_string(),
    }
}

#[test]
fn bootstrap_candidates_prefer_viable() {
    let key = "00".repeat(32);
    let nodes =
        vec![node("1.1.1.1", true, true, &key, None), node("2.2.2.2", true, false, &key, None), node("3.3.3.3", true, true, &key, None)];
    let two: Vec<String> = bootstrap_candidates(&nodes, 2).iter().map(|n| n.ipv4.clone()).collect();
    assert_eq!(two, vec!["1.1.1.1".to_string(), "3.3.3.3".to_string()]);
    let three: Vec<String> = bootstrap_candidates(&nodes, 3).iter().map(|n| n.ipv4.clone()).collect();
    assert_eq!(three, vec!["1.1.1.1".to_string(), "2.2.2.2".to_string(), "3.3.3.3".to_string()]);
}

#[test]
fn random_selection_draws_from_candidates() {
    let key = "00".repeat(32);
    let nodes =
        vec![node("1.1.1.1", true, true, &key, None), node("2.2.2.2", true, false, &key, None), node("3.3.3.3", true, true, &key, None)];
    for seed in 0..20u64 {
        let mut picked: Vec<String> = select_random_nodes(&nodes, 2, seed).iter().map(|n| n.ipv4.clone()).collect();
        picked.sort();
        assert_eq!(picked, vec!["1.1.1.1".to_string(), "3.3.3.3".to_string()]);
    }
    assert_eq!(select_random_nodes(&nodes, 10, 7).len(), 3);
    assert_eq!(select_random_nodes(&nodes, 0, 7).len(), 0);
}

#[test]
fn bootstrap_plan_steps() {
    let key = "ab".repeat(32);
    let nodes = vec![
        node("1.2.3.4", true, true, &key, Some(vec![443, 3389])),
        node("5.6.7.8", true, true, "zz", None),
        node("9.9.9.9", true, true, &key, None),
    ];
    let (logs, steps) = bootstrap_plan(&nodes);
    assert_eq!(
        logs,
        vec![
            "Bootstrapping to: 1.2.3.4 (Earth)".to_string(),
            "Bootstrapping to: 5.6.7.8 (Earth)".to_string(),
            "Bootstrapping to: 9.9.9.9 (Earth)".to_string()
        ]
    );
    let shape: Vec<(bool, String, u16, usize)> = steps
        .iter()
        .map(|s| match s {
            BootstrapStep::Bootstrap { host, port, key } => (false, host.clone(), *port, key.len()),
            BootstrapStep::TcpRelay { host, port, key } => (true, host.clone(), *port, key.len()),
        })
        .collect();
    assert_eq!(
        shape,
        vec![
            (false, "1.2.3.4".to_string(), 33445, 32),
            (true, "1.2.3.4".to_string(), 443, 32),
            (true, "1.2.3.4".to_string(), 3389, 32),
            (false, "9.9.9.9".to_string(), 33445, 32),
            (true, "9.9.9.9".to_string(), 33445, 32),
        ]
    );
    match &steps[0] {
        BootstrapStep::Bootstrap { key, .. } => assert!(key.iter().all(|b| *b == 0xab)),
        _ => panic!("first step bootstraps"),
    }
}
