use toxxi::command_menu::{calculate_score, find_fuzzy_indices, get_ranked_commands, Command, CommandMenuState};
use toxxi::completion::{get_replacement, get_start_position};
use toxxi::config::{Config, SystemMessageType};
use toxxi::input_box::InputBoxState;
use toxxi::panels::{picture_box_size, ProfileTabs, QrCodeModal};
use toxxi::pickers::{parse_query, EmojiPickerState, QuickSwitcherItem, QuickSwitcherState};
use toxxi::sidebar::{ContactStatus, SidebarItem, SidebarItemType, SidebarState};
use toxxi::status_bar::{braille_column_bits, get_dot_bit, window_list_range, StatusWindow};

fn commands() -> Vec<Command> {
    vec![
        Command::new("help", "Show help"),
        Command::new("quit", "Leave").alias("exit"),
        Command::new("nick", "Change name").args("<name>"),
    ]
}

#[test]
fn score_tiers() {
    assert_eq!(calculate_score("help", "help"), Some(1000));
    assert_eq!(calculate_score("Help", "help"), Some(1000));
    assert_eq!(calculate_score("help", "he"), Some(496));
    assert_eq!(calculate_score("friend", "fd"), Some(60));
    assert_eq!(calculate_score("status", "tu"), Some(75));
    assert_eq!(calculate_score("abc", "xyz"), None);
}

#[test]
fn fuzzy_indices_in_order() {
    assert_eq!(find_fuzzy_indices("friend", "fd"), vec![0, 5]);
    assert_eq!(find_fuzzy_indices("Friend", "F D"), vec![0, 5]);
    assert_eq!(find_fuzzy_indices("friend", "df"), Vec::<usize>::new());
    assert_eq!(find_fuzzy_indices("friend", " "), Vec::<usize>::new());
}

#[test]
fn ranking_by_score() {
    let cmds = commands();
    let all: Vec<&str> = get_ranked_commands(&cmds, "").iter().map(|c| c.name.as_str()).collect();
    assert_eq!(all, vec!["help", "quit", "nick"]);
    let q: Vec<&str> = get_ranked_commands(&cmds, "q").iter().map(|c| c.name.as_str()).collect();
    assert_eq!(q, vec!["quit"]);
    let e: Vec<&str> = get_ranked_commands(&cmds, "e").iter().map(|c| c.name.as_str()).collect();
    assert_eq!(e, vec!["quit", "help"]);
}

#[test]
fn menu_navigation_wraps() {
    let mut m = CommandMenuState::new(commands());
    assert_eq!(m.selected, Some(0));
    m.next();
    assert_eq!(m.selected, Some(1));
    m.next();
    m.next();
    assert_eq!(m.selected, Some(0));
    m.previous();
    assert_eq!(m.selected, Some(2));
    m.next();
    assert_eq!(m.selected, Some(0));
    assert_eq!(m.selected_command().map(|c| c.name.clone()), Some("help".to_string()));
}

#[test]
fn menu_completion_text() {
    let mut m = CommandMenuState::new(commands());
    assert_eq!(m.complete(), Some("/help".to_string()));
    m.previous();
    assert_eq!(m.complete(), Some("/nick ".to_string()));
}

#[test]
fn menu_filter_and_arguments() {
    let mut m = CommandMenuState::new(commands());
    m.set_filter("q".to_string());
    assert_eq!(m.filtered_commands().len(), 1);
    assert_eq!(m.selected, Some(0));
    assert_eq!(m.complete(), Some("/quit".to_string()));
    m.set_filter("nick ".to_string());
    assert_eq!(m.parent_path, vec!["nick".to_string()]);
    assert_eq!(m.filter, "");
    assert!(m.filtered_commands().is_empty());
    assert_eq!(m.selected, None);
    assert_eq!(m.complete(), None);
}

#[test]
fn menu_subcommands() {
    let root = vec![Command::new("file", "Files").subcommands(vec![
        Command::new("send", "Send a file").args("<path>"),
        Command::new("list", "List transfers"),
    ])];
    let mut m = CommandMenuState::new(root);
    m.set_filter("/file ".to_string());
    assert_eq!(m.parent_path, vec!["file".to_string()]);
    let names: Vec<String> = m.filtered_commands().iter().map(|c| c.name.clone()).collect();
    assert_eq!(names, vec!["send".to_string(), "list".to_string()]);
    assert_eq!(m.complete(), Some("/file send ".to_string()));
    m.set_filter("/file li".to_string());
    assert_eq!(m.filter, "li");
    assert_eq!(m.complete(), Some("/file list".to_string()));
}

#[test]
fn menu_dynamic_commands_follow() {
    let mut m = CommandMenuState::new(commands());
    m.set_filter("nick ".to_string());
    m.set_dynamic_commands(vec![Command::new("alice", "friend").dynamic(true)]);
    assert_eq!(m.selected, Some(0));
    assert_eq!(m.complete(), Some("/nick alice ".to_string()));
}

#[test]
fn command_builders() {
    let c = Command::new("msg", "Send").alias("m").args("<who> <text>").short_args("<w> <t>").short_description("send");
    assert_eq!(c.aliases, vec!["m".to_string()]);
    assert_eq!(c.args, "<who> <text>");
    assert_eq!(c.short_args, Some("<w> <t>".to_string()));
    assert_eq!(c.short_description, Some("send".to_string()));
    assert!(!c.is_dynamic);
}

#[test]
fn start_position_of_completion() {
    assert_eq!(get_start_position("hello wor"), 6);
    assert_eq!(get_start_position("ali"), 0);
    assert_eq!(get_start_position("/nick al"), 6);
    assert_eq!(get_start_position("/he"), 0);
    assert_eq!(get_start_position("/"), 0);
    assert_eq!(get_start_position("héllo x"), 7);
}

#[test]
fn replacement_of_completion() {
    assert_eq!(get_replacement("hello wor", "world", false), "hello world");
    assert_eq!(get_replacement("ali", "alice", false), "alice: ");
    assert_eq!(get_replacement("ali", "\u{1F600}", true), "\u{1F600}");
    assert_eq!(get_replacement("/he", "help", false), "help ");
    assert_eq!(get_replacement("/", "help", false), "help ");
    assert_eq!(get_replacement("/nick al", "alice", false), "/nick alice");
    assert_eq!(get_replacement("/nick ", "alice", false), "/nick alice");
}

#[test]
fn switcher_query_prefixes() {
    assert_eq!(parse_query("f: alice"), (Some("f".to_string()), "alice".to_string()));
    assert_eq!(parse_query(" > :cmd"), (Some(">".to_string()), "cmd".to_string()));
    assert_eq!(parse_query("hello"), (None, "hello".to_string()));
    assert_eq!(parse_query("x: y"), (None, "x: y".to_string()));
}

fn item(name: &str, description: &str, prefix: &str) -> QuickSwitcherItem {
    QuickSwitcherItem { name: name.to_string(), description: description.to_string(), prefix: prefix.to_string() }
}

#[test]
fn switcher_filters_and_moves() {
    let items = vec![
        item("Alice", "friend", "f"),
        item("Rust group", "group", "g"),
        item("Old chat", "said hello there", "h"),
    ];
    let mut s = QuickSwitcherState::new(items);
    assert_eq!(s.selected, Some(0));
    assert_eq!(s.filtered_items().len(), 3);
    s.input_state = InputBoxState::new();
    s.input_state.insert_str("g:");
    let names: Vec<String> = s.filtered_items().iter().map(|i| i.name.clone()).collect();
    assert_eq!(names, vec!["Rust group".to_string()]);
    s.input_state.clear();
    s.input_state.insert_str("hello");
    let names: Vec<String> = s.filtered_items().iter().map(|i| i.name.clone()).collect();
    assert_eq!(names, vec!["Old chat".to_string()]);
    s.input_state.clear();
    s.next();
    assert_eq!(s.selected, Some(1));
    s.previous();
    s.previous();
    assert_eq!(s.selected, Some(2));
}

fn table() -> Vec<(String, String)> {
    vec![
        ("smile".to_string(), "\u{1F604}".to_string()),
        ("smirk".to_string(), "\u{1F60F}".to_string()),
        ("heart".to_string(), "\u{2764}".to_string()),
    ]
}

#[test]
fn emoji_picker_filters_by_name() {
    let t = table();
    let mut p = EmojiPickerState::new();
    assert_eq!(p.filtered_emojis(&t).len(), 3);
    p.input_state.insert_str("sm");
    assert_eq!(p.filtered_emojis(&t), vec!["\u{1F604}".to_string(), "\u{1F60F}".to_string()]);
    p.next_item(&t);
    assert_eq!(p.get_selected_emoji(&t), Some("\u{1F60F}".to_string()));
    p.next_item(&t);
    assert_eq!(p.get_selected_emoji(&t), Some("\u{1F604}".to_string()));
    p.previous_item(&t);
    assert_eq!(p.get_selected_emoji(&t), Some("\u{1F60F}".to_string()));
    p.next(4, &t);
    assert_eq!(p.selected_index, 0);
    p.previous(4, &t);
    assert_eq!(p.selected_index, 1);
}

#[test]
fn sidebar_fold_and_unfold() {
    let mut s = SidebarState::new();
    assert!(!s.is_collapsed(SidebarItemType::Friend));
    s.toggle_category(SidebarItemType::Friend);
    assert!(s.is_collapsed(SidebarItemType::Friend));
    assert!(!s.is_collapsed(SidebarItemType::Group));
    s.toggle_category(SidebarItemType::Friend);
    assert!(!s.is_collapsed(SidebarItemType::Friend));
    assert!(s.collapsed_categories.is_empty());
}

#[test]
fn sidebar_item_builders() {
    let i = SidebarItem::new("Alice", SidebarItemType::Friend)
        .status(ContactStatus::Online)
        .unread(3)
        .typing(true)
        .status_message("away for lunch");
    assert_eq!(i.name, "Alice");
    assert_eq!(i.status, ContactStatus::Online);
    assert_eq!(i.unread_count, 3);
    assert!(i.is_typing);
    assert_eq!(i.status_message, Some("away for lunch".to_string()));
}

fn window(name: &str, index: usize, unread: usize, is_active: bool) -> StatusWindow {
    StatusWindow { name: name.to_string(), index, unread, is_active }
}

#[test]
fn status_bar_window_range() {
    let ws = vec![window("console", 0, 0, false), window("alice", 1, 0, true), window("bob", 2, 3, false)];
    assert_eq!(window_list_range(&ws, 30), (1, 2));
    assert_eq!(window_list_range(&ws, 40), (0, 2));
    assert_eq!(window_list_range(&ws, 10), (1, 1));
    assert_eq!(window_list_range(&ws, 0), (1, 1));
    let none_active = vec![window("a", 0, 0, false), window("b", 1, 0, false)];
    assert_eq!(window_list_range(&none_active, 100), (0, 1));
}

#[test]
fn braille_bits() {
    assert_eq!(braille_column_bits(0, false), 0);
    assert_eq!(braille_column_bits(1, false), 0x40);
    assert_eq!(braille_column_bits(4, false), 0x47);
    assert_eq!(braille_column_bits(2, true), 0xa0);
    assert_eq!(braille_column_bits(9, true), 0xb8);
    assert_eq!(get_dot_bit(0, 0), 0x01);
    assert_eq!(get_dot_bit(1, 2), 0x20);
    assert_eq!(get_dot_bit(0, 3), 0x40);
    assert_eq!(get_dot_bit(3, 7), 0x80);
}

#[test]
fn config_defaults_and_restart() {
    let c = Config::default();
    assert!(c.ipv6_enabled && c.udp_enabled && !c.local_discovery_enabled);
    assert_eq!((c.start_port, c.end_port), (33445, 33455));
    assert_eq!(
        c.enabled_system_messages,
        vec![SystemMessageType::Join, SystemMessageType::Leave, SystemMessageType::NickChange]
    );
    let mut d = Config::default();
    d.highlight_strings.push("rust".to_string());
    assert!(!c.requires_restart(&d));
    d.end_port = 33500;
    assert!(c.requires_restart(&d));
    assert!(d.requires_restart(&c));
}

#[test]
fn picture_sizes() {
    assert_eq!(picture_box_size(""), (2, 2));
    assert_eq!(picture_box_size("ab\ncde\n"), (5, 4));
    assert_eq!(picture_box_size("ab\r\ncd"), (4, 4));
}

#[test]
fn qr_modal_size_and_title() {
    let m = QrCodeModal::new("hi".to_string());
    assert_eq!(m.title, " Tox ID QR Code (Press any key to close) ");
    assert_eq!(m.required_size(), (31, 17));
    let m = m.title("QR".to_string());
    assert_eq!(m.title, "QR");
    assert_eq!(m.data, "hi");
}

#[test]
fn profile_tabs_keep_values() {
    let t = ProfileTabs::new(vec!["main".to_string(), "work".to_string()], 1);
    assert_eq!(t.profiles.len(), 2);
    assert_eq!(t.selected_index, 1);
}
