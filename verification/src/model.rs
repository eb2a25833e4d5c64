//! Message identity and delivery state as the chat model records them.
use crate::message_list::{ChatLayout, ChatMessage, MessageListState};
use crate::pickers::{contains_exec, contains_seq, EmojiGridState};
use crate::text::{byte_len, push_all, str_byte_len, str_chars, string_from_chars};
use std::collections::HashSet;
use vstd::prelude::*;

verus! {

/// A message's number within its conversation.
#[derive(Debug, Clone, Copy, PartialEq, Eq, PartialOrd, Ord, Hash, Structural)]
pub struct InternalMessageId(pub usize);

/// How far a message has come.
#[derive(Debug, Clone, Copy, PartialEq, Eq, Structural)]
pub enum MessageStatus {
    Incoming,
    Pending,
    Sending,
    Sent(u32),
    Received,
    Failed,
}

/// How far along a status is: received, sent, sending, pending, incoming,
/// failed, from most to least.
pub open spec fn status_rank(s: MessageStatus) -> int {
    match s {
        MessageStatus::Received => 4,
        MessageStatus::Sent(_) => 3,
        MessageStatus::Sending => 2,
        MessageStatus::Pending => 1,
        MessageStatus::Incoming => 0,
        MessageStatus::Failed => -1,
    }
}

/// How far along a status is; a later record of a message replaces an
/// earlier one only when it is further along.
pub fn status_priority(status: &MessageStatus) -> (r: i32)
    ensures
        r == status_rank(*status),
{
    match status {
        MessageStatus::Received => 4,
        MessageStatus::Sent(_) => 3,
        MessageStatus::Sending => 2,
        MessageStatus::Pending => 1,
        MessageStatus::Incoming => 0,
        MessageStatus::Failed => -1,
    }
}

/// The kind of a line in the console window.
#[derive(Debug, Clone, Copy, PartialEq, Eq, Structural)]
pub enum ConsoleMessageType {
    Info,
    Log,
    Status,
    Debug,
    Error,
}

/// Where a file transfer stands.
#[derive(Debug, Clone, Copy, PartialEq, Eq, Structural)]
pub enum TransferStatus {
    Active,
    Paused,
    Completed,
    Failed,
    Canceled,
}

/// Whether the input box takes one line or several.
#[derive(Debug, Clone, Copy, PartialEq, Eq, Structural)]
pub enum InputMode {
    SingleLine,
    MultiLine,
}

impl Default for InputMode {
    fn default() -> (m: Self)
        ensures
            m == InputMode::SingleLine,
    {
        InputMode::SingleLine
    }
}

/// Whether keys go to the chat or move between windows.
#[derive(Debug, Clone, Copy, PartialEq, Eq, Structural)]
pub enum UiMode {
    Chat,
    Navigation,
}

impl Default for UiMode {
    fn default() -> (m: Self)
        ensures
            m == UiMode::Chat,
    {
        UiMode::Chat
    }
}

/// The state of tab completion in the input box.
#[derive(Clone)]
pub struct CompletionState {
    pub active: bool,
    pub candidates: Vec<String>,
    pub index: usize,
    pub original_input: String,
    pub emoji_grid_state: EmojiGridState,
}

/// What the client keeps per window besides its messages: the list's
/// scrolling, unread count, whether the peer list shows, the height the
/// list had when last drawn, and what is cached for drawing.
#[derive(Debug)]
pub struct WindowUiState {
    pub msg_list_state: MessageListState,
    pub unread_count: usize,
    pub show_peers: bool,
    pub last_height: usize,
    pub cached_messages: Option<Vec<ChatMessage>>,
    pub layout: ChatLayout,
    pub dirty_indices: HashSet<usize>,
}

impl Default for WindowUiState {
    fn default() -> (s: Self)
        ensures
            s.msg_list_state.scroll == 0,
            s.msg_list_state.selected_index is None,
            s.msg_list_state.total_height == 0,
            s.unread_count == 0,
            s.show_peers,
            s.last_height == 0,
            s.cached_messages is None,
            s.layout.cache@ == Map::<u16, crate::message_list::LayoutCacheEntry>::empty(),
            s.layout.total_height == 0,
            s.dirty_indices@ == Set::<usize>::empty(),
    {
        WindowUiState {
            msg_list_state: MessageListState::new(),
            unread_count: 0,
            show_peers: true,
            last_height: 0,
            cached_messages: None,
            layout: ChatLayout::new(),
            dirty_indices: HashSet::new(),
        }
    }
}

/// How far a window can scroll back: the lines that do not fit.
pub open spec fn max_scroll(w: WindowUiState) -> int {
    if w.msg_list_state.total_height >= w.last_height {
        w.msg_list_state.total_height - w.last_height
    } else {
        0
    }
}

/// The state scrolled to `scroll`, all else kept.
pub open spec fn with_scroll(w: WindowUiState, scroll: usize) -> WindowUiState {
    WindowUiState { msg_list_state: MessageListState { scroll, ..w.msg_list_state }, ..w }
}

/// The state scrolled back by `amount` lines, no further than the oldest.
pub open spec fn scrolled_up(w: WindowUiState, amount: usize) -> WindowUiState {
    with_scroll(
        w,
        if w.msg_list_state.scroll + amount <= max_scroll(w) {
            (w.msg_list_state.scroll + amount) as usize
        } else {
            max_scroll(w) as usize
        },
    )
}

/// The state scrolled forward by `amount` lines, no further than the
/// newest.
pub open spec fn scrolled_down(w: WindowUiState, amount: usize) -> WindowUiState {
    with_scroll(
        w,
        if w.msg_list_state.scroll >= amount {
            (w.msg_list_state.scroll - amount) as usize
        } else {
            0
        },
    )
}

impl WindowUiState {
    /// Makes the next draw lay the messages out again.
    pub fn invalidate_layout(&mut self)
        ensures
            final(self).layout.cache@ == Map::<u16, crate::message_list::LayoutCacheEntry>::empty(),
            final(self).layout.total_height == 0,
            final(self).layout.last_width == 0,
            final(self).layout.processed_count == 0,
            final(self).msg_list_state == old(self).msg_list_state,
            final(self).unread_count == old(self).unread_count,
            final(self).show_peers == old(self).show_peers,
            final(self).last_height == old(self).last_height,
            final(self).cached_messages == old(self).cached_messages,
            final(self).dirty_indices == old(self).dirty_indices,
    {
        self.layout.invalidate();
    }

    /// Drops everything cached for drawing: the messages, the changed
    /// indices and the layout.
    pub fn invalidate_full_cache(&mut self)
        ensures
            final(self).cached_messages is None,
            final(self).dirty_indices@ == Set::<usize>::empty(),
            final(self).layout.cache@ == Map::<u16, crate::message_list::LayoutCacheEntry>::empty(),
            final(self).layout.total_height == 0,
            final(self).layout.last_width == 0,
            final(self).layout.processed_count == 0,
            final(self).msg_list_state == old(self).msg_list_state,
            final(self).unread_count == old(self).unread_count,
            final(self).show_peers == old(self).show_peers,
            final(self).last_height == old(self).last_height,
    {
        self.cached_messages = None;
        self.dirty_indices.clear();
        self.layout.invalidate();
    }

    /// Scrolls back by `amount` lines, no further than the oldest line.
    pub fn scroll_up(&mut self, amount: usize)
        requires
            old(self).msg_list_state.scroll + amount <= usize::MAX,
        ensures
            *final(self) == scrolled_up(*old(self), amount),
    {
        let max = self.msg_list_state.total_height.saturating_sub(self.last_height);
        let wanted = self.msg_list_state.scroll + amount;
        self.msg_list_state.scroll = if wanted <= max {
            wanted
        } else {
            max
        };
    }

    /// Scrolls forward by `amount` lines, no further than the newest.
    pub fn scroll_down(&mut self, amount: usize)
        ensures
            *final(self) == scrolled_down(*old(self), amount),
    {
        self.msg_list_state.scroll = self.msg_list_state.scroll.saturating_sub(amount);
    }

    /// Scrolls back to the oldest line.
    pub fn scroll_top(&mut self)
        ensures
            *final(self) == with_scroll(*old(self), max_scroll(*old(self)) as usize),
    {
        self.msg_list_state.scroll = self.msg_list_state.total_height.saturating_sub(self.last_height);
    }

    /// Scrolls to the newest line.
    pub fn scroll_bottom(&mut self)
        ensures
            *final(self) == with_scroll(*old(self), 0),
    {
        self.msg_list_state.scroll_to_bottom();
    }
}

/// The levels of the network library's own log.
#[derive(Debug, Clone, Copy, PartialEq, Eq, Structural)]
pub enum ToxLogLevel {
    Trace,
    Debug,
    Info,
    Warning,
    Error,
}

/// An instant with the offset it was seen at: seconds and nanoseconds
/// since the epoch, and the offset from UTC in seconds.
#[derive(Debug, Clone, Copy, PartialEq, Eq, Structural)]
pub struct Timestamp {
    pub secs: i64,
    pub nanos: u32,
    pub offset_secs: i32,
}

/// A line of the network library's log: its level, where in the library
/// it was written, the text, and when.
#[derive(Debug, Clone)]
pub struct ToxLogItem {
    pub level: ToxLogLevel,
    pub file: String,
    pub line: u32,
    pub func: String,
    pub message: String,
    pub timestamp: Timestamp,
}

/// Which log lines the log window shows: those of the listed levels (all
/// levels when none is listed) whose file, function and text contain the
/// given patterns; `paused` stops recording.
#[derive(Debug, Clone)]
pub struct LogFilters {
    pub levels: Vec<ToxLogLevel>,
    pub file_pattern: Option<String>,
    pub func_pattern: Option<String>,
    pub msg_pattern: Option<String>,
    pub paused: bool,
}

impl Default for LogFilters {
    fn default() -> (f: Self)
        ensures
            f.levels@.len() == 0,
            f.file_pattern is None,
            f.func_pattern is None,
            f.msg_pattern is None,
            !f.paused,
    {
        LogFilters { levels: Vec::new(), file_pattern: None, func_pattern: None, msg_pattern: None, paused: false }
    }
}

/// `s` contains the pattern, if there is one.
pub open spec fn pattern_admits(pattern: Option<String>, s: Seq<char>) -> bool {
    match pattern {
        Some(p) => contains_seq(s, p@),
        None => true,
    }
}

/// The filters let the item through.
pub open spec fn filters_admit(f: LogFilters, item: ToxLogItem) -> bool {
    &&& (f.levels@.len() == 0 || f.levels@.contains(item.level))
    &&& pattern_admits(f.file_pattern, item.file@)
    &&& pattern_admits(f.func_pattern, item.func@)
    &&& pattern_admits(f.msg_pattern, item.message@)
}

fn pattern_admits_exec(pattern: &Option<String>, s: &String) -> (r: bool)
    ensures
        r == pattern_admits(*pattern, s@),
{
    match pattern {
        Some(p) => {
            let hay = str_chars(s.as_str());
            let needle = str_chars(p.as_str());
            contains_exec(&hay, &needle)
        },
        None => true,
    }
}

impl LogFilters {
    /// Whether the log window shows `item`.
    pub fn matches(&self, item: &ToxLogItem) -> (r: bool)
        ensures
            r == filters_admit(*self, *item),
    {
        if self.levels.len() > 0 {
            let mut found = false;
            let mut i: usize = 0;
            while i < self.levels.len()
                invariant
                    i <= self.levels@.len(),
                    found <==> exists|j: int| 0 <= j < i && self.levels@[j] == item.level,
                decreases self.levels@.len() - i,
            {
                if self.levels[i] == item.level {
                    found = true;
                }
                i = i + 1;
            }
            if !found {
                assert(!self.levels@.contains(item.level));
                return false;
            }
        }
        pattern_admits_exec(&self.file_pattern, &item.file) && pattern_admits_exec(&self.func_pattern, &item.func)
            && pattern_admits_exec(&self.msg_pattern, &item.message)
    }
}

/// A character with a meaning of its own in a regular expression.
pub open spec fn is_regex_meta(c: char) -> bool {
    c == '\\' || c == '.' || c == '+' || c == '*' || c == '?' || c == '(' || c == ')' || c == '|' || c == '['
        || c == ']' || c == '{' || c == '}' || c == '^' || c == '$' || c == '#' || c == '&' || c == '-' || c
        == '~'
}

/// `s` with a backslash before each such character, to be matched as it
/// stands.
pub open spec fn regex_escaped(s: Seq<char>) -> Seq<char>
    decreases s.len(),
{
    if s.len() == 0 {
        Seq::empty()
    } else {
        regex_escaped(s.drop_last()) + if is_regex_meta(s.last()) {
            seq!['\\', s.last()]
        } else {
            seq![s.last()]
        }
    }
}

/// `regex::escape`: puts a backslash before every character that means
/// something in a pattern (the crate's documented list of meta characters)
/// and leaves the others as they are.
#[verifier::external_body]
fn regex_escape(s: &str) -> (r: String)
    ensures
        r@ == regex_escaped(s@),
{
    regex::escape(s)
}

/// Whether the regular expression `pattern` matches somewhere in `text`;
/// nothing when the pattern is not a valid expression.
pub uninterp spec fn regex_search(pattern: Seq<char>, text: Seq<char>) -> Option<bool>;

/// `regex::Regex::new(pattern)` and, when it builds, `is_match(text)`.
/// Both depend on the two strings alone; what they compute is left to the
/// crate and named `regex_search`.
#[verifier::external_body]
fn regex_is_match(pattern: &str, text: &str) -> (r: Option<bool>)
    ensures
        r == regex_search(pattern@, text@),
{
    match regex::Regex::new(pattern) {
        Ok(re) => Some(re.is_match(text)),
        Err(_) => None,
    }
}

/// The pattern that finds a name in a message: case ignored, the name as
/// a whole word at the start or after a space or punctuation, and followed
/// by the end, a space, punctuation or `'s`.
pub open spec fn highlight_pattern_spec(name: Seq<char>) -> Seq<char> {
    "(?i)(^|[\\s@:.,!?])\\b"@ + regex_escaped(name) + "\\b($|[\\s:.,!?']|'s)"@
}

fn push_escaped(out: &mut Vec<char>, name: &str)
    ensures
        final(out)@ == old(out)@ + regex_escaped(name@),
{
    let escaped = regex_escape(name);
    let cs = str_chars(escaped.as_str());
    push_all(out, &cs);
}

/// The pattern that finds `name` in a message.
pub fn highlight_pattern(name: &str) -> (r: String)
    ensures
        r@ == highlight_pattern_spec(name@),
{
    let mut cs = str_chars("(?i)(^|[\\s@:.,!?])\\b");
    push_escaped(&mut cs, name);
    let tail = str_chars("\\b($|[\\s:.,!?']|'s)");
    push_all(&mut cs, &tail);
    string_from_chars(cs.as_slice())
}

/// The characters of an optional string.
pub open spec fn opt_str_view(o: Option<&str>) -> Option<Seq<char>> {
    match o {
        Some(g) => Some(g@),
        None => None,
    }
}

/// The names a message is searched for: the configured highlight words,
/// the user's own name, and the user's name in the group, if any.
pub open spec fn highlight_names(words: Seq<String>, self_name: Seq<char>, group_self_name: Option<Seq<char>>) -> Seq<
    Seq<char>,
> {
    let base = words.map_values(|w: String| w@).push(self_name);
    match group_self_name {
        Some(g) => base.push(g),
        None => base,
    }
}

/// Whether a name is to be searched for (it is not empty), and if so
/// whether it is found in `text`.
fn name_found(name: &str, text: &str) -> (r: bool)
    ensures
        r == (name@.len() > 0 && regex_search(highlight_pattern_spec(name@), text@) == Some(true)),
{
    let n = str_byte_len(name);
    if n == 0 {
        assert(name@.len() > 0 ==> byte_len(name@) > 0);
        return false;
    }
    let pattern = highlight_pattern(name);
    match regex_is_match(pattern.as_str(), text) {
        Some(b) => b,
        None => false,
    }
}

/// A message is highlighted when one of the names (empty ones aside) is
/// found in it.
pub fn should_highlight(
    highlight_strings: &Vec<String>,
    self_name: &str,
    group_self_name: Option<&str>,
    text: &str,
) -> (r: bool)
    ensures
        r == exists|i: int|
            0 <= i < highlight_names(highlight_strings@, self_name@, opt_str_view(group_self_name)).len()
                && #[trigger] highlight_names(
                highlight_strings@,
                self_name@,
                opt_str_view(group_self_name),
            )[i].len() > 0 && regex_search(
                highlight_pattern_spec(
                    highlight_names(highlight_strings@, self_name@, opt_str_view(group_self_name))[i],
                ),
                text@,
            ) == Some(true),
{
    let ghost names = highlight_names(highlight_strings@, self_name@, opt_str_view(group_self_name));
    let mut i: usize = 0;
    while i < highlight_strings.len()
        invariant
            i <= highlight_strings@.len(),
            names == highlight_names(highlight_strings@, self_name@, opt_str_view(group_self_name)),
            forall|j: int|
                0 <= j < i ==> !(#[trigger] names[j].len() > 0 && regex_search(
                    highlight_pattern_spec(names[j]),
                    text@,
                ) == Some(true)),
        decreases highlight_strings@.len() - i,
    {
        let h = highlight_strings[i].as_str();
        assert(names[i as int] == h@);
        if name_found(h, text) {
            return true;
        }
        i = i + 1;
    }
    let n = highlight_strings.len();
    assert(names[n as int] == self_name@);
    if name_found(self_name, text) {
        return true;
    }
    match group_self_name {
        Some(g) => {
            assert(names[n + 1] == g@);
            if name_found(g, text) {
                return true;
            }
            assert(names.len() == n + 2);
        },
        None => {
            assert(names.len() == n + 1);
        },
    }
    false
}

} // verus!
