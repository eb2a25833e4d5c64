//! The client's model: contacts and conversations, the windows that show
//! them, the console, the network library's log and file transfers, with
//! the operations the rest of the client performs on them.
//!
//! Keys of the network (public keys, group and conference ids, file ids)
//! are 32-byte values.  Maps are kept as vectors of (key, value) pairs
//! whose keys are distinct; instants come from the caller.
use crate::config::Config;
use crate::history::InputHistory;
use crate::model::{
    should_highlight, CompletionState, ConsoleMessageType, InputMode, InternalMessageId, LogFilters, MessageStatus,
    Timestamp, ToxLogItem, ToxLogLevel, TransferStatus, UiMode, WindowUiState,
};
use crate::command_menu::CommandMenuState;
use crate::input_box::InputBoxState;
use crate::pickers::{EmojiGridState, EmojiPickerState, QuickSwitcherState};
use crate::sidebar::SidebarItem;
use crate::pickers::{contains_exec, contains_seq};
use crate::text::{push_all, str_chars, string_from_chars};
use crate::utils::encode_hex;
use vstd::laws_eq::obeys_concrete_eq;
use vstd::std_specs::cmp::PartialEqSpec;
use vstd::prelude::*;

verus! {

broadcast use {
    vstd::std_specs::vec::group_vec_axioms,
    vstd::array::group_array_axioms,
    vstd::std_specs::hash::group_hash_axioms,
};

/// A 32-byte key of the network.
#[derive(Debug, Clone, Copy)]
pub struct Key32(pub [u8; 32]);

fn bytes_equal(a: &[u8; 32], b: &[u8; 32]) -> (r: bool)
    ensures
        r == (*a == *b),
{
    let mut i: usize = 0;
    while i < 32
        invariant
            i <= 32,
            forall|j: int| 0 <= j < i ==> a@[j] == b@[j],
        decreases 32 - i,
    {
        if a[i] != b[i] {
            return false;
        }
        i = i + 1;
    }
    assert(a =~= b);
    true
}

impl PartialEq for Key32 {
    fn eq(&self, other: &Self) -> (r: bool) {
        bytes_equal(&self.0, &other.0)
    }
}

impl vstd::std_specs::cmp::PartialEqSpecImpl for Key32 {
    open spec fn obeys_eq_spec() -> bool {
        true
    }

    open spec fn eq_spec(&self, other: &Self) -> bool {
        self.0 == other.0
    }
}

/// A contact's public key.
pub type PublicKey = Key32;

/// A group's id.
pub type ChatId = Key32;

/// A conference's id.
pub type ConferenceId = Key32;

/// A file transfer's id.
pub type FileId = Key32;

/// A window of the client: the console, a conversation, the network log
/// or the file manager.
#[derive(Debug, Clone, Copy)]
pub enum WindowId {
    Console,
    Friend(PublicKey),
    Group(ChatId),
    Conference(ConferenceId),
    Logs,
    Files,
}

impl PartialEq for WindowId {
    fn eq(&self, other: &Self) -> (r: bool) {
        match (self, other) {
            (WindowId::Console, WindowId::Console) => true,
            (WindowId::Logs, WindowId::Logs) => true,
            (WindowId::Files, WindowId::Files) => true,
            (WindowId::Friend(a), WindowId::Friend(b)) => bytes_equal(&a.0, &b.0),
            (WindowId::Group(a), WindowId::Group(b)) => bytes_equal(&a.0, &b.0),
            (WindowId::Conference(a), WindowId::Conference(b)) => bytes_equal(&a.0, &b.0),
            _ => false,
        }
    }
}

impl vstd::std_specs::cmp::PartialEqSpecImpl for WindowId {
    open spec fn obeys_eq_spec() -> bool {
        true
    }

    open spec fn eq_spec(&self, other: &Self) -> bool {
        *self == *other
    }
}

/// Keys compare as values.
pub proof fn lemma_keys_concrete_eq()
    ensures
        obeys_concrete_eq::<Key32>(),
        obeys_concrete_eq::<WindowId>(),
{
    reveal(obeys_concrete_eq);
    assert forall|x: Key32, y: Key32| x.eq_spec(&y) <==> x == y by {
        if x.0 == y.0 {
            assert(x == y);
        }
    };
}

/// The index of the first entry of `s` with key `k`, or -1.
pub open spec fn key_pos<K, V>(s: Seq<(K, V)>, k: K) -> int
    decreases s.len(),
{
    if s.len() == 0 {
        -1
    } else {
        let before = key_pos(s.drop_last(), k);
        if before >= 0 {
            before
        } else if s.last().0 == k {
            s.len() - 1
        } else {
            -1
        }
    }
}

/// No two entries of `s` have the same key.
pub open spec fn keys_unique<K, V>(s: Seq<(K, V)>) -> bool {
    forall|i: int, j: int| 0 <= i < j < s.len() ==> s[i].0 != s[j].0
}

/// The value stored under `k`, if any.
pub open spec fn lookup<K, V>(s: Seq<(K, V)>, k: K) -> Option<V> {
    if key_pos(s, k) >= 0 {
        Some(s[key_pos(s, k)].1)
    } else {
        None
    }
}

/// `key_pos` finds the first entry with the key, and -1 means there is
/// none.
pub proof fn lemma_key_pos<K, V>(s: Seq<(K, V)>, k: K)
    ensures
        -1 <= key_pos(s, k) < s.len(),
        key_pos(s, k) >= 0 ==> s[key_pos(s, k)].0 == k,
        forall|j: int| 0 <= j < s.len() && j < key_pos(s, k) ==> s[j].0 != k,
        key_pos(s, k) == -1 ==> forall|j: int| 0 <= j < s.len() ==> s[j].0 != k,
    decreases s.len(),
{
    if s.len() > 0 {
        lemma_key_pos(s.drop_last(), k);
        assert forall|j: int| 0 <= j < s.len() - 1 implies s.drop_last()[j] == s[j] by {};
    }
}

/// With distinct keys, the entry with key `k` is at `i` exactly when its
/// key is `k`.
pub proof fn lemma_key_pos_unique<K, V>(s: Seq<(K, V)>, k: K, i: int)
    requires
        keys_unique(s),
        0 <= i < s.len(),
        s[i].0 == k,
    ensures
        key_pos(s, k) == i,
{
    lemma_key_pos(s, k);
}

/// A value replaced at position `i` leaves the positions of keys alone.
pub proof fn lemma_key_pos_update<K, V>(s: Seq<(K, V)>, i: int, v: V, k: K)
    requires
        0 <= i < s.len(),
    ensures
        key_pos(s.update(i, (s[i].0, v)), k) == key_pos(s, k),
    decreases s.len(),
{
    let u = s.update(i, (s[i].0, v));
    if s.len() > 0 {
        if i < s.len() - 1 {
            assert(u.drop_last() =~= s.drop_last().update(i, (s[i].0, v)));
            lemma_key_pos_update(s.drop_last(), i, v, k);
        } else {
            assert(u.drop_last() =~= s.drop_last());
        }
    }
}

/// An entry pushed with a new key leaves the other positions alone and is
/// found under its key.
pub proof fn lemma_key_pos_push<K, V>(s: Seq<(K, V)>, e: (K, V), k: K)
    requires
        key_pos(s, e.0) == -1,
    ensures
        key_pos(s.push(e), k) == if k == e.0 {
            s.len() as int
        } else {
            key_pos(s, k)
        },
        keys_unique(s) ==> keys_unique(s.push(e)),
{
    assert(s.push(e).drop_last() =~= s);
    lemma_key_pos(s, e.0);
}

/// The position of the first entry of `v` with key `k`.
pub(crate) fn key_position<K: PartialEq, V>(v: &Vec<(K, V)>, k: &K) -> (r: Option<usize>)
    requires
        obeys_concrete_eq::<K>(),
    ensures
        match r {
            Some(i) => i as int == key_pos(v@, *k),
            None => key_pos(v@, *k) == -1,
        },
{
    proof {
        reveal(obeys_concrete_eq);
    }
    let mut i: usize = 0;
    assert(v@.take(0) =~= Seq::<(K, V)>::empty());
    while i < v.len()
        invariant
            i <= v@.len(),
            key_pos(v@.take(i as int), *k) == -1,
            obeys_concrete_eq::<K>(),
            forall|x: K, y: K| x.eq_spec(&y) <==> x == y,
            K::obeys_eq_spec(),
        decreases v@.len() - i,
    {
        assert(v@.take(i as int + 1).drop_last() =~= v@.take(i as int));
        if v[i].0 == *k {
            proof {
                lemma_key_pos_prefix(v@, *k, i as int + 1);
            }
            return Some(i);
        }
        i = i + 1;
    }
    assert(v@.take(v@.len() as int) =~= v@);
    None
}

/// A key found in a prefix is found at the same place in the whole.
proof fn lemma_key_pos_prefix<K, V>(s: Seq<(K, V)>, k: K, n: int)
    requires
        0 <= n <= s.len(),
        key_pos(s.take(n), k) >= 0,
    ensures
        key_pos(s, k) == key_pos(s.take(n), k),
    decreases s.len() - n,
{
    if n < s.len() {
        assert(s.take(n + 1).drop_last() =~= s.take(n));
        lemma_key_pos_prefix(s, k, n + 1);
    } else {
        assert(s.take(n) =~= s);
    }
}

/// The index of the first occurrence of `x` in `s`, or -1.
pub open spec fn first_index<T>(s: Seq<T>, x: T) -> int
    decreases s.len(),
{
    if s.len() == 0 {
        -1
    } else {
        let before = first_index(s.drop_last(), x);
        if before >= 0 {
            before
        } else if s.last() == x {
            s.len() - 1
        } else {
            -1
        }
    }
}

pub proof fn lemma_first_index<T>(s: Seq<T>, x: T)
    ensures
        -1 <= first_index(s, x) < s.len(),
        first_index(s, x) >= 0 ==> s[first_index(s, x)] == x,
        forall|j: int| 0 <= j < s.len() && j < first_index(s, x) ==> s[j] != x,
        first_index(s, x) == -1 ==> !s.contains(x),
    decreases s.len(),
{
    if s.len() > 0 {
        lemma_first_index(s.drop_last(), x);
        assert forall|j: int| 0 <= j < s.len() - 1 implies s.drop_last()[j] == s[j] by {};
        if first_index(s, x) == -1 {
            assert forall|j: int| 0 <= j < s.len() implies s[j] != x by {
                if j < s.len() - 1 {
                    assert(!s.drop_last().contains(x));
                    assert(s.drop_last()[j] == s[j]);
                }
            };
        }
    }
}

proof fn lemma_first_index_prefix<T>(s: Seq<T>, x: T, n: int)
    requires
        0 <= n <= s.len(),
        first_index(s.take(n), x) >= 0,
    ensures
        first_index(s, x) == first_index(s.take(n), x),
    decreases s.len() - n,
{
    if n < s.len() {
        assert(s.take(n + 1).drop_last() =~= s.take(n));
        lemma_first_index_prefix(s, x, n + 1);
    } else {
        assert(s.take(n) =~= s);
    }
}

/// The position of the first occurrence of `x` in `v`.
pub(crate) fn position_of<T: PartialEq>(v: &Vec<T>, x: &T) -> (r: Option<usize>)
    requires
        obeys_concrete_eq::<T>(),
    ensures
        match r {
            Some(i) => i as int == first_index(v@, *x),
            None => first_index(v@, *x) == -1,
        },
{
    proof {
        reveal(obeys_concrete_eq);
    }
    let mut i: usize = 0;
    assert(v@.take(0) =~= Seq::<T>::empty());
    while i < v.len()
        invariant
            i <= v@.len(),
            first_index(v@.take(i as int), *x) == -1,
            forall|a: T, b: T| a.eq_spec(&b) <==> a == b,
            T::obeys_eq_spec(),
        decreases v@.len() - i,
    {
        assert(v@.take(i as int + 1).drop_last() =~= v@.take(i as int));
        if v[i] == *x {
            proof {
                lemma_first_index_prefix(v@, *x, i as int + 1);
            }
            return Some(i);
        }
        i = i + 1;
    }
    assert(v@.take(v@.len() as int) =~= v@);
    None
}


/// A chat message's kind: plain, or an action (`/me`).
#[derive(Debug, Clone, Copy, PartialEq, Eq, Structural)]
pub enum MessageType {
    Normal,
    Action,
}

/// What a message holds.  The progress of a file transfer is kept as the
/// fraction `progress_done / progress_total` last reported.
#[derive(Debug, Clone)]
pub enum MessageContent {
    Text(String),
    List(Vec<String>),
    FileTransfer {
        file_id: Option<FileId>,
        name: String,
        size: u64,
        progress_done: u64,
        progress_total: u64,
        speed: String,
        is_incoming: bool,
    },
    GameInvite { game_type: String, challenger: String },
}

/// A message of a conversation.
#[derive(Debug, Clone)]
pub struct Message {
    pub internal_id: InternalMessageId,
    pub sender: String,
    pub sender_pk: Option<PublicKey>,
    pub is_self: bool,
    pub content: MessageContent,
    pub timestamp: Timestamp,
    pub status: MessageStatus,
    pub message_type: MessageType,
    pub highlighted: bool,
}

/// How a contact is connected: not at all, over TCP or over UDP.
#[derive(Debug, Clone, Copy, PartialEq, Eq, Structural)]
pub enum Connection {
    Disconnected,
    Tcp,
    Udp,
}

/// A user's stated presence: available (no particular status), away or
/// busy.
#[derive(Debug, Clone, Copy, PartialEq, Eq, Structural)]
pub enum UserStatus {
    Available,
    Away,
    Busy,
}

/// A member's role in a group.
#[derive(Debug, Clone, Copy, PartialEq, Eq, Structural)]
pub enum GroupRole {
    Founder,
    Moderator,
    User,
    Observer,
}

/// A conference's kind.
#[derive(Debug, Clone, Copy, PartialEq, Eq, Structural)]
pub enum ConferenceType {
    Text,
    Av,
}

/// What is known of a contact.
#[derive(Debug, Clone)]
pub struct FriendInfo {
    pub name: String,
    pub public_key: Option<PublicKey>,
    pub status_message: String,
    pub connection: Connection,
    pub last_sent_message_id: Option<u32>,
    pub last_read_receipt: Option<u32>,
    pub is_typing: bool,
}

/// A member of a group or conference.
#[derive(Debug, Clone)]
pub struct PeerInfo {
    pub id: PublicKey,
    pub name: String,
    pub role: Option<GroupRole>,
    pub status: UserStatus,
    pub is_ignored: bool,
    pub seen_online: bool,
}

/// A conversation: its name, messages, topic, members and the user's
/// role and name in it.
#[derive(Debug, Clone)]
pub struct Conversation {
    pub name: String,
    pub messages: Vec<Message>,
    pub topic: Option<String>,
    pub peers: Vec<PeerInfo>,
    pub self_role: Option<GroupRole>,
    pub self_name: Option<String>,
    pub ignored_peers: Vec<PublicKey>,
}

/// A line of the console.
#[derive(Debug, Clone)]
pub struct ConsoleMessage {
    pub msg_type: ConsoleMessageType,
    pub content: MessageContent,
    pub timestamp: Timestamp,
}

/// A request waiting for the user's answer.
#[derive(Debug, Clone)]
pub enum PendingItem {
    FriendRequest { pk: PublicKey, message: String },
    GroupInvite { friend: PublicKey, invite_data: String, group_name: String },
    ConferenceInvite { friend: PublicKey, conference_type: ConferenceType, cookie: String },
}

/// A file transfer: what is sent or received, how far it has come and
/// with whom.
#[derive(Debug, Clone)]
pub struct FileTransferProgress {
    pub filename: String,
    pub total_size: u64,
    pub transferred: u64,
    pub is_receiving: bool,
    pub status: TransferStatus,
    pub file_kind: u32,
    pub file_path: Option<String>,
    pub last_transferred: u64,
    pub friend_pk: PublicKey,
}

/// What the client knows of the network and its conversations.
pub struct DomainState {
    /// The user's address as shown.
    pub tox_id: String,
    pub self_public_key: PublicKey,
    pub self_name: String,
    pub self_status_message: String,
    pub self_status_type: UserStatus,
    pub self_connection_status: Connection,
    pub friends: Vec<(PublicKey, FriendInfo)>,
    pub conversations: Vec<(WindowId, Conversation)>,
    pub console_messages: Vec<ConsoleMessage>,
    pub tox_logs: Vec<(ToxLogLevel, Vec<ToxLogItem>)>,
    pub pending_items: Vec<PendingItem>,
    pub next_internal_id: InternalMessageId,
    pub file_transfers: Vec<(FileId, FileTransferProgress)>,
}

/// The network library's numbers for contacts, groups and conferences in
/// this session.
pub struct SessionState {
    pub friend_numbers: Vec<(u32, PublicKey)>,
    pub group_numbers: Vec<(u32, ChatId)>,
    pub conference_numbers: Vec<(u32, ConferenceId)>,
    pub group_peer_numbers: Vec<((u32, u32), PublicKey)>,
}

/// The state of the interface: the windows and which is shown, the input
/// and its history, the open menus and pickers.  Instants of typing are
/// milliseconds on the caller's clock.
pub struct UiState {
    pub active_window_index: usize,
    pub window_ids: Vec<WindowId>,
    pub window_state: Vec<(WindowId, WindowUiState)>,
    pub input_state: InputBoxState,
    pub input_mode: InputMode,
    pub ui_mode: UiMode,
    pub input_blocked_indices: Vec<(usize, usize)>,
    pub history: InputHistory,
    pub log_filters: LogFilters,
    pub completion: CompletionState,
    pub command_menu: Option<CommandMenuState>,
    pub quick_switcher: Option<QuickSwitcherState>,
    pub emoji_picker: Option<EmojiPickerState>,
    pub show_qr: bool,
    pub last_typing_activity: Option<u64>,
    pub is_typing_sent: bool,
    pub sidebar_cache: Option<Vec<SidebarItem>>,
}

/// The whole model.
pub struct Model {
    pub domain: DomainState,
    pub ui: UiState,
    pub session: SessionState,
    pub config: Config,
    pub saved_config: Config,
    pub tick_count: u64,
}

impl DomainState {
    /// A fresh state for the user: no contacts, conversations or logs, and
    /// message numbers starting at 1.
    pub fn new(
        tox_id: String,
        self_public_key: PublicKey,
        self_name: String,
        self_status_message: String,
        self_status_type: UserStatus,
    ) -> (d: Self)
        ensures
            d.tox_id == tox_id,
            d.self_public_key == self_public_key,
            d.self_name == self_name,
            d.self_status_message == self_status_message,
            d.self_status_type == self_status_type,
            d.self_connection_status == Connection::Disconnected,
            d.friends@.len() == 0,
            d.conversations@.len() == 0,
            d.console_messages@.len() == 0,
            d.tox_logs@.len() == 0,
            d.pending_items@.len() == 0,
            d.next_internal_id == InternalMessageId(1),
            d.file_transfers@.len() == 0,
    {
        DomainState {
            tox_id,
            self_public_key,
            self_name,
            self_status_message,
            self_status_type,
            self_connection_status: Connection::Disconnected,
            friends: Vec::new(),
            conversations: Vec::new(),
            console_messages: Vec::new(),
            tox_logs: Vec::new(),
            pending_items: Vec::new(),
            next_internal_id: InternalMessageId(1),
            file_transfers: Vec::new(),
        }
    }
}

impl UiState {
    /// The console as the only window, an empty input and nothing open.
    pub fn new() -> (u: Self)
        ensures
            u.active_window_index == 0,
            u.window_ids@ == seq![WindowId::Console],
            u.window_state@.len() == 0,
            u.input_state.wf(),
            u.input_state.text@.len() == 0,
            u.input_mode == InputMode::SingleLine,
            u.ui_mode == UiMode::Chat,
            u.history.entries@.len() == 0,
            u.history.index is None,
            u.command_menu is None,
            u.quick_switcher is None,
            u.emoji_picker is None,
            !u.show_qr,
            u.last_typing_activity is None,
            !u.is_typing_sent,
            u.sidebar_cache is None,
    {
        UiState {
            active_window_index: 0,
            window_ids: vec![WindowId::Console],
            window_state: Vec::new(),
            input_state: InputBoxState::new(),
            input_mode: InputMode::SingleLine,
            ui_mode: UiMode::Chat,
            input_blocked_indices: Vec::new(),
            history: InputHistory::new(),
            log_filters: LogFilters::default(),
            completion: CompletionState {
                active: false,
                candidates: Vec::new(),
                index: 0,
                original_input: String::new(),
                emoji_grid_state: EmojiGridState::default(),
            },
            command_menu: None,
            quick_switcher: None,
            emoji_picker: None,
            show_qr: false,
            last_typing_activity: None,
            is_typing_sent: false,
            sidebar_cache: None,
        }
    }
}

impl SessionState {
    /// No numbers known yet.
    pub fn new() -> (s: Self)
        ensures
            s.friend_numbers@.len() == 0,
            s.group_numbers@.len() == 0,
            s.conference_numbers@.len() == 0,
            s.group_peer_numbers@.len() == 0,
    {
        SessionState {
            friend_numbers: Vec::new(),
            group_numbers: Vec::new(),
            conference_numbers: Vec::new(),
            group_peer_numbers: Vec::new(),
        }
    }
}

/// No value occurs twice in `s`.
pub open spec fn no_duplicates<T>(s: Seq<T>) -> bool {
    forall|i: int, j: int| 0 <= i < j < s.len() ==> s[i] != s[j]
}

impl Model {
    /// The model's invariant: windows listed once each, the shown one
    /// among them, and every map keyed by distinct keys.
    pub open spec fn wf(&self) -> bool {
        &&& no_duplicates(self.ui.window_ids@)
        &&& self.ui.active_window_index < self.ui.window_ids@.len()
        &&& keys_unique(self.ui.window_state@)
        &&& keys_unique(self.domain.conversations@)
        &&& forall|i: int|
            0 <= i < self.domain.conversations@.len() ==> is_conversation_window(
                #[trigger] self.domain.conversations@[i].0,
            )
        &&& keys_unique(self.domain.friends@)
        &&& keys_unique(self.domain.file_transfers@)
        &&& keys_unique(self.domain.tox_logs@)
    }

    /// The window shown.
    pub open spec fn active_id(&self) -> WindowId {
        self.ui.window_ids@[self.ui.active_window_index as int]
    }

    /// A model of `domain` with a fresh interface and session; `config`
    /// is in force and `saved_config` is what is on disk.
    pub fn new(domain: DomainState, saved_config: Config, runtime_config: Config) -> (m: Self)
        requires
            keys_unique(domain.conversations@),
            forall|i: int| 0 <= i < domain.conversations@.len() ==> is_conversation_window(#[trigger] domain.conversations@[i].0),
            keys_unique(domain.friends@),
            keys_unique(domain.file_transfers@),
            keys_unique(domain.tox_logs@),
        ensures
            m.wf(),
            m.domain == domain,
            m.config == runtime_config,
            m.saved_config == saved_config,
            m.tick_count == 0,
            m.ui.window_ids@ == seq![WindowId::Console],
            m.ui.active_window_index == 0,
            m.ui.window_state@.len() == 0,
            m.session.friend_numbers@.len() == 0,
            m.session.group_numbers@.len() == 0,
            m.session.conference_numbers@.len() == 0,
    {
        Model {
            domain,
            ui: UiState::new(),
            session: SessionState::new(),
            config: runtime_config,
            saved_config,
            tick_count: 0,
        }
    }

    /// The window shown.
    pub fn active_window_id(&self) -> (w: WindowId)
        requires
            self.wf(),
        ensures
            w == self.active_id(),
    {
        self.ui.window_ids[self.ui.active_window_index]
    }

    /// Drops the cached sidebar entries.
    pub fn invalidate_sidebar_cache(&mut self)
        ensures
            *final(self) == (Model { ui: UiState { sidebar_cache: None, ..old(self).ui }, ..*old(self) }),
    {
        self.ui.sidebar_cache = None;
    }

    /// Makes the next draw of a window lay its messages out again.
    pub fn invalidate_window_cache(&mut self, window_id: WindowId)
        requires
            old(self).wf(),
        ensures
            final(self).wf(),
            window_state_relaid(old(self).ui.window_state@, final(self).ui.window_state@, window_id),
            *final(self) == (Model { ui: UiState { window_state: final(self).ui.window_state, ..old(self).ui }, ..*old(self) }),
            final(self).domain == old(self).domain,
            final(self).ui.window_ids == old(self).ui.window_ids,
            final(self).ui.active_window_index == old(self).ui.active_window_index,
            final(self).ui.sidebar_cache == old(self).ui.sidebar_cache,
            final(self).session == old(self).session,
            final(self).config == old(self).config,
    {
        proof {
            lemma_keys_concrete_eq();
        }
        match key_position(&self.ui.window_state, &window_id) {
            Some(i) => {
                let ghost before = self.ui.window_state@;
                proof {
                    lemma_key_pos(before, window_id);
                }
                self.ui.window_state[i].1.invalidate_layout();
                proof {
                    assert(self.ui.window_state@.len() == before.len());
                    assert forall|a: int, b: int| 0 <= a < b < self.ui.window_state@.len() implies self.ui.window_state@[a].0
                        != self.ui.window_state@[b].0 by {
                        assert(before[a].0 != before[b].0);
                    };
                }
            },
            None => {},
        }
    }
}

/// `after` is `before` with the layout of `w`'s state (if it has one)
/// dropped, and nothing else changed.
pub open spec fn window_state_relaid(
    before: Seq<(WindowId, WindowUiState)>,
    after: Seq<(WindowId, WindowUiState)>,
    w: WindowId,
) -> bool {
    &&& after.len() == before.len()
    &&& forall|j: int| 0 <= j < before.len() && j != key_pos(before, w) ==> after[j] == before[j]
    &&& key_pos(before, w) >= 0 ==> {
        let i = key_pos(before, w);
        &&& after[i].0 == w
        &&& relaid_state(before[i].1, after[i].1)
    }
}

/// `n` is `o` with its layout dropped.
pub open spec fn relaid_state(o: WindowUiState, n: WindowUiState) -> bool {
    &&& n.layout.cache@.len() == 0
    &&& n.layout.total_height == 0
    &&& n.layout.last_width == 0
    &&& n.layout.processed_count == 0
    &&& n.msg_list_state == o.msg_list_state
    &&& n.unread_count == o.unread_count
    &&& n.show_peers == o.show_peers
    &&& n.last_height == o.last_height
    &&& n.cached_messages == o.cached_messages
    &&& n.dirty_indices == o.dirty_indices
}

/// A window state as a fresh window has it.
pub open spec fn fresh_window_state(w: WindowUiState) -> bool {
    &&& w.msg_list_state.scroll == 0
    &&& w.msg_list_state.selected_index is None
    &&& w.msg_list_state.total_height == 0
    &&& w.unread_count == 0
    &&& w.show_peers
    &&& w.last_height == 0
    &&& w.cached_messages is None
    &&& w.layout.cache@.len() == 0
    &&& w.layout.total_height == 0
    &&& w.dirty_indices@.len() == 0
}

/// The model with only the window states replaced.
pub open spec fn with_window_state(m: Model, ws: Seq<(WindowId, WindowUiState)>, v: Vec<(WindowId, WindowUiState)>) -> bool {
    v@ == ws
}

/// The model after window `index` was shown, if there is one: its unread
/// count cleared, typing notices started afresh and the sidebar drawn
/// again; nothing else changed.
pub open spec fn window_shown(before: Model, after: Model, index: usize) -> bool {
    if index >= before.ui.window_ids@.len() {
        after == before
    } else {
        let id = before.ui.window_ids@[index as int];
        let k = key_pos(before.ui.window_state@, id);
        &&& after == (Model {
            ui: UiState {
                active_window_index: index,
                window_state: after.ui.window_state,
                is_typing_sent: false,
                last_typing_activity: None,
                sidebar_cache: None,
                ..before.ui
            },
            ..before
        })
        &&& after.ui.window_state@.len() == before.ui.window_state@.len()
        &&& forall|j: int|
            0 <= j < before.ui.window_state@.len() && j != k ==> after.ui.window_state@[j] == before.ui.window_state@[j]
        &&& k >= 0 ==> after.ui.window_state@[k] == (id, WindowUiState { unread_count: 0, ..before.ui.window_state@[k].1 })
    }
}

impl Model {
    /// `self` and `other` differ at most in the window states.
    pub open spec fn same_but_window_state(&self, other: &Model) -> bool {
        *self == (Model { ui: UiState { window_state: self.ui.window_state, ..other.ui }, ..*other })
    }

    /// The index of `id`'s window state, a fresh one added if it had none.
    pub(crate) fn window_state_entry(&mut self, id: WindowId) -> (i: usize)
        requires
            old(self).wf(),
        ensures
            final(self).wf(),
            final(self).same_but_window_state(old(self)),
            i < final(self).ui.window_state@.len(),
            i as int == key_pos(final(self).ui.window_state@, id),
            key_pos(old(self).ui.window_state@, id) >= 0 ==> final(self).ui.window_state@ == old(self).ui.window_state@,
            key_pos(old(self).ui.window_state@, id) == -1 ==> {
                &&& final(self).ui.window_state@ == old(self).ui.window_state@.push(
                    (id, final(self).ui.window_state@[i as int].1),
                )
                &&& fresh_window_state(final(self).ui.window_state@[i as int].1)
            },
    {
        proof {
            lemma_keys_concrete_eq();
            lemma_key_pos(self.ui.window_state@, id);
        }
        match key_position(&self.ui.window_state, &id) {
            Some(i) => i,
            None => {
                let ghost before = self.ui.window_state@;
                let st = WindowUiState::default();
                self.ui.window_state.push((id, st));
                proof {
                    lemma_key_pos_push(before, (id, st), id);
                }
                self.ui.window_state.len() - 1
            },
        }
    }

    /// Drops everything cached for drawing a window.
    pub fn invalidate_full_window_cache(&mut self, window_id: WindowId)
        requires
            old(self).wf(),
        ensures
            final(self).wf(),
            final(self).same_but_window_state(old(self)),
            final(self).ui.window_state@.len() == old(self).ui.window_state@.len(),
            forall|j: int|
                0 <= j < old(self).ui.window_state@.len() && j != key_pos(old(self).ui.window_state@, window_id)
                    ==> final(self).ui.window_state@[j] == old(self).ui.window_state@[j],
            key_pos(old(self).ui.window_state@, window_id) >= 0 ==> {
                let i = key_pos(old(self).ui.window_state@, window_id);
                let (o, n) = (old(self).ui.window_state@[i].1, final(self).ui.window_state@[i].1);
                &&& final(self).ui.window_state@[i].0 == window_id
                &&& n.cached_messages is None
                &&& n.dirty_indices@.len() == 0
                &&& n.layout.cache@.len() == 0
                &&& n.layout.total_height == 0
                &&& n.msg_list_state == o.msg_list_state
                &&& n.unread_count == o.unread_count
                &&& n.last_height == o.last_height
            },
    {
        proof {
            lemma_keys_concrete_eq();
            lemma_key_pos(self.ui.window_state@, window_id);
        }
        match key_position(&self.ui.window_state, &window_id) {
            Some(i) => {
                let ghost before = self.ui.window_state@;
                self.ui.window_state[i].1.invalidate_full_cache();
                proof {
                    assert forall|a: int, b: int| 0 <= a < b < self.ui.window_state@.len() implies self.ui.window_state@[a].0
                        != self.ui.window_state@[b].0 by {
                        assert(before[a].0 != before[b].0);
                    };
                }
            },
            None => {},
        }
    }

    /// Shows window `index`, if there is one: its unread count is cleared,
    /// typing notices start afresh and the sidebar is drawn again.
    pub fn set_active_window(&mut self, index: usize)
        requires
            old(self).wf(),
        ensures
            final(self).wf(),
            window_shown(*old(self), *final(self), index),
    {
        if index < self.ui.window_ids.len() {
            self.ui.active_window_index = index;
            let id = self.ui.window_ids[index];
            proof {
                lemma_keys_concrete_eq();
                lemma_key_pos(self.ui.window_state@, id);
            }
            match key_position(&self.ui.window_state, &id) {
                Some(i) => {
                    let ghost before = self.ui.window_state@;
                    self.ui.window_state[i].1.unread_count = 0;
                    proof {
                        assert forall|a: int, b: int| 0 <= a < b < self.ui.window_state@.len() implies self.ui.window_state@[a].0
                            != self.ui.window_state@[b].0 by {
                            assert(before[a].0 != before[b].0);
                        };
                    }
                },
                None => {},
            }
            self.ui.is_typing_sent = false;
            self.ui.last_typing_activity = None;
            self.invalidate_sidebar_cache();
        }
    }

    /// Scrolls the shown window back by `amount` lines, no further than its
    /// oldest line.
    pub fn scroll_up(&mut self, amount: usize)
        requires
            old(self).wf(),
            match lookup(old(self).ui.window_state@, old(self).active_id()) {
                Some(st) => st.msg_list_state.scroll + amount <= usize::MAX,
                None => true,
            },
        ensures
            final(self).wf(),
            final(self).same_but_window_state(old(self)),
            active_state_changed(*old(self), *final(self), match active_state(*old(self)) {
                Some(o) => Some(crate::model::scrolled_up(o, amount)),
                None => None,
            }),
    {
        let i = self.active_state_index();
        let ghost mid = self.ui.window_state@;
        self.ui.window_state[i].1.scroll_up(amount);
        proof {
            let id = old(self).active_id();
            let ow = old(self).ui.window_state@;
            let nw = self.ui.window_state@;
            assert forall|a: int, b: int| 0 <= a < b < nw.len() implies nw[a].0 != nw[b].0 by {
                assert(mid[a].0 != mid[b].0);
            };
            lemma_key_pos_update(mid, i as int, nw[i as int].1, id);
            assert(nw =~= mid.update(i as int, (id, nw[i as int].1)));
            assert(key_pos(nw, id) == i);
            match active_state(*old(self)) {
                Some(o) => {
                    assert(mid == ow);
                    assert(mid[i as int].1 == o);
                    assert(nw[i as int].1 == crate::model::scrolled_up(o, amount));
                    assert(nw =~= ow.update(i as int, (id, crate::model::scrolled_up(o, amount))));
                },
                None => {
                    assert(nw =~= ow.push((id, nw[i as int].1)));
                    assert(fresh_window_state(nw[i as int].1));
                },
            }
        }
    }
}

/// `new` is `old` with the shown window's state replaced by `want`, or,
/// when it had none (`want` is then nothing), with a fresh state added for
/// it.
pub open spec fn active_state_changed(old: Model, new: Model, want: Option<WindowUiState>) -> bool {
    let id = old.active_id();
    let i = key_pos(new.ui.window_state@, id);
    let n = new.ui.window_state@[i].1;
    &&& i >= 0
    &&& match want {
        Some(w) => new.ui.window_state@ == old.ui.window_state@.update(i, (id, w)),
        None => {
            &&& new.ui.window_state@ == old.ui.window_state@.push((id, n))
            &&& fresh_window_state(n)
        },
    }
}

/// The shown window's state, if it has one.
pub open spec fn active_state(m: Model) -> Option<WindowUiState> {
    lookup(m.ui.window_state@, m.active_id())
}

impl Model {
    fn active_state_index(&mut self) -> (i: usize)
        requires
            old(self).wf(),
        ensures
            final(self).wf(),
            final(self).same_but_window_state(old(self)),
            final(self).active_id() == old(self).active_id(),
            i < final(self).ui.window_state@.len(),
            i as int == key_pos(final(self).ui.window_state@, old(self).active_id()),
            final(self).ui.window_state@[i as int].0 == old(self).active_id(),
            match lookup(old(self).ui.window_state@, old(self).active_id()) {
                Some(o) => final(self).ui.window_state@ == old(self).ui.window_state@
                    && final(self).ui.window_state@[i as int].1 == o,
                None => {
                    &&& final(self).ui.window_state@ == old(self).ui.window_state@.push(
                        (old(self).active_id(), final(self).ui.window_state@[i as int].1),
                    )
                    &&& fresh_window_state(final(self).ui.window_state@[i as int].1)
                },
            },
    {
        let id = self.active_window_id();
        let i = self.window_state_entry(id);
        proof {
            lemma_key_pos(old(self).ui.window_state@, id);
            lemma_key_pos(self.ui.window_state@, id);
        }
        i
    }

    /// Scrolls the shown window forward by `amount` lines, no further than
    /// its newest line.
    pub fn scroll_down(&mut self, amount: usize)
        requires
            old(self).wf(),
        ensures
            final(self).wf(),
            final(self).same_but_window_state(old(self)),
            active_state_changed(*old(self), *final(self), match active_state(*old(self)) {
                Some(o) => Some(crate::model::scrolled_down(o, amount)),
                None => None,
            }),
    {
        let i = self.active_state_index();
        let ghost mid = self.ui.window_state@;
        self.ui.window_state[i].1.scroll_down(amount);

        proof {
            let id = old(self).active_id();
            let ow = old(self).ui.window_state@;
            let nw = self.ui.window_state@;
            assert forall|a: int, b: int| 0 <= a < b < nw.len() implies nw[a].0 != nw[b].0 by {
                assert(mid[a].0 != mid[b].0);
            };
            lemma_key_pos_update(mid, i as int, nw[i as int].1, id);
            assert(nw =~= mid.update(i as int, (id, nw[i as int].1)));
            assert(key_pos(nw, id) == i);
            match active_state(*old(self)) {
                Some(o) => {
                    assert(mid == ow);
                    assert(mid[i as int].1 == o);
                    assert(nw[i as int].1 == crate::model::scrolled_down(o, amount));
                    assert(nw =~= ow.update(i as int, (id, crate::model::scrolled_down(o, amount))));
                },
                None => {
                    assert(nw =~= ow.push((id, nw[i as int].1)));
                    assert(fresh_window_state(nw[i as int].1));
                },
            }
        }
    }

    /// Scrolls the shown window back to its oldest line.
    pub fn scroll_top(&mut self)
        requires
            old(self).wf(),
        ensures
            final(self).wf(),
            final(self).same_but_window_state(old(self)),
            active_state_changed(*old(self), *final(self), match active_state(*old(self)) {
                Some(o) => Some(crate::model::with_scroll(o, crate::model::max_scroll(o) as usize)),
                None => None,
            }),
    {
        let i = self.active_state_index();
        let ghost mid = self.ui.window_state@;
        self.ui.window_state[i].1.scroll_top();

        proof {
            let id = old(self).active_id();
            let ow = old(self).ui.window_state@;
            let nw = self.ui.window_state@;
            assert forall|a: int, b: int| 0 <= a < b < nw.len() implies nw[a].0 != nw[b].0 by {
                assert(mid[a].0 != mid[b].0);
            };
            lemma_key_pos_update(mid, i as int, nw[i as int].1, id);
            assert(nw =~= mid.update(i as int, (id, nw[i as int].1)));
            assert(key_pos(nw, id) == i);
            match active_state(*old(self)) {
                Some(o) => {
                    assert(mid == ow);
                    assert(mid[i as int].1 == o);
                    assert(nw[i as int].1 == crate::model::with_scroll(o, crate::model::max_scroll(o) as usize));
                    assert(nw =~= ow.update(i as int, (id, crate::model::with_scroll(o, crate::model::max_scroll(o) as usize))));
                },
                None => {
                    assert(nw =~= ow.push((id, nw[i as int].1)));
                    assert(fresh_window_state(nw[i as int].1));
                },
            }
        }
    }

    /// Scrolls the shown window to its newest line.
    pub fn scroll_bottom(&mut self)
        requires
            old(self).wf(),
        ensures
            final(self).wf(),
            final(self).same_but_window_state(old(self)),
            active_state_changed(*old(self), *final(self), match active_state(*old(self)) {
                Some(o) => Some(crate::model::with_scroll(o, 0)),
                None => None,
            }),
    {
        let i = self.active_state_index();
        let ghost mid = self.ui.window_state@;
        self.ui.window_state[i].1.scroll_bottom();
        proof {
            let id = old(self).active_id();
            let ow = old(self).ui.window_state@;
            let nw = self.ui.window_state@;
            assert forall|a: int, b: int| 0 <= a < b < nw.len() implies nw[a].0 != nw[b].0 by {
                assert(mid[a].0 != mid[b].0);
            };
            lemma_key_pos_update(mid, i as int, nw[i as int].1, id);
            assert(nw =~= mid.update(i as int, (id, nw[i as int].1)));
            assert(key_pos(nw, id) == i);
            match active_state(*old(self)) {
                Some(o) => {
                    assert(mid == ow);
                    assert(mid[i as int].1 == o);
                    assert(nw[i as int].1 == crate::model::with_scroll(o, 0));
                    assert(nw =~= ow.update(i as int, (id, crate::model::with_scroll(o, 0))));
                },
                None => {
                    assert(nw =~= ow.push((id, nw[i as int].1)));
                    assert(fresh_window_state(nw[i as int].1));
                },
            }
        }
    }
}

/// The index of the first entry of `s` with value `v`, or -1.
pub open spec fn value_pos<K, V>(s: Seq<(K, V)>, v: V) -> int
    decreases s.len(),
{
    if s.len() == 0 {
        -1
    } else {
        let before = value_pos(s.drop_last(), v);
        if before >= 0 {
            before
        } else if s.last().1 == v {
            s.len() - 1
        } else {
            -1
        }
    }
}

pub proof fn lemma_value_pos<K, V>(s: Seq<(K, V)>, v: V)
    ensures
        -1 <= value_pos(s, v) < s.len(),
        value_pos(s, v) >= 0 ==> s[value_pos(s, v)].1 == v,
    decreases s.len(),
{
    if s.len() > 0 {
        lemma_value_pos(s.drop_last(), v);
    }
}

proof fn lemma_value_pos_prefix<K, V>(s: Seq<(K, V)>, v: V, n: int)
    requires
        0 <= n <= s.len(),
        value_pos(s.take(n), v) >= 0,
    ensures
        value_pos(s, v) == value_pos(s.take(n), v),
    decreases s.len() - n,
{
    if n < s.len() {
        assert(s.take(n + 1).drop_last() =~= s.take(n));
        lemma_value_pos_prefix(s, v, n + 1);
    } else {
        assert(s.take(n) =~= s);
    }
}

/// The number the session gives to the id `v`, if any (the first listed).
pub(crate) fn number_of(s: &Vec<(u32, Key32)>, v: &Key32) -> (r: Option<u32>)
    ensures
        match r {
            Some(n) => value_pos(s@, *v) >= 0 && s@[value_pos(s@, *v)].0 == n,
            None => value_pos(s@, *v) == -1,
        },
{
    let mut i: usize = 0;
    assert(s@.take(0) =~= Seq::<(u32, Key32)>::empty());
    while i < s.len()
        invariant
            i <= s@.len(),
            value_pos(s@.take(i as int), *v) == -1,
        decreases s@.len() - i,
    {
        assert(s@.take(i as int + 1).drop_last() =~= s@.take(i as int));
        if bytes_equal(&s[i].1.0, &v.0) {
            proof {
                assert(s@[i as int].1 == *v);
                lemma_value_pos_prefix(s@, *v, i as int + 1);
            }
            return Some(s[i].0);
        }
        i = i + 1;
    }
    assert(s@.take(s@.len() as int) =~= s@);
    None
}

/// A conversation as a new window starts it: the given name and nothing
/// else.
pub open spec fn fresh_conversation(c: Conversation, name: Seq<char>) -> bool {
    &&& c.name@ == name
    &&& c.messages@.len() == 0
    &&& c.topic is None
    &&& c.peers@.len() == 0
    &&& c.self_role is None
    &&& c.self_name is None
    &&& c.ignored_peers@.len() == 0
}

/// The window list with `w` added at the end unless it is there.
pub open spec fn with_window(ids: Seq<WindowId>, w: WindowId) -> Seq<WindowId> {
    if ids.contains(w) {
        ids
    } else {
        ids.push(w)
    }
}

/// The name a new window for contact `pk` gets: the contact's name, or
/// `Friend ` and the first four bytes of the key in hex.
pub open spec fn friend_window_name(m: Model, pk: PublicKey) -> Seq<char> {
    match lookup(m.domain.friends@, pk) {
        Some(info) => info.name@,
        None => "Friend "@ + crate::utils::hex_encoding(pk.0@.take(4)),
    }
}

/// The name a new window gets from the session's number for its id:
/// `<kind> <number>`, or `<kind>` alone.
pub open spec fn numbered_name(kind: Seq<char>, numbers: Seq<(u32, Key32)>, id: Key32) -> Seq<char> {
    if value_pos(numbers, id) >= 0 {
        kind + " "@ + crate::export::dec(numbers[value_pos(numbers, id)].0 as nat)
    } else {
        kind
    }
}

/// The model after window `w` was opened unless it was: listed at the
/// end, and given a fresh conversation named `name` unless it had one; the
/// sidebar drawn again; nothing else changed.
pub open spec fn conversation_ensured(before: Model, after: Model, w: WindowId, name: Seq<char>) -> bool {
    let convs = before.domain.conversations@;
    &&& after.same_but_windows(&before)
    &&& after.ui.sidebar_cache is None
    &&& after.ui.window_ids@ == with_window(before.ui.window_ids@, w)
    &&& key_pos(convs, w) >= 0 ==> after.domain.conversations == before.domain.conversations
    &&& key_pos(convs, w) == -1 ==> {
        let c = after.domain.conversations@.last().1;
        &&& after.domain.conversations@ == convs.push((w, c))
        &&& fresh_conversation(c, name)
    }
}

impl Model {
    /// `self` and `other` differ at most in the windows, the conversations
    /// and the sidebar cache.
    pub open spec fn same_but_windows(&self, other: &Model) -> bool {
        *self == (Model {
            domain: DomainState { conversations: self.domain.conversations, ..other.domain },
            ui: UiState { window_ids: self.ui.window_ids, sidebar_cache: self.ui.sidebar_cache, ..other.ui },
            ..*other
        })
    }

    fn add_window_id(&mut self, w: WindowId)
        requires
            old(self).wf(),
        ensures
            final(self).wf(),
            *final(self) == (Model {
                ui: UiState { window_ids: final(self).ui.window_ids, ..old(self).ui },
                ..*old(self)
            }),
            final(self).ui.window_ids@ == with_window(old(self).ui.window_ids@, w),
    {
        proof {
            lemma_keys_concrete_eq();
            lemma_first_index(self.ui.window_ids@, w);
        }
        match position_of(&self.ui.window_ids, &w) {
            Some(_) => {},
            None => {
                let ghost before = self.ui.window_ids@;
                self.ui.window_ids.push(w);
                proof {
                    assert forall|a: int, b: int| 0 <= a < b < self.ui.window_ids@.len() implies self.ui.window_ids@[a]
                        != self.ui.window_ids@[b] by {
                        if b == before.len() {
                            assert(before[a] != w);
                        }
                    };
                }
            },
        }
    }

    /// Opens a conversation window (listed at the end) named
    /// `default_name` unless there is one for `window_id`.
    fn ensure_conversation_window(&mut self, window_id: WindowId, default_name: String)
        requires
            old(self).wf(),
            is_conversation_window(window_id),
        ensures
            final(self).wf(),
            conversation_ensured(*old(self), *final(self), window_id, default_name@),
    {
        self.add_window_id(window_id);
        proof {
            lemma_keys_concrete_eq();
        }
        match key_position(&self.domain.conversations, &window_id) {
            Some(_) => {},
            None => {
                let ghost before = self.domain.conversations@;
                let c = Conversation {
                    name: default_name,
                    messages: Vec::new(),
                    topic: None,
                    peers: Vec::new(),
                    self_role: None,
                    self_name: None,
                    ignored_peers: Vec::new(),
                };
                self.domain.conversations.push((window_id, c));
                proof {
                    lemma_key_pos_push(before, (window_id, c), window_id);
                    assert forall|i: int| 0 <= i < self.domain.conversations@.len() implies is_conversation_window(
                        #[trigger] self.domain.conversations@[i].0,
                    ) by {
                        if i < before.len() {
                            assert(self.domain.conversations@[i] == before[i]);
                        }
                    };
                }
            },
        }
        self.invalidate_sidebar_cache();
    }

    /// Opens the window of contact `pk` unless it is open: named after the
    /// contact, or after the first bytes of the key when it is unknown.
    pub fn ensure_friend_window(&mut self, pk: PublicKey)
        requires
            old(self).wf(),
        ensures
            final(self).wf(),
            conversation_ensured(*old(self), *final(self), WindowId::Friend(pk), friend_window_name(*old(self), pk)),
    {
        proof {
            lemma_keys_concrete_eq();
        }
        let name = match key_position(&self.domain.friends, &pk) {
            Some(i) => {
                proof {
                    lemma_key_pos(self.domain.friends@, pk);
                }
                self.domain.friends[i].1.name.clone()
            },
            None => {
                let mut cs = str_chars("Friend ");
                let mut b: Vec<u8> = Vec::new();
                b.push(pk.0[0]);
                b.push(pk.0[1]);
                b.push(pk.0[2]);
                b.push(pk.0[3]);
                assert(b@ =~= pk.0@.take(4));
                let hex = encode_hex(b.as_slice());
                push_all(&mut cs, str_chars(hex.as_str()).as_slice());
                string_from_chars(cs.as_slice())
            },
        };
        self.ensure_conversation_window(WindowId::Friend(pk), name);
    }

    /// Opens the window of group `chat_id` unless it is open, named after
    /// the group's number in this session (`Group <n>`), or `Group`.
    pub fn ensure_group_window(&mut self, chat_id: ChatId)
        requires
            old(self).wf(),
        ensures
            final(self).wf(),
            conversation_ensured(
                *old(self),
                *final(self),
                WindowId::Group(chat_id),
                numbered_name("Group"@, old(self).session.group_numbers@, chat_id),
            ),
    {
        let name = numbered_window_name("Group", &self.session.group_numbers, &chat_id);
        self.ensure_conversation_window(WindowId::Group(chat_id), name);
    }

    /// Opens the window of conference `conference_id` unless it is open,
    /// named after its number in this session (`Conference <n>`), or
    /// `Conference`.
    pub fn ensure_conference_window(&mut self, conference_id: ConferenceId)
        requires
            old(self).wf(),
        ensures
            final(self).wf(),
            conversation_ensured(
                *old(self),
                *final(self),
                WindowId::Conference(conference_id),
                numbered_name("Conference"@, old(self).session.conference_numbers@, conference_id),
            ),
    {
        let name = numbered_window_name("Conference", &self.session.conference_numbers, &conference_id);
        self.ensure_conversation_window(WindowId::Conference(conference_id), name);
    }

    /// Opens the window `window_id` unless it is open; a conversation
    /// window also gets its conversation.
    pub fn ensure_window(&mut self, window_id: WindowId)
        requires
            old(self).wf(),
        ensures
            final(self).wf(),
            final(self).same_but_windows(old(self)),
            final(self).ui.window_ids@ == with_window(old(self).ui.window_ids@, window_id),
            match window_id {
                WindowId::Friend(pk) => key_pos(old(self).domain.conversations@, window_id) == -1 ==> {
                    let c = final(self).domain.conversations@.last().1;
                    &&& final(self).domain.conversations@ == old(self).domain.conversations@.push((window_id, c))
                    &&& fresh_conversation(c, friend_window_name(*old(self), pk))
                },
                WindowId::Group(g) => key_pos(old(self).domain.conversations@, window_id) == -1 ==> {
                    let c = final(self).domain.conversations@.last().1;
                    &&& final(self).domain.conversations@ == old(self).domain.conversations@.push((window_id, c))
                    &&& fresh_conversation(c, numbered_name("Group"@, old(self).session.group_numbers@, g))
                },
                WindowId::Conference(k) => key_pos(old(self).domain.conversations@, window_id) == -1 ==> {
                    let c = final(self).domain.conversations@.last().1;
                    &&& final(self).domain.conversations@ == old(self).domain.conversations@.push((window_id, c))
                    &&& fresh_conversation(
                        c,
                        numbered_name("Conference"@, old(self).session.conference_numbers@, k),
                    )
                },
                _ => final(self).ui.sidebar_cache == old(self).ui.sidebar_cache,
            },
            is_conversation_window(window_id) ==> final(self).ui.sidebar_cache is None,
            key_pos(old(self).domain.conversations@, window_id) >= 0 || window_id is Console || window_id is Logs
                || window_id is Files ==> final(self).domain.conversations == old(self).domain.conversations,
    {
        match window_id {
            WindowId::Friend(pk) => self.ensure_friend_window(pk),
            WindowId::Group(g) => self.ensure_group_window(g),
            WindowId::Conference(c) => self.ensure_conference_window(c),
            _ => self.add_window_id(window_id),
        }
    }
}

/// `<kind> <number>` for the session's number of `id`, or `<kind>`.
fn numbered_window_name(kind: &str, numbers: &Vec<(u32, Key32)>, id: &Key32) -> (r: String)
    ensures
        r@ == numbered_name(kind@, numbers@, *id),
{
    proof {
        lemma_value_pos(numbers@, *id);
    }
    let mut cs = str_chars(kind);
    match number_of(numbers, id) {
        Some(n) => {
            push_all(&mut cs, str_chars(" ").as_slice());
            crate::export::push_dec(&mut cs, n as u64);
        },
        None => {},
    }
    string_from_chars(cs.as_slice())
}

/// A message's content as values.
pub enum ContentView {
    Text(Seq<char>),
    List(Seq<Seq<char>>),
    FileTransfer {
        file_id: Option<FileId>,
        name: Seq<char>,
        size: u64,
        progress_done: u64,
        progress_total: u64,
        speed: Seq<char>,
        is_incoming: bool,
    },
    GameInvite { game_type: Seq<char>, challenger: Seq<char> },
}

pub open spec fn content_view(c: MessageContent) -> ContentView {
    match c {
        MessageContent::Text(t) => ContentView::Text(t@),
        MessageContent::List(items) => ContentView::List(crate::pickers::strings_view(items@)),
        MessageContent::FileTransfer { file_id, name, size, progress_done, progress_total, speed, is_incoming } =>
            ContentView::FileTransfer {
            file_id,
            name: name@,
            size,
            progress_done,
            progress_total,
            speed: speed@,
            is_incoming,
        },
        MessageContent::GameInvite { game_type, challenger } => ContentView::GameInvite {
            game_type: game_type@,
            challenger: challenger@,
        },
    }
}

/// A message as values.
pub struct MessageView {
    pub internal_id: InternalMessageId,
    pub sender: Seq<char>,
    pub sender_pk: Option<PublicKey>,
    pub is_self: bool,
    pub content: ContentView,
    pub timestamp: Timestamp,
    pub status: MessageStatus,
    pub message_type: MessageType,
    pub highlighted: bool,
}

pub open spec fn message_view(m: Message) -> MessageView {
    MessageView {
        internal_id: m.internal_id,
        sender: m.sender@,
        sender_pk: m.sender_pk,
        is_self: m.is_self,
        content: content_view(m.content),
        timestamp: m.timestamp,
        status: m.status,
        message_type: m.message_type,
        highlighted: m.highlighted,
    }
}

fn copy_strings(v: &Vec<String>) -> (r: Vec<String>)
    ensures
        r@ == v@,
{
    let mut r: Vec<String> = Vec::new();
    let mut i: usize = 0;
    while i < v.len()
        invariant
            i <= v@.len(),
            r@ == v@.take(i as int),
        decreases v@.len() - i,
    {
        r.push(v[i].clone());
        assert(v@.take(i as int + 1) =~= v@.take(i as int).push(v@[i as int]));
        i = i + 1;
    }
    assert(v@.take(v@.len() as int) =~= v@);
    r
}

fn copy_content(c: &MessageContent) -> (r: MessageContent)
    ensures
        content_view(r) == content_view(*c),
{
    match c {
        MessageContent::Text(t) => MessageContent::Text(t.clone()),
        MessageContent::List(items) => {
            let r = copy_strings(items);
            MessageContent::List(r)
        },
        MessageContent::FileTransfer { file_id, name, size, progress_done, progress_total, speed, is_incoming } =>
            MessageContent::FileTransfer {
            file_id: *file_id,
            name: name.clone(),
            size: *size,
            progress_done: *progress_done,
            progress_total: *progress_total,
            speed: speed.clone(),
            is_incoming: *is_incoming,
        },
        MessageContent::GameInvite { game_type, challenger } => MessageContent::GameInvite {
            game_type: game_type.clone(),
            challenger: challenger.clone(),
        },
    }
}

/// A copy of a message.
pub fn copy_message(m: &Message) -> (r: Message)
    ensures
        message_view(r) == message_view(*m),
{
    Message {
        internal_id: m.internal_id,
        sender: m.sender.clone(),
        sender_pk: m.sender_pk,
        is_self: m.is_self,
        content: copy_content(&m.content),
        timestamp: m.timestamp,
        status: m.status,
        message_type: m.message_type,
        highlighted: m.highlighted,
    }
}

/// `s` occurs in one of `items`.
pub open spec fn any_contains(items: Seq<Seq<char>>, s: Seq<char>) -> bool {
    exists|i: int| 0 <= i < items.len() && contains_seq(#[trigger] items[i], s)
}

/// What the content says in `s` occurs in: its text, one of its items,
/// the name of its file, or the kind of its game.
pub open spec fn content_contains(c: ContentView, s: Seq<char>) -> bool {
    match c {
        ContentView::Text(t) => contains_seq(t, s),
        ContentView::List(items) => any_contains(items, s),
        ContentView::FileTransfer { name, .. } => contains_seq(name, s),
        ContentView::GameInvite { game_type, .. } => contains_seq(game_type, s),
    }
}

proof fn lemma_list_contains(items: Seq<String>, s: Seq<char>, i: int)
    requires
        0 <= i < items.len(),
        contains_seq(items[i]@, s),
    ensures
        content_contains(ContentView::List(crate::pickers::strings_view(items)), s),
{
    let iv = crate::pickers::strings_view(items);
    assert(iv.len() == items.len());
    assert(iv[i] == items[i]@);
    assert(contains_seq(iv[i], s));
    assert(any_contains(iv, s));
}

proof fn lemma_list_lacks(items: Seq<String>, s: Seq<char>)
    requires
        forall|j: int| 0 <= j < items.len() ==> !contains_seq(#[trigger] items[j]@, s),
    ensures
        !content_contains(ContentView::List(crate::pickers::strings_view(items)), s),
{
    let iv = crate::pickers::strings_view(items);
    assert forall|j: int| 0 <= j < iv.len() implies !contains_seq(#[trigger] iv[j], s) by {
        assert(iv[j] == items[j]@);
    };
}

impl MessageContent {
    /// The text of a text message.
    pub fn as_text(&self) -> (r: Option<&str>)
        ensures
            match *self {
                MessageContent::Text(t) => r matches Some(x) && x@ == t@,
                _ => r is None,
            },
    {
        match self {
            MessageContent::Text(t) => Some(t.as_str()),
            _ => None,
        }
    }

    /// Whether `s` occurs in the content's text, one of its items, the
    /// name of its file or the kind of its game.
    pub fn contains(&self, s: &str) -> (r: bool)
        ensures
            r == content_contains(content_view(*self), s@),
    {
        let needle = str_chars(s);
        match self {
            MessageContent::Text(t) => contains_exec(&str_chars(t.as_str()), &needle),
            MessageContent::List(items) => {
                let mut i: usize = 0;
                while i < items.len()
                    invariant
                        i <= items@.len(),
                        needle@ == s@,
                        content_view(*self) == ContentView::List(crate::pickers::strings_view(items@)),
                        forall|j: int| 0 <= j < i ==> !contains_seq(#[trigger] items@[j]@, s@),
                    decreases items@.len() - i,
                {
                    if contains_exec(&str_chars(items[i].as_str()), &needle) {
                        proof {
                            lemma_list_contains(items@, s@, i as int);
                        }
                        return true;
                    }
                    i = i + 1;
                }
                proof {
                    lemma_list_lacks(items@, s@);
                }
                false
            },
            MessageContent::FileTransfer { name, .. } => contains_exec(&str_chars(name.as_str()), &needle),
            MessageContent::GameInvite { game_type, .. } => contains_exec(&str_chars(game_type.as_str()), &needle),
        }
    }
}

/// The user's name in the group shown by `w`, if `w` is a group window
/// whose conversation records one.
pub open spec fn group_self_name(m: Model, w: WindowId) -> Option<Seq<char>> {
    match w {
        WindowId::Group(_) => match lookup(m.domain.conversations@, w) {
            Some(c) => match c.self_name {
                Some(n) => Some(n@),
                None => None,
            },
            None => None,
        },
        _ => None,
    }
}

/// A message `text` in window `w` is highlighted: one of the configured
/// words, the user's name, or the user's name in the group, is found in it
/// (see `should_highlight` of the model module).
pub open spec fn highlighted_in(m: Model, w: WindowId, text: Seq<char>) -> bool {
    let names = crate::model::highlight_names(m.config.highlight_strings@, m.domain.self_name@, group_self_name(m, w));
    exists|i: int|
        0 <= i < names.len() && #[trigger] names[i].len() > 0 && crate::model::regex_search(
            crate::model::highlight_pattern_spec(names[i]),
            text,
        ) == Some(true)
}

/// `name` is mentioned in `text`: it is not empty and its highlight
/// pattern matches.
pub open spec fn mentions(name: Seq<char>, text: Seq<char>) -> bool {
    name.len() > 0 && crate::model::regex_search(crate::model::highlight_pattern_spec(name), text) == Some(true)
}

/// The user's nickname in group window `w`, as its conversation records
/// it.
pub open spec fn nickname_in(m: Model, w: WindowId) -> Option<Seq<char>> {
    if w is Group && lookup(m.domain.conversations@, w) is Some {
        match lookup(m.domain.conversations@, w)->0.self_name {
            Some(n) => Some(n@),
            None => None,
        }
    } else {
        None
    }
}

/// A message is highlighted exactly when it mentions the user's name, one
/// of the configured words, or (in a group whose conversation records
/// one) the user's nickname in that group; each of them alone is enough,
/// whatever the others are.
pub proof fn law_highlight_mentions(m: Model, w: WindowId, text: Seq<char>)
    ensures
        highlighted_in(m, w, text) <==> {
            ||| mentions(m.domain.self_name@, text)
            ||| exists|i: int|
                0 <= i < m.config.highlight_strings@.len() && mentions(
                    #[trigger] m.config.highlight_strings@[i]@,
                    text,
                )
            ||| (nickname_in(m, w) matches Some(n) && mentions(n, text))
        },
        nickname_in(m, w) matches Some(n) && mentions(n, text) ==> highlighted_in(m, w, text),
        mentions(m.domain.self_name@, text) ==> highlighted_in(m, w, text),
{
    let words = m.config.highlight_strings@;
    let base = words.map_values(|x: String| x@).push(m.domain.self_name@);
    let names = crate::model::highlight_names(words, m.domain.self_name@, group_self_name(m, w));
    let k = words.len() as int;
    assert(names[k] == m.domain.self_name@);
    assert forall|i: int| 0 <= i < k implies names[i] == #[trigger] words[i]@ by {};
    if mentions(m.domain.self_name@, text) {
        assert(names[k].len() > 0);
    }
    if exists|i: int| 0 <= i < k && mentions(#[trigger] words[i]@, text) {
        let i = choose|i: int| 0 <= i < k && mentions(#[trigger] words[i]@, text);
        assert(names[i].len() > 0);
    }
    match nickname_in(m, w) {
        Some(n) => {
            assert(group_self_name(m, w) == Some(n));
            assert(names[k + 1] == n);
            if mentions(n, text) {
                assert(names[k + 1].len() > 0);
            }
        },
        None => {
            assert(group_self_name(m, w) is None);
        },
    }
    if highlighted_in(m, w, text) {
        let i = choose|i: int|
            0 <= i < names.len() && #[trigger] names[i].len() > 0 && crate::model::regex_search(
                crate::model::highlight_pattern_spec(names[i]),
                text,
            ) == Some(true);
        if i < k {
            assert(mentions(words[i]@, text));
        } else if i == k {
        } else {
            assert(names[k + 1] == group_self_name(m, w)->0);
        }
    }
}

/// The lines of the network library's log, over all levels.
pub open spec fn log_count(logs: Seq<(ToxLogLevel, Vec<ToxLogItem>)>) -> int
    decreases logs.len(),
{
    if logs.len() == 0 {
        0
    } else {
        log_count(logs.drop_last()) + logs.last().1@.len()
    }
}

/// How many entries window `w` lists: console lines, log lines, file
/// transfers, or the messages of its conversation (none without one).
pub open spec fn messages_in(m: Model, w: WindowId) -> int {
    match w {
        WindowId::Console => m.domain.console_messages@.len() as int,
        WindowId::Logs => log_count(m.domain.tox_logs@),
        WindowId::Files => m.domain.file_transfers@.len() as int,
        _ => match lookup(m.domain.conversations@, w) {
            Some(c) => c.messages@.len() as int,
            None => 0,
        },
    }
}

impl Model {
    /// Whether a message `text` in window `id` is highlighted.
    pub fn should_highlight(&self, window_id: WindowId, text: &str) -> (r: bool)
        requires
            self.wf(),
        ensures
            r == highlighted_in(*self, window_id, text@),
            r <==> {
                ||| mentions(self.domain.self_name@, text@)
                ||| exists|i: int|
                    0 <= i < self.config.highlight_strings@.len() && mentions(
                        #[trigger] self.config.highlight_strings@[i]@,
                        text@,
                    )
                ||| (nickname_in(*self, window_id) matches Some(n) && mentions(n, text@))
            },
    {
        proof {
            lemma_keys_concrete_eq();
            lemma_key_pos(self.domain.conversations@, window_id);
        }
        let group_name: Option<&str> = match window_id {
            WindowId::Group(_) => match key_position(&self.domain.conversations, &window_id) {
                Some(i) => match &self.domain.conversations[i].1.self_name {
                    Some(n) => Some(n.as_str()),
                    None => None,
                },
                None => None,
            },
            _ => None,
        };
        assert(crate::model::opt_str_view(group_name) == group_self_name(*self, window_id));
        proof {
            law_highlight_mentions(*self, window_id, text@);
        }
        should_highlight(&self.config.highlight_strings, self.domain.self_name.as_str(), group_name, text)
    }

    /// How many entries window `id` lists.
    pub fn total_messages_for(&self, id: WindowId) -> (r: usize)
        requires
            self.wf(),
            log_count(self.domain.tox_logs@) <= usize::MAX,
        ensures
            r == messages_in(*self, id),
    {
        match id {
            WindowId::Console => self.domain.console_messages.len(),
            WindowId::Logs => {
                let mut total: usize = 0;
                let mut i: usize = 0;
                assert(self.domain.tox_logs@.take(0) =~= Seq::<(ToxLogLevel, Vec<ToxLogItem>)>::empty());
                while i < self.domain.tox_logs.len()
                    invariant
                        i <= self.domain.tox_logs@.len(),
                        total == log_count(self.domain.tox_logs@.take(i as int)),
                        log_count(self.domain.tox_logs@) <= usize::MAX,
                    decreases self.domain.tox_logs@.len() - i,
                {
                    let ghost t = self.domain.tox_logs@.take(i as int + 1);
                    assert(t.drop_last() =~= self.domain.tox_logs@.take(i as int));
                    proof {
                        lemma_log_count_prefix(self.domain.tox_logs@, i as int + 1);
                    }
                    total = total + self.domain.tox_logs[i].1.len();
                    i = i + 1;
                }
                assert(self.domain.tox_logs@.take(i as int) =~= self.domain.tox_logs@);
                total
            },
            WindowId::Files => self.domain.file_transfers.len(),
            _ => {
                proof {
                    lemma_keys_concrete_eq();
                    lemma_key_pos(self.domain.conversations@, id);
                }
                match key_position(&self.domain.conversations, &id) {
                    Some(i) => self.domain.conversations[i].1.messages.len(),
                    None => 0,
                }
            },
        }
    }

    /// The line above the shown window: the user's address on the console,
    /// a fixed title for the log and the file manager, and the topic (or
    /// name) of a conversation.
    pub fn active_window_topic(&self) -> (r: String)
        requires
            self.wf(),
        ensures
            r@ == match self.active_id() {
                WindowId::Console => "Tox ID: "@ + self.domain.tox_id@,
                WindowId::Logs => "Tox Logs"@,
                WindowId::Files => "File Manager"@,
                _ => match lookup(self.domain.conversations@, self.active_id()) {
                    Some(c) => match c.topic {
                        Some(t) => t@,
                        None => c.name@,
                    },
                    None => "Conversation"@,
                },
            },
    {
        let id = self.active_window_id();
        match id {
            WindowId::Console => {
                let mut cs = str_chars("Tox ID: ");
                push_all(&mut cs, str_chars(self.domain.tox_id.as_str()).as_slice());
                string_from_chars(cs.as_slice())
            },
            WindowId::Logs => "Tox Logs".to_owned(),
            WindowId::Files => "File Manager".to_owned(),
            _ => {
                proof {
                    lemma_keys_concrete_eq();
                    lemma_key_pos(self.domain.conversations@, id);
                }
                match key_position(&self.domain.conversations, &id) {
                    Some(i) => match &self.domain.conversations[i].1.topic {
                        Some(t) => t.clone(),
                        None => self.domain.conversations[i].1.name.clone(),
                    },
                    None => "Conversation".to_owned(),
                }
            },
        }
    }
}

/// Every prefix counts no more lines than the whole.
proof fn lemma_log_count_prefix(s: Seq<(ToxLogLevel, Vec<ToxLogItem>)>, n: int)
    requires
        0 <= n <= s.len(),
    ensures
        log_count(s.take(n)) <= log_count(s),
    decreases s.len() - n,
{
    if n < s.len() {
        assert(s.take(n + 1).drop_last() =~= s.take(n));
        lemma_log_count_prefix(s, n + 1);
    } else {
        assert(s.take(n) =~= s);
    }
}

/// The window states after a message arrived in `w`: when `bump`, `w`'s
/// state (a fresh one if it had none) counts one more unread message; then
/// its layout is dropped.
pub open spec fn touched(
    before: Seq<(WindowId, WindowUiState)>,
    after: Seq<(WindowId, WindowUiState)>,
    w: WindowId,
    bump: bool,
) -> bool {
    let k = key_pos(before, w);
    if bump && k < 0 {
        let n = after.last().1;
        &&& after.len() == before.len() + 1
        &&& after.drop_last() == before
        &&& after.last().0 == w
        &&& n.unread_count == 1
        &&& fresh_window_state(WindowUiState { unread_count: 0, ..n })
    } else {
        &&& after.len() == before.len()
        &&& forall|j: int| 0 <= j < before.len() && j != k ==> after[j] == before[j]
        &&& k >= 0 ==> {
            &&& after[k].0 == w
            &&& relaid_state(
                if bump {
                    WindowUiState { unread_count: (before[k].1.unread_count + 1) as usize, ..before[k].1 }
                } else {
                    before[k].1
                },
                after[k].1,
            )
        }
    }
}

/// Conversation `k` of `after` is that of `before` with `m` appended, and
/// nothing else differs.
pub open spec fn conv_appended(
    before: Seq<(WindowId, Conversation)>,
    after: Seq<(WindowId, Conversation)>,
    k: int,
    m: Message,
) -> bool {
    &&& 0 <= k < before.len()
    &&& after.len() == before.len()
    &&& forall|j: int| 0 <= j < before.len() && j != k ==> after[j] == before[j]
    &&& after[k].0 == before[k].0
    &&& after[k].1.messages@ == before[k].1.messages@.push(m)
    &&& after[k].1.name == before[k].1.name
    &&& after[k].1.topic == before[k].1.topic
    &&& after[k].1.peers == before[k].1.peers
    &&& after[k].1.self_role == before[k].1.self_role
    &&& after[k].1.self_name == before[k].1.self_name
    &&& after[k].1.ignored_peers == before[k].1.ignored_peers
}

/// The message an incoming text becomes.
pub open spec fn incoming_view(
    m: Model,
    w: WindowId,
    message_type: MessageType,
    sender: Seq<char>,
    content: Seq<char>,
    sender_pk: Option<PublicKey>,
    timestamp: Timestamp,
) -> MessageView {
    MessageView {
        internal_id: m.domain.next_internal_id,
        sender,
        sender_pk,
        is_self: sender_pk == Some(m.domain.self_public_key),
        content: ContentView::Text(content),
        timestamp,
        status: MessageStatus::Incoming,
        message_type,
        highlighted: highlighted_in(m, w, content),
    }
}

impl Model {
    /// `self` and `other` differ at most in the conversations, the message
    /// numbering, the window states and the sidebar cache.
    pub open spec fn same_but_messages(&self, other: &Model) -> bool {
        *self == (Model {
            domain: DomainState {
                conversations: self.domain.conversations,
                next_internal_id: self.domain.next_internal_id,
                ..other.domain
            },
            ui: UiState { window_state: self.ui.window_state, sidebar_cache: self.ui.sidebar_cache, ..other.ui },
            ..*other
        })
    }

    /// Counts one more unread message for window `w`.
    fn bump_unread(&mut self, w: WindowId)
        requires
            old(self).wf(),
            key_pos(old(self).ui.window_state@, w) >= 0 ==> old(self).ui.window_state@[key_pos(
                old(self).ui.window_state@,
                w,
            )].1.unread_count < usize::MAX,
        ensures
            final(self).wf(),
            final(self).same_but_window_state(old(self)),
            ({
                let before = old(self).ui.window_state@;
                let after = final(self).ui.window_state@;
                let k = key_pos(before, w);
                if k < 0 {
                    let n = after.last().1;
                    &&& after.len() == before.len() + 1
                    &&& after.drop_last() == before
                    &&& after.last().0 == w
                    &&& n.unread_count == 1
                    &&& fresh_window_state(WindowUiState { unread_count: 0, ..n })
                } else {
                    after == before.update(
                        k,
                        (w, WindowUiState { unread_count: (before[k].1.unread_count + 1) as usize, ..before[k].1 }),
                    )
                }
            }),
    {
        let ghost before = self.ui.window_state@;
        proof {
            lemma_key_pos(before, w);
        }
        let i = self.window_state_entry(w);
        let ghost mid = self.ui.window_state@;
        proof {
            lemma_key_pos(mid, w);
        }
        self.ui.window_state[i].1.unread_count = self.ui.window_state[i].1.unread_count + 1;
        proof {
            let nw = self.ui.window_state@;
            assert forall|a: int, b: int| 0 <= a < b < nw.len() implies nw[a].0 != nw[b].0 by {
                assert(mid[a].0 != mid[b].0);
            };
            if key_pos(before, w) < 0 {
                assert(nw.drop_last() =~= before);
            } else {
                assert(nw =~= before.update(
                    key_pos(before, w),
                    (w, WindowUiState { unread_count: (before[key_pos(before, w)].1.unread_count + 1) as usize, ..before[key_pos(before, w)].1 }),
                ));
            }
        }
    }

    /// Appends `msg` to conversation `k` (that of `window_id`), counts it
    /// as unread when the window is not shown, and has the window and the
    /// sidebar drawn again.
    fn deliver(&mut self, window_id: WindowId, k: usize, msg: Message) -> (r: Message)
        requires
            old(self).wf(),
            k as int == key_pos(old(self).domain.conversations@, window_id),
            k < old(self).domain.conversations@.len(),
            unread_room(*old(self), window_id),
        ensures
            final(self).wf(),
            final(self).same_but_messages(old(self)),
            final(self).domain.next_internal_id == old(self).domain.next_internal_id,
            conv_appended(old(self).domain.conversations@, final(self).domain.conversations@, k as int, msg),
            touched(
                old(self).ui.window_state@,
                final(self).ui.window_state@,
                window_id,
                window_id != old(self).active_id(),
            ),
            final(self).ui.sidebar_cache is None,
            message_view(r) == message_view(msg),
    {
        let active_id = self.active_window_id();
        proof {
            lemma_keys_concrete_eq();
            reveal(obeys_concrete_eq);
            lemma_key_pos(self.domain.conversations@, window_id);
        }
        let copy = copy_message(&msg);
        let ghost convs0 = self.domain.conversations@;
        self.domain.conversations[k].1.messages.push(msg);
        proof {
            let cs = self.domain.conversations@;
            assert forall|a: int, b: int| 0 <= a < b < cs.len() implies cs[a].0 != cs[b].0 by {
                assert(convs0[a].0 != convs0[b].0);
            };
        }
        let ghost ws0 = self.ui.window_state@;
        if !(window_id == active_id) {
            self.bump_unread(window_id);
        }
        let ghost ws1 = self.ui.window_state@;
        proof {
            lemma_key_pos(ws0, window_id);
            lemma_key_pos(ws1, window_id);
            if window_id != active_id && key_pos(ws0, window_id) >= 0 {
                lemma_key_pos_update(
                    ws0,
                    key_pos(ws0, window_id),
                    WindowUiState { unread_count: (ws0[key_pos(ws0, window_id)].1.unread_count + 1) as usize, ..ws0[key_pos(ws0, window_id)].1 },
                    window_id,
                );
                assert(ws0[key_pos(ws0, window_id)].0 == window_id);
            }
            if window_id != active_id && key_pos(ws0, window_id) < 0 {
                lemma_key_pos_push(ws0, ws1.last(), window_id);
                assert(ws1 =~= ws0.push(ws1.last()));
            }
        }
        self.invalidate_window_cache(window_id);
        self.invalidate_sidebar_cache();
        proof {
            let kk = key_pos(old(self).domain.conversations@, window_id);
            assert(kk == k);
            assert(self.same_but_messages(old(self)));
            assert(conv_appended(old(self).domain.conversations@, self.domain.conversations@, kk, msg));
            let ws2 = self.ui.window_state@;
            if window_id != active_id && key_pos(ws0, window_id) < 0 {
                assert(key_pos(ws1, window_id) == ws0.len());
                assert(ws2.drop_last() =~= ws0) by {
                    assert forall|j: int| 0 <= j < ws0.len() implies ws2[j] == ws0[j] by {
                        assert(ws2[j] == ws1[j]);
                        assert(ws1[j] == ws0[j]);
                    };
                };
                let n2 = ws2.last().1;
                let n1 = ws1.last().1;
                assert(relaid_state(n1, n2));
                assert(fresh_window_state(WindowUiState { unread_count: 0, ..n2 }));
            } else if window_id != active_id {
                let kw = key_pos(ws0, window_id);
                assert(key_pos(ws1, window_id) == kw);
                assert(ws1[kw].1 == WindowUiState { unread_count: (ws0[kw].1.unread_count + 1) as usize, ..ws0[kw].1 });
                assert forall|j: int| 0 <= j < ws0.len() && j != kw implies ws2[j] == ws0[j] by {
                    assert(ws1[j] == ws0[j]);
                };
            } else {
                assert(ws1 == ws0);
            }
            assert(touched(old(self).ui.window_state@, self.ui.window_state@, window_id, window_id != old(self).active_id()));
        }
        copy
    }

    /// Appends an incoming text to the conversation of `window_id`, if
    /// there is one, numbered next: it is the user's own when sent from
    /// the user's key, and highlighted when it names the user.  A window
    /// not shown counts it as unread.
    fn add_incoming_message(
        &mut self,
        window_id: WindowId,
        message_type: MessageType,
        sender: String,
        content: String,
        sender_pk: Option<PublicKey>,
        timestamp: Timestamp,
    ) -> (r: Option<Message>)
        requires
            old(self).wf(),
            old(self).domain.next_internal_id.0 < usize::MAX,
            window_id != old(self).active_id() && key_pos(old(self).ui.window_state@, window_id) >= 0
                ==> old(self).ui.window_state@[key_pos(old(self).ui.window_state@, window_id)].1.unread_count
                < usize::MAX,
        ensures
            final(self).wf(),
            key_pos(old(self).domain.conversations@, window_id) == -1 ==> r is None && *final(self) == *old(self),
            key_pos(old(self).domain.conversations@, window_id) >= 0 ==> {
                let k = key_pos(old(self).domain.conversations@, window_id);
                let m = final(self).domain.conversations@[k].1.messages@.last();
                &&& final(self).same_but_messages(old(self))
                &&& message_view(m) == incoming_view(
                    *old(self),
                    window_id,
                    message_type,
                    sender@,
                    content@,
                    sender_pk,
                    timestamp,
                )
                &&& conv_appended(old(self).domain.conversations@, final(self).domain.conversations@, k, m)
                &&& final(self).domain.next_internal_id == InternalMessageId((old(self).domain.next_internal_id.0 + 1) as usize)
                &&& touched(
                    old(self).ui.window_state@,
                    final(self).ui.window_state@,
                    window_id,
                    window_id != old(self).active_id(),
                )
                &&& final(self).ui.sidebar_cache is None
                &&& r matches Some(x) && message_view(x) == message_view(m)
            },
    {
        let active_id = self.active_window_id();
        let highlighted = self.should_highlight(window_id, content.as_str());
        proof {
            lemma_keys_concrete_eq();
            lemma_key_pos(self.domain.conversations@, window_id);
        }
        match key_position(&self.domain.conversations, &window_id) {
            Some(k) => {
                let internal_id = self.domain.next_internal_id;
                self.domain.next_internal_id = InternalMessageId(self.domain.next_internal_id.0 + 1);
                let is_self = match sender_pk {
                    Some(pk) => pk == self.domain.self_public_key,
                    None => false,
                };
                proof {
                    reveal(obeys_concrete_eq);
                }
                let msg = Message {
                    internal_id,
                    sender,
                    sender_pk,
                    is_self,
                    content: MessageContent::Text(content),
                    timestamp,
                    status: MessageStatus::Incoming,
                    message_type,
                    highlighted,
                };
                let copy = self.deliver(window_id, k, msg);
                Some(copy)
            },
            None => None,
        }
    }
}

/// `w`'s conversation (opened with name `name` if there was none) got `m`
/// appended, and nothing else in the conversations changed.
pub open spec fn appended_to(
    before: Seq<(WindowId, Conversation)>,
    after: Seq<(WindowId, Conversation)>,
    w: WindowId,
    name: Seq<char>,
    m: Message,
) -> bool {
    let k = key_pos(before, w);
    if k >= 0 {
        conv_appended(before, after, k, m)
    } else {
        let c = after.last().1;
        &&& after.len() == before.len() + 1
        &&& after.drop_last() == before
        &&& after.last().0 == w
        &&& c.messages@ == seq![m]
        &&& c.name@ == name
        &&& c.topic is None
        &&& c.peers@.len() == 0
        &&& c.self_role is None
        &&& c.self_name is None
        &&& c.ignored_peers@.len() == 0
    }
}

/// The unread bound a message for `w` needs: the count of a window not
/// shown must have room for one more.
pub open spec fn unread_room(m: Model, w: WindowId) -> bool {
    w != m.active_id() && key_pos(m.ui.window_state@, w) >= 0 ==> m.ui.window_state@[key_pos(
        m.ui.window_state@,
        w,
    )].1.unread_count < usize::MAX
}

/// The model after an incoming text was put in `w`'s conversation
/// (opened with `name` if there was none): the window listed, the message
/// numbered with the next number and appended, the window's unread count
/// raised unless it is shown, the sidebar drawn again; nothing else
/// changed.  `r` is the message.
pub open spec fn incoming_added(
    before: Model,
    after: Model,
    w: WindowId,
    name: Seq<char>,
    message_type: MessageType,
    sender: Seq<char>,
    content: Seq<char>,
    sender_pk: Option<PublicKey>,
    timestamp: Timestamp,
    r: Option<Message>,
) -> bool {
    let convs = after.domain.conversations@;
    let m = convs[key_pos(convs, w)].1.messages@.last();
    &&& after == (Model {
        domain: DomainState {
            conversations: after.domain.conversations,
            next_internal_id: after.domain.next_internal_id,
            ..before.domain
        },
        ui: UiState {
            window_ids: after.ui.window_ids,
            window_state: after.ui.window_state,
            sidebar_cache: None,
            ..before.ui
        },
        ..before
    })
    &&& after.ui.window_ids@ == with_window(before.ui.window_ids@, w)
    &&& key_pos(convs, w) >= 0
    &&& message_view(m) == incoming_view(before, w, message_type, sender, content, sender_pk, timestamp)
    &&& appended_to(before.domain.conversations@, convs, w, name, m)
    &&& after.domain.next_internal_id == InternalMessageId((before.domain.next_internal_id.0 + 1) as usize)
    &&& touched(before.ui.window_state@, after.ui.window_state@, w, w != before.active_id())
    &&& r matches Some(x) && message_view(x) == message_view(m)
}

impl Model {
    /// Opens `w`'s conversation (named `name` when new) and appends an
    /// incoming text to it.
    fn add_to_conversation(
        &mut self,
        window_id: WindowId,
        name: String,
        message_type: MessageType,
        sender: String,
        content: String,
        sender_pk: Option<PublicKey>,
        timestamp: Timestamp,
    ) -> (r: Option<Message>)
        requires
            old(self).wf(),
            old(self).domain.next_internal_id.0 < usize::MAX,
            unread_room(*old(self), window_id),
            !(window_id is Console || window_id is Logs || window_id is Files),
        ensures
            final(self).wf(),
            incoming_added(
                *old(self),
                *final(self),
                window_id,
                name@,
                message_type,
                sender@,
                content@,
                sender_pk,
                timestamp,
                r,
            ),
    {
        let ghost m0 = *self;
        proof {
            lemma_key_pos(self.domain.conversations@, window_id);
            lemma_key_pos(self.ui.window_state@, window_id);
        }
        self.ensure_conversation_window(window_id, name);
        let ghost m1 = *self;
        proof {
            lemma_key_pos(m1.domain.conversations@, window_id);
            lemma_first_index(m0.ui.window_ids@, window_id);
            assert(m1.active_id() == m0.active_id()) by {
                if !m0.ui.window_ids@.contains(window_id) {
                    assert(m1.ui.window_ids@ == m0.ui.window_ids@.push(window_id));
                }
            };
            assert(group_self_name(m1, window_id) == group_self_name(m0, window_id)) by {
                if key_pos(m0.domain.conversations@, window_id) < 0 {
                    lemma_key_pos_push(m0.domain.conversations@, m1.domain.conversations@.last(), window_id);
                    assert(m1.domain.conversations@ =~= m0.domain.conversations@.push(m1.domain.conversations@.last()));
                }
            };
            assert(highlighted_in(m1, window_id, content@) == highlighted_in(m0, window_id, content@));
        }
        let r = self.add_incoming_message(window_id, message_type, sender, content, sender_pk, timestamp);
        proof {
            let c0 = m0.domain.conversations@;
            let c1 = m1.domain.conversations@;
            let c2 = self.domain.conversations@;
            let k1 = key_pos(c1, window_id);
            lemma_key_pos(c2, window_id);
            if key_pos(c0, window_id) < 0 {
                lemma_key_pos_push(c0, c1.last(), window_id);
                assert(c1 =~= c0.push(c1.last()));
                assert(k1 == c0.len());
                assert(c2.drop_last() =~= c0) by {
                    assert forall|j: int| 0 <= j < c0.len() implies c2[j] == c0[j] by {
                        assert(c2[j] == c1[j]);
                    };
                };
                assert(key_pos(c2, window_id) == k1) by {
                    lemma_key_pos_unique(c2, window_id, k1);
                };
                assert(c2[k1].1.messages@ =~= seq![c2[k1].1.messages@.last()]);
            } else {
                assert(c1 == c0);
                assert(key_pos(c2, window_id) == k1) by {
                    lemma_key_pos_unique(c2, window_id, k1);
                };
            }
        }
        r
    }

    /// Appends a text from contact `pk` to the contact's conversation,
    /// opening it if needed: sent under the contact's name (or the key's
    /// first bytes in hex for an unknown contact).
    pub fn add_friend_message(
        &mut self,
        pk: PublicKey,
        message_type: MessageType,
        msg: String,
        timestamp: Timestamp,
    ) -> (r: Option<Message>)
        requires
            old(self).wf(),
            old(self).domain.next_internal_id.0 < usize::MAX,
            unread_room(*old(self), WindowId::Friend(pk)),
        ensures
            final(self).wf(),
            incoming_added(
                *old(self),
                *final(self),
                WindowId::Friend(pk),
                friend_window_name(*old(self), pk),
                message_type,
                friend_window_name(*old(self), pk),
                msg@,
                match lookup(old(self).domain.friends@, pk) {
                    Some(info) => info.public_key,
                    None => Some(pk),
                },
                timestamp,
                r,
            ),
    {
        proof {
            lemma_keys_concrete_eq();
            lemma_key_pos(self.domain.friends@, pk);
        }
        let (sender, sender_pk) = match key_position(&self.domain.friends, &pk) {
            Some(i) => (self.domain.friends[i].1.name.clone(), self.domain.friends[i].1.public_key),
            None => (self.friend_fallback_name(&pk), Some(pk)),
        };
        let name = sender.clone();
        self.add_to_conversation(WindowId::Friend(pk), name, message_type, sender, msg, sender_pk, timestamp)
    }

    /// `Friend ` and the first four bytes of `pk` in hex.
    pub(crate) fn friend_fallback_name(&self, pk: &PublicKey) -> (r: String)
        ensures
            r@ == "Friend "@ + crate::utils::hex_encoding(pk.0@.take(4)),
    {
        let mut cs = str_chars("Friend ");
        let mut b: Vec<u8> = Vec::new();
        b.push(pk.0[0]);
        b.push(pk.0[1]);
        b.push(pk.0[2]);
        b.push(pk.0[3]);
        assert(b@ =~= pk.0@.take(4));
        let hex = encode_hex(b.as_slice());
        push_all(&mut cs, str_chars(hex.as_str()).as_slice());
        string_from_chars(cs.as_slice())
    }

    /// Appends a text from `sender` to group `chat_id`'s conversation,
    /// opening it (as `ensure_group_window` names it) if needed.
    pub fn add_group_message(
        &mut self,
        chat_id: ChatId,
        message_type: MessageType,
        sender: String,
        content: String,
        sender_pk: Option<PublicKey>,
        timestamp: Timestamp,
    ) -> (r: Option<Message>)
        requires
            old(self).wf(),
            old(self).domain.next_internal_id.0 < usize::MAX,
            unread_room(*old(self), WindowId::Group(chat_id)),
        ensures
            final(self).wf(),
            incoming_added(
                *old(self),
                *final(self),
                WindowId::Group(chat_id),
                numbered_name("Group"@, old(self).session.group_numbers@, chat_id),
                message_type,
                sender@,
                content@,
                sender_pk,
                timestamp,
                r,
            ),
    {
        let name = numbered_window_name("Group", &self.session.group_numbers, &chat_id);
        self.add_to_conversation(WindowId::Group(chat_id), name, message_type, sender, content, sender_pk, timestamp)
    }

    /// Appends a text from `sender` to conference `conference_id`'s
    /// conversation, opening it (as `ensure_conference_window` names it)
    /// if needed.
    pub fn add_conference_message(
        &mut self,
        conference_id: ConferenceId,
        message_type: MessageType,
        sender: String,
        content: String,
        sender_pk: Option<PublicKey>,
        timestamp: Timestamp,
    ) -> (r: Option<Message>)
        requires
            old(self).wf(),
            old(self).domain.next_internal_id.0 < usize::MAX,
            unread_room(*old(self), WindowId::Conference(conference_id)),
        ensures
            final(self).wf(),
            incoming_added(
                *old(self),
                *final(self),
                WindowId::Conference(conference_id),
                numbered_name("Conference"@, old(self).session.conference_numbers@, conference_id),
                message_type,
                sender@,
                content@,
                sender_pk,
                timestamp,
                r,
            ),
    {
        let name = numbered_window_name("Conference", &self.session.conference_numbers, &conference_id);
        self.add_to_conversation(
            WindowId::Conference(conference_id),
            name,
            message_type,
            sender,
            content,
            sender_pk,
            timestamp,
        )
    }
}

/// A conversation window: one of a contact, a group or a conference.
pub open spec fn is_conversation_window(w: WindowId) -> bool {
    !(w is Console || w is Logs || w is Files)
}

/// The name a new conversation for `w` gets.
pub open spec fn window_default_name(m: Model, w: WindowId) -> Seq<char> {
    match w {
        WindowId::Friend(pk) => friend_window_name(m, pk),
        WindowId::Group(g) => numbered_name("Group"@, m.session.group_numbers@, g),
        WindowId::Conference(c) => numbered_name("Conference"@, m.session.conference_numbers@, c),
        _ => Seq::empty(),
    }
}

/// The name the user sends under in `w`: the user's name in its
/// conversation if one is set, otherwise the user's name.
pub open spec fn outgoing_sender(m: Model, w: WindowId) -> Seq<char> {
    match lookup(m.domain.conversations@, w) {
        Some(c) => match c.self_name {
            Some(n) => n@,
            None => m.domain.self_name@,
        },
        None => m.domain.self_name@,
    }
}

/// The message an outgoing text becomes.
pub open spec fn outgoing_view(
    m: Model,
    w: WindowId,
    message_type: MessageType,
    content: Seq<char>,
    timestamp: Timestamp,
) -> MessageView {
    MessageView {
        internal_id: m.domain.next_internal_id,
        sender: outgoing_sender(m, w),
        sender_pk: Some(m.domain.self_public_key),
        is_self: true,
        content: ContentView::Text(content),
        timestamp,
        status: MessageStatus::Pending,
        message_type,
        highlighted: false,
    }
}

impl Model {
    /// Records a text the user sends in `window_id`, opening the window if
    /// needed: numbered next, pending, from the user.  It is kept in the
    /// window's conversation when the window has one.
    pub fn add_outgoing_message(
        &mut self,
        window_id: WindowId,
        message_type: MessageType,
        content: String,
        timestamp: Timestamp,
    ) -> (r: (InternalMessageId, Message))
        requires
            old(self).wf(),
            old(self).domain.next_internal_id.0 < usize::MAX,
        ensures
            final(self).wf(),
            outgoing_added(*old(self), *final(self), window_id, message_type, content@, timestamp, r),
    {
        let ghost m0 = *self;
        proof {
            lemma_keys_concrete_eq();
            lemma_key_pos(self.domain.conversations@, window_id);
        }
        self.ensure_window(window_id);
        let ghost m1 = *self;
        let internal_id = self.domain.next_internal_id;
        self.domain.next_internal_id = InternalMessageId(self.domain.next_internal_id.0 + 1);
        proof {
            lemma_key_pos(m1.domain.conversations@, window_id);
            if is_conversation_window(window_id) && key_pos(m0.domain.conversations@, window_id) < 0 {
                lemma_key_pos_push(m0.domain.conversations@, m1.domain.conversations@.last(), window_id);
                assert(m1.domain.conversations@ =~= m0.domain.conversations@.push(m1.domain.conversations@.last()));
            }
        }
        match key_position(&self.domain.conversations, &window_id) {
            Some(k) => {
                let sender = match &self.domain.conversations[k].1.self_name {
                    Some(n) => n.clone(),
                    None => self.domain.self_name.clone(),
                };
                let msg = Message {
                    internal_id,
                    sender,
                    sender_pk: Some(self.domain.self_public_key),
                    is_self: true,
                    content: MessageContent::Text(content),
                    timestamp,
                    status: MessageStatus::Pending,
                    message_type,
                    highlighted: false,
                };
                let copy = copy_message(&msg);
                let ghost convs0 = self.domain.conversations@;
                self.domain.conversations[k].1.messages.push(msg);
                proof {
                    let cs = self.domain.conversations@;
                    assert forall|a: int, b: int| 0 <= a < b < cs.len() implies cs[a].0 != cs[b].0 by {
                        assert(convs0[a].0 != convs0[b].0);
                    };
                }
                self.invalidate_window_cache(window_id);
                proof {
                    let c0 = m0.domain.conversations@;
                    let c1 = m1.domain.conversations@;
                    let c2 = self.domain.conversations@;
                    lemma_key_pos_unique(c2, window_id, k as int);
                    if key_pos(c0, window_id) < 0 {
                        assert(c2.drop_last() =~= c0) by {
                            assert forall|j: int| 0 <= j < c0.len() implies c2[j] == c0[j] by {
                                assert(c2[j] == c1[j]);
                            };
                        };
                        assert(c2[k as int].1.messages@ =~= seq![c2[k as int].1.messages@.last()]);
                    }
                }
                (internal_id, copy)
            },
            None => {
                let msg = Message {
                    internal_id,
                    sender: self.domain.self_name.clone(),
                    sender_pk: Some(self.domain.self_public_key),
                    is_self: true,
                    content: MessageContent::Text(content),
                    timestamp,
                    status: MessageStatus::Pending,
                    message_type,
                    highlighted: false,
                };
                (internal_id, msg)
            },
        }
    }

    /// Records a text the user sends to contact `pk`.
    pub fn add_outgoing_friend_message(
        &mut self,
        pk: PublicKey,
        message_type: MessageType,
        msg: String,
        timestamp: Timestamp,
    ) -> (r: (InternalMessageId, Message))
        requires
            old(self).wf(),
            old(self).domain.next_internal_id.0 < usize::MAX,
        ensures
            final(self).wf(),
            final(self).ui.window_ids@ == with_window(old(self).ui.window_ids@, WindowId::Friend(pk)),
            r.0 == old(self).domain.next_internal_id,
            message_view(r.1) == outgoing_view(*old(self), WindowId::Friend(pk), message_type, msg@, timestamp),
            final(self).domain.next_internal_id == InternalMessageId((old(self).domain.next_internal_id.0 + 1) as usize),
            ({
                let w = WindowId::Friend(pk);
                let convs = final(self).domain.conversations@;
                let m = convs[key_pos(convs, w)].1.messages@.last();
                &&& key_pos(convs, w) >= 0
                &&& message_view(m) == message_view(r.1)
                &&& appended_to(old(self).domain.conversations@, convs, w, friend_window_name(*old(self), pk), m)
                &&& window_state_relaid(old(self).ui.window_state@, final(self).ui.window_state@, w)
            }),
    {
        self.add_outgoing_message(WindowId::Friend(pk), message_type, msg, timestamp)
    }

    /// Adds a line to the console.
    pub fn add_console_message(&mut self, msg_type: ConsoleMessageType, content: String, timestamp: Timestamp)
        requires
            old(self).wf(),
        ensures
            final(self).wf(),
            console_added(*old(self), *final(self), msg_type, content@, timestamp),
    {
        let ghost before = self.domain.console_messages@;
        self.domain.console_messages.push(ConsoleMessage {
            msg_type,
            content: MessageContent::Text(content),
            timestamp,
        });
        self.invalidate_window_cache(WindowId::Console);
        self.invalidate_sidebar_cache();
        assert(self.domain.console_messages@.drop_last() =~= before);
    }
}

/// The model after a console line of kind `msg_type` with text `text`
/// was added: the line at the end of the console, the console laid out
/// again and the sidebar drawn again; nothing else changed.
pub open spec fn console_added(
    before: Model,
    after: Model,
    msg_type: ConsoleMessageType,
    text: Seq<char>,
    timestamp: Timestamp,
) -> bool {
    let c = after.domain.console_messages@.last();
    &&& after == (Model {
        domain: DomainState { console_messages: after.domain.console_messages, ..before.domain },
        ui: UiState { window_state: after.ui.window_state, sidebar_cache: None, ..before.ui },
        ..before
    })
    &&& after.domain.console_messages@.len() == before.domain.console_messages@.len() + 1
    &&& after.domain.console_messages@.drop_last() == before.domain.console_messages@
    &&& c.msg_type == msg_type
    &&& content_view(c.content) == ContentView::Text(text)
    &&& c.timestamp == timestamp
    &&& window_state_relaid(before.ui.window_state@, after.ui.window_state@, WindowId::Console)
}

/// Whether a system message with `content` in `w` is highlighted: a text
/// that names the user is.
pub open spec fn system_highlight(m: Model, w: WindowId, content: ContentView) -> bool {
    match content {
        ContentView::Text(t) => highlighted_in(m, w, t),
        _ => false,
    }
}

/// The message a system notice in a conversation becomes.
pub open spec fn system_view(m: Model, w: WindowId, content: ContentView, timestamp: Timestamp) -> MessageView {
    MessageView {
        internal_id: m.domain.next_internal_id,
        sender: "System"@,
        sender_pk: None,
        is_self: false,
        content,
        timestamp,
        status: MessageStatus::Incoming,
        message_type: MessageType::Normal,
        highlighted: system_highlight(m, w, content),
    }
}

/// The model after a notice with `content` was put in window `w`: a
/// console line for the console, the log and the file manager; a message
/// from `System` appended to a conversation, if `w` has one; nothing for
/// a conversation window without a conversation.  `r` is the message.
pub open spec fn system_added(
    before: Model,
    after: Model,
    w: WindowId,
    msg_type: ConsoleMessageType,
    content: ContentView,
    timestamp: Timestamp,
    r: Option<Message>,
) -> bool {
    let convs = before.domain.conversations@;
    let k = key_pos(convs, w);
    if !is_conversation_window(w) {
        let c = after.domain.console_messages@.last();
        &&& r is None
        &&& after == (Model {
            domain: DomainState { console_messages: after.domain.console_messages, ..before.domain },
            ui: UiState { window_state: after.ui.window_state, sidebar_cache: None, ..before.ui },
            ..before
        })
        &&& after.domain.console_messages@.len() == before.domain.console_messages@.len() + 1
        &&& after.domain.console_messages@.drop_last() == before.domain.console_messages@
        &&& c.msg_type == msg_type
        &&& content_view(c.content) == content
        &&& c.timestamp == timestamp
        &&& window_state_relaid(before.ui.window_state@, after.ui.window_state@, w)
    } else if k < 0 {
        r is None && after == before
    } else {
        let m = after.domain.conversations@[k].1.messages@.last();
        &&& after.same_but_messages(&before)
        &&& after.ui.sidebar_cache is None
        &&& message_view(m) == system_view(before, w, content, timestamp)
        &&& conv_appended(convs, after.domain.conversations@, k, m)
        &&& after.domain.next_internal_id == InternalMessageId((before.domain.next_internal_id.0 + 1) as usize)
        &&& touched(before.ui.window_state@, after.ui.window_state@, w, w != before.active_id())
        &&& r matches Some(x) && message_view(x) == message_view(m)
    }
}

impl Model {
    /// Puts a notice in window `window_id`: a console line for the
    /// console, the log and the file manager; a message from `System` for
    /// a conversation, if the window has one (highlighted when its text
    /// names the user, unread when the window is not shown).
    pub fn add_system_message_to(
        &mut self,
        window_id: WindowId,
        msg_type: ConsoleMessageType,
        content: MessageContent,
        timestamp: Timestamp,
    ) -> (r: Option<Message>)
        requires
            old(self).wf(),
            old(self).domain.next_internal_id.0 < usize::MAX,
            unread_room(*old(self), window_id),
        ensures
            final(self).wf(),
            system_added(*old(self), *final(self), window_id, msg_type, content_view(content), timestamp, r),
    {
        match window_id {
            WindowId::Console | WindowId::Logs | WindowId::Files => {
                let ghost before = self.domain.console_messages@;
                self.domain.console_messages.push(ConsoleMessage { msg_type, content, timestamp });
                self.invalidate_window_cache(window_id);
                self.invalidate_sidebar_cache();
                assert(self.domain.console_messages@.drop_last() =~= before);
                None
            },
            _ => {
                let highlighted = match &content {
                    MessageContent::Text(t) => self.should_highlight(window_id, t.as_str()),
                    _ => false,
                };
                proof {
                    lemma_keys_concrete_eq();
                    lemma_key_pos(self.domain.conversations@, window_id);
                }
                match key_position(&self.domain.conversations, &window_id) {
                    Some(k) => {
                        let internal_id = self.domain.next_internal_id;
                        self.domain.next_internal_id = InternalMessageId(self.domain.next_internal_id.0 + 1);
                        let msg = Message {
                            internal_id,
                            sender: "System".to_owned(),
                            sender_pk: None,
                            is_self: false,
                            content,
                            timestamp,
                            status: MessageStatus::Incoming,
                            message_type: MessageType::Normal,
                            highlighted,
                        };
                        let copy = self.deliver(window_id, k, msg);
                        Some(copy)
                    },
                    None => None,
                }
            },
        }
    }

    /// Puts a notice in the window shown.
    fn add_system_message(&mut self, msg_type: ConsoleMessageType, content: MessageContent, timestamp: Timestamp)
        requires
            old(self).wf(),
            old(self).domain.next_internal_id.0 < usize::MAX,
        ensures
            final(self).wf(),
            final(self).ui.window_ids == old(self).ui.window_ids,
            final(self).ui.active_window_index == old(self).ui.active_window_index,
            !is_conversation_window(old(self).active_id()) ==> {
                &&& final(self).domain.console_messages@.drop_last() == old(self).domain.console_messages@
                &&& final(self).domain.console_messages@.len() == old(self).domain.console_messages@.len() + 1
                &&& final(self).domain.console_messages@.last().msg_type == msg_type
                &&& content_view(final(self).domain.console_messages@.last().content) == content_view(content)
            },
            is_conversation_window(old(self).active_id()) && key_pos(
                old(self).domain.conversations@,
                old(self).active_id(),
            ) >= 0 ==> {
                let k = key_pos(old(self).domain.conversations@, old(self).active_id());
                let m = final(self).domain.conversations@[k].1.messages@.last();
                &&& message_view(m) == system_view(*old(self), old(self).active_id(), content_view(content), timestamp)
                &&& conv_appended(old(self).domain.conversations@, final(self).domain.conversations@, k, m)
            },
    {
        let active_id = self.active_window_id();
        let _ = self.add_system_message_to(active_id, msg_type, content, timestamp);
    }

    /// Puts an informational notice in the window shown.
    pub fn add_info_message(&mut self, content: MessageContent, timestamp: Timestamp)
        requires
            old(self).wf(),
            old(self).domain.next_internal_id.0 < usize::MAX,
        ensures
            final(self).wf(),
            final(self).ui.window_ids == old(self).ui.window_ids,
            final(self).ui.active_window_index == old(self).ui.active_window_index,
            !is_conversation_window(old(self).active_id()) ==> {
                &&& final(self).domain.console_messages@.drop_last() == old(self).domain.console_messages@
                &&& final(self).domain.console_messages@.last().msg_type == ConsoleMessageType::Info
                &&& content_view(final(self).domain.console_messages@.last().content) == content_view(content)
            },
            is_conversation_window(old(self).active_id()) && key_pos(
                old(self).domain.conversations@,
                old(self).active_id(),
            ) >= 0 ==> {
                let k = key_pos(old(self).domain.conversations@, old(self).active_id());
                let m = final(self).domain.conversations@[k].1.messages@.last();
                &&& message_view(m) == system_view(*old(self), old(self).active_id(), content_view(content), timestamp)
                &&& conv_appended(old(self).domain.conversations@, final(self).domain.conversations@, k, m)
            },
    {
        self.add_system_message(ConsoleMessageType::Info, content, timestamp);
    }

    /// Puts a status notice in the window shown.
    pub fn add_status_message(&mut self, content: MessageContent, timestamp: Timestamp)
        requires
            old(self).wf(),
            old(self).domain.next_internal_id.0 < usize::MAX,
        ensures
            final(self).wf(),
            final(self).ui.window_ids == old(self).ui.window_ids,
            final(self).ui.active_window_index == old(self).ui.active_window_index,
            !is_conversation_window(old(self).active_id()) ==> {
                &&& final(self).domain.console_messages@.drop_last() == old(self).domain.console_messages@
                &&& final(self).domain.console_messages@.last().msg_type == ConsoleMessageType::Status
                &&& content_view(final(self).domain.console_messages@.last().content) == content_view(content)
            },
            is_conversation_window(old(self).active_id()) && key_pos(
                old(self).domain.conversations@,
                old(self).active_id(),
            ) >= 0 ==> {
                let k = key_pos(old(self).domain.conversations@, old(self).active_id());
                let m = final(self).domain.conversations@[k].1.messages@.last();
                &&& message_view(m) == system_view(*old(self), old(self).active_id(), content_view(content), timestamp)
                &&& conv_appended(old(self).domain.conversations@, final(self).domain.conversations@, k, m)
            },
    {
        self.add_system_message(ConsoleMessageType::Status, content, timestamp);
    }

    /// Puts an error notice in the window shown.
    pub fn add_error_message(&mut self, content: MessageContent, timestamp: Timestamp)
        requires
            old(self).wf(),
            old(self).domain.next_internal_id.0 < usize::MAX,
        ensures
            final(self).wf(),
            final(self).ui.window_ids == old(self).ui.window_ids,
            final(self).ui.active_window_index == old(self).ui.active_window_index,
            !is_conversation_window(old(self).active_id()) ==> {
                &&& final(self).domain.console_messages@.drop_last() == old(self).domain.console_messages@
                &&& final(self).domain.console_messages@.last().msg_type == ConsoleMessageType::Error
                &&& content_view(final(self).domain.console_messages@.last().content) == content_view(content)
            },
            is_conversation_window(old(self).active_id()) && key_pos(
                old(self).domain.conversations@,
                old(self).active_id(),
            ) >= 0 ==> {
                let k = key_pos(old(self).domain.conversations@, old(self).active_id());
                let m = final(self).domain.conversations@[k].1.messages@.last();
                &&& message_view(m) == system_view(*old(self), old(self).active_id(), content_view(content), timestamp)
                &&& conv_appended(old(self).domain.conversations@, final(self).domain.conversations@, k, m)
            },
    {
        self.add_system_message(ConsoleMessageType::Error, content, timestamp);
    }
}

/// The index of the last message of `ms` numbered `id`, or -1.
pub open spec fn last_with_id(ms: Seq<Message>, id: InternalMessageId) -> int
    decreases ms.len(),
{
    if ms.len() == 0 {
        -1
    } else if ms.last().internal_id == id {
        ms.len() - 1
    } else {
        last_with_id(ms.drop_last(), id)
    }
}

/// A message about transfer `file`.
pub open spec fn is_transfer_of(m: Message, file: FileId) -> bool {
    m.content matches MessageContent::FileTransfer { file_id: Some(f), .. } && f == file
}

/// The index of the last message of `ms` about transfer `file`, or -1.
pub open spec fn last_transfer_of(ms: Seq<Message>, file: FileId) -> int
    decreases ms.len(),
{
    if ms.len() == 0 {
        -1
    } else if is_transfer_of(ms.last(), file) {
        ms.len() - 1
    } else {
        last_transfer_of(ms.drop_last(), file)
    }
}

proof fn lemma_last_with_id(ms: Seq<Message>, id: InternalMessageId)
    ensures
        -1 <= last_with_id(ms, id) < ms.len(),
        last_with_id(ms, id) >= 0 ==> ms[last_with_id(ms, id)].internal_id == id,
    decreases ms.len(),
{
    if ms.len() > 0 {
        lemma_last_with_id(ms.drop_last(), id);
    }
}

proof fn lemma_last_transfer_of(ms: Seq<Message>, file: FileId)
    ensures
        -1 <= last_transfer_of(ms, file) < ms.len(),
        last_transfer_of(ms, file) >= 0 ==> is_transfer_of(ms[last_transfer_of(ms, file)], file),
    decreases ms.len(),
{
    if ms.len() > 0 {
        lemma_last_transfer_of(ms.drop_last(), file);
    }
}

fn find_last_with_id(ms: &Vec<Message>, id: InternalMessageId) -> (r: Option<usize>)
    ensures
        match r {
            Some(j) => j as int == last_with_id(ms@, id),
            None => last_with_id(ms@, id) == -1,
        },
{
    let mut n: usize = ms.len();
    assert(ms@.take(n as int) =~= ms@);
    while n > 0
        invariant
            n <= ms@.len(),
            last_with_id(ms@, id) == last_with_id(ms@.take(n as int), id),
        decreases n,
    {
        assert(ms@.take(n as int).drop_last() =~= ms@.take(n as int - 1));
        if ms[n - 1].internal_id.0 == id.0 {
            return Some(n - 1);
        }
        n = n - 1;
    }
    None
}

fn find_last_transfer(ms: &Vec<Message>, file: &FileId) -> (r: Option<usize>)
    ensures
        match r {
            Some(j) => j as int == last_transfer_of(ms@, *file),
            None => last_transfer_of(ms@, *file) == -1,
        },
{
    let mut n: usize = ms.len();
    assert(ms@.take(n as int) =~= ms@);
    while n > 0
        invariant
            n <= ms@.len(),
            last_transfer_of(ms@, *file) == last_transfer_of(ms@.take(n as int), *file),
        decreases n,
    {
        assert(ms@.take(n as int).drop_last() =~= ms@.take(n as int - 1));
        let hit = match &ms[n - 1].content {
            MessageContent::FileTransfer { file_id: Some(f), .. } => bytes_equal(&f.0, &file.0),
            _ => false,
        };
        if hit {
            return Some(n - 1);
        }
        n = n - 1;
    }
    None
}

/// The window states after message `j` of `w` changed: `w`'s state, if it
/// has one, marks `j` for drawing again and drops its layout.
pub open spec fn marked_dirty(
    before: Seq<(WindowId, WindowUiState)>,
    after: Seq<(WindowId, WindowUiState)>,
    w: WindowId,
    j: usize,
) -> bool {
    let k = key_pos(before, w);
    &&& after.len() == before.len()
    &&& forall|i: int| 0 <= i < before.len() && i != k ==> after[i] == before[i]
    &&& k >= 0 ==> {
        let (o, n) = (before[k].1, after[k].1);
        &&& after[k].0 == w
        &&& n.dirty_indices@ == o.dirty_indices@.insert(j)
        &&& n.layout.cache@.len() == 0
        &&& n.layout.total_height == 0
        &&& n.layout.processed_count == 0
        &&& n.msg_list_state == o.msg_list_state
        &&& n.unread_count == o.unread_count
        &&& n.last_height == o.last_height
        &&& n.cached_messages == o.cached_messages
    }
}

/// Conversation `k` of `after` is that of `before` with message `j`
/// replaced by `m`, and nothing else differs.
pub open spec fn conv_message_replaced(
    before: Seq<(WindowId, Conversation)>,
    after: Seq<(WindowId, Conversation)>,
    k: int,
    j: int,
    m: Message,
) -> bool {
    &&& 0 <= k < before.len()
    &&& after.len() == before.len()
    &&& forall|i: int| 0 <= i < before.len() && i != k ==> after[i] == before[i]
    &&& after[k].0 == before[k].0
    &&& after[k].1.messages@ == before[k].1.messages@.update(j, m)
    &&& after[k].1.name == before[k].1.name
    &&& after[k].1.topic == before[k].1.topic
    &&& after[k].1.peers == before[k].1.peers
    &&& after[k].1.self_role == before[k].1.self_role
    &&& after[k].1.self_name == before[k].1.self_name
    &&& after[k].1.ignored_peers == before[k].1.ignored_peers
}

/// The model after the last message numbered `id` in `w` got `status`:
/// that message replaced and marked for drawing again, and `r` the
/// changed message; nothing at all when there is no such message.
pub open spec fn status_marked(
    before: Model,
    after: Model,
    w: WindowId,
    id: InternalMessageId,
    status: MessageStatus,
    r: Option<Message>,
) -> bool {
    let convs = before.domain.conversations@;
    let k = key_pos(convs, w);
    if k < 0 || last_with_id(convs[k].1.messages@, id) < 0 {
        r is None && after == before
    } else {
        let j = last_with_id(convs[k].1.messages@, id);
        let m = Message { status, ..convs[k].1.messages@[j] };
        &&& after.same_but_conversations(&before)
        &&& conv_message_replaced(convs, after.domain.conversations@, k, j, m)
        &&& marked_dirty(before.ui.window_state@, after.ui.window_state@, w, j as usize)
        &&& r matches Some(x) && message_view(x) == message_view(m)
    }
}

/// The model after the last message about transfer `file` in contact
/// `pk`'s window got `status`: that message replaced and marked for
/// drawing again, `r` the changed message; nothing without such a message.
pub open spec fn file_status_marked(
    before: Model,
    after: Model,
    pk: PublicKey,
    file: FileId,
    status: MessageStatus,
    r: Option<Message>,
) -> bool {
    &&& ({
        let w = WindowId::Friend(pk);
        let convs = before.domain.conversations@;
        let k = key_pos(convs, w);
        if k < 0 || last_transfer_of(convs[k].1.messages@, file) < 0 {
            r is None && after == before
        } else {
            let j = last_transfer_of(convs[k].1.messages@, file);
            let m = Message { status, ..convs[k].1.messages@[j] };
            &&& after.same_but_conversations(&before)
            &&& conv_message_replaced(convs, after.domain.conversations@, k, j, m)
            &&& marked_dirty(before.ui.window_state@, after.ui.window_state@, w, j as usize)
            &&& r matches Some(x) && message_view(x) == message_view(m)
        }
    })
}

impl Model {
    /// `self` and `other` differ at most in the conversations and the
    /// window states.
    pub open spec fn same_but_conversations(&self, other: &Model) -> bool {
        *self == (Model {
            domain: DomainState { conversations: self.domain.conversations, ..other.domain },
            ui: UiState { window_state: self.ui.window_state, ..other.ui },
            ..*other
        })
    }

    /// Marks message `j` of window `w` for drawing again.
    fn mark_dirty(&mut self, w: WindowId, j: usize)
        requires
            old(self).wf(),
        ensures
            final(self).wf(),
            final(self).same_but_window_state(old(self)),
            final(self).ui.window_state@.len() == old(self).ui.window_state@.len(),
            marked_dirty(old(self).ui.window_state@, final(self).ui.window_state@, w, j),
    {
        proof {
            lemma_keys_concrete_eq();
            lemma_key_pos(self.ui.window_state@, w);
        }
        match key_position(&self.ui.window_state, &w) {
            Some(i) => {
                let ghost before = self.ui.window_state@;
                self.ui.window_state[i].1.dirty_indices.insert(j);
                self.ui.window_state[i].1.invalidate_layout();
                proof {
                    let nw = self.ui.window_state@;
                    assert forall|a: int, b: int| 0 <= a < b < nw.len() implies nw[a].0 != nw[b].0 by {
                        assert(before[a].0 != before[b].0);
                    };
                }
            },
            None => {},
        }
    }

    /// Sets the status of the last message numbered `internal_id` in
    /// window `window_id` and gives it back; nothing happens (and nothing
    /// comes back) when there is no such message.
    pub fn mark_message_status(
        &mut self,
        window_id: WindowId,
        internal_id: InternalMessageId,
        status: MessageStatus,
    ) -> (r: Option<Message>)
        requires
            old(self).wf(),
        ensures
            final(self).wf(),
            status_marked(*old(self), *final(self), window_id, internal_id, status, r),
    {
        proof {
            lemma_keys_concrete_eq();
            lemma_key_pos(self.domain.conversations@, window_id);
        }
        match key_position(&self.domain.conversations, &window_id) {
            Some(k) => {
                proof {
                    lemma_last_with_id(self.domain.conversations@[k as int].1.messages@, internal_id);
                }
                match find_last_with_id(&self.domain.conversations[k].1.messages, internal_id) {
                    Some(j) => {
                        let ghost convs0 = self.domain.conversations@;
                        self.domain.conversations[k].1.messages[j].status = status;
                        let updated = copy_message(&self.domain.conversations[k].1.messages[j]);
                        proof {
                            let cs = self.domain.conversations@;
                            assert forall|a: int, b: int| 0 <= a < b < cs.len() implies cs[a].0 != cs[b].0 by {
                                assert(convs0[a].0 != convs0[b].0);
                            };
                            assert(cs[k as int].1.messages@ =~= convs0[k as int].1.messages@.update(
                                j as int,
                                Message { status, ..convs0[k as int].1.messages@[j as int] },
                            ));
                        }
                        self.mark_dirty(window_id, j);
                        Some(updated)
                    },
                    None => None,
                }
            },
            None => None,
        }
    }

    /// Sets the status of the last message about transfer `file` in
    /// contact `pk`'s window and gives it back; nothing happens when there
    /// is none.
    pub fn update_file_status(&mut self, pk: PublicKey, file: FileId, status: MessageStatus) -> (r: Option<Message>)
        requires
            old(self).wf(),
        ensures
            final(self).wf(),
            file_status_marked(*old(self), *final(self), pk, file, status, r),
    {
        let window_id = WindowId::Friend(pk);
        proof {
            lemma_keys_concrete_eq();
            lemma_key_pos(self.domain.conversations@, window_id);
        }
        match key_position(&self.domain.conversations, &window_id) {
            Some(k) => {
                proof {
                    lemma_last_transfer_of(self.domain.conversations@[k as int].1.messages@, file);
                }
                match find_last_transfer(&self.domain.conversations[k].1.messages, &file) {
                    Some(j) => {
                        let ghost convs0 = self.domain.conversations@;
                        self.domain.conversations[k].1.messages[j].status = status;
                        let updated = copy_message(&self.domain.conversations[k].1.messages[j]);
                        proof {
                            let cs = self.domain.conversations@;
                            assert forall|a: int, b: int| 0 <= a < b < cs.len() implies cs[a].0 != cs[b].0 by {
                                assert(convs0[a].0 != convs0[b].0);
                            };
                            assert(cs[k as int].1.messages@ =~= convs0[k as int].1.messages@.update(
                                j as int,
                                Message { status, ..convs0[k as int].1.messages@[j as int] },
                            ));
                        }
                        self.mark_dirty(window_id, j);
                        Some(updated)
                    },
                    None => None,
                }
            },
            None => None,
        }
    }
}

/// A transfer message with a new progress report: the progress is the
/// fraction reported when the total is known (not zero), and the speed is
/// the one given.
pub open spec fn progressed(m: Message, transferred: u64, total_size: u64, speed: String) -> Message {
    match m.content {
        MessageContent::FileTransfer { file_id, name, size, progress_done, progress_total, speed: _, is_incoming } =>
            Message {
            content: MessageContent::FileTransfer {
                file_id,
                name,
                size,
                progress_done: if total_size > 0 {
                    transferred
                } else {
                    progress_done
                },
                progress_total: if total_size > 0 {
                    total_size
                } else {
                    progress_total
                },
                speed,
                is_incoming,
            },
            ..m
        },
        _ => m,
    }
}

/// The sender a transfer message in `w` gets: for the user, the user's
/// name in the conversation or the user's name; otherwise the contact's
/// name (or the key's first bytes in hex) in a contact's window, and
/// `System` elsewhere.
pub open spec fn transfer_sender(m: Model, w: WindowId, is_self: bool) -> Seq<char> {
    if is_self {
        outgoing_sender(m, w)
    } else {
        match w {
            WindowId::Friend(pk) => friend_window_name(m, pk),
            _ => "System"@,
        }
    }
}

/// The message a new file transfer becomes (no progress reported yet,
/// shown as `0 B/s`).
pub open spec fn transfer_view(
    m: Model,
    w: WindowId,
    is_self: bool,
    file_id: FileId,
    filename: Seq<char>,
    size: u64,
    is_incoming: bool,
    timestamp: Timestamp,
) -> MessageView {
    MessageView {
        internal_id: m.domain.next_internal_id,
        sender: transfer_sender(m, w, is_self),
        sender_pk: if is_self {
            Some(m.domain.self_public_key)
        } else {
            match w {
                WindowId::Friend(pk) => Some(pk),
                _ => None,
            }
        },
        is_self,
        content: ContentView::FileTransfer {
            file_id: Some(file_id),
            name: filename,
            size,
            progress_done: 0,
            progress_total: 0,
            speed: "0 B/s"@,
            is_incoming,
        },
        timestamp,
        status: if is_self {
            MessageStatus::Pending
        } else {
            MessageStatus::Incoming
        },
        message_type: MessageType::Normal,
        highlighted: false,
    }
}

/// A log bucket after a line was added: the line at the end, and the
/// oldest line dropped when the bucket held more than `TOX_LOG_LIMIT`.
pub open spec fn capped_push(bucket: Seq<ToxLogItem>, item: ToxLogItem) -> Seq<ToxLogItem> {
    let b = bucket.push(item);
    if b.len() > TOX_LOG_LIMIT {
        b.drop_first()
    } else {
        b
    }
}

/// Most lines kept per level of the network library's log.
pub const TOX_LOG_LIMIT: usize = 200;

/// The model after the progress of transfer `file` with contact `pk`
/// was shown in its last message: that message replaced and marked for
/// drawing again; nothing without such a message.
pub open spec fn progress_marked(
    before: Model,
    after: Model,
    pk: PublicKey,
    file: FileId,
    transferred: u64,
    total_size: u64,
    speed: String,
) -> bool {
    &&& ({
        let w = WindowId::Friend(pk);
        let convs = before.domain.conversations@;
        let k = key_pos(convs, w);
        if k < 0 || last_transfer_of(convs[k].1.messages@, file) < 0 {
            after == before
        } else {
            let j = last_transfer_of(convs[k].1.messages@, file);
            &&& after.same_but_conversations(&before)
            &&& conv_message_replaced(
                convs,
                after.domain.conversations@,
                k,
                j,
                progressed(convs[k].1.messages@[j], transferred, total_size, speed),
            )
            &&& marked_dirty(before.ui.window_state@, after.ui.window_state@, w, j as usize)
        }
    })
}

/// The model after a message about transfer `file_id` was appended to
/// `w`'s conversation, if it has one: numbered with the next number, the
/// window laid out again, `r` the message; nothing without a
/// conversation.
pub open spec fn transfer_added(
    before: Model,
    after: Model,
    w: WindowId,
    is_self: bool,
    file_id: FileId,
    filename: Seq<char>,
    size: u64,
    is_incoming: bool,
    timestamp: Timestamp,
    r: Option<Message>,
) -> bool {
    let convs = before.domain.conversations@;
    let k = key_pos(convs, w);
    if k < 0 {
        r is None && after == before
    } else {
        let m = after.domain.conversations@[k].1.messages@.last();
        &&& after == (Model {
            domain: DomainState {
                conversations: after.domain.conversations,
                next_internal_id: after.domain.next_internal_id,
                ..before.domain
            },
            ui: UiState { window_state: after.ui.window_state, ..before.ui },
            ..before
        })
        &&& message_view(m) == transfer_view(before, w, is_self, file_id, filename, size, is_incoming, timestamp)
        &&& conv_appended(convs, after.domain.conversations@, k, m)
        &&& after.domain.next_internal_id == InternalMessageId((before.domain.next_internal_id.0 + 1) as usize)
        &&& window_state_relaid(before.ui.window_state@, after.ui.window_state@, w)
        &&& r matches Some(x) && message_view(x) == message_view(m)
    }
}

impl Model {
    /// Records new progress of transfer `file` in contact `pk`'s window:
    /// the last message about it takes the reported fraction (when the
    /// total is known) and speed, and is drawn again.
    pub fn update_file_progress(
        &mut self,
        pk: PublicKey,
        file: FileId,
        transferred: u64,
        total_size: u64,
        speed: String,
    )
        requires
            old(self).wf(),
        ensures
            final(self).wf(),
            progress_marked(*old(self), *final(self), pk, file, transferred, total_size, speed),
    {
        let window_id = WindowId::Friend(pk);
        proof {
            lemma_keys_concrete_eq();
            lemma_key_pos(self.domain.conversations@, window_id);
        }
        match key_position(&self.domain.conversations, &window_id) {
            Some(k) => {
                proof {
                    lemma_last_transfer_of(self.domain.conversations@[k as int].1.messages@, file);
                }
                match find_last_transfer(&self.domain.conversations[k].1.messages, &file) {
                    Some(j) => {
                        let ghost convs0 = self.domain.conversations@;
                        let new_content = match &self.domain.conversations[k].1.messages[j].content {
                            MessageContent::FileTransfer {
                                file_id,
                                name,
                                size,
                                progress_done,
                                progress_total,
                                speed: _,
                                is_incoming,
                            } => MessageContent::FileTransfer {
                                file_id: *file_id,
                                name: name.clone(),
                                size: *size,
                                progress_done: if total_size > 0 {
                                    transferred
                                } else {
                                    *progress_done
                                },
                                progress_total: if total_size > 0 {
                                    total_size
                                } else {
                                    *progress_total
                                },
                                speed,
                                is_incoming: *is_incoming,
                            },
                            _ => {
                                proof {
                                    assert(is_transfer_of(convs0[k as int].1.messages@[j as int], file));
                                }
                                MessageContent::Text(String::new())
                            },
                        };
                        self.domain.conversations[k].1.messages[j].content = new_content;
                        proof {
                            let cs = self.domain.conversations@;
                            assert forall|a: int, b: int| 0 <= a < b < cs.len() implies cs[a].0 != cs[b].0 by {
                                assert(convs0[a].0 != convs0[b].0);
                            };
                            assert(cs[k as int].1.messages@ =~= convs0[k as int].1.messages@.update(
                                j as int,
                                progressed(convs0[k as int].1.messages@[j as int], transferred, total_size, speed),
                            ));
                        }
                        self.mark_dirty(window_id, j);
                    },
                    None => {},
                }
            },
            None => {},
        }
    }

    /// Adds a message for a new file transfer to window `window_id`'s
    /// conversation, if it has one, numbered next: pending when the user
    /// sends, incoming otherwise.
    pub fn add_file_transfer_message(
        &mut self,
        window_id: WindowId,
        is_self: bool,
        file_id: FileId,
        filename: String,
        size: u64,
        is_incoming: bool,
        timestamp: Timestamp,
    ) -> (r: Option<Message>)
        requires
            old(self).wf(),
            old(self).domain.next_internal_id.0 < usize::MAX,
        ensures
            final(self).wf(),
            transfer_added(
                *old(self),
                *final(self),
                window_id,
                is_self,
                file_id,
                filename@,
                size,
                is_incoming,
                timestamp,
                r,
            ),
    {
        proof {
            lemma_keys_concrete_eq();
            lemma_key_pos(self.domain.conversations@, window_id);
            lemma_key_pos(self.domain.friends@, match window_id {
                WindowId::Friend(pk) => pk,
                _ => self.domain.self_public_key,
            });
        }
        match key_position(&self.domain.conversations, &window_id) {
            Some(k) => {
                let internal_id = self.domain.next_internal_id;
                self.domain.next_internal_id = InternalMessageId(self.domain.next_internal_id.0 + 1);
                let sender = if is_self {
                    match &self.domain.conversations[k].1.self_name {
                        Some(n) => n.clone(),
                        None => self.domain.self_name.clone(),
                    }
                } else {
                    match window_id {
                        WindowId::Friend(pk) => match key_position(&self.domain.friends, &pk) {
                            Some(i) => self.domain.friends[i].1.name.clone(),
                            None => self.friend_fallback_name(&pk),
                        },
                        _ => "System".to_owned(),
                    }
                };
                let sender_pk = if is_self {
                    Some(self.domain.self_public_key)
                } else {
                    match window_id {
                        WindowId::Friend(pk) => Some(pk),
                        _ => None,
                    }
                };
                let msg = Message {
                    internal_id,
                    sender,
                    sender_pk,
                    is_self,
                    content: MessageContent::FileTransfer {
                        file_id: Some(file_id),
                        name: filename,
                        size,
                        progress_done: 0,
                        progress_total: 0,
                        speed: "0 B/s".to_owned(),
                        is_incoming,
                    },
                    timestamp,
                    status: if is_self {
                        MessageStatus::Pending
                    } else {
                        MessageStatus::Incoming
                    },
                    message_type: MessageType::Normal,
                    highlighted: false,
                };
                let copy = copy_message(&msg);
                let ghost convs0 = self.domain.conversations@;
                self.domain.conversations[k].1.messages.push(msg);
                proof {
                    let cs = self.domain.conversations@;
                    assert forall|a: int, b: int| 0 <= a < b < cs.len() implies cs[a].0 != cs[b].0 by {
                        assert(convs0[a].0 != convs0[b].0);
                    };
                }
                self.invalidate_window_cache(window_id);
                Some(copy)
            },
            None => None,
        }
    }
}

/// The model after a line of the network library's log arrived: kept
/// (at most the newest lines of each level) unless logging is paused, the
/// log window laid out again and, when it is scrolled back and shows the
/// line, kept in place; nothing while paused.
pub open spec fn tox_log_added(
    before: Model,
    after: Model,
    level: ToxLogLevel,
    file: String,
    line: u32,
    func: String,
    message: String,
    timestamp: Timestamp,
) -> bool {
    &&& after == (Model {
        domain: DomainState { tox_logs: after.domain.tox_logs, ..before.domain },
        ui: UiState { window_state: after.ui.window_state, sidebar_cache: after.ui.sidebar_cache, ..before.ui },
        ..before
    })
    &&& (before.ui.log_filters.paused ==> after == before)
    &&& (!before.ui.log_filters.paused ==> {
        let item = ToxLogItem { level, file, line, func, message, timestamp };
        let bucket = match lookup(before.domain.tox_logs@, level) {
            Some(b) => b@,
            None => Seq::<ToxLogItem>::empty(),
        };
        let logs = after.domain.tox_logs@;
        let b = key_pos(logs, level);
        let bump = crate::model::filters_admit(before.ui.log_filters, item) && match lookup(
            before.ui.window_state@,
            WindowId::Logs,
        ) {
            Some(st) => st.msg_list_state.scroll > 0,
            None => false,
        };
        &&& b >= 0
        &&& logs[b].1@ == capped_push(bucket, item)
        &&& forall|j: int| 0 <= j < logs.len() && j != b ==> #[trigger] logs[j] == (if j < before.domain.tox_logs@.len() {
            before.domain.tox_logs@[j]
        } else {
            logs[j]
        })
        &&& logs.len() == before.domain.tox_logs@.len() + if key_pos(
            before.domain.tox_logs@,
            level,
        ) >= 0 {
            0int
        } else {
            1int
        }
        &&& after.ui.sidebar_cache is None
        &&& ({
            let ws0 = before.ui.window_state@;
            let k = key_pos(ws0, WindowId::Logs);
            let ws1 = if bump {
                ws0.update(
                    k,
                    (
                        WindowId::Logs,
                        crate::model::with_scroll(
                            ws0[k].1,
                            (ws0[k].1.msg_list_state.scroll + 1) as usize,
                        ),
                    ),
                )
            } else {
                ws0
            };
            window_state_relaid(ws1, after.ui.window_state@, WindowId::Logs)
        })
    })
    &&& (after.domain.conversations == before.domain.conversations)
    &&& (after.ui.window_ids == before.ui.window_ids)
    &&& (after.ui.active_window_index == before.ui.active_window_index)
}

impl Model {
    /// The index of `level`'s log bucket, an empty one added if there was
    /// none.
    fn log_bucket_entry(&mut self, level: ToxLogLevel) -> (i: usize)
        requires
            old(self).wf(),
        ensures
            final(self).wf(),
            *final(self) == (Model {
                domain: DomainState { tox_logs: final(self).domain.tox_logs, ..old(self).domain },
                ..*old(self)
            }),
            i < final(self).domain.tox_logs@.len(),
            i as int == key_pos(final(self).domain.tox_logs@, level),
            key_pos(old(self).domain.tox_logs@, level) >= 0 ==> final(self).domain.tox_logs@ == old(
                self,
            ).domain.tox_logs@,
            key_pos(old(self).domain.tox_logs@, level) == -1 ==> {
                &&& final(self).domain.tox_logs@ == old(self).domain.tox_logs@.push(
                    (level, final(self).domain.tox_logs@[i as int].1),
                )
                &&& final(self).domain.tox_logs@[i as int].1@.len() == 0
            },
    {
        let mut i: usize = 0;
        let ghost logs = self.domain.tox_logs@;
        assert(logs.take(0) =~= Seq::<(ToxLogLevel, Vec<ToxLogItem>)>::empty());
        while i < self.domain.tox_logs.len()
            invariant
                i <= logs.len(),
                logs == self.domain.tox_logs@,
                key_pos(logs.take(i as int), level) == -1,
                self.wf(),
                *self == *old(self),
            decreases logs.len() - i,
        {
            assert(logs.take(i as int + 1).drop_last() =~= logs.take(i as int));
            if self.domain.tox_logs[i].0 == level {
                proof {
                    lemma_key_pos_prefix(logs, level, i as int + 1);
                }
                return i;
            }
            i = i + 1;
        }
        assert(logs.take(logs.len() as int) =~= logs);
        self.domain.tox_logs.push((level, Vec::new()));
        proof {
            lemma_key_pos_push(logs, self.domain.tox_logs@.last(), level);
        }
        self.domain.tox_logs.len() - 1
    }

    /// Records a line of the network library's log, unless recording is
    /// paused: it goes at the end of its level's bucket (the oldest line
    /// dropped past `TOX_LOG_LIMIT`), and a log window scrolled back by some
    /// lines and showing the line stays where it was.
    #[verifier::rlimit(40)]
    pub fn add_tox_log(
        &mut self,
        level: ToxLogLevel,
        file: String,
        line: u32,
        func: String,
        message: String,
        timestamp: Timestamp,
    )
        requires
            old(self).wf(),
            match lookup(old(self).ui.window_state@, WindowId::Logs) {
                Some(st) => st.msg_list_state.scroll < usize::MAX,
                None => true,
            },
        ensures
            final(self).wf(),
            tox_log_added(*old(self), *final(self), level, file, line, func, message, timestamp),
    {
        if self.ui.log_filters.paused {
            return;
        }
        let item = ToxLogItem { level, file, line, func, message, timestamp };
        let ghost item_v = item;
        proof {
            lemma_keys_concrete_eq();
            lemma_key_pos(self.ui.window_state@, WindowId::Logs);
            lemma_key_pos(self.domain.tox_logs@, level);
        }
        let ghost ws0 = self.ui.window_state@;
        if self.ui.log_filters.matches(&item) {
            match key_position(&self.ui.window_state, &WindowId::Logs) {
                Some(k) => {
                    if self.ui.window_state[k].1.msg_list_state.scroll > 0 {
                        self.ui.window_state[k].1.msg_list_state.scroll = self.ui.window_state[k].1.msg_list_state.scroll
                            + 1;
                        proof {
                            let nw = self.ui.window_state@;
                            assert forall|a: int, b: int| 0 <= a < b < nw.len() implies nw[a].0 != nw[b].0 by {
                                assert(ws0[a].0 != ws0[b].0);
                            };
                            assert(nw =~= ws0.update(
                                k as int,
                                (
                                    WindowId::Logs,
                                    crate::model::with_scroll(
                                        ws0[k as int].1,
                                        (ws0[k as int].1.msg_list_state.scroll + 1) as usize,
                                    ),
                                ),
                            ));
                        }
                    }
                },
                None => {},
            }
        }
        let ghost ws1 = self.ui.window_state@;
        proof {
            if ws1 != ws0 {
                lemma_key_pos_update(ws0, key_pos(ws0, WindowId::Logs), ws1[key_pos(ws0, WindowId::Logs)].1, WindowId::Logs);
            }
        }
        let ghost logs0 = self.domain.tox_logs@;
        let b = self.log_bucket_entry(level);
        let ghost logs1 = self.domain.tox_logs@;
        proof {
            lemma_key_pos(logs1, level);
        }
        self.domain.tox_logs[b].1.push(item);
        if self.domain.tox_logs[b].1.len() > TOX_LOG_LIMIT {
            let _ = self.domain.tox_logs[b].1.remove(0);
        }
        proof {
            let logs2 = self.domain.tox_logs@;
            assert forall|a: int, c: int| 0 <= a < c < logs2.len() implies logs2[a].0 != logs2[c].0 by {
                assert(logs1[a].0 != logs1[c].0);
            };
            lemma_key_pos_update(logs1, b as int, logs2[b as int].1, level);
            assert(logs2 =~= logs1.update(b as int, (level, logs2[b as int].1)));
            let bb = logs2[b as int].1@;
            let before = match lookup(logs0, level) {
                Some(x) => x@,
                None => Seq::<ToxLogItem>::empty(),
            };
            assert(logs1[b as int].1@ == before);
            if before.push(item_v).len() > TOX_LOG_LIMIT {
                assert(bb =~= before.push(item_v).drop_first());
            } else {
                assert(bb =~= before.push(item_v));
            }
        }
        self.invalidate_window_cache(WindowId::Logs);
        self.invalidate_sidebar_cache();
    }
}


/// `a` is `b` after the user's text `content` of type `t` was recorded in
/// window `w` at `ts`, numbered `r.0` and given back as `r.1` (as
/// `add_outgoing_message` does).
pub open spec fn outgoing_added(
    b: Model,
    a: Model,
    w: WindowId,
    t: MessageType,
    content: Seq<char>,
    ts: Timestamp,
    r: (InternalMessageId, Message),
) -> bool {
    &&& a.ui.window_ids@ == with_window(b.ui.window_ids@, w)
    &&& a.ui.active_window_index == b.ui.active_window_index
    &&& r.0 == b.domain.next_internal_id
    &&& message_view(r.1) == outgoing_view(b, w, t, content, ts)
    &&& a.domain.next_internal_id == InternalMessageId((b.domain.next_internal_id.0 + 1) as usize)
    &&& is_conversation_window(w) ==> {
        let convs = a.domain.conversations@;
        let m = convs[key_pos(convs, w)].1.messages@.last();
        &&& key_pos(convs, w) >= 0
        &&& message_view(m) == message_view(r.1)
        &&& appended_to(
            b.domain.conversations@,
            convs,
            w,
            window_default_name(b, w),
            m,
        )
        &&& window_state_relaid(b.ui.window_state@, a.ui.window_state@, w)
        &&& a.ui.sidebar_cache is None
    }
    &&& !is_conversation_window(w) ==> {
        &&& a.domain.conversations == b.domain.conversations
        &&& a.ui.window_state == b.ui.window_state
        &&& a.ui.sidebar_cache == b.ui.sidebar_cache
    }
    &&& a.domain.friends == b.domain.friends
    &&& a.domain.console_messages == b.domain.console_messages
    &&& a.domain.file_transfers == b.domain.file_transfers
    &&& a.session == b.session
    &&& a.config == b.config
}

} // verus!
