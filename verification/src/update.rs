//! How the model follows what the network reports: each event changes
//! the model and may ask for work in return.
use crate::domain::{
    file_status_marked, progress_marked, tox_log_added, transfer_added, FileId, FileTransferProgress, PeerInfo, UserStatus, content_view, GroupRole, MessageContent, conversation_ensured, first_index, is_conversation_window, lemma_first_index, position_of, system_added,
    window_shown, Conversation, ContentView, console_added, friend_window_name, incoming_added, numbered_name, status_marked, unread_room, ChatId,
    ConferenceId, Message, MessageType, WindowId, key_pos, key_position, lemma_key_pos, lemma_keys_concrete_eq, lookup, keys_unique, ConferenceType,
    Connection, DomainState, FriendInfo, Model, PendingItem, PublicKey, SessionState, UiState,
};
use crate::export::{dec, push_dec};
use crate::config::SystemMessageType;
use crate::model::{ConsoleMessageType, InternalMessageId, MessageStatus, Timestamp, ToxLogLevel, TransferStatus};
use crate::msg::{Cmd, FileControl, GroupModEvent, IOAction, IOEvent, LogContext, LogSeverity, SystemEvent, ToxAction, ToxEvent};
use crate::text::{push_all, str_chars, string_from_chars};
use vstd::laws_eq::obeys_concrete_eq;
use vstd::std_specs::cmp::PartialEqSpec;
use vstd::prelude::*;

verus! {

broadcast use vstd::std_specs::vec::group_vec_axioms;

/// `s` with `k` mapped to `v`: the first entry under `k` gets `v`, or a
/// new entry goes at the end.
pub open spec fn put<K, V>(s: Seq<(K, V)>, k: K, v: V) -> Seq<(K, V)> {
    if key_pos(s, k) >= 0 {
        s.update(key_pos(s, k), (k, v))
    } else {
        s.push((k, v))
    }
}

/// Maps `k` to `v` in `m`.
pub(crate) fn map_put<K: PartialEq, V>(m: &mut Vec<(K, V)>, k: K, v: V)
    requires
        obeys_concrete_eq::<K>(),
    ensures
        final(m)@ == put(old(m)@, k, v),
{
    proof {
        lemma_key_pos(m@, k);
    }
    match key_position(m, &k) {
        Some(i) => {
            m.set(i, (k, v));
        },
        None => {
            m.push((k, v));
        },
    }
}

/// The value stored under `k`.
pub(crate) fn map_get<K: PartialEq, V: Copy>(m: &Vec<(K, V)>, k: &K) -> (r: Option<V>)
    requires
        obeys_concrete_eq::<K>(),
    ensures
        r == lookup(m@, *k),
{
    proof {
        lemma_key_pos(m@, *k);
    }
    match key_position(m, k) {
        Some(i) => Some(m[i].1),
        None => None,
    }
}

/// Session numbers compare as values.
pub(crate) proof fn lemma_numbers_concrete_eq()
    ensures
        obeys_concrete_eq::<u32>(),
{
    reveal(obeys_concrete_eq);
}

/// The model after the user's own connection became `status`.
pub open spec fn connection_status_set(before: Model, after: Model, status: Connection) -> bool {
    after == (Model {
        domain: DomainState { self_connection_status: status, ..before.domain },
        ui: UiState { sidebar_cache: None, ..before.ui },
        ..before
    })
}

impl Model {
    /// Records the user's own connection.
    fn on_connection_status(&mut self, status: Connection)
        ensures
            connection_status_set(*old(self), *final(self), status),
    {
        self.domain.self_connection_status = status;
        self.invalidate_sidebar_cache();
    }
}

/// The name a contact gets before its own is known: `Friend ` and the
/// first four bytes of its key in hex.
pub open spec fn fallback_name(pk: PublicKey) -> Seq<char> {
    "Friend "@ + crate::utils::hex_encoding(pk.0@.take(4))
}

/// `after` is `before` with the contact `pk` connected by `status`: its
/// entry changed, or a new entry for it at the end.
pub open spec fn friend_connected(
    before: Seq<(PublicKey, FriendInfo)>,
    after: Seq<(PublicKey, FriendInfo)>,
    pk: PublicKey,
    status: Connection,
) -> bool {
    let k = key_pos(before, pk);
    if k >= 0 {
        after == before.update(k, (pk, FriendInfo { connection: status, ..before[k].1 }))
    } else {
        let info = after.last().1;
        &&& after.len() == before.len() + 1
        &&& after.drop_last() == before
        &&& after.last().0 == pk
        &&& info.name@ == fallback_name(pk)
        &&& info.public_key == Some(pk)
        &&& info.status_message@.len() == 0
        &&& info.connection == status
        &&& info.last_sent_message_id is None
        &&& info.last_read_receipt is None
        &&& !info.is_typing
    }
}

/// The model after contact number `friend` was reported connected by
/// `status`, with its key when the report gives it: the key is recorded
/// under the number, and the contact (known by the key, or else by the
/// number) is updated or added.
pub open spec fn friend_status_set(
    before: Model,
    after: Model,
    friend: u32,
    status: Connection,
    pk_opt: Option<PublicKey>,
) -> bool {
    let numbers = before.session.friend_numbers@;
    let resolved = match pk_opt {
        Some(pk) => Some(pk),
        None => lookup(numbers, friend),
    };
    &&& after == (Model {
        domain: DomainState { friends: after.domain.friends, ..before.domain },
        ui: UiState { sidebar_cache: after.ui.sidebar_cache, ..before.ui },
        session: SessionState { friend_numbers: after.session.friend_numbers, ..before.session },
        ..before
    })
    &&& after.session.friend_numbers@ == match pk_opt {
        Some(pk) => put(numbers, friend, pk),
        None => numbers,
    }
    &&& match resolved {
        Some(pk) => {
            &&& after.ui.sidebar_cache is None
            &&& friend_connected(before.domain.friends@, after.domain.friends@, pk, status)
        },
        None => after.domain.friends == before.domain.friends && after.ui.sidebar_cache == before.ui.sidebar_cache,
    }
}

/// `after` is `before` with the entry under `pk`, if any, replaced by
/// `f` of it.
pub open spec fn friend_changed(
    before: Seq<(PublicKey, FriendInfo)>,
    after: Seq<(PublicKey, FriendInfo)>,
    pk: PublicKey,
    changed: FriendInfo,
) -> bool {
    let k = key_pos(before, pk);
    if k >= 0 {
        after == before.update(k, (pk, changed))
    } else {
        after == before
    }
}

/// The model after a report on contact number `friend`: nothing unless
/// the number is known; otherwise the contact's entry, if any, becomes
/// `changed` of it and the sidebar is drawn again.
pub open spec fn friend_report(
    before: Model,
    after: Model,
    friend: u32,
    changed: spec_fn(FriendInfo) -> FriendInfo,
) -> bool {
    match lookup(before.session.friend_numbers@, friend) {
        Some(pk) => {
            let k = key_pos(before.domain.friends@, pk);
            &&& after == (Model {
                domain: DomainState { friends: after.domain.friends, ..before.domain },
                ui: UiState { sidebar_cache: None, ..before.ui },
                ..before
            })
            &&& k >= 0 ==> after.domain.friends@ == before.domain.friends@.update(
                k,
                (pk, changed(before.domain.friends@[k].1)),
            )
            &&& k < 0 ==> after.domain.friends == before.domain.friends
        },
        None => after == before,
    }
}

impl Model {
    /// Records contact number `friend`'s connection.  A key in the report
    /// is recorded under the number; a contact not known yet is added
    /// under a name made from its key.
    fn on_friend_status(&mut self, friend: u32, status: Connection, pk_opt: Option<PublicKey>)
        requires
            old(self).wf(),
        ensures
            final(self).wf(),
            friend_status_set(*old(self), *final(self), friend, status, pk_opt),
    {
        proof {
            lemma_numbers_concrete_eq();
            lemma_keys_concrete_eq();
        }
        match pk_opt {
            Some(pk) => map_put(&mut self.session.friend_numbers, friend, pk),
            None => {},
        }
        let resolved = match pk_opt {
            Some(pk) => Some(pk),
            None => map_get(&self.session.friend_numbers, &friend),
        };
        match resolved {
            Some(pk) => {
                proof {
                    lemma_key_pos(self.domain.friends@, pk);
                }
                match key_position(&self.domain.friends, &pk) {
                    Some(i) => {
                        let ghost before = self.domain.friends@;
                        self.domain.friends[i].1.connection = status;
                        proof {
                            assert(self.domain.friends@ =~= before.update(
                                i as int,
                                (pk, FriendInfo { connection: status, ..before[i as int].1 }),
                            ));
                            assert forall|a: int, b: int|
                                0 <= a < b < self.domain.friends@.len() implies self.domain.friends@[a].0
                                != self.domain.friends@[b].0 by {
                                assert(before[a].0 != before[b].0);
                            };
                        }
                    },
                    None => {
                        let name = self.friend_fallback_name(&pk);
                        let info = FriendInfo {
                            name,
                            public_key: Some(pk),
                            status_message: String::new(),
                            connection: status,
                            last_sent_message_id: None,
                            last_read_receipt: None,
                            is_typing: false,
                        };
                        let ghost before = self.domain.friends@;
                        self.domain.friends.push((pk, info));
                        proof {
                            assert(self.domain.friends@.drop_last() =~= before);
                            crate::domain::lemma_key_pos_push(before, (pk, info), pk);
                        }
                    },
                }
                self.invalidate_sidebar_cache();
            },
            None => {},
        }
    }

    /// Changes the entry of contact number `friend`, if the number and the
    /// contact are known, and draws the sidebar again when the number is
    /// known.
    fn change_friend(&mut self, friend: u32, pk: PublicKey) -> (k: Option<usize>)
        requires
            old(self).wf(),
            lookup(old(self).session.friend_numbers@, friend) == Some(pk),
        ensures
            *final(self) == *old(self),
            match k {
                Some(i) => i as int == key_pos(old(self).domain.friends@, pk) && i < old(self).domain.friends@.len(),
                None => key_pos(old(self).domain.friends@, pk) < 0,
            },
    {
        proof {
            lemma_keys_concrete_eq();
            lemma_key_pos(self.domain.friends@, pk);
        }
        key_position(&self.domain.friends, &pk)
    }

    /// Records contact number `friend`'s new name, in its entry and in its
    /// conversation's name.
    fn on_friend_name(&mut self, friend: u32, name: String)
        requires
            old(self).wf(),
        ensures
            final(self).wf(),
            ({
                let f = |i: FriendInfo| FriendInfo { name: name, ..i };
                match lookup(old(self).session.friend_numbers@, friend) {
                    Some(pk) => {
                        let w = crate::domain::WindowId::Friend(pk);
                        let c = key_pos(old(self).domain.conversations@, w);
                        let mid = Model {
                            domain: DomainState { conversations: final(self).domain.conversations, ..old(self).domain },
                            ..*old(self)
                        };
                        &&& friend_report(mid, *final(self), friend, f)
                        &&& c >= 0 ==> final(self).domain.conversations@ == old(self).domain.conversations@.update(
                            c,
                            (w, crate::domain::Conversation { name: name, ..old(self).domain.conversations@[c].1 }),
                        )
                        &&& c < 0 ==> final(self).domain.conversations == old(self).domain.conversations
                    },
                    None => *final(self) == *old(self),
                }
            }),
    {
        proof {
            lemma_numbers_concrete_eq();
            lemma_keys_concrete_eq();
        }
        match map_get(&self.session.friend_numbers, &friend) {
            Some(pk) => {
                let ghost m0 = *self;
                match self.change_friend(friend, pk) {
                    Some(i) => {
                        let ghost before = self.domain.friends@;
                        proof {
                            lemma_key_pos(before, pk);
                        }
                        self.domain.friends[i].1.name = name.clone();
                        proof {
                            assert(self.domain.friends@ =~= before.update(
                                i as int,
                                (pk, FriendInfo { name: name, ..before[i as int].1 }),
                            ));
                            assert forall|a: int, b: int|
                                0 <= a < b < self.domain.friends@.len() implies self.domain.friends@[a].0
                                != self.domain.friends@[b].0 by {
                                assert(before[a].0 != before[b].0);
                            };
                        }
                    },
                    None => {},
                }
                let w = crate::domain::WindowId::Friend(pk);
                proof {
                    lemma_key_pos(self.domain.conversations@, w);
                }
                match key_position(&self.domain.conversations, &w) {
                    Some(j) => {
                        let ghost before = self.domain.conversations@;
                        self.domain.conversations[j].1.name = name;
                        proof {
                            assert(self.domain.conversations@ =~= before.update(
                                j as int,
                                (w, crate::domain::Conversation { name: name, ..before[j as int].1 }),
                            ));
                            assert forall|a: int, b: int|
                                0 <= a < b < self.domain.conversations@.len() implies self.domain.conversations@[a].0
                                != self.domain.conversations@[b].0 by {
                                assert(before[a].0 != before[b].0);
                            };
                            assert forall|a: int| 0 <= a < self.domain.conversations@.len() implies crate::domain::is_conversation_window(
                                #[trigger] self.domain.conversations@[a].0,
                            ) by {
                                assert(self.domain.conversations@[a].0 == before[a].0);
                            };
                        }
                    },
                    None => {},
                }
                self.invalidate_sidebar_cache();
            },
            None => {},
        }
    }

    /// Records contact number `friend`'s status message.
    fn on_friend_status_message(&mut self, friend: u32, msg: String)
        requires
            old(self).wf(),
        ensures
            final(self).wf(),
            friend_report(*old(self), *final(self), friend, |i: FriendInfo| FriendInfo { status_message: msg, ..i }),
    {
        proof {
            lemma_numbers_concrete_eq();
        }
        match map_get(&self.session.friend_numbers, &friend) {
            Some(pk) => {
                match self.change_friend(friend, pk) {
                    Some(i) => {
                        let ghost before = self.domain.friends@;
                        proof {
                            lemma_key_pos(before, pk);
                        }
                        self.domain.friends[i].1.status_message = msg;
                        proof {
                            assert(self.domain.friends@ =~= before.update(
                                i as int,
                                (pk, FriendInfo { status_message: msg, ..before[i as int].1 }),
                            ));
                            assert forall|a: int, b: int|
                                0 <= a < b < self.domain.friends@.len() implies self.domain.friends@[a].0
                                != self.domain.friends@[b].0 by {
                                assert(before[a].0 != before[b].0);
                            };
                        }
                    },
                    None => {},
                }
                self.invalidate_sidebar_cache();
            },
            None => {},
        }
    }

    /// Records whether contact number `friend` is typing.
    fn on_friend_typing(&mut self, friend: u32, is_typing: bool)
        requires
            old(self).wf(),
        ensures
            final(self).wf(),
            friend_report(*old(self), *final(self), friend, |i: FriendInfo| FriendInfo { is_typing: is_typing, ..i }),
    {
        proof {
            lemma_numbers_concrete_eq();
        }
        match map_get(&self.session.friend_numbers, &friend) {
            Some(pk) => {
                match self.change_friend(friend, pk) {
                    Some(i) => {
                        let ghost before = self.domain.friends@;
                        proof {
                            lemma_key_pos(before, pk);
                        }
                        self.domain.friends[i].1.is_typing = is_typing;
                        proof {
                            assert(self.domain.friends@ =~= before.update(
                                i as int,
                                (pk, FriendInfo { is_typing: is_typing, ..before[i as int].1 }),
                            ));
                            assert forall|a: int, b: int|
                                0 <= a < b < self.domain.friends@.len() implies self.domain.friends@[a].0
                                != self.domain.friends@[b].0 by {
                                assert(before[a].0 != before[b].0);
                            };
                        }
                    },
                    None => {},
                }
                self.invalidate_sidebar_cache();
            },
            None => {},
        }
    }
}


/// How a moderation event is named in the console.
pub open spec fn mod_event_text(m: GroupModEvent) -> Seq<char> {
    match m {
        GroupModEvent::Kick => "TOX_GROUP_MOD_EVENT_KICK"@,
        GroupModEvent::Observer => "TOX_GROUP_MOD_EVENT_OBSERVER"@,
        GroupModEvent::User => "TOX_GROUP_MOD_EVENT_USER"@,
        GroupModEvent::Moderator => "TOX_GROUP_MOD_EVENT_MODERATOR"@,
    }
}

fn mod_event_name(m: GroupModEvent) -> (r: &'static str)
    ensures
        r@ == mod_event_text(m),
{
    match m {
        GroupModEvent::Kick => "TOX_GROUP_MOD_EVENT_KICK",
        GroupModEvent::Observer => "TOX_GROUP_MOD_EVENT_OBSERVER",
        GroupModEvent::User => "TOX_GROUP_MOD_EVENT_USER",
        GroupModEvent::Moderator => "TOX_GROUP_MOD_EVENT_MODERATOR",
    }
}

/// How a file control is named in the console.
pub open spec fn file_control_text(c: FileControl) -> Seq<char> {
    match c {
        FileControl::Resume => "TOX_FILE_CONTROL_RESUME"@,
        FileControl::Pause => "TOX_FILE_CONTROL_PAUSE"@,
        FileControl::Cancel => "TOX_FILE_CONTROL_CANCEL"@,
    }
}

fn file_control_name(c: FileControl) -> (r: &'static str)
    ensures
        r@ == file_control_text(c),
{
    match c {
        FileControl::Resume => "TOX_FILE_CONTROL_RESUME",
        FileControl::Pause => "TOX_FILE_CONTROL_PAUSE",
        FileControl::Cancel => "TOX_FILE_CONTROL_CANCEL",
    }
}

/// The model with `item` added to the requests waiting for an answer.
pub open spec fn pending_added(before: Model, after: Model, item: PendingItem) -> bool {
    &&& after == (Model {
        domain: DomainState { pending_items: after.domain.pending_items, ..before.domain },
        ..before
    })
    &&& after.domain.pending_items@ == before.domain.pending_items@.push(item)
}

/// The console line of a group invitation from contact number `friend`.
pub open spec fn group_invite_text(friend: u32, name: Seq<char>) -> Seq<char> {
    "Received group invite for '"@ + name + "' from friend "@ + dec(friend as nat)
}

/// The console line of a group invitation from an unknown contact number.
pub open spec fn unknown_invite_text(friend: u32) -> Seq<char> {
    "Received group invite from unknown friend number "@ + dec(friend as nat)
}

/// The console line of a moderation event.
pub open spec fn moderation_text(group: u32, target: u32, m: GroupModEvent) -> Seq<char> {
    "Group "@ + dec(group as nat) + ": Moderation event "@ + mod_event_text(m) + " on peer "@ + dec(target as nat)
}

/// The model after a group invitation from contact number `friend`: a
/// console line, and the invitation waiting when the number is known.
pub open spec fn group_invite_received(
    before: Model,
    after: Model,
    friend: u32,
    data: String,
    name: String,
    now: Timestamp,
) -> bool {
    match lookup(before.session.friend_numbers@, friend) {
        Some(pk) => {
            let mid = Model {
                domain: DomainState { pending_items: before.domain.pending_items, ..after.domain },
                ..after
            };
            &&& console_added(before, mid, ConsoleMessageType::Info, group_invite_text(friend, name@), now)
            &&& pending_added(
                mid,
                after,
                PendingItem::GroupInvite { friend: pk, invite_data: data, group_name: name },
            )
        },
        None => console_added(before, after, ConsoleMessageType::Error, unknown_invite_text(friend), now),
    }
}

/// The model after a conference invitation from contact number `friend`:
/// waiting for an answer when the number is known.
pub open spec fn conference_invite_received(
    before: Model,
    after: Model,
    friend: u32,
    kind: ConferenceType,
    cookie: String,
) -> bool {
    match lookup(before.session.friend_numbers@, friend) {
        Some(pk) => pending_added(
            before,
            after,
            PendingItem::ConferenceInvite { friend: pk, conference_type: kind, cookie: cookie },
        ),
        None => after == before,
    }
}

impl Model {
    /// Records the user's address.
    fn on_address(&mut self, addr: String)
        ensures
            *final(self) == (Model { domain: DomainState { tox_id: addr, ..old(self).domain }, ..*old(self) }),
    {
        self.domain.tox_id = addr;
    }

    /// Keeps a contact request for the user's answer.
    fn on_friend_request(&mut self, pk: PublicKey, message: String)
        ensures
            pending_added(*old(self), *final(self), PendingItem::FriendRequest { pk: pk, message: message }),
    {
        self.domain.pending_items.push(PendingItem::FriendRequest { pk, message });
    }

    /// Notes a group invitation in the console and keeps it for the
    /// user's answer when the inviting contact is known.
    fn on_group_invite(&mut self, friend: u32, data: String, name: String, now: Timestamp)
        requires
            old(self).wf(),
        ensures
            final(self).wf(),
            group_invite_received(*old(self), *final(self), friend, data, name, now),
    {
        proof {
            lemma_numbers_concrete_eq();
        }
        match map_get(&self.session.friend_numbers, &friend) {
            Some(pk) => {
                let mut cs = str_chars("Received group invite for '");
                push_all(&mut cs, str_chars(name.as_str()).as_slice());
                push_all(&mut cs, str_chars("' from friend ").as_slice());
                push_dec(&mut cs, friend as u64);
                let text = string_from_chars(cs.as_slice());
                self.add_console_message(ConsoleMessageType::Info, text, now);
                let ghost mid = *self;
                self.domain.pending_items.push(PendingItem::GroupInvite { friend: pk, invite_data: data, group_name: name });
                assert(mid == (Model {
                    domain: DomainState { pending_items: old(self).domain.pending_items, ..self.domain },
                    ..*self
                }));
            },
            None => {
                let mut cs = str_chars("Received group invite from unknown friend number ");
                push_dec(&mut cs, friend as u64);
                let text = string_from_chars(cs.as_slice());
                self.add_console_message(ConsoleMessageType::Error, text, now);
            },
        }
    }

    /// Keeps a conference invitation from a known contact for the user's
    /// answer.
    fn on_conference_invite(&mut self, friend: u32, kind: ConferenceType, cookie: String)
        ensures
            conference_invite_received(*old(self), *final(self), friend, kind, cookie),
    {
        proof {
            lemma_numbers_concrete_eq();
        }
        match map_get(&self.session.friend_numbers, &friend) {
            Some(pk) => {
                self.domain.pending_items.push(
                    PendingItem::ConferenceInvite { friend: pk, conference_type: kind, cookie },
                );
            },
            None => {},
        }
    }

    /// Notes a moderation event of group number `group` in the console.
    fn on_group_moderation(&mut self, group: u32, target: u32, m: GroupModEvent, now: Timestamp)
        requires
            old(self).wf(),
        ensures
            final(self).wf(),
            console_added(*old(self), *final(self), ConsoleMessageType::Info, moderation_text(group, target, m), now),
    {
        let mut cs = str_chars("Group ");
        push_dec(&mut cs, group as u64);
        push_all(&mut cs, str_chars(": Moderation event ").as_slice());
        push_all(&mut cs, str_chars(mod_event_name(m)).as_slice());
        push_all(&mut cs, str_chars(" on peer ").as_slice());
        push_dec(&mut cs, target as u64);
        let text = string_from_chars(cs.as_slice());
        self.add_console_message(ConsoleMessageType::Info, text, now);
    }
}


/// What is asked after message `r` of `w` changed: to log it.
pub open spec fn log_cmds(w: WindowId, r: Option<Message>) -> Seq<Cmd> {
    match r {
        Some(m) => seq![Cmd::IO(IOAction::LogMessage(w, m))],
        None => Seq::empty(),
    }
}

/// The message the first request logs, if it is one to log a message.
pub open spec fn logged(cmds: Seq<Cmd>) -> Option<Message> {
    if cmds.len() > 0 {
        match cmds[0] {
            Cmd::IO(IOAction::LogMessage(_, m)) => Some(m),
            _ => None,
        }
    } else {
        None
    }
}

/// Room for one more message: its number, and one more unread message in
/// every window.
pub open spec fn room_for_message(m: Model) -> bool {
    &&& m.domain.next_internal_id.0 < usize::MAX
    &&& forall|i: int| 0 <= i < m.ui.window_state@.len() ==> #[trigger] m.ui.window_state@[i].1.unread_count < usize::MAX
}

proof fn lemma_room(m: Model, w: WindowId)
    requires
        room_for_message(m),
    ensures
        unread_room(m, w),
{
    lemma_key_pos(m.ui.window_state@, w);
}

/// The model and requests after a text from contact number `friend`: for
/// a known number, the text put in the contact's conversation and logged.
pub open spec fn friend_message_received(
    before: Model,
    after: Model,
    friend: u32,
    message_type: MessageType,
    content: Seq<char>,
    now: Timestamp,
    cmds: Seq<Cmd>,
) -> bool {
    match lookup(before.session.friend_numbers@, friend) {
        Some(pk) => {
            &&& incoming_added(
                before,
                after,
                WindowId::Friend(pk),
                friend_window_name(before, pk),
                message_type,
                friend_window_name(before, pk),
                content,
                match lookup(before.domain.friends@, pk) {
                    Some(info) => info.public_key,
                    None => Some(pk),
                },
                now,
                logged(cmds),
            )
            &&& cmds == log_cmds(WindowId::Friend(pk), logged(cmds))
        },
        None => after == before && cmds.len() == 0,
    }
}

/// The model and requests after a text from `sender` in group number
/// `group`: for a known number, the text put in the group's conversation
/// and logged.
pub open spec fn group_message_received(
    before: Model,
    after: Model,
    group: u32,
    message_type: MessageType,
    sender: Seq<char>,
    content: Seq<char>,
    sender_pk: Option<PublicKey>,
    now: Timestamp,
    cmds: Seq<Cmd>,
) -> bool {
    match lookup(before.session.group_numbers@, group) {
        Some(chat_id) => {
            &&& incoming_added(
                before,
                after,
                WindowId::Group(chat_id),
                numbered_name("Group"@, before.session.group_numbers@, chat_id),
                message_type,
                sender,
                content,
                sender_pk,
                now,
                logged(cmds),
            )
            &&& cmds == log_cmds(WindowId::Group(chat_id), logged(cmds))
        },
        None => after == before && cmds.len() == 0,
    }
}

/// The model and requests after a text from `sender` in conference number
/// `conference`: for a known number, the text put in the conference's
/// conversation and logged.
pub open spec fn conference_message_received(
    before: Model,
    after: Model,
    conference: u32,
    message_type: MessageType,
    sender: Seq<char>,
    content: Seq<char>,
    sender_pk: Option<PublicKey>,
    now: Timestamp,
    cmds: Seq<Cmd>,
) -> bool {
    match lookup(before.session.conference_numbers@, conference) {
        Some(id) => {
            &&& incoming_added(
                before,
                after,
                WindowId::Conference(id),
                numbered_name("Conference"@, before.session.conference_numbers@, id),
                message_type,
                sender,
                content,
                sender_pk,
                now,
                logged(cmds),
            )
            &&& cmds == log_cmds(WindowId::Conference(id), logged(cmds))
        },
        None => after == before && cmds.len() == 0,
    }
}

/// The model and requests after message `id` of window `w` (if known)
/// reached `status`: the message changed and logged.
pub open spec fn delivery_marked(
    before: Model,
    after: Model,
    w: Option<WindowId>,
    id: InternalMessageId,
    status: MessageStatus,
    cmds: Seq<Cmd>,
) -> bool {
    match w {
        Some(w) => {
            &&& status_marked(before, after, w, id, status, logged(cmds))
            &&& cmds == log_cmds(w, logged(cmds))
        },
        None => after == before && cmds.len() == 0,
    }
}

/// The window of contact number `friend`, if the number is known.
pub open spec fn friend_window(m: Model, friend: u32) -> Option<WindowId> {
    match lookup(m.session.friend_numbers@, friend) {
        Some(pk) => Some(WindowId::Friend(pk)),
        None => None,
    }
}

/// The window of group number `group`, if the number is known.
pub open spec fn group_window(m: Model, group: u32) -> Option<WindowId> {
    match lookup(m.session.group_numbers@, group) {
        Some(g) => Some(WindowId::Group(g)),
        None => None,
    }
}

/// The window of conference number `conference`, if the number is known.
pub open spec fn conference_window(m: Model, conference: u32) -> Option<WindowId> {
    match lookup(m.session.conference_numbers@, conference) {
        Some(c) => Some(WindowId::Conference(c)),
        None => None,
    }
}

/// The request to log `r`, if there is a message.
pub(crate) fn log_request(w: WindowId, r: Option<Message>) -> (cmds: Vec<Cmd>)
    ensures
        cmds@ == log_cmds(w, r),
        logged(cmds@) == r,
{
    let mut cmds: Vec<Cmd> = Vec::new();
    match r {
        Some(m) => cmds.push(Cmd::IO(IOAction::LogMessage(w, m))),
        None => {},
    }
    cmds
}

impl Model {
    /// Puts a text from contact number `friend` in the contact's
    /// conversation and asks to log it.
    fn on_message(&mut self, friend: u32, message_type: MessageType, content: String, now: Timestamp) -> (cmds: Vec<Cmd>)
        requires
            old(self).wf(),
            room_for_message(*old(self)),
        ensures
            final(self).wf(),
            friend_message_received(*old(self), *final(self), friend, message_type, content@, now, cmds@),
    {
        proof {
            lemma_numbers_concrete_eq();
        }
        match map_get(&self.session.friend_numbers, &friend) {
            Some(pk) => {
                proof {
                    lemma_room(*self, WindowId::Friend(pk));
                }
                let r = self.add_friend_message(pk, message_type, content, now);
                log_request(WindowId::Friend(pk), r)
            },
            None => Vec::new(),
        }
    }

    /// Puts a text from `sender` in group number `group`'s conversation
    /// and asks to log it.
    fn on_group_message(
        &mut self,
        group: u32,
        message_type: MessageType,
        sender: String,
        content: String,
        sender_pk: Option<PublicKey>,
        now: Timestamp,
    ) -> (cmds: Vec<Cmd>)
        requires
            old(self).wf(),
            room_for_message(*old(self)),
        ensures
            final(self).wf(),
            group_message_received(*old(self), *final(self), group, message_type, sender@, content@, sender_pk, now, cmds@),
    {
        proof {
            lemma_numbers_concrete_eq();
        }
        match map_get(&self.session.group_numbers, &group) {
            Some(chat_id) => {
                proof {
                    lemma_room(*self, WindowId::Group(chat_id));
                }
                let r = self.add_group_message(chat_id, message_type, sender, content, sender_pk, now);
                log_request(WindowId::Group(chat_id), r)
            },
            None => Vec::new(),
        }
    }

    /// Puts a text from `sender` in conference number `conference`'s
    /// conversation and asks to log it.
    fn on_conference_message(
        &mut self,
        conference: u32,
        message_type: MessageType,
        sender: String,
        content: String,
        sender_pk: Option<PublicKey>,
        now: Timestamp,
    ) -> (cmds: Vec<Cmd>)
        requires
            old(self).wf(),
            room_for_message(*old(self)),
        ensures
            final(self).wf(),
            conference_message_received(
                *old(self),
                *final(self),
                conference,
                message_type,
                sender@,
                content@,
                sender_pk,
                now,
                cmds@,
            ),
    {
        proof {
            lemma_numbers_concrete_eq();
        }
        match map_get(&self.session.conference_numbers, &conference) {
            Some(id) => {
                proof {
                    lemma_room(*self, WindowId::Conference(id));
                }
                let r = self.add_conference_message(id, message_type, sender, content, sender_pk, now);
                log_request(WindowId::Conference(id), r)
            },
            None => Vec::new(),
        }
    }

    /// Sets the status of message `id` of window `w`, if known, and asks
    /// to log the changed message.
    fn mark_delivery(&mut self, w: Option<WindowId>, id: InternalMessageId, status: MessageStatus) -> (cmds: Vec<Cmd>)
        requires
            old(self).wf(),
        ensures
            final(self).wf(),
            delivery_marked(*old(self), *final(self), w, id, status, cmds@),
    {
        match w {
            Some(w) => {
                let r = self.mark_message_status(w, id, status);
                log_request(w, r)
            },
            None => Vec::new(),
        }
    }

    /// The window of contact number `friend`.
    fn friend_window_of(&self, friend: u32) -> (r: Option<WindowId>)
        ensures
            r == friend_window(*self, friend),
    {
        proof {
            lemma_numbers_concrete_eq();
        }
        match map_get(&self.session.friend_numbers, &friend) {
            Some(pk) => Some(WindowId::Friend(pk)),
            None => None,
        }
    }

    /// The window of group number `group`.
    fn group_window_of(&self, group: u32) -> (r: Option<WindowId>)
        ensures
            r == group_window(*self, group),
    {
        proof {
            lemma_numbers_concrete_eq();
        }
        match map_get(&self.session.group_numbers, &group) {
            Some(g) => Some(WindowId::Group(g)),
            None => None,
        }
    }

    /// The window of conference number `conference`.
    fn conference_window_of(&self, conference: u32) -> (r: Option<WindowId>)
        ensures
            r == conference_window(*self, conference),
    {
        proof {
            lemma_numbers_concrete_eq();
        }
        match map_get(&self.session.conference_numbers, &conference) {
            Some(c) => Some(WindowId::Conference(c)),
            None => None,
        }
    }
}


/// Sequences with the same keys find a key at the same place.
proof fn lemma_key_pos_same_keys<V>(before: Seq<(WindowId, V)>, after: Seq<(WindowId, V)>, w: WindowId)
    requires
        after.len() == before.len(),
        forall|i: int| 0 <= i < before.len() ==> #[trigger] after[i].0 == before[i].0,
    ensures
        key_pos(after, w) == key_pos(before, w),
    decreases before.len(),
{
    if before.len() > 0 {
        assert(after[after.len() - 1].0 == before[before.len() - 1].0);
        assert forall|i: int| 0 <= i < before.drop_last().len() implies #[trigger] after.drop_last()[i].0
            == before.drop_last()[i].0 by {
            assert(after[i].0 == before[i].0);
        };
        lemma_key_pos_same_keys(before.drop_last(), after.drop_last(), w);
    }
}

/// Entries keep their keys: what holds of the keys before holds after.
pub(crate) proof fn lemma_same_keys<V>(before: Seq<(WindowId, V)>, after: Seq<(WindowId, V)>)
    requires
        after.len() == before.len(),
        forall|i: int| 0 <= i < before.len() ==> #[trigger] after[i].0 == before[i].0,
    ensures
        keys_unique(before) ==> keys_unique(after),
        (forall|i: int| 0 <= i < before.len() ==> is_conversation_window(#[trigger] before[i].0)) ==> (forall|i: int|
            0 <= i < after.len() ==> is_conversation_window(#[trigger] after[i].0)),
        forall|w: WindowId| key_pos(after, w) == key_pos(before, w),
{
    assert forall|w: WindowId| key_pos(after, w) == key_pos(before, w) by {
        lemma_key_pos_same_keys(before, after, w);
    };
    if keys_unique(before) {
        assert forall|a: int, b: int| 0 <= a < b < after.len() implies after[a].0 != after[b].0 by {
            assert(before[a].0 != before[b].0);
        };
    }
}

/// `after` is `before` with conversation `k` replaced by `c`.
pub open spec fn conv_replaced(
    before: Seq<(WindowId, Conversation)>,
    after: Seq<(WindowId, Conversation)>,
    k: int,
    c: Conversation,
) -> bool {
    0 <= k < before.len() && after == before.update(k, (before[k].0, c))
}

/// The model with only its conversations replaced.
pub open spec fn only_conversations(before: Model, after: Model) -> bool {
    after == (Model { domain: DomainState { conversations: after.domain.conversations, ..before.domain }, ..before })
}

/// The model with only its session numbers for groups replaced.
pub open spec fn only_group_numbers(before: Model, after: Model) -> bool {
    after == (Model {
        session: SessionState { group_numbers: after.session.group_numbers, ..before.session },
        ..before
    })
}

/// The model with only its session numbers for conferences replaced.
pub open spec fn only_conference_numbers(before: Model, after: Model) -> bool {
    after == (Model {
        session: SessionState { conference_numbers: after.session.conference_numbers, ..before.session },
        ..before
    })
}

/// The model with the sidebar to be drawn again.
pub open spec fn sidebar_dropped(before: Model, after: Model) -> bool {
    after == (Model { ui: UiState { sidebar_cache: None, ..before.ui }, ..before })
}

/// The conversation of `w` in `m`, which must have one.
pub open spec fn conv_of(m: Model, w: WindowId) -> Conversation {
    m.domain.conversations@[key_pos(m.domain.conversations@, w)].1
}

/// The model after a conversation window for `w` was opened and shown if
/// it had no conversation before.
pub open spec fn shown_if_new(before: Model, mid: Model, after: Model, w: WindowId) -> bool {
    if key_pos(before.domain.conversations@, w) < 0 {
        window_shown(mid, after, first_index(mid.ui.window_ids@, w) as usize)
    } else {
        after == mid
    }
}

/// The model after group number `group` was reported created with id
/// `chat_id` and maybe a name: the number recorded, the window opened
/// (and shown if new), named as reported.
pub open spec fn group_created(
    before: Model,
    after: Model,
    group: u32,
    chat_id: ChatId,
    name: Option<String>,
) -> bool {
    let w = WindowId::Group(chat_id);
    exists|m1: Model, m2: Model, m3: Model, m4: Model|
        #![trigger only_group_numbers(before, m1), conversation_ensured(m1, m2, w, numbered_name("Group"@, m1.session.group_numbers@, chat_id)), shown_if_new(before, m3, m4, w)]
        {
            &&& only_group_numbers(before, m1)
            &&& m1.session.group_numbers@ == put(before.session.group_numbers@, group, chat_id)
            &&& conversation_ensured(m1, m2, w, numbered_name("Group"@, m1.session.group_numbers@, chat_id))
            &&& match name {
                Some(n) => only_conversations(m2, m3) && conv_replaced(
                    m2.domain.conversations@,
                    m3.domain.conversations@,
                    key_pos(m2.domain.conversations@, w),
                    Conversation { name: n, ..conv_of(m2, w) },
                ),
                None => m3 == m2,
            }
            &&& shown_if_new(before, m3, m4, w)
            &&& sidebar_dropped(m4, after)
        }
}

/// The model after conference number `conference` was reported created
/// with id `id`: the number recorded, the window opened (and shown if
/// new).
pub open spec fn conference_created(before: Model, after: Model, conference: u32, id: ConferenceId) -> bool {
    let w = WindowId::Conference(id);
    exists|m1: Model, m2: Model, m3: Model|
        #![trigger only_conference_numbers(before, m1), conversation_ensured(m1, m2, w, numbered_name("Conference"@, m1.session.conference_numbers@, id)), shown_if_new(before, m2, m3, w)]
        {
            &&& only_conference_numbers(before, m1)
            &&& m1.session.conference_numbers@ == put(before.session.conference_numbers@, conference, id)
            &&& conversation_ensured(m1, m2, w, numbered_name("Conference"@, m1.session.conference_numbers@, id))
            &&& shown_if_new(before, m2, m3, w)
            &&& sidebar_dropped(m3, after)
        }
}

impl Model {
    /// The position of `w`'s conversation.
    pub(crate) fn conv_index(&self, w: WindowId) -> (r: Option<usize>)
        ensures
            match r {
                Some(k) => k as int == key_pos(self.domain.conversations@, w) && k < self.domain.conversations@.len()
                    && self.domain.conversations@[k as int].0 == w,
                None => key_pos(self.domain.conversations@, w) < 0,
            },
    {
        proof {
            lemma_keys_concrete_eq();
            lemma_key_pos(self.domain.conversations@, w);
        }
        key_position(&self.domain.conversations, &w)
    }

    /// Renames conversation `k`.
    pub(crate) fn rename_conversation(&mut self, k: usize, name: String)
        requires
            old(self).wf(),
            k < old(self).domain.conversations@.len(),
        ensures
            final(self).wf(),
            only_conversations(*old(self), *final(self)),
            conv_replaced(
                old(self).domain.conversations@,
                final(self).domain.conversations@,
                k as int,
                Conversation { name: name, ..old(self).domain.conversations@[k as int].1 },
            ),
    {
        let ghost before = self.domain.conversations@;
        self.domain.conversations[k].1.name = name;
        proof {
            assert(self.domain.conversations@ =~= before.update(
                k as int,
                (before[k as int].0, Conversation { name: name, ..before[k as int].1 }),
            ));
            lemma_same_keys(before, self.domain.conversations@);
        }
    }

    /// Opens (and, if new, shows) the window of group number `group`,
    /// recorded with id `chat_id` and named `name` if one is given.
    fn on_group_created(&mut self, group: u32, chat_id: ChatId, name: Option<String>)
        requires
            old(self).wf(),
        ensures
            final(self).wf(),
            group_created(*old(self), *final(self), group, chat_id, name),
    {
        proof {
            lemma_numbers_concrete_eq();
            lemma_keys_concrete_eq();
        }
        let ghost m0 = *self;
        let w = WindowId::Group(chat_id);
        map_put(&mut self.session.group_numbers, group, chat_id);
        let ghost m1 = *self;
        let is_new = self.conv_index(w).is_none();
        self.ensure_group_window(chat_id);
        let ghost m2 = *self;
        match name {
            Some(n) => {
                match self.conv_index(w) {
                    Some(k) => self.rename_conversation(k, n),
                    None => {},
                }
            },
            None => {},
        }
        let ghost m3 = *self;
        if is_new {
            proof {
                lemma_first_index(self.ui.window_ids@, w);
            }
            match position_of(&self.ui.window_ids, &w) {
                Some(pos) => self.set_active_window(pos),
                None => {},
            }
        }
        let ghost m4 = *self;
        self.invalidate_sidebar_cache();
        proof {
            lemma_key_pos(m2.domain.conversations@, w);
            lemma_first_index(m3.ui.window_ids@, w);
            if !is_new {
                assert(shown_if_new(m0, m3, m4, w));
            } else {
                assert(m3.ui.window_ids@.contains(w)) by {
                    if m1.ui.window_ids@.contains(w) {
                    } else {
                        assert(m3.ui.window_ids@ == m1.ui.window_ids@.push(w));
                        assert(m3.ui.window_ids@[m1.ui.window_ids@.len() as int] == w);
                    }
                };
                assert(shown_if_new(m0, m3, m4, w));
            }
            assert(only_group_numbers(m0, m1));
        }
    }
}


/// The console line or notice after a topic change.
pub open spec fn topic_text(t: Seq<char>) -> Seq<char> {
    "* Topic changed to: "@ + t
}

/// The notice after a group's name changed.
pub open spec fn group_name_text(n: Seq<char>) -> Seq<char> {
    "* Group name changed to: "@ + n
}

/// Whether `topic` is `t` already.
pub open spec fn same_topic(topic: Option<String>, t: Seq<char>) -> bool {
    topic matches Some(x) && x@ == t
}

/// The model and requests after a notice in `w` when `changed`: the
/// notice added and logged; nothing otherwise.
pub open spec fn noticed_if(
    changed: bool,
    before: Model,
    after: Model,
    w: WindowId,
    text: Seq<char>,
    now: Timestamp,
    cmds: Seq<Cmd>,
) -> bool {
    if changed {
        &&& system_added(before, after, w, ConsoleMessageType::Info, ContentView::Text(text), now, logged(cmds))
        &&& cmds == log_cmds(w, logged(cmds))
    } else {
        after == before && cmds.len() == 0
    }
}

/// The model and requests after group number `group` reported topic `t`:
/// for a known number the window is opened, and a new topic is recorded
/// and announced in it.
pub open spec fn group_topic_set(before: Model, after: Model, group: u32, t: String, now: Timestamp, cmds: Seq<Cmd>) -> bool {
    match lookup(before.session.group_numbers@, group) {
        Some(chat_id) => {
            let w = WindowId::Group(chat_id);
            exists|m1: Model, m2: Model|
                #![trigger conversation_ensured(before, m1, w, numbered_name("Group"@, before.session.group_numbers@, chat_id)), only_conversations(m1, m2)]
                {
                    let changed = !same_topic(conv_of(m1, w).topic, t@);
                    &&& conversation_ensured(before, m1, w, numbered_name("Group"@, before.session.group_numbers@, chat_id))
                    &&& if changed {
                        only_conversations(m1, m2) && conv_replaced(
                            m1.domain.conversations@,
                            m2.domain.conversations@,
                            key_pos(m1.domain.conversations@, w),
                            Conversation { topic: Some(t), ..conv_of(m1, w) },
                        )
                    } else {
                        only_conversations(m1, m2) && m2 == m1
                    }
                    &&& noticed_if(changed, m2, after, w, topic_text(t@), now, cmds)
                }
        },
        None => after == before && cmds.len() == 0,
    }
}

/// The model and requests after group number `group` reported name `n`:
/// for a known number the window is opened, a new non-empty name is
/// recorded and, if name changes are shown, announced; the sidebar is
/// drawn again.
pub open spec fn group_name_set(before: Model, after: Model, group: u32, n: String, now: Timestamp, cmds: Seq<Cmd>) -> bool {
    match lookup(before.session.group_numbers@, group) {
        Some(chat_id) => {
            let w = WindowId::Group(chat_id);
            exists|m1: Model, m2: Model, m3: Model|
                #![trigger conversation_ensured(before, m1, w, numbered_name("Group"@, before.session.group_numbers@, chat_id)), only_conversations(m1, m2), sidebar_dropped(m3, after)]
                {
                    let changed = n@.len() > 0 && conv_of(m1, w).name@ != n@;
                    &&& conversation_ensured(before, m1, w, numbered_name("Group"@, before.session.group_numbers@, chat_id))
                    &&& if changed {
                        only_conversations(m1, m2) && conv_replaced(
                            m1.domain.conversations@,
                            m2.domain.conversations@,
                            key_pos(m1.domain.conversations@, w),
                            Conversation { name: n, ..conv_of(m1, w) },
                        )
                    } else {
                        only_conversations(m1, m2) && m2 == m1
                    }
                    &&& noticed_if(
                        changed && before.config.enabled_system_messages@.contains(SystemMessageType::NickChange),
                        m2,
                        m3,
                        w,
                        group_name_text(n@),
                        now,
                        cmds,
                    )
                    &&& sidebar_dropped(m3, after)
                }
        },
        None => after == before && cmds.len() == 0,
    }
}

/// The model and requests after conference number `conference` reported
/// title `t`: for a known number the window is opened; a new title is
/// recorded as the topic (and as the name unless empty) and announced;
/// the sidebar is drawn again.
pub open spec fn conference_title_set(
    before: Model,
    after: Model,
    conference: u32,
    t: String,
    now: Timestamp,
    cmds: Seq<Cmd>,
) -> bool {
    match lookup(before.session.conference_numbers@, conference) {
        Some(id) => {
            let w = WindowId::Conference(id);
            exists|m1: Model, m2: Model, m3: Model|
                #![trigger conversation_ensured(before, m1, w, numbered_name("Conference"@, before.session.conference_numbers@, id)), only_conversations(m1, m2), sidebar_dropped(m3, after)]
                {
                    let c = conv_of(m1, w);
                    let changed = !same_topic(c.topic, t@);
                    &&& conversation_ensured(before, m1, w, numbered_name("Conference"@, before.session.conference_numbers@, id))
                    &&& if changed {
                        only_conversations(m1, m2) && conv_replaced(
                            m1.domain.conversations@,
                            m2.domain.conversations@,
                            key_pos(m1.domain.conversations@, w),
                            if t@.len() > 0 {
                                Conversation { name: t, topic: Some(t), ..c }
                            } else {
                                Conversation { topic: Some(t), ..c }
                            },
                        )
                    } else {
                        only_conversations(m1, m2) && m2 == m1
                    }
                    &&& noticed_if(changed, m2, m3, w, topic_text(t@), now, cmds)
                    &&& sidebar_dropped(m3, after)
                }
        },
        None => after == before && cmds.len() == 0,
    }
}

/// The model after group number `group` reported the user joined (and
/// maybe a role): for a known number the window is opened and the role
/// recorded.
pub open spec fn group_joined(before: Model, after: Model, group: u32, role: Option<GroupRole>) -> bool {
    match lookup(before.session.group_numbers@, group) {
        Some(chat_id) => {
            let w = WindowId::Group(chat_id);
            exists|m1: Model|
                #![trigger conversation_ensured(before, m1, w, numbered_name("Group"@, before.session.group_numbers@, chat_id))]
                {
                    &&& conversation_ensured(before, m1, w, numbered_name("Group"@, before.session.group_numbers@, chat_id))
                    &&& match role {
                        Some(r) => only_conversations(m1, after) && conv_replaced(
                            m1.domain.conversations@,
                            after.domain.conversations@,
                            key_pos(m1.domain.conversations@, w),
                            Conversation { self_role: Some(r), ..conv_of(m1, w) },
                        ),
                        None => after == m1,
                    }
                }
        },
        None => after == before,
    }
}

/// Room for a message stays while the number and the window states stay.
proof fn lemma_room_kept(a: Model, b: Model)
    requires
        room_for_message(a),
        b.domain.next_internal_id == a.domain.next_internal_id,
        b.ui.window_state == a.ui.window_state,
    ensures
        room_for_message(b),
{
}

/// Whether system messages of `kind` are shown.
fn kind_enabled(kinds: &Vec<SystemMessageType>, kind: SystemMessageType) -> (r: bool)
    ensures
        r == kinds@.contains(kind),
{
    let mut i: usize = 0;
    while i < kinds.len()
        invariant
            i <= kinds@.len(),
            forall|j: int| 0 <= j < i ==> kinds@[j] != kind,
        decreases kinds@.len() - i,
    {
        if kinds[i] == kind {
            assert(kinds@[i as int] == kind);
            return true;
        }
        i = i + 1;
    }
    false
}

/// The view of a text, as the notice of a conversation holds it.
fn text_content(t: String) -> (c: MessageContent)
    ensures
        content_view(c) == ContentView::Text(t@),
{
    MessageContent::Text(t)
}

impl Model {
    /// Replaces the topic of conversation `k`.
    pub(crate) fn set_topic(&mut self, k: usize, topic: Option<String>)
        requires
            old(self).wf(),
            k < old(self).domain.conversations@.len(),
        ensures
            final(self).wf(),
            only_conversations(*old(self), *final(self)),
            conv_replaced(
                old(self).domain.conversations@,
                final(self).domain.conversations@,
                k as int,
                Conversation { topic: topic, ..old(self).domain.conversations@[k as int].1 },
            ),
    {
        let ghost before = self.domain.conversations@;
        self.domain.conversations[k].1.topic = topic;
        proof {
            assert(self.domain.conversations@ =~= before.update(
                k as int,
                (before[k as int].0, Conversation { topic: topic, ..before[k as int].1 }),
            ));
            lemma_same_keys(before, self.domain.conversations@);
        }
    }

    /// Replaces the user's role in conversation `k`.
    pub(crate) fn set_self_role(&mut self, k: usize, role: Option<GroupRole>)
        requires
            old(self).wf(),
            k < old(self).domain.conversations@.len(),
        ensures
            final(self).wf(),
            only_conversations(*old(self), *final(self)),
            conv_replaced(
                old(self).domain.conversations@,
                final(self).domain.conversations@,
                k as int,
                Conversation { self_role: role, ..old(self).domain.conversations@[k as int].1 },
            ),
    {
        let ghost before = self.domain.conversations@;
        self.domain.conversations[k].1.self_role = role;
        proof {
            assert(self.domain.conversations@ =~= before.update(
                k as int,
                (before[k as int].0, Conversation { self_role: role, ..before[k as int].1 }),
            ));
            lemma_same_keys(before, self.domain.conversations@);
        }
    }

    /// Adds a notice with `text` to window `w` and asks to log it.
    fn notice(&mut self, w: WindowId, text: String, now: Timestamp) -> (cmds: Vec<Cmd>)
        requires
            old(self).wf(),
            room_for_message(*old(self)),
        ensures
            final(self).wf(),
            noticed_if(true, *old(self), *final(self), w, text@, now, cmds@),
    {
        proof {
            lemma_room(*self, w);
        }
        let r = self.add_system_message_to(w, ConsoleMessageType::Info, text_content(text), now);
        log_request(w, r)
    }

    /// Opens (and, if new, shows) the window of conference number
    /// `conference`, recorded with id `id`.
    fn on_conference_created(&mut self, conference: u32, id: ConferenceId)
        requires
            old(self).wf(),
        ensures
            final(self).wf(),
            conference_created(*old(self), *final(self), conference, id),
    {
        proof {
            lemma_numbers_concrete_eq();
            lemma_keys_concrete_eq();
        }
        let ghost m0 = *self;
        let w = WindowId::Conference(id);
        map_put(&mut self.session.conference_numbers, conference, id);
        let ghost m1 = *self;
        let is_new = self.conv_index(w).is_none();
        self.ensure_conference_window(id);
        let ghost m2 = *self;
        if is_new {
            proof {
                lemma_first_index(self.ui.window_ids@, w);
            }
            match position_of(&self.ui.window_ids, &w) {
                Some(pos) => self.set_active_window(pos),
                None => {},
            }
        }
        let ghost m3 = *self;
        self.invalidate_sidebar_cache();
        proof {
            lemma_first_index(m2.ui.window_ids@, w);
            if is_new {
                assert(m2.ui.window_ids@.contains(w)) by {
                    if !m1.ui.window_ids@.contains(w) {
                        assert(m2.ui.window_ids@[m1.ui.window_ids@.len() as int] == w);
                    }
                };
            }
            assert(shown_if_new(m0, m2, m3, w));
            assert(only_conference_numbers(m0, m1));
        }
    }

    /// Records the topic group number `group` reported, announcing a
    /// change in its window.
    fn on_group_topic(&mut self, group: u32, t: String, now: Timestamp) -> (cmds: Vec<Cmd>)
        requires
            old(self).wf(),
            room_for_message(*old(self)),
        ensures
            final(self).wf(),
            group_topic_set(*old(self), *final(self), group, t, now, cmds@),
    {
        proof {
            lemma_numbers_concrete_eq();
        }
        match map_get(&self.session.group_numbers, &group) {
            Some(chat_id) => {
                let w = WindowId::Group(chat_id);
                self.ensure_group_window(chat_id);
                let ghost m1 = *self;
                let k = match self.conv_index(w) {
                    Some(k) => k,
                    None => {
                        proof {
                            lemma_key_pos(m1.domain.conversations@, w);
                            assert(m1.domain.conversations@.last().0 == w);
                        }
                        return Vec::new();
                    },
                };
                let changed = match &self.domain.conversations[k].1.topic {
                    Some(x) => !(*x == t),
                    None => true,
                };
                if changed {
                    self.set_topic(k, Some(t.clone()));
                    let ghost m2 = *self;
                    let mut cs = str_chars("* Topic changed to: ");
                    push_all(&mut cs, str_chars(t.as_str()).as_slice());
                    proof {
                        lemma_room_kept(*old(self), m2);
                    }
                    let cmds = self.notice(w, string_from_chars(cs.as_slice()), now);
                    proof {
                        assert(only_conversations(m1, m2));
                    }
                    cmds
                } else {
                    proof {
                        assert(only_conversations(m1, m1));
                    }
                    Vec::new()
                }
            },
            None => Vec::new(),
        }
    }
}


impl Model {
    /// Records the name group number `group` reported and, if name changes
    /// are shown, announces a change in its window.
    fn on_group_name(&mut self, group: u32, n: String, now: Timestamp) -> (cmds: Vec<Cmd>)
        requires
            old(self).wf(),
            room_for_message(*old(self)),
        ensures
            final(self).wf(),
            group_name_set(*old(self), *final(self), group, n, now, cmds@),
    {
        proof {
            lemma_numbers_concrete_eq();
        }
        match map_get(&self.session.group_numbers, &group) {
            Some(chat_id) => {
                let w = WindowId::Group(chat_id);
                self.ensure_group_window(chat_id);
                let ghost m1 = *self;
                let k = match self.conv_index(w) {
                    Some(k) => k,
                    None => {
                        proof {
                            lemma_key_pos(m1.domain.conversations@, w);
                            assert(m1.domain.conversations@.last().0 == w);
                        }
                        return Vec::new();
                    },
                };
                let changed = n.as_str().unicode_len() > 0 && !(self.domain.conversations[k].1.name == n);
                if changed {
                    self.rename_conversation(k, n.clone());
                }
                let ghost m2 = *self;
                proof {
                    assert(only_conversations(m1, m2));
                    lemma_room_kept(*old(self), m2);
                }
                let shown = kind_enabled(&self.config.enabled_system_messages, SystemMessageType::NickChange);
                let cmds = if changed && shown {
                    let mut cs = str_chars("* Group name changed to: ");
                    push_all(&mut cs, str_chars(n.as_str()).as_slice());
                    self.notice(w, string_from_chars(cs.as_slice()), now)
                } else {
                    Vec::new()
                };
                let ghost m3 = *self;
                self.invalidate_sidebar_cache();
                proof {
                    assert(sidebar_dropped(m3, *self));
                }
                cmds
            },
            None => Vec::new(),
        }
    }

    /// Records the title conference number `conference` reported as its
    /// topic (and name, unless empty), announcing a change in its window.
    fn on_conference_title(&mut self, conference: u32, t: String, now: Timestamp) -> (cmds: Vec<Cmd>)
        requires
            old(self).wf(),
            room_for_message(*old(self)),
        ensures
            final(self).wf(),
            conference_title_set(*old(self), *final(self), conference, t, now, cmds@),
    {
        proof {
            lemma_numbers_concrete_eq();
        }
        match map_get(&self.session.conference_numbers, &conference) {
            Some(id) => {
                let w = WindowId::Conference(id);
                self.ensure_conference_window(id);
                let ghost m1 = *self;
                let k = match self.conv_index(w) {
                    Some(k) => k,
                    None => {
                        proof {
                            lemma_key_pos(m1.domain.conversations@, w);
                            assert(m1.domain.conversations@.last().0 == w);
                        }
                        return Vec::new();
                    },
                };
                let changed = match &self.domain.conversations[k].1.topic {
                    Some(x) => !(*x == t),
                    None => true,
                };
                let cmds = if changed {
                    if t.as_str().unicode_len() > 0 {
                        self.rename_conversation(k, t.clone());
                    }
                    self.set_topic(k, Some(t.clone()));
                    let ghost m2 = *self;
                    proof {
                        assert(only_conversations(m1, m2));
                        lemma_room_kept(*old(self), m2);
                        let c = conv_of(m1, w);
                        if t@.len() > 0 {
                            assert(m2.domain.conversations@ =~= m1.domain.conversations@.update(
                                k as int,
                                (w, Conversation { name: t, topic: Some(t), ..c }),
                            ));
                        }
                    }
                    let mut cs = str_chars("* Topic changed to: ");
                    push_all(&mut cs, str_chars(t.as_str()).as_slice());
                    self.notice(w, string_from_chars(cs.as_slice()), now)
                } else {
                    proof {
                        assert(only_conversations(m1, m1));
                    }
                    Vec::new()
                };
                let ghost m3 = *self;
                self.invalidate_sidebar_cache();
                proof {
                    assert(sidebar_dropped(m3, *self));
                }
                cmds
            },
            None => Vec::new(),
        }
    }

    /// Opens the window of group number `group`, recording the user's role
    /// in it when one is reported.
    fn on_group_joined(&mut self, group: u32, role: Option<GroupRole>)
        requires
            old(self).wf(),
        ensures
            final(self).wf(),
            group_joined(*old(self), *final(self), group, role),
    {
        proof {
            lemma_numbers_concrete_eq();
        }
        match map_get(&self.session.group_numbers, &group) {
            Some(chat_id) => {
                let w = WindowId::Group(chat_id);
                self.ensure_group_window(chat_id);
                let ghost m1 = *self;
                match role {
                    Some(r) => {
                        match self.conv_index(w) {
                            Some(k) => self.set_self_role(k, Some(r)),
                            None => {
                                proof {
                                    lemma_key_pos(m1.domain.conversations@, w);
                                    assert(m1.domain.conversations@.last().0 == w);
                                }
                            },
                        }
                    },
                    None => {},
                }
            },
            None => {},
        }
    }
}


/// The index of the first member of `peers` with key `pk`, or -1.
pub open spec fn peer_pos(peers: Seq<PeerInfo>, pk: PublicKey) -> int
    decreases peers.len(),
{
    if peers.len() == 0 {
        -1
    } else {
        let before = peer_pos(peers.drop_last(), pk);
        if before >= 0 {
            before
        } else if peers.last().id == pk {
            peers.len() - 1
        } else {
            -1
        }
    }
}

pub(crate) proof fn lemma_peer_pos(peers: Seq<PeerInfo>, pk: PublicKey)
    ensures
        -1 <= peer_pos(peers, pk) < peers.len(),
        peer_pos(peers, pk) >= 0 ==> peers[peer_pos(peers, pk)].id == pk,
        forall|j: int| 0 <= j < peers.len() && j < peer_pos(peers, pk) ==> peers[j].id != pk,
        peer_pos(peers, pk) == -1 ==> forall|j: int| 0 <= j < peers.len() ==> peers[j].id != pk,
    decreases peers.len(),
{
    if peers.len() > 0 {
        lemma_peer_pos(peers.drop_last(), pk);
        assert forall|j: int| 0 <= j < peers.len() - 1 implies peers.drop_last()[j] == peers[j] by {};
    }
}

/// The members without those with key `pk`, in order.
pub open spec fn without_peer(peers: Seq<PeerInfo>, pk: PublicKey) -> Seq<PeerInfo>
    decreases peers.len(),
{
    if peers.len() == 0 {
        Seq::empty()
    } else {
        let rest = without_peer(peers.drop_last(), pk);
        if peers.last().id == pk {
            rest
        } else {
            rest.push(peers.last())
        }
    }
}

/// The members after `pk` joined as `name` with `role` (ignored or not):
/// its entry updated and seen, or a new entry at the end.
pub open spec fn peer_joined(
    peers: Seq<PeerInfo>,
    pk: PublicKey,
    name: String,
    role: Option<GroupRole>,
    ignored: bool,
) -> Seq<PeerInfo> {
    let j = peer_pos(peers, pk);
    if j >= 0 {
        peers.update(j, PeerInfo { name: name, role: role, is_ignored: ignored, seen_online: true, ..peers[j] })
    } else {
        peers.push(
            PeerInfo {
                id: pk,
                name: name,
                role: role,
                status: UserStatus::Available,
                is_ignored: ignored,
                seen_online: true,
            },
        )
    }
}

/// The model with the members of `w`'s conversation replaced by `peers`.
pub open spec fn peers_set(before: Model, after: Model, w: WindowId, peers: Seq<PeerInfo>) -> bool {
    let k = key_pos(before.domain.conversations@, w);
    let c = after.domain.conversations@[k].1;
    &&& k >= 0
    &&& only_conversations(before, after)
    &&& conv_replaced(
        before.domain.conversations@,
        after.domain.conversations@,
        k,
        Conversation { peers: c.peers, ..conv_of(before, w) },
    )
    &&& c.peers@ == peers
}

/// The notice after a member joined a group.
pub open spec fn joined_text(n: Seq<char>) -> Seq<char> {
    "* "@ + n + " joined the group"@
}

/// The notice after a member left a group.
pub open spec fn left_text(n: Seq<char>) -> Seq<char> {
    "* "@ + n + " left the group"@
}

/// The notice after a member's name changed.
pub open spec fn renamed_text(old_name: Seq<char>, n: Seq<char>) -> Seq<char> {
    "* "@ + old_name + " is now known as "@ + n
}

/// The model with only the session numbers of group members replaced.
pub open spec fn only_peer_numbers(before: Model, after: Model) -> bool {
    after == (Model {
        session: SessionState { group_peer_numbers: after.session.group_peer_numbers, ..before.session },
        ..before
    })
}

/// The model and requests after member `peer` of group number `group`
/// joined as `name` with `role` and key `pk`: nothing for the user's own
/// key; otherwise the member's number recorded and, for a known group, the
/// join announced (if joins are shown) and the member recorded as seen.
pub open spec fn group_peer_joined(
    before: Model,
    after: Model,
    group: u32,
    peer: u32,
    name: String,
    role: GroupRole,
    pk: PublicKey,
    now: Timestamp,
    cmds: Seq<Cmd>,
) -> bool {
    let numbers = put(before.session.group_peer_numbers@, (group, peer), pk);
    let shown = before.config.enabled_system_messages@.contains(SystemMessageType::Join);
    if pk == before.domain.self_public_key {
        after == before && cmds.len() == 0
    } else {
        match lookup(before.session.group_numbers@, group) {
            Some(chat_id) => {
                let w = WindowId::Group(chat_id);
                exists|m1: Model, m2: Model|
                    #![trigger only_peer_numbers(before, m1), noticed_if(shown, m1, m2, w, joined_text(name@), now, cmds)]
                    {
                        &&& only_peer_numbers(before, m1)
                        &&& m1.session.group_peer_numbers@ == numbers
                        &&& noticed_if(shown, m1, m2, w, joined_text(name@), now, cmds)
                        &&& if key_pos(m2.domain.conversations@, w) >= 0 {
                            let c = conv_of(m2, w);
                            peers_set(
                                m2,
                                after,
                                w,
                                peer_joined(c.peers@, pk, name, Some(role), c.ignored_peers@.contains(pk)),
                            )
                        } else {
                            after == m2
                        }
                    }
            },
            None => only_peer_numbers(before, after) && after.session.group_peer_numbers@ == numbers && cmds.len()
                == 0,
        }
    }
}

/// A copy of a member.
pub(crate) fn copy_peer(p: &PeerInfo) -> (r: PeerInfo)
    ensures
        r == *p,
{
    PeerInfo {
        id: p.id,
        name: p.name.clone(),
        role: p.role,
        status: p.status,
        is_ignored: p.is_ignored,
        seen_online: p.seen_online,
    }
}

/// A copy of the members.
fn copy_peers(peers: &Vec<PeerInfo>) -> (r: Vec<PeerInfo>)
    ensures
        r@ == peers@,
{
    let mut r: Vec<PeerInfo> = Vec::new();
    let mut i: usize = 0;
    while i < peers.len()
        invariant
            i <= peers@.len(),
            r@ == peers@.take(i as int),
        decreases peers@.len() - i,
    {
        r.push(copy_peer(&peers[i]));
        assert(r@ =~= peers@.take(i as int + 1));
        i = i + 1;
    }
    assert(peers@.take(peers@.len() as int) =~= peers@);
    r
}

/// The position of the first member with key `pk`.
fn find_peer(peers: &Vec<PeerInfo>, pk: &PublicKey) -> (r: Option<usize>)
    ensures
        match r {
            Some(j) => j as int == peer_pos(peers@, *pk) && j < peers@.len(),
            None => peer_pos(peers@, *pk) == -1,
        },
{
    proof {
        lemma_keys_concrete_eq();
        reveal(obeys_concrete_eq);
        lemma_peer_pos(peers@, *pk);
    }
    let mut i: usize = 0;
    while i < peers.len()
        invariant
            i <= peers@.len(),
            forall|j: int| 0 <= j < i ==> peers@[j].id != *pk,
            forall|a: PublicKey, b: PublicKey| a.eq_spec(&b) <==> a == b,
            -1 <= peer_pos(peers@, *pk) < peers@.len(),
            peer_pos(peers@, *pk) >= 0 ==> peers@[peer_pos(peers@, *pk)].id == *pk,
            forall|j: int| 0 <= j < peers@.len() && j < peer_pos(peers@, *pk) ==> peers@[j].id != *pk,
            peer_pos(peers@, *pk) == -1 ==> forall|j: int| 0 <= j < peers@.len() ==> peers@[j].id != *pk,
        decreases peers@.len() - i,
    {
        if peers[i].id == *pk {
            proof {
                assert(peers@[i as int].id == *pk);
                let q = peer_pos(peers@, *pk);
                if q == -1 {
                    assert(peers@[i as int].id != *pk);
                } else if q > i {
                    assert(peers@[i as int].id != *pk);
                } else if q < i {
                    assert(peers@[q].id != *pk);
                }
            }
            return Some(i);
        }
        i = i + 1;
    }
    None
}

/// Whether `pk` is among `keys`.
fn has_key(keys: &Vec<PublicKey>, pk: &PublicKey) -> (r: bool)
    ensures
        r == keys@.contains(*pk),
{
    proof {
        lemma_keys_concrete_eq();
        reveal(obeys_concrete_eq);
    }
    let mut i: usize = 0;
    while i < keys.len()
        invariant
            i <= keys@.len(),
            forall|j: int| 0 <= j < i ==> keys@[j] != *pk,
            forall|a: PublicKey, b: PublicKey| a.eq_spec(&b) <==> a == b,
        decreases keys@.len() - i,
    {
        if keys[i] == *pk {
            assert(keys@[i as int] == *pk);
            return true;
        }
        i = i + 1;
    }
    false
}

/// The members with `pk` joined.
fn join_peer(peers: &Vec<PeerInfo>, pk: PublicKey, name: String, role: Option<GroupRole>, ignored: bool) -> (r: Vec<PeerInfo>)
    ensures
        r@ == peer_joined(peers@, pk, name, role, ignored),
{
    let mut r = copy_peers(peers);
    match find_peer(peers, &pk) {
        Some(j) => {
            let p = PeerInfo {
                id: peers[j].id,
                name,
                role,
                status: peers[j].status,
                is_ignored: ignored,
                seen_online: true,
            };
            r.set(j, p);
        },
        None => {
            r.push(PeerInfo { id: pk, name, role, status: UserStatus::Available, is_ignored: ignored, seen_online: true });
        },
    }
    r
}

/// The members without `pk`.
fn drop_peer(peers: &Vec<PeerInfo>, pk: &PublicKey) -> (r: Vec<PeerInfo>)
    ensures
        r@ == without_peer(peers@, *pk),
{
    proof {
        lemma_keys_concrete_eq();
        reveal(obeys_concrete_eq);
    }
    let mut r: Vec<PeerInfo> = Vec::new();
    let mut i: usize = 0;
    assert(peers@.take(0) =~= Seq::<PeerInfo>::empty());
    while i < peers.len()
        invariant
            i <= peers@.len(),
            r@ == without_peer(peers@.take(i as int), *pk),
            forall|a: PublicKey, b: PublicKey| a.eq_spec(&b) <==> a == b,
        decreases peers@.len() - i,
    {
        assert(peers@.take(i as int + 1).drop_last() =~= peers@.take(i as int));
        if !(peers[i].id == *pk) {
            r.push(copy_peer(&peers[i]));
        }
        i = i + 1;
    }
    assert(peers@.take(peers@.len() as int) =~= peers@);
    r
}

impl Model {
    /// Replaces the members of conversation `k`.
    fn set_peers(&mut self, k: usize, peers: Vec<PeerInfo>)
        requires
            old(self).wf(),
            k < old(self).domain.conversations@.len(),
        ensures
            final(self).wf(),
            peers_set(*old(self), *final(self), old(self).domain.conversations@[k as int].0, peers@),
    {
        let ghost before = self.domain.conversations@;
        let ghost w = before[k as int].0;
        proof {
            crate::domain::lemma_key_pos_unique(before, w, k as int);
        }
        self.domain.conversations[k].1.peers = peers;
        proof {
            let c = self.domain.conversations@[k as int].1;
            assert(self.domain.conversations@ =~= before.update(
                k as int,
                (w, Conversation { peers: c.peers, ..before[k as int].1 }),
            ));
            lemma_same_keys(before, self.domain.conversations@);
        }
    }

    /// Records member `peer` of group number `group` joining as `name`
    /// with `role`, announcing it when joins are shown.
    fn on_group_peer_join(
        &mut self,
        group: u32,
        peer: u32,
        name: String,
        role: GroupRole,
        pk: PublicKey,
        now: Timestamp,
    ) -> (cmds: Vec<Cmd>)
        requires
            old(self).wf(),
            room_for_message(*old(self)),
        ensures
            final(self).wf(),
            group_peer_joined(*old(self), *final(self), group, peer, name, role, pk, now, cmds@),
    {
        proof {
            lemma_keys_concrete_eq();
            lemma_numbers_concrete_eq();
        }
        if pk == self.domain.self_public_key {
            return Vec::new();
        }
        map_put_pair(&mut self.session.group_peer_numbers, (group, peer), pk);
        let ghost m1 = *self;
        proof {
            assert(only_peer_numbers(*old(self), m1));
            lemma_room_kept(*old(self), m1);
        }
        match map_get(&self.session.group_numbers, &group) {
            Some(chat_id) => {
                let w = WindowId::Group(chat_id);
                let shown = kind_enabled(&self.config.enabled_system_messages, SystemMessageType::Join);
                let cmds = if shown {
                    let mut cs = str_chars("* ");
                    push_all(&mut cs, str_chars(name.as_str()).as_slice());
                    push_all(&mut cs, str_chars(" joined the group").as_slice());
                    self.notice(w, string_from_chars(cs.as_slice()), now)
                } else {
                    Vec::new()
                };
                let ghost m2 = *self;
                match self.conv_index(w) {
                    Some(k) => {
                        let ignored = has_key(&self.domain.conversations[k].1.ignored_peers, &pk);
                        let peers = join_peer(&self.domain.conversations[k].1.peers, pk, name, Some(role), ignored);
                        self.set_peers(k, peers);
                    },
                    None => {},
                }
                proof {
                    assert(noticed_if(
                        old(self).config.enabled_system_messages@.contains(SystemMessageType::Join),
                        m1,
                        m2,
                        w,
                        joined_text(name@),
                        now,
                        cmds@,
                    ));
                }
                cmds
            },
            None => Vec::new(),
        }
    }
}

/// Maps the pair `k` to `v` in `m`.
fn map_put_pair(m: &mut Vec<((u32, u32), PublicKey)>, k: (u32, u32), v: PublicKey)
    ensures
        final(m)@ == put(old(m)@, k, v),
{
    proof {
        lemma_key_pos(m@, k);
    }
    match pair_position(m, k) {
        Some(i) => {
            m.set(i, (k, v));
        },
        None => {
            m.push((k, v));
        },
    }
}

/// The position of the first entry under the pair `k`.
fn pair_position(m: &Vec<((u32, u32), PublicKey)>, k: (u32, u32)) -> (r: Option<usize>)
    ensures
        match r {
            Some(i) => i as int == key_pos(m@, k) && i < m@.len(),
            None => key_pos(m@, k) == -1,
        },
{
    proof {
        lemma_key_pos(m@, k);
    }
    let mut i: usize = 0;
    while i < m.len()
        invariant
            i <= m@.len(),
            forall|j: int| 0 <= j < i ==> m@[j].0 != k,
            -1 <= key_pos(m@, k) < m@.len(),
            key_pos(m@, k) >= 0 ==> m@[key_pos(m@, k)].0 == k,
            forall|j: int| 0 <= j < m@.len() && j < key_pos(m@, k) ==> m@[j].0 != k,
            key_pos(m@, k) == -1 ==> forall|j: int| 0 <= j < m@.len() ==> m@[j].0 != k,
        decreases m@.len() - i,
    {
        if m[i].0.0 == k.0 && m[i].0.1 == k.1 {
            return Some(i);
        }
        i = i + 1;
    }
    None
}


/// Whether a notice is due: it is shown and there is a name for it.
pub open spec fn announced(shown: bool, name: Option<Seq<char>>) -> bool {
    shown && name is Some
}

/// `s` without its first entry under `k`.
pub open spec fn remove_key<K, V>(s: Seq<(K, V)>, k: K) -> Seq<(K, V)> {
    if key_pos(s, k) >= 0 {
        s.remove(key_pos(s, k))
    } else {
        s
    }
}

/// The name of member `pk` of `w`'s conversation, if both are known.
pub open spec fn member_name(m: Model, w: WindowId, pk: Option<PublicKey>) -> Option<Seq<char>> {
    match pk {
        Some(pk) => if key_pos(m.domain.conversations@, w) >= 0 && peer_pos(conv_of(m, w).peers@, pk) >= 0 {
            Some(conv_of(m, w).peers@[peer_pos(conv_of(m, w).peers@, pk)].name@)
        } else {
            None
        },
        None => None,
    }
}

/// The model and requests after member `peer` of group number `group`
/// left: its number forgotten and, for a known group, the leave announced
/// (if leaves are shown and the member is known) and the member removed.
pub open spec fn group_peer_left(before: Model, after: Model, group: u32, peer: u32, now: Timestamp, cmds: Seq<Cmd>) -> bool {
    let pk = lookup(before.session.group_peer_numbers@, (group, peer));
    let numbers = remove_key(before.session.group_peer_numbers@, (group, peer));
    let shown = before.config.enabled_system_messages@.contains(SystemMessageType::Leave);
    match lookup(before.session.group_numbers@, group) {
        Some(chat_id) => {
            let w = WindowId::Group(chat_id);
            let name = member_name(before, w, pk);
            exists|m1: Model, m2: Model|
                #![trigger only_peer_numbers(before, m1), noticed_if(announced(shown, name), m1, m2, w, left_text(name->0), now, cmds)]
                {
                    &&& only_peer_numbers(before, m1)
                    &&& m1.session.group_peer_numbers@ == numbers
                    &&& noticed_if(announced(shown, name), m1, m2, w, left_text(name->0), now, cmds)
                    &&& if key_pos(m2.domain.conversations@, w) >= 0 && pk is Some {
                        peers_set(m2, after, w, without_peer(conv_of(m2, w).peers@, pk->0))
                    } else {
                        after == m2
                    }
                }
        },
        None => only_peer_numbers(before, after) && after.session.group_peer_numbers@ == numbers && cmds.len() == 0,
    }
}

/// The members with `pk` renamed to `name`, given `role` and seen.
pub open spec fn peer_renamed(peers: Seq<PeerInfo>, pk: PublicKey, name: String, role: GroupRole) -> Seq<PeerInfo> {
    let j = peer_pos(peers, pk);
    peers.update(j, PeerInfo { name: name, role: Some(role), seen_online: true, ..peers[j] })
}

/// The name the user goes by in conversation `c` of model `m`.
pub open spec fn own_name(m: Model, c: Conversation) -> String {
    match c.self_name {
        Some(n) => n,
        None => m.domain.self_name,
    }
}

/// The model and requests after member `peer` of group number `group`
/// (key `pk`) reported name `name` and `role`: its number recorded and,
/// for a known group, the user's own name and role (for the user's key)
/// or the member's entry updated, a change of name announced when name
/// changes are shown, and the sidebar drawn again.
pub open spec fn group_peer_renamed(
    before: Model,
    after: Model,
    group: u32,
    peer: u32,
    name: String,
    role: GroupRole,
    pk: PublicKey,
    now: Timestamp,
    cmds: Seq<Cmd>,
) -> bool {
    let numbers = put(before.session.group_peer_numbers@, (group, peer), pk);
    let shown = before.config.enabled_system_messages@.contains(SystemMessageType::NickChange);
    match lookup(before.session.group_numbers@, group) {
        Some(chat_id) => {
            let w = WindowId::Group(chat_id);
            exists|m1: Model, m2: Model, m3: Model|
                #![trigger only_peer_numbers(before, m1), noticed_if(announced(shown, previous_name(before, w, pk, name)), m2, m3, w, renamed_text(previous_name(before, w, pk, name)->0, name@), now, cmds)]
                {
                    &&& only_peer_numbers(before, m1)
                    &&& m1.session.group_peer_numbers@ == numbers
                    &&& renamed_in(before, m1, m2, w, pk, name, role)
                    &&& noticed_if(
                        announced(shown, previous_name(before, w, pk, name)),
                        m2,
                        m3,
                        w,
                        renamed_text(previous_name(before, w, pk, name)->0, name@),
                        now,
                        cmds,
                    )
                    &&& sidebar_dropped(m3, after)
                }
        },
        None => only_peer_numbers(before, after) && after.session.group_peer_numbers@ == numbers && cmds.len() == 0,
    }
}

/// The name that member `pk` of `w`'s conversation (the user, for the
/// user's key) had before being reported as `name`, if it differs.
pub open spec fn previous_name(m: Model, w: WindowId, pk: PublicKey, name: String) -> Option<Seq<char>> {
    let c = conv_of(m, w);
    let j = peer_pos(c.peers@, pk);
    if key_pos(m.domain.conversations@, w) < 0 {
        None
    } else if pk == m.domain.self_public_key {
        if own_name(m, c)@ != name@ {
            Some(own_name(m, c)@)
        } else {
            None
        }
    } else if j >= 0 && c.peers@[j].name@ != name@ {
        Some(c.peers@[j].name@)
    } else {
        None
    }
}

/// `m2` is `m1` after member `pk` of `w`'s conversation (the user, for the
/// user's key) was reported as `name` with `role`; `before` is the model
/// the report came to.
pub open spec fn renamed_in(
    before: Model,
    m1: Model,
    m2: Model,
    w: WindowId,
    pk: PublicKey,
    name: String,
    role: GroupRole,
) -> bool {
    let c = conv_of(before, w);
    let j = peer_pos(c.peers@, pk);
    if key_pos(before.domain.conversations@, w) < 0 {
        m2 == m1
    } else if pk == before.domain.self_public_key {
        only_conversations(m1, m2) && conv_replaced(
            m1.domain.conversations@,
            m2.domain.conversations@,
            key_pos(m1.domain.conversations@, w),
            Conversation {
                self_name: if previous_name(before, w, pk, name) is Some {
                    Some(name)
                } else {
                    c.self_name
                },
                self_role: Some(role),
                ..c
            },
        )
    } else if j >= 0 {
        peers_set(m1, m2, w, peer_renamed(c.peers@, pk, name, role))
    } else {
        m2 == m1
    }
}

/// The members with `pk`'s status set and seen.
pub open spec fn peer_status_set(peers: Seq<PeerInfo>, pk: PublicKey, status: UserStatus) -> Seq<PeerInfo> {
    let j = peer_pos(peers, pk);
    peers.update(j, PeerInfo { status: status, seen_online: true, ..peers[j] })
}

/// The model after member `peer` of group number `group` reported
/// `status`: the member, if known, updated.
pub open spec fn group_peer_status_set(before: Model, after: Model, group: u32, peer: u32, status: UserStatus) -> bool {
    match (lookup(before.session.group_numbers@, group), lookup(before.session.group_peer_numbers@, (group, peer))) {
        (Some(chat_id), Some(pk)) => {
            let w = WindowId::Group(chat_id);
            if key_pos(before.domain.conversations@, w) >= 0 && peer_pos(conv_of(before, w).peers@, pk) >= 0 {
                peers_set(before, after, w, peer_status_set(conv_of(before, w).peers@, pk, status))
            } else {
                after == before
            }
        },
        _ => after == before,
    }
}

/// The members after `pk` joined a conference as `name`: its entry
/// renamed and seen, or a new entry at the end.
pub open spec fn conference_peer_joined(peers: Seq<PeerInfo>, pk: PublicKey, name: String) -> Seq<PeerInfo> {
    let j = peer_pos(peers, pk);
    if j >= 0 {
        peers.update(j, PeerInfo { name: name, seen_online: true, ..peers[j] })
    } else {
        peers.push(
            PeerInfo {
                id: pk,
                name: name,
                role: None,
                status: UserStatus::Available,
                is_ignored: false,
                seen_online: true,
            },
        )
    }
}

/// The model after a change to the members of conference number
/// `conference`: `f` of them, when the number and the conversation are
/// known (and `applies` of the members holds).
pub open spec fn conference_peers_changed(
    before: Model,
    after: Model,
    conference: u32,
    f: spec_fn(Seq<PeerInfo>) -> Seq<PeerInfo>,
    applies: spec_fn(Seq<PeerInfo>) -> bool,
) -> bool {
    match lookup(before.session.conference_numbers@, conference) {
        Some(id) => {
            let w = WindowId::Conference(id);
            if key_pos(before.domain.conversations@, w) >= 0 && applies(conv_of(before, w).peers@) {
                peers_set(before, after, w, f(conv_of(before, w).peers@))
            } else {
                after == before
            }
        },
        None => after == before,
    }
}

/// Removes the first entry under the pair `k` and gives its value.
fn map_remove_pair(m: &mut Vec<((u32, u32), PublicKey)>, k: (u32, u32)) -> (r: Option<PublicKey>)
    ensures
        r == lookup(old(m)@, k),
        final(m)@ == remove_key(old(m)@, k),
{
    proof {
        lemma_key_pos(m@, k);
    }
    match pair_position(m, k) {
        Some(i) => {
            let e = m.remove(i);
            Some(e.1)
        },
        None => None,
    }
}

/// The value under the pair `k`.
fn map_get_pair(m: &Vec<((u32, u32), PublicKey)>, k: (u32, u32)) -> (r: Option<PublicKey>)
    ensures
        r == lookup(m@, k),
{
    proof {
        lemma_key_pos(m@, k);
    }
    match pair_position(m, k) {
        Some(i) => Some(m[i].1),
        None => None,
    }
}

impl Model {
    /// The name of member `pk` of conversation `w`.
    fn member_name_of(&self, w: WindowId, pk: Option<PublicKey>) -> (r: Option<String>)
        ensures
            match r {
                Some(n) => member_name(*self, w, pk) == Some(n@),
                None => member_name(*self, w, pk) is None,
            },
    {
        match pk {
            Some(pk) => match self.conv_index(w) {
                Some(k) => match find_peer(&self.domain.conversations[k].1.peers, &pk) {
                    Some(j) => Some(self.domain.conversations[k].1.peers[j].name.clone()),
                    None => None,
                },
                None => None,
            },
            None => None,
        }
    }

    /// Forgets member `peer` of group number `group`, announcing the leave
    /// when leaves are shown.
    fn on_group_peer_leave(&mut self, group: u32, peer: u32, now: Timestamp) -> (cmds: Vec<Cmd>)
        requires
            old(self).wf(),
            room_for_message(*old(self)),
        ensures
            final(self).wf(),
            group_peer_left(*old(self), *final(self), group, peer, now, cmds@),
    {
        proof {
            lemma_numbers_concrete_eq();
        }
        let pk = map_remove_pair(&mut self.session.group_peer_numbers, (group, peer));
        let ghost m1 = *self;
        proof {
            assert(only_peer_numbers(*old(self), m1));
            lemma_room_kept(*old(self), m1);
        }
        match map_get(&self.session.group_numbers, &group) {
            Some(chat_id) => {
                let w = WindowId::Group(chat_id);
                let name = self.member_name_of(w, pk);
                let shown = kind_enabled(&self.config.enabled_system_messages, SystemMessageType::Leave);
                let cmds = match name {
                    Some(n) => if shown {
                        let mut cs = str_chars("* ");
                        push_all(&mut cs, str_chars(n.as_str()).as_slice());
                        push_all(&mut cs, str_chars(" left the group").as_slice());
                        self.notice(w, string_from_chars(cs.as_slice()), now)
                    } else {
                        Vec::new()
                    },
                    None => Vec::new(),
                };
                let ghost m2 = *self;
                proof {
                    assert(member_name(*old(self), w, pk) == member_name(m1, w, pk));
                    assert(noticed_if(
                        announced(
                            old(self).config.enabled_system_messages@.contains(SystemMessageType::Leave),
                            member_name(*old(self), w, pk),
                        ),
                        m1,
                        m2,
                        w,
                        left_text(member_name(*old(self), w, pk)->0),
                        now,
                        cmds@,
                    ));
                }
                match pk {
                    Some(pk) => match self.conv_index(w) {
                        Some(k) => {
                            let peers = drop_peer(&self.domain.conversations[k].1.peers, &pk);
                            self.set_peers(k, peers);
                        },
                        None => {},
                    },
                    None => {},
                }
                cmds
            },
            None => Vec::new(),
        }
    }

    /// Records the name and role member `peer` (key `pk`) of group number
    /// `group` reported, announcing a change of name when name changes are
    /// shown.
    fn on_group_peer_name(
        &mut self,
        group: u32,
        peer: u32,
        name: String,
        role: GroupRole,
        pk: PublicKey,
        now: Timestamp,
    ) -> (cmds: Vec<Cmd>)
        requires
            old(self).wf(),
            room_for_message(*old(self)),
        ensures
            final(self).wf(),
            group_peer_renamed(*old(self), *final(self), group, peer, name, role, pk, now, cmds@),
    {
        proof {
            lemma_numbers_concrete_eq();
            lemma_keys_concrete_eq();
        }
        map_put_pair(&mut self.session.group_peer_numbers, (group, peer), pk);
        let ghost m1 = *self;
        proof {
            assert(only_peer_numbers(*old(self), m1));
            lemma_room_kept(*old(self), m1);
        }
        match map_get(&self.session.group_numbers, &group) {
            Some(chat_id) => {
                let w = WindowId::Group(chat_id);
                let mut old_name: Option<String> = None;
                match self.conv_index(w) {
                    Some(k) => {
                        if pk == self.domain.self_public_key {
                            let current = match &self.domain.conversations[k].1.self_name {
                                Some(n) => n.clone(),
                                None => self.domain.self_name.clone(),
                            };
                            let changed = !(current == name);
                            let new_self_name = if changed {
                                old_name = Some(current);
                                Some(name.clone())
                            } else {
                                match &self.domain.conversations[k].1.self_name {
                                    Some(n) => Some(n.clone()),
                                    None => None,
                                }
                            };
                            let ghost before = self.domain.conversations@;
                            self.domain.conversations[k].1.self_name = new_self_name;
                            self.domain.conversations[k].1.self_role = Some(role);
                            proof {
                                let c = before[k as int].1;
                                assert(self.domain.conversations@ =~= before.update(
                                    k as int,
                                    (w, Conversation { self_name: new_self_name, self_role: Some(role), ..c }),
                                ));
                                lemma_same_keys(before, self.domain.conversations@);
                            }
                        } else {
                            match find_peer(&self.domain.conversations[k].1.peers, &pk) {
                                Some(j) => {
                                    let mut peers = copy_peers(&self.domain.conversations[k].1.peers);
                                    let p = &self.domain.conversations[k].1.peers[j];
                                    if !(p.name == name) {
                                        old_name = Some(p.name.clone());
                                    }
                                    let np = PeerInfo {
                                        id: p.id,
                                        name: name.clone(),
                                        role: Some(role),
                                        status: p.status,
                                        is_ignored: p.is_ignored,
                                        seen_online: true,
                                    };
                                    peers.set(j, np);
                                    self.set_peers(k, peers);
                                },
                                None => {},
                            }
                        }
                    },
                    None => {},
                }
                let ghost m2 = *self;
                proof {
                    lemma_room_kept(*old(self), m2);
                    assert(conv_of(m1, w) == conv_of(*old(self), w));
                    assert(renamed_in(*old(self), m1, m2, w, pk, name, role));
                    assert(match old_name {
                        Some(o) => previous_name(*old(self), w, pk, name) == Some(o@),
                        None => previous_name(*old(self), w, pk, name) is None,
                    });
                }
                let shown = kind_enabled(&self.config.enabled_system_messages, SystemMessageType::NickChange);
                let cmds = match old_name {
                    Some(o) => if shown {
                        let mut cs = str_chars("* ");
                        push_all(&mut cs, str_chars(o.as_str()).as_slice());
                        push_all(&mut cs, str_chars(" is now known as ").as_slice());
                        push_all(&mut cs, str_chars(name.as_str()).as_slice());
                        self.notice(w, string_from_chars(cs.as_slice()), now)
                    } else {
                        Vec::new()
                    },
                    None => Vec::new(),
                };
                let ghost m3 = *self;
                self.invalidate_sidebar_cache();
                proof {
                    assert(sidebar_dropped(m3, *self));
                    assert(noticed_if(
                        announced(
                            old(self).config.enabled_system_messages@.contains(SystemMessageType::NickChange),
                            previous_name(*old(self), w, pk, name),
                        ),
                        m2,
                        m3,
                        w,
                        renamed_text(previous_name(*old(self), w, pk, name)->0, name@),
                        now,
                        cmds@,
                    ));
                }
                cmds
            },
            None => Vec::new(),
        }
    }

    /// Records the status member `peer` of group number `group` reported.
    fn on_group_peer_status(&mut self, group: u32, peer: u32, status: UserStatus)
        requires
            old(self).wf(),
        ensures
            final(self).wf(),
            group_peer_status_set(*old(self), *final(self), group, peer, status),
    {
        proof {
            lemma_numbers_concrete_eq();
        }
        let pk = map_get_pair(&self.session.group_peer_numbers, (group, peer));
        match (map_get(&self.session.group_numbers, &group), pk) {
            (Some(chat_id), Some(pk)) => {
                let w = WindowId::Group(chat_id);
                match self.conv_index(w) {
                    Some(k) => match find_peer(&self.domain.conversations[k].1.peers, &pk) {
                        Some(j) => {
                            let mut peers = copy_peers(&self.domain.conversations[k].1.peers);
                            let p = &self.domain.conversations[k].1.peers[j];
                            let np = PeerInfo {
                                id: p.id,
                                name: p.name.clone(),
                                role: p.role,
                                status,
                                is_ignored: p.is_ignored,
                                seen_online: true,
                            };
                            peers.set(j, np);
                            self.set_peers(k, peers);
                        },
                        None => {},
                    },
                    None => {},
                }
            },
            _ => {},
        }
    }

    /// Records member `pk` joining conference number `conference` as
    /// `name`, unless it is the user.
    fn on_conference_peer_join(&mut self, conference: u32, name: String, pk: PublicKey)
        requires
            old(self).wf(),
        ensures
            final(self).wf(),
            pk == old(self).domain.self_public_key ==> *final(self) == *old(self),
            pk != old(self).domain.self_public_key ==> conference_peers_changed(
                *old(self),
                *final(self),
                conference,
                |ps: Seq<PeerInfo>| conference_peer_joined(ps, pk, name),
                |ps: Seq<PeerInfo>| true,
            ),
    {
        proof {
            lemma_numbers_concrete_eq();
            lemma_keys_concrete_eq();
        }
        if pk == self.domain.self_public_key {
            return;
        }
        match map_get(&self.session.conference_numbers, &conference) {
            Some(id) => match self.conv_index(WindowId::Conference(id)) {
                Some(k) => {
                    let mut peers = copy_peers(&self.domain.conversations[k].1.peers);
                    match find_peer(&self.domain.conversations[k].1.peers, &pk) {
                        Some(j) => {
                            let p = &self.domain.conversations[k].1.peers[j];
                            let np = PeerInfo {
                                id: p.id,
                                name,
                                role: p.role,
                                status: p.status,
                                is_ignored: p.is_ignored,
                                seen_online: true,
                            };
                            peers.set(j, np);
                        },
                        None => {
                            peers.push(
                                PeerInfo {
                                    id: pk,
                                    name,
                                    role: None,
                                    status: UserStatus::Available,
                                    is_ignored: false,
                                    seen_online: true,
                                },
                            );
                        },
                    }
                    self.set_peers(k, peers);
                },
                None => {},
            },
            None => {},
        }
    }

    /// Removes member `pk` from conference number `conference`.
    fn on_conference_peer_leave(&mut self, conference: u32, pk: PublicKey)
        requires
            old(self).wf(),
        ensures
            final(self).wf(),
            conference_peers_changed(
                *old(self),
                *final(self),
                conference,
                |ps: Seq<PeerInfo>| without_peer(ps, pk),
                |ps: Seq<PeerInfo>| true,
            ),
    {
        proof {
            lemma_numbers_concrete_eq();
        }
        match map_get(&self.session.conference_numbers, &conference) {
            Some(id) => match self.conv_index(WindowId::Conference(id)) {
                Some(k) => {
                    let peers = drop_peer(&self.domain.conversations[k].1.peers, &pk);
                    self.set_peers(k, peers);
                },
                None => {},
            },
            None => {},
        }
    }

    /// Records the new name of member `pk` of conference number
    /// `conference`, if it is a member.
    fn on_conference_peer_name(&mut self, conference: u32, name: String, pk: PublicKey)
        requires
            old(self).wf(),
        ensures
            final(self).wf(),
            conference_peers_changed(
                *old(self),
                *final(self),
                conference,
                |ps: Seq<PeerInfo>| ps.update(peer_pos(ps, pk), PeerInfo { name: name, seen_online: true, ..ps[peer_pos(ps, pk)] }),
                |ps: Seq<PeerInfo>| peer_pos(ps, pk) >= 0,
            ),
    {
        proof {
            lemma_numbers_concrete_eq();
        }
        match map_get(&self.session.conference_numbers, &conference) {
            Some(id) => match self.conv_index(WindowId::Conference(id)) {
                Some(k) => match find_peer(&self.domain.conversations[k].1.peers, &pk) {
                    Some(j) => {
                        let mut peers = copy_peers(&self.domain.conversations[k].1.peers);
                        let p = &self.domain.conversations[k].1.peers[j];
                        let np = PeerInfo {
                            id: p.id,
                            name,
                            role: p.role,
                            status: p.status,
                            is_ignored: p.is_ignored,
                            seen_online: true,
                        };
                        peers.set(j, np);
                        self.set_peers(k, peers);
                    },
                    None => {},
                },
                None => {},
            },
            None => {},
        }
    }
}


/// The console line of a transfer of a kind other than a plain file.
pub open spec fn ignored_file_text(kind: u32, friend: u32, filename: Seq<char>) -> Seq<char> {
    "Ignored file transfer of kind "@ + dec(kind as nat) + " from friend "@ + dec(friend as nat) + ": "@ + filename
}

/// The console line of a file offer.
pub open spec fn file_offer_text(friend: u32, filename: Seq<char>, size: u64) -> Seq<char> {
    "File offer from friend "@ + dec(friend as nat) + ": "@ + filename + " ("@ + dec(size as nat) + " bytes)"@
}

/// The console line of a file offer from an unknown contact number.
pub open spec fn unknown_sender_text(friend: u32) -> Seq<char> {
    "Received file from friend "@ + dec(friend as nat)
        + " but public key not found. Transfer tracking might fail."@
}

/// The console line of a file control from the other side.
pub open spec fn file_control_line(friend: u32, file: FileId, control: FileControl) -> Seq<char> {
    "File control from "@ + dec(friend as nat) + ": ID "@ + crate::utils::hex_encoding(file.0@) + ", "@
        + file_control_text(control)
}

/// The model with only its file transfers replaced.
pub open spec fn only_transfers(before: Model, after: Model) -> bool {
    after == (Model {
        domain: DomainState { file_transfers: after.domain.file_transfers, ..before.domain },
        ..before
    })
}

/// A transfer offered by contact `pk`, not started yet.
pub open spec fn offered(filename: String, size: u64, kind: u32, pk: PublicKey) -> FileTransferProgress {
    FileTransferProgress {
        filename: filename,
        total_size: size,
        transferred: 0,
        is_receiving: true,
        status: TransferStatus::Active,
        file_kind: kind,
        file_path: None,
        last_transferred: 0,
        friend_pk: pk,
    }
}

/// The model and requests after contact number `friend` offered file
/// `file` (`kind`, `size` bytes, named `filename`): a transfer of another
/// kind is noted and refused; a file is noted and, from a known contact,
/// recorded and shown in its conversation.
pub open spec fn file_received(
    before: Model,
    after: Model,
    friend: u32,
    file: FileId,
    kind: u32,
    size: u64,
    filename: String,
    now: Timestamp,
    cmds: Seq<Cmd>,
) -> bool {
    let pk = lookup(before.session.friend_numbers@, friend);
    if kind != 0 {
        &&& console_added(before, after, ConsoleMessageType::Info, ignored_file_text(kind, friend, filename@), now)
        &&& cmds == match pk {
            Some(pk) => seq![Cmd::Tox(ToxAction::FileControl(pk, file, FileControl::Cancel))],
            None => Seq::empty(),
        }
    } else {
        match pk {
            Some(pk) => exists|m1: Model, m2: Model|
                #![trigger console_added(before, m1, ConsoleMessageType::Info, file_offer_text(friend, filename@, size), now), only_transfers(m1, m2)]
                {
                    &&& console_added(before, m1, ConsoleMessageType::Info, file_offer_text(friend, filename@, size), now)
                    &&& only_transfers(m1, m2)
                    &&& m2.domain.file_transfers@ == put(m1.domain.file_transfers@, file, offered(filename, size, kind, pk))
                    &&& transfer_added(m2, after, WindowId::Friend(pk), false, file, filename@, size, true, now, logged(cmds))
                    &&& cmds == log_cmds(WindowId::Friend(pk), logged(cmds))
                },
            None => exists|m1: Model|
                #![trigger console_added(before, m1, ConsoleMessageType::Info, file_offer_text(friend, filename@, size), now)]
                {
                    &&& console_added(before, m1, ConsoleMessageType::Info, file_offer_text(friend, filename@, size), now)
                    &&& console_added(m1, after, ConsoleMessageType::Error, unknown_sender_text(friend), now)
                    &&& cmds.len() == 0
                },
        }
    }
}

/// The transfers with the status of `file`, if recorded, set.
pub open spec fn transfer_status_set(
    before: Seq<(FileId, FileTransferProgress)>,
    after: Seq<(FileId, FileTransferProgress)>,
    file: FileId,
    status: TransferStatus,
) -> bool {
    let k = key_pos(before, file);
    if k >= 0 {
        after == before.update(k, (file, FileTransferProgress { status: status, ..before[k].1 }))
    } else {
        after == before
    }
}

/// The model and requests after contact number `friend` sent `control`
/// for transfer `file`: noted; for a known contact, a cancel forgets the
/// transfer, closes its file and marks its message failed, a pause or a
/// resume sets its status.
pub open spec fn file_control_received(
    before: Model,
    after: Model,
    friend: u32,
    file: FileId,
    control: FileControl,
    now: Timestamp,
    cmds: Seq<Cmd>,
) -> bool {
    exists|m1: Model|
        #![trigger console_added(before, m1, ConsoleMessageType::Info, file_control_line(friend, file, control), now)]
        {
            &&& console_added(before, m1, ConsoleMessageType::Info, file_control_line(friend, file, control), now)
            &&& match lookup(before.session.friend_numbers@, friend) {
                Some(pk) => match control {
                    FileControl::Cancel => {
                        let rest = cmds.drop_first();
                        let m2 = Model {
                            domain: DomainState { file_transfers: after.domain.file_transfers, ..m1.domain },
                            ..m1
                        };
                        &&& cmds.len() >= 1
                        &&& cmds[0] == Cmd::IO(IOAction::CloseFile(pk, file))
                        &&& m2.domain.file_transfers@ == remove_key(m1.domain.file_transfers@, file)
                        &&& file_status_marked(m2, after, pk, file, MessageStatus::Failed, logged(rest))
                        &&& rest == log_cmds(WindowId::Friend(pk), logged(rest))
                    },
                    FileControl::Pause => {
                        &&& only_transfers(m1, after)
                        &&& transfer_status_set(
                            m1.domain.file_transfers@,
                            after.domain.file_transfers@,
                            file,
                            TransferStatus::Paused,
                        )
                        &&& cmds.len() == 0
                    },
                    FileControl::Resume => {
                        &&& only_transfers(m1, after)
                        &&& transfer_status_set(
                            m1.domain.file_transfers@,
                            after.domain.file_transfers@,
                            file,
                            TransferStatus::Active,
                        )
                        &&& cmds.len() == 0
                    },
                },
                None => after == m1 && cmds.len() == 0,
            }
        }
}

/// The model and requests after `len` more bytes of transfer `file`
/// from `position` went to contact number `friend`: for a known contact
/// and transfer, the count recorded and shown with `speed`, and the file
/// closed when all is sent.
pub open spec fn chunk_sent(
    before: Model,
    after: Model,
    friend: u32,
    file: FileId,
    position: u64,
    len: usize,
    speed: String,
    cmds: Seq<Cmd>,
) -> bool {
    let ts = before.domain.file_transfers@;
    let k = key_pos(ts, file);
    match lookup(before.session.friend_numbers@, friend) {
        Some(pk) => if k >= 0 {
            let p = ts[k].1;
            let sent = (position + len) as u64;
            let m1 = Model {
                domain: DomainState { file_transfers: after.domain.file_transfers, ..before.domain },
                ..before
            };
            &&& m1.domain.file_transfers@ == ts.update(k, (file, FileTransferProgress { transferred: sent, ..p }))
            &&& progress_marked(m1, after, pk, file, sent, p.total_size, speed)
            &&& cmds == if sent >= p.total_size {
                seq![Cmd::IO(IOAction::CloseFile(pk, file))]
            } else {
                Seq::empty()
            }
        } else {
            after == before && cmds.len() == 0
        },
        None => after == before && cmds.len() == 0,
    }
}

/// An entry put under a key keeps keys distinct.
pub(crate) proof fn lemma_put_unique<K, V>(s: Seq<(K, V)>, k: K, v: V)
    requires
        keys_unique(s),
    ensures
        keys_unique(put(s, k, v)),
{
    lemma_key_pos(s, k);
    let t = put(s, k, v);
    assert forall|a: int, b: int| 0 <= a < b < t.len() implies t[a].0 != t[b].0 by {
        if key_pos(s, k) < 0 {
            if b == s.len() {
                assert(s[a].0 != k);
            } else {
                assert(s[a].0 != s[b].0);
            }
        } else {
            assert(s[a].0 != s[b].0);
        }
    };
}

/// Removing an entry keeps keys distinct.
proof fn lemma_remove_unique<K, V>(s: Seq<(K, V)>, k: K)
    requires
        keys_unique(s),
    ensures
        keys_unique(remove_key(s, k)),
{
    lemma_key_pos(s, k);
    let t = remove_key(s, k);
    if key_pos(s, k) >= 0 {
        let q = key_pos(s, k);
        assert forall|a: int, b: int| 0 <= a < b < t.len() implies t[a].0 != t[b].0 by {
            let a2 = if a < q { a } else { a + 1 };
            let b2 = if b < q { b } else { b + 1 };
            assert(t[a] == s[a2]);
            assert(t[b] == s[b2]);
            assert(s[a2].0 != s[b2].0);
        };
    }
}

/// Removes the first entry under `k` and gives its value.
fn map_remove<K: PartialEq, V>(m: &mut Vec<(K, V)>, k: &K) -> (r: Option<V>)
    requires
        obeys_concrete_eq::<K>(),
    ensures
        final(m)@ == remove_key(old(m)@, *k),
        match r {
            Some(v) => lookup(old(m)@, *k) == Some(v),
            None => lookup(old(m)@, *k) is None,
        },
{
    proof {
        lemma_key_pos(m@, *k);
    }
    match key_position(m, k) {
        Some(i) => {
            let e = m.remove(i);
            Some(e.1)
        },
        None => None,
    }
}

impl Model {
    /// Notes a file offer from contact number `friend`; refuses a transfer
    /// of another kind; records a file from a known contact and shows it
    /// in the contact's conversation.
    fn on_file_recv(
        &mut self,
        friend: u32,
        file: FileId,
        kind: u32,
        size: u64,
        filename: String,
        now: Timestamp,
    ) -> (cmds: Vec<Cmd>)
        requires
            old(self).wf(),
            room_for_message(*old(self)),
        ensures
            final(self).wf(),
            file_received(*old(self), *final(self), friend, file, kind, size, filename, now, cmds@),
    {
        proof {
            lemma_numbers_concrete_eq();
            lemma_keys_concrete_eq();
        }
        let pk = map_get(&self.session.friend_numbers, &friend);
        if kind != 0 {
            let mut cs = str_chars("Ignored file transfer of kind ");
            push_dec(&mut cs, kind as u64);
            push_all(&mut cs, str_chars(" from friend ").as_slice());
            push_dec(&mut cs, friend as u64);
            push_all(&mut cs, str_chars(": ").as_slice());
            push_all(&mut cs, str_chars(filename.as_str()).as_slice());
            self.add_console_message(ConsoleMessageType::Info, string_from_chars(cs.as_slice()), now);
            let mut cmds: Vec<Cmd> = Vec::new();
            match pk {
                Some(pk) => cmds.push(Cmd::Tox(ToxAction::FileControl(pk, file, FileControl::Cancel))),
                None => {},
            }
            return cmds;
        }
        let mut cs = str_chars("File offer from friend ");
        push_dec(&mut cs, friend as u64);
        push_all(&mut cs, str_chars(": ").as_slice());
        push_all(&mut cs, str_chars(filename.as_str()).as_slice());
        push_all(&mut cs, str_chars(" (").as_slice());
        push_dec(&mut cs, size);
        push_all(&mut cs, str_chars(" bytes)").as_slice());
        proof {
            assert(cs@ =~= file_offer_text(friend, filename@, size));
        }
        self.add_console_message(ConsoleMessageType::Info, string_from_chars(cs.as_slice()), now);
        let ghost m1 = *self;
        proof {
            assert(console_added(*old(self), m1, ConsoleMessageType::Info, file_offer_text(friend, filename@, size), now));
        }
        match pk {
            Some(pk) => {
                let progress = FileTransferProgress {
                    filename: filename.clone(),
                    total_size: size,
                    transferred: 0,
                    is_receiving: true,
                    status: TransferStatus::Active,
                    file_kind: kind,
                    file_path: None,
                    last_transferred: 0,
                    friend_pk: pk,
                };
                proof {
                    lemma_put_unique(self.domain.file_transfers@, file, progress);
                }
                map_put(&mut self.domain.file_transfers, file, progress);
                let ghost m2 = *self;
                proof {
                    assert(only_transfers(m1, m2));
                    assert(m2.domain.next_internal_id == old(self).domain.next_internal_id);
                }
                let r = self.add_file_transfer_message(WindowId::Friend(pk), false, file, filename, size, true, now);
                log_request(WindowId::Friend(pk), r)
            },
            None => {
                let mut cs = str_chars("Received file from friend ");
                push_dec(&mut cs, friend as u64);
                push_all(&mut cs, str_chars(" but public key not found. Transfer tracking might fail.").as_slice());
                self.add_console_message(ConsoleMessageType::Error, string_from_chars(cs.as_slice()), now);
                Vec::new()
            },
        }
    }

    /// Sets the status of transfer `file`, if recorded.
    fn set_transfer_status(&mut self, file: FileId, status: TransferStatus)
        requires
            old(self).wf(),
        ensures
            final(self).wf(),
            only_transfers(*old(self), *final(self)),
            transfer_status_set(old(self).domain.file_transfers@, final(self).domain.file_transfers@, file, status),
    {
        proof {
            lemma_keys_concrete_eq();
            lemma_key_pos(self.domain.file_transfers@, file);
        }
        match key_position(&self.domain.file_transfers, &file) {
            Some(k) => {
                let ghost before = self.domain.file_transfers@;
                self.domain.file_transfers[k].1.status = status;
                proof {
                    assert(self.domain.file_transfers@ =~= before.update(
                        k as int,
                        (file, FileTransferProgress { status: status, ..before[k as int].1 }),
                    ));
                    assert forall|a: int, b: int|
                        0 <= a < b < self.domain.file_transfers@.len() implies self.domain.file_transfers@[a].0
                        != self.domain.file_transfers@[b].0 by {
                        assert(before[a].0 != before[b].0);
                    };
                }
            },
            None => {},
        }
    }

    /// Notes a file control from contact number `friend` and follows it.
    fn on_file_recv_control(&mut self, friend: u32, file: FileId, control: FileControl, now: Timestamp) -> (cmds: Vec<Cmd>)
        requires
            old(self).wf(),
        ensures
            final(self).wf(),
            file_control_received(*old(self), *final(self), friend, file, control, now, cmds@),
    {
        proof {
            lemma_numbers_concrete_eq();
            lemma_keys_concrete_eq();
        }
        let mut cs = str_chars("File control from ");
        push_dec(&mut cs, friend as u64);
        push_all(&mut cs, str_chars(": ID ").as_slice());
        push_all(&mut cs, str_chars(crate::utils::encode_hex(&file.0).as_str()).as_slice());
        push_all(&mut cs, str_chars(", ").as_slice());
        push_all(&mut cs, str_chars(file_control_name(control)).as_slice());
        proof {
            assert(cs@ =~= file_control_line(friend, file, control));
        }
        self.add_console_message(ConsoleMessageType::Info, string_from_chars(cs.as_slice()), now);
        let ghost m1 = *self;
        proof {
            assert(console_added(*old(self), m1, ConsoleMessageType::Info, file_control_line(friend, file, control), now));
        }
        let pk = map_get(&self.session.friend_numbers, &friend);
        match pk {
            Some(pk) => match control {
                FileControl::Cancel => {
                    proof {
                        lemma_remove_unique(self.domain.file_transfers@, file);
                    }
                    let _ = map_remove(&mut self.domain.file_transfers, &file);
                    let ghost m2 = *self;
                    let mut cmds: Vec<Cmd> = Vec::new();
                    cmds.push(Cmd::IO(IOAction::CloseFile(pk, file)));
                    let r = self.update_file_status(pk, file, MessageStatus::Failed);
                    let mut rest = log_request(WindowId::Friend(pk), r);
                    let ghost rest0 = rest@;
                    cmds.append(&mut rest);
                    proof {
                        assert(cmds@.drop_first() =~= rest0);
                        assert(m2 == (Model {
                            domain: DomainState { file_transfers: self.domain.file_transfers, ..m1.domain },
                            ..m1
                        }));
                    }
                    cmds
                },
                FileControl::Pause => {
                    self.set_transfer_status(file, TransferStatus::Paused);
                    Vec::new()
                },
                FileControl::Resume => {
                    self.set_transfer_status(file, TransferStatus::Active);
                    Vec::new()
                },
            },
            None => Vec::new(),
        }
    }

    /// Records `len` more bytes of transfer `file` sent to contact number
    /// `friend` from `position`, shows the progress with `speed`, and
    /// closes the file when all is sent.
    fn on_file_chunk_sent(
        &mut self,
        friend: u32,
        file: FileId,
        position: u64,
        len: usize,
        speed: String,
    ) -> (cmds: Vec<Cmd>)
        requires
            old(self).wf(),
            position + len <= u64::MAX,
        ensures
            final(self).wf(),
            chunk_sent(*old(self), *final(self), friend, file, position, len, speed, cmds@),
    {
        proof {
            lemma_numbers_concrete_eq();
            lemma_keys_concrete_eq();
            lemma_key_pos(self.domain.file_transfers@, file);
        }
        match map_get(&self.session.friend_numbers, &friend) {
            Some(pk) => match key_position(&self.domain.file_transfers, &file) {
                Some(k) => {
                    let sent = position + len as u64;
                    let ghost before = self.domain.file_transfers@;
                    self.domain.file_transfers[k].1.transferred = sent;
                    proof {
                        assert(self.domain.file_transfers@ =~= before.update(
                            k as int,
                            (file, FileTransferProgress { transferred: sent, ..before[k as int].1 }),
                        ));
                        assert forall|a: int, b: int|
                            0 <= a < b < self.domain.file_transfers@.len() implies self.domain.file_transfers@[a].0
                            != self.domain.file_transfers@[b].0 by {
                            assert(before[a].0 != before[b].0);
                        };
                    }
                    let total = self.domain.file_transfers[k].1.total_size;
                    let mut cmds: Vec<Cmd> = Vec::new();
                    if sent >= total {
                        cmds.push(Cmd::IO(IOAction::CloseFile(pk, file)));
                    }
                    self.update_file_progress(pk, file, sent, total, speed);
                    cmds
                },
                None => Vec::new(),
            },
            None => Vec::new(),
        }
    }
}


/// A message after a read receipt up to `id`: received if it was sent
/// under a number not above `id`.
pub open spec fn receipted(m: Message, id: u32) -> Message {
    match m.status {
        MessageStatus::Sent(x) => if x <= id {
            Message { status: MessageStatus::Received, ..m }
        } else {
            m
        },
        _ => m,
    }
}

/// The model after contact number `friend` confirmed reading up to
/// message `id`: every message of its conversation sent under a number
/// not above `id` is received.
pub open spec fn receipt_applied(before: Model, after: Model, friend: u32, id: u32) -> bool {
    match lookup(before.session.friend_numbers@, friend) {
        Some(pk) => {
            let w = WindowId::Friend(pk);
            let k = key_pos(before.domain.conversations@, w);
            if k >= 0 {
                let c = after.domain.conversations@[k].1;
                &&& only_conversations(before, after)
                &&& conv_replaced(
                    before.domain.conversations@,
                    after.domain.conversations@,
                    k,
                    Conversation { messages: c.messages, ..conv_of(before, w) },
                )
                &&& c.messages@ == conv_of(before, w).messages@.map_values(|m: Message| receipted(m, id))
            } else {
                after == before
            }
        },
        None => after == before,
    }
}

/// What `handle_tox_event` does with each event: the model after it and
/// the requests made.  `speed` is the text of the transfer speed at the
/// time of a sent chunk.
pub open spec fn tox_event_handled(
    before: Model,
    after: Model,
    event: ToxEvent,
    now: Timestamp,
    speed: String,
    cmds: Seq<Cmd>,
) -> bool {
    match event {
        ToxEvent::Message(f, t, c) => friend_message_received(before, after, f, t, c@, now, cmds),
        ToxEvent::Log(level, file, line, func, message) => tox_log_added(
            before,
            after,
            level,
            file,
            line,
            func,
            message,
            now,
        ) && cmds.len() == 0,
        ToxEvent::ConnectionStatus(st) => connection_status_set(before, after, st) && cmds.len() == 0,
        ToxEvent::FriendStatus(f, st, pk) => friend_status_set(before, after, f, st, pk) && cmds.len() == 0,
        ToxEvent::FriendName(f, n) => ({
            match lookup(before.session.friend_numbers@, f) {
                Some(pk) => {
                    let w = WindowId::Friend(pk);
                    let c = key_pos(before.domain.conversations@, w);
                    let mid = Model {
                        domain: DomainState { conversations: after.domain.conversations, ..before.domain },
                        ..before
                    };
                    &&& friend_report(mid, after, f, |i: FriendInfo| FriendInfo { name: n, ..i })
                    &&& c >= 0 ==> after.domain.conversations@ == before.domain.conversations@.update(
                        c,
                        (w, Conversation { name: n, ..before.domain.conversations@[c].1 }),
                    )
                    &&& c < 0 ==> after.domain.conversations == before.domain.conversations
                },
                None => after == before,
            }
        }) && cmds.len() == 0,
        ToxEvent::FriendStatusMessage(f, m) => friend_report(
            before,
            after,
            f,
            |i: FriendInfo| FriendInfo { status_message: m, ..i },
        ) && cmds.len() == 0,
        ToxEvent::FriendTyping(f, t) => friend_report(before, after, f, |i: FriendInfo| FriendInfo { is_typing: t, ..i })
            && cmds.len() == 0,
        ToxEvent::MessageSent(f, id, internal) => delivery_marked(
            before,
            after,
            friend_window(before, f),
            internal,
            MessageStatus::Sent(id),
            cmds,
        ),
        ToxEvent::GroupMessageSent(g, internal) => delivery_marked(
            before,
            after,
            group_window(before, g),
            internal,
            MessageStatus::Received,
            cmds,
        ),
        ToxEvent::ConferenceMessageSent(c, internal) => delivery_marked(
            before,
            after,
            conference_window(before, c),
            internal,
            MessageStatus::Received,
            cmds,
        ),
        ToxEvent::MessageSendFailed(w, internal) => delivery_marked(
            before,
            after,
            Some(w),
            internal,
            MessageStatus::Pending,
            cmds,
        ),
        ToxEvent::ReadReceipt(f, id) => receipt_applied(before, after, f, id) && cmds.len() == 0,
        ToxEvent::GroupCreated(g, chat_id, n) => group_created(before, after, g, chat_id, n) && cmds.len() == 0,
        ToxEvent::ConferenceCreated(c, id) => conference_created(before, after, c, id) && cmds.len() == 0,
        ToxEvent::GroupMessage(g, t, s, m, pk) => group_message_received(before, after, g, t, s@, m@, pk, now, cmds),
        ToxEvent::ConferenceMessage(c, t, s, m, pk) => conference_message_received(
            before,
            after,
            c,
            t,
            s@,
            m@,
            pk,
            now,
            cmds,
        ),
        ToxEvent::FriendRequest(pk, m) => pending_added(before, after, PendingItem::FriendRequest { pk: pk, message: m })
            && cmds.len() == 0,
        ToxEvent::GroupInvite(f, d, n) => group_invite_received(before, after, f, d, n, now) && cmds.len() == 0,
        ToxEvent::ConferenceInvite(f, t, c) => conference_invite_received(before, after, f, t, c) && cmds.len() == 0,
        ToxEvent::GroupTopic(g, t) => group_topic_set(before, after, g, t, now, cmds),
        ToxEvent::GroupName(g, n) => group_name_set(before, after, g, n, now, cmds),
        ToxEvent::GroupSelfJoin(g) => group_joined(before, after, g, None) && cmds.len() == 0,
        ToxEvent::GroupSelfRole(g, r) => group_joined(before, after, g, Some(r)) && cmds.len() == 0,
        ToxEvent::ConferenceTitle(c, t) => conference_title_set(before, after, c, t, now, cmds),
        ToxEvent::GroupPeerJoin(g, p, n, r, pk) => group_peer_joined(before, after, g, p, n, r, pk, now, cmds),
        ToxEvent::GroupPeerLeave(g, p) => group_peer_left(before, after, g, p, now, cmds),
        ToxEvent::GroupPeerName(g, p, n, r, pk) => group_peer_renamed(before, after, g, p, n, r, pk, now, cmds),
        ToxEvent::GroupPeerStatus(g, p, st) => group_peer_status_set(before, after, g, p, st) && cmds.len() == 0,
        ToxEvent::GroupModeration(g, _s, t, m) => console_added(
            before,
            after,
            ConsoleMessageType::Info,
            moderation_text(g, t, m),
            now,
        ) && cmds.len() == 0,
        ToxEvent::ConferencePeerJoin(c, _p, n, pk) => (if pk == before.domain.self_public_key {
            after == before
        } else {
            conference_peers_changed(
                before,
                after,
                c,
                |ps: Seq<PeerInfo>| conference_peer_joined(ps, pk, n),
                |ps: Seq<PeerInfo>| true,
            )
        }) && cmds.len() == 0,
        ToxEvent::ConferencePeerLeave(c, _p, pk) => conference_peers_changed(
            before,
            after,
            c,
            |ps: Seq<PeerInfo>| without_peer(ps, pk),
            |ps: Seq<PeerInfo>| true,
        ) && cmds.len() == 0,
        ToxEvent::ConferencePeerName(c, _p, n, pk) => conference_peers_changed(
            before,
            after,
            c,
            |ps: Seq<PeerInfo>| ps.update(peer_pos(ps, pk), PeerInfo { name: n, seen_online: true, ..ps[peer_pos(ps, pk)] }),
            |ps: Seq<PeerInfo>| peer_pos(ps, pk) >= 0,
        ) && cmds.len() == 0,
        ToxEvent::FileRecv(f, file, kind, size, name) => file_received(before, after, f, file, kind, size, name, now, cmds),
        ToxEvent::FileRecvControl(f, file, control) => file_control_received(before, after, f, file, control, now, cmds),
        ToxEvent::FileChunkSent(f, file, position, len) => chunk_sent(before, after, f, file, position, len, speed, cmds),
        ToxEvent::FileChunkRequest(f, file, position, len) => after == before && cmds == match lookup(
            before.session.friend_numbers@,
            f,
        ) {
            Some(pk) => seq![Cmd::IO(IOAction::ReadChunk(pk, file, position, len))],
            None => Seq::empty(),
        },
        ToxEvent::Address(a) => after == (Model { domain: DomainState { tox_id: a, ..before.domain }, ..before })
            && cmds.len() == 0,
        ToxEvent::DhtId(_) | ToxEvent::FileRecvChunk(..) => after == before && cmds.len() == 0,
    }
}

/// What a network event needs besides a sound model: room for a message,
/// a position that fits after a sent chunk, room to scroll the log.
pub open spec fn tox_event_fits(m: Model, event: ToxEvent) -> bool {
    &&& room_for_message(m)
    &&& match event {
        ToxEvent::FileChunkSent(_, _, position, len) => position + len <= u64::MAX,
        ToxEvent::Log(..) => match lookup(m.ui.window_state@, WindowId::Logs) {
            Some(st) => st.msg_list_state.scroll < usize::MAX,
            None => true,
        },
        _ => true,
    }
}

impl Model {
    /// Marks every message of contact number `friend` sent under a number
    /// not above `id` as received.
    fn on_read_receipt(&mut self, friend: u32, id: u32)
        requires
            old(self).wf(),
        ensures
            final(self).wf(),
            receipt_applied(*old(self), *final(self), friend, id),
    {
        proof {
            lemma_numbers_concrete_eq();
        }
        match map_get(&self.session.friend_numbers, &friend) {
            Some(pk) => match self.conv_index(WindowId::Friend(pk)) {
                Some(k) => {
                    let ghost c0 = self.domain.conversations@;
                    let ghost ms = c0[k as int].1.messages@;
                    let n = self.domain.conversations[k].1.messages.len();
                    let mut j: usize = 0;
                    while j < n
                        invariant
                            self.wf(),
                            k < c0.len(),
                            n == ms.len(),
                            j <= n,
                            only_conversations(*old(self), *self),
                            self.domain.conversations@.len() == c0.len(),
                            forall|i: int| 0 <= i < c0.len() && i != k ==> self.domain.conversations@[i] == c0[i],
                            self.domain.conversations@[k as int].0 == c0[k as int].0,
                            self.domain.conversations@[k as int].1 == (Conversation {
                                messages: self.domain.conversations@[k as int].1.messages,
                                ..c0[k as int].1
                            }),
                            self.domain.conversations@[k as int].1.messages@.len() == n,
                            forall|i: int| 0 <= i < j ==> #[trigger] self.domain.conversations@[k as int].1.messages@[i] == receipted(ms[i], id),
                            forall|i: int| j <= i < n ==> #[trigger] self.domain.conversations@[k as int].1.messages@[i] == ms[i],
                        decreases n - j,
                    {
                        let st = self.domain.conversations[k].1.messages[j].status;
                        match st {
                            MessageStatus::Sent(x) => {
                                if x <= id {
                                    let ghost before = self.domain.conversations@;
                                    self.domain.conversations[k].1.messages[j].status = MessageStatus::Received;
                                    proof {
                                        lemma_same_keys(before, self.domain.conversations@);
                                    }
                                }
                            },
                            _ => {},
                        }
                        j = j + 1;
                    }
                    proof {
                        let c = self.domain.conversations@[k as int].1;
                        assert(c.messages@ =~= ms.map_values(|m: Message| receipted(m, id)));
                        assert(self.domain.conversations@ =~= c0.update(
                            k as int,
                            (c0[k as int].0, Conversation { messages: c.messages, ..c0[k as int].1 }),
                        ));
                    }
                },
                None => {},
            },
            None => {},
        }
    }

    /// Follows an event of the network: changes the model and gives what
    /// is asked of the outside in return.  `now` is the time of the event;
    /// `speed` is the text of the transfer speed, used for a sent chunk.
    #[verifier::rlimit(100)]
    #[verifier::spinoff_prover]
    pub fn handle_tox_event(&mut self, event: ToxEvent, now: Timestamp, speed: String) -> (cmds: Vec<Cmd>)
        requires
            old(self).wf(),
            tox_event_fits(*old(self), event),
        ensures
            final(self).wf(),
            tox_event_handled(*old(self), *final(self), event, now, speed, cmds@),
    {
        match event {
            ToxEvent::Message(f, t, c) => self.on_message(f, t, c, now),
            ToxEvent::Log(level, file, line, func, message) => {
                self.add_tox_log(level, file, line, func, message, now);
                Vec::new()
            },
            ToxEvent::ConnectionStatus(st) => {
                self.on_connection_status(st);
                Vec::new()
            },
            ToxEvent::FriendStatus(f, st, pk) => {
                self.on_friend_status(f, st, pk);
                Vec::new()
            },
            ToxEvent::FriendName(f, n) => {
                self.on_friend_name(f, n);
                Vec::new()
            },
            ToxEvent::FriendStatusMessage(f, m) => {
                self.on_friend_status_message(f, m);
                Vec::new()
            },
            ToxEvent::FriendTyping(f, t) => {
                self.on_friend_typing(f, t);
                Vec::new()
            },
            ToxEvent::MessageSent(f, id, internal) => {
                let w = self.friend_window_of(f);
                self.mark_delivery(w, internal, MessageStatus::Sent(id))
            },
            ToxEvent::GroupMessageSent(g, internal) => {
                let w = self.group_window_of(g);
                self.mark_delivery(w, internal, MessageStatus::Received)
            },
            ToxEvent::ConferenceMessageSent(c, internal) => {
                let w = self.conference_window_of(c);
                self.mark_delivery(w, internal, MessageStatus::Received)
            },
            ToxEvent::MessageSendFailed(w, internal) => self.mark_delivery(Some(w), internal, MessageStatus::Pending),
            ToxEvent::ReadReceipt(f, id) => {
                self.on_read_receipt(f, id);
                Vec::new()
            },
            ToxEvent::GroupCreated(g, chat_id, n) => {
                self.on_group_created(g, chat_id, n);
                Vec::new()
            },
            ToxEvent::ConferenceCreated(c, id) => {
                self.on_conference_created(c, id);
                Vec::new()
            },
            ToxEvent::GroupMessage(g, t, s, m, pk) => self.on_group_message(g, t, s, m, pk, now),
            ToxEvent::ConferenceMessage(c, t, s, m, pk) => self.on_conference_message(c, t, s, m, pk, now),
            ToxEvent::FriendRequest(pk, m) => {
                self.on_friend_request(pk, m);
                Vec::new()
            },
            ToxEvent::GroupInvite(f, d, n) => {
                self.on_group_invite(f, d, n, now);
                Vec::new()
            },
            ToxEvent::ConferenceInvite(f, t, c) => {
                self.on_conference_invite(f, t, c);
                Vec::new()
            },
            ToxEvent::GroupTopic(g, t) => self.on_group_topic(g, t, now),
            ToxEvent::GroupName(g, n) => self.on_group_name(g, n, now),
            ToxEvent::GroupSelfJoin(g) => {
                self.on_group_joined(g, None);
                Vec::new()
            },
            ToxEvent::GroupSelfRole(g, r) => {
                self.on_group_joined(g, Some(r));
                Vec::new()
            },
            ToxEvent::ConferenceTitle(c, t) => self.on_conference_title(c, t, now),
            ToxEvent::GroupPeerJoin(g, p, n, r, pk) => self.on_group_peer_join(g, p, n, r, pk, now),
            ToxEvent::GroupPeerLeave(g, p) => self.on_group_peer_leave(g, p, now),
            ToxEvent::GroupPeerName(g, p, n, r, pk) => self.on_group_peer_name(g, p, n, r, pk, now),
            ToxEvent::GroupPeerStatus(g, p, st) => {
                self.on_group_peer_status(g, p, st);
                Vec::new()
            },
            ToxEvent::GroupModeration(g, _s, t, m) => {
                self.on_group_moderation(g, t, m, now);
                Vec::new()
            },
            ToxEvent::ConferencePeerJoin(c, _p, n, pk) => {
                self.on_conference_peer_join(c, n, pk);
                Vec::new()
            },
            ToxEvent::ConferencePeerLeave(c, _p, pk) => {
                self.on_conference_peer_leave(c, pk);
                Vec::new()
            },
            ToxEvent::ConferencePeerName(c, _p, n, pk) => {
                self.on_conference_peer_name(c, n, pk);
                Vec::new()
            },
            ToxEvent::FileRecv(f, file, kind, size, name) => self.on_file_recv(f, file, kind, size, name, now),
            ToxEvent::FileRecvControl(f, file, control) => self.on_file_recv_control(f, file, control, now),
            ToxEvent::FileChunkSent(f, file, position, len) => self.on_file_chunk_sent(f, file, position, len, speed),
            ToxEvent::FileChunkRequest(f, file, position, len) => {
                proof {
                    lemma_numbers_concrete_eq();
                }
                let mut cmds: Vec<Cmd> = Vec::new();
                match map_get(&self.session.friend_numbers, &f) {
                    Some(pk) => cmds.push(Cmd::IO(IOAction::ReadChunk(pk, file, position, len))),
                    None => {},
                }
                cmds
            },
            ToxEvent::Address(a) => {
                self.on_address(a);
                Vec::new()
            },
            ToxEvent::DhtId(_) | ToxEvent::FileRecvChunk(..) => Vec::new(),
        }
    }
}


/// The last component of a path, if it has one (none for a path that ends
/// in `..` or is a root), as `std::path::Path::file_name` gives it.
pub uninterp spec fn path_file_name(path: Seq<char>) -> Option<Seq<char>>;

/// The last component of `path` (`std::path::Path::file_name`), as text.
#[verifier::external_body]
fn file_name_of(path: &str) -> (r: Option<String>)
    ensures
        match r {
            Some(n) => path_file_name(path@) == Some(n@),
            None => path_file_name(path@) is None,
        },
{
    std::path::Path::new(path).file_name().and_then(|n| n.to_str()).map(|n| n.to_owned())
}

/// The name a transfer of the file at `path` is shown under: the path's
/// last component, or the whole path.
pub open spec fn shown_file_name(path: Seq<char>) -> Seq<char> {
    match path_file_name(path) {
        Some(n) => n,
        None => path,
    }
}

/// A transfer of the file at `path` to contact `pk`, not started yet.
pub open spec fn sending(filename: String, path: String, size: u64, pk: PublicKey) -> FileTransferProgress {
    FileTransferProgress {
        filename: filename,
        total_size: size,
        transferred: 0,
        is_receiving: false,
        status: TransferStatus::Active,
        file_kind: 0,
        file_path: Some(path),
        last_transferred: 0,
        friend_pk: pk,
    }
}

/// The console line after a transfer finished.
pub open spec fn finished_text(file: FileId) -> Seq<char> {
    "File transfer finished: ID "@ + crate::utils::hex_encoding(file.0@)
}

/// The model and requests after `len` more bytes of transfer `file` with
/// contact `pk` from `position` went through the disk: for a recorded
/// transfer, the count recorded and shown with `speed`, and (when
/// `close`) the file closed once all is through.
pub open spec fn chunk_done(
    before: Model,
    after: Model,
    pk: PublicKey,
    file: FileId,
    position: u64,
    len: usize,
    speed: String,
    close: bool,
    cmds: Seq<Cmd>,
) -> bool {
    let ts = before.domain.file_transfers@;
    let k = key_pos(ts, file);
    if k >= 0 {
        let p = ts[k].1;
        let done = (position + len) as u64;
        let m1 = Model {
            domain: DomainState { file_transfers: after.domain.file_transfers, ..before.domain },
            ..before
        };
        &&& m1.domain.file_transfers@ == ts.update(k, (file, FileTransferProgress { transferred: done, ..p }))
        &&& progress_marked(m1, after, pk, file, done, p.total_size, speed)
        &&& cmds == if close && done >= p.total_size {
            seq![Cmd::IO(IOAction::CloseFile(pk, file))]
        } else {
            Seq::empty()
        }
    } else {
        after == before && cmds.len() == 0
    }
}

/// What `handle_io_event` does with each event of the disk worker.
/// `speed` is the text of the transfer speed at the time of a chunk.
pub open spec fn io_event_handled(
    before: Model,
    after: Model,
    event: IOEvent,
    now: Timestamp,
    speed: String,
    cmds: Seq<Cmd>,
) -> bool {
    match event {
        IOEvent::ProfileSaved => console_added(
            before,
            after,
            ConsoleMessageType::Status,
            "Profile saved successfully."@,
            now,
        ) && cmds.len() == 0,
        IOEvent::Error(e) => console_added(before, after, ConsoleMessageType::Error, "I/O Error: "@ + e@, now)
            && cmds.len() == 0,
        IOEvent::FileStarted(pk, file, path, size) => {
            let w = WindowId::Friend(pk);
            let m1 = Model {
                domain: DomainState { file_transfers: after.domain.file_transfers, ..before.domain },
                ..before
            };
            let rest = cmds.drop_last();
            &&& cmds.len() >= 1
            &&& cmds.last() == Cmd::IO(IOAction::OpenFileForSending(pk, file, path))
            &&& {
                let p = lookup(m1.domain.file_transfers@, file)->0;
                &&& m1.domain.file_transfers@ == put(before.domain.file_transfers@, file, p)
                &&& p.filename@ == shown_file_name(path@)
                &&& p == sending(p.filename, path, size, pk)
            }
            &&& transfer_added(m1, after, w, true, file, shown_file_name(path@), size, false, now, logged(rest))
            &&& rest == log_cmds(w, logged(rest))
        },
        IOEvent::FileChunkRead(pk, file, position, len) => chunk_done(before, after, pk, file, position, len, speed, false, cmds),
        IOEvent::FileChunkWritten(pk, file, position, len) => chunk_done(before, after, pk, file, position, len, speed, true, cmds),
        IOEvent::FileFinished(pk, file) => {
            let receiving = match lookup(before.domain.file_transfers@, file) {
                Some(p) => p.is_receiving,
                None => true,
            };
            let m1 = Model {
                domain: DomainState { file_transfers: after.domain.file_transfers, ..before.domain },
                ..before
            };
            exists|m2: Model|
                #![trigger console_added(m2, after, ConsoleMessageType::Status, finished_text(file), now)]
                {
                    &&& m1.domain.file_transfers@ == remove_key(before.domain.file_transfers@, file)
                    &&& only_transfers(before, m1)
                    &&& file_status_marked(
                        m1,
                        m2,
                        pk,
                        file,
                        if receiving {
                            MessageStatus::Received
                        } else {
                            MessageStatus::Sent(0)
                        },
                        logged(cmds),
                    )
                    &&& cmds == log_cmds(WindowId::Friend(pk), logged(cmds))
                    &&& console_added(m2, after, ConsoleMessageType::Status, finished_text(file), now)
                }
        },
        IOEvent::FileError(pk, file, err) => exists|m1: Model, m2: Model|
            #![trigger console_added(before, m1, ConsoleMessageType::Error, "File error: "@ + err@, now), only_transfers(m1, m2)]
            {
                &&& console_added(before, m1, ConsoleMessageType::Error, "File error: "@ + err@, now)
                &&& only_transfers(m1, m2)
                &&& m2.domain.file_transfers@ == remove_key(m1.domain.file_transfers@, file)
                &&& file_status_marked(m2, after, pk, file, MessageStatus::Failed, logged(cmds))
                &&& cmds == log_cmds(WindowId::Friend(pk), logged(cmds))
            },
        IOEvent::ConfigSaved => after == before && cmds.len() == 0,
    }
}

impl Model {
    /// Records that `len` more bytes of transfer `file` went through the
    /// disk from `position`, shows the progress with `speed`, and (when
    /// `close`) closes the file once all is through.
    fn on_chunk_done(
        &mut self,
        pk: PublicKey,
        file: FileId,
        position: u64,
        len: usize,
        speed: String,
        close: bool,
    ) -> (cmds: Vec<Cmd>)
        requires
            old(self).wf(),
            position + len <= u64::MAX,
        ensures
            final(self).wf(),
            chunk_done(*old(self), *final(self), pk, file, position, len, speed, close, cmds@),
    {
        proof {
            lemma_keys_concrete_eq();
            lemma_key_pos(self.domain.file_transfers@, file);
        }
        match key_position(&self.domain.file_transfers, &file) {
            Some(k) => {
                let done = position + len as u64;
                let ghost before = self.domain.file_transfers@;
                self.domain.file_transfers[k].1.transferred = done;
                proof {
                    assert(self.domain.file_transfers@ =~= before.update(
                        k as int,
                        (file, FileTransferProgress { transferred: done, ..before[k as int].1 }),
                    ));
                    assert forall|a: int, b: int|
                        0 <= a < b < self.domain.file_transfers@.len() implies self.domain.file_transfers@[a].0
                        != self.domain.file_transfers@[b].0 by {
                        assert(before[a].0 != before[b].0);
                    };
                }
                let total = self.domain.file_transfers[k].1.total_size;
                let mut cmds: Vec<Cmd> = Vec::new();
                if close && done >= total {
                    cmds.push(Cmd::IO(IOAction::CloseFile(pk, file)));
                }
                self.update_file_progress(pk, file, done, total, speed);
                cmds
            },
            None => Vec::new(),
        }
    }

    /// Follows an event of the disk worker: changes the model and gives
    /// what is asked of the outside in return.  `now` is the time of the
    /// event; `speed` is the text of the transfer speed, used for a chunk.
    pub fn handle_io_event(&mut self, event: IOEvent, now: Timestamp, speed: String) -> (cmds: Vec<Cmd>)
        requires
            old(self).wf(),
            room_for_message(*old(self)),
            match event {
                IOEvent::FileChunkRead(_, _, position, len) => position + len <= u64::MAX,
                IOEvent::FileChunkWritten(_, _, position, len) => position + len <= u64::MAX,
                _ => true,
            },
        ensures
            final(self).wf(),
            io_event_handled(*old(self), *final(self), event, now, speed, cmds@),
    {
        proof {
            lemma_keys_concrete_eq();
        }
        match event {
            IOEvent::ProfileSaved => {
                self.add_console_message(ConsoleMessageType::Status, "Profile saved successfully.".to_owned(), now);
                Vec::new()
            },
            IOEvent::Error(e) => {
                let mut cs = str_chars("I/O Error: ");
                push_all(&mut cs, str_chars(e.as_str()).as_slice());
                self.add_console_message(ConsoleMessageType::Error, string_from_chars(cs.as_slice()), now);
                Vec::new()
            },
            IOEvent::FileStarted(pk, file, path, size) => {
                let filename = match file_name_of(path.as_str()) {
                    Some(n) => n,
                    None => path.clone(),
                };
                let progress = FileTransferProgress {
                    filename: filename.clone(),
                    total_size: size,
                    transferred: 0,
                    is_receiving: false,
                    status: TransferStatus::Active,
                    file_kind: 0,
                    file_path: Some(path.clone()),
                    last_transferred: 0,
                    friend_pk: pk,
                };
                proof {
                    lemma_put_unique(self.domain.file_transfers@, file, progress);
                }
                let ghost ts0 = self.domain.file_transfers@;
                map_put(&mut self.domain.file_transfers, file, progress);
                let ghost m1 = *self;
                proof {
                    lemma_key_pos(ts0, file);
                    lemma_key_pos(self.domain.file_transfers@, file);
                    crate::domain::lemma_key_pos_unique(
                        self.domain.file_transfers@,
                        file,
                        if key_pos(ts0, file) >= 0 { key_pos(ts0, file) } else { ts0.len() as int },
                    );
                }
                let w = WindowId::Friend(pk);
                let r = self.add_file_transfer_message(w, true, file, filename, size, false, now);
                let mut cmds = log_request(w, r);
                let ghost rest = cmds@;
                cmds.push(Cmd::IO(IOAction::OpenFileForSending(pk, file, path)));
                proof {
                    assert(cmds@.drop_last() =~= rest);
                }
                cmds
            },
            IOEvent::FileChunkRead(pk, file, position, len) => self.on_chunk_done(pk, file, position, len, speed, false),
            IOEvent::FileChunkWritten(pk, file, position, len) => self.on_chunk_done(
                pk,
                file,
                position,
                len,
                speed,
                true,
            ),
            IOEvent::FileFinished(pk, file) => {
                proof {
                    lemma_key_pos(self.domain.file_transfers@, file);
                }
                let receiving = match key_position(&self.domain.file_transfers, &file) {
                    Some(k) => self.domain.file_transfers[k].1.is_receiving,
                    None => true,
                };
                proof {
                    lemma_remove_unique(self.domain.file_transfers@, file);
                }
                let _ = map_remove(&mut self.domain.file_transfers, &file);
                let status = if receiving {
                    MessageStatus::Received
                } else {
                    MessageStatus::Sent(0)
                };
                let r = self.update_file_status(pk, file, status);
                let cmds = log_request(WindowId::Friend(pk), r);
                let ghost m2 = *self;
                let mut cs = str_chars("File transfer finished: ID ");
                push_all(&mut cs, str_chars(crate::utils::encode_hex(&file.0).as_str()).as_slice());
                proof {
                    assert(cs@ =~= finished_text(file));
                }
                self.add_console_message(ConsoleMessageType::Status, string_from_chars(cs.as_slice()), now);
                proof {
                    assert(console_added(m2, *self, ConsoleMessageType::Status, finished_text(file), now));
                }
                cmds
            },
            IOEvent::FileError(pk, file, err) => {
                let mut cs = str_chars("File error: ");
                push_all(&mut cs, str_chars(err.as_str()).as_slice());
                self.add_console_message(ConsoleMessageType::Error, string_from_chars(cs.as_slice()), now);
                let ghost m1 = *self;
                proof {
                    assert(console_added(*old(self), m1, ConsoleMessageType::Error, "File error: "@ + err@, now));
                    lemma_remove_unique(self.domain.file_transfers@, file);
                }
                let _ = map_remove(&mut self.domain.file_transfers, &file);
                let ghost m2 = *self;
                proof {
                    assert(only_transfers(m1, m2));
                }
                let r = self.update_file_status(pk, file, MessageStatus::Failed);
                log_request(WindowId::Friend(pk), r)
            },
            IOEvent::ConfigSaved => Vec::new(),
        }
    }
}


/// A text waiting to be sent: its window, number, kind and text.
pub type Resend = (WindowId, InternalMessageId, MessageType, String);

/// The texts of `ms` (in window `w`) still waiting to be sent, in order.
pub open spec fn pending_in(ms: Seq<Message>, w: WindowId) -> Seq<Resend>
    decreases ms.len(),
{
    if ms.len() == 0 {
        Seq::empty()
    } else {
        let rest = pending_in(ms.drop_last(), w);
        let m = ms.last();
        match m.content {
            MessageContent::Text(t) => if m.status == MessageStatus::Pending {
                rest.push((w, m.internal_id, m.message_type, t))
            } else {
                rest
            },
            _ => rest,
        }
    }
}

/// The texts of all conversations still waiting to be sent, conversation
/// by conversation.
pub open spec fn pending_all(convs: Seq<(WindowId, Conversation)>) -> Seq<Resend>
    decreases convs.len(),
{
    if convs.len() == 0 {
        Seq::empty()
    } else {
        pending_all(convs.drop_last()) + pending_in(convs.last().1.messages@, convs.last().0)
    }
}

/// The request that sends a waiting text again.
pub open spec fn send_cmds(x: Resend) -> Seq<Cmd> {
    match x.0 {
        WindowId::Friend(pk) => seq![Cmd::Tox(ToxAction::SendMessage(pk, x.2, x.3, x.1))],
        WindowId::Group(g) => seq![Cmd::Tox(ToxAction::SendGroupMessage(g, x.2, x.3, x.1))],
        WindowId::Conference(c) => seq![Cmd::Tox(ToxAction::SendConferenceMessage(c, x.2, x.3, x.1))],
        _ => Seq::empty(),
    }
}

/// The model and requests after the texts `items` were sent again in
/// order: each marked as being sent (and logged) and its sending asked.
pub open spec fn resent(before: Model, after: Model, items: Seq<Resend>, cmds: Seq<Cmd>) -> bool
    decreases items.len(),
{
    if items.len() == 0 {
        after == before && cmds.len() == 0
    } else {
        let x = items.last();
        exists|mid: Model, r: Option<Message>, n: int|
            #![trigger status_marked(mid, after, x.0, x.1, MessageStatus::Sending, r), cmds.take(n)]
            {
                &&& 0 <= n <= cmds.len()
                &&& resent(before, mid, items.drop_last(), cmds.take(n))
                &&& status_marked(mid, after, x.0, x.1, MessageStatus::Sending, r)
                &&& cmds.skip(n) == log_cmds(x.0, r) + send_cmds(x)
            }
    }
}

/// Whether typing notices time out at `now_ms`: one was sent and the last
/// typing was more than three seconds before.
pub open spec fn typing_timed_out(m: Model, now_ms: u64) -> bool {
    m.ui.is_typing_sent && match m.ui.last_typing_activity {
        Some(last) => (if now_ms >= last { now_ms - last } else { 0 }) > 3000,
        None => false,
    }
}

/// The model and requests after a tick at `now_ms`: a typing notice that
/// timed out is withdrawn (from the contact shown); the tick counted; and
/// every 25th tick, every text waiting to be sent is sent again.
pub open spec fn ticked(before: Model, after: Model, now_ms: u64, cmds: Seq<Cmd>) -> bool {
    let out = typing_timed_out(before, now_ms);
    let m1 = if out {
        Model { ui: UiState { is_typing_sent: false, ..before.ui }, ..before }
    } else {
        before
    };
    let first: Seq<Cmd> = if out {
        match before.active_id() {
            WindowId::Friend(pk) => seq![Cmd::Tox(ToxAction::SetTyping(pk, false))],
            _ => Seq::empty(),
        }
    } else {
        Seq::empty()
    };
    let m2 = Model { tick_count: (before.tick_count + 1) as u64, ..m1 };
    &&& cmds.len() >= first.len()
    &&& cmds.take(first.len() as int) == first
    &&& if m2.tick_count % 25 == 0 {
        resent(m2, after, pending_all(m2.domain.conversations@), cmds.skip(first.len() as int))
    } else {
        after == m2 && cmds.len() == first.len()
    }
}

/// The console kind of a logged event of `severity`.
pub open spec fn console_kind(severity: LogSeverity) -> ConsoleMessageType {
    match severity {
        LogSeverity::Info => ConsoleMessageType::Info,
        LogSeverity::Warning => ConsoleMessageType::Status,
        LogSeverity::Error => ConsoleMessageType::Error,
    }
}

/// The window a logged event belongs to, if any.
pub open spec fn context_window(context: LogContext) -> Option<WindowId> {
    match context {
        LogContext::Global => None,
        LogContext::Friend(pk) => Some(WindowId::Friend(pk)),
        LogContext::Group(g) => Some(WindowId::Group(g)),
    }
}

/// What `handle_system_event` does with each event: `now` is the time,
/// `now_ms` the same instant in milliseconds on the clock of typing.
pub open spec fn system_event_handled(
    before: Model,
    after: Model,
    event: SystemEvent,
    now: Timestamp,
    now_ms: u64,
    cmds: Seq<Cmd>,
) -> bool {
    match event {
        SystemEvent::Tick => ticked(before, after, now_ms, cmds),
        SystemEvent::Log { severity, context, message } => {
            let w = context_window(context);
            if severity == LogSeverity::Error && w is Some {
                exists|m1: Model|
                    #![trigger console_added(before, m1, console_kind(severity), message@, now)]
                    {
                        &&& console_added(before, m1, console_kind(severity), message@, now)
                        &&& system_added(
                            m1,
                            after,
                            w->0,
                            ConsoleMessageType::Error,
                            ContentView::Text(message@),
                            now,
                            logged(cmds),
                        )
                        &&& cmds == log_cmds(w->0, logged(cmds))
                    }
            } else {
                console_added(before, after, console_kind(severity), message@, now) && cmds.len() == 0
            }
        },
        SystemEvent::ScriptRequest(_) => after == before && cmds.len() == 0,
    }
}

/// The texts of `ms` (in window `w`) waiting to be sent.
fn collect_pending(ms: &Vec<Message>, w: WindowId, out: &mut Vec<Resend>)
    ensures
        final(out)@ == old(out)@ + pending_in(ms@, w),
{
    let ghost start = out@;
    let mut j: usize = 0;
    assert(ms@.take(0) =~= Seq::<Message>::empty());
    while j < ms.len()
        invariant
            j <= ms@.len(),
            out@ == start + pending_in(ms@.take(j as int), w),
        decreases ms@.len() - j,
    {
        assert(ms@.take(j as int + 1).drop_last() =~= ms@.take(j as int));
        let m = &ms[j];
        match &m.content {
            MessageContent::Text(t) => {
                if m.status == MessageStatus::Pending {
                    out.push((w, m.internal_id, m.message_type, t.clone()));
                    assert(out@ =~= start + pending_in(ms@.take(j as int + 1), w));
                } else {
                    assert(out@ =~= start + pending_in(ms@.take(j as int + 1), w));
                }
            },
            _ => {
                assert(out@ =~= start + pending_in(ms@.take(j as int + 1), w));
            },
        }
        j = j + 1;
    }
    assert(ms@.take(ms@.len() as int) =~= ms@);
}

/// The request that sends a waiting text again.
pub(crate) fn send_request(x: &Resend) -> (cmds: Vec<Cmd>)
    ensures
        cmds@ == send_cmds(*x),
{
    let mut cmds: Vec<Cmd> = Vec::new();
    match x.0 {
        WindowId::Friend(pk) => cmds.push(Cmd::Tox(ToxAction::SendMessage(pk, x.2, x.3.clone(), x.1))),
        WindowId::Group(g) => cmds.push(Cmd::Tox(ToxAction::SendGroupMessage(g, x.2, x.3.clone(), x.1))),
        WindowId::Conference(c) => cmds.push(Cmd::Tox(ToxAction::SendConferenceMessage(c, x.2, x.3.clone(), x.1))),
        _ => {},
    }
    cmds
}

impl Model {
    /// The texts of all conversations waiting to be sent.
    fn pending_texts(&self) -> (r: Vec<Resend>)
        ensures
            r@ == pending_all(self.domain.conversations@),
    {
        let mut r: Vec<Resend> = Vec::new();
        let mut i: usize = 0;
        let ghost cs = self.domain.conversations@;
        assert(cs.take(0) =~= Seq::<(WindowId, Conversation)>::empty());
        while i < self.domain.conversations.len()
            invariant
                cs == self.domain.conversations@,
                i <= cs.len(),
                r@ == pending_all(cs.take(i as int)),
            decreases cs.len() - i,
        {
            assert(cs.take(i as int + 1).drop_last() =~= cs.take(i as int));
            collect_pending(&self.domain.conversations[i].1.messages, self.domain.conversations[i].0, &mut r);
            i = i + 1;
        }
        assert(cs.take(cs.len() as int) =~= cs);
        r
    }

    /// Sends every text in `items` again: marks it as being sent, logs it
    /// and asks for its sending.
    fn resend(&mut self, items: &Vec<Resend>) -> (cmds: Vec<Cmd>)
        requires
            old(self).wf(),
        ensures
            final(self).wf(),
            resent(*old(self), *final(self), items@, cmds@),
    {
        let mut cmds: Vec<Cmd> = Vec::new();
        let mut i: usize = 0;
        assert(items@.take(0) =~= Seq::<Resend>::empty());
        while i < items.len()
            invariant
                self.wf(),
                i <= items@.len(),
                resent(*old(self), *self, items@.take(i as int), cmds@),
            decreases items@.len() - i,
        {
            let ghost mid = *self;
            let ghost before_cmds = cmds@;
            let x = &items[i];
            let r = self.mark_message_status(x.0, x.1, MessageStatus::Sending);
            let mut more = log_request(x.0, r);
            let mut send = send_request(x);
            more.append(&mut send);
            cmds.append(&mut more);
            proof {
                let t = items@.take(i as int + 1);
                assert(t.drop_last() =~= items@.take(i as int));
                assert(t.last() == items@[i as int]);
                let n = before_cmds.len() as int;
                assert(cmds@.take(n) =~= before_cmds);
                assert(cmds@.skip(n) =~= log_cmds(x.0, r) + send_cmds(*x));
                assert(resent(*old(self), mid, t.drop_last(), cmds@.take(n)));
                assert(status_marked(mid, *self, t.last().0, t.last().1, MessageStatus::Sending, r));
                assert(t.len() > 0);
                assert(resent(*old(self), *self, t, cmds@));
            }
            i = i + 1;
        }
        assert(items@.take(items@.len() as int) =~= items@);
        cmds
    }

    /// Follows a tick, a script request or a logged event: changes the
    /// model and gives what is asked of the outside in return.  `now` is
    /// the time of the event; `now_ms` the same instant in milliseconds
    /// on the clock typing is measured by.
    pub fn handle_system_event(&mut self, event: SystemEvent, now: Timestamp, now_ms: u64) -> (cmds: Vec<Cmd>)
        requires
            old(self).wf(),
            room_for_message(*old(self)),
            old(self).tick_count < u64::MAX,
        ensures
            final(self).wf(),
            system_event_handled(*old(self), *final(self), event, now, now_ms, cmds@),
    {
        match event {
            SystemEvent::Tick => {
                let mut cmds: Vec<Cmd> = Vec::new();
                let out = self.ui.is_typing_sent && match self.ui.last_typing_activity {
                    Some(last) => (if now_ms >= last { now_ms - last } else { 0 }) > 3000,
                    None => false,
                };
                if out {
                    self.ui.is_typing_sent = false;
                    match self.active_window_id() {
                        WindowId::Friend(pk) => cmds.push(Cmd::Tox(ToxAction::SetTyping(pk, false))),
                        _ => {},
                    }
                }
                let ghost first = cmds@;
                self.tick_count = self.tick_count + 1;
                if self.tick_count % 25 == 0 {
                    let items = self.pending_texts();
                    let mut more = self.resend(&items);
                    let ghost more0 = more@;
                    cmds.append(&mut more);
                    proof {
                        assert(cmds@.take(first.len() as int) =~= first);
                        assert(cmds@.skip(first.len() as int) =~= more0);
                    }
                } else {
                    proof {
                        assert(cmds@.take(first.len() as int) =~= first);
                    }
                }
                cmds
            },
            SystemEvent::Log { severity, context, message } => {
                let kind = match severity {
                    LogSeverity::Info => ConsoleMessageType::Info,
                    LogSeverity::Warning => ConsoleMessageType::Status,
                    LogSeverity::Error => ConsoleMessageType::Error,
                };
                self.add_console_message(kind, message.clone(), now);
                let ghost m1 = *self;
                let w = match context {
                    LogContext::Global => None,
                    LogContext::Friend(pk) => Some(WindowId::Friend(pk)),
                    LogContext::Group(g) => Some(WindowId::Group(g)),
                };
                match (severity, w) {
                    (LogSeverity::Error, Some(w)) => {
                        proof {
                            lemma_room_kept(*old(self), *old(self));
                            assert(console_added(*old(self), m1, console_kind(severity), message@, now));
                            assert forall|i: int| 0 <= i < m1.ui.window_state@.len() implies #[trigger] m1.ui.window_state@[i].1.unread_count
                                < usize::MAX by {
                                assert(m1.ui.window_state@[i].1.unread_count == old(self).ui.window_state@[i].1.unread_count);
                            };
                            lemma_room(m1, w);
                        }
                        let r = self.add_system_message_to(w, ConsoleMessageType::Error, text_content(message), now);
                        log_request(w, r)
                    },
                    _ => Vec::new(),
                }
            },
            SystemEvent::ScriptRequest(_) => Vec::new(),
        }
    }
}

} // verus!
