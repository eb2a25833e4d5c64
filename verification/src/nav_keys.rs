//! Keys in navigation mode: moving through the shown window's messages (or
//! file transfers) and acting on the selected transfer.
use crate::domain::{
    fresh_window_state, key_pos, key_position, lemma_key_pos, lemma_keys_concrete_eq, lemma_value_pos, log_count,
    lookup, messages_in, number_of, value_pos, FileId, FileTransferProgress, Key32, Message, MessageContent, Model,
    PublicKey, UiState, WindowId,
};
use crate::export::{dec, push_dec};
use crate::input_box::{pushed_undo, InputBoxState};
use crate::input_keys::{KeyCode, KeyEvent};
use crate::message_list::MessageListState;
use crate::model::{ConsoleMessageType, MessageStatus, Timestamp, TransferStatus, UiMode, WindowUiState};
use crate::msg::{Cmd, FileControl, IOAction, ToxAction};
use crate::sidebar_list::{key_less, key_less_exec};
use crate::text::{byte_len, push_all, str_chars, string_from_chars};
use crate::domain::console_added;
use vstd::prelude::*;

verus! {

broadcast use vstd::std_specs::vec::group_vec_axioms;

/// `m1` is `before` with a window state for `id` (a fresh one added at
/// the end if it had none), and nothing else changed.
pub open spec fn with_entry(before: Model, m1: Model, id: WindowId) -> bool {
    &&& m1.same_but_window_state(&before)
    &&& key_pos(m1.ui.window_state@, id) >= 0
    &&& key_pos(before.ui.window_state@, id) >= 0 ==> m1.ui.window_state@ == before.ui.window_state@
    &&& key_pos(before.ui.window_state@, id) == -1 ==> {
        &&& m1.ui.window_state@ == before.ui.window_state@.push((id, m1.ui.window_state@.last().1))
        &&& fresh_window_state(m1.ui.window_state@.last().1)
    }
}

/// The message list state of `id`'s window in `m`.
pub open spec fn list_of(m: Model, id: WindowId) -> MessageListState {
    m.ui.window_state@[key_pos(m.ui.window_state@, id)].1.msg_list_state
}

/// `after` is `m` with the message list state of `id` replaced by `l`.
pub open spec fn list_changed(m: Model, after: Model, id: WindowId, l: MessageListState) -> bool {
    let k = key_pos(m.ui.window_state@, id);
    &&& after == (Model { ui: UiState { window_state: after.ui.window_state, ..m.ui }, ..m })
    &&& after.ui.window_state@ == m.ui.window_state@.update(
        k,
        (id, WindowUiState { msg_list_state: l, ..m.ui.window_state@[k].1 }),
    )
}

/// The list after moving the selection up.
pub open spec fn moved_up(l: MessageListState) -> MessageListState {
    MessageListState {
        selected_index: match l.selected_index {
            Some(i) => Some(if i > 0 {
                (i - 1) as usize
            } else {
                0usize
            }),
            None => None,
        },
        ensure_selected_visible: true,
        ..l
    }
}

/// The list of `count` entries after moving the selection down.
pub open spec fn moved_down(l: MessageListState, count: int) -> MessageListState {
    if count == 0 {
        MessageListState { selected_index: None, ..l }
    } else {
        MessageListState {
            selected_index: Some(
                match l.selected_index {
                    Some(i) => if i + 1 < count - 1 {
                        (i + 1) as usize
                    } else {
                        (count - 1) as usize
                    },
                    None => (count - 1) as usize,
                },
            ),
            ensure_selected_visible: true,
            ..l
        }
    }
}

/// The selected message of `id`'s conversation, if any.
pub open spec fn selected_message(m: Model, id: WindowId) -> Option<Message> {
    match list_of(m, id).selected_index {
        Some(i) => match lookup(m.domain.conversations@, id) {
            Some(c) => if i < c.messages@.len() {
                Some(c.messages@[i as int])
            } else {
                None
            },
            None => None,
        },
        None => None,
    }
}

/// A transfer listed after `b` in the file manager: by the contact's key.
pub open spec fn transfer_later(a: (FileId, FileTransferProgress), b: (FileId, FileTransferProgress)) -> bool {
    key_less(b.1.friend_pk, a.1.friend_pk)
}

pub open spec fn transfer_insert_at(r: Seq<(FileId, FileTransferProgress)>, x: (FileId, FileTransferProgress)) -> int
    decreases r.len(),
{
    if r.len() == 0 {
        0
    } else if transfer_later(r.last(), x) {
        transfer_insert_at(r.drop_last(), x)
    } else {
        r.len() as int
    }
}

/// The transfers as the file manager lists them: by the contact's key,
/// transfers with the same contact in their order.
pub open spec fn listed_transfers(s: Seq<(FileId, FileTransferProgress)>) -> Seq<(FileId, FileTransferProgress)>
    decreases s.len(),
{
    if s.len() == 0 {
        Seq::empty()
    } else {
        let r = listed_transfers(s.drop_last());
        r.insert(transfer_insert_at(r, s.last()), s.last())
    }
}

/// The selected transfer of the file manager, if any.
pub open spec fn selected_transfer(m: Model) -> Option<(FileId, FileTransferProgress)> {
    let ts = listed_transfers(m.domain.file_transfers@);
    match list_of(m, WindowId::Files).selected_index {
        Some(i) => if i < ts.len() {
            Some(ts[i as int])
        } else {
            None
        },
        None => None,
    }
}

/// The command that accepts transfer `file` from contact number `f`.
pub open spec fn accept_command(f: u32, file: FileId, name: Seq<char>) -> Seq<char> {
    "/file accept "@ + dec(f as nat) + " "@ + crate::utils::hex_encoding(file.0@) + " "@ + name
}

/// `b` is input box `a` with its text set to `text` (as `set_value`
/// does).
pub open spec fn value_set(a: InputBoxState, b: InputBoxState, text: Seq<char>) -> bool {
    &&& b.wf()
    &&& b.text@ == text
    &&& b.cursor_pos == byte_len(text)
    &&& b.selection is None
    &&& b.scroll == 0
    &&& b.clipboard == a.clipboard
    &&& b.undo_entries() == pushed_undo(a.undo_entries(), (a.text@, a.cursor_pos))
    &&& b.redo_entries().len() == 0
    &&& b.mode == a.mode
    &&& b.lines == a.lines
    &&& b.prompt == a.prompt
    &&& b.last_width == 0
}

/// `after` is `m` with the input set to `text` and chat mode on.
pub open spec fn command_typed(m: Model, after: Model, text: Seq<char>) -> bool {
    &&& after == (Model {
        ui: UiState { input_state: after.ui.input_state, ui_mode: UiMode::Chat, ..m.ui },
        ..m
    })
    &&& value_set(m.ui.input_state, after.ui.input_state, text)
}

/// `after` is `m` in chat mode.
pub open spec fn chat_mode(m: Model, after: Model) -> bool {
    after == (Model { ui: UiState { ui_mode: UiMode::Chat, ..m.ui }, ..m })
}

/// What a key does in a conversation window in navigation mode, once the
/// window has a state (`m`).
pub open spec fn conversation_key(m: Model, after: Model, id: WindowId, code: KeyCode, cmds: Seq<Cmd>) -> bool {
    let l = list_of(m, id);
    let sel = selected_message(m, id);
    match code {
        KeyCode::Up => list_changed(m, after, id, moved_up(l)) && cmds.len() == 0,
        KeyCode::Down => list_changed(m, after, id, moved_down(l, messages_in(m, id))) && cmds.len() == 0,
        KeyCode::Char('a') => after == m && cmds =~= match (id, sel) {
            (WindowId::Friend(pk), Some(msg)) => match msg.content {
                MessageContent::FileTransfer { file_id: Some(file), name, size, is_incoming, .. } => if is_incoming
                    && msg.status != MessageStatus::Received {
                    seq![
                        Cmd::IO(IOAction::OpenFileForReceiving(pk, file, name, size)),
                        Cmd::Tox(ToxAction::FileControl(pk, file, FileControl::Resume)),
                    ]
                } else {
                    Seq::empty()
                },
                _ => Seq::empty(),
            },
            _ => Seq::empty(),
        },
        KeyCode::Char('x') | KeyCode::Char('p') => after == m && cmds =~= match (id, sel) {
            (WindowId::Friend(pk), Some(msg)) => match msg.content {
                MessageContent::FileTransfer { file_id: Some(file), .. } => if msg.status == MessageStatus::Incoming
                    || msg.status == MessageStatus::Pending {
                    seq![
                        Cmd::Tox(
                            ToxAction::FileControl(
                                pk,
                                file,
                                if code == KeyCode::Char('x') {
                                    FileControl::Cancel
                                } else if (match lookup(m.domain.file_transfers@, file) {
                                    Some(p) => p.status == TransferStatus::Paused,
                                    None => false,
                                }) {
                                    FileControl::Resume
                                } else {
                                    FileControl::Pause
                                },
                            ),
                        ),
                    ]
                } else {
                    Seq::empty()
                },
                _ => Seq::empty(),
            },
            _ => Seq::empty(),
        },
        KeyCode::Char('o') => cmds.len() == 0 && match (id, sel) {
            (WindowId::Friend(pk), Some(msg)) => match msg.content {
                MessageContent::FileTransfer { file_id: Some(file), name, is_incoming, .. } => {
                    let f = value_pos(m.session.friend_numbers@, pk);
                    if is_incoming && f >= 0 {
                        command_typed(m, after, accept_command(m.session.friend_numbers@[f].0, file, name@))
                    } else {
                        after == m
                    }
                },
                _ => after == m,
            },
            _ => after == m,
        },
        KeyCode::Enter | KeyCode::Char('i') => chat_mode(m, after) && cmds.len() == 0,
        _ => after == m && cmds.len() == 0,
    }
}

/// What a key does in the file manager in navigation mode, once it has a
/// state (`m`); `now` is the time of a console line.
pub open spec fn files_key(m: Model, after: Model, code: KeyCode, now: Timestamp, cmds: Seq<Cmd>) -> bool {
    let l = list_of(m, WindowId::Files);
    let sel = selected_transfer(m);
    match code {
        KeyCode::Up => list_changed(m, after, WindowId::Files, moved_up(l)) && cmds.len() == 0,
        KeyCode::Down => list_changed(m, after, WindowId::Files, moved_down(l, m.domain.file_transfers@.len() as int))
            && cmds.len() == 0,
        KeyCode::Char('a') => after == m && cmds =~= match sel {
            Some((file, p)) => if p.is_receiving {
                seq![
                    Cmd::IO(IOAction::OpenFileForReceiving(p.friend_pk, file, p.filename, p.total_size)),
                    Cmd::Tox(ToxAction::FileControl(p.friend_pk, file, FileControl::Resume)),
                ]
            } else {
                Seq::empty()
            },
            None => Seq::empty(),
        },
        KeyCode::Char('x') => after == m && cmds =~= match sel {
            Some((file, p)) => seq![Cmd::Tox(ToxAction::FileControl(p.friend_pk, file, FileControl::Cancel))],
            None => Seq::empty(),
        },
        KeyCode::Char('p') => after == m && cmds =~= match sel {
            Some((file, p)) => seq![
                Cmd::Tox(
                    ToxAction::FileControl(
                        p.friend_pk,
                        file,
                        if p.status == TransferStatus::Paused {
                            FileControl::Resume
                        } else {
                            FileControl::Pause
                        },
                    ),
                ),
            ],
            None => Seq::empty(),
        },
        KeyCode::Char('o') => cmds.len() == 0 && match sel {
            Some((file, p)) => if p.is_receiving {
                let f = value_pos(m.session.friend_numbers@, p.friend_pk);
                if f >= 0 {
                    command_typed(m, after, accept_command(m.session.friend_numbers@[f].0, file, p.filename@))
                } else {
                    console_added(
                        m,
                        after,
                        ConsoleMessageType::Error,
                        "Friend number not found for file transfer (needed for command)"@,
                        now,
                    )
                }
            } else {
                after == m
            },
            None => after == m,
        },
        KeyCode::Enter | KeyCode::Char('i') => chat_mode(m, after) && cmds.len() == 0,
        _ => after == m && cmds.len() == 0,
    }
}

/// What a key does in navigation mode: the shown window gets a state if it
/// had none, then the key acts on the file manager or on the window's
/// messages.
pub open spec fn navigation_key_handled(before: Model, after: Model, key: KeyEvent, now: Timestamp, cmds: Seq<Cmd>) -> bool {
    let id = before.active_id();
    exists|m1: Model|
        #![trigger with_entry(before, m1, id)]
        {
            &&& with_entry(before, m1, id)
            &&& if id == WindowId::Files {
                files_key(m1, after, key.code, now, cmds)
            } else {
                conversation_key(m1, after, id, key.code, cmds)
            }
        }
}

proof fn lemma_transfer_insert_at(r: Seq<(FileId, FileTransferProgress)>, x: (FileId, FileTransferProgress))
    ensures
        0 <= transfer_insert_at(r, x) <= r.len(),
    decreases r.len(),
{
    if r.len() > 0 {
        lemma_transfer_insert_at(r.drop_last(), x);
    }
}

proof fn lemma_listed_len(s: Seq<(FileId, FileTransferProgress)>)
    ensures
        listed_transfers(s).len() == s.len(),
    decreases s.len(),
{
    if s.len() > 0 {
        lemma_listed_len(s.drop_last());
        lemma_transfer_insert_at(listed_transfers(s.drop_last()), s.last());
    }
}

/// A copy of a transfer.
fn copy_transfer(x: &(FileId, FileTransferProgress)) -> (r: (FileId, FileTransferProgress))
    ensures
        r == *x,
{
    let p = &x.1;
    (
        x.0,
        FileTransferProgress {
            filename: p.filename.clone(),
            total_size: p.total_size,
            transferred: p.transferred,
            is_receiving: p.is_receiving,
            status: p.status,
            file_kind: p.file_kind,
            file_path: match &p.file_path {
                Some(s) => Some(s.clone()),
                None => None,
            },
            last_transferred: p.last_transferred,
            friend_pk: p.friend_pk,
        },
    )
}

/// The transfers as the file manager lists them.
fn list_transfers(s: &Vec<(FileId, FileTransferProgress)>) -> (r: Vec<(FileId, FileTransferProgress)>)
    ensures
        r@ == listed_transfers(s@),
{
    let mut r: Vec<(FileId, FileTransferProgress)> = Vec::new();
    let mut i: usize = 0;
    assert(s@.take(0) =~= Seq::<(FileId, FileTransferProgress)>::empty());
    while i < s.len()
        invariant
            i <= s@.len(),
            r@ == listed_transfers(s@.take(i as int)),
        decreases s@.len() - i,
    {
        assert(s@.take(i as int + 1).drop_last() =~= s@.take(i as int));
        let x = copy_transfer(&s[i]);
        let mut j: usize = r.len();
        proof {
            assert(r@.take(j as int) =~= r@);
        }
        while j > 0 && key_less_exec(&x.1.friend_pk, &r[j - 1].1.friend_pk)
            invariant
                j <= r@.len(),
                transfer_insert_at(r@, x) == transfer_insert_at(r@.take(j as int), x),
            decreases j,
        {
            assert(r@.take(j as int).drop_last() =~= r@.take(j as int - 1));
            j = j - 1;
        }
        proof {
            if j > 0 {
                assert(r@.take(j as int).last() == r@[j as int - 1]);
            }
            lemma_transfer_insert_at(r@, x);
        }
        r.insert(j, x);
        i = i + 1;
    }
    assert(s@.take(s@.len() as int) =~= s@);
    r
}

/// The command that accepts transfer `file` from contact number `f`.
fn accept_text(f: u32, file: &FileId, name: &str) -> (r: String)
    ensures
        r@ == accept_command(f, *file, name@),
{
    let mut cs = str_chars("/file accept ");
    push_dec(&mut cs, f as u64);
    push_all(&mut cs, str_chars(" ").as_slice());
    push_all(&mut cs, str_chars(crate::utils::encode_hex(&file.0).as_str()).as_slice());
    push_all(&mut cs, str_chars(" ").as_slice());
    push_all(&mut cs, str_chars(name).as_slice());
    string_from_chars(cs.as_slice())
}

impl Model {
    /// Replaces the message list state of the window state at `k`.
    pub(crate) fn set_list(&mut self, k: usize, l: MessageListState)
        requires
            old(self).wf(),
            k < old(self).ui.window_state@.len(),
        ensures
            final(self).wf(),
            list_changed(*old(self), *final(self), old(self).ui.window_state@[k as int].0, l),
    {
        let ghost before = self.ui.window_state@;
        let ghost id = before[k as int].0;
        proof {
            crate::domain::lemma_key_pos_unique(before, id, k as int);
        }
        self.ui.window_state[k].1.msg_list_state = l;
        proof {
            assert(self.ui.window_state@ =~= before.update(
                k as int,
                (id, WindowUiState { msg_list_state: l, ..before[k as int].1 }),
            ));
            assert forall|a: int, b: int| 0 <= a < b < self.ui.window_state@.len() implies self.ui.window_state@[a].0
                != self.ui.window_state@[b].0 by {
                assert(before[a].0 != before[b].0);
            };
        }
    }

    /// Types `text` into the input and turns chat mode on.
    fn type_command(&mut self, text: String)
        requires
            old(self).ui.input_state.wf(),
        ensures
            command_typed(*old(self), *final(self), text@),
    {
        self.ui.input_state.set_value(text);
        self.ui.ui_mode = UiMode::Chat;
    }

    /// The list state of window state `k`, copied.
    pub(crate) fn list_at(&self, k: usize) -> (l: MessageListState)
        requires
            k < self.ui.window_state@.len(),
        ensures
            l == self.ui.window_state@[k as int].1.msg_list_state,
    {
        let s = &self.ui.window_state[k].1.msg_list_state;
        MessageListState {
            scroll: s.scroll,
            selected_index: s.selected_index,
            last_rendered_count: s.last_rendered_count,
            total_height: s.total_height,
            ensure_selected_visible: s.ensure_selected_visible,
        }
    }

    /// Follows a key in navigation mode: arrows move through the shown
    /// window's messages (or the file manager's transfers); `a`, `x` and
    /// `p` accept, cancel, pause or resume the selected transfer; `o` types
    /// the command that accepts it; Enter or `i` goes back to chat mode.
    pub fn handle_navigation_key(&mut self, key: KeyEvent, now: Timestamp) -> (cmds: Vec<Cmd>)
        requires
            old(self).wf(),
            old(self).ui.input_state.wf(),
            log_count(old(self).domain.tox_logs@) <= usize::MAX,
        ensures
            final(self).wf(),
            navigation_key_handled(*old(self), *final(self), key, now, cmds@),
    {
        proof {
            lemma_keys_concrete_eq();
        }
        let id = self.active_window_id();
        let k = self.window_state_entry(id);
        let ghost m1 = *self;
        proof {
            lemma_key_pos(self.ui.window_state@, id);
            assert(with_entry(*old(self), m1, id));
        }
        if id == WindowId::Files {
            self.files_nav(k, key.code, now)
        } else {
            self.conversation_nav(k, id, key.code)
        }
    }

    /// A key in the file manager, whose state is at `k`.
    fn files_nav(&mut self, k: usize, code: KeyCode, now: Timestamp) -> (cmds: Vec<Cmd>)
        requires
            old(self).wf(),
            old(self).ui.input_state.wf(),
            k < old(self).ui.window_state@.len(),
            k == key_pos(old(self).ui.window_state@, WindowId::Files),
        ensures
            final(self).wf(),
            files_key(*old(self), *final(self), code, now, cmds@),
    {
        proof {
            lemma_key_pos(self.ui.window_state@, WindowId::Files);
        }
        let l = self.list_at(k);
        let mut cmds: Vec<Cmd> = Vec::new();
        let ts = list_transfers(&self.domain.file_transfers);
        proof {
            lemma_listed_len(self.domain.file_transfers@);
        }
        let sel = match l.selected_index {
            Some(i) => if i < ts.len() {
                Some(copy_transfer(&ts[i]))
            } else {
                None
            },
            None => None,
        };
        match code {
            KeyCode::Up => {
                let mut l2 = l;
                l2.select_previous();
                self.set_list(k, l2);
            },
            KeyCode::Down => {
                let mut l2 = l;
                l2.select_next(self.domain.file_transfers.len());
                self.set_list(k, l2);
            },
            KeyCode::Char('a') => match sel {
                Some((file, p)) => if p.is_receiving {
                    cmds.push(Cmd::IO(IOAction::OpenFileForReceiving(p.friend_pk, file, p.filename, p.total_size)));
                    cmds.push(Cmd::Tox(ToxAction::FileControl(p.friend_pk, file, FileControl::Resume)));
                },
                None => {},
            },
            KeyCode::Char('x') => match sel {
                Some((file, p)) => cmds.push(Cmd::Tox(ToxAction::FileControl(p.friend_pk, file, FileControl::Cancel))),
                None => {},
            },
            KeyCode::Char('p') => match sel {
                Some((file, p)) => {
                    let c = if p.status == TransferStatus::Paused {
                        FileControl::Resume
                    } else {
                        FileControl::Pause
                    };
                    cmds.push(Cmd::Tox(ToxAction::FileControl(p.friend_pk, file, c)));
                },
                None => {},
            },
            KeyCode::Char('o') => match sel {
                Some((file, p)) => if p.is_receiving {
                    proof {
                        lemma_value_pos(self.session.friend_numbers@, p.friend_pk);
                    }
                    match number_of(&self.session.friend_numbers, &p.friend_pk) {
                        Some(f) => {
                            let text = accept_text(f, &file, p.filename.as_str());
                            self.type_command(text);
                        },
                        None => {
                            self.add_console_message(
                                ConsoleMessageType::Error,
                                "Friend number not found for file transfer (needed for command)".to_owned(),
                                now,
                            );
                        },
                    }
                },
                None => {},
            },
            KeyCode::Enter | KeyCode::Char('i') => {
                self.ui.ui_mode = UiMode::Chat;
            },
            _ => {},
        }
        cmds
    }

    /// A key in conversation window `id`, whose state is at `k`.
    fn conversation_nav(&mut self, k: usize, id: WindowId, code: KeyCode) -> (cmds: Vec<Cmd>)
        requires
            old(self).wf(),
            old(self).ui.input_state.wf(),
            id != WindowId::Files,
            k < old(self).ui.window_state@.len(),
            k == key_pos(old(self).ui.window_state@, id),
            log_count(old(self).domain.tox_logs@) <= usize::MAX,
        ensures
            final(self).wf(),
            conversation_key(*old(self), *final(self), id, code, cmds@),
    {
        proof {
            lemma_keys_concrete_eq();
            lemma_key_pos(self.ui.window_state@, id);
        }
        let l = self.list_at(k);
        let mut cmds: Vec<Cmd> = Vec::new();
        proof {
            lemma_key_pos(self.domain.conversations@, id);
        }
        let ci = key_position(&self.domain.conversations, &id);
        let sel: Option<usize> = match (l.selected_index, ci) {
            (Some(i), Some(c)) => if i < self.domain.conversations[c].1.messages.len() {
                Some(i)
            } else {
                None
            },
            _ => None,
        };
        match code {
            KeyCode::Up => {
                let mut l2 = l;
                l2.select_previous();
                self.set_list(k, l2);
            },
            KeyCode::Down => {
                let count = self.total_messages_for(id);
                let mut l2 = l;
                l2.select_next(count);
                self.set_list(k, l2);
            },
            KeyCode::Char('a') | KeyCode::Char('x') | KeyCode::Char('p') | KeyCode::Char('o') => {
                match (id, sel, ci) {
                    (WindowId::Friend(pk), Some(i), Some(c)) => {
                        let msg = &self.domain.conversations[c].1.messages[i];
                        match &msg.content {
                            MessageContent::FileTransfer { file_id: Some(file), name, size, is_incoming, .. } => {
                                let file = *file;
                                let waiting = msg.status == MessageStatus::Incoming || msg.status
                                    == MessageStatus::Pending;
                                if code == KeyCode::Char('a') {
                                    if *is_incoming && msg.status != MessageStatus::Received {
                                        cmds.push(Cmd::IO(IOAction::OpenFileForReceiving(pk, file, name.clone(), *size)));
                                        cmds.push(Cmd::Tox(ToxAction::FileControl(pk, file, FileControl::Resume)));
                                    }
                                } else if code == KeyCode::Char('x') {
                                    if waiting {
                                        cmds.push(Cmd::Tox(ToxAction::FileControl(pk, file, FileControl::Cancel)));
                                    }
                                } else if code == KeyCode::Char('p') {
                                    if waiting {
                                        proof {
                                            lemma_key_pos(self.domain.file_transfers@, file);
                                        }
                                        let paused = match key_position(&self.domain.file_transfers, &file) {
                                            Some(t) => self.domain.file_transfers[t].1.status == TransferStatus::Paused,
                                            None => false,
                                        };
                                        let c2 = if paused {
                                            FileControl::Resume
                                        } else {
                                            FileControl::Pause
                                        };
                                        cmds.push(Cmd::Tox(ToxAction::FileControl(pk, file, c2)));
                                    }
                                } else {
                                    if *is_incoming {
                                        proof {
                                            lemma_value_pos(self.session.friend_numbers@, pk);
                                        }
                                        match number_of(&self.session.friend_numbers, &pk) {
                                            Some(f) => {
                                                let text = accept_text(f, &file, name.as_str());
                                                self.type_command(text);
                                            },
                                            None => {},
                                        }
                                    }
                                }
                            },
                            _ => {},
                        }
                    },
                    _ => {},
                }
            },
            KeyCode::Enter | KeyCode::Char('i') => {
                self.ui.ui_mode = UiMode::Chat;
            },
            _ => {},
        }
        cmds
    }
}

} // verus!
