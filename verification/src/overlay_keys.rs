//! Keys taken before chat or navigation sees them: dismissing the QR
//! code, Esc, and the keys of an open quick switcher, emoji picker or
//! command menu.
use crate::command_menu::{completion_spec, next_selection, previous_selection, strings_view, CommandMenuState};
use crate::domain::{
    first_index, fresh_window_state, key_pos, key_position, lemma_first_index, lemma_key_pos, lemma_keys_concrete_eq,
    log_count, lookup, messages_in, position_of, window_shown, DomainState, Key32, Model, UiState, WindowId,
};
use crate::input_box::{str_inserted, InputBoxState};
use crate::input_keys::{action_effect, key_action_spec, InputEvent, KeyCode, KeyEvent};
use crate::input_layout::same_str;
use crate::message_list::MessageListState;
use crate::model::{UiMode, WindowUiState};
use crate::nav_keys::{list_changed, list_of, value_set, with_entry};
use crate::chat_keys::{completion_off, with_input};
use crate::pickers::{
    next_item_index, picker_listed, previous_item_index, switcher_listed, EmojiPickerState, QuickSwitcherState,
};
use crate::text::{byte_len, push_all, str_chars, string_from_chars};
use crate::utils::{encode_hex, hex_encoding};
use vstd::prelude::*;

verus! {

broadcast use vstd::std_specs::vec::group_vec_axioms;

/// An input box that can take any key: its cursor, selection and layout
/// are sound and its texts leave room to grow.
pub open spec fn edit_ready(i: InputBoxState) -> bool {
    &&& i.wf()
    &&& i.sel_ok()
    &&& i.layout_ok()
    &&& byte_len(i.text@) + 4 <= usize::MAX
    &&& byte_len(i.text@) + byte_len(i.clipboard@) <= usize::MAX
    &&& 3 * (i.prompt@.len() + i.text@.len()) <= usize::MAX
}

/// The list with its newest entry selected, when nothing was selected
/// and there are entries.
pub open spec fn selected_last(l: MessageListState, count: int) -> MessageListState {
    if l.selected_index is None && count > 0 {
        MessageListState { selected_index: Some((count - 1) as usize), ..l }
    } else {
        l
    }
}

/// `a` is `b` after Esc: it closes the command menu, else the quick
/// switcher, else the emoji picker, else tab completion; with none of
/// them open it switches between chat and navigation mode, and entering
/// navigation selects the newest entry of the shown window when none was.
pub open spec fn escaped(b: Model, a: Model) -> bool {
    if b.ui.command_menu is Some {
        a == (Model { ui: UiState { command_menu: None, ..b.ui }, ..b })
    } else if b.ui.quick_switcher is Some {
        a == (Model { ui: UiState { quick_switcher: None, ..b.ui }, ..b })
    } else if b.ui.emoji_picker is Some {
        a == (Model { ui: UiState { emoji_picker: None, ..b.ui }, ..b })
    } else if b.ui.completion.active {
        a == completion_off(b)
    } else if b.ui.ui_mode == UiMode::Navigation {
        a == (Model { ui: UiState { ui_mode: UiMode::Chat, ..b.ui }, ..b })
    } else {
        let id = b.active_id();
        let count = messages_in(b, id);
        let k = key_pos(a.ui.window_state@, id);
        let n = a.ui.window_state@[k].1;
        &&& a == (Model {
            ui: UiState { ui_mode: UiMode::Navigation, window_state: a.ui.window_state, ..b.ui },
            ..b
        })
        &&& k >= 0
        &&& match lookup(b.ui.window_state@, id) {
            Some(o) => a.ui.window_state@ == b.ui.window_state@.update(
                k,
                (id, WindowUiState { msg_list_state: selected_last(o.msg_list_state, count as int), ..o }),
            ),
            None => {
                let unselected = MessageListState { selected_index: None, ..n.msg_list_state };
                &&& a.ui.window_state@ == b.ui.window_state@.push((id, n))
                &&& fresh_window_state(WindowUiState { msg_list_state: unselected, ..n })
                &&& n.msg_list_state == selected_last(unselected, count as int)
            },
        }
    }
}

/// With nothing open and no completion running, Esc switches between chat
/// and navigation mode, so a second Esc brings the first mode back.
pub proof fn law_escape_twice(b: Model, m1: Model, m2: Model)
    requires
        b.ui.command_menu is None,
        b.ui.quick_switcher is None,
        b.ui.emoji_picker is None,
        !b.ui.completion.active,
        escaped(b, m1),
        escaped(m1, m2),
    ensures
        m1.ui.ui_mode != b.ui.ui_mode,
        m2.ui.ui_mode == b.ui.ui_mode,
{
}

/// The title the quick switcher gives window `w`: the conversation's
/// name, else the friend's, else the kind and the first four bytes of
/// the key in hex; the console, log and file windows have none.
pub open spec fn window_title(d: DomainState, w: WindowId) -> Seq<char> {
    match w {
        WindowId::Friend(pk) => match lookup(d.conversations@, w) {
            Some(c) => c.name@,
            None => match lookup(d.friends@, pk) {
                Some(f) => f.name@,
                None => "Friend "@ + hex_encoding(pk.0@.take(4)),
            },
        },
        WindowId::Group(g) => match lookup(d.conversations@, w) {
            Some(c) => c.name@,
            None => "Group "@ + hex_encoding(g.0@.take(4)),
        },
        WindowId::Conference(c) => match lookup(d.conversations@, w) {
            Some(conv) => conv.name@,
            None => "Conference "@ + hex_encoding(c.0@.take(4)),
        },
        _ => Seq::<char>::empty(),
    }
}

/// The first of `ids` titled `name`, or -1.
pub open spec fn first_titled(d: DomainState, ids: Seq<WindowId>, name: Seq<char>) -> int
    decreases ids.len(),
{
    if ids.len() == 0 {
        -1
    } else {
        let before = first_titled(d, ids.drop_last(), name);
        if before >= 0 {
            before
        } else if window_title(d, ids.last()) == name {
            ids.len() - 1
        } else {
            -1
        }
    }
}

/// The window the quick switcher goes to for the entry named `name`, or
/// -1: the console for `Status`, the log and file windows by their names
/// when they are open, else the first window titled so.
pub open spec fn switch_target(m: Model, name: Seq<char>) -> int {
    let ids = m.ui.window_ids@;
    if name == "Status"@ {
        0
    } else if name == "Logs"@ && first_index(ids, WindowId::Logs) >= 0 {
        first_index(ids, WindowId::Logs)
    } else if name == "Files"@ && first_index(ids, WindowId::Files) >= 0 {
        first_index(ids, WindowId::Files)
    } else {
        first_titled(m.domain, ids, name)
    }
}

/// The name of the entry the switcher has selected, if it lists one.
pub open spec fn switcher_choice(s: QuickSwitcherState) -> Option<Seq<char>> {
    let l = switcher_listed(s.items@, s.input_state.text@);
    match s.selected {
        Some(i) => if i < l.len() {
            Some(l[i as int].0)
        } else {
            None
        },
        None => None,
    }
}

/// A key that resets a list's selection to the top.
pub open spec fn filter_key(code: KeyCode) -> bool {
    code is Char || code == KeyCode::Backspace || code == KeyCode::Delete
}

/// `m` with the quick switcher replaced by `s`.
pub open spec fn with_switcher(m: Model, s: QuickSwitcherState) -> Model {
    Model { ui: UiState { quick_switcher: Some(s), ..m.ui }, ..m }
}

/// `a` is `b` after `key` reached the open quick switcher: the arrows
/// move its selection, Enter goes to the selected entry's window and
/// closes it, and any other key edits its query (a typed character or a
/// deletion also selects the first entry).
pub open spec fn switcher_key(b: Model, a: Model, key: KeyEvent) -> bool {
    let s = b.ui.quick_switcher.unwrap();
    let count = switcher_listed(s.items@, s.input_state.text@).len() as int;
    let closed = Model { ui: UiState { quick_switcher: None, ..b.ui }, ..b };
    match key.code {
        KeyCode::Up => a == with_switcher(b, QuickSwitcherState { selected: previous_selection(s.selected, count), ..s }),
        KeyCode::Down => a == with_switcher(b, QuickSwitcherState { selected: next_selection(s.selected, count), ..s }),
        KeyCode::Enter => match switcher_choice(s) {
            Some(name) => if switch_target(b, name) >= 0 {
                window_shown(closed, a, switch_target(b, name) as usize)
            } else {
                a == closed
            },
            None => a == closed,
        },
        _ => {
            let n = a.ui.quick_switcher.unwrap();
            &&& a.ui.quick_switcher is Some
            &&& a == with_switcher(b, n)
            &&& n.items == s.items
            &&& action_effect(
                s.input_state,
                n.input_state,
                key_action_spec(InputEvent::Key(key), s.input_state.mode_spec()),
            )
            &&& n.selected == if filter_key(key.code) {
                Some(0usize)
            } else {
                s.selected
            }
        },
    }
}

/// `m` with the emoji picker's selection at `j`.
pub open spec fn picker_at(m: Model, j: int) -> Model {
    Model {
        ui: UiState {
            emoji_picker: Some(EmojiPickerState { selected_index: j as usize, ..m.ui.emoji_picker.unwrap() }),
            ..m.ui
        },
        ..m
    }
}

/// The selection a row down in a grid of `cols`, or the next emoji on
/// the last row, wrapping to the first.
pub open spec fn row_down(i: int, cols: int, count: int) -> int {
    if count == 0 {
        i
    } else if i + cols < count {
        i + cols
    } else if i + 1 < count {
        i + 1
    } else {
        0
    }
}

/// The selection a row up in a grid of `cols`, or the previous emoji on
/// the first row, wrapping to the last.
pub open spec fn row_up(i: int, cols: int, count: int) -> int {
    if count == 0 {
        i
    } else if i >= cols {
        i - cols
    } else if i > 0 {
        i - 1
    } else {
        count - 1
    }
}

/// `a` is `b` after `key` reached the open emoji picker over `table`:
/// the arrows move through the grid, Enter types the selected emoji into
/// the input and closes the picker, and any other key edits the search (a
/// typed character or a deletion also selects the first emoji).
pub open spec fn picker_key(b: Model, a: Model, key: KeyEvent, table: Seq<(String, String)>) -> bool {
    let p = b.ui.emoji_picker.unwrap();
    let l = picker_listed(p.input_state.text@, table);
    let count = l.len() as int;
    let i = p.selected_index as int;
    let cols = p.grid_state.cols as int;
    match key.code {
        KeyCode::Up => a == picker_at(b, row_up(i, cols, count)),
        KeyCode::Down => a == picker_at(b, row_down(i, cols, count)),
        KeyCode::Left => a == picker_at(b, previous_item_index(i, count)),
        KeyCode::Right => a == picker_at(b, next_item_index(i, count)),
        KeyCode::Enter => {
            &&& a == (Model { ui: UiState { emoji_picker: None, input_state: a.ui.input_state, ..b.ui }, ..b })
            &&& if i < count {
                str_inserted(b.ui.input_state, a.ui.input_state, l[i])
            } else {
                a.ui.input_state == b.ui.input_state
            }
        },
        _ => {
            let n = a.ui.emoji_picker.unwrap();
            &&& a.ui.emoji_picker is Some
            &&& a == (Model { ui: UiState { emoji_picker: Some(n), ..b.ui }, ..b })
            &&& n.grid_state == p.grid_state
            &&& action_effect(
                p.input_state,
                n.input_state,
                key_action_spec(InputEvent::Key(key), p.input_state.mode_spec()),
            )
            &&& n.selected_index == if filter_key(key.code) {
                0
            } else {
                p.selected_index
            }
        },
    }
}

/// What Tab writes into the input from the open command menu, if an
/// entry is highlighted.
pub open spec fn menu_completion(c: CommandMenuState) -> Option<Seq<char>> {
    match c.selected {
        Some(i) => if i < c.listed().len() {
            Some(completion_spec(strings_view(c.parent_path@), c.listed()[i as int]))
        } else {
            None
        },
        None => None,
    }
}

/// `m` with the command menu replaced by `c`.
pub open spec fn with_menu(m: Model, c: CommandMenuState) -> Model {
    Model { ui: UiState { command_menu: Some(c), ..m.ui }, ..m }
}

/// `a` is `b` after an arrow or Tab reached the open command menu: the
/// arrows move its selection, Tab writes the highlighted command into the
/// input.
pub open spec fn menu_key(b: Model, a: Model, code: KeyCode) -> bool {
    let c = b.ui.command_menu.unwrap();
    let count = c.listed().len() as int;
    match code {
        KeyCode::Up => a == with_menu(b, CommandMenuState { selected: previous_selection(c.selected, count), ..c }),
        KeyCode::Down => a == with_menu(b, CommandMenuState { selected: next_selection(c.selected, count), ..c }),
        _ => match menu_completion(c) {
            Some(t) => a == with_input(b, a.ui.input_state) && value_set(b.ui.input_state, a.ui.input_state, t),
            None => a == b,
        },
    }
}

/// `a` is `b` after `key`, with `table` the emojis on offer, and
/// `handled` whether the key was taken here: a shown QR code is dismissed
/// by any key; then Esc; then the open quick switcher or emoji picker
/// takes every key, and the open command menu the arrows and Tab.
pub open spec fn overlay_key_done(b: Model, a: Model, key: KeyEvent, table: Seq<(String, String)>, handled: bool) -> bool {
    if b.ui.show_qr {
        handled && a == (Model { ui: UiState { show_qr: false, ..b.ui }, ..b })
    } else if key.code == KeyCode::Esc {
        handled && escaped(b, a)
    } else if b.ui.quick_switcher is Some {
        handled && switcher_key(b, a, key)
    } else if b.ui.emoji_picker is Some {
        handled && picker_key(b, a, key, table)
    } else if b.ui.command_menu is Some && (key.code == KeyCode::Up || key.code == KeyCode::Down || key.code
        == KeyCode::Tab) {
        handled && menu_key(b, a, key.code)
    } else {
        !handled && a == b
    }
}

/// What `overlay_key_done` asks of the state for `key`.
pub open spec fn overlay_ready(m: Model, table: Seq<(String, String)>) -> bool {
    &&& m.wf()
    &&& log_count(m.domain.tox_logs@) <= usize::MAX
    &&& m.ui.input_state.wf()
    &&& (m.ui.quick_switcher matches Some(s) ==> edit_ready(s.input_state))
    &&& (m.ui.emoji_picker matches Some(p) ==> {
        let l = picker_listed(p.input_state.text@, table);
        &&& edit_ready(p.input_state)
        &&& (l.len() == 0 || p.selected_index < usize::MAX)
        &&& m.ui.input_state.sel_ok()
        &&& forall|j: int| 0 <= j < l.len() ==> byte_len(m.ui.input_state.text@) + byte_len(#[trigger] l[j]) <= usize::MAX
    })
    &&& (m.ui.command_menu matches Some(c) ==> c.wf())
}

proof fn lemma_first_titled_prefix(m: DomainState, ids: Seq<WindowId>, name: Seq<char>, n: int)
    requires
        0 <= n <= ids.len(),
        first_titled(m, ids.take(n), name) >= 0,
    ensures
        first_titled(m, ids, name) == first_titled(m, ids.take(n), name),
    decreases ids.len() - n,
{
    if n < ids.len() {
        assert(ids.take(n + 1).drop_last() =~= ids.take(n));
        lemma_first_titled_prefix(m, ids, name, n + 1);
    } else {
        assert(ids.take(n) =~= ids);
    }
}

/// `kind` followed by the first four bytes of `k` in hex.
fn short_title(kind: &str, k: &Key32) -> (r: String)
    ensures
        r@ == kind@ + hex_encoding(k.0@.take(4)),
{
    let mut cs = str_chars(kind);
    let mut b: Vec<u8> = Vec::new();
    b.push(k.0[0]);
    b.push(k.0[1]);
    b.push(k.0[2]);
    b.push(k.0[3]);
    assert(b@ =~= k.0@.take(4));
    let hex = encode_hex(b.as_slice());
    push_all(&mut cs, str_chars(hex.as_str()).as_slice());
    string_from_chars(cs.as_slice())
}

impl Model {
    /// The title the quick switcher gives window `w`.
    fn window_title_of(&self, w: WindowId) -> (r: String)
        ensures
            r@ == window_title(self.domain, w),
    {
        proof {
            lemma_keys_concrete_eq();
            lemma_key_pos(self.domain.conversations@, w);
        }
        match w {
            WindowId::Friend(pk) => {
                proof {
                    lemma_key_pos(self.domain.friends@, pk);
                }
                match key_position(&self.domain.conversations, &w) {
                    Some(i) => self.domain.conversations[i].1.name.clone(),
                    None => match key_position(&self.domain.friends, &pk) {
                        Some(j) => self.domain.friends[j].1.name.clone(),
                        None => short_title("Friend ", &pk),
                    },
                }
            },
            WindowId::Group(g) => match key_position(&self.domain.conversations, &w) {
                Some(i) => self.domain.conversations[i].1.name.clone(),
                None => short_title("Group ", &g),
            },
            WindowId::Conference(c) => match key_position(&self.domain.conversations, &w) {
                Some(i) => self.domain.conversations[i].1.name.clone(),
                None => short_title("Conference ", &c),
            },
            _ => String::new(),
        }
    }

    /// The window the quick switcher goes to for the entry `name`.
    fn switch_target_of(&self, name: &str) -> (r: Option<usize>)
        requires
            self.wf(),
        ensures
            match r {
                Some(i) => i as int == switch_target(*self, name@) && i < self.ui.window_ids@.len(),
                None => switch_target(*self, name@) == -1,
            },
    {
        proof {
            lemma_keys_concrete_eq();
            lemma_first_index(self.ui.window_ids@, WindowId::Logs);
            lemma_first_index(self.ui.window_ids@, WindowId::Files);
        }
        if same_str(name, "Status") {
            return Some(0);
        }
        if same_str(name, "Logs") {
            match position_of(&self.ui.window_ids, &WindowId::Logs) {
                Some(p) => {
                    return Some(p);
                },
                None => {},
            }
        }
        if same_str(name, "Files") {
            match position_of(&self.ui.window_ids, &WindowId::Files) {
                Some(p) => {
                    return Some(p);
                },
                None => {},
            }
        }
        let ghost ids = self.ui.window_ids@;
        let mut i: usize = 0;
        assert(ids.take(0) =~= Seq::<WindowId>::empty());
        while i < self.ui.window_ids.len()
            invariant
                i <= ids.len(),
                ids == self.ui.window_ids@,
                first_titled(self.domain, ids.take(i as int), name@) == -1,
                name@ != "Status"@,
                name@ == "Logs"@ ==> first_index(ids, WindowId::Logs) == -1,
                name@ == "Files"@ ==> first_index(ids, WindowId::Files) == -1,
            decreases ids.len() - i,
        {
            assert(ids.take(i as int + 1).drop_last() =~= ids.take(i as int));
            let t = self.window_title_of(self.ui.window_ids[i]);
            if same_str(t.as_str(), name) {
                proof {
                    assert(ids.take(i as int + 1).last() == ids[i as int]);
                    assert(first_titled(self.domain, ids.take(i as int + 1), name@) == i);
                    lemma_first_titled_prefix(self.domain, ids, name@, i as int + 1);
                }
                return Some(i);
            }
            i = i + 1;
        }
        assert(ids.take(i as int) =~= ids);
        None
    }

    /// Esc: closes what is open, or switches between chat and navigation.
    fn escape(&mut self)
        requires
            old(self).wf(),
            log_count(old(self).domain.tox_logs@) <= usize::MAX,
        ensures
            final(self).wf(),
            escaped(*old(self), *final(self)),
    {
        if self.ui.command_menu.is_some() {
            self.ui.command_menu = None;
        } else if self.ui.quick_switcher.is_some() {
            self.ui.quick_switcher = None;
        } else if self.ui.emoji_picker.is_some() {
            self.ui.emoji_picker = None;
        } else if self.ui.completion.active {
            self.ui.completion.active = false;
        } else {
            match self.ui.ui_mode {
                UiMode::Navigation => {
                    self.ui.ui_mode = UiMode::Chat;
                },
                UiMode::Chat => {
                    self.ui.ui_mode = UiMode::Navigation;
                    let id = self.active_window_id();
                    let count = self.total_messages_for(id);
                    let ghost m0 = *self;
                    let k = self.window_state_entry(id);
                    let ghost m1 = *self;
                    proof {
                        lemma_keys_concrete_eq();
                        lemma_key_pos(m0.ui.window_state@, id);
                        lemma_key_pos(m1.ui.window_state@, id);
                    }
                    let l = self.list_at(k);
                    if l.selected_index.is_none() && count > 0 {
                        let l2 = MessageListState { selected_index: Some(count - 1), ..l };
                        self.set_list(k, l2);
                        proof {
                            crate::domain::lemma_key_pos_update(
                                m1.ui.window_state@,
                                k as int,
                                self.ui.window_state@[k as int].1,
                                id,
                            );
                            assert(self.ui.window_state@ =~= m1.ui.window_state@.update(
                                k as int,
                                (id, self.ui.window_state@[k as int].1),
                            ));
                        }
                    }
                    proof {
                        match lookup(m0.ui.window_state@, id) {
                            Some(o) => {
                                assert(m1.ui.window_state@ == m0.ui.window_state@);
                                assert(self.ui.window_state@ =~= old(self).ui.window_state@.update(
                                    k as int,
                                    (id, WindowUiState { msg_list_state: selected_last(o.msg_list_state, count as int), ..o }),
                                ));
                            },
                            None => {
                                assert(self.ui.window_state@ =~= old(self).ui.window_state@.push(
                                    (id, self.ui.window_state@[k as int].1),
                                ));
                            },
                        }
                    }
                },
            }
        }
    }

    /// The name of the entry the switcher `s` has selected.
    fn choice_of(s: &QuickSwitcherState) -> (r: Option<String>)
        ensures
            match r {
                Some(n) => switcher_choice(*s) == Some(n@),
                None => switcher_choice(*s) is None,
            },
    {
        let items = s.filtered_items();
        match s.selected {
            Some(i) => if i < items.len() {
                let ghost l = switcher_listed(s.items@, s.input_state.text@);
                assert(l[i as int] == crate::pickers::item_view(*items@[i as int]));
                Some(items[i].name.clone())
            } else {
                None
            },
            None => None,
        }
    }

    /// A key while the quick switcher is open.
    fn switcher_key_exec(&mut self, key: KeyEvent)
        requires
            old(self).wf(),
            old(self).ui.quick_switcher matches Some(s) && edit_ready(s.input_state),
        ensures
            final(self).wf(),
            switcher_key(*old(self), *final(self), key),
    {
        let mut s = self.ui.quick_switcher.take().unwrap();
        match key.code {
            KeyCode::Up => {
                s.previous();
                self.ui.quick_switcher = Some(s);
            },
            KeyCode::Down => {
                s.next();
                self.ui.quick_switcher = Some(s);
            },
            KeyCode::Enter => {
                match Self::choice_of(&s) {
                    Some(name) => match self.switch_target_of(name.as_str()) {
                        Some(i) => self.set_active_window(i),
                        None => {},
                    },
                    None => {},
                }
            },
            _ => {
                let _ = s.input_state.handle_event(&InputEvent::Key(key));
                match key.code {
                    KeyCode::Char(_) | KeyCode::Backspace | KeyCode::Delete => {
                        s.selected = Some(0);
                    },
                    _ => {},
                }
                self.ui.quick_switcher = Some(s);
            },
        }
    }

    /// A key while the emoji picker over `table` is open.
    fn picker_key_exec(&mut self, key: KeyEvent, table: &[(String, String)])
        requires
            overlay_ready(*old(self), table@),
            old(self).ui.emoji_picker is Some,
        ensures
            final(self).wf(),
            picker_key(*old(self), *final(self), key, table@),
    {
        let mut p = self.ui.emoji_picker.take().unwrap();
        let cols = p.grid_state.cols;
        match key.code {
            KeyCode::Up => {
                p.previous(cols, table);
                self.ui.emoji_picker = Some(p);
            },
            KeyCode::Down => {
                p.next(cols, table);
                self.ui.emoji_picker = Some(p);
            },
            KeyCode::Left => {
                p.previous_item(table);
                self.ui.emoji_picker = Some(p);
            },
            KeyCode::Right => {
                p.next_item(table);
                self.ui.emoji_picker = Some(p);
            },
            KeyCode::Enter => {
                match p.get_selected_emoji(table) {
                    Some(e) => {
                        self.ui.input_state.insert_str(e.as_str());
                    },
                    None => {},
                }
            },
            _ => {
                let _ = p.input_state.handle_event(&InputEvent::Key(key));
                match key.code {
                    KeyCode::Char(_) | KeyCode::Backspace | KeyCode::Delete => {
                        p.selected_index = 0;
                    },
                    _ => {},
                }
                self.ui.emoji_picker = Some(p);
            },
        }
    }

    /// An arrow or Tab while the command menu is open.
    fn menu_key_exec(&mut self, code: KeyCode)
        requires
            old(self).ui.command_menu matches Some(c) && c.wf(),
            old(self).ui.input_state.wf(),
        ensures
            menu_key(*old(self), *final(self), code),
    {
        match code {
            KeyCode::Up => {
                let mut c = self.ui.command_menu.take().unwrap();
                c.previous();
                self.ui.command_menu = Some(c);
            },
            KeyCode::Down => {
                let mut c = self.ui.command_menu.take().unwrap();
                c.next();
                self.ui.command_menu = Some(c);
            },
            _ => {
                let done = match &self.ui.command_menu {
                    Some(c) => c.complete(),
                    None => None,
                };
                match done {
                    Some(t) => self.ui.input_state.set_value(t),
                    None => {},
                }
            },
        }
    }

    /// Follows `key` where something takes it before chat or navigation
    /// mode (a shown QR code, Esc, an open quick switcher, emoji picker
    /// over `emojis`, or command menu), and tells whether it did.
    pub fn handle_overlay_key(&mut self, key: KeyEvent, emojis: &[(String, String)]) -> (handled: bool)
        requires
            overlay_ready(*old(self), emojis@),
        ensures
            final(self).wf(),
            overlay_key_done(*old(self), *final(self), key, emojis@, handled),
    {
        if self.ui.show_qr {
            self.ui.show_qr = false;
            return true;
        }
        match key.code {
            KeyCode::Esc => {
                self.escape();
                return true;
            },
            _ => {},
        }
        if self.ui.quick_switcher.is_some() {
            self.switcher_key_exec(key);
            return true;
        }
        if self.ui.emoji_picker.is_some() {
            self.picker_key_exec(key, emojis);
            return true;
        }
        if self.ui.command_menu.is_some() {
            match key.code {
                KeyCode::Up | KeyCode::Down | KeyCode::Tab => {
                    self.menu_key_exec(key.code);
                    return true;
                },
                _ => {},
            }
        }
        false
    }
}

} // verus!
