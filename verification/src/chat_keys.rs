//! Keys that chat mode takes for itself before the input box sees them:
//! switching and opening windows, editing shortcuts and scrolling.
use crate::domain::{
    active_state, active_state_changed, first_index, fresh_window_state, key_pos, key_position, lemma_first_index,
    lemma_key_pos, lemma_key_pos_update, lemma_keys_concrete_eq, lookup, position_of,
    window_shown, Model, UiState, WindowId,
};
use crate::history::{history_down, history_up, recalled_down, recalled_up};
use crate::input_box::{deleted_to_start, emptied, newline_typed, word_deleted_left, InputBoxState};
use crate::input_layout::{
    cached_layout, cursor_2d_from, down_target, lemma_cursor_2d_range, line_moved, lines_view, up_target,
};
use crate::input_keys::{KeyCode, KeyEvent};
use crate::model::{max_scroll, scrolled_down, scrolled_up, with_scroll, CompletionState, InputMode, WindowUiState};
use crate::msg::{AppCmd, Cmd, ToxAction};
use crate::pickers::{EmojiGridState, EmojiPickerState};
use crate::text::byte_len;
use vstd::prelude::*;

verus! {

broadcast use vstd::std_specs::vec::group_vec_axioms;

/// What a key does in chat mode before the input box sees it.
#[derive(Debug, Clone, Copy, PartialEq, Eq, Structural)]
pub enum Shortcut {
    /// Ctrl+T: single-line or multi-line input.
    ToggleInputMode,
    /// Ctrl+N.
    NextWindow,
    /// Ctrl+P.
    PreviousWindow,
    /// Ctrl+C with nothing selected.
    ClearInput,
    /// Ctrl+W.
    DeleteWordLeft,
    /// Ctrl+U.
    DeleteToStart,
    /// Ctrl+L.
    Redraw,
    /// Ctrl+F: the file manager.
    OpenFiles,
    /// Ctrl+E.
    OpenEmojiPicker,
    /// Ctrl+O.
    InsertNewline,
    /// Ctrl+B: the peer list of a group or conference.
    TogglePeers,
    /// Alt with a character: the window of that digit, if it is one.
    JumpToWindow(Option<u32>),
    /// Page Up.
    PageUp,
    /// Page Down.
    PageDown,
    /// Shift+Page Up or Ctrl+Home.
    ScrollTop,
    /// Shift+Page Down or Ctrl+End.
    ScrollBottom,
    /// A key left to the input box, the open menu or sending.
    Unhandled,
}

/// The value of a decimal digit.
pub open spec fn digit_value(c: char) -> Option<u32> {
    if '0' <= c <= '9' {
        Some((c as u32 - '0' as u32) as u32)
    } else {
        None
    }
}

/// The shortcut a key stands for.  Control combinations come first; of
/// them Ctrl+D (sending) and Ctrl+Space (the quick switcher) are left to
/// the caller.
pub open spec fn shortcut_spec(key: KeyEvent) -> Shortcut {
    match key.code {
        KeyCode::Char(c) => {
            if key.modifiers.control && c == 't' {
                Shortcut::ToggleInputMode
            } else if key.modifiers.control && (c == 'd' || c == ' ') {
                Shortcut::Unhandled
            } else if key.modifiers.control && c == 'n' {
                Shortcut::NextWindow
            } else if key.modifiers.control && c == 'p' {
                Shortcut::PreviousWindow
            } else if key.modifiers.control && c == 'c' {
                Shortcut::ClearInput
            } else if key.modifiers.control && c == 'w' {
                Shortcut::DeleteWordLeft
            } else if key.modifiers.control && c == 'u' {
                Shortcut::DeleteToStart
            } else if key.modifiers.control && c == 'l' {
                Shortcut::Redraw
            } else if key.modifiers.control && c == 'f' {
                Shortcut::OpenFiles
            } else if key.modifiers.control && c == 'e' {
                Shortcut::OpenEmojiPicker
            } else if key.modifiers.control && c == 'o' {
                Shortcut::InsertNewline
            } else if key.modifiers.control && c == 'b' {
                Shortcut::TogglePeers
            } else if key.modifiers.alt {
                Shortcut::JumpToWindow(digit_value(c))
            } else {
                Shortcut::Unhandled
            }
        },
        KeyCode::PageUp => if key.modifiers.shift {
            Shortcut::ScrollTop
        } else {
            Shortcut::PageUp
        },
        KeyCode::PageDown => if key.modifiers.shift {
            Shortcut::ScrollBottom
        } else {
            Shortcut::PageDown
        },
        KeyCode::Home => if key.modifiers.control {
            Shortcut::ScrollTop
        } else {
            Shortcut::Unhandled
        },
        KeyCode::End => if key.modifiers.control {
            Shortcut::ScrollBottom
        } else {
            Shortcut::Unhandled
        },
        _ => Shortcut::Unhandled,
    }
}

/// The shortcut `key` stands for.
pub fn shortcut_of(key: KeyEvent) -> (s: Shortcut)
    ensures
        s == shortcut_spec(key),
{
    let ctrl = key.modifiers.control;
    match key.code {
        KeyCode::Char(c) => {
            if ctrl && c == 't' {
                Shortcut::ToggleInputMode
            } else if ctrl && (c == 'd' || c == ' ') {
                Shortcut::Unhandled
            } else if ctrl && c == 'n' {
                Shortcut::NextWindow
            } else if ctrl && c == 'p' {
                Shortcut::PreviousWindow
            } else if ctrl && c == 'c' {
                Shortcut::ClearInput
            } else if ctrl && c == 'w' {
                Shortcut::DeleteWordLeft
            } else if ctrl && c == 'u' {
                Shortcut::DeleteToStart
            } else if ctrl && c == 'l' {
                Shortcut::Redraw
            } else if ctrl && c == 'f' {
                Shortcut::OpenFiles
            } else if ctrl && c == 'e' {
                Shortcut::OpenEmojiPicker
            } else if ctrl && c == 'o' {
                Shortcut::InsertNewline
            } else if ctrl && c == 'b' {
                Shortcut::TogglePeers
            } else if key.modifiers.alt {
                let v: u32 = c as u32;
                if 48 <= v && v <= 57 {
                    Shortcut::JumpToWindow(Some(v - 48))
                } else {
                    Shortcut::JumpToWindow(None)
                }
            } else {
                Shortcut::Unhandled
            }
        },
        KeyCode::PageUp => if key.modifiers.shift {
            Shortcut::ScrollTop
        } else {
            Shortcut::PageUp
        },
        KeyCode::PageDown => if key.modifiers.shift {
            Shortcut::ScrollBottom
        } else {
            Shortcut::PageDown
        },
        KeyCode::Home => if ctrl {
            Shortcut::ScrollTop
        } else {
            Shortcut::Unhandled
        },
        KeyCode::End => if ctrl {
            Shortcut::ScrollBottom
        } else {
            Shortcut::Unhandled
        },
        _ => Shortcut::Unhandled,
    }
}

/// `a` is `m` after typing was noted in the shown window: in a friend's
/// window the instant is recorded and, the first time, the friend is told
/// that the user is typing (when the friend's key is known).
pub open spec fn typing_noted(m: Model, a: Model, now_ms: u64, cmds: Seq<Cmd>) -> bool {
    match m.active_id() {
        WindowId::Friend(pk) => {
            let friend = lookup(m.domain.friends@, pk);
            let send = !m.ui.is_typing_sent && friend is Some && friend.unwrap().public_key is Some;
            &&& a == (Model {
                ui: UiState {
                    last_typing_activity: Some(now_ms),
                    is_typing_sent: m.ui.is_typing_sent || send,
                    ..m.ui
                },
                ..m
            })
            &&& cmds == if send {
                seq![Cmd::Tox(ToxAction::SetTyping(friend.unwrap().public_key.unwrap(), true))]
            } else {
                Seq::<Cmd>::empty()
            }
        },
        _ => a == m && cmds.len() == 0,
    }
}

/// `m` with the input box replaced by `input`.
pub open spec fn with_input(m: Model, input: InputBoxState) -> Model {
    Model { ui: UiState { input_state: input, ..m.ui }, ..m }
}

/// `m` with tab completion switched off.
pub open spec fn completion_off(m: Model) -> Model {
    Model { ui: UiState { completion: CompletionState { active: false, ..m.ui.completion }, ..m.ui }, ..m }
}

/// The number of lines a page scrolls in the shown window: the height it
/// was last drawn with, or ten before it was drawn.
pub open spec fn page_height(m: Model) -> usize {
    match active_state(m) {
        Some(o) => o.last_height,
        None => 10,
    }
}

/// Scrolling the shown window back by a page stays within `usize`.
pub open spec fn page_up_fits(m: Model) -> bool {
    match active_state(m) {
        Some(o) => o.msg_list_state.scroll + o.last_height <= usize::MAX,
        None => true,
    }
}

/// A picker as a fresh one is: nothing typed, nothing scrolled, the first
/// emoji selected.
pub open spec fn fresh_picker(p: EmojiPickerState) -> bool {
    &&& p.input_state.text@.len() == 0
    &&& p.input_state.wf()
    &&& p.input_state.cursor_pos == 0
    &&& p.input_state.selection is None
    &&& p.input_state.mode is None
    &&& p.input_state.clipboard@.len() == 0
    &&& p.input_state.undo_entries().len() == 0
    &&& p.input_state.redo_entries().len() == 0
    &&& p.input_state.lines@.len() == 0
    &&& p.input_state.last_width == 0
    &&& p.input_state.prompt@.len() == 0
    &&& p.input_state.scroll == 0
    &&& p.grid_state == (EmojiGridState { scroll: 0, cols: 0, rows: 0 })
    &&& p.selected_index == 0
}

/// The windows once the file manager is among them (added at the end if
/// it was not).
pub open spec fn ids_with_files(ids: Seq<WindowId>) -> Seq<WindowId> {
    if first_index(ids, WindowId::Files) >= 0 {
        ids
    } else {
        ids.push(WindowId::Files)
    }
}

/// `a` is `b` after the peer list of the shown window was shown or hidden
/// (only a group or conference has one; its window state is made first).
pub open spec fn peers_toggled(b: Model, a: Model) -> bool {
    let id = b.active_id();
    if id is Group || id is Conference {
        let k = key_pos(a.ui.window_state@, id);
        let n = a.ui.window_state@[k].1;
        &&& a.same_but_window_state(&b)
        &&& k >= 0
        &&& match lookup(b.ui.window_state@, id) {
            Some(o) => a.ui.window_state@ == b.ui.window_state@.update(
                k,
                (id, WindowUiState { show_peers: !o.show_peers, ..o }),
            ),
            None => {
                &&& a.ui.window_state@ == b.ui.window_state@.push((id, n))
                &&& fresh_window_state(WindowUiState { show_peers: true, ..n })
                &&& !n.show_peers
            },
        }
    } else {
        a == b
    }
}

/// The window after `i` of `len`, wrapping to the first.
pub open spec fn next_window(i: int, len: int) -> int {
    (i + 1) % len
}

/// The window before `i` of `len`, wrapping to the last.
pub open spec fn previous_window(i: int, len: int) -> int {
    if i > 0 {
        i - 1
    } else {
        len - 1
    }
}

/// Ctrl+P undoes Ctrl+N and Ctrl+N undoes Ctrl+P: from any of `len`
/// windows, the next window's previous one and the previous window's next
/// one are the window itself.
pub proof fn law_next_previous_window(i: int, len: int)
    requires
        0 <= i < len,
    ensures
        previous_window(next_window(i, len), len) == i,
        next_window(previous_window(i, len), len) == i,
        0 <= next_window(i, len) < len,
        0 <= previous_window(i, len) < len,
{
    if i + 1 < len {
        assert((i + 1) % len == i + 1) by (nonlinear_arith)
            requires
                0 <= i + 1 < len,
        ;
    } else {
        assert((i + 1) % len == 0) by (nonlinear_arith)
            requires
                i + 1 == len,
                len > 0,
        ;
    }
    if i > 0 {
        assert(i % len == i) by (nonlinear_arith)
            requires
                0 < i < len,
        ;
    } else {
        assert(len % len == 0) by (nonlinear_arith)
            requires
                len > 0,
        ;
    }
}

/// `a` is `b` after the shortcut `s` at `now_ms`, and `r` what came of
/// it: the commands, or nothing when the key is not a shortcut here.
pub open spec fn shortcut_done(b: Model, a: Model, s: Shortcut, now_ms: u64, r: Option<Seq<Cmd>>) -> bool {
    let idx = b.ui.active_window_index;
    let len = b.ui.window_ids@.len();
    let done = r == Some(Seq::<Cmd>::empty());
    match s {
        Shortcut::ToggleInputMode => {
            &&& a == (Model {
                ui: UiState {
                    input_mode: if b.ui.input_mode == InputMode::SingleLine {
                        InputMode::MultiLine
                    } else {
                        InputMode::SingleLine
                    },
                    ..b.ui
                },
                ..b
            })
            &&& done
        },
        Shortcut::NextWindow => window_shown(b, a, next_window(idx as int, len as int) as usize) && done,
        Shortcut::PreviousWindow => window_shown(b, a, previous_window(idx as int, len as int) as usize) && done,
        Shortcut::ClearInput => if b.ui.input_state.selection is Some {
            a == b && r is None
        } else {
            &&& emptied(b.ui.input_state, a.ui.input_state)
            &&& a == (Model {
                ui: UiState { command_menu: None, ..completion_off(with_input(b, a.ui.input_state)).ui },
                ..b
            })
            &&& done
        },
        Shortcut::DeleteWordLeft => {
            &&& word_deleted_left(b.ui.input_state, a.ui.input_state)
            &&& r is Some
            &&& typing_noted(with_input(b, a.ui.input_state), a, now_ms, r.unwrap())
        },
        Shortcut::DeleteToStart => {
            &&& deleted_to_start(b.ui.input_state, a.ui.input_state)
            &&& r is Some
            &&& typing_noted(with_input(b, a.ui.input_state), a, now_ms, r.unwrap())
        },
        Shortcut::Redraw => a == b && r == Some(seq![Cmd::App(AppCmd::Redraw)]),
        Shortcut::OpenFiles => {
            let ids = ids_with_files(b.ui.window_ids@);
            &&& a.ui.window_ids@ == ids
            &&& window_shown(
                Model { ui: UiState { window_ids: a.ui.window_ids, ..b.ui }, ..b },
                a,
                first_index(ids, WindowId::Files) as usize,
            )
            &&& done
        },
        Shortcut::OpenEmojiPicker => {
            &&& a == (Model { ui: UiState { emoji_picker: a.ui.emoji_picker, ..b.ui }, ..b })
            &&& a.ui.emoji_picker is Some
            &&& fresh_picker(a.ui.emoji_picker.unwrap())
            &&& done
        },
        Shortcut::InsertNewline => {
            &&& newline_typed(b.ui.input_state, a.ui.input_state)
            &&& r is Some
            &&& typing_noted(completion_off(with_input(b, a.ui.input_state)), a, now_ms, r.unwrap())
        },
        Shortcut::TogglePeers => peers_toggled(b, a) && done,
        Shortcut::JumpToWindow(d) => {
            &&& match d {
                Some(d) => window_shown(b, a, d as usize),
                None => a == b,
            }
            &&& done
        },
        Shortcut::PageUp => {
            &&& a.same_but_window_state(&b)
            &&& active_state_changed(b, a, match active_state(b) {
                Some(o) => Some(scrolled_up(o, page_height(b))),
                None => None,
            })
            &&& done
        },
        Shortcut::PageDown => {
            &&& a.same_but_window_state(&b)
            &&& active_state_changed(b, a, match active_state(b) {
                Some(o) => Some(scrolled_down(o, page_height(b))),
                None => None,
            })
            &&& done
        },
        Shortcut::ScrollTop => {
            &&& a.same_but_window_state(&b)
            &&& active_state_changed(b, a, match active_state(b) {
                Some(o) => Some(with_scroll(o, max_scroll(o) as usize)),
                None => None,
            })
            &&& done
        },
        Shortcut::ScrollBottom => {
            &&& a.same_but_window_state(&b)
            &&& active_state_changed(b, a, match active_state(b) {
                Some(o) => Some(with_scroll(o, 0)),
                None => None,
            })
            &&& done
        },
        Shortcut::Unhandled => a == b && r is None,
    }
}

impl Model {
    /// Notes that the user typed in the shown window.
    pub(crate) fn note_typing(&mut self, now_ms: u64) -> (cmds: Vec<Cmd>)
        requires
            old(self).wf(),
        ensures
            final(self).wf(),
            typing_noted(*old(self), *final(self), now_ms, cmds@),
    {
        let id = self.active_window_id();
        match id {
            WindowId::Friend(pk) => {
                proof {
                    lemma_keys_concrete_eq();
                    lemma_key_pos(self.domain.friends@, pk);
                }
                let sent = self.ui.is_typing_sent;
                self.ui.last_typing_activity = Some(now_ms);
                if !sent {
                    match key_position(&self.domain.friends, &pk) {
                        Some(i) => match self.domain.friends[i].1.public_key {
                            Some(k) => {
                                self.ui.is_typing_sent = true;
                                let mut cmds: Vec<Cmd> = Vec::new();
                                cmds.push(Cmd::Tox(ToxAction::SetTyping(k, true)));
                                return cmds;
                            },
                            None => {},
                        },
                        None => {},
                    }
                }
                Vec::new()
            },
            _ => Vec::new(),
        }
    }

    /// The lines a page scrolls in the shown window.
    fn page_lines(&self) -> (h: usize)
        requires
            self.wf(),
        ensures
            h == page_height(*self),
    {
        let id = self.active_window_id();
        proof {
            lemma_keys_concrete_eq();
            lemma_key_pos(self.ui.window_state@, id);
        }
        match key_position(&self.ui.window_state, &id) {
            Some(i) => self.ui.window_state[i].1.last_height,
            None => 10,
        }
    }

    /// Shows or hides the peer list of the shown group or conference.
    fn toggle_peers(&mut self)
        requires
            old(self).wf(),
        ensures
            final(self).wf(),
            peers_toggled(*old(self), *final(self)),
    {
        let id = self.active_window_id();
        match id {
            WindowId::Group(_) | WindowId::Conference(_) => {
                let k = self.window_state_entry(id);
                let ghost mid = self.ui.window_state@;
                proof {
                    lemma_key_pos(mid, id);
                }
                let v = self.ui.window_state[k].1.show_peers;
                self.ui.window_state[k].1.show_peers = !v;
                proof {
                    let nw = self.ui.window_state@;
                    assert forall|a: int, b: int| 0 <= a < b < nw.len() implies nw[a].0 != nw[b].0 by {
                        assert(mid[a].0 != mid[b].0);
                    };
                    lemma_key_pos_update(mid, k as int, nw[k as int].1, id);
                    assert(nw =~= mid.update(k as int, (id, nw[k as int].1)));
                    lemma_key_pos(old(self).ui.window_state@, id);
                    match lookup(old(self).ui.window_state@, id) {
                        Some(o) => {
                            assert(mid == old(self).ui.window_state@);
                            assert(nw[k as int].1 == WindowUiState { show_peers: !o.show_peers, ..o });
                        },
                        None => {
                            assert(nw =~= old(self).ui.window_state@.push((id, nw[k as int].1)));
                            assert(WindowUiState { show_peers: true, ..nw[k as int].1 } == mid[k as int].1);
                        },
                    }
                }
            },
            _ => {},
        }
    }

    /// Shows the file manager, adding its window first if it has none.
    fn open_files(&mut self)
        requires
            old(self).wf(),
        ensures
            final(self).wf(),
            final(self).ui.window_ids@ == ids_with_files(old(self).ui.window_ids@),
            window_shown(
                Model { ui: UiState { window_ids: final(self).ui.window_ids, ..old(self).ui }, ..*old(self) },
                *final(self),
                first_index(final(self).ui.window_ids@, WindowId::Files) as usize,
            ),
    {
        proof {
            lemma_keys_concrete_eq();
            lemma_first_index(self.ui.window_ids@, WindowId::Files);
        }
        if position_of(&self.ui.window_ids, &WindowId::Files).is_none() {
            let ghost before = self.ui.window_ids@;
            self.ui.window_ids.push(WindowId::Files);
            proof {
                let ids = self.ui.window_ids@;
                assert forall|i: int, j: int| 0 <= i < j < ids.len() implies ids[i] != ids[j] by {
                    if j == ids.len() - 1 {
                        assert(ids[i] == before[i]);
                        assert(before.contains(before[i]));
                    }
                };
            }
        }
        proof {
            lemma_first_index(self.ui.window_ids@, WindowId::Files);
        }
        let ghost mid = *self;
        match position_of(&self.ui.window_ids, &WindowId::Files) {
            Some(pos) => {
                self.set_active_window(pos);
            },
            None => {},
        }
        proof {
            assert(mid == (Model { ui: UiState { window_ids: self.ui.window_ids, ..old(self).ui }, ..*old(self) }));
        }
    }

    /// Follows a key in chat mode when it is one of the shortcuts taken
    /// before the input box: Ctrl+T, Ctrl+N, Ctrl+P, Ctrl+C (with nothing
    /// selected), Ctrl+W, Ctrl+U, Ctrl+L, Ctrl+F, Ctrl+E, Ctrl+O, Ctrl+B,
    /// Alt with a digit, the page keys and Ctrl+Home or Ctrl+End.  Gives
    /// the commands that follow, or nothing (and changes nothing) for any
    /// other key.
    pub fn handle_chat_shortcut(&mut self, key: KeyEvent, now_ms: u64) -> (r: Option<Vec<Cmd>>)
        requires
            old(self).wf(),
            old(self).ui.input_state.wf(),
            shortcut_spec(key) == Shortcut::DeleteWordLeft ==> old(self).ui.input_state.sel_ok(),
            shortcut_spec(key) == Shortcut::InsertNewline ==> {
                &&& old(self).ui.input_state.sel_ok()
                &&& byte_len(old(self).ui.input_state.text@) + 4 <= usize::MAX
            },
            shortcut_spec(key) == Shortcut::PageUp ==> page_up_fits(*old(self)),
        ensures
            final(self).wf(),
            final(self).ui.input_state.wf(),
            shortcut_done(
                *old(self),
                *final(self),
                shortcut_spec(key),
                now_ms,
                match r {
                    Some(v) => Some(v@),
                    None => None,
                },
            ),
    {
        let s = shortcut_of(key);
        let len = self.ui.window_ids.len();
        let idx = self.ui.active_window_index;
        match s {
            Shortcut::ToggleInputMode => {
                let mode = match self.ui.input_mode {
                    InputMode::SingleLine => InputMode::MultiLine,
                    InputMode::MultiLine => InputMode::SingleLine,
                };
                self.ui.input_mode = mode;
                Some(Vec::new())
            },
            Shortcut::NextWindow => {
                self.set_active_window((idx + 1) % len);
                Some(Vec::new())
            },
            Shortcut::PreviousWindow => {
                let prev = if idx > 0 {
                    idx - 1
                } else {
                    len - 1
                };
                self.set_active_window(prev);
                Some(Vec::new())
            },
            Shortcut::ClearInput => {
                if self.ui.input_state.selection.is_some() {
                    return None;
                }
                self.ui.input_state.clear();
                self.ui.completion.active = false;
                self.ui.command_menu = None;
                Some(Vec::new())
            },
            Shortcut::DeleteWordLeft => {
                self.ui.input_state.delete_word_left();
                Some(self.note_typing(now_ms))
            },
            Shortcut::DeleteToStart => {
                self.ui.input_state.delete_to_start();
                Some(self.note_typing(now_ms))
            },
            Shortcut::Redraw => {
                let mut cmds: Vec<Cmd> = Vec::new();
                cmds.push(Cmd::App(AppCmd::Redraw));
                Some(cmds)
            },
            Shortcut::OpenFiles => {
                self.open_files();
                Some(Vec::new())
            },
            Shortcut::OpenEmojiPicker => {
                self.ui.emoji_picker = Some(EmojiPickerState::new());
                Some(Vec::new())
            },
            Shortcut::InsertNewline => {
                self.ui.completion.active = false;
                self.ui.input_state.insert_newline();
                Some(self.note_typing(now_ms))
            },
            Shortcut::TogglePeers => {
                self.toggle_peers();
                Some(Vec::new())
            },
            Shortcut::JumpToWindow(d) => {
                match d {
                    Some(d) => self.set_active_window(d as usize),
                    None => {},
                }
                Some(Vec::new())
            },
            Shortcut::PageUp => {
                let h = self.page_lines();
                self.scroll_up(h);
                Some(Vec::new())
            },
            Shortcut::PageDown => {
                let h = self.page_lines();
                self.scroll_down(h);
                Some(Vec::new())
            },
            Shortcut::ScrollTop => {
                self.scroll_top();
                Some(Vec::new())
            },
            Shortcut::ScrollBottom => {
                self.scroll_bottom();
                Some(Vec::new())
            },
            Shortcut::Unhandled => None,
        }
    }
}


/// The line of the input's layout the cursor is on.
pub open spec fn cursor_row(i: InputBoxState) -> int {
    match cursor_2d_from(lines_view(i.lines@), 0, i.cursor_pos as int) {
        Some(p) => p.0 as int,
        None => 0,
    }
}

/// `a` is `b` after Up (`up`) or Down in chat mode with no completion
/// open, Shift held as `shift` says: in multi-line input off the first
/// (or last) line the cursor moves a line, which counts as typing;
/// otherwise the previous (or next) line of the history is recalled.
pub open spec fn arrow_done(b: Model, a: Model, up: bool, shift: bool, now_ms: u64, cmds: Seq<Cmd>) -> bool {
    let i = b.ui.input_state;
    let y = cursor_row(i);
    let last = if i.lines@.len() > 0 {
        i.lines@.len() - 1
    } else {
        0
    };
    let multi = b.ui.input_mode == InputMode::MultiLine;
    if up && multi && y > 0 {
        &&& line_moved(
            i,
            a.ui.input_state,
            if i.last_width > 0 {
                up_target(cached_layout(&i), i.cursor_pos as int)
            } else {
                0
            },
            shift,
        )
        &&& typing_noted(with_input(b, a.ui.input_state), a, now_ms, cmds)
    } else if !up && multi && y < last {
        &&& line_moved(
            i,
            a.ui.input_state,
            if i.last_width > 0 {
                down_target(cached_layout(&i), i.cursor_pos as int, byte_len(i.text@) as int)
            } else {
                byte_len(i.text@) as int
            },
            shift,
        )
        &&& typing_noted(with_input(b, a.ui.input_state), a, now_ms, cmds)
    } else {
        &&& a == (Model { ui: UiState { input_state: a.ui.input_state, history: a.ui.history, ..b.ui }, ..b })
        &&& cmds.len() == 0
        &&& if up {
            recalled_up(b.ui.history, a.ui.history, i, a.ui.input_state)
        } else {
            recalled_down(b.ui.history, a.ui.history, i, a.ui.input_state)
        }
    }
}

impl Model {
    /// Follows Up (`up`) or Down in chat mode when no completion is open:
    /// moves the cursor a line in multi-line input, or recalls the input
    /// history.
    pub fn handle_chat_arrow(&mut self, up: bool, shift: bool, now_ms: u64) -> (cmds: Vec<Cmd>)
        requires
            old(self).wf(),
            old(self).ui.input_state.wf(),
            old(self).ui.input_state.layout_ok(),
            3 * (old(self).ui.input_state.prompt@.len() + old(self).ui.input_state.text@.len()) <= usize::MAX,
            old(self).ui.history.index_ok(),
        ensures
            final(self).wf(),
            final(self).ui.input_state.wf(),
            final(self).ui.history.index_ok(),
            arrow_done(*old(self), *final(self), up, shift, now_ms, cmds@),
    {
        let multi = match self.ui.input_mode {
            InputMode::MultiLine => true,
            InputMode::SingleLine => false,
        };
        let xy = self.ui.input_state.cursor();
        let y = xy.1;
        let n = self.ui.input_state.lines.len();
        proof {
            let lv = lines_view(self.ui.input_state.lines@);
            lemma_cursor_2d_range(lv, 0, self.ui.input_state.cursor_pos as int);
            assert(lv.len() == self.ui.input_state.lines@.len());
            match cursor_2d_from(lv, 0, self.ui.input_state.cursor_pos as int) {
                Some(p) => {
                    assert(0 <= p.0 < self.ui.input_state.lines@.len());
                    assert(y as int == p.0);
                    assert(cursor_row(self.ui.input_state) == p.0);
                },
                None => {
                    assert(y == 0);
                    assert(cursor_row(self.ui.input_state) == 0);
                },
            }
        }
        let last = if n > 0 {
            n - 1
        } else {
            0
        };
        if up && multi && y > 0 {
            self.ui.input_state.move_cursor_up(shift);
            self.note_typing(now_ms)
        } else if !up && multi && y < last {
            self.ui.input_state.move_cursor_down(shift);
            self.note_typing(now_ms)
        } else {
            if up {
                history_up(&mut self.ui.history, &mut self.ui.input_state);
            } else {
                history_down(&mut self.ui.history, &mut self.ui.input_state);
            }
            Vec::new()
        }
    }
}

} // verus!
