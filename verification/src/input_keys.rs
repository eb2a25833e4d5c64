//! Keyboard handling of the input box: which edit a key asks for, and
//! doing it.
use crate::input_box::{
    pushed_undo, boff, cut_chars, moved_selection, next_grapheme_end, prev_grapheme_start, remove_range, sel_low,
    selected_text, typed, word_left_target, word_right_target, InputBoxState, InputMode, Outcome,
};
use crate::input_layout::{cached_layout, down_target, up_target};
use crate::text::{byte_len, char_index, str_byte_len};
use vstd::prelude::*;

verus! {

/// The key of a key press.
#[derive(Debug, Clone, Copy, PartialEq, Eq, Structural)]
pub enum KeyCode {
    Char(char),
    Enter,
    Backspace,
    Delete,
    Left,
    Right,
    Up,
    Down,
    Home,
    End,
    Esc,
    Tab,
    BackTab,
    PageUp,
    PageDown,
    /// Any other key.
    Other,
}

/// The modifier keys held during a key press.
#[derive(Debug, Clone, Copy, PartialEq, Eq, Structural)]
pub struct KeyModifiers {
    pub shift: bool,
    pub control: bool,
    pub alt: bool,
    pub super_key: bool,
    pub hyper: bool,
    pub meta: bool,
}

#[derive(Debug, Clone, Copy, PartialEq, Eq, Structural)]
pub struct KeyEvent {
    pub code: KeyCode,
    pub modifiers: KeyModifiers,
}

/// A terminal event as the input box sees it.
#[derive(Debug, Clone, Copy, PartialEq, Eq, Structural)]
pub enum InputEvent {
    Key(KeyEvent),
    /// Mouse, paste, resize and focus events.
    Other,
}

/// The edit a key asks for.  The `bool` of a movement says whether it
/// extends the selection.
#[derive(Debug, Clone, Copy, PartialEq, Eq, Structural)]
pub enum EditAction {
    Copy,
    Paste,
    Cut,
    Undo,
    Redo,
    SelectAll,
    InsertChar(char),
    InsertNewline,
    DeletePrevChar,
    DeleteNextChar,
    DeleteWordLeft,
    DeleteWordRight,
    DeleteToStart,
    DeleteToEnd,
    MoveLeft(bool),
    MoveRight(bool),
    MoveWordLeft(bool),
    MoveWordRight(bool),
    MoveUp(bool),
    MoveDown(bool),
    MoveToStart(bool),
    MoveToEnd(bool),
    /// Enter that sends the message: left to the caller.
    Send,
    /// Nothing the input box handles.
    Ignore,
}

pub open spec fn no_modifiers(m: KeyModifiers) -> bool {
    !m.shift && !m.control && !m.alt && !m.super_key && !m.hyper && !m.meta
}

pub open spec fn shift_only(m: KeyModifiers) -> bool {
    m.shift && !m.control && !m.alt && !m.super_key && !m.hyper && !m.meta
}

/// The edit that `ev` asks for in input mode `mode`.
pub open spec fn key_action_spec(ev: InputEvent, mode: InputMode) -> EditAction {
    match ev {
        InputEvent::Other => EditAction::Ignore,
        InputEvent::Key(k) => {
            let shift = k.modifiers.shift;
            let ctrl = k.modifiers.control;
            match k.code {
                KeyCode::Char(c) => if ctrl && c == 'c' {
                    EditAction::Copy
                } else if ctrl && c == 'v' {
                    EditAction::Paste
                } else if ctrl && c == 'x' {
                    EditAction::Cut
                } else if ctrl && c == 'z' {
                    EditAction::Undo
                } else if ctrl && c == 'y' {
                    EditAction::Redo
                } else if ctrl && c == 'a' {
                    EditAction::SelectAll
                } else if no_modifiers(k.modifiers) || shift_only(k.modifiers) {
                    EditAction::InsertChar(c)
                } else if ctrl && c == 'w' {
                    EditAction::DeleteWordLeft
                } else if ctrl && c == 'u' {
                    EditAction::DeleteToStart
                } else if ctrl && c == 'k' {
                    EditAction::DeleteToEnd
                } else {
                    EditAction::Ignore
                },
                KeyCode::Enter => if (match mode {
                    InputMode::SendOnEnter => !shift,
                    InputMode::NewlineOnEnter => shift,
                }) {
                    EditAction::Send
                } else {
                    EditAction::InsertNewline
                },
                KeyCode::Backspace => if ctrl {
                    EditAction::DeleteWordLeft
                } else {
                    EditAction::DeletePrevChar
                },
                KeyCode::Delete => if ctrl {
                    EditAction::DeleteWordRight
                } else {
                    EditAction::DeleteNextChar
                },
                KeyCode::Left => if ctrl {
                    EditAction::MoveWordLeft(shift)
                } else {
                    EditAction::MoveLeft(shift)
                },
                KeyCode::Right => if ctrl {
                    EditAction::MoveWordRight(shift)
                } else {
                    EditAction::MoveRight(shift)
                },
                KeyCode::Up => EditAction::MoveUp(shift),
                KeyCode::Down => EditAction::MoveDown(shift),
                KeyCode::Home => EditAction::MoveToStart(shift),
                KeyCode::End => EditAction::MoveToEnd(shift),
                KeyCode::Esc | KeyCode::Tab | KeyCode::BackTab | KeyCode::PageUp | KeyCode::PageDown
                | KeyCode::Other => EditAction::Ignore,
            }
        },
    }
}

/// What the caller is told after an edit: whether the text may have
/// changed, or that the event was left to it.
pub open spec fn action_outcome(a: EditAction) -> Outcome {
    match a {
        EditAction::Copy | EditAction::SelectAll | EditAction::MoveLeft(_) | EditAction::MoveRight(_)
        | EditAction::MoveWordLeft(_) | EditAction::MoveWordRight(_) | EditAction::MoveUp(_)
        | EditAction::MoveDown(_) | EditAction::MoveToStart(_) | EditAction::MoveToEnd(_) => Outcome::Unchanged,
        EditAction::Send | EditAction::Ignore => Outcome::Unhandled,
        _ => Outcome::Changed,
    }
}

/// The edit that a key event asks for in input mode `mode`.
pub fn key_action(ev: &InputEvent, mode: InputMode) -> (a: EditAction)
    ensures
        a == key_action_spec(*ev, mode),
{
    match ev {
        InputEvent::Other => EditAction::Ignore,
        InputEvent::Key(k) => {
            let m = k.modifiers;
            let shift = m.shift;
            let ctrl = m.control;
            match k.code {
                KeyCode::Char(c) => {
                    if ctrl && c == 'c' {
                        EditAction::Copy
                    } else if ctrl && c == 'v' {
                        EditAction::Paste
                    } else if ctrl && c == 'x' {
                        EditAction::Cut
                    } else if ctrl && c == 'z' {
                        EditAction::Undo
                    } else if ctrl && c == 'y' {
                        EditAction::Redo
                    } else if ctrl && c == 'a' {
                        EditAction::SelectAll
                    } else if (!m.shift && !m.control && !m.alt && !m.super_key && !m.hyper && !m.meta) || (m.shift
                        && !m.control && !m.alt && !m.super_key && !m.hyper && !m.meta) {
                        EditAction::InsertChar(c)
                    } else if ctrl && c == 'w' {
                        EditAction::DeleteWordLeft
                    } else if ctrl && c == 'u' {
                        EditAction::DeleteToStart
                    } else if ctrl && c == 'k' {
                        EditAction::DeleteToEnd
                    } else {
                        EditAction::Ignore
                    }
                },
                KeyCode::Enter => {
                    let send = match mode {
                        InputMode::SendOnEnter => !shift,
                        InputMode::NewlineOnEnter => shift,
                    };
                    if send {
                        EditAction::Send
                    } else {
                        EditAction::InsertNewline
                    }
                },
                KeyCode::Backspace => if ctrl {
                    EditAction::DeleteWordLeft
                } else {
                    EditAction::DeletePrevChar
                },
                KeyCode::Delete => if ctrl {
                    EditAction::DeleteWordRight
                } else {
                    EditAction::DeleteNextChar
                },
                KeyCode::Left => if ctrl {
                    EditAction::MoveWordLeft(shift)
                } else {
                    EditAction::MoveLeft(shift)
                },
                KeyCode::Right => if ctrl {
                    EditAction::MoveWordRight(shift)
                } else {
                    EditAction::MoveRight(shift)
                },
                KeyCode::Up => EditAction::MoveUp(shift),
                KeyCode::Down => EditAction::MoveDown(shift),
                KeyCode::Home => EditAction::MoveToStart(shift),
                KeyCode::End => EditAction::MoveToEnd(shift),
                KeyCode::Esc | KeyCode::Tab | KeyCode::BackTab | KeyCode::PageUp | KeyCode::PageDown
                | KeyCode::Other => EditAction::Ignore,
            }
        },
    }
}

/// The edit was recorded in the undo history, which clears redo.
pub open spec fn recorded(o: InputBoxState, n: InputBoxState) -> bool {
    &&& n.undo_entries() == pushed_undo(o.undo_entries(), (o.text@, o.cursor_pos))
    &&& n.redo_entries().len() == 0
}

/// The selection `s` was deleted and the cursor put where it began.
pub open spec fn selection_deleted(o: InputBoxState, n: InputBoxState, s: (usize, usize)) -> bool {
    &&& n.text@ == remove_range(o.text@, s.0 as int, s.1 as int)
    &&& n.cursor_pos == sel_low(s)
}

/// The cursor moved to `to`; the text stayed and the selection followed.
pub open spec fn moved_to(o: InputBoxState, n: InputBoxState, to: int, extend: bool) -> bool {
    &&& n.text == o.text
    &&& n.cursor_pos == to
    &&& n.selection == moved_selection(o.selection, o.cursor_pos, n.cursor_pos, extend)
}

/// The state `n` is what the edit `a` makes of `o`.
pub open spec fn action_effect(o: InputBoxState, n: InputBoxState, a: EditAction) -> bool {
    let t = o.text@;
    let c = o.cursor_pos;
    let k = char_index(t, c as int);
    match a {
        EditAction::Copy => {
            &&& n.text == o.text
            &&& n.cursor_pos == c
            &&& n.selection == o.selection
            &&& n.clipboard@ == match o.selection {
                Some(s) => selected_text(t, s),
                None => o.clipboard@,
            }
        },
        EditAction::Paste => if o.clipboard@.len() == 0 {
            n == o
        } else {
            &&& (n.text@, n.cursor_pos as int) == typed(t, c, o.selection, o.clipboard@)
            &&& n.selection is None
            &&& recorded(o, n)
        },
        EditAction::Cut => match o.selection {
            Some(s) => {
                &&& selection_deleted(o, n, s)
                &&& n.clipboard@ == selected_text(t, s)
                &&& n.selection is None
                &&& recorded(o, n)
            },
            None => n == o,
        },
        EditAction::Undo => if o.undo_entries().len() == 0 {
            n == o
        } else {
            &&& (n.text@, n.cursor_pos) == o.undo_entries().last()
            &&& n.selection is None
        },
        EditAction::Redo => if o.redo_entries().len() == 0 {
            n == o
        } else {
            &&& (n.text@, n.cursor_pos) == o.redo_entries().last()
            &&& n.selection is None
        },
        EditAction::SelectAll => {
            &&& n.text == o.text
            &&& n.cursor_pos == byte_len(t)
            &&& n.selection == Some((0usize, byte_len(t) as usize))
        },
        EditAction::InsertChar(ch) => {
            &&& (n.text@, n.cursor_pos as int) == typed(t, c, o.selection, seq![ch])
            &&& n.selection is None
            &&& recorded(o, n)
        },
        EditAction::InsertNewline => {
            &&& (n.text@, n.cursor_pos as int) == typed(t, c, o.selection, seq!['\n'])
            &&& n.selection is None
            &&& recorded(o, n)
        },
        EditAction::DeletePrevChar => {
            &&& match o.selection {
                Some(s) => selection_deleted(o, n, s),
                None => if c > 0 {
                    (n.text@, n.cursor_pos as int) == cut_chars(t, prev_grapheme_start(t, k), k)
                } else {
                    n.text == o.text && n.cursor_pos == c
                },
            }
            &&& n.selection is None
            &&& recorded(o, n)
        },
        EditAction::DeleteWordLeft => {
            &&& match o.selection {
                Some(s) => selection_deleted(o, n, s),
                None => if c > 0 {
                    (n.text@, n.cursor_pos as int) == cut_chars(t, word_left_target(t, k), k)
                } else {
                    n.text == o.text && n.cursor_pos == c
                },
            }
            &&& n.selection is None
            &&& recorded(o, n)
        },
        EditAction::DeleteNextChar => {
            &&& match o.selection {
                Some(s) => selection_deleted(o, n, s),
                None => {
                    &&& k < t.len() ==> n.text@ == t.take(k) + t.skip(next_grapheme_end(t, k))
                    &&& k >= t.len() ==> n.text == o.text
                    &&& n.cursor_pos == c
                },
            }
            &&& n.selection is None
            &&& recorded(o, n)
        },
        EditAction::DeleteWordRight => {
            &&& match o.selection {
                Some(s) => selection_deleted(o, n, s),
                None => {
                    &&& c < byte_len(t) ==> n.text@ == t.take(k) + t.skip(word_right_target(t, k))
                    &&& c >= byte_len(t) ==> n.text == o.text
                    &&& n.cursor_pos == c
                },
            }
            &&& n.selection is None
            &&& recorded(o, n)
        },
        EditAction::DeleteToStart => {
            &&& n.text@ == t.skip(k)
            &&& n.cursor_pos == 0
            &&& n.selection == o.selection
            &&& recorded(o, n)
        },
        EditAction::DeleteToEnd => {
            &&& n.text@ == t.take(k)
            &&& n.cursor_pos == c
            &&& n.selection == o.selection
            &&& recorded(o, n)
        },
        EditAction::MoveLeft(e) => moved_to(
            o,
            n,
            if c > 0 {
                boff(t, prev_grapheme_start(t, k))
            } else {
                c as int
            },
            e,
        ),
        EditAction::MoveRight(e) => moved_to(
            o,
            n,
            if c < byte_len(t) {
                boff(t, next_grapheme_end(t, k))
            } else {
                c as int
            },
            e,
        ),
        EditAction::MoveWordLeft(e) => if c == 0 {
            n == o
        } else {
            moved_to(o, n, boff(t, word_left_target(t, k)), e)
        },
        EditAction::MoveWordRight(e) => if c >= byte_len(t) {
            n == o
        } else {
            moved_to(o, n, boff(t, word_right_target(t, k)), e)
        },
        EditAction::MoveUp(e) => moved_to(
            o,
            n,
            if o.last_width > 0 {
                up_target(cached_layout(&o), c as int)
            } else {
                0
            },
            e,
        ),
        EditAction::MoveDown(e) => moved_to(
            o,
            n,
            if o.last_width > 0 {
                down_target(cached_layout(&o), c as int, byte_len(t) as int)
            } else {
                byte_len(t) as int
            },
            e,
        ),
        EditAction::MoveToStart(e) => moved_to(o, n, 0, e),
        EditAction::MoveToEnd(e) => moved_to(o, n, byte_len(t) as int, e),
        EditAction::Send | EditAction::Ignore => n == o,
    }
}

impl InputBoxState {
    /// The input mode in force: send-on-enter unless set otherwise.
    pub open spec fn mode_spec(&self) -> InputMode {
        match self.mode {
            Some(m) => m,
            None => InputMode::SendOnEnter,
        }
    }

    /// Handles a terminal event: does the edit the key asks for and tells
    /// whether the text may have changed, or leaves the event (such as an
    /// Enter that sends) to the caller.
    pub fn handle_event(&mut self, event: &InputEvent) -> (r: Outcome)
        requires
            old(self).wf(),
            old(self).sel_ok(),
            old(self).layout_ok(),
            byte_len(old(self).text@) + 4 <= usize::MAX,
            byte_len(old(self).text@) + byte_len(old(self).clipboard@) <= usize::MAX,
            3 * (old(self).prompt@.len() + old(self).text@.len()) <= usize::MAX,
        ensures
            final(self).wf(),
            final(self).layout_ok(),
            r == action_outcome(key_action_spec(*event, old(self).mode_spec())),
            action_effect(*old(self), *final(self), key_action_spec(*event, old(self).mode_spec())),
    {
        let a = key_action(event, self.mode());
        match a {
            EditAction::Copy => self.copy(),
            EditAction::Paste => self.paste(),
            EditAction::Cut => self.cut(),
            EditAction::Undo => self.undo(),
            EditAction::Redo => self.redo(),
            EditAction::SelectAll => {
                self.move_to_start(false);
                let len = str_byte_len(self.text.as_str());
                self.selection = Some((0, len));
                self.cursor_pos = len;
                self.last_width = 0;
                proof {
                    crate::input_box::lemma_boundary_zero_end(self.text@);
                    assert(self.undo_entries() == old(self).undo_entries());
                    assert(self.redo_entries() == old(self).redo_entries());
                }
            },
            EditAction::InsertChar(c) => self.insert_char(c),
            EditAction::InsertNewline => self.insert_newline(),
            EditAction::DeletePrevChar => self.delete_prev_char(),
            EditAction::DeleteNextChar => self.delete_next_char(),
            EditAction::DeleteWordLeft => self.delete_word_left(),
            EditAction::DeleteWordRight => self.delete_word_right(),
            EditAction::DeleteToStart => self.delete_to_start(),
            EditAction::DeleteToEnd => self.delete_to_end(),
            EditAction::MoveLeft(e) => self.move_cursor_left(e),
            EditAction::MoveRight(e) => self.move_cursor_right(e),
            EditAction::MoveWordLeft(e) => self.move_cursor_word_left(e),
            EditAction::MoveWordRight(e) => self.move_cursor_word_right(e),
            EditAction::MoveUp(e) => self.move_cursor_up(e),
            EditAction::MoveDown(e) => self.move_cursor_down(e),
            EditAction::MoveToStart(e) => self.move_to_start(e),
            EditAction::MoveToEnd(e) => self.move_to_end(e),
            EditAction::Send | EditAction::Ignore => {},
        }
        match a {
            EditAction::Copy | EditAction::SelectAll | EditAction::MoveLeft(_) | EditAction::MoveRight(_)
            | EditAction::MoveWordLeft(_) | EditAction::MoveWordRight(_) | EditAction::MoveUp(_)
            | EditAction::MoveDown(_) | EditAction::MoveToStart(_) | EditAction::MoveToEnd(_) => Outcome::Unchanged,
            EditAction::Send | EditAction::Ignore => Outcome::Unhandled,
            _ => Outcome::Changed,
        }
    }
}

} // verus!
