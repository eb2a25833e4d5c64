//! Enter and Ctrl+D in chat mode: a line break, or the typed line taken
//! from the input, kept in the history and sent.
use crate::blocked::{blocked_all, blocked_ranges, texts_view};
use crate::chat_keys::{typing_noted, with_input};
use crate::domain::{Model, UiState};
use crate::history::record_history;
use crate::input_box::{emptied, newline_typed};
use crate::input_keys::{KeyCode, KeyEvent};
use crate::model::{CompletionState, InputMode, Timestamp};
use crate::msg::Cmd;
use crate::send::{line_sent, room_to_send};
use crate::text::{byte_len, str_chars};
use vstd::prelude::*;

verus! {

broadcast use vstd::std_specs::vec::group_vec_axioms;

/// What `key` does to the typed line in `mode`: `Some(true)` sends it,
/// `Some(false)` breaks the line, `None` leaves the key to others.  Enter
/// sends in single-line input unless Alt is held, and in multi-line input
/// only with Ctrl or Alt; Ctrl+D sends in multi-line input.
pub open spec fn submit_kind(key: KeyEvent, mode: InputMode) -> Option<bool> {
    match key.code {
        KeyCode::Enter => Some(
            match mode {
                InputMode::SingleLine => !key.modifiers.alt,
                InputMode::MultiLine => key.modifiers.control || key.modifiers.alt,
            },
        ),
        KeyCode::Char(c) => if c == 'd' && key.modifiers.control && mode == InputMode::MultiLine {
            Some(true)
        } else {
            None
        },
        _ => None,
    }
}

/// `m` with tab completion off and the command menu closed.
pub open spec fn menus_closed(m: Model) -> Model {
    Model {
        ui: UiState {
            completion: CompletionState { active: false, ..m.ui.completion },
            command_menu: None,
            ..m.ui
        },
        ..m
    }
}

/// `m1` is `b` with the typed line `line` taken: menus closed, the input
/// emptied, and the line kept in the history (unless it repeats the
/// newest entry), whose recall ends.
pub open spec fn line_taken(b: Model, m1: Model, line: Seq<char>) -> bool {
    let h0 = b.ui.history;
    let h1 = m1.ui.history;
    &&& m1 == (Model {
        ui: UiState { input_state: m1.ui.input_state, history: h1, ..menus_closed(b).ui },
        ..b
    })
    &&& emptied(b.ui.input_state, m1.ui.input_state)
    &&& h1.index is None
    &&& h1.saved == h0.saved
    &&& texts_view(h1.entries@) == if h0.entries@.len() > 0 && h0.entries@.last()@ == line {
        texts_view(h0.entries@)
    } else {
        texts_view(h0.entries@).push(line)
    }
}

/// `a` is `b` after `key` at `now` (`now_ms` on the typing clock), and
/// `r` the requests: a line break is typed (which counts as typing), or
/// the typed line is taken and sent.  Nothing happens, and nothing comes
/// back, for other keys, for a line that starts with `/` (a command), and
/// for a line whose blocked strings cannot be looked for.
pub open spec fn enter_done(b: Model, a: Model, key: KeyEvent, now: Timestamp, now_ms: u64, r: Option<Seq<Cmd>>) -> bool {
    let line = b.ui.input_state.text@;
    match submit_kind(key, b.ui.input_mode) {
        None => r is None && a == b,
        Some(false) => {
            &&& r is Some
            &&& newline_typed(b.ui.input_state, a.ui.input_state)
            &&& typing_noted(with_input(menus_closed(b), a.ui.input_state), a, now_ms, r.unwrap())
        },
        Some(true) => if line.len() == 0 {
            r == Some(Seq::<Cmd>::empty()) && a == menus_closed(b)
        } else if line[0] == '/' || blocked_all(line, texts_view(b.config.blocked_strings@)) is None {
            r is None && a == b
        } else {
            exists|m1: Model| #![trigger line_taken(b, m1, line)] line_taken(b, m1, line) && line_sent(m1, a, line, now, r)
        },
    }
}

impl Model {
    /// Follows Enter or Ctrl+D in chat mode: breaks the line, or takes the
    /// typed line, keeps it in the history and sends it.  Lines that start
    /// with `/` are commands and left to the caller, as are other keys.
    pub fn handle_enter_key(&mut self, key: KeyEvent, now: Timestamp, now_ms: u64) -> (r: Option<Vec<Cmd>>)
        requires
            old(self).wf(),
            old(self).ui.input_state.wf(),
            old(self).ui.input_state.sel_ok(),
            byte_len(old(self).ui.input_state.text@) + 4 <= usize::MAX,
            room_to_send(*old(self), old(self).ui.input_state.text@),
        ensures
            final(self).wf(),
            enter_done(
                *old(self),
                *final(self),
                key,
                now,
                now_ms,
                match r {
                    Some(v) => Some(v@),
                    None => None,
                },
            ),
    {
        let multi = match self.ui.input_mode {
            InputMode::MultiLine => true,
            InputMode::SingleLine => false,
        };
        let send = match key.code {
            KeyCode::Enter => if multi {
                key.modifiers.control || key.modifiers.alt
            } else {
                !key.modifiers.alt
            },
            KeyCode::Char(c) => {
                if c == 'd' && key.modifiers.control && multi {
                    true
                } else {
                    return None;
                }
            },
            _ => {
                return None;
            },
        };
        if !send {
            self.ui.completion.active = false;
            self.ui.command_menu = None;
            self.ui.input_state.insert_newline();
            return Some(self.note_typing(now_ms));
        }
        let cs = str_chars(self.ui.input_state.text.as_str());
        if cs.len() == 0 {
            self.ui.completion.active = false;
            self.ui.command_menu = None;
            return Some(Vec::new());
        }
        if cs[0] == '/' {
            return None;
        }
        match blocked_ranges(self.ui.input_state.text.as_str(), &self.config.blocked_strings) {
            None => {
                return None;
            },
            Some(_) => {},
        }
        self.ui.completion.active = false;
        self.ui.command_menu = None;
        let line = self.ui.input_state.text.clone();
        let ghost h0 = self.ui.history.entries@;
        self.ui.input_state.clear();
        let kept = line.clone();
        assert(kept@ == old(self).ui.input_state.text@);
        record_history(&mut self.ui.history, kept);
        let ghost m1 = *self;
        proof {
            assert(texts_view(h0.push(kept)) =~= texts_view(h0).push(kept@));
            if h0.len() > 0 {
                assert(texts_view(h0).last() == h0.last()@);
            }
            assert(line_taken(*old(self), m1, line@));
        }
        let r = self.send_text(line.as_str(), now);
        r
    }
}

} // verus!
