//! The way of a key through the client: what is open takes it first,
//! then navigation mode, then chat mode (Enter, the shortcuts, the
//! arrows), and last the input box.
use crate::chat_keys::{arrow_done, page_up_fits, shortcut_done, shortcut_spec, typing_noted, Shortcut};
use crate::domain::{log_count, Model, UiState};
use crate::enter_key::{enter_done, submit_kind};
use crate::input_box::{InputBoxState, Outcome};
use crate::input_keys::{action_effect, action_outcome, key_action_spec, InputEvent, KeyCode, KeyEvent};
use crate::model::{CompletionState, InputMode, Timestamp, UiMode};
use crate::msg::Cmd;
use crate::nav_keys::navigation_key_handled;
use crate::overlay_keys::{edit_ready, overlay_key_done, overlay_ready};
use crate::send::room_to_send;
use crate::text::str_chars;
use vstd::prelude::*;

verus! {

broadcast use vstd::std_specs::vec::group_vec_axioms;

/// What came of a key that was followed: the requests, and whether the
/// command menu should be filled again for the command being typed (its
/// entries come from the command table, which the caller holds).
pub struct KeyOutcome {
    pub cmds: Vec<Cmd>,
    pub refresh_command_menu: bool,
}

/// Whether something open takes `key` before the modes do.
pub open spec fn overlay_takes(m: Model, key: KeyEvent) -> bool {
    ||| m.ui.show_qr
    ||| key.code == KeyCode::Esc
    ||| m.ui.quick_switcher is Some
    ||| m.ui.emoji_picker is Some
    ||| (m.ui.command_menu is Some && (key.code == KeyCode::Up || key.code == KeyCode::Down || key.code
        == KeyCode::Tab))
}

/// Keys of chat mode that this library leaves to its caller: tab
/// completion (Tab, and the arrows while completing), opening the quick
/// switcher (Ctrl+Space, Shift+Tab), and the right arrow.
pub open spec fn left_to_caller(m: Model, key: KeyEvent) -> bool {
    ||| key.code == KeyCode::Tab
    ||| key.code == KeyCode::BackTab
    ||| key.code == KeyCode::Char(' ') && key.modifiers.control
    ||| key.code == KeyCode::Right
    ||| (m.ui.completion.active && (key.code == KeyCode::Up || key.code == KeyCode::Down || key.code
        == KeyCode::Left))
}

/// Whether `text` is a command typed in single-line input.
pub open spec fn typing_command(text: Seq<char>, mode: InputMode) -> bool {
    text.len() > 0 && text[0] == '/' && mode == InputMode::SingleLine
}

/// `a` is `b` after `key` reached the input box, `cmds` the requests and
/// `refresh` whether the command menu is to be filled again: the edit the
/// key asks for is done and the blocked ranges are cleared; when the text
/// changed, completion stops, the command menu closes unless a command
/// is being typed (then it is to be filled again), and it counts as
/// typing.
pub open spec fn typed_into_input(b: Model, a: Model, key: KeyEvent, now_ms: u64, cmds: Seq<Cmd>, refresh: bool) -> bool {
    let act = key_action_spec(InputEvent::Key(key), b.ui.input_state.mode_spec());
    let changed = action_outcome(act) == Outcome::Changed;
    let input = a.ui.input_state;
    let command = typing_command(input.text@, b.ui.input_mode);
    let m1 = Model {
        ui: UiState {
            input_state: input,
            input_blocked_indices: a.ui.input_blocked_indices,
            completion: if changed {
                CompletionState { active: false, ..b.ui.completion }
            } else {
                b.ui.completion
            },
            command_menu: if changed && !command {
                None
            } else {
                b.ui.command_menu
            },
            ..b.ui
        },
        ..b
    };
    &&& action_effect(b.ui.input_state, input, act)
    &&& a.ui.input_blocked_indices@.len() == 0
    &&& refresh == (changed && command)
    &&& if changed {
        typing_noted(m1, a, now_ms, cmds)
    } else {
        a == m1 && cmds.len() == 0
    }
}

/// `a` is `b` after `key`, with `table` the emojis on offer, at `now`
/// (`now_ms` on the typing clock); `r` is what came of it, or nothing
/// when the key is left to the caller (and nothing changed).
pub open spec fn key_handled(
    b: Model,
    a: Model,
    key: KeyEvent,
    table: Seq<(String, String)>,
    now: Timestamp,
    now_ms: u64,
    r: Option<(Seq<Cmd>, bool)>,
) -> bool {
    if overlay_takes(b, key) {
        overlay_key_done(b, a, key, table, true) && r == Some((Seq::<Cmd>::empty(), false))
    } else if b.ui.ui_mode == UiMode::Navigation {
        r matches Some(x) && !x.1 && navigation_key_handled(b, a, key, now, x.0)
    } else if submit_kind(key, b.ui.input_mode) is Some {
        enter_done(
            b,
            a,
            key,
            now,
            now_ms,
            match r {
                Some(x) => Some(x.0),
                None => None,
            },
        ) && (r matches Some(x) ==> !x.1)
    } else if shortcut_spec(key) != Shortcut::Unhandled && !(shortcut_spec(key) == Shortcut::ClearInput
        && b.ui.input_state.selection is Some) {
        r matches Some(x) && !x.1 && shortcut_done(b, a, shortcut_spec(key), now_ms, Some(x.0))
    } else if left_to_caller(b, key) {
        r is None && a == b
    } else if key.code == KeyCode::Up || key.code == KeyCode::Down {
        r matches Some(x) && !x.1 && arrow_done(b, a, key.code == KeyCode::Up, key.modifiers.shift, now_ms, x.0)
    } else {
        r matches Some(x) && typed_into_input(b, a, key, now_ms, x.0, x.1)
    }
}

impl Model {
    /// Follows a key: an open QR code, Esc, quick switcher, emoji picker
    /// (over `emojis`) or command menu takes it first; then navigation
    /// mode; then, in chat mode, Enter and Ctrl+D, the shortcuts and the
    /// arrows; any other key edits the input.  Nothing happens, and
    /// nothing comes back, for what is left to the caller: commands typed
    /// after `/`, tab completion, opening the quick switcher and the right
    /// arrow.
    pub fn handle_key_event(
        &mut self,
        key: KeyEvent,
        emojis: &[(String, String)],
        now: Timestamp,
        now_ms: u64,
    ) -> (r: Option<KeyOutcome>)
        requires
            overlay_ready(*old(self), emojis@),
            edit_ready(old(self).ui.input_state),
            room_to_send(*old(self), old(self).ui.input_state.text@),
            old(self).ui.history.index_ok(),
            shortcut_spec(key) == Shortcut::PageUp ==> page_up_fits(*old(self)),
        ensures
            final(self).wf(),
            key_handled(
                *old(self),
                *final(self),
                key,
                emojis@,
                now,
                now_ms,
                match r {
                    Some(o) => Some((o.cmds@, o.refresh_command_menu)),
                    None => None,
                },
            ),
    {
        if self.handle_overlay_key(key, emojis) {
            return Some(KeyOutcome { cmds: Vec::new(), refresh_command_menu: false });
        }
        match self.ui.ui_mode {
            UiMode::Navigation => {
                let cmds = self.handle_navigation_key(key, now);
                return Some(KeyOutcome { cmds, refresh_command_menu: false });
            },
            UiMode::Chat => {},
        }
        let multi = match self.ui.input_mode {
            InputMode::MultiLine => true,
            InputMode::SingleLine => false,
        };
        let submit = match key.code {
            KeyCode::Enter => true,
            KeyCode::Char(c) => c == 'd' && key.modifiers.control && multi,
            _ => false,
        };
        if submit {
            return match self.handle_enter_key(key, now, now_ms) {
                Some(cmds) => Some(KeyOutcome { cmds, refresh_command_menu: false }),
                None => None,
            };
        }
        match self.handle_chat_shortcut(key, now_ms) {
            Some(cmds) => {
                return Some(KeyOutcome { cmds, refresh_command_menu: false });
            },
            None => {},
        }
        let completing = self.ui.completion.active;
        let left = match key.code {
            KeyCode::Tab | KeyCode::BackTab | KeyCode::Right => true,
            KeyCode::Char(c) => c == ' ' && key.modifiers.control,
            KeyCode::Up | KeyCode::Down | KeyCode::Left => completing,
            _ => false,
        };
        if left {
            return None;
        }
        match key.code {
            KeyCode::Up => {
                let cmds = self.handle_chat_arrow(true, key.modifiers.shift, now_ms);
                return Some(KeyOutcome { cmds, refresh_command_menu: false });
            },
            KeyCode::Down => {
                let cmds = self.handle_chat_arrow(false, key.modifiers.shift, now_ms);
                return Some(KeyOutcome { cmds, refresh_command_menu: false });
            },
            _ => {},
        }
        let outcome = self.ui.input_state.handle_event(&InputEvent::Key(key));
        self.ui.input_blocked_indices.clear();
        let changed = match outcome {
            Outcome::Changed => true,
            _ => false,
        };
        if !changed {
            return Some(KeyOutcome { cmds: Vec::new(), refresh_command_menu: false });
        }
        self.ui.completion.active = false;
        let cs = str_chars(self.ui.input_state.text.as_str());
        let command = cs.len() > 0 && cs[0] == '/' && !multi;
        if !command {
            self.ui.command_menu = None;
        }
        let cmds = self.note_typing(now_ms);
        Some(KeyOutcome { cmds, refresh_command_menu: command })
    }
}

} // verus!
