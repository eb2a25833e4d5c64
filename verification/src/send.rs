//! Sending a line typed in chat mode that is not a command: into the shown
//! conversation, split into pieces the network takes.
use crate::blocked::{blocked_all, blocked_ranges, ranges_view, texts_view};
use crate::nav_keys::value_set;
use crate::domain::{
    console_added, is_conversation_window, outgoing_added, status_marked, Message, MessageType, Model, UiState,
    WindowId,
};
use crate::model::{ConsoleMessageType, InternalMessageId, MessageStatus, Timestamp};
use crate::msg::Cmd;
use crate::text::{push_all, str_chars, string_from_chars, utf8_len};
use crate::update::{log_cmds, log_request, send_cmds, send_request, Resend};
use crate::utils::{split_message, split_message_spec, split_message_terminates};
use vstd::prelude::*;

verus! {

broadcast use vstd::std_specs::vec::group_vec_axioms;

/// The longest text, in bytes, that one message to a contact or
/// conference may hold.
pub const MAX_MESSAGE_LENGTH: usize = 1372;

/// The longest text, in bytes, that one group message may hold.
pub const GROUP_MAX_MESSAGE_LENGTH: usize = 1372;

/// The longest piece sent at once into window `w`.
pub open spec fn message_limit(w: WindowId) -> nat {
    match w {
        WindowId::Group(_) => GROUP_MAX_MESSAGE_LENGTH as nat,
        _ => MAX_MESSAGE_LENGTH as nat,
    }
}

/// `a` is `b` after piece `part` was sent into window `w` at `now`, and
/// `cmds` what it asks: the piece is recorded as the user's, logged,
/// marked as being sent (and logged again), and its sending asked; a
/// window that is no conversation gets an error in the console instead.
pub open spec fn part_sent(b: Model, a: Model, w: WindowId, part: String, now: Timestamp, cmds: Seq<Cmd>) -> bool {
    exists|m1: Model, r: (InternalMessageId, Message), m2: Model, u: Option<Message>|
        #![trigger outgoing_added(b, m1, w, MessageType::Normal, part@, now, r), status_marked(m1, m2, w, r.0, MessageStatus::Sending, u)]
        {
            &&& outgoing_added(b, m1, w, MessageType::Normal, part@, now, r)
            &&& status_marked(m1, m2, w, r.0, MessageStatus::Sending, u)
            &&& cmds == log_cmds(w, Some(r.1)) + log_cmds(w, u) + send_cmds((w, r.0, MessageType::Normal, part))
            &&& if is_conversation_window(w) {
                a == m2
            } else {
                console_added(m2, a, ConsoleMessageType::Error, "Cannot send message: Invalid window type."@, now)
            }
        }
}

/// `a` is `b` after the pieces `parts` were sent into `w` in order.
pub open spec fn parts_sent(b: Model, a: Model, w: WindowId, parts: Seq<String>, now: Timestamp, cmds: Seq<Cmd>) -> bool
    decreases parts.len(),
{
    if parts.len() == 0 {
        a == b && cmds.len() == 0
    } else {
        exists|mid: Model, n: int|
            #![trigger part_sent(mid, a, w, parts.last(), now, cmds.skip(n))]
            {
                &&& 0 <= n <= cmds.len()
                &&& parts_sent(b, mid, w, parts.drop_last(), now, cmds.take(n))
                &&& part_sent(mid, a, w, parts.last(), now, cmds.skip(n))
            }
    }
}

/// The texts of `v`.
pub open spec fn texts(v: Seq<String>) -> Seq<Seq<char>> {
    v.map_values(|p: String| p@)
}

/// `a` is `b` after the user sent `text` (no command) in the shown window
/// at `now`: in the console or the file manager it is echoed with a hint
/// that it is no command; elsewhere it is split into pieces of at most
/// the window's limit, each sent in turn.
pub open spec fn text_sent(b: Model, a: Model, text: Seq<char>, now: Timestamp, cmds: Seq<Cmd>) -> bool {
    let w = b.active_id();
    if w == WindowId::Console || w == WindowId::Files {
        &&& cmds.len() == 0
        &&& exists|m1: Model|
            #![trigger console_added(b, m1, ConsoleMessageType::Info, "> "@ + text, now)]
            {
                &&& console_added(b, m1, ConsoleMessageType::Info, "> "@ + text, now)
                &&& console_added(m1, a, ConsoleMessageType::Info, "Unknown command. Type /help for help."@, now)
            }
    } else {
        exists|parts: Seq<String>|
            #![trigger parts_sent(b, a, w, parts, now, cmds)]
            texts(parts) == split_message_spec(text, message_limit(w)) && parts_sent(b, a, w, parts, now, cmds)
    }
}

/// `a` is `b` after `text` was refused for holding blocked strings at
/// `rs`: the text is put back into the input (cursor at its end), the
/// ranges are marked, and an error goes to the console.
pub open spec fn blocked_refused(b: Model, a: Model, text: Seq<char>, rs: Seq<(int, int)>, now: Timestamp) -> bool {
    let marked = Model {
        ui: UiState {
            input_state: a.ui.input_state,
            input_blocked_indices: a.ui.input_blocked_indices,
            ..b.ui
        },
        ..b
    };
    &&& value_set(b.ui.input_state, a.ui.input_state, text)
    &&& ranges_view(a.ui.input_blocked_indices@) == rs
    &&& console_added(
        marked,
        a,
        ConsoleMessageType::Error,
        "Message contains blocked strings and was not sent."@,
        now,
    )
}

/// `a` is `b` after the line `text` (no command) was sent at `now`, and
/// `r` the requests: refused when it holds blocked strings, else sent;
/// nothing changes (and nothing comes back) when the blocked strings
/// cannot be looked for.
pub open spec fn line_sent(b: Model, a: Model, text: Seq<char>, now: Timestamp, r: Option<Seq<Cmd>>) -> bool {
    match blocked_all(text, texts_view(b.config.blocked_strings@)) {
        None => r is None && a == b,
        Some(rs) => r matches Some(cmds) && if rs.len() > 0 {
            cmds.len() == 0 && blocked_refused(b, a, text, rs, now)
        } else {
            text_sent(b, a, text, now, cmds)
        },
    }
}

/// Room to number every piece of `text` sent into the shown window.
pub open spec fn room_to_send(m: Model, text: Seq<char>) -> bool {
    m.domain.next_internal_id.0 + split_message_spec(text, message_limit(m.active_id())).len() < usize::MAX
}

impl Model {
    /// Sends one piece `part` into window `w`.
    fn send_part(&mut self, w: WindowId, part: &String, now: Timestamp) -> (cmds: Vec<Cmd>)
        requires
            old(self).wf(),
            old(self).domain.next_internal_id.0 < usize::MAX,
        ensures
            final(self).wf(),
            part_sent(*old(self), *final(self), w, *part, now, cmds@),
            final(self).domain.next_internal_id.0 == old(self).domain.next_internal_id.0 + 1,
    {
        let (id, msg) = self.add_outgoing_message(w, MessageType::Normal, part.clone(), now);
        let ghost m1 = *self;
        let ghost r = (id, msg);
        let mut cmds = log_request(w, Some(msg));
        let u = self.mark_message_status(w, id, MessageStatus::Sending);
        let ghost m2 = *self;
        let mut more = log_request(w, u);
        let x: Resend = (w, id, MessageType::Normal, part.clone());
        let mut send = send_request(&x);
        cmds.append(&mut more);
        cmds.append(&mut send);
        let conv = match w {
            WindowId::Friend(_) | WindowId::Group(_) | WindowId::Conference(_) => true,
            _ => false,
        };
        if !conv {
            self.add_console_message(
                ConsoleMessageType::Error,
                "Cannot send message: Invalid window type.".to_string(),
                now,
            );
        }
        proof {
            assert(outgoing_added(*old(self), m1, w, MessageType::Normal, part@, now, r));
            assert(status_marked(m1, m2, w, r.0, MessageStatus::Sending, u));
            assert(x == (w, r.0, MessageType::Normal, *part));
        }
        cmds
    }

    /// Sends `text`, a line typed in chat mode that is not a command, into
    /// the shown window, unless it holds a blocked string (case aside):
    /// then it is put back into the input with the blocked ranges marked,
    /// an error goes to the console and nothing is sent.  Nothing at all
    /// happens (and nothing comes back) when the blocked strings cannot be
    /// looked for: an empty blocked string, whose search would not end, or
    /// lowercase forms whose byte offsets do not line up with the text's.
    pub fn send_text(&mut self, text: &str, now: Timestamp) -> (r: Option<Vec<Cmd>>)
        requires
            old(self).wf(),
            old(self).ui.input_state.wf(),
            room_to_send(*old(self), text@),
        ensures
            final(self).wf(),
            line_sent(
                *old(self),
                *final(self),
                text@,
                now,
                match r {
                    Some(v) => Some(v@),
                    None => None,
                },
            ),
    {
        let ranges = match blocked_ranges(text, &self.config.blocked_strings) {
            Some(v) => v,
            None => {
                return None;
            },
        };
        if ranges.len() > 0 {
            self.ui.input_state.set_value(text.to_string());
            self.ui.input_blocked_indices = ranges;
            self.add_console_message(
                ConsoleMessageType::Error,
                "Message contains blocked strings and was not sent.".to_string(),
                now,
            );
            return Some(Vec::new());
        }
        Some(self.send_unblocked(text, now))
    }

    /// Sends `text`, known to hold no blocked string, into the shown
    /// window.
    fn send_unblocked(&mut self, text: &str, now: Timestamp) -> (cmds: Vec<Cmd>)
        requires
            old(self).wf(),
            room_to_send(*old(self), text@),
        ensures
            final(self).wf(),
            text_sent(*old(self), *final(self), text@, now, cmds@),
    {
        let w = self.active_window_id();
        match w {
            WindowId::Console | WindowId::Files => {
                let mut cs = str_chars("> ");
                push_all(&mut cs, str_chars(text).as_slice());
                let echo = string_from_chars(cs.as_slice());
                self.add_console_message(ConsoleMessageType::Info, echo, now);
                let ghost m1 = *self;
                self.add_console_message(
                    ConsoleMessageType::Info,
                    "Unknown command. Type /help for help.".to_string(),
                    now,
                );
                proof {
                    assert(console_added(*old(self), m1, ConsoleMessageType::Info, "> "@ + text@, now));
                }
                return Vec::new();
            },
            _ => {},
        }
        let limit: usize = match w {
            WindowId::Group(_) => GROUP_MAX_MESSAGE_LENGTH,
            _ => MAX_MESSAGE_LENGTH,
        };
        proof {
            assert forall|i: int| 0 <= i < text@.len() implies utf8_len(#[trigger] text@[i]) <= limit by {};
            assert(split_message_terminates(text@, limit as nat));
        }
        let parts = split_message(text, limit);
        let ghost start = self.domain.next_internal_id.0;
        let mut cmds: Vec<Cmd> = Vec::new();
        let mut i: usize = 0;
        assert(parts@.take(0) =~= Seq::<String>::empty());
        while i < parts.len()
            invariant
                self.wf(),
                i <= parts@.len(),
                texts(parts@) == split_message_spec(text@, message_limit(w)),
                self.domain.next_internal_id.0 == start + i,
                start + parts@.len() < usize::MAX,
                parts_sent(*old(self), *self, w, parts@.take(i as int), now, cmds@),
            decreases parts@.len() - i,
        {
            let ghost mid = *self;
            let ghost before = cmds@;
            let mut more = self.send_part(w, &parts[i], now);
            let ghost step = more@;
            cmds.append(&mut more);
            proof {
                let t = parts@.take(i as int + 1);
                assert(t.drop_last() =~= parts@.take(i as int));
                assert(t.last() == parts@[i as int]);
                let n = before.len() as int;
                assert(cmds@.take(n) =~= before);
                assert(cmds@.skip(n) =~= step);
                assert(parts_sent(*old(self), mid, w, t.drop_last(), now, cmds@.take(n)));
                assert(part_sent(mid, *self, w, parts@[i as int], now, step));
                assert(part_sent(mid, *self, w, t.last(), now, cmds@.skip(n)));
                assert(t.len() > 0);
                assert(0 <= n <= cmds@.len());
                assert(parts_sent(*old(self), *self, w, t, now, cmds@));
            }
            i = i + 1;
        }
        assert(parts@.take(parts@.len() as int) =~= parts@);
        cmds
    }
}

} // verus!
