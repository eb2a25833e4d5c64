//! The input history: lines sent earlier, recalled into the input box with
//! the arrow keys, and what was being typed before the recall began.
use crate::input_box::InputBoxState;
use crate::text::{byte_len, chars_eq, str_chars};
use vstd::prelude::*;

verus! {

broadcast use vstd::std_specs::vec::group_vec_axioms;

/// The lines sent, oldest first; which of them is shown in the input box
/// (none while typing afresh); and the text typed before recalling began.
#[derive(Debug, Clone)]
pub struct InputHistory {
    pub entries: Vec<String>,
    pub index: Option<usize>,
    pub saved: String,
}

impl InputHistory {
    /// No lines yet.
    pub fn new() -> (h: Self)
        ensures
            h.entries@.len() == 0,
            h.index is None,
            h.saved@.len() == 0,
    {
        InputHistory { entries: Vec::new(), index: None, saved: String::new() }
    }

    /// The recalled line, if any, is one of the entries.
    pub open spec fn index_ok(&self) -> bool {
        match self.index {
            Some(i) => i < self.entries@.len(),
            None => true,
        }
    }
}

/// The entry shown after moving up: the newest when nothing was recalled,
/// otherwise the one before the recalled one (staying at the oldest).
pub open spec fn up_index(index: Option<usize>, len: nat) -> int {
    match index {
        None => len - 1,
        Some(i) => if i > 0 {
            i - 1
        } else {
            0
        },
    }
}

/// The entry shown after moving down from entry `i`: the next one, or
/// none (back to the typed text) from the newest.
pub open spec fn down_index(i: int, len: nat) -> Option<int> {
    if i + 1 < len {
        Some(i + 1)
    } else {
        None
    }
}

/// Moving down after moving up comes back to where the recall stood,
/// unless up could not move because the oldest line was shown.
pub proof fn law_down_after_up(index: Option<usize>, len: nat)
    requires
        len > 0,
        match index {
            Some(i) => 0 < i < len,
            None => true,
        },
    ensures
        down_index(up_index(index, len), len) == match index {
            Some(i) => Some(i as int),
            None => None::<int>,
        },
{
}

/// Recalls the previous line into the input box, remembering what was
/// being typed when the recall begins.  Nothing happens without history.
pub fn history_up(history: &mut InputHistory, input: &mut InputBoxState)
    requires
        old(history).index_ok(),
        old(input).wf(),
    ensures
        final(history).index_ok(),
        final(input).wf(),
        recalled_up(*old(history), *final(history), *old(input), *final(input)),
{
    if history.entries.len() == 0 {
        return;
    }
    match history.index {
        None => {
            history.saved = input.text.clone();
            history.index = Some(history.entries.len() - 1);
        },
        Some(i) => {
            if i > 0 {
                history.index = Some(i - 1);
            }
        },
    }
    let k = match history.index {
        Some(k) => k,
        None => 0,
    };
    let val = history.entries[k].clone();
    input.set_value(val);
}

/// Moves toward newer lines: the next one when there is one, otherwise
/// back to the text typed before the recall.  Nothing happens when no line
/// is recalled.
pub fn history_down(history: &mut InputHistory, input: &mut InputBoxState)
    requires
        old(history).index_ok(),
        old(input).wf(),
    ensures
        final(history).index_ok(),
        final(input).wf(),
        recalled_down(*old(history), *final(history), *old(input), *final(input)),
{
    match history.index {
        None => {},
        Some(i) => {
            let n = history.entries.len();
            assert(i < n);
            if i + 1 < n {
                let next = i + 1;
                history.index = Some(next);
                let val = history.entries[next].clone();
                input.set_value(val);
            } else {
                history.index = None;
                input.set_value(history.saved.clone());
            }
        },
    }
}

/// Records a line that was sent: the recall ends, and the line joins the
/// history unless it repeats the newest entry.
pub fn record_history(history: &mut InputHistory, line: String)
    ensures
        final(history).index is None,
        final(history).saved == old(history).saved,
        final(history).entries@ == if old(history).entries@.len() > 0 && old(history).entries@.last()@
            == line@ {
            old(history).entries@
        } else {
            old(history).entries@.push(line)
        },
{
    history.index = None;
    let n = history.entries.len();
    if n > 0 {
        let a = str_chars(history.entries[n - 1].as_str());
        let b = str_chars(line.as_str());
        if chars_eq(a.as_slice(), b.as_slice()) {
            return;
        }
    }
    history.entries.push(line);
}


/// History `h1` and input `i1` after recalling the previous line from
/// `h0` and `i0`: nothing changes without history; otherwise the line at
/// `up_index` is shown with the cursor at its end, and the typed text is
/// kept when the recall begins.
pub open spec fn recalled_up(h0: InputHistory, h1: InputHistory, i0: InputBoxState, i1: InputBoxState) -> bool {
    &&& h1.entries@ == h0.entries@
    &&& h0.entries@.len() == 0 ==> h1 == h0 && i1 == i0
    &&& h0.entries@.len() > 0 ==> {
        let k = up_index(h0.index, h0.entries@.len());
        &&& h1.index == Some(k as usize)
        &&& h1.saved@ == if h0.index is None {
            i0.text@
        } else {
            h0.saved@
        }
        &&& i1.text@ == h0.entries@[k]@
        &&& i1.cursor_pos == byte_len(i1.text@)
        &&& i1.selection is None
    }
}

/// History `h1` and input `i1` after moving toward newer lines from `h0`
/// and `i0`: nothing changes when no line is recalled; otherwise the next
/// line, or the text typed before the recall, is shown with the cursor at
/// its end.
pub open spec fn recalled_down(h0: InputHistory, h1: InputHistory, i0: InputBoxState, i1: InputBoxState) -> bool {
    &&& h1.entries@ == h0.entries@
    &&& h1.saved@ == h0.saved@
    &&& match h0.index {
        None => h1 == h0 && i1 == i0,
        Some(i) => {
            &&& i1.cursor_pos == byte_len(i1.text@)
            &&& i1.selection is None
            &&& match down_index(i as int, h0.entries@.len()) {
                Some(k) => h1.index == Some(k as usize) && i1.text@ == h0.entries@[k]@,
                None => h1.index is None && i1.text@ == h0.saved@,
            }
        },
    }
}

} // verus!
