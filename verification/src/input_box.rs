//! The state of the multi-line input box: text, cursor and selection as
//! byte offsets, a clipboard, undo/redo history and the wrapped layout used
//! for cursor movement between lines.
use crate::text::{
    byte_len, byte_offset_of, char_index, char_index_of, char_utf8_len, chars_range, is_boundary,
    lemma_byte_len_concat, lemma_byte_len_prefix_le, lemma_char_index, push_all, str_byte_len,
    str_chars, string_from_chars, utf8_len,
};
use base64::Engine;
use vstd::prelude::*;

verus! {

broadcast use vstd::std_specs::vec::group_vec_axioms;

#[derive(Debug, Clone, Copy, PartialEq, Eq, Structural)]
pub enum Outcome {
    /// Not handled here; the caller acts (for instance, sends on Enter).
    Unhandled,
    Changed,
    Unchanged,
}

#[derive(Debug, Clone, Copy, PartialEq, Eq, Structural)]
pub enum InputMode {
    /// Enter sends, Shift+Enter inserts newline
    SendOnEnter,
    /// Enter inserts newline, Shift+Enter sends
    NewlineOnEnter,
}

/// A grapheme of the laid-out text: where it starts, its byte length, its
/// width in columns and the column it is drawn at.
#[derive(Debug, Clone, Copy, PartialEq, Eq, Structural)]
pub struct InputGrapheme {
    pub byte_idx: usize,
    pub len: usize,
    pub width: usize,
    pub screen_x: u16,
}

/// A screen line of the laid-out text.
#[derive(Debug, Clone)]
pub struct InputLine {
    pub graphemes: Vec<InputGrapheme>,
    pub is_soft_wrap: bool,
    pub y_offset: u16,
}

/// A saved (text, cursor) pair of the undo or redo history.
#[derive(Debug)]
pub struct UndoEntry {
    pub text: String,
    pub cursor_pos: usize,
}

#[derive(Debug)]
pub struct InputBoxState {
    // --- Logical State ---
    pub text: String,
    pub cursor_pos: usize,  // absolute byte offset
    pub selection: Option<(usize, usize)>,
    pub mode: Option<InputMode>,
    pub clipboard: String,
    pub undo_stack: Vec<UndoEntry>,
    pub redo_stack: Vec<UndoEntry>,
    // --- Visual Cache (derived from logical state + width) ---
    pub lines: Vec<InputLine>,
    pub cursor_display_pos: (u16, u16),  // relative to inner area (0,0)
    pub last_width: u16,
    pub prompt: String,
    pub scroll: usize,
}

/// Most entries the undo history keeps when an edit is recorded.
pub const UNDO_LIMIT: usize = 100;

/// A saved (text, cursor) pair is usable: the cursor is a character
/// boundary and the text fits in memory.
pub open spec fn entry_ok(e: (Seq<char>, usize)) -> bool {
    is_boundary(e.0, e.1 as int) && byte_len(e.0) <= usize::MAX
}

/// The undo history after an edit of `(text, cursor)` is recorded: the
/// oldest entry falls out past `UNDO_LIMIT`.
pub open spec fn pushed_undo(u: Seq<(Seq<char>, usize)>, e: (Seq<char>, usize)) -> Seq<(Seq<char>, usize)> {
    let p = u.push(e);
    if p.len() > UNDO_LIMIT {
        p.drop_first()
    } else {
        p
    }
}

/// `text` with the characters between byte offsets `a` and `b` removed.
pub open spec fn remove_range(text: Seq<char>, a: int, b: int) -> Seq<char> {
    let lo = if a < b {
        a
    } else {
        b
    };
    let hi = if a < b {
        b
    } else {
        a
    };
    text.take(char_index(text, lo)) + text.skip(char_index(text, hi))
}

pub open spec fn sel_low(sel: (usize, usize)) -> usize {
    if sel.0 < sel.1 {
        sel.0
    } else {
        sel.1
    }
}

/// `ins` inserted into `text` at byte offset `at`.
pub open spec fn insert_at(text: Seq<char>, at: int, ins: Seq<char>) -> Seq<char> {
    text.take(char_index(text, at)) + ins + text.skip(char_index(text, at))
}

/// The (text, cursor) once a selection, if any, is deleted.
pub open spec fn without_selection(text: Seq<char>, cursor: usize, sel: Option<(usize, usize)>) -> (
    Seq<char>,
    usize,
) {
    match sel {
        Some(s) => (remove_range(text, s.0 as int, s.1 as int), sel_low(s)),
        None => (text, cursor),
    }
}

/// The selection after the cursor moved from `prev`: when extending, the
/// anchor stays and the selection closes when the cursor comes back to it.
pub open spec fn moved_selection(
    sel: Option<(usize, usize)>,
    prev: usize,
    cursor: usize,
    extend: bool,
) -> Option<(usize, usize)> {
    if extend {
        match sel {
            Some(s) => if cursor == s.0 {
                None
            } else {
                Some((s.0, cursor))
            },
            None => if cursor != prev {
                Some((prev, cursor))
            } else {
                None
            },
        }
    } else {
        None
    }
}

/// `\r\n` and lone `\r` become `\n`.
pub open spec fn normalize_newlines(s: Seq<char>) -> Seq<char>
    decreases s.len(),
{
    if s.len() == 0 {
        seq![]
    } else if s[0] == '\r' && s.len() > 1 && s[1] == '\n' {
        seq!['\n'] + normalize_newlines(s.skip(2))
    } else if s[0] == '\r' {
        seq!['\n'] + normalize_newlines(s.drop_first())
    } else {
        seq![s[0]] + normalize_newlines(s.drop_first())
    }
}

impl InputBoxState {
    /// The undo history, oldest first.
    pub open spec fn undo_entries(&self) -> Seq<(Seq<char>, usize)> {
        self.undo_stack@.map_values(|e: UndoEntry| (e.text@, e.cursor_pos))
    }

    /// The redo history, oldest first.
    pub open spec fn redo_entries(&self) -> Seq<(Seq<char>, usize)> {
        self.redo_stack@.map_values(|e: UndoEntry| (e.text@, e.cursor_pos))
    }

    /// The cursor sits on a character boundary, and everything that undo or
    /// redo can bring back is usable too.
    pub open spec fn wf(&self) -> bool {
        &&& entry_ok((self.text@, self.cursor_pos))
        &&& forall|i: int| 0 <= i < self.undo_entries().len() ==> entry_ok(#[trigger] self.undo_entries()[i])
        &&& forall|i: int| 0 <= i < self.redo_entries().len() ==> entry_ok(#[trigger] self.redo_entries()[i])
    }

    /// The selection, if any, spans character boundaries of the text.
    pub open spec fn sel_ok(&self) -> bool {
        match self.selection {
            Some(s) => is_boundary(self.text@, s.0 as int) && is_boundary(self.text@, s.1 as int),
            None => true,
        }
    }

    /// The fields an edit leaves alone.
    pub open spec fn same_view(&self, other: &Self) -> bool {
        &&& self.mode == other.mode
        &&& self.lines == other.lines
        &&& self.prompt == other.prompt
        &&& self.cursor_display_pos == other.cursor_display_pos
    }
}


pub(crate) proof fn lemma_boundary_facts(t: Seq<char>, b: int)
    requires
        is_boundary(t, b),
    ensures
        0 <= char_index(t, b) <= t.len(),
        byte_len(t.take(char_index(t, b))) == b,
        0 <= b <= byte_len(t),
{
    let k = char_index(t, b);
    lemma_byte_len_prefix_le(t, k);
    crate::text::lemma_take_all(t);
    if k < t.len() {
        crate::text::lemma_byte_len_take_strict(t, k, t.len() as int);
    }
}

proof fn lemma_char_index_mono(t: Seq<char>, a: int, b: int)
    requires
        is_boundary(t, a),
        is_boundary(t, b),
        a <= b,
    ensures
        char_index(t, a) <= char_index(t, b),
{
    lemma_boundary_facts(t, a);
    lemma_boundary_facts(t, b);
    if char_index(t, a) > char_index(t, b) {
        crate::text::lemma_byte_len_take_strict(t, char_index(t, b), char_index(t, a));
    }
}

/// Facts about `pre + mid + post` where `pre` is a prefix of `t` and
/// `post` a suffix.
proof fn lemma_splice(t: Seq<char>, k1: int, k2: int, mid: Seq<char>)
    requires
        0 <= k1 <= k2 <= t.len(),
    ensures
        byte_len(t.take(k1) + mid + t.skip(k2)) == byte_len(t.take(k1)) + byte_len(mid) + (byte_len(t)
            - byte_len(t.take(k2))),
        is_boundary(t.take(k1) + mid + t.skip(k2), byte_len(t.take(k1)) as int),
        is_boundary(t.take(k1) + mid + t.skip(k2), (byte_len(t.take(k1)) + byte_len(mid)) as int),
        char_index(t.take(k1) + mid + t.skip(k2), byte_len(t.take(k1)) as int) == k1,
        char_index(t.take(k1) + mid + t.skip(k2), (byte_len(t.take(k1)) + byte_len(mid)) as int) == k1 + mid.len(),
{
    let r = t.take(k1) + mid + t.skip(k2);
    lemma_byte_len_concat(t.take(k1) + mid, t.skip(k2));
    lemma_byte_len_concat(t.take(k1), mid);
    lemma_byte_len_concat(t.take(k2), t.skip(k2));
    assert(t =~= t.take(k2) + t.skip(k2));
    assert(r.take(k1) =~= t.take(k1));
    assert(r.take(k1 + mid.len()) =~= t.take(k1) + mid);
    lemma_char_index(r, k1);
    lemma_char_index(r, k1 + mid.len());
}

/// `text` with the bytes from `lo` to `hi` replaced by `ins`.
fn splice_text(text: &String, lo: usize, hi: usize, ins: &[char]) -> (r: String)
    requires
        is_boundary(text@, lo as int),
        is_boundary(text@, hi as int),
        lo <= hi,
        byte_len(text@) - (hi - lo) + byte_len(ins@) <= usize::MAX,
    ensures
        r@ == text@.take(char_index(text@, lo as int)) + ins@ + text@.skip(char_index(text@, hi as int)),
        byte_len(r@) == byte_len(text@) - (hi - lo) + byte_len(ins@),
        is_boundary(r@, lo as int),
        is_boundary(r@, (lo + byte_len(ins@)) as int),
        char_index(r@, (lo + byte_len(ins@)) as int) == char_index(text@, lo as int) + ins@.len(),
{
    let chars = str_chars(text.as_str());
    let k1 = char_index_of(chars.as_slice(), lo).unwrap();
    let k2 = char_index_of(chars.as_slice(), hi).unwrap();
    proof {
        lemma_char_index_mono(text@, lo as int, hi as int);
        lemma_boundary_facts(text@, lo as int);
        lemma_boundary_facts(text@, hi as int);
        lemma_splice(text@, k1 as int, k2 as int, ins@);
    }
    let mut out = chars_range(chars.as_slice(), 0, k1);
    push_all(&mut out, ins);
    let tail = chars_range(chars.as_slice(), k2, chars.len());
    push_all(&mut out, tail.as_slice());
    assert(out@ =~= text@.take(k1 as int) + ins@ + text@.skip(k2 as int));
    string_from_chars(out.as_slice())
}


pub open spec fn entries_view(v: Seq<UndoEntry>) -> Seq<(Seq<char>, usize)> {
    v.map_values(|e: UndoEntry| (e.text@, e.cursor_pos))
}

impl InputBoxState {
    /// Mode, layout cache, prompt and scroll are as in `o`.
    pub open spec fn same_layout(&self, o: &Self) -> bool {
        &&& self.mode == o.mode
        &&& self.lines == o.lines
        &&& self.prompt == o.prompt
        &&& self.cursor_display_pos == o.cursor_display_pos
        &&& self.scroll == o.scroll
    }

    /// An empty input box in send-on-enter mode.
    pub fn new() -> (s: Self)
        ensures
            s.wf(),
            s.text@.len() == 0,
            s.cursor_pos == 0,
            s.selection is None,
            s.mode == Some(InputMode::SendOnEnter),
            s.clipboard@.len() == 0,
            s.undo_entries().len() == 0,
            s.redo_entries().len() == 0,
            s.lines@.len() == 0,
            s.cursor_display_pos == (0u16, 0u16),
            s.last_width == 0,
            s.prompt@.len() == 0,
            s.scroll == 0,
    {
        let s = InputBoxState {
            text: String::new(),
            cursor_pos: 0,
            selection: None,
            mode: Some(InputMode::SendOnEnter),
            clipboard: String::new(),
            undo_stack: Vec::new(),
            redo_stack: Vec::new(),
            lines: Vec::new(),
            cursor_display_pos: (0, 0),
            last_width: 0,
            prompt: String::new(),
            scroll: 0,
        };
        proof {
            assert(s.text@.take(0) =~= Seq::<char>::empty());
            assert(byte_len(Seq::<char>::empty()) == 0);
            assert(byte_len(s.text@.take(0)) == 0);
            assert(s.undo_entries() =~= Seq::<(Seq<char>, usize)>::empty());
            assert(s.redo_entries() =~= Seq::<(Seq<char>, usize)>::empty());
        }
        s
    }

    /// The input mode; send-on-enter unless set otherwise.
    pub fn mode(&self) -> (m: InputMode)
        ensures
            m == match self.mode {
                Some(m) => m,
                None => InputMode::SendOnEnter,
            },
    {
        match self.mode {
            Some(m) => m,
            None => InputMode::SendOnEnter,
        }
    }

    /// Switches between send-on-enter and newline-on-enter.
    pub fn toggle_mode(&mut self)
        ensures
            final(self).mode == Some(match old(self).mode {
                Some(InputMode::NewlineOnEnter) => InputMode::SendOnEnter,
                _ => InputMode::NewlineOnEnter,
            }),
            final(self).text == old(self).text,
            final(self).cursor_pos == old(self).cursor_pos,
            final(self).selection == old(self).selection,
            final(self).clipboard == old(self).clipboard,
            final(self).undo_stack == old(self).undo_stack,
            final(self).redo_stack == old(self).redo_stack,
            final(self).lines == old(self).lines,
            final(self).last_width == old(self).last_width,
            final(self).scroll == old(self).scroll,
    {
        let next = match self.mode() {
            InputMode::SendOnEnter => InputMode::NewlineOnEnter,
            InputMode::NewlineOnEnter => InputMode::SendOnEnter,
        };
        self.mode = Some(next);
    }

    fn invalidate_cache(&mut self)
        ensures
            final(self).last_width == 0,
            final(self).text == old(self).text,
            final(self).cursor_pos == old(self).cursor_pos,
            final(self).selection == old(self).selection,
            final(self).clipboard == old(self).clipboard,
            final(self).undo_stack == old(self).undo_stack,
            final(self).redo_stack == old(self).redo_stack,
            final(self).same_layout(old(self)),
    {
        self.last_width = 0;
    }

    fn record_undo(&mut self)
        requires
            old(self).wf(),
        ensures
            final(self).wf(),
            final(self).undo_entries() == pushed_undo(
                old(self).undo_entries(),
                (old(self).text@, old(self).cursor_pos),
            ),
            final(self).redo_entries().len() == 0,
            final(self).text == old(self).text,
            final(self).cursor_pos == old(self).cursor_pos,
            final(self).selection == old(self).selection,
            final(self).clipboard == old(self).clipboard,
            final(self).same_layout(old(self)),
            final(self).last_width == 0,
    {
        let ghost u0 = self.undo_entries();
        self.undo_stack.push(UndoEntry { text: self.text.clone(), cursor_pos: self.cursor_pos });
        assert(self.undo_entries() =~= u0.push((self.text@, self.cursor_pos)));
        self.redo_stack.clear();
        assert(self.redo_entries() =~= Seq::<(Seq<char>, usize)>::empty());
        if self.undo_stack.len() > UNDO_LIMIT {
            let ghost u1 = self.undo_stack@;
            self.undo_stack.remove(0);
            assert(self.undo_stack@ =~= u1.drop_first());
            assert(self.undo_entries() =~= u0.push((self.text@, self.cursor_pos)).drop_first());
        }
        self.invalidate_cache();
    }

    /// Restores the text and cursor saved by the last edit; the current
    /// ones move to the redo history.  Nothing happens when there is no
    /// history.
    pub fn undo(&mut self)
        requires
            old(self).wf(),
        ensures
            final(self).wf(),
            old(self).undo_entries().len() == 0 ==> *final(self) == *old(self),
            old(self).undo_entries().len() > 0 ==> {
                &&& (final(self).text@, final(self).cursor_pos) == old(self).undo_entries().last()
                &&& final(self).undo_entries() == old(self).undo_entries().drop_last()
                &&& final(self).redo_entries() == old(self).redo_entries().push(
                    (old(self).text@, old(self).cursor_pos),
                )
                &&& final(self).selection is None
                &&& final(self).clipboard == old(self).clipboard
                &&& final(self).same_layout(old(self))
                &&& final(self).last_width == 0
            },
    {
        if self.undo_stack.len() > 0 {
            let ghost u0 = self.undo_entries();
            let ghost r0 = self.redo_entries();
            let entry = self.undo_stack.pop().unwrap();
            assert(self.undo_entries() =~= u0.drop_last());
            self.redo_stack.push(UndoEntry { text: self.text.clone(), cursor_pos: self.cursor_pos });
            assert(self.redo_entries() =~= r0.push((self.text@, self.cursor_pos)));
            self.text = entry.text;
            self.cursor_pos = entry.cursor_pos;
            self.selection = None;
            self.invalidate_cache();
            proof {
                assert(entry_ok(u0[u0.len() - 1]));
                assert forall|i: int| 0 <= i < self.undo_entries().len() implies entry_ok(
                    #[trigger] self.undo_entries()[i],
                ) by {
                    assert(self.undo_entries()[i] == u0[i]);
                }
                assert forall|i: int| 0 <= i < self.redo_entries().len() implies entry_ok(
                    #[trigger] self.redo_entries()[i],
                ) by {
                    if i < r0.len() {
                        assert(self.redo_entries()[i] == r0[i]);
                    }
                }
            }
        }
    }

    /// Re-applies the last undone edit; the current text and cursor move
    /// back to the undo history.  Nothing happens when there is nothing to
    /// redo.
    pub fn redo(&mut self)
        requires
            old(self).wf(),
        ensures
            final(self).wf(),
            old(self).redo_entries().len() == 0 ==> *final(self) == *old(self),
            old(self).redo_entries().len() > 0 ==> {
                &&& (final(self).text@, final(self).cursor_pos) == old(self).redo_entries().last()
                &&& final(self).redo_entries() == old(self).redo_entries().drop_last()
                &&& final(self).undo_entries() == old(self).undo_entries().push(
                    (old(self).text@, old(self).cursor_pos),
                )
                &&& final(self).selection is None
                &&& final(self).clipboard == old(self).clipboard
                &&& final(self).same_layout(old(self))
                &&& final(self).last_width == 0
            },
    {
        if self.redo_stack.len() > 0 {
            let ghost u0 = self.undo_entries();
            let ghost r0 = self.redo_entries();
            let entry = self.redo_stack.pop().unwrap();
            assert(self.redo_entries() =~= r0.drop_last());
            self.undo_stack.push(UndoEntry { text: self.text.clone(), cursor_pos: self.cursor_pos });
            assert(self.undo_entries() =~= u0.push((self.text@, self.cursor_pos)));
            self.text = entry.text;
            self.cursor_pos = entry.cursor_pos;
            self.selection = None;
            self.invalidate_cache();
            proof {
                assert(entry_ok(r0[r0.len() - 1]));
                assert forall|i: int| 0 <= i < self.redo_entries().len() implies entry_ok(
                    #[trigger] self.redo_entries()[i],
                ) by {
                    assert(self.redo_entries()[i] == r0[i]);
                }
                assert forall|i: int| 0 <= i < self.undo_entries().len() implies entry_ok(
                    #[trigger] self.undo_entries()[i],
                ) by {
                    if i < u0.len() {
                        assert(self.undo_entries()[i] == u0[i]);
                    }
                }
            }
        }
    }
}


/// The selected characters.
pub open spec fn selected_text(text: Seq<char>, s: (usize, usize)) -> Seq<char> {
    let lo = if s.0 < s.1 {
        s.0
    } else {
        s.1
    };
    let hi = if s.0 < s.1 {
        s.1
    } else {
        s.0
    };
    text.subrange(char_index(text, lo as int), char_index(text, hi as int))
}

/// (text, cursor) after typing `ins` over the selection, if any, or at
/// the cursor.
pub open spec fn typed(text: Seq<char>, cursor: usize, sel: Option<(usize, usize)>, ins: Seq<char>) -> (
    Seq<char>,
    int,
) {
    let (t1, c1) = without_selection(text, cursor, sel);
    (insert_at(t1, c1 as int, ins), c1 + byte_len(ins))
}

pub(crate) proof fn lemma_boundary_zero_end(t: Seq<char>)
    ensures
        is_boundary(t, 0),
        is_boundary(t, byte_len(t) as int),
        char_index(t, 0) == 0,
        char_index(t, byte_len(t) as int) == t.len(),
{
    assert(t.take(0) =~= Seq::<char>::empty());
    assert(byte_len(Seq::<char>::empty()) == 0);
    lemma_char_index(t, 0);
    crate::text::lemma_take_all(t);
    lemma_char_index(t, t.len() as int);
}

impl InputBoxState {
    /// Copies the selected text, if any, to the clipboard.
    pub fn copy(&mut self)
        requires
            old(self).sel_ok(),
        ensures
            final(self).clipboard@ == match old(self).selection {
                Some(s) => selected_text(old(self).text@, s),
                None => old(self).clipboard@,
            },
            final(self).text == old(self).text,
            final(self).cursor_pos == old(self).cursor_pos,
            final(self).selection == old(self).selection,
            final(self).undo_stack == old(self).undo_stack,
            final(self).redo_stack == old(self).redo_stack,
            final(self).same_layout(old(self)),
            final(self).last_width == old(self).last_width,
            old(self).wf() ==> final(self).wf(),
    {
        match self.selection {
            Some((start, end)) => {
                let (low, high) = if start < end {
                    (start, end)
                } else {
                    (end, start)
                };
                let chars = str_chars(self.text.as_str());
                let a = char_index_of(chars.as_slice(), low).unwrap();
                let b = char_index_of(chars.as_slice(), high).unwrap();
                proof {
                    lemma_char_index_mono(self.text@, low as int, high as int);
                }
                let part = chars_range(chars.as_slice(), a, b);
                self.clipboard = string_from_chars(part.as_slice());
                assert(self.undo_entries() == old(self).undo_entries());
                assert(self.redo_entries() == old(self).redo_entries());
            },
            None => {},
        }
    }

    fn delete_selection(&mut self, start: usize, end: usize)
        requires
            is_boundary(old(self).text@, start as int),
            is_boundary(old(self).text@, end as int),
            byte_len(old(self).text@) <= usize::MAX,
        ensures
            final(self).text@ == remove_range(old(self).text@, start as int, end as int),
            final(self).cursor_pos == sel_low((start, end)),
            final(self).selection is None,
            is_boundary(final(self).text@, final(self).cursor_pos as int),
            byte_len(final(self).text@) <= byte_len(old(self).text@),
            final(self).clipboard == old(self).clipboard,
            final(self).undo_stack == old(self).undo_stack,
            final(self).redo_stack == old(self).redo_stack,
            final(self).same_layout(old(self)),
            final(self).last_width == old(self).last_width,
    {
        let (low, high) = if start < end {
            (start, end)
        } else {
            (end, start)
        };
        proof {
            crate::input_box::lemma_boundary_facts(old(self).text@, low as int);
            crate::input_box::lemma_boundary_facts(old(self).text@, high as int);
        }
        let empty: Vec<char> = Vec::new();
        assert(byte_len(empty@) == 0);
        self.text = splice_text(&self.text, low, high, empty.as_slice());
        assert(self.text@ =~= remove_range(old(self).text@, start as int, end as int));
        self.cursor_pos = low;
        self.selection = None;
    }

    /// Types `ins` over the selection, or at the cursor when there is none.
    fn type_chars(&mut self, ins: &[char])
        requires
            is_boundary(old(self).text@, old(self).cursor_pos as int),
            old(self).sel_ok(),
            byte_len(old(self).text@) + byte_len(ins@) <= usize::MAX,
        ensures
            (final(self).text@, final(self).cursor_pos as int) == typed(
                old(self).text@,
                old(self).cursor_pos,
                old(self).selection,
                ins@,
            ),
            entry_ok((final(self).text@, final(self).cursor_pos)),
            final(self).selection is None,
            final(self).clipboard == old(self).clipboard,
            final(self).undo_stack == old(self).undo_stack,
            final(self).redo_stack == old(self).redo_stack,
            final(self).same_layout(old(self)),
            final(self).last_width == old(self).last_width,
    {
        match self.selection {
            Some((start, end)) => {
                self.delete_selection(start, end);
            },
            None => {},
        }
        let at = self.cursor_pos;
        proof {
            lemma_boundary_facts(self.text@, at as int);
        }
        self.text = splice_text(&self.text, at, at, ins);
        self.cursor_pos = at + crate::text::byte_len_exec(ins);
    }

    /// Cuts the selection, if any, to the clipboard, as one undoable edit.
    pub fn cut(&mut self)
        requires
            old(self).wf(),
            old(self).sel_ok(),
        ensures
            final(self).wf(),
            match old(self).selection {
                Some(s) => {
                    &&& final(self).clipboard@ == selected_text(old(self).text@, s)
                    &&& final(self).text@ == remove_range(old(self).text@, s.0 as int, s.1 as int)
                    &&& final(self).cursor_pos == sel_low(s)
                    &&& final(self).selection is None
                    &&& final(self).undo_entries() == pushed_undo(
                        old(self).undo_entries(),
                        (old(self).text@, old(self).cursor_pos),
                    )
                    &&& final(self).redo_entries().len() == 0
                    &&& final(self).same_layout(old(self))
                    &&& final(self).last_width == 0
                },
                None => *final(self) == *old(self),
            },
    {
        match self.selection {
            Some((start, end)) => {
                self.copy();
                self.record_undo();
                self.delete_selection(start, end);
                self.invalidate_cache();
            },
            None => {},
        }
    }

    /// Types the clipboard over the selection or at the cursor, as one
    /// undoable edit; nothing happens with an empty clipboard.
    pub fn paste(&mut self)
        requires
            old(self).wf(),
            old(self).sel_ok(),
            byte_len(old(self).text@) + byte_len(old(self).clipboard@) <= usize::MAX,
        ensures
            final(self).wf(),
            old(self).clipboard@.len() == 0 ==> *final(self) == *old(self),
            old(self).clipboard@.len() > 0 ==> {
                &&& (final(self).text@, final(self).cursor_pos as int) == typed(
                    old(self).text@,
                    old(self).cursor_pos,
                    old(self).selection,
                    old(self).clipboard@,
                )
                &&& final(self).selection is None
                &&& final(self).clipboard == old(self).clipboard
                &&& final(self).undo_entries() == pushed_undo(
                    old(self).undo_entries(),
                    (old(self).text@, old(self).cursor_pos),
                )
                &&& final(self).redo_entries().len() == 0
                &&& final(self).same_layout(old(self))
                &&& final(self).last_width == 0
            },
    {
        if !self.clipboard.as_str().is_empty() {
            self.record_undo();
            let clip = str_chars(self.clipboard.as_str());
            self.type_chars(clip.as_slice());
            self.invalidate_cache();
        }
    }

    /// Types a string (its line endings made `\n`) over the selection or
    /// at the cursor, as one undoable edit; nothing happens for "".
    pub fn insert_str(&mut self, s: &str)
        requires
            old(self).wf(),
            old(self).sel_ok(),
            byte_len(old(self).text@) + byte_len(s@) <= usize::MAX,
        ensures
            final(self).wf(),
            str_inserted(*old(self), *final(self), s@),
    {
        if s.is_empty() {
            return;
        }
        let chars = str_chars(s);
        let normalized = normalize_newline_chars(chars.as_slice());
        proof {
            lemma_normalize_len(s@);
        }
        self.record_undo();
        self.type_chars(normalized.as_slice());
        self.invalidate_cache();
    }

    /// Types a character over the selection or at the cursor, as one
    /// undoable edit.
    pub fn insert_char(&mut self, c: char)
        requires
            old(self).wf(),
            old(self).sel_ok(),
            byte_len(old(self).text@) + 4 <= usize::MAX,
        ensures
            final(self).wf(),
            (final(self).text@, final(self).cursor_pos as int) == typed(
                old(self).text@,
                old(self).cursor_pos,
                old(self).selection,
                seq![c],
            ),
            final(self).selection is None,
            final(self).clipboard == old(self).clipboard,
            final(self).undo_entries() == pushed_undo(
                old(self).undo_entries(),
                (old(self).text@, old(self).cursor_pos),
            ),
            final(self).redo_entries().len() == 0,
            final(self).same_layout(old(self)),
            final(self).last_width == 0,
    {
        self.record_undo();
        let mut one: Vec<char> = Vec::new();
        one.push(c);
        proof {
            crate::text::lemma_byte_len_push(Seq::<char>::empty(), c);
            assert(Seq::<char>::empty().push(c) =~= one@);
            assert(byte_len(Seq::<char>::empty()) == 0);
        }
        self.type_chars(one.as_slice());
        self.invalidate_cache();
    }

    /// Types a line break.
    pub fn insert_newline(&mut self)
        requires
            old(self).wf(),
            old(self).sel_ok(),
            byte_len(old(self).text@) + 4 <= usize::MAX,
        ensures
            final(self).wf(),
            newline_typed(*old(self), *final(self)),
    {
        self.insert_char('\n');
    }

    /// Empties the input, as one undoable edit; nothing happens when it is
    /// already empty.
    pub fn clear(&mut self)
        requires
            old(self).wf(),
        ensures
            final(self).wf(),
            emptied(*old(self), *final(self)),
    {
        if self.text.as_str().is_empty() {
            return;
        }
        self.record_undo();
        self.text = String::new();
        self.cursor_pos = 0;
        self.selection = None;
        self.scroll = 0;
        self.invalidate_cache();
        proof {
            lemma_boundary_zero_end(self.text@);
        }
    }

    /// Replaces the whole text, cursor at the end, as one undoable edit.
    pub fn set_value(&mut self, text: String)
        requires
            old(self).wf(),
        ensures
            final(self).wf(),
            final(self).text == text,
            final(self).cursor_pos == byte_len(text@),
            final(self).selection is None,
            final(self).scroll == 0,
            final(self).clipboard == old(self).clipboard,
            final(self).undo_entries() == pushed_undo(
                old(self).undo_entries(),
                (old(self).text@, old(self).cursor_pos),
            ),
            final(self).redo_entries().len() == 0,
            final(self).mode == old(self).mode,
            final(self).lines == old(self).lines,
            final(self).prompt == old(self).prompt,
            final(self).last_width == 0,
    {
        self.record_undo();
        let n = str_byte_len(text.as_str());
        self.text = text;
        self.cursor_pos = n;
        self.selection = None;
        self.scroll = 0;
        self.invalidate_cache();
        proof {
            lemma_boundary_zero_end(self.text@);
        }
    }

    pub(crate) fn handle_selection_movement(&mut self, prev_pos: usize, extend: bool)
        ensures
            final(self).selection == moved_selection(
                old(self).selection,
                prev_pos,
                old(self).cursor_pos,
                extend,
            ),
            final(self).text == old(self).text,
            final(self).cursor_pos == old(self).cursor_pos,
            final(self).clipboard == old(self).clipboard,
            final(self).undo_stack == old(self).undo_stack,
            final(self).redo_stack == old(self).redo_stack,
            final(self).same_layout(old(self)),
            final(self).last_width == old(self).last_width,
    {
        if extend {
            match self.selection {
                Some((start, _)) => {
                    if self.cursor_pos == start {
                        self.selection = None;
                    } else {
                        self.selection = Some((start, self.cursor_pos));
                    }
                },
                None => {
                    if self.cursor_pos != prev_pos {
                        self.selection = Some((prev_pos, self.cursor_pos));
                    }
                },
            }
        } else {
            self.selection = None;
        }
    }

    /// Moves the cursor to the start of the text, extending the selection
    /// or dropping it.
    pub fn move_to_start(&mut self, extend_selection: bool)
        requires
            old(self).wf(),
        ensures
            final(self).wf(),
            final(self).cursor_pos == 0,
            final(self).selection == moved_selection(old(self).selection, old(self).cursor_pos, 0, extend_selection),
            final(self).text == old(self).text,
            final(self).clipboard == old(self).clipboard,
            final(self).undo_stack == old(self).undo_stack,
            final(self).redo_stack == old(self).redo_stack,
            final(self).same_layout(old(self)),
            final(self).last_width == old(self).last_width,
    {
        let prev_pos = self.cursor_pos;
        self.cursor_pos = 0;
        self.handle_selection_movement(prev_pos, extend_selection);
        proof {
            lemma_boundary_zero_end(self.text@);
            assert(self.undo_entries() == old(self).undo_entries());
            assert(self.redo_entries() == old(self).redo_entries());
        }
    }

    /// Moves the cursor to the end of the text, extending the selection or
    /// dropping it.
    pub fn move_to_end(&mut self, extend_selection: bool)
        requires
            old(self).wf(),
        ensures
            final(self).wf(),
            final(self).cursor_pos == byte_len(old(self).text@),
            final(self).selection == moved_selection(
                old(self).selection,
                old(self).cursor_pos,
                final(self).cursor_pos,
                extend_selection,
            ),
            final(self).text == old(self).text,
            final(self).clipboard == old(self).clipboard,
            final(self).undo_stack == old(self).undo_stack,
            final(self).redo_stack == old(self).redo_stack,
            final(self).same_layout(old(self)),
            final(self).last_width == old(self).last_width,
    {
        let prev_pos = self.cursor_pos;
        self.cursor_pos = str_byte_len(self.text.as_str());
        self.handle_selection_movement(prev_pos, extend_selection);
        proof {
            lemma_boundary_zero_end(self.text@);
            assert(self.undo_entries() == old(self).undo_entries());
            assert(self.redo_entries() == old(self).redo_entries());
        }
    }

    /// Deletes everything before the cursor, as one undoable edit.
    pub fn delete_to_start(&mut self)
        requires
            old(self).wf(),
        ensures
            final(self).wf(),
            deleted_to_start(*old(self), *final(self)),
    {
        self.record_undo();
        proof {
            lemma_boundary_facts(self.text@, self.cursor_pos as int);
            lemma_boundary_zero_end(self.text@);
        }
        if self.cursor_pos > 0 {
            let empty: Vec<char> = Vec::new();
            assert(byte_len(empty@) == 0);
            self.text = splice_text(&self.text, 0, self.cursor_pos, empty.as_slice());
            assert(self.text@ =~= old(self).text@.skip(char_index(old(self).text@, old(self).cursor_pos as int)));
            self.cursor_pos = 0;
        } else {
            assert(old(self).text@.skip(0) =~= old(self).text@);
        }
    }

    /// Deletes everything after the cursor, as one undoable edit.
    pub fn delete_to_end(&mut self)
        requires
            old(self).wf(),
        ensures
            final(self).wf(),
            final(self).text@ == old(self).text@.take(char_index(old(self).text@, old(self).cursor_pos as int)),
            final(self).cursor_pos == old(self).cursor_pos,
            final(self).selection == old(self).selection,
            final(self).clipboard == old(self).clipboard,
            final(self).undo_entries() == pushed_undo(
                old(self).undo_entries(),
                (old(self).text@, old(self).cursor_pos),
            ),
            final(self).redo_entries().len() == 0,
            final(self).same_layout(old(self)),
            final(self).last_width == 0,
    {
        self.record_undo();
        let n = str_byte_len(self.text.as_str());
        proof {
            lemma_boundary_facts(self.text@, self.cursor_pos as int);
            lemma_boundary_zero_end(self.text@);
        }
        if self.cursor_pos < n {
            let empty: Vec<char> = Vec::new();
            assert(byte_len(empty@) == 0);
            self.text = splice_text(&self.text, self.cursor_pos, n, empty.as_slice());
            assert(self.text@ =~= old(self).text@.take(char_index(old(self).text@, old(self).cursor_pos as int)));
        } else {
            assert(char_index(old(self).text@, old(self).cursor_pos as int) == old(self).text@.len());
            assert(old(self).text@.take(old(self).text@.len() as int) =~= old(self).text@);
        }
    }
}

/// `\r\n` and lone `\r` turned into `\n`.
fn normalize_newline_chars(s: &[char]) -> (r: Vec<char>)
    ensures
        r@ == normalize_newlines(s@),
{
    let mut out: Vec<char> = Vec::new();
    let mut i: usize = 0;
    assert(s@.skip(0) =~= s@);
    assert(out@ + normalize_newlines(s@) =~= normalize_newlines(s@));
    while i < s.len()
        invariant
            i <= s.len(),
            out@ + normalize_newlines(s@.skip(i as int)) == normalize_newlines(s@),
        decreases s.len() - i,
    {
        let ghost rest = s@.skip(i as int);
        if s[i] == '\r' && i + 1 < s.len() && s[i + 1] == '\n' {
            out.push('\n');
            assert(rest.skip(2) =~= s@.skip(i as int + 2));
            i = i + 2;
        } else if s[i] == '\r' {
            out.push('\n');
            assert(rest.drop_first() =~= s@.skip(i as int + 1));
            i = i + 1;
        } else {
            out.push(s[i]);
            assert(rest.drop_first() =~= s@.skip(i as int + 1));
            i = i + 1;
        }
    }
    assert(s@.skip(s.len() as int) =~= Seq::<char>::empty());
    assert(out@ =~= normalize_newlines(s@));
    out
}

proof fn lemma_normalize_len(s: Seq<char>)
    ensures
        byte_len(normalize_newlines(s)) <= byte_len(s),
    decreases s.len(),
{
    if s.len() > 0 {
        assert(s =~= seq![s[0]] + s.drop_first());
        lemma_byte_len_concat(seq![s[0]], s.drop_first());
        assert(seq![s[0]].drop_last() =~= Seq::<char>::empty());
        assert(byte_len(Seq::<char>::empty()) == 0);
        assert(byte_len(seq![s[0]]) == utf8_len(s[0]));
        assert(byte_len(seq!['\n']) == 1) by {
            assert(seq!['\n'].drop_last() =~= Seq::<char>::empty());
        }
        if s[0] == '\r' && s.len() > 1 && s[1] == '\n' {
            lemma_normalize_len(s.skip(2));
            assert(s.drop_first() =~= seq![s[1]] + s.skip(2));
            lemma_byte_len_concat(seq![s[1]], s.skip(2));
            lemma_byte_len_concat(seq!['\n'], normalize_newlines(s.skip(2)));
        } else {
            lemma_normalize_len(s.drop_first());
            lemma_byte_len_concat(seq![if s[0] == '\r' { '\n' } else { s[0] }], normalize_newlines(s.drop_first()));
            assert(seq![if s[0] == '\r' { '\n' } else { s[0] }].drop_last() =~= Seq::<char>::empty());
        }
    }
}


/// Undoing an edit brings back the text and cursor from before it: an
/// edit leaves them last in the undo history, whatever the history held.
pub proof fn law_undo_after_edit(u: Seq<(Seq<char>, usize)>, before: (Seq<char>, usize))
    ensures
        pushed_undo(u, before).len() > 0,
        pushed_undo(u, before).last() == before,
        pushed_undo(u, before).drop_last() == (if u.len() + 1 > UNDO_LIMIT {
            u.drop_first()
        } else {
            u
        }),
{
    if u.len() + 1 > UNDO_LIMIT {
        assert(u.push(before).drop_first().drop_last() =~= u.drop_first());
    } else {
        assert(u.push(before).drop_last() =~= u);
    }
}

/// `b` is what `undo` makes of `a` when `a` has something to undo.
pub open spec fn undo_step(a: InputBoxState, b: InputBoxState) -> bool {
    &&& a.undo_entries().len() > 0
    &&& (b.text@, b.cursor_pos) == a.undo_entries().last()
    &&& b.undo_entries() == a.undo_entries().drop_last()
    &&& b.redo_entries() == a.redo_entries().push((a.text@, a.cursor_pos))
}

/// `b` is what `redo` makes of `a` when `a` has something to redo.
pub open spec fn redo_step(a: InputBoxState, b: InputBoxState) -> bool {
    &&& a.redo_entries().len() > 0
    &&& (b.text@, b.cursor_pos) == a.redo_entries().last()
    &&& b.redo_entries() == a.redo_entries().drop_last()
    &&& b.undo_entries() == a.undo_entries().push((a.text@, a.cursor_pos))
}

/// For every edit that records itself (each such edit's contract says it
/// pushes the text and cursor from before it and empties the redo
/// history): `undo` right after it brings back the text and cursor from
/// before it, and `redo` right after that brings back the edit's result.
pub proof fn law_undo_redo_edit(s0: InputBoxState, s1: InputBoxState, s2: InputBoxState, s3: InputBoxState)
    requires
        s1.undo_entries() == pushed_undo(s0.undo_entries(), (s0.text@, s0.cursor_pos)),
        s1.redo_entries().len() == 0,
        undo_step(s1, s2),
        redo_step(s2, s3),
    ensures
        s2.text@ == s0.text@,
        s2.cursor_pos == s0.cursor_pos,
        s3.text@ == s1.text@,
        s3.cursor_pos == s1.cursor_pos,
        s3.redo_entries().len() == 0,
{
    law_undo_after_edit(s0.undo_entries(), (s0.text@, s0.cursor_pos));
    assert(s2.redo_entries() =~= seq![(s1.text@, s1.cursor_pos)]);
}

/// An undo is possible after every recorded edit, so `undo_step` applies:
/// the history an edit leaves is never empty.
pub proof fn law_edit_undoable(s0: InputBoxState, s1: InputBoxState)
    requires
        s1.undo_entries() == pushed_undo(s0.undo_entries(), (s0.text@, s0.cursor_pos)),
    ensures
        s1.undo_entries().len() > 0,
{
    law_undo_after_edit(s0.undo_entries(), (s0.text@, s0.cursor_pos));
}

/// Pasting right after cutting a selection puts the text back as it was,
/// with the cursor at the end of what was cut: `cut` leaves the text
/// without the selection, the cursor at its start and the cut text on the
/// clipboard, and `paste` types the clipboard there.
pub proof fn law_paste_after_cut(t: Seq<char>, s: (usize, usize))
    requires
        is_boundary(t, s.0 as int),
        is_boundary(t, s.1 as int),
    ensures
        typed(remove_range(t, s.0 as int, s.1 as int), sel_low(s), None, selected_text(t, s)) == (
            t,
            (if s.0 < s.1 {
                s.1
            } else {
                s.0
            }) as int,
        ),
{
    let lo = sel_low(s) as int;
    let hi = (if s.0 < s.1 {
        s.1
    } else {
        s.0
    }) as int;
    lemma_boundary_facts(t, lo);
    lemma_boundary_facts(t, hi);
    lemma_char_index_mono(t, lo, hi);
    let i = char_index(t, lo);
    let j = char_index(t, hi);
    let r = t.take(i) + t.skip(j);
    let cut = t.subrange(i, j);
    assert(r == remove_range(t, s.0 as int, s.1 as int));
    assert(cut == selected_text(t, s));
    assert(r.take(i) =~= t.take(i));
    crate::text::lemma_char_index(r, i);
    assert(char_index(r, lo) == i);
    assert(r.skip(i) =~= t.skip(j));
    assert(r.take(i) + cut + r.skip(i) =~= t);
    assert(t.take(j) =~= t.take(i) + cut);
    lemma_byte_len_concat(t.take(i), cut);
}

/// Redo takes back an undo: after `undo` then `redo`, the text, cursor
/// and both histories are those from before the undo.
pub proof fn law_redo_after_undo(
    u: Seq<(Seq<char>, usize)>,
    r: Seq<(Seq<char>, usize)>,
    cur: (Seq<char>, usize),
)
    requires
        u.len() > 0,
    ensures
        ({
            let r1 = r.push(cur);
            let u1 = u.drop_last();
            &&& r1.len() > 0
            &&& r1.last() == cur
            &&& r1.drop_last() == r
            &&& u1.push(u.last()) == u
        }),
{
    assert(r.push(cur).drop_last() =~= r);
    assert(u.drop_last().push(u.last()) =~= u);
}

pub open spec fn clusters_view(v: Seq<Vec<char>>) -> Seq<Seq<char>> {
    v.map_values(|g: Vec<char>| g@)
}

/// The grapheme clusters of some characters.
fn clusters_of(s: &[char]) -> (r: Vec<Vec<char>>)
    ensures
        clusters_view(r@) == crate::unicode::grapheme_clusters(s@),
        clusters_view(r@).flatten() == s@,
        forall|i: int| 0 <= i < r@.len() ==> (#[trigger] r@[i])@.len() > 0,
{
    let st = string_from_chars(s);
    let gs = crate::unicode::graphemes(st.as_str());
    let mut r: Vec<Vec<char>> = Vec::new();
    let mut i: usize = 0;
    while i < gs.len()
        invariant
            i <= gs@.len(),
            clusters_view(r@) == crate::unicode::strings_chars(gs@).take(i as int),
            forall|j: int| 0 <= j < gs@.len() ==> (#[trigger] gs@[j])@.len() > 0,
            forall|j: int| 0 <= j < r@.len() ==> (#[trigger] r@[j])@.len() > 0,
        decreases gs@.len() - i,
    {
        let ghost before = r@;
        r.push(str_chars(gs[i].as_str()));
        assert(clusters_view(r@) =~= clusters_view(before).push(gs@[i as int]@));
        assert(crate::unicode::strings_chars(gs@).take(i as int + 1) =~= crate::unicode::strings_chars(gs@).take(
            i as int,
        ).push(gs@[i as int]@));
        i = i + 1;
    }
    assert(crate::unicode::strings_chars(gs@).take(gs@.len() as int) =~= crate::unicode::strings_chars(gs@));
    r
}

/// Number of characters in the first `i` clusters.
pub open spec fn cluster_offset(gs: Seq<Seq<char>>, i: int) -> int {
    gs.take(i).flatten().len() as int
}

/// Character index where the grapheme before character index `k` starts.
pub open spec fn prev_grapheme_start(text: Seq<char>, k: int) -> int {
    let gs = crate::unicode::grapheme_clusters(text.take(k));
    if gs.len() == 0 {
        k
    } else {
        k - gs.last().len()
    }
}

/// Character index where the grapheme after character index `k` ends.
pub open spec fn next_grapheme_end(text: Seq<char>, k: int) -> int {
    let gs = crate::unicode::grapheme_clusters(text.skip(k));
    if gs.len() == 0 {
        k
    } else {
        k + gs[0].len()
    }
}

pub open spec fn all_whitespace(g: Seq<char>) -> bool {
    forall|i: int| 0 <= i < g.len() ==> crate::text::is_whitespace_char(#[trigger] g[i])
}

/// Clusters stepped over backwards from `i` while they are all whitespace.
pub open spec fn skip_ws_back(gs: Seq<Seq<char>>, i: int) -> int
    decreases i,
{
    if i <= 0 || i > gs.len() {
        0
    } else if all_whitespace(gs[i - 1]) {
        skip_ws_back(gs, i - 1)
    } else {
        i
    }
}

/// Clusters stepped over backwards from `i` while they start with a
/// non-space character of the same kind (alphanumeric or not) as `cat`.
pub open spec fn skip_kind_back(gs: Seq<Seq<char>>, i: int, cat: bool) -> int
    decreases i,
{
    if i <= 0 || i > gs.len() {
        0
    } else if crate::text::is_whitespace_char(gs[i - 1][0]) || crate::text::is_alphanumeric_char(
        gs[i - 1][0],
    ) != cat {
        i
    } else {
        skip_kind_back(gs, i - 1, cat)
    }
}

/// Cluster index that a word step to the left lands on, given the
/// clusters before the cursor.
pub open spec fn word_left_index(gs: Seq<Seq<char>>) -> int {
    let i1 = skip_ws_back(gs, gs.len() as int);
    if i1 == 0 {
        0
    } else {
        skip_kind_back(gs, i1, crate::text::is_alphanumeric_char(gs[i1 - 1][0]))
    }
}

/// Clusters stepped over forwards from `i` while they are all whitespace.
pub open spec fn skip_ws_fwd(gs: Seq<Seq<char>>, i: int) -> int
    decreases gs.len() - i,
{
    if i < 0 || i >= gs.len() {
        gs.len() as int
    } else if all_whitespace(gs[i]) {
        skip_ws_fwd(gs, i + 1)
    } else {
        i
    }
}

/// Clusters stepped over forwards from `i` while they start with a
/// non-space character of the same kind as `cat`.
pub open spec fn skip_kind_fwd(gs: Seq<Seq<char>>, i: int, cat: bool) -> int
    decreases gs.len() - i,
{
    if i < 0 || i >= gs.len() {
        gs.len() as int
    } else if crate::text::is_whitespace_char(gs[i][0]) || crate::text::is_alphanumeric_char(gs[i][0])
        != cat {
        i
    } else {
        skip_kind_fwd(gs, i + 1, cat)
    }
}

/// Cluster index that a word step to the right lands on, given the
/// clusters after the cursor.
pub open spec fn word_right_index(gs: Seq<Seq<char>>) -> int {
    let i1 = skip_ws_fwd(gs, 0);
    if i1 >= gs.len() {
        gs.len() as int
    } else {
        skip_kind_fwd(gs, i1, crate::text::is_alphanumeric_char(gs[i1][0]))
    }
}

/// Character index a word step left from character index `k` lands on.
pub open spec fn word_left_target(text: Seq<char>, k: int) -> int {
    let gs = crate::unicode::grapheme_clusters(text.take(k));
    cluster_offset(gs, word_left_index(gs))
}

/// Character index a word step right from character index `k` lands on.
pub open spec fn word_right_target(text: Seq<char>, k: int) -> int {
    let gs = crate::unicode::grapheme_clusters(text.skip(k));
    k + cluster_offset(gs, word_right_index(gs))
}

pub(crate) proof fn lemma_cluster_offset(gs: Seq<Seq<char>>, i: int)
    requires
        0 <= i <= gs.len(),
    ensures
        0 <= cluster_offset(gs, i) <= gs.flatten().len(),
        gs.flatten() == gs.take(i).flatten() + gs.skip(i).flatten(),
        i == gs.len() ==> cluster_offset(gs, i) == gs.flatten().len(),
{
    vstd::seq_lib::lemma_flatten_concat(gs.take(i), gs.skip(i));
    assert(gs =~= gs.take(i) + gs.skip(i));
    assert(gs.take(gs.len() as int) =~= gs);
}

proof fn lemma_last_cluster(gs: Seq<Seq<char>>)
    requires
        gs.len() > 0,
    ensures
        gs.flatten() == gs.drop_last().flatten() + gs.last(),
{
    vstd::seq_lib::lemma_flatten_concat(gs.drop_last(), seq![gs.last()]);
    assert(gs =~= gs.drop_last() + seq![gs.last()]);
    assert(seq![gs.last()].drop_first() =~= Seq::<Seq<char>>::empty());
    assert(seq![gs.last()].drop_first().flatten() =~= Seq::<char>::empty());
    assert(seq![gs.last()].flatten() =~= gs.last());
}


pub(crate) proof fn lemma_flatten_take_step(gs: Seq<Seq<char>>, i: int)
    requires
        0 <= i < gs.len(),
    ensures
        gs.take(i + 1).flatten() == gs.take(i).flatten() + gs[i],
{
    vstd::seq_lib::lemma_flatten_concat(gs.take(i), seq![gs[i]]);
    assert(gs.take(i + 1) =~= gs.take(i) + seq![gs[i]]);
    assert(seq![gs[i]].drop_first() =~= Seq::<Seq<char>>::empty());
    assert(seq![gs[i]].drop_first().flatten() =~= Seq::<char>::empty());
    assert(seq![gs[i]].flatten() =~= gs[i]);
}

/// Number of characters in the first `i` clusters.
fn cluster_offset_exec(gs: &Vec<Vec<char>>, i: usize) -> (n: usize)
    requires
        i <= gs@.len(),
        clusters_view(gs@).flatten().len() <= usize::MAX,
    ensures
        n == cluster_offset(clusters_view(gs@), i as int),
{
    let ghost cv = clusters_view(gs@);
    let mut j: usize = 0;
    let mut n: usize = 0;
    assert(cv.take(0) =~= Seq::<Seq<char>>::empty());
    assert(cv.take(0).flatten() =~= Seq::<char>::empty());
    while j < i
        invariant
            j <= i <= gs@.len(),
            cv == clusters_view(gs@),
            cv.flatten().len() <= usize::MAX,
            n == cv.take(j as int).flatten().len(),
        decreases i - j,
    {
        proof {
            lemma_flatten_take_step(cv, j as int);
            lemma_cluster_offset(cv, j as int + 1);
            assert(cv[j as int] == gs@[j as int]@);
        }
        n = n + gs[j].len();
        j = j + 1;
    }
    n
}

pub(crate) fn is_all_whitespace(g: &Vec<char>) -> (r: bool)
    ensures
        r == all_whitespace(g@),
{
    let mut i: usize = 0;
    while i < g.len()
        invariant
            i <= g@.len(),
            forall|j: int| 0 <= j < i ==> crate::text::is_whitespace_char(#[trigger] g@[j]),
        decreases g@.len() - i,
    {
        if !crate::text::char_is_whitespace(g[i]) {
            return false;
        }
        i = i + 1;
    }
    true
}

/// Character index where the grapheme before character index `k` starts.
fn prev_grapheme_index(chars: &Vec<char>, k: usize) -> (j: usize)
    requires
        k <= chars@.len(),
    ensures
        j == prev_grapheme_start(chars@, k as int),
        j <= k,
        k > 0 ==> j < k,
{
    let pre = chars_range(chars.as_slice(), 0, k);
    assert(pre@ =~= chars@.take(k as int));
    let gs = clusters_of(pre.as_slice());
    if gs.len() == 0 {
        proof {
            assert(clusters_view(gs@) =~= Seq::<Seq<char>>::empty());
            assert(clusters_view(gs@).flatten() =~= Seq::<char>::empty());
            assert(pre@.len() == k);
        }
        k
    } else {
        proof {
            lemma_last_cluster(clusters_view(gs@));
            assert(clusters_view(gs@).last() == gs@[gs@.len() - 1]@);
            assert(clusters_view(gs@).flatten().len() == clusters_view(gs@).drop_last().flatten().len() + gs@[gs@.len() - 1]@.len());
            assert(gs@[gs@.len() - 1]@.len() > 0);
            assert(pre@.len() == k);
        }
        k - gs[gs.len() - 1].len()
    }
}

/// Character index where the grapheme after character index `k` ends.
fn next_grapheme_index(chars: &Vec<char>, k: usize) -> (e: usize)
    requires
        k <= chars@.len(),
    ensures
        e == next_grapheme_end(chars@, k as int),
        k <= e <= chars@.len(),
        k < chars@.len() ==> k < e,
{
    let post = chars_range(chars.as_slice(), k, chars.len());
    assert(post@ =~= chars@.skip(k as int));
    let gs = clusters_of(post.as_slice());
    if gs.len() == 0 {
        proof {
            assert(clusters_view(gs@) =~= Seq::<Seq<char>>::empty());
            assert(clusters_view(gs@).flatten() =~= Seq::<char>::empty());
            assert(post@.len() == chars@.len() - k);
        }
        k
    } else {
        proof {
            assert(clusters_view(gs@)[0] == gs@[0]@);
            assert(clusters_view(gs@).flatten().len() == gs@[0]@.len() + clusters_view(gs@).drop_first().flatten().len());
            assert(gs@[0]@.len() > 0);
        }
        k + gs[0].len()
    }
}

/// Cluster index a word step left lands on.
fn word_left_exec(gs: &Vec<Vec<char>>) -> (i: usize)
    requires
        forall|j: int| 0 <= j < gs@.len() ==> (#[trigger] gs@[j])@.len() > 0,
    ensures
        i == word_left_index(clusters_view(gs@)),
        i <= gs@.len(),
{
    let ghost cv = clusters_view(gs@);
    let mut i = gs.len();
    while i > 0 && is_all_whitespace(&gs[i - 1])
        invariant
            i <= gs@.len(),
            cv == clusters_view(gs@),
            skip_ws_back(cv, gs@.len() as int) == skip_ws_back(cv, i as int),
        decreases i,
    {
        assert(cv[i as int - 1] == gs@[i as int - 1]@);
        i = i - 1;
    }
    proof {
        if i > 0 {
            assert(cv[i as int - 1] == gs@[i as int - 1]@);
        }
    }
    if i == 0 {
        return 0;
    }
    assert(cv[i as int - 1] == gs@[i as int - 1]@);
    let cat = crate::text::char_is_alphanumeric(gs[i - 1][0]);
    let ghost i1 = i;
    while i > 0 && !crate::text::char_is_whitespace(gs[i - 1][0])
        && crate::text::char_is_alphanumeric(gs[i - 1][0]) == cat
        invariant
            i <= gs@.len(),
            cv == clusters_view(gs@),
            forall|j: int| 0 <= j < gs@.len() ==> (#[trigger] gs@[j])@.len() > 0,
            skip_kind_back(cv, i1 as int, cat) == skip_kind_back(cv, i as int, cat),
        decreases i,
    {
        assert(cv[i as int - 1] == gs@[i as int - 1]@);
        i = i - 1;
    }
    proof {
        if i > 0 {
            assert(cv[i as int - 1] == gs@[i as int - 1]@);
        }
    }
    i
}

/// Cluster index a word step right lands on.
fn word_right_exec(gs: &Vec<Vec<char>>) -> (i: usize)
    requires
        forall|j: int| 0 <= j < gs@.len() ==> (#[trigger] gs@[j])@.len() > 0,
    ensures
        i == word_right_index(clusters_view(gs@)),
        i <= gs@.len(),
{
    let ghost cv = clusters_view(gs@);
    let mut i: usize = 0;
    while i < gs.len() && is_all_whitespace(&gs[i])
        invariant
            i <= gs@.len(),
            cv == clusters_view(gs@),
            skip_ws_fwd(cv, 0) == skip_ws_fwd(cv, i as int),
        decreases gs@.len() - i,
    {
        assert(cv[i as int] == gs@[i as int]@);
        i = i + 1;
    }
    proof {
        if i < gs@.len() {
            assert(cv[i as int] == gs@[i as int]@);
        }
    }
    if i >= gs.len() {
        return gs.len();
    }
    assert(cv[i as int] == gs@[i as int]@);
    let cat = crate::text::char_is_alphanumeric(gs[i][0]);
    let ghost i1 = i;
    while i < gs.len() && !crate::text::char_is_whitespace(gs[i][0])
        && crate::text::char_is_alphanumeric(gs[i][0]) == cat
        invariant
            i <= gs@.len(),
            cv == clusters_view(gs@),
            forall|j: int| 0 <= j < gs@.len() ==> (#[trigger] gs@[j])@.len() > 0,
            skip_kind_fwd(cv, i1 as int, cat) == skip_kind_fwd(cv, i as int, cat),
        decreases gs@.len() - i,
    {
        assert(cv[i as int] == gs@[i as int]@);
        i = i + 1;
    }
    proof {
        if i < gs@.len() {
            assert(cv[i as int] == gs@[i as int]@);
        }
    }
    i
}

/// Character index a word step left from `k` lands on.
fn word_left_char_index(chars: &Vec<char>, k: usize) -> (j: usize)
    requires
        k <= chars@.len(),
    ensures
        j == word_left_target(chars@, k as int),
        j <= k,
{
    let pre = chars_range(chars.as_slice(), 0, k);
    assert(pre@ =~= chars@.take(k as int));
    let gs = clusters_of(pre.as_slice());
    let wi = word_left_exec(&gs);
    proof {
        lemma_cluster_offset(clusters_view(gs@), wi as int);
    }
    cluster_offset_exec(&gs, wi)
}

/// Character index a word step right from `k` lands on.
fn word_right_char_index(chars: &Vec<char>, k: usize) -> (j: usize)
    requires
        k <= chars@.len(),
    ensures
        j == word_right_target(chars@, k as int),
        k <= j <= chars@.len(),
{
    let post = chars_range(chars.as_slice(), k, chars.len());
    assert(post@ =~= chars@.skip(k as int));
    let gs = clusters_of(post.as_slice());
    let wi = word_right_exec(&gs);
    proof {
        lemma_cluster_offset(clusters_view(gs@), wi as int);
    }
    k + cluster_offset_exec(&gs, wi)
}


/// Byte offset of character index `k`.
pub open spec fn boff(text: Seq<char>, k: int) -> int {
    byte_len(text.take(k)) as int
}

/// (text, cursor) after removing the characters from index `a` to `b`,
/// cursor at `a`.
pub open spec fn cut_chars(text: Seq<char>, a: int, b: int) -> (Seq<char>, int) {
    (text.take(a) + text.skip(b), boff(text, a))
}

impl InputBoxState {
    /// Removes the characters between indices `a <= b`, cursor at `a`.
    fn remove_chars(&mut self, chars: &Vec<char>, a: usize, b: usize)
        requires
            chars@ == old(self).text@,
            a <= b <= chars@.len(),
            byte_len(old(self).text@) <= usize::MAX,
        ensures
            (final(self).text@, final(self).cursor_pos as int) == cut_chars(old(self).text@, a as int, b as int),
            entry_ok((final(self).text@, final(self).cursor_pos)),
            final(self).selection == old(self).selection,
            final(self).clipboard == old(self).clipboard,
            final(self).undo_stack == old(self).undo_stack,
            final(self).redo_stack == old(self).redo_stack,
            final(self).same_layout(old(self)),
            final(self).last_width == old(self).last_width,
    {
        let lo = byte_offset_of(chars.as_slice(), a);
        let hi = byte_offset_of(chars.as_slice(), b);
        proof {
            lemma_char_index(chars@, a as int);
            lemma_char_index(chars@, b as int);
            lemma_byte_len_prefix_le(chars@, b as int);
            if a < b {
                crate::text::lemma_byte_len_take_strict(chars@, a as int, b as int);
            }
        }
        let empty: Vec<char> = Vec::new();
        assert(byte_len(empty@) == 0);
        self.text = splice_text(&self.text, lo, hi, empty.as_slice());
        assert(self.text@ =~= old(self).text@.take(a as int) + old(self).text@.skip(b as int));
        self.cursor_pos = lo;
    }

    /// Deletes the selection, or else the grapheme before the cursor, as
    /// one undoable edit.
    pub fn delete_prev_char(&mut self)
        requires
            old(self).wf(),
            old(self).sel_ok(),
        ensures
            final(self).wf(),
            match old(self).selection {
                Some(s) => {
                    &&& final(self).text@ == remove_range(old(self).text@, s.0 as int, s.1 as int)
                    &&& final(self).cursor_pos == sel_low(s)
                },
                None => {
                    let k = char_index(old(self).text@, old(self).cursor_pos as int);
                    if old(self).cursor_pos > 0 {
                        (final(self).text@, final(self).cursor_pos as int) == cut_chars(
                            old(self).text@,
                            prev_grapheme_start(old(self).text@, k),
                            k,
                        )
                    } else {
                        final(self).text == old(self).text && final(self).cursor_pos == old(self).cursor_pos
                    }
                },
            },
            final(self).selection is None,
            final(self).clipboard == old(self).clipboard,
            final(self).undo_entries() == pushed_undo(
                old(self).undo_entries(),
                (old(self).text@, old(self).cursor_pos),
            ),
            final(self).redo_entries().len() == 0,
            final(self).same_layout(old(self)),
            final(self).last_width == 0,
    {
        self.record_undo();
        match self.selection {
            Some((start, end)) => {
                self.delete_selection(start, end);
                return;
            },
            None => {},
        }
        if self.cursor_pos > 0 {
            let chars = str_chars(self.text.as_str());
            let k = char_index_of(chars.as_slice(), self.cursor_pos).unwrap();
            let j = prev_grapheme_index(&chars, k);
            self.remove_chars(&chars, j, k);
            self.invalidate_cache();
        }
    }

    /// Deletes the selection, or else the grapheme after the cursor, as one
    /// undoable edit.
    pub fn delete_next_char(&mut self)
        requires
            old(self).wf(),
            old(self).sel_ok(),
        ensures
            final(self).wf(),
            match old(self).selection {
                Some(s) => {
                    &&& final(self).text@ == remove_range(old(self).text@, s.0 as int, s.1 as int)
                    &&& final(self).cursor_pos == sel_low(s)
                },
                None => {
                    let k = char_index(old(self).text@, old(self).cursor_pos as int);
                    &&& k < old(self).text@.len() ==> final(self).text@ == old(self).text@.take(k)
                        + old(self).text@.skip(next_grapheme_end(old(self).text@, k))
                    &&& k >= old(self).text@.len() ==> final(self).text == old(self).text
                    &&& final(self).cursor_pos == old(self).cursor_pos
                },
            },
            final(self).selection is None,
            final(self).clipboard == old(self).clipboard,
            final(self).undo_entries() == pushed_undo(
                old(self).undo_entries(),
                (old(self).text@, old(self).cursor_pos),
            ),
            final(self).redo_entries().len() == 0,
            final(self).same_layout(old(self)),
            final(self).last_width == 0,
    {
        self.record_undo();
        match self.selection {
            Some((start, end)) => {
                self.delete_selection(start, end);
                return;
            },
            None => {},
        }
        let chars = str_chars(self.text.as_str());
        let k = char_index_of(chars.as_slice(), self.cursor_pos).unwrap();
        proof {
            lemma_boundary_facts(self.text@, self.cursor_pos as int);
        }
        if k < chars.len() {
            let e = next_grapheme_index(&chars, k);
            self.remove_chars(&chars, k, e);
            self.invalidate_cache();
        }
    }
}


impl InputBoxState {
    /// Moves the cursor to the given character index of the text.
    fn set_cursor_char(&mut self, chars: &Vec<char>, k: usize)
        requires
            chars@ == old(self).text@,
            k <= chars@.len(),
            byte_len(old(self).text@) <= usize::MAX,
        ensures
            final(self).cursor_pos == boff(old(self).text@, k as int),
            is_boundary(final(self).text@, final(self).cursor_pos as int),
            final(self).text == old(self).text,
            final(self).selection == old(self).selection,
            final(self).clipboard == old(self).clipboard,
            final(self).undo_stack == old(self).undo_stack,
            final(self).redo_stack == old(self).redo_stack,
            final(self).same_layout(old(self)),
            final(self).last_width == old(self).last_width,
    {
        self.cursor_pos = byte_offset_of(chars.as_slice(), k);
        proof {
            lemma_char_index(chars@, k as int);
        }
    }

    /// Moves the cursor one grapheme left, extending the selection or
    /// dropping it.
    pub fn move_cursor_left(&mut self, extend_selection: bool)
        requires
            old(self).wf(),
        ensures
            final(self).wf(),
            final(self).cursor_pos == (if old(self).cursor_pos > 0 {
                boff(
                    old(self).text@,
                    prev_grapheme_start(old(self).text@, char_index(old(self).text@, old(self).cursor_pos as int)),
                )
            } else {
                old(self).cursor_pos as int
            }),
            final(self).selection == moved_selection(
                old(self).selection,
                old(self).cursor_pos,
                final(self).cursor_pos,
                extend_selection,
            ),
            final(self).text == old(self).text,
            final(self).clipboard == old(self).clipboard,
            final(self).undo_stack == old(self).undo_stack,
            final(self).redo_stack == old(self).redo_stack,
            final(self).same_layout(old(self)),
            final(self).last_width == 0,
    {
        let prev_pos = self.cursor_pos;
        if self.cursor_pos > 0 {
            let chars = str_chars(self.text.as_str());
            let k = char_index_of(chars.as_slice(), self.cursor_pos).unwrap();
            let j = prev_grapheme_index(&chars, k);
            self.set_cursor_char(&chars, j);
        }
        self.handle_selection_movement(prev_pos, extend_selection);
        self.invalidate_cache();
        assert(self.undo_entries() == old(self).undo_entries());
        assert(self.redo_entries() == old(self).redo_entries());
    }

    /// Moves the cursor one grapheme right, extending the selection or
    /// dropping it.
    pub fn move_cursor_right(&mut self, extend_selection: bool)
        requires
            old(self).wf(),
        ensures
            final(self).wf(),
            final(self).cursor_pos == (if old(self).cursor_pos < byte_len(old(self).text@) {
                boff(
                    old(self).text@,
                    next_grapheme_end(old(self).text@, char_index(old(self).text@, old(self).cursor_pos as int)),
                )
            } else {
                old(self).cursor_pos as int
            }),
            final(self).selection == moved_selection(
                old(self).selection,
                old(self).cursor_pos,
                final(self).cursor_pos,
                extend_selection,
            ),
            final(self).text == old(self).text,
            final(self).clipboard == old(self).clipboard,
            final(self).undo_stack == old(self).undo_stack,
            final(self).redo_stack == old(self).redo_stack,
            final(self).same_layout(old(self)),
            final(self).last_width == 0,
    {
        let prev_pos = self.cursor_pos;
        let n = str_byte_len(self.text.as_str());
        if self.cursor_pos < n {
            let chars = str_chars(self.text.as_str());
            let k = char_index_of(chars.as_slice(), self.cursor_pos).unwrap();
            proof {
                lemma_boundary_facts(self.text@, self.cursor_pos as int);
            }
            let e = next_grapheme_index(&chars, k);
            self.set_cursor_char(&chars, e);
        }
        self.handle_selection_movement(prev_pos, extend_selection);
        self.invalidate_cache();
        assert(self.undo_entries() == old(self).undo_entries());
        assert(self.redo_entries() == old(self).redo_entries());
    }

    /// Moves the cursor to the start of the word before it: whitespace is
    /// skipped, then graphemes of the same kind (alphanumeric or not).  At
    /// the start of the text nothing changes.
    pub fn move_cursor_word_left(&mut self, extend_selection: bool)
        requires
            old(self).wf(),
        ensures
            final(self).wf(),
            old(self).cursor_pos == 0 ==> *final(self) == *old(self),
            old(self).cursor_pos > 0 ==> {
                &&& final(self).cursor_pos == boff(
                    old(self).text@,
                    word_left_target(old(self).text@, char_index(old(self).text@, old(self).cursor_pos as int)),
                )
                &&& final(self).selection == moved_selection(
                    old(self).selection,
                    old(self).cursor_pos,
                    final(self).cursor_pos,
                    extend_selection,
                )
            },
            final(self).cursor_pos <= old(self).cursor_pos,
            final(self).text == old(self).text,
            final(self).clipboard == old(self).clipboard,
            final(self).undo_stack == old(self).undo_stack,
            final(self).redo_stack == old(self).redo_stack,
            final(self).same_layout(old(self)),
            final(self).last_width == old(self).last_width,
    {
        let prev_pos = self.cursor_pos;
        if self.cursor_pos == 0 {
            return;
        }
        let chars = str_chars(self.text.as_str());
        let k = char_index_of(chars.as_slice(), self.cursor_pos).unwrap();
        let j = word_left_char_index(&chars, k);
        proof {
            lemma_byte_len_prefix_le(chars@, k as int);
            if j < k {
                crate::text::lemma_byte_len_take_strict(chars@, j as int, k as int);
            }
        }
        self.set_cursor_char(&chars, j);
        self.handle_selection_movement(prev_pos, extend_selection);
        assert(self.undo_entries() == old(self).undo_entries());
        assert(self.redo_entries() == old(self).redo_entries());
    }

    /// Moves the cursor to the end of the word after it: whitespace is
    /// skipped, then graphemes of the same kind.  At the end of the text
    /// nothing changes.
    pub fn move_cursor_word_right(&mut self, extend_selection: bool)
        requires
            old(self).wf(),
        ensures
            final(self).wf(),
            old(self).cursor_pos >= byte_len(old(self).text@) ==> *final(self) == *old(self),
            old(self).cursor_pos < byte_len(old(self).text@) ==> {
                &&& final(self).cursor_pos == boff(
                    old(self).text@,
                    word_right_target(old(self).text@, char_index(old(self).text@, old(self).cursor_pos as int)),
                )
                &&& final(self).selection == moved_selection(
                    old(self).selection,
                    old(self).cursor_pos,
                    final(self).cursor_pos,
                    extend_selection,
                )
            },
            final(self).cursor_pos >= old(self).cursor_pos,
            final(self).text == old(self).text,
            final(self).clipboard == old(self).clipboard,
            final(self).undo_stack == old(self).undo_stack,
            final(self).redo_stack == old(self).redo_stack,
            final(self).same_layout(old(self)),
            final(self).last_width == old(self).last_width,
    {
        let prev_pos = self.cursor_pos;
        let n = str_byte_len(self.text.as_str());
        if self.cursor_pos >= n {
            return;
        }
        let chars = str_chars(self.text.as_str());
        let k = char_index_of(chars.as_slice(), self.cursor_pos).unwrap();
        proof {
            lemma_boundary_facts(self.text@, self.cursor_pos as int);
        }
        let j = word_right_char_index(&chars, k);
        proof {
            lemma_byte_len_prefix_le(chars@, j as int);
            if k < j {
                crate::text::lemma_byte_len_take_strict(chars@, k as int, j as int);
            }
        }
        self.set_cursor_char(&chars, j);
        self.handle_selection_movement(prev_pos, extend_selection);
        assert(self.undo_entries() == old(self).undo_entries());
        assert(self.redo_entries() == old(self).redo_entries());
    }

    /// Deletes the selection, or else back to the start of the word before
    /// the cursor, as one undoable edit.
    pub fn delete_word_left(&mut self)
        requires
            old(self).wf(),
            old(self).sel_ok(),
        ensures
            final(self).wf(),
            word_deleted_left(*old(self), *final(self)),
    {
        self.record_undo();
        match self.selection {
            Some((start, end)) => {
                self.delete_selection(start, end);
                return;
            },
            None => {},
        }
        if self.cursor_pos == 0 {
            return;
        }
        let chars = str_chars(self.text.as_str());
        let k = char_index_of(chars.as_slice(), self.cursor_pos).unwrap();
        let j = word_left_char_index(&chars, k);
        self.remove_chars(&chars, j, k);
    }

    /// Deletes the selection, or else up to the end of the word after the
    /// cursor, as one undoable edit.
    pub fn delete_word_right(&mut self)
        requires
            old(self).wf(),
            old(self).sel_ok(),
        ensures
            final(self).wf(),
            match old(self).selection {
                Some(s) => {
                    &&& final(self).text@ == remove_range(old(self).text@, s.0 as int, s.1 as int)
                    &&& final(self).cursor_pos == sel_low(s)
                },
                None => {
                    let k = char_index(old(self).text@, old(self).cursor_pos as int);
                    &&& old(self).cursor_pos < byte_len(old(self).text@) ==> final(self).text@
                        == old(self).text@.take(k) + old(self).text@.skip(word_right_target(old(self).text@, k))
                    &&& old(self).cursor_pos >= byte_len(old(self).text@) ==> final(self).text
                        == old(self).text
                    &&& final(self).cursor_pos == old(self).cursor_pos
                },
            },
            final(self).selection is None,
            final(self).clipboard == old(self).clipboard,
            final(self).undo_entries() == pushed_undo(
                old(self).undo_entries(),
                (old(self).text@, old(self).cursor_pos),
            ),
            final(self).redo_entries().len() == 0,
            final(self).same_layout(old(self)),
            final(self).last_width == 0,
    {
        self.record_undo();
        match self.selection {
            Some((start, end)) => {
                self.delete_selection(start, end);
                return;
            },
            None => {},
        }
        let n = str_byte_len(self.text.as_str());
        if self.cursor_pos >= n {
            return;
        }
        let chars = str_chars(self.text.as_str());
        let k = char_index_of(chars.as_slice(), self.cursor_pos).unwrap();
        proof {
            lemma_boundary_facts(self.text@, self.cursor_pos as int);
        }
        let j = word_right_char_index(&chars, k);
        self.remove_chars(&chars, k, j);
    }
}

/// The base64 digit for a value below 64, in the standard alphabet.
pub open spec fn b64_digit(v: int) -> char {
    if v < 26 {
        ('A' as int + v) as char
    } else if v < 52 {
        ('a' as int + (v - 26)) as char
    } else if v < 62 {
        ('0' as int + (v - 52)) as char
    } else if v == 62 {
        '+'
    } else {
        '/'
    }
}

/// Standard base64 (RFC 4648, section 4) of some bytes, padded with `=`.
pub open spec fn base64_of(b: Seq<u8>) -> Seq<char>
    decreases b.len(),
{
    if b.len() == 0 {
        seq![]
    } else if b.len() == 1 {
        seq![b64_digit(b[0] as int / 4), b64_digit((b[0] as int % 4) * 16), '=', '=']
    } else if b.len() == 2 {
        seq![b64_digit(b[0] as int / 4), b64_digit((b[0] as int % 4) * 16 + b[1] as int / 16), b64_digit((b[1] as int % 16) * 4), '=']
    } else {
        seq![
            b64_digit(b[0] as int / 4),
            b64_digit((b[0] as int % 4) * 16 + b[1] as int / 16),
            b64_digit((b[1] as int % 16) * 4 + b[2] as int / 64),
            b64_digit(b[2] as int % 64),
        ] + base64_of(b.skip(3))
    }
}

/// `base64::engine::general_purpose::STANDARD.encode`: the standard
/// alphabet with padding, as the engine's documentation gives it.
#[verifier::external_body]
fn base64_encode(bytes: &[u8]) -> (r: String)
    ensures
        r@ == base64_of(bytes@),
{
    base64::engine::general_purpose::STANDARD.encode(bytes)
}

/// The OSC 52 escape sequence that sets the terminal's clipboard to `t`.
pub open spec fn osc52(t: Seq<u8>) -> Seq<char> {
    seq!['\x1b', ']', '5', '2', ';', 'c', ';'] + base64_of(t) + seq!['\x07']
}

impl InputBoxState {
    /// The OSC 52 escape sequence that sets the system clipboard to
    /// `text` (it works over SSH and inside tmux).
    pub fn copy_to_system_clipboard(&self, text: &str) -> (r: String)
        ensures
            r@ == osc52(vstd::utf8::encode_utf8(text@)),
    {
        let b64 = base64_encode(text.as_bytes());
        let mut out: Vec<char> = vec!['\x1b', ']', '5', '2', ';', 'c', ';'];
        let encoded = str_chars(b64.as_str());
        push_all(&mut out, encoded.as_slice());
        out.push('\x07');
        assert(out@ =~= osc52(vstd::utf8::encode_utf8(text@)));
        string_from_chars(out.as_slice())
    }
}


/// `b` is `a` after typing a line break (over the selection, if any), as
/// one undoable edit.
pub open spec fn newline_typed(a: InputBoxState, b: InputBoxState) -> bool {
    &&& (b.text@, b.cursor_pos as int) == typed(a.text@, a.cursor_pos, a.selection, seq!['\n'])
    &&& b.selection is None
    &&& b.clipboard == a.clipboard
    &&& b.undo_entries() == pushed_undo(a.undo_entries(), (a.text@, a.cursor_pos))
    &&& b.redo_entries().len() == 0
    &&& b.same_layout(&a)
    &&& b.last_width == 0
}

/// `b` is `a` emptied, as one undoable edit; an empty `a` stays as it is.
pub open spec fn emptied(a: InputBoxState, b: InputBoxState) -> bool {
    if a.text@.len() == 0 {
        b == a
    } else {
        &&& b.text@.len() == 0
        &&& b.cursor_pos == 0
        &&& b.selection is None
        &&& b.scroll == 0
        &&& b.clipboard == a.clipboard
        &&& b.undo_entries() == pushed_undo(a.undo_entries(), (a.text@, a.cursor_pos))
        &&& b.redo_entries().len() == 0
        &&& b.mode == a.mode
        &&& b.lines == a.lines
        &&& b.prompt == a.prompt
        &&& b.last_width == 0
    }
}

/// `b` is `a` with everything before the cursor deleted, as one undoable
/// edit.
pub open spec fn deleted_to_start(a: InputBoxState, b: InputBoxState) -> bool {
    &&& b.text@ == a.text@.skip(char_index(a.text@, a.cursor_pos as int))
    &&& b.cursor_pos == 0
    &&& b.selection == a.selection
    &&& b.clipboard == a.clipboard
    &&& b.undo_entries() == pushed_undo(a.undo_entries(), (a.text@, a.cursor_pos))
    &&& b.redo_entries().len() == 0
    &&& b.same_layout(&a)
    &&& b.last_width == 0
}

/// `b` is `a` with the selection deleted, or else back to the start of the
/// word before the cursor, as one undoable edit.
pub open spec fn word_deleted_left(a: InputBoxState, b: InputBoxState) -> bool {
    &&& match a.selection {
        Some(s) => {
            &&& b.text@ == remove_range(a.text@, s.0 as int, s.1 as int)
            &&& b.cursor_pos == sel_low(s)
        },
        None => {
            let k = char_index(a.text@, a.cursor_pos as int);
            if a.cursor_pos > 0 {
                (b.text@, b.cursor_pos as int) == cut_chars(a.text@, word_left_target(a.text@, k), k)
            } else {
                b.text == a.text && b.cursor_pos == a.cursor_pos
            }
        },
    }
    &&& b.selection is None
    &&& b.clipboard == a.clipboard
    &&& b.undo_entries() == pushed_undo(a.undo_entries(), (a.text@, a.cursor_pos))
    &&& b.redo_entries().len() == 0
    &&& b.same_layout(&a)
    &&& b.last_width == 0
}


/// `b` is `a` after typing `s` (line breaks made plain) over the
/// selection or at the cursor, as one undoable edit; an empty `s` changes
/// nothing.
pub open spec fn str_inserted(a: InputBoxState, b: InputBoxState, s: Seq<char>) -> bool {
    if s.len() == 0 {
        b == a
    } else {
        &&& (b.text@, b.cursor_pos as int) == typed(a.text@, a.cursor_pos, a.selection, normalize_newlines(s))
        &&& b.selection is None
        &&& b.clipboard == a.clipboard
        &&& b.undo_entries() == pushed_undo(a.undo_entries(), (a.text@, a.cursor_pos))
        &&& b.redo_entries().len() == 0
        &&& b.same_layout(&a)
        &&& b.last_width == 0
    }
}

} // verus!
