//! The message list: wrapping message text to the available width, the
//! line heights a chat layout keeps, and the list's selection and
//! scrolling.
use crate::input_box::{
    all_whitespace, cluster_offset, is_all_whitespace, lemma_cluster_offset, lemma_flatten_take_step,
};
use crate::text::{char_is_whitespace, is_whitespace_char, push_all, str_chars, string_from_chars};
use crate::unicode::{display_width, grapheme_clusters, graphemes, str_width, strings_chars};
use std::collections::HashMap;
use vstd::prelude::*;
use vstd::std_specs::iter::IteratorSpec;

verus! {

broadcast use vstd::std_specs::vec::group_vec_axioms, vstd::std_specs::hash::group_hash_axioms;

/// A line of wrapped message text; a soft wrap is a break the wrapping
/// made, not a newline of the text.
#[derive(Debug, Clone, PartialEq, Eq)]
pub struct WrappedLine {
    pub text: String,
    pub is_soft_wrap: bool,
}

pub open spec fn wrapped_view(v: Seq<WrappedLine>) -> Seq<(Seq<char>, bool)> {
    v.map_values(|l: WrappedLine| (l.text@, l.is_soft_wrap))
}

/// `s` without its trailing whitespace.
pub open spec fn trim_end(s: Seq<char>) -> Seq<char>
    decreases s.len(),
{
    if s.len() > 0 && is_whitespace_char(s.last()) {
        trim_end(s.drop_last())
    } else {
        s
    }
}

/// The pieces of `s` between newlines (one empty piece for the empty
/// text).
pub open spec fn split_nl(s: Seq<char>) -> Seq<Seq<char>>
    decreases s.len(),
{
    if s.len() == 0 {
        seq![Seq::<char>::empty()]
    } else {
        let rest = split_nl(s.drop_last());
        if s.last() == '\n' {
            rest.push(Seq::<char>::empty())
        } else {
            rest.update(rest.len() - 1, rest.last().push(s.last()))
        }
    }
}

/// Total display width of clusters `a` up to `b`.
pub open spec fn widths_sum(gs: Seq<Seq<char>>, a: int, b: int) -> int
    decreases b - a,
{
    if b <= a {
        0
    } else {
        widths_sum(gs, a, b - 1) + str_width(gs[b - 1])
    }
}

/// Where the word starting at cluster `i` ends, scanning from `j`: at
/// whitespace, or before a wide cluster; a wide cluster is a word of its
/// own.
pub open spec fn word_end_from(gs: Seq<Seq<char>>, i: int, j: int) -> int
    decreases gs.len() - j,
{
    if j >= gs.len() || all_whitespace(gs[j]) {
        j
    } else if str_width(gs[j]) > 1 {
        if j > i {
            j
        } else {
            j + 1
        }
    } else {
        word_end_from(gs, i, j + 1)
    }
}

/// Wrapping in progress: the lines so far, the line being filled and its
/// width.
pub struct WrapState {
    pub lines: Seq<(Seq<char>, bool)>,
    pub cur: Seq<char>,
    pub cw: int,
}

/// Breaking a word that is wider than the line: the first `n` of its
/// clusters `cs`, each going to a new line when it would pass `width`.
pub open spec fn split_chunks(st: WrapState, cs: Seq<Seq<char>>, n: nat, width: int) -> WrapState
    decreases n,
{
    if n == 0 {
        st
    } else {
        let s = split_chunks(st, cs, (n - 1) as nat, width);
        let g = cs[n - 1];
        if s.cw + str_width(g) > width {
            WrapState { lines: s.lines.push((s.cur, true)), cur: g, cw: str_width(g) as int }
        } else {
            WrapState { lines: s.lines, cur: s.cur + g, cw: s.cw + str_width(g) }
        }
    }
}

/// Wrapping the clusters of a paragraph from `i` on.  Whitespace stays on
/// the current line; a word that does not fit starts a new line (the line
/// left behind loses its trailing whitespace), and a word wider than the
/// whole line is broken between clusters.
pub open spec fn para_from(gs: Seq<Seq<char>>, i: int, st: WrapState, width: int) -> WrapState
    decreases gs.len() - i,
{
    if i < 0 || i >= gs.len() {
        st
    } else if all_whitespace(gs[i]) {
        para_from(gs, i + 1, WrapState { lines: st.lines, cur: st.cur + gs[i], cw: st.cw + str_width(gs[i]) }, width)
    } else {
        let e = word_end_from(gs, i, i);
        if e <= i || e > gs.len() {
            st
        } else {
            let word = gs.subrange(i, e).flatten();
            let ww = widths_sum(gs, i, e);
            let next = if st.cw + ww > width {
                let st1 = if st.cur.len() > 0 {
                    WrapState { lines: st.lines.push((trim_end(st.cur), true)), cur: seq![], cw: 0 }
                } else {
                    st
                };
                if ww > width {
                    let cs = grapheme_clusters(word);
                    split_chunks(st1, cs, cs.len(), width)
                } else {
                    WrapState { lines: st1.lines, cur: word, cw: ww }
                }
            } else {
                WrapState { lines: st.lines, cur: st.cur + word, cw: st.cw + ww }
            };
            para_from(gs, e, next, width)
        }
    }
}

/// The lines after wrapping paragraph `p` behind the lines `prev`: an
/// empty paragraph is an empty line; otherwise its last line goes out
/// unless it is empty and lines were already made.
pub open spec fn para_lines(prev: Seq<(Seq<char>, bool)>, p: Seq<char>, width: int) -> Seq<(Seq<char>, bool)> {
    if p.len() == 0 {
        prev.push((Seq::<char>::empty(), false))
    } else {
        let st = para_from(grapheme_clusters(p), 0, WrapState { lines: prev, cur: seq![], cw: 0 }, width);
        if st.cur.len() > 0 || st.lines.len() == 0 {
            st.lines.push((trim_end(st.cur), false))
        } else {
            st.lines
        }
    }
}

pub open spec fn wrap_paras(ps: Seq<Seq<char>>, n: nat, width: int) -> Seq<(Seq<char>, bool)>
    decreases n,
{
    if n == 0 {
        seq![]
    } else {
        para_lines(wrap_paras(ps, (n - 1) as nat, width), ps[n - 1], width)
    }
}

/// `text` wrapped to `width` columns, paragraph by paragraph; a zero
/// width leaves it whole.
pub open spec fn wrap_spec(text: Seq<char>, width: int) -> Seq<(Seq<char>, bool)> {
    if width == 0 {
        seq![(text, false)]
    } else {
        wrap_paras(split_nl(text), split_nl(text).len(), width)
    }
}

/// `s` without its trailing whitespace.
pub(crate) fn trim_end_chars(s: &[char]) -> (r: Vec<char>)
    ensures
        r@ == trim_end(s@),
{
    let mut n: usize = s.len();
    assert(s@.take(n as int) =~= s@);
    while n > 0 && char_is_whitespace(s[n - 1])
        invariant
            n <= s@.len(),
            trim_end(s@) == trim_end(s@.take(n as int)),
        decreases n,
    {
        assert(s@.take(n as int).drop_last() =~= s@.take(n as int - 1));
        n = n - 1;
    }
    let r = crate::text::chars_range(s, 0, n);
    assert(r@ =~= s@.take(n as int));
    r
}

pub open spec fn pieces_view(v: Seq<Vec<char>>) -> Seq<Seq<char>> {
    v.map_values(|p: Vec<char>| p@)
}

/// The pieces of `s` between newlines.
pub(crate) fn split_newlines(s: &[char]) -> (r: Vec<Vec<char>>)
    ensures
        pieces_view(r@) == split_nl(s@),
{
    let mut done: Vec<Vec<char>> = Vec::new();
    let mut cur: Vec<char> = Vec::new();
    let mut i: usize = 0;
    assert(s@.take(0) =~= Seq::<char>::empty());
    assert(pieces_view(done@).push(cur@) =~= seq![Seq::<char>::empty()]);
    while i < s.len()
        invariant
            i <= s@.len(),
            split_nl(s@.take(i as int)) == pieces_view(done@).push(cur@),
        decreases s@.len() - i,
    {
        let ghost before = pieces_view(done@);
        assert(s@.take(i as int + 1).drop_last() =~= s@.take(i as int));
        if s[i] == '\n' {
            done.push(cur);
            cur = Vec::new();
            assert(pieces_view(done@) =~= before.push(split_nl(s@.take(i as int)).last()));
            assert(pieces_view(done@).push(cur@) =~= split_nl(s@.take(i as int)).push(Seq::<char>::empty()));
        } else {
            cur.push(s[i]);
            assert(pieces_view(done@).push(cur@) =~= split_nl(s@.take(i as int)).update(
                split_nl(s@.take(i as int)).len() - 1,
                split_nl(s@.take(i as int)).last().push(s@[i as int]),
            ));
        }
        i = i + 1;
    }
    let ghost before = pieces_view(done@);
    done.push(cur);
    assert(pieces_view(done@) =~= before.push(cur@));
    assert(s@.take(s@.len() as int) =~= s@);
    done
}

/// The characters of the clusters from `i` to `e` are the text between
/// their offsets.
proof fn lemma_word_chars(gs: Seq<Seq<char>>, i: int, e: int)
    requires
        0 <= i <= e <= gs.len(),
    ensures
        gs.subrange(i, e).flatten().len() == cluster_offset(gs, e) - cluster_offset(gs, i),
        cluster_offset(gs, i) <= cluster_offset(gs, e) <= gs.flatten().len(),
{
    vstd::seq_lib::lemma_flatten_concat(gs.take(i), gs.subrange(i, e));
    assert(gs.take(e) =~= gs.take(i) + gs.subrange(i, e));
    lemma_cluster_offset(gs, e);
}

/// The end, width and characters of the word that starts at cluster `i`.
fn word_extent(gs: &Vec<String>, i: usize) -> (r: (usize, usize, Vec<char>))
    requires
        i < gs@.len(),
        !all_whitespace(strings_chars(gs@)[i as int]),
        3 * strings_chars(gs@).flatten().len() <= usize::MAX,
    ensures
        r.0 == word_end_from(strings_chars(gs@), i as int, i as int),
        i < r.0 <= gs@.len(),
        r.1 == widths_sum(strings_chars(gs@), i as int, r.0 as int),
        r.1 <= 3 * (cluster_offset(strings_chars(gs@), r.0 as int) - cluster_offset(strings_chars(gs@), i as int)),
        r.2@ == strings_chars(gs@).subrange(i as int, r.0 as int).flatten(),
{
    let ghost cv = strings_chars(gs@);
    let n = gs.len();
    let first = gs[i].as_str();
    assert(cv[i as int] == first@);
    let w0 = display_width(first);
    let word0 = str_chars(first);
    proof {
        lemma_flatten_take_step(cv, i as int);
        lemma_word_chars(cv, i as int, i as int + 1);
        assert(cv.subrange(i as int, i as int + 1) =~= seq![cv[i as int]]);
        cv.subrange(i as int, i as int + 1).lemma_flatten_one_element();
        assert(widths_sum(cv, i as int, i as int) == 0);
    }
    if w0 > 1 {
        return (i + 1, w0, word0);
    }
    let mut j: usize = i + 1;
    let mut ww: usize = w0;
    let mut word = word0;
    while j < gs.len()
        invariant_except_break
            i < j <= gs@.len(),
            cv == strings_chars(gs@),
            3 * cv.flatten().len() <= usize::MAX,
            word_end_from(cv, i as int, i as int) == word_end_from(cv, i as int, j as int),
            ww == widths_sum(cv, i as int, j as int),
            ww <= 3 * (cluster_offset(cv, j as int) - cluster_offset(cv, i as int)),
            word@ == cv.subrange(i as int, j as int).flatten(),
        ensures
            i < j <= gs@.len(),
            word_end_from(cv, i as int, i as int) == j,
            ww == widths_sum(cv, i as int, j as int),
            ww <= 3 * (cluster_offset(cv, j as int) - cluster_offset(cv, i as int)),
            word@ == cv.subrange(i as int, j as int).flatten(),
        decreases gs@.len() - j,
    {
        let g = gs[j].as_str();
        assert(cv[j as int] == g@);
        let gc = str_chars(g);
        if is_all_whitespace(&gc) {
            break;
        }
        let w = display_width(g);
        if w > 1 {
            break;
        }
        proof {
            lemma_flatten_take_step(cv, j as int);
            lemma_word_chars(cv, j as int + 1, gs@.len() as int);
            assert(cv.subrange(i as int, j as int + 1) =~= cv.subrange(i as int, j as int).push(cv[j as int]));
            cv.subrange(i as int, j as int).lemma_flatten_push(cv[j as int]);
        }
        ww = ww + w;
        push_all(&mut word, gc.as_slice());
        j = j + 1;
    }
    (j, ww, word)
}

/// Breaks a word wider than the line between its clusters.
fn split_word(
    lines: &mut Vec<WrappedLine>,
    cur: &mut Vec<char>,
    cw: &mut usize,
    word: &Vec<char>,
    width: usize,
    bound: Ghost<int>,
)
    requires
        *old(cw) <= bound@,
        bound@ + 3 * word@.len() <= usize::MAX,
    ensures
        split_chunks(
            WrapState { lines: wrapped_view(old(lines)@), cur: old(cur)@, cw: *old(cw) as int },
            grapheme_clusters(word@),
            grapheme_clusters(word@).len(),
            width as int,
        ) == (WrapState { lines: wrapped_view(final(lines)@), cur: final(cur)@, cw: *final(cw) as int }),
        *final(cw) <= bound@ + 3 * word@.len(),
{
    let ws = string_from_chars(word.as_slice());
    let cs = graphemes(ws.as_str());
    let ghost cv = strings_chars(cs@);
    let ghost st1 = WrapState { lines: wrapped_view(lines@), cur: cur@, cw: *cw as int };
    let mut j: usize = 0;
    proof {
        lemma_cluster_offset(cv, 0);
        assert(cv.take(0) =~= Seq::<Seq<char>>::empty());
        assert(cv.take(0).flatten() =~= Seq::<char>::empty());
    }
    while j < cs.len()
        invariant
            j <= cs@.len(),
            cv == strings_chars(cs@),
            cv == grapheme_clusters(word@),
            cv.flatten() == word@,
            bound@ + 3 * word@.len() <= usize::MAX,
            *cw <= bound@ + 3 * cluster_offset(cv, j as int),
            split_chunks(st1, cv, j as nat, width as int) == (WrapState {
                lines: wrapped_view(lines@),
                cur: cur@,
                cw: *cw as int,
            }),
        decreases cs@.len() - j,
    {
        let g = cs[j].as_str();
        assert(cv[j as int] == g@);
        let gw = display_width(g);
        proof {
            lemma_flatten_take_step(cv, j as int);
            lemma_cluster_offset(cv, j as int + 1);
        }
        let ghost before = wrapped_view(lines@);
        if gw > width || *cw > width - gw {
            let done = WrappedLine { text: string_from_chars(cur.as_slice()), is_soft_wrap: true };
            lines.push(done);
            assert(wrapped_view(lines@) =~= before.push((done.text@, true)));
            *cur = Vec::new();
            *cw = 0;
        }
        let gc = str_chars(g);
        push_all(cur, gc.as_slice());
        *cw = *cw + gw;
        j = j + 1;
    }
}

/// Wraps one nonempty paragraph behind the lines already made.
fn wrap_paragraph(lines: &mut Vec<WrappedLine>, p: &[char], width: usize)
    requires
        width > 0,
        p@.len() > 0,
        3 * p@.len() <= usize::MAX,
    ensures
        wrapped_view(final(lines)@) == para_lines(wrapped_view(old(lines)@), p@, width as int),
{
    let ps = string_from_chars(p);
    let gs = graphemes(ps.as_str());
    let ghost cv = strings_chars(gs@);
    let ghost st0 = WrapState { lines: wrapped_view(lines@), cur: seq![], cw: 0 };
    let mut cur: Vec<char> = Vec::new();
    let mut cw: usize = 0;
    let mut i: usize = 0;
    proof {
        lemma_cluster_offset(cv, 0);
        assert(cv.take(0) =~= Seq::<Seq<char>>::empty());
        assert(cv.take(0).flatten() =~= Seq::<char>::empty());
        assert(cur@ =~= Seq::<char>::empty());
    }
    while i < gs.len()
        invariant
            i <= gs@.len(),
            cv == strings_chars(gs@),
            cv == grapheme_clusters(p@),
            cv.flatten() == p@,
            3 * p@.len() <= usize::MAX,
            cw <= 3 * cluster_offset(cv, i as int),
            para_from(cv, 0, st0, width as int) == para_from(
                cv,
                i as int,
                WrapState { lines: wrapped_view(lines@), cur: cur@, cw: cw as int },
                width as int,
            ),
        decreases gs@.len() - i,
    {
        let g = gs[i].as_str();
        assert(cv[i as int] == g@);
        let gc = str_chars(g);
        proof {
            lemma_flatten_take_step(cv, i as int);
            lemma_cluster_offset(cv, i as int + 1);
        }
        if is_all_whitespace(&gc) {
            let w = display_width(g);
            push_all(&mut cur, gc.as_slice());
            cw = cw + w;
            i = i + 1;
        } else {
            let (e, ww, word) = word_extent(&gs, i);
            proof {
                lemma_word_chars(cv, i as int, e as int);
            }
            if cw + ww > width {
                if cur.len() > 0 {
                    let ghost before = wrapped_view(lines@);
                    let trimmed = trim_end_chars(cur.as_slice());
                    let done = WrappedLine { text: string_from_chars(trimmed.as_slice()), is_soft_wrap: true };
                    lines.push(done);
                    assert(wrapped_view(lines@) =~= before.push((trim_end(cur@), true)));
                    cur = Vec::new();
                    cw = 0;
                }
                if ww > width {
                    split_word(&mut *lines, &mut cur, &mut cw, &word, width, Ghost(3 * cluster_offset(cv, i as int)));
                } else {
                    cur = word;
                    cw = ww;
                }
            } else {
                push_all(&mut cur, word.as_slice());
                cw = cw + ww;
            }
            i = e;
        }
    }
    if cur.len() > 0 || lines.len() == 0 {
        let ghost before = wrapped_view(lines@);
        let trimmed = trim_end_chars(cur.as_slice());
        let done = WrappedLine { text: string_from_chars(trimmed.as_slice()), is_soft_wrap: false };
        lines.push(done);
        assert(wrapped_view(lines@) =~= before.push((trim_end(cur@), false)));
    }
}

/// Wraps `text` to `width` columns: paragraph by paragraph, breaking
/// between words where it can and inside a word only when the word is
/// wider than a line.  A zero width leaves the text on one line.
pub fn wrap_text(text: &str, width: usize) -> (r: Vec<WrappedLine>)
    requires
        3 * text@.len() <= usize::MAX,
    ensures
        wrapped_view(r@) == wrap_spec(text@, width as int),
{
    if width == 0 {
        let r = vec![WrappedLine { text: text.to_owned(), is_soft_wrap: false }];
        assert(wrapped_view(r@) =~= seq![(text@, false)]);
        return r;
    }
    let chars = str_chars(text);
    let paras = split_newlines(chars.as_slice());
    let ghost ps = split_nl(text@);
    let mut lines: Vec<WrappedLine> = Vec::new();
    let mut k: usize = 0;
    assert(wrapped_view(lines@) =~= Seq::<(Seq<char>, bool)>::empty());
    while k < paras.len()
        invariant
            k <= paras@.len(),
            width > 0,
            ps == pieces_view(paras@),
            ps == split_nl(text@),
            3 * text@.len() <= usize::MAX,
            wrapped_view(lines@) == wrap_paras(ps, k as nat, width as int),
        decreases paras@.len() - k,
    {
        let p = &paras[k];
        assert(ps[k as int] == p@);
        proof {
            lemma_split_nl_len(text@, k as int);
        }
        if p.len() == 0 {
            let ghost before = wrapped_view(lines@);
            let empty = WrappedLine { text: String::new(), is_soft_wrap: false };
            lines.push(empty);
            assert(wrapped_view(lines@) =~= before.push((Seq::<char>::empty(), false)));
        } else {
            wrap_paragraph(&mut lines, p.as_slice(), width);
        }
        k = k + 1;
    }
    lines
}

/// No piece between newlines is longer than the text.
proof fn lemma_split_nl_len(s: Seq<char>, k: int)
    ensures
        0 <= k < split_nl(s).len() ==> split_nl(s)[k].len() <= s.len(),
    decreases s.len(),
{
    if s.len() > 0 {
        lemma_split_nl_len(s.drop_last(), k);
        let rest = split_nl(s.drop_last());
        lemma_split_nl_nonempty(s.drop_last());
        if s.last() != '\n' && k == rest.len() - 1 {
            lemma_split_nl_len(s.drop_last(), rest.len() - 1);
        }
    }
}

pub(crate) proof fn lemma_split_nl_nonempty(s: Seq<char>)
    ensures
        split_nl(s).len() > 0,
    decreases s.len(),
{
    if s.len() > 0 {
        lemma_split_nl_nonempty(s.drop_last());
    }
}

/// The delivery state of a message.
#[derive(Debug, Clone, Copy, PartialEq, Eq, Structural)]
pub enum MessageStatus {
    Sending,
    Delivered,
    Read,
    Failed,
    System,
}

/// What a message holds, as far as laying out the list is concerned.  A
/// file transfer and a game invite are drawn as cards of fixed height.
#[derive(Debug, Clone)]
pub enum MessageContent {
    Text(String),
    FileTransfer { name: String, size: u64, speed: String, is_incoming: bool, paused: bool, eta: String },
    GameInvite { game_type: String, challenger: String },
    System(String),
}

#[derive(Debug, Clone)]
pub struct ChatMessage {
    pub sender: String,
    pub timestamp: String,
    pub unix_timestamp: u64,
    pub content: MessageContent,
    pub status: MessageStatus,
    pub is_me: bool,
    pub highlighted: bool,
}

/// Scrolling and selection of the message list.
#[derive(Debug, Clone)]
pub struct MessageListState {
    /// Scroll offset in lines from the bottom
    pub scroll: usize,
    /// Currently selected message index
    pub selected_index: Option<usize>,
    /// Number of messages that were rendered in the last frame
    pub last_rendered_count: usize,
    /// Total height of all messages in lines
    pub total_height: usize,
    /// If true, the next render will adjust scroll to make selected_index visible
    pub ensure_selected_visible: bool,
}

/// Two list states are equal when they show the same thing: the pending
/// request to bring the selection into view does not count.
impl PartialEq for MessageListState {
    fn eq(&self, other: &Self) -> (r: bool) {
        self.scroll == other.scroll && self.selected_index == other.selected_index && self.last_rendered_count
            == other.last_rendered_count && self.total_height == other.total_height
    }
}

impl vstd::std_specs::cmp::PartialEqSpecImpl for MessageListState {
    open spec fn obeys_eq_spec() -> bool {
        true
    }

    open spec fn eq_spec(&self, other: &Self) -> bool {
        self.scroll == other.scroll && self.selected_index == other.selected_index && self.last_rendered_count
            == other.last_rendered_count && self.total_height == other.total_height
    }
}

impl Default for MessageListState {
    fn default() -> (s: Self)
        ensures
            s.scroll == 0,
            s.selected_index is None,
            s.last_rendered_count == 0,
            s.total_height == 0,
            !s.ensure_selected_visible,
    {
        MessageListState {
            scroll: 0,
            selected_index: None,
            last_rendered_count: 0,
            total_height: 0,
            ensure_selected_visible: false,
        }
    }
}

/// The sum of `s`.
pub open spec fn seq_sum(s: Seq<usize>) -> int
    decreases s.len(),
{
    if s.len() == 0 {
        0
    } else {
        s[0] + seq_sum(s.drop_first())
    }
}

/// The lines below message `i` of a list whose messages are `heights`
/// lines high, the newest at the bottom.
pub open spec fn lines_below(heights: Seq<usize>, i: int) -> int {
    seq_sum(heights.skip(i + 1))
}

/// The scroll that brings message `i` (at `offset` lines from the bottom,
/// `h` lines high) into a view `view` lines high scrolled by `scroll`:
/// unchanged when it is in view, otherwise the least change that shows it
/// (its bottom first).
pub open spec fn scroll_to_show(scroll: int, offset: int, h: int, view: int) -> int {
    if offset < scroll {
        offset
    } else if offset + h > scroll + view {
        if offset + h >= view {
            offset + h - view
        } else {
            0
        }
    } else {
        scroll
    }
}

proof fn lemma_seq_sum_skip(s: Seq<usize>, i: int)
    requires
        0 <= i < s.len(),
    ensures
        seq_sum(s.skip(i)) == s[i] + seq_sum(s.skip(i + 1)),
        seq_sum(s.skip(i + 1)) <= seq_sum(s.skip(i)),
{
    assert(s.skip(i).drop_first() =~= s.skip(i + 1));
}

proof fn lemma_seq_sum_skip_le(s: Seq<usize>, i: int)
    requires
        0 <= i <= s.len(),
    ensures
        0 <= seq_sum(s.skip(i)) <= seq_sum(s),
    decreases i,
{
    if i == 0 {
        assert(s.skip(0) =~= s);
        lemma_seq_sum_nonneg(s);
    } else {
        lemma_seq_sum_skip(s, i - 1);
        lemma_seq_sum_skip_le(s, i - 1);
        lemma_seq_sum_nonneg(s.skip(i));
    }
}

proof fn lemma_seq_sum_nonneg(s: Seq<usize>)
    ensures
        seq_sum(s) >= 0,
    decreases s.len(),
{
    if s.len() > 0 {
        lemma_seq_sum_nonneg(s.drop_first());
    }
}

impl MessageListState {
    /// A list scrolled to the bottom with nothing selected.
    pub fn new() -> (s: Self)
        ensures
            s.scroll == 0,
            s.selected_index is None,
            s.last_rendered_count == 0,
            s.total_height == 0,
            !s.ensure_selected_visible,
    {
        MessageListState {
            scroll: 0,
            selected_index: None,
            last_rendered_count: 0,
            total_height: 0,
            ensure_selected_visible: false,
        }
    }

    /// When asked to, scrolls so that the selected message shows in a view
    /// `view_height` lines high, the messages being `heights` lines high
    /// (oldest first, the newest at the bottom); then the request is done.
    pub fn bring_selected_into_view(&mut self, heights: &[usize], view_height: usize)
        requires
            seq_sum(heights@) <= usize::MAX,
        ensures
            !final(self).ensure_selected_visible,
            final(self).selected_index == old(self).selected_index,
            final(self).last_rendered_count == old(self).last_rendered_count,
            final(self).total_height == old(self).total_height,
            final(self).scroll == match old(self).selected_index {
                Some(i) => if old(self).ensure_selected_visible && i < heights@.len() {
                    scroll_to_show(
                        old(self).scroll as int,
                        lines_below(heights@, i as int),
                        heights@[i as int] as int,
                        view_height as int,
                    ) as usize
                } else {
                    old(self).scroll
                },
                None => old(self).scroll,
            },
    {
        if !self.ensure_selected_visible {
            return;
        }
        match self.selected_index {
            Some(sel) => {
                if sel < heights.len() {
                    let mut offset: usize = 0;
                    let mut i: usize = heights.len();
                    proof {
                        assert(heights@.skip(i as int) =~= Seq::<usize>::empty());
                    }
                    while i > sel + 1
                        invariant
                            sel + 1 <= i <= heights@.len(),
                            offset == seq_sum(heights@.skip(i as int)),
                            seq_sum(heights@) <= usize::MAX,
                        decreases i,
                    {
                        proof {
                            lemma_seq_sum_skip(heights@, i - 1);
                            lemma_seq_sum_skip_le(heights@, i - 1);
                        }
                        offset = offset + heights[i - 1];
                        i = i - 1;
                    }
                    proof {
                        lemma_seq_sum_skip(heights@, sel as int);
                        lemma_seq_sum_skip_le(heights@, sel as int);
                    }
                    let bottom = offset + heights[sel];
                    if offset < self.scroll {
                        self.scroll = offset;
                    } else if bottom > view_height && bottom - view_height > self.scroll {
                        self.scroll = bottom - view_height;
                    }
                }
            },
            None => {},
        }
        self.ensure_selected_visible = false;
    }

    /// Selects a message (or none) and asks for it to be brought into view.
    pub fn select(&mut self, index: Option<usize>)
        ensures
            final(self).selected_index == index,
            final(self).ensure_selected_visible,
            final(self).scroll == old(self).scroll,
            final(self).last_rendered_count == old(self).last_rendered_count,
            final(self).total_height == old(self).total_height,
    {
        self.selected_index = index;
        self.ensure_selected_visible = true;
    }

    /// Selects the next of `count` messages, stopping at the last; with no
    /// selection, the last.  With no messages the selection is dropped.
    pub fn select_next(&mut self, count: usize)
        ensures
            count == 0 ==> final(self).selected_index is None && final(self).ensure_selected_visible
                == old(self).ensure_selected_visible,
            count > 0 ==> final(self).selected_index == Some(
                match old(self).selected_index {
                    Some(i) => if i + 1 < count - 1 {
                        (i + 1) as usize
                    } else {
                        (count - 1) as usize
                    },
                    None => (count - 1) as usize,
                },
            ) && final(self).ensure_selected_visible,
            final(self).scroll == old(self).scroll,
            final(self).last_rendered_count == old(self).last_rendered_count,
            final(self).total_height == old(self).total_height,
    {
        if count == 0 {
            self.selected_index = None;
            return;
        }
        let last = count - 1;
        self.selected_index = Some(
            match self.selected_index {
                Some(i) => if i < last && i + 1 < last {
                    i + 1
                } else {
                    last
                },
                None => last,
            },
        );
        self.ensure_selected_visible = true;
    }

    /// Selects the previous message, stopping at the first; nothing happens
    /// to an empty selection.
    pub fn select_previous(&mut self)
        ensures
            final(self).selected_index == match old(self).selected_index {
                Some(i) => Some(if i > 0 {
                    (i - 1) as usize
                } else {
                    0usize
                }),
                None => None,
            },
            final(self).ensure_selected_visible,
            final(self).scroll == old(self).scroll,
            final(self).last_rendered_count == old(self).last_rendered_count,
            final(self).total_height == old(self).total_height,
    {
        self.selected_index = match self.selected_index {
            Some(i) => Some(i.saturating_sub(1)),
            None => None,
        };
        self.ensure_selected_visible = true;
    }

    /// Selects the first message sent at or after `timestamp`, if any.
    pub fn jump_to_timestamp(&mut self, timestamp: u64, messages: &[ChatMessage])
        ensures
            match first_at_or_after(messages@, timestamp) {
                Some(i) => final(self).selected_index == Some(i as usize) && final(self).ensure_selected_visible,
                None => final(self).selected_index == old(self).selected_index
                    && final(self).ensure_selected_visible == old(self).ensure_selected_visible,
            },
            final(self).scroll == old(self).scroll,
            final(self).last_rendered_count == old(self).last_rendered_count,
            final(self).total_height == old(self).total_height,
    {
        let mut i: usize = 0;
        while i < messages.len()
            invariant
                i <= messages@.len(),
                *self == *old(self),
                first_at_or_after(messages@, timestamp) == first_at_or_after_from(messages@, i as int, timestamp),
            decreases messages@.len() - i,
        {
            if messages[i].unix_timestamp >= timestamp {
                self.selected_index = Some(i);
                self.ensure_selected_visible = true;
                return;
            }
            i = i + 1;
        }
    }

    /// Scrolls one line further from the bottom.
    pub fn scroll_up(&mut self)
        ensures
            final(self).scroll == (if old(self).scroll < usize::MAX {
                old(self).scroll + 1
            } else {
                usize::MAX as int
            }),
            final(self).selected_index == old(self).selected_index,
            final(self).ensure_selected_visible == old(self).ensure_selected_visible,
            final(self).last_rendered_count == old(self).last_rendered_count,
            final(self).total_height == old(self).total_height,
    {
        self.scroll = self.scroll.saturating_add(1);
    }

    /// Scrolls one line towards the bottom.
    pub fn scroll_down(&mut self)
        ensures
            final(self).scroll == (if old(self).scroll > 0 {
                old(self).scroll - 1
            } else {
                0
            }),
            final(self).selected_index == old(self).selected_index,
            final(self).ensure_selected_visible == old(self).ensure_selected_visible,
            final(self).last_rendered_count == old(self).last_rendered_count,
            final(self).total_height == old(self).total_height,
    {
        self.scroll = self.scroll.saturating_sub(1);
    }

    /// Scrolls back to the newest message.
    pub fn scroll_to_bottom(&mut self)
        ensures
            final(self).scroll == 0,
            final(self).selected_index == old(self).selected_index,
            final(self).ensure_selected_visible == old(self).ensure_selected_visible,
            final(self).last_rendered_count == old(self).last_rendered_count,
            final(self).total_height == old(self).total_height,
    {
        self.scroll = 0;
    }
}

/// The first message, from index `i` on, sent at or after `t`.
pub open spec fn first_at_or_after_from(ms: Seq<ChatMessage>, i: int, t: u64) -> Option<int>
    decreases ms.len() - i,
{
    if i < 0 || i >= ms.len() {
        None
    } else if ms[i].unix_timestamp >= t {
        Some(i)
    } else {
        first_at_or_after_from(ms, i + 1, t)
    }
}

pub open spec fn first_at_or_after(ms: Seq<ChatMessage>, t: u64) -> Option<int> {
    first_at_or_after_from(ms, 0, t)
}

/// The wrapped lines of a layout width, per message index, and how often
/// and when that width was last used.
#[derive(Debug, Clone)]
pub struct LayoutCacheEntry {
    pub lines: HashMap<usize, Vec<WrappedLine>>,
    pub usage_count: usize,
    pub last_use: u64,
}

impl Default for LayoutCacheEntry {
    fn default() -> (e: Self)
        ensures
            e.lines@ == Map::<usize, Vec<WrappedLine>>::empty(),
            e.usage_count == 0,
            e.last_use == 0,
    {
        LayoutCacheEntry { lines: HashMap::new(), usage_count: 0, last_use: 0 }
    }
}

/// Heights of the messages, with the wrapped text kept per wrap width.
#[derive(Debug, Clone)]
pub struct ChatLayout {
    /// Keyed by wrap width.
    pub cache: HashMap<u16, LayoutCacheEntry>,
    pub total_height: usize,
    pub last_width: u16,
    pub max_sender_width: u16,
    pub processed_count: usize,
    pub tick: u64,
}

/// Most wrap widths the cache keeps.
pub const LAYOUT_CACHE_LIMIT: usize = 10;

/// The columns of the time stamp, the status mark and the separator
/// beside a message in wide mode.
pub const GUTTER_FIXED_WIDTH: u16 = 13;

/// Messages by the same sender closer than this many seconds are grouped
/// under one header.
pub const GROUPING_SECONDS: u64 = 120;

/// Wrapped lines per message index, as values.
pub open spec fn lines_map_view(m: Map<usize, Vec<WrappedLine>>) -> Map<usize, Seq<(Seq<char>, bool)>> {
    m.map_values(|v: Vec<WrappedLine>| wrapped_view(v@))
}

/// The text of a message that is laid out as text.
pub open spec fn msg_text(m: ChatMessage) -> Option<Seq<char>> {
    match m.content {
        MessageContent::Text(t) => Some(t@),
        MessageContent::System(t) => Some(t@),
        _ => None,
    }
}

/// The widest sender name among messages `a` to `b`, if any.
pub open spec fn widest_sender(ms: Seq<ChatMessage>, a: int, b: int) -> Option<nat>
    decreases b - a,
{
    if b <= a {
        None
    } else {
        let w = str_width(ms[b - 1].sender@);
        match widest_sender(ms, a, b - 1) {
            Some(x) => Some(if x >= w {
                x
            } else {
                w
            }),
            None => Some(w),
        }
    }
}

pub open spec fn clamp_sender(w: int) -> u16 {
    if w < 5 {
        5
    } else if w > 12 {
        12
    } else {
        w as u16
    }
}

/// The width text is wrapped to in a list `width` columns wide with a
/// sender column `sender_w` wide (in wide mode the gutter takes its part,
/// and one column is left free).
pub open spec fn wrap_width_for(width: u16, sender_w: u16) -> u16 {
    let content = if width > 50 {
        if width >= GUTTER_FIXED_WIDTH + sender_w {
            (width - GUTTER_FIXED_WIDTH - sender_w) as u16
        } else {
            0u16
        }
    } else {
        width
    };
    if content >= 1 {
        (content - 1) as u16
    } else {
        0u16
    }
}

/// Message `i` is grouped under the header of the one before it.
pub open spec fn is_grouped(ms: Seq<ChatMessage>, i: int) -> bool {
    i > 0 && ms[i - 1].sender@ == ms[i].sender@ && ms[i].unix_timestamp - ms[i - 1].unix_timestamp
        < GROUPING_SECONDS
}

/// Lines message `i` takes: its cached or freshly wrapped text, or a card.
pub open spec fn msg_lines(ms: Seq<ChatMessage>, i: int, cached: Map<usize, Seq<(Seq<char>, bool)>>, ww: int) -> int {
    match msg_text(ms[i]) {
        Some(t) => if cached.contains_key(i as usize) {
            cached[i as usize].len() as int
        } else {
            wrap_spec(t, ww).len() as int
        },
        None => 3,
    }
}

/// Total height of messages `a` to `b`, headers included.
pub open spec fn heights(
    ms: Seq<ChatMessage>,
    a: int,
    b: int,
    cached: Map<usize, Seq<(Seq<char>, bool)>>,
    ww: int,
    wide: bool,
) -> int
    decreases b - a,
{
    if b <= a {
        0
    } else {
        heights(ms, a, b - 1, cached, ww, wide) + msg_lines(ms, b - 1, cached, ww) + (if !wide && !is_grouped(
            ms,
            b - 1,
        ) {
            1int
        } else {
            0int
        })
    }
}

/// The cached lines once the text of messages `a` to `b` that were not
/// cached has been wrapped and stored.
pub open spec fn filled(
    ms: Seq<ChatMessage>,
    a: int,
    b: int,
    cached: Map<usize, Seq<(Seq<char>, bool)>>,
    ww: int,
) -> Map<usize, Seq<(Seq<char>, bool)>>
    decreases b - a,
{
    if b <= a {
        cached
    } else {
        let f = filled(ms, a, b - 1, cached, ww);
        match msg_text(ms[b - 1]) {
            Some(t) => if cached.contains_key((b - 1) as usize) {
                f
            } else {
                f.insert((b - 1) as usize, wrap_spec(t, ww))
            },
            None => f,
        }
    }
}

/// `k` names a cache entry used least often, and least recently among
/// those.
pub open spec fn least_used(c: Map<u16, LayoutCacheEntry>, k: u16) -> bool {
    &&& c.contains_key(k)
    &&& forall|k2: u16|
        #[trigger] c.contains_key(k2) ==> c[k].usage_count < c[k2].usage_count || (c[k].usage_count
            == c[k2].usage_count && c[k].last_use <= c[k2].last_use)
}

/// The messages can be wrapped without overflowing the width arithmetic.
pub open spec fn texts_fit(ms: Seq<ChatMessage>) -> bool {
    forall|i: int| 0 <= i < ms.len() ==> ((#[trigger] msg_text(ms[i])) matches Some(t) ==> 3 * t.len() <= usize::MAX)
}

impl ChatLayout {
    /// An empty layout.
    pub fn new() -> (l: Self)
        ensures
            l.cache@ == Map::<u16, LayoutCacheEntry>::empty(),
            l.total_height == 0,
            l.last_width == 0,
            l.max_sender_width == 0,
            l.processed_count == 0,
            l.tick == 0,
    {
        ChatLayout {
            cache: HashMap::new(),
            total_height: 0,
            last_width: 0,
            max_sender_width: 0,
            processed_count: 0,
            tick: 0,
        }
    }

    /// Forgets everything: the next update lays out from scratch.
    pub fn invalidate(&mut self)
        ensures
            final(self).cache@ == Map::<u16, LayoutCacheEntry>::empty(),
            final(self).total_height == 0,
            final(self).last_width == 0,
            final(self).max_sender_width == 0,
            final(self).processed_count == 0,
            final(self).tick == 0,
    {
        self.cache.clear();
        self.total_height = 0;
        self.last_width = 0;
        self.max_sender_width = 0;
        self.processed_count = 0;
        self.tick = 0;
    }

    /// A key of a least used entry of a full cache.
    fn least_used_key(&self) -> (r: Option<u16>)
        ensures
            match r {
                Some(k) => least_used(self.cache@, k),
                None => self.cache@.len() == 0,
            },
    {
        let mut best: Option<(u16, usize, u64)> = None;
        let ghost all = vstd::std_specs::hash::spec_hash_map_iter(&self.cache).remaining();
        let ghost mut n: int = 0;
        for (k, e) in it: self.cache.iter()
            invariant
                n == it.index(),
                it.seq() == all,
                all == vstd::std_specs::hash::spec_hash_map_iter(&self.cache).remaining(),
                match best {
                    Some(b) => {
                        &&& self.cache@.contains_key(b.0)
                        &&& self.cache@[b.0].usage_count == b.1
                        &&& self.cache@[b.0].last_use == b.2
                        &&& forall|i: int|
                            0 <= i < n ==> b.1 < (#[trigger] all[i]).1.usage_count || (b.1 == all[i].1.usage_count
                                && b.2 <= all[i].1.last_use)
                    },
                    None => n == 0,
                },
        {
            match best {
                Some(b) => {
                    if e.usage_count < b.1 || (e.usage_count == b.1 && e.last_use < b.2) {
                        best = Some((*k, e.usage_count, e.last_use));
                    }
                },
                None => {
                    best = Some((*k, e.usage_count, e.last_use));
                },
            }
            proof {
                n = n + 1;
            }
        }
        proof {
            if let Some(b) = best {
                assert forall|k2: u16| #[trigger] self.cache@.contains_key(k2) implies b.1 < self.cache@[k2].usage_count
                    || (b.1 == self.cache@[k2].usage_count && b.2 <= self.cache@[k2].last_use) by {
                    assert(all.contains((&k2, &self.cache@[k2])));
                    let i = choose|i: int| 0 <= i < all.len() && all[i] == (&k2, &self.cache@[k2]);
                    assert(0 <= i < n);
                }
            } else {
                assert(self.cache@.dom().len() == 0);
            }
        }
        match best {
            Some(b) => Some(b.0),
            None => None,
        }
    }
}

/// What an update starts from and decides before laying out messages.
pub struct UpdatePlan {
    pub tick: u64,
    pub cache0: Map<u16, LayoutCacheEntry>,
    pub sender_width: u16,
    pub start: int,
    pub base_height: int,
    pub last_width: u16,
    pub wrap_width: u16,
    pub wide: bool,
}

/// The plan of `update(ms, width)` on layout `o`: a history shorter than
/// what was laid out resets the layout; new messages on the same width
/// are appended unless a wider sender name shrinks the text column, which
/// (like a new width) lays everything out again.
pub open spec fn plan(o: ChatLayout, ms: Seq<ChatMessage>, width: u16) -> UpdatePlan {
    let reset = ms.len() < o.processed_count;
    let p0 = if reset {
        0
    } else {
        o.processed_count
    };
    let lw0 = if reset {
        0
    } else {
        o.last_width
    };
    let msw0 = if reset {
        0
    } else {
        o.max_sender_width
    };
    let th0 = if reset {
        0
    } else {
        o.total_height
    };
    let append = lw0 == width && p0 > 0 && ms.len() >= p0;
    let start = if append {
        p0 as int
    } else {
        0
    };
    let new_w = clamp_sender(
        match widest_sender(ms, start, ms.len() as int) {
            Some(w) => w as int,
            None => 0,
        },
    );
    let rebuild = !append || new_w > msw0;
    let msw = if append {
        if new_w > msw0 {
            new_w
        } else {
            msw0
        }
    } else {
        clamp_sender(
            match widest_sender(ms, 0, ms.len() as int) {
                Some(w) => w as int,
                None => 8,
            },
        )
    };
    UpdatePlan {
        tick: if reset {
            0
        } else if o.tick < u64::MAX {
            (o.tick + 1) as u64
        } else {
            u64::MAX
        },
        cache0: if reset {
            Map::empty()
        } else {
            o.cache@
        },
        sender_width: msw,
        start: if rebuild {
            0
        } else {
            start
        },
        base_height: if rebuild {
            0
        } else {
            th0 as int
        },
        last_width: if rebuild {
            width
        } else {
            lw0
        },
        wrap_width: wrap_width_for(width, msw),
        wide: width > 50,
    }
}

/// The cached lines of the wrap width before this update used them.
pub open spec fn entry_lines0(p: UpdatePlan) -> Map<usize, Seq<(Seq<char>, bool)>> {
    if p.cache0.contains_key(p.wrap_width) {
        lines_map_view(p.cache0[p.wrap_width].lines@)
    } else {
        Map::empty()
    }
}

pub open spec fn entry_usage0(p: UpdatePlan) -> int {
    if p.cache0.contains_key(p.wrap_width) {
        p.cache0[p.wrap_width].usage_count as int
    } else {
        0
    }
}

/// `filled` leaves keys at or past `b` as they were.
proof fn lemma_filled_outside(
    ms: Seq<ChatMessage>,
    a: int,
    b: int,
    cached: Map<usize, Seq<(Seq<char>, bool)>>,
    ww: int,
    key: usize,
)
    requires
        0 <= a,
        key >= b,
    ensures
        filled(ms, a, b, cached, ww).contains_key(key) == cached.contains_key(key),
        cached.contains_key(key) ==> filled(ms, a, b, cached, ww)[key] == cached[key],
    decreases b - a,
{
    if b > a {
        lemma_filled_outside(ms, a, b - 1, cached, ww, key);
    }
}

/// The widest sender name among the messages from `a` on.
fn widest_sender_exec(ms: &[ChatMessage], a: usize) -> (r: Option<usize>)
    ensures
        match r {
            Some(w) => widest_sender(ms@, a as int, ms@.len() as int) == Some(w as nat),
            None => widest_sender(ms@, a as int, ms@.len() as int) is None,
        },
{
    let mut best: Option<usize> = None;
    let mut i: usize = a;
    if a > ms.len() {
        return None;
    }
    while i < ms.len()
        invariant
            a <= i <= ms@.len(),
            match best {
                Some(w) => widest_sender(ms@, a as int, i as int) == Some(w as nat),
                None => widest_sender(ms@, a as int, i as int) is None,
            },
        decreases ms@.len() - i,
    {
        let w = display_width(ms[i].sender.as_str());
        best = match best {
            Some(x) => Some(if x >= w {
                x
            } else {
                w
            }),
            None => Some(w),
        };
        i = i + 1;
    }
    best
}

fn clamp_sender_exec(w: usize) -> (r: u16)
    ensures
        r == clamp_sender(w as int),
{
    if w < 5 {
        5
    } else if w > 12 {
        12
    } else {
        w as u16
    }
}

fn wrap_width_exec(width: u16, sender_w: u16) -> (r: u16)
    ensures
        r == wrap_width_for(width, sender_w),
{
    let content = if width > 50 {
        width.saturating_sub(GUTTER_FIXED_WIDTH.saturating_add(sender_w))
    } else {
        width
    };
    content.saturating_sub(1)
}

/// Lines of a message's text: from the cache, or wrapped and cached.
fn text_lines(lines: &mut HashMap<usize, Vec<WrappedLine>>, idx: usize, text: &String, ww: u16) -> (count: usize)
    requires
        3 * text@.len() <= usize::MAX,
    ensures
        old(lines)@.contains_key(idx) ==> final(lines)@ == old(lines)@ && count == old(lines)@[idx]@.len(),
        !old(lines)@.contains_key(idx) ==> lines_map_view(final(lines)@) == lines_map_view(old(lines)@).insert(
            idx,
            wrap_spec(text@, ww as int),
        ) && count == wrap_spec(text@, ww as int).len(),
{
    match lines.get(&idx) {
        Some(v) => v.len(),
        None => {
            let wrapped = wrap_text(text.as_str(), ww as usize);
            let c = wrapped.len();
            lines.insert(idx, wrapped);
            assert(lines_map_view(lines@) =~= lines_map_view(old(lines)@).insert(idx, wrap_spec(text@, ww as int)));
            c
        },
    }
}

/// `n` is what `update(ms, width)` makes of layout `o` (see `plan`).
pub open spec fn layout_updated(o: ChatLayout, n: ChatLayout, ms: Seq<ChatMessage>, width: u16) -> bool {
    let p = plan(o, ms, width);
    let cnt = ms.len() as int;
    &&& n.tick == p.tick
    &&& n.processed_count == ms.len()
    &&& n.max_sender_width == p.sender_width
    &&& n.last_width == p.last_width
    &&& n.total_height == crate::input_layout::capped(
        p.base_height + heights(ms, p.start, cnt, entry_lines0(p), p.wrap_width as int, p.wide),
    )
    &&& n.cache@.contains_key(p.wrap_width)
    &&& lines_map_view(n.cache@[p.wrap_width].lines@) == filled(
        ms,
        p.start,
        cnt,
        entry_lines0(p),
        p.wrap_width as int,
    )
    &&& n.cache@[p.wrap_width].usage_count == crate::input_layout::capped(entry_usage0(p) + 1)
    &&& n.cache@[p.wrap_width].last_use == p.tick
    &&& if !p.cache0.contains_key(p.wrap_width) && p.cache0.len() >= LAYOUT_CACHE_LIMIT {
        exists|k: u16| least_used(p.cache0, k) && n.cache@.remove(p.wrap_width) == p.cache0.remove(k)
    } else {
        n.cache@.remove(p.wrap_width) == p.cache0.remove(p.wrap_width)
    }
}

/// Heights add up over adjacent ranges.
proof fn lemma_heights_split(
    ms: Seq<ChatMessage>,
    a: int,
    k: int,
    b: int,
    c: Map<usize, Seq<(Seq<char>, bool)>>,
    ww: int,
    wide: bool,
)
    requires
        a <= k <= b,
    ensures
        heights(ms, a, b, c, ww, wide) == heights(ms, a, k, c, ww, wide) + heights(ms, k, b, c, ww, wide),
    decreases b - k,
{
    if b > k {
        lemma_heights_split(ms, a, k, b - 1, c, ww, wide);
    }
}

/// Heights are never negative.
proof fn lemma_heights_nonneg(
    ms: Seq<ChatMessage>,
    a: int,
    b: int,
    c: Map<usize, Seq<(Seq<char>, bool)>>,
    ww: int,
    wide: bool,
)
    ensures
        heights(ms, a, b, c, ww, wide) >= 0,
    decreases b - a,
{
    if b > a {
        lemma_heights_nonneg(ms, a, b - 1, c, ww, wide);
    }
}

/// The first messages of a list are laid out as in any longer list.
proof fn lemma_heights_prefix(
    ms: Seq<ChatMessage>,
    k: int,
    a: int,
    b: int,
    c: Map<usize, Seq<(Seq<char>, bool)>>,
    ww: int,
    wide: bool,
)
    requires
        0 <= a,
        b <= k <= ms.len(),
    ensures
        heights(ms.take(k), a, b, c, ww, wide) == heights(ms, a, b, c, ww, wide),
    decreases b - a,
{
    if b > a {
        lemma_heights_prefix(ms, k, a, b - 1, c, ww, wide);
    }
}

/// Cached lines that are the wrapped texts change no height.
proof fn lemma_heights_cached(
    ms: Seq<ChatMessage>,
    a: int,
    b: int,
    c: Map<usize, Seq<(Seq<char>, bool)>>,
    ww: int,
    wide: bool,
)
    requires
        0 <= a,
        b <= ms.len(),
        forall|i: int|
            a <= i < b && #[trigger] c.contains_key(i as usize) ==> (msg_text(ms[i]) matches Some(t) && c[i as usize]
                == wrap_spec(t, ww)),
    ensures
        heights(ms, a, b, c, ww, wide) == heights(ms, a, b, Map::empty(), ww, wide),
    decreases b - a,
{
    if b > a {
        lemma_heights_cached(ms, a, b - 1, c, ww, wide);
    }
}

/// What `filled` stores from nothing: the wrapped text of the text
/// messages of the range.
proof fn lemma_filled_empty(ms: Seq<ChatMessage>, a: int, b: int, ww: int, i: int)
    requires
        0 <= i <= usize::MAX,
        0 <= a,
        b <= ms.len() <= usize::MAX,
        filled(ms, a, b, Map::empty(), ww).contains_key(i as usize),
    ensures
        a <= i < b,
        msg_text(ms[i]) matches Some(t) && filled(ms, a, b, Map::empty(), ww)[i as usize] == wrap_spec(t, ww),
    decreases b - a,
{
    if b > a {
        if filled(ms, a, b - 1, Map::empty(), ww).contains_key(i as usize) {
            lemma_filled_empty(ms, a, b - 1, ww, i);
        }
    }
}

/// The widest sender over adjacent ranges.
proof fn lemma_widest_split(ms: Seq<ChatMessage>, a: int, k: int, b: int)
    requires
        a <= k <= b,
    ensures
        widest_sender(ms, a, b) == match (widest_sender(ms, a, k), widest_sender(ms, k, b)) {
            (Some(x), Some(y)) => Some(if x >= y { x } else { y }),
            (Some(x), None) => Some(x),
            (None, y) => y,
        },
    decreases b - k,
{
    if b > k {
        lemma_widest_split(ms, a, k, b - 1);
    }
}

/// The widest sender of the first messages is that of any longer list.
proof fn lemma_widest_prefix(ms: Seq<ChatMessage>, k: int, a: int, b: int)
    requires
        0 <= a,
        b <= k <= ms.len(),
    ensures
        widest_sender(ms.take(k), a, b) == widest_sender(ms, a, b),
    decreases b - a,
{
    if b > a {
        lemma_widest_prefix(ms, k, a, b - 1);
    }
}

/// An empty range has no widest sender; a non-empty one has.
proof fn lemma_widest_some(ms: Seq<ChatMessage>, a: int, b: int)
    ensures
        (widest_sender(ms, a, b) is Some) <==> b > a,
    decreases b - a,
{
    if b > a {
        lemma_widest_some(ms, a, b - 1);
    }
}

/// Laying out the first `k` messages of a fresh layout and then all of
/// them gives the same totals as laying them all out at once: the same
/// height, sender column and count.
pub proof fn law_layout_append_as_rebuild(
    fresh: ChatLayout,
    a1: ChatLayout,
    a2: ChatLayout,
    b: ChatLayout,
    ms: Seq<ChatMessage>,
    k: int,
    width: u16,
)
    requires
        fresh.cache@ == Map::<u16, LayoutCacheEntry>::empty(),
        fresh.total_height == 0,
        fresh.last_width == 0,
        fresh.max_sender_width == 0,
        fresh.processed_count == 0,
        0 <= k <= ms.len() <= usize::MAX,
        layout_updated(fresh, a1, ms.take(k), width),
        layout_updated(a1, a2, ms, width),
        layout_updated(fresh, b, ms, width),
    ensures
        a2.total_height == b.total_height,
        a2.max_sender_width == b.max_sender_width,
        a2.processed_count == b.processed_count,
        b.processed_count == ms.len(),
{
    let n = ms.len() as int;
    let mk = ms.take(k);
    let p1 = plan(fresh, mk, width);
    let p2 = plan(a1, ms, width);
    let pb = plan(fresh, ms, width);
    lemma_widest_prefix(ms, k, 0, k);
    lemma_widest_split(ms, 0, k, n);
    lemma_widest_some(ms, 0, k);
    lemma_widest_some(ms, k, n);
    lemma_widest_some(ms, 0, n);
    lemma_heights_nonneg(ms, 0, k, Map::empty(), p2.wrap_width as int, p2.wide);
    lemma_heights_nonneg(ms, k, n, Map::empty(), p2.wrap_width as int, p2.wide);
    assert(mk.len() == k);
    assert(p1.cache0 == Map::<u16, LayoutCacheEntry>::empty());
    assert(entry_lines0(p1) == Map::<usize, Seq<(Seq<char>, bool)>>::empty());
    assert(entry_lines0(pb) == Map::<usize, Seq<(Seq<char>, bool)>>::empty());
    assert(p1.start == 0);
    assert(pb.start == 0);
    // What the second update finds cached is the wrapped text of the
    // first `k` messages, if anything.
    let c2 = entry_lines0(p2);
    assert forall|i: int| 0 <= i < n && #[trigger] c2.contains_key(i as usize) implies (msg_text(ms[i]) matches Some(t)
        && c2[i as usize] == wrap_spec(t, p2.wrap_width as int)) by {
        assert(p2.cache0 == a1.cache@);
        assert(p2.wrap_width == p1.wrap_width || !a1.cache@.contains_key(p2.wrap_width) || a1.cache@.contains_key(
            p2.wrap_width,
        ));
        if a1.cache@.contains_key(p2.wrap_width) {
            if p2.wrap_width == p1.wrap_width {
                lemma_filled_empty(mk, 0, k, p1.wrap_width as int, i);
            } else {
                assert(a1.cache@.remove(p1.wrap_width) == p1.cache0.remove(p1.wrap_width));
                assert(a1.cache@.remove(p1.wrap_width).contains_key(p2.wrap_width));
            }
        }
    };
    lemma_heights_cached(ms, 0, n, c2, p2.wrap_width as int, p2.wide);
    lemma_heights_cached(ms, k, n, c2, p2.wrap_width as int, p2.wide);
    lemma_heights_prefix(ms, k, 0, k, Map::empty(), p1.wrap_width as int, p1.wide);
    lemma_heights_split(ms, 0, k, n, Map::empty(), p2.wrap_width as int, p2.wide);
}

impl ChatLayout {
    /// Lays out `messages` for a list `width` columns wide, appending to
    /// what was laid out when it can: it wraps the text of messages not yet
    /// cached for the wrap width, adds up their heights (one header line per
    /// group in narrow mode) and keeps at most ten wrap widths, dropping a
    /// least used one to make room.
    pub fn update(&mut self, messages: &[ChatMessage], width: u16)
        requires
            texts_fit(messages@),
        ensures
            layout_updated(*old(self), *final(self), messages@, width),
    {
        let ghost p = plan(*old(self), messages@, width);
        self.tick = self.tick.saturating_add(1);
        if messages.len() < self.processed_count {
            self.invalidate();
        }
        let n = messages.len();
        let is_append = self.last_width == width && self.processed_count > 0 && n >= self.processed_count;
        let start_index = if is_append {
            self.processed_count
        } else {
            0
        };
        let new_w = match widest_sender_exec(messages, start_index) {
            Some(w) => clamp_sender_exec(w),
            None => clamp_sender_exec(0),
        };
        let mut rebuild = false;
        if is_append {
            if new_w > self.max_sender_width {
                rebuild = true;
                self.max_sender_width = new_w;
            }
        } else {
            rebuild = true;
            self.max_sender_width = match widest_sender_exec(messages, 0) {
                Some(w) => clamp_sender_exec(w),
                None => clamp_sender_exec(8),
            };
        }
        let actual_start = if rebuild {
            self.total_height = 0;
            self.last_width = width;
            0
        } else {
            start_index
        };
        let wide = width > 50;
        let ww = wrap_width_exec(width, self.max_sender_width);
        assert(ww == p.wrap_width);
        assert(self.cache@ == p.cache0);
        let ghost evicted: Option<u16> = None;
        if !self.cache.contains_key(&ww) {
            if self.cache.len() >= LAYOUT_CACHE_LIMIT {
                match self.least_used_key() {
                    Some(k) => {
                        self.cache.remove(&k);
                        proof {
                            evicted = Some(k);
                        }
                    },
                    None => {},
                }
            }
            self.cache.insert(ww, LayoutCacheEntry::default());
        }
        let ghost rest = self.cache@.remove(ww);
        proof {
            match evicted {
                Some(k) => {
                    assert(least_used(p.cache0, k));
                    assert(rest =~= p.cache0.remove(k));
                },
                None => {
                    assert(rest =~= p.cache0.remove(ww));
                },
            }
        }
        let mut entry = self.cache.remove(&ww).unwrap();
        assert(lines_map_view(entry.lines@) =~= entry_lines0(p));
        entry.usage_count = entry.usage_count.saturating_add(1);
        entry.last_use = self.tick;
        let ghost cached0 = entry_lines0(p);
        let mut idx: usize = actual_start;
        proof {
            assert(filled(messages@, actual_start as int, actual_start as int, cached0, ww as int) == cached0);
            assert(heights(messages@, actual_start as int, actual_start as int, cached0, ww as int, wide) == 0);
        }
        while idx < n
            invariant
                actual_start <= idx <= n,
                n == messages@.len(),
                actual_start == p.start,
                0 <= p.start,
                texts_fit(messages@),
                ww == p.wrap_width,
                wide == p.wide,
                cached0 == entry_lines0(p),
                self.cache@ == rest,
                entry.usage_count == crate::input_layout::capped(entry_usage0(p) + 1),
                entry.last_use == p.tick,
                self.tick == p.tick,
                self.max_sender_width == p.sender_width,
                self.last_width == p.last_width,
                lines_map_view(entry.lines@) == filled(messages@, p.start, idx as int, cached0, ww as int),
                self.total_height == crate::input_layout::capped(
                    p.base_height + heights(messages@, p.start, idx as int, cached0, ww as int, wide),
                ),
            decreases n - idx,
        {
            let m = &messages[idx];
            proof {
                lemma_filled_outside(messages@, p.start, idx as int, cached0, ww as int, idx);
                assert(msg_text(messages@[idx as int]) == msg_text(*m));
            }
            let ghost before = lines_map_view(entry.lines@);
            let count: usize = match &m.content {
                MessageContent::Text(t) => text_lines(&mut entry.lines, idx, t, ww),
                MessageContent::System(t) => text_lines(&mut entry.lines, idx, t, ww),
                _ => 3,
            };
            proof {
                if msg_text(*m) is Some && !before.contains_key(idx) {
                    assert(lines_map_view(entry.lines@) == filled(messages@, p.start, idx as int + 1, cached0, ww as int));
                }
            }
            let grouped = if idx > 0 {
                let prev = &messages[idx - 1];
                crate::input_layout::same_str(prev.sender.as_str(), m.sender.as_str())
                    && m.unix_timestamp.saturating_sub(prev.unix_timestamp) < GROUPING_SECONDS
            } else {
                false
            };
            let header: usize = if !wide && !grouped {
                1
            } else {
                0
            };
            self.total_height = self.total_height.saturating_add(count).saturating_add(header);
            idx = idx + 1;
        }
        self.cache.insert(ww, entry);
        assert(self.cache@.remove(ww) =~= rest);
        self.processed_count = n;
    }
}

impl ChatLayout {
    /// Re-wraps one message whose content changed and corrects the total
    /// height; nothing happens unless the layout is for `width`.
    pub fn update_message(&mut self, index: usize, msg: &ChatMessage, width: u16)
        requires
            msg_text(*msg) matches Some(t) ==> 3 * t.len() <= usize::MAX,
        ensures
            width != old(self).last_width ==> *final(self) == *old(self),
            width == old(self).last_width ==> {
                let ww = wrap_width_for(width, old(self).max_sender_width);
                &&& final(self).last_width == old(self).last_width
                &&& final(self).max_sender_width == old(self).max_sender_width
                &&& final(self).processed_count == old(self).processed_count
                &&& final(self).tick == old(self).tick
                &&& match msg_text(*msg) {
                    Some(t) => {
                        let count = wrap_spec(t, ww as int).len() as int;
                        if old(self).cache@.contains_key(ww) {
                            let e = old(self).cache@[ww];
                            let removed = if e.lines@.contains_key(index) {
                                e.lines@[index]@.len() as int
                            } else {
                                0
                            };
                            let less = if old(self).total_height >= removed {
                                old(self).total_height - removed
                            } else {
                                0
                            };
                            &&& final(self).total_height == crate::input_layout::capped(less + count)
                            &&& final(self).cache@.remove(ww) == old(self).cache@.remove(ww)
                            &&& final(self).cache@.contains_key(ww)
                            &&& lines_map_view(final(self).cache@[ww].lines@) == lines_map_view(e.lines@).insert(
                                index,
                                wrap_spec(t, ww as int),
                            )
                            &&& final(self).cache@[ww].usage_count == e.usage_count
                            &&& final(self).cache@[ww].last_use == e.last_use
                        } else {
                            &&& final(self).total_height == crate::input_layout::capped(old(self).total_height + count)
                            &&& final(self).cache@ == old(self).cache@
                        }
                    },
                    None => {
                        &&& final(self).total_height == crate::input_layout::capped(old(self).total_height + 3)
                        &&& final(self).cache@ == old(self).cache@
                    },
                }
            },
    {
        if width != self.last_width {
            return;
        }
        let ww = wrap_width_exec(width, self.max_sender_width);
        let text = match &msg.content {
            MessageContent::Text(t) => Some(t),
            MessageContent::System(t) => Some(t),
            _ => None,
        };
        let lines_count: usize = match text {
            Some(t) => {
                let lines = wrap_text(t.as_str(), ww as usize);
                let count = lines.len();
                if self.cache.contains_key(&ww) {
                    let mut entry = self.cache.remove(&ww).unwrap();
                    let ghost rest = self.cache@;
                    let ghost old_lines = entry.lines@;
                    match entry.lines.insert(index, lines) {
                        Some(old_v) => {
                            self.total_height = self.total_height.saturating_sub(old_v.len());
                        },
                        None => {},
                    }
                    assert(lines_map_view(entry.lines@) =~= lines_map_view(old_lines).insert(
                        index,
                        wrap_spec(t@, ww as int),
                    ));
                    self.cache.insert(ww, entry);
                    assert(self.cache@.remove(ww) =~= rest);
                }
                count
            },
            None => 3,
        };
        self.total_height = self.total_height.saturating_add(lines_count);
    }
}

} // verus!
