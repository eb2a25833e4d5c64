//! Wrapping the input text into screen lines, and the cursor movement and
//! mouse hit-testing that work on those lines.
use crate::input_box::{
    entry_ok, lemma_boundary_zero_end, moved_selection, lemma_cluster_offset, lemma_flatten_take_step, InputBoxState,
    InputGrapheme, InputLine,
};
use crate::text::{byte_len, chars_eq, is_boundary, lemma_byte_len_concat, str_byte_len, str_chars};
use crate::unicode::{display_width, grapheme_clusters, graphemes, str_width, strings_chars};
use vstd::prelude::*;

verus! {

broadcast use vstd::std_specs::vec::group_vec_axioms;

/// A laid-out line as a value: its graphemes, whether it ends in a soft
/// wrap, and its row.
pub type LineView = (Seq<InputGrapheme>, bool, u16);

pub open spec fn line_view(l: InputLine) -> LineView {
    (l.graphemes@, l.is_soft_wrap, l.y_offset)
}

pub open spec fn lines_view(v: Seq<InputLine>) -> Seq<LineView> {
    v.map_values(|l: InputLine| line_view(l))
}

/// Byte offset at which cluster `i` starts.
pub open spec fn cluster_start(gs: Seq<Seq<char>>, i: int) -> int {
    byte_len(gs.take(i).flatten()) as int
}

/// Cluster `i` placed at column `x`.
pub open spec fn placed(gs: Seq<Seq<char>>, i: int, x: int) -> InputGrapheme {
    InputGrapheme {
        byte_idx: cluster_start(gs, i) as usize,
        len: byte_len(gs[i]) as usize,
        width: str_width(gs[i]) as usize,
        screen_x: x as u16,
    }
}

/// The layout after the first clusters: the finished lines, the graphemes
/// of the line being filled and the column it has reached.
pub struct Lay {
    pub lines: Seq<LineView>,
    pub cur: Seq<InputGrapheme>,
    pub cw: int,
}

/// Lays out the first `n` clusters.  Lines start at the prompt's width
/// `pw`; a newline ends a line; a cluster that would pass column `lim`
/// goes to a new line and leaves a soft wrap behind.
pub open spec fn lay(gs: Seq<Seq<char>>, n: nat, pw: int, lim: int) -> Lay
    decreases n,
{
    if n == 0 {
        Lay { lines: seq![], cur: seq![], cw: pw }
    } else {
        let i = n - 1;
        let s = lay(gs, (n - 1) as nat, pw, lim);
        if gs[i] == seq!['\n'] {
            Lay { lines: s.lines.push((s.cur, false, s.lines.len() as u16)), cur: seq![], cw: pw }
        } else if s.cw + str_width(gs[i]) > lim {
            Lay {
                lines: s.lines.push((s.cur, true, s.lines.len() as u16)),
                cur: seq![placed(gs, i, pw)],
                cw: pw + str_width(gs[i]),
            }
        } else {
            Lay { lines: s.lines, cur: s.cur.push(placed(gs, i, s.cw)), cw: s.cw + str_width(gs[i]) }
        }
    }
}

/// The (line, column) where the cluster starting at byte `cursor` was
/// met among the first `n` clusters, before that cluster was placed.
pub open spec fn lay_cursor(gs: Seq<Seq<char>>, n: nat, pw: int, lim: int, cursor: int) -> Option<(int, int)>
    decreases n,
{
    if n == 0 {
        None
    } else if cluster_start(gs, n - 1) == cursor {
        let s = lay(gs, (n - 1) as nat, pw, lim);
        Some((s.lines.len() as int, s.cw))
    } else {
        lay_cursor(gs, (n - 1) as nat, pw, lim, cursor)
    }
}

/// The screen lines of `text` behind a prompt `pw` columns wide, in a box
/// `width` columns wide (one column is kept for the wrap mark).
pub open spec fn layout_lines(text: Seq<char>, pw: int, width: int) -> Seq<LineView> {
    let gs = grapheme_clusters(text);
    let s = lay(gs, gs.len(), pw, width - 1);
    s.lines.push((s.cur, false, s.lines.len() as u16))
}

/// The (column, row) at which the cursor is drawn; past the end of the
/// text when no cluster starts at the cursor.
pub open spec fn layout_cursor(text: Seq<char>, cursor: int, pw: int, width: int) -> (u16, u16) {
    let gs = grapheme_clusters(text);
    let s = lay(gs, gs.len(), pw, width - 1);
    match lay_cursor(gs, gs.len(), pw, width - 1, cursor) {
        Some(p) => (p.1 as u16, p.0 as u16),
        None => (s.cw as u16, s.lines.len() as u16),
    }
}

impl InputBoxState {
    /// The layout cache, when marked valid by a nonzero width, is the
    /// layout of the current text (whose clusters were met on the way).
    pub open spec fn layout_ok(&self) -> bool {
        self.last_width > 0 ==> {
            &&& grapheme_clusters(self.text@).flatten() == self.text@
            &&& lines_view(self.lines@) == layout_lines(
                self.text@,
                str_width(self.prompt@) as int,
                self.last_width as int,
            )
        }
    }

    /// The fields that laying out leaves alone.
    pub open spec fn same_content(&self, o: &Self) -> bool {
        &&& self.text == o.text
        &&& self.cursor_pos == o.cursor_pos
        &&& self.selection == o.selection
        &&& self.mode == o.mode
        &&& self.clipboard == o.clipboard
        &&& self.undo_stack == o.undo_stack
        &&& self.redo_stack == o.redo_stack
        &&& self.scroll == o.scroll
    }
}

/// Facts about the byte offsets of clusters.
proof fn lemma_cluster_step(gs: Seq<Seq<char>>, i: int)
    requires
        0 <= i < gs.len(),
    ensures
        cluster_start(gs, i + 1) == cluster_start(gs, i) + byte_len(gs[i]),
        cluster_start(gs, i + 1) <= byte_len(gs.flatten()),
        gs[i].len() <= gs.flatten().len(),
{
    lemma_flatten_take_step(gs, i);
    lemma_byte_len_concat(gs.take(i).flatten(), gs[i]);
    lemma_cluster_offset(gs, i + 1);
    lemma_byte_len_concat(gs.take(i + 1).flatten(), gs.skip(i + 1).flatten());
}

/// The start of a cluster is a character boundary of the whole text.
proof fn lemma_cluster_boundary(gs: Seq<Seq<char>>, j: int)
    requires
        0 <= j <= gs.len(),
    ensures
        is_boundary(gs.flatten(), cluster_start(gs, j)),
{
    lemma_cluster_offset(gs, j);
    let t = gs.flatten();
    let p = gs.take(j).flatten();
    assert(t.take(p.len() as int) =~= p);
    assert(0 <= p.len() <= t.len() && byte_len(t.take(p.len() as int)) == cluster_start(gs, j));
}

/// `s` is `seq!['\n']`.
fn is_newline(s: &str) -> (r: bool)
    ensures
        r == (s@ == seq!['\n']),
{
    let c = str_chars(s);
    if c.len() == 1 && c[0] == '\n' {
        assert(s@ =~= seq!['\n']);
        true
    } else {
        false
    }
}

/// Two strings hold the same characters.
pub(crate) fn same_str(a: &str, b: &str) -> (r: bool)
    ensures
        r == (a@ == b@),
{
    let ca = str_chars(a);
    let cb = str_chars(b);
    let r = chars_eq(ca.as_slice(), cb.as_slice());
    proof {
        if !r {
            assert(a@ != b@);
        } else {
            assert(a@ =~= b@);
        }
    }
    r
}

/// How the cursor record of the layout loop matches `lay_cursor`.
pub open spec fn at_matches(at: Option<(usize, usize)>, c: Option<(int, int)>) -> bool {
    match at {
        Some(p) => c == Some((p.0 as int, p.1 as int)),
        None => c is None,
    }
}

/// `g` is one of the clusters of `gs`, at its own byte offset.
pub open spec fn from_cluster(gs: Seq<Seq<char>>, g: InputGrapheme) -> bool {
    exists|j: int| 0 <= j < gs.len() && g.byte_idx == cluster_start(gs, j) && g.len == byte_len(#[trigger] gs[j])
}

pub open spec fn all_from(gs: Seq<Seq<char>>, v: Seq<InputGrapheme>) -> bool {
    forall|k: int| 0 <= k < v.len() ==> from_cluster(gs, #[trigger] v[k])
}

/// Every grapheme the layout places is a cluster of the text at its own
/// offset.
proof fn lemma_lay_from(gs: Seq<Seq<char>>, n: nat, pw: int, lim: int)
    requires
        n <= gs.len(),
        byte_len(gs.flatten()) <= usize::MAX,
    ensures
        all_from(gs, lay(gs, n, pw, lim).cur),
        forall|l: int| 0 <= l < lay(gs, n, pw, lim).lines.len() ==> all_from(gs, #[trigger] lay(gs, n, pw, lim).lines[l].0),
    decreases n,
{
    if n > 0 {
        let i = n - 1;
        lemma_lay_from(gs, (n - 1) as nat, pw, lim);
        lemma_cluster_step(gs, i);
        lemma_cluster_offset(gs, i);
        lemma_byte_len_concat(gs.take(i).flatten(), gs.skip(i).flatten());
        let p = placed(gs, i, 0);
        assert(from_cluster(gs, placed(gs, i, pw)));
        let s = lay(gs, (n - 1) as nat, pw, lim);
        assert(from_cluster(gs, placed(gs, i, s.cw)));
    }
}

/// The graphemes of a valid layout cache start and end on character
/// boundaries of the text.
proof fn lemma_layout_boundaries(text: Seq<char>, pw: int, width: int)
    requires
        byte_len(text) <= usize::MAX,
        grapheme_clusters(text).flatten() == text,
    ensures
        forall|l: int, k: int|
            0 <= l < layout_lines(text, pw, width).len() && 0 <= k < layout_lines(text, pw, width)[l].0.len()
                ==> is_boundary(text, (#[trigger] layout_lines(text, pw, width)[l].0[k]).byte_idx as int)
                && is_boundary(text, layout_lines(text, pw, width)[l].0[k].byte_idx + layout_lines(
                text,
                pw,
                width,
            )[l].0[k].len),
{
    let gs = grapheme_clusters(text);
    lemma_lay_from(gs, gs.len(), pw, width - 1);
    let s = lay(gs, gs.len(), pw, width - 1);
    let ls = layout_lines(text, pw, width);
    assert forall|l: int, k: int| 0 <= l < ls.len() && 0 <= k < ls[l].0.len() implies is_boundary(
        text,
        (#[trigger] ls[l].0[k]).byte_idx as int,
    ) && is_boundary(text, ls[l].0[k].byte_idx + ls[l].0[k].len) by {
        let g = ls[l].0[k];
        if l < s.lines.len() {
            assert(ls[l] == s.lines[l]);
            assert(all_from(gs, s.lines[l].0));
        } else {
            assert(ls[l].0 == s.cur);
        }
        assert(from_cluster(gs, g));
        let j = choose|j: int| 0 <= j < gs.len() && g.byte_idx == cluster_start(gs, j) && g.len == byte_len(
            #[trigger] gs[j],
        );
        lemma_cluster_step(gs, j);
        lemma_cluster_boundary(gs, j);
        lemma_cluster_boundary(gs, j + 1);
    }
}

impl InputBoxState {
    /// Brings the layout cache up to date for a box `width` columns wide
    /// behind `prompt`.  Nothing is redone when the width and prompt are
    /// those of a cache that is already filled.  A zero width gives one
    /// empty line.
    pub fn ensure_layout(&mut self, width: u16, prompt: &str)
        requires
            byte_len(old(self).text@) <= usize::MAX,
            old(self).layout_ok(),
            3 * (prompt@.len() + old(self).text@.len()) <= usize::MAX,
        ensures
            final(self).layout_ok(),
            laid_out(*old(self), *final(self), width, prompt@),
    {
        if self.last_width == width && same_str(self.prompt.as_str(), prompt) && self.lines.len() > 0 {
            return;
        }
        self.last_width = width;
        self.prompt = prompt.to_owned();
        if width == 0 {
            let empty = InputLine { graphemes: Vec::new(), is_soft_wrap: false, y_offset: 0 };
            self.lines = vec![empty];
            assert(lines_view(self.lines@) =~= seq![(Seq::<InputGrapheme>::empty(), false, 0u16)]);
            return;
        }
        let pw = display_width(prompt);
        let gs = graphemes(self.text.as_str());
        let ghost cv = strings_chars(gs@);
        let ghost text = self.text@;
        let lim: usize = width as usize - 1;
        let mut lines: Vec<InputLine> = Vec::new();
        let mut cur: Vec<InputGrapheme> = Vec::new();
        let mut cw: usize = pw;
        let mut at: Option<(usize, usize)> = None;
        let mut b: usize = 0;
        let mut i: usize = 0;
        proof {
            assert(cv.take(0) =~= Seq::<Seq<char>>::empty());
            assert(cv.take(0).flatten() =~= Seq::<char>::empty());
            assert(byte_len(Seq::<char>::empty()) == 0);
            assert(lines_view(lines@) =~= Seq::<LineView>::empty());
        }
        while i < gs.len()
            invariant
                i <= gs@.len(),
                cv == strings_chars(gs@),
                cv == grapheme_clusters(text),
                cv.flatten() == text,
                text == self.text@,
                byte_len(text) <= usize::MAX,
                3 * (prompt@.len() + text.len()) <= usize::MAX,
                pw == str_width(prompt@),
                pw <= 3 * prompt@.len(),
                lim == width - 1,
                lim < 0x10000,
                b == cluster_start(cv, i as int),
                lines_view(lines@) == lay(cv, i as nat, pw as int, lim as int).lines,
                cur@ == lay(cv, i as nat, pw as int, lim as int).cur,
                cw == lay(cv, i as nat, pw as int, lim as int).cw,
                cw <= lim || cw <= pw + 3 * text.len(),
                at_matches(at, lay_cursor(cv, i as nat, pw as int, lim as int, self.cursor_pos as int)),
            decreases gs@.len() - i,
        {
            let g = gs[i].as_str();
            proof {
                lemma_cluster_step(cv, i as int);
                assert(cv[i as int] == g@);
            }
            let glen = str_byte_len(g);
            if b == self.cursor_pos {
                at = Some((lines.len(), cw));
            }
            let ghost lv = lines_view(lines@);
            if is_newline(g) {
                let done = InputLine { graphemes: cur, is_soft_wrap: false, y_offset: lines.len() as u16 };
                lines.push(done);
                cur = Vec::new();
                cw = pw;
                assert(lines_view(lines@) =~= lv.push(line_view(done)));
            } else {
                let w = display_width(g);
                if w > lim || cw > lim - w {
                    let done = InputLine { graphemes: cur, is_soft_wrap: true, y_offset: lines.len() as u16 };
                    lines.push(done);
                    assert(lines_view(lines@) =~= lv.push(line_view(done)));
                    cur = Vec::new();
                    cur.push(InputGrapheme { byte_idx: b, len: glen, width: w, screen_x: pw as u16 });
                    assert(cur@ =~= seq![placed(cv, i as int, pw as int)]);
                    cw = pw + w;
                } else {
                    cur.push(InputGrapheme { byte_idx: b, len: glen, width: w, screen_x: cw as u16 });
                    cw = cw + w;
                }
            }
            b = b + glen;
            i = i + 1;
        }
        if at.is_none() {
            at = Some((lines.len(), cw));
        }
        let ghost lv = lines_view(lines@);
        let last = InputLine { graphemes: cur, is_soft_wrap: false, y_offset: lines.len() as u16 };
        lines.push(last);
        assert(lines_view(lines@) =~= lv.push(line_view(last)));
        let (line, col) = at.unwrap();
        self.lines = lines;
        self.cursor_display_pos = (col as u16, line as u16);
    }
}

/// The column just past grapheme `g`, in the wrapping `u16` arithmetic of
/// screen columns.
pub open spec fn end_col(g: InputGrapheme) -> u16 {
    vstd::wrapping::u16_specs::wrapping_add(g.screen_x, g.width as u16)
}

/// The column of the first grapheme, from index `k` on, that starts at
/// byte `b`.
pub open spec fn col_of_from(gs: Seq<InputGrapheme>, k: int, b: int) -> Option<u16>
    decreases gs.len() - k,
{
    if k < 0 || k >= gs.len() {
        None
    } else if gs[k].byte_idx == b {
        Some(gs[k].screen_x)
    } else {
        col_of_from(gs, k + 1, b)
    }
}

/// The last grapheme of a nonempty line ends at byte `b`.
pub open spec fn ends_at(gs: Seq<InputGrapheme>, b: int) -> bool {
    gs.len() > 0 && gs.last().byte_idx + gs.last().len == b
}

/// The (line, column) of byte `b`, searching from line `i`: a grapheme
/// starting there, or the end of a line's last grapheme; an empty line
/// stops the search at its start.
pub open spec fn cursor_2d_from(lines: Seq<LineView>, i: int, b: int) -> Option<(int, u16)>
    decreases lines.len() - i,
{
    if i < 0 || i >= lines.len() {
        None
    } else {
        match col_of_from(lines[i].0, 0, b) {
            Some(x) => Some((i, x)),
            None => if lines[i].0.len() == 0 {
                Some((i, 0u16))
            } else if ends_at(lines[i].0, b) {
                Some((i, end_col(lines[i].0.last())))
            } else {
                cursor_2d_from(lines, i + 1, b)
            },
        }
    }
}

/// The column at which byte `b` is drawn, searching from line `i`.
pub open spec fn screen_x_from(lines: Seq<LineView>, i: int, b: int) -> Option<u16>
    decreases lines.len() - i,
{
    if i < 0 || i >= lines.len() {
        None
    } else {
        match col_of_from(lines[i].0, 0, b) {
            Some(x) => Some(x),
            None => if ends_at(lines[i].0, b) {
                Some(end_col(lines[i].0.last()))
            } else {
                screen_x_from(lines, i + 1, b)
            },
        }
    }
}

pub open spec fn abs_diff(a: u16, t: u16) -> int {
    if a >= t {
        a - t
    } else {
        t - a
    }
}

/// The nearest position to column `t` and its distance, over the starts
/// and ends of the first `n` graphemes (the first start counts first; a
/// later one wins only when strictly nearer).
pub open spec fn closest_scan(gs: Seq<InputGrapheme>, n: nat, t: u16) -> (int, int)
    decreases n,
{
    if n == 0 {
        (gs[0].byte_idx as int, abs_diff(gs[0].screen_x, t))
    } else {
        let p = closest_scan(gs, (n - 1) as nat, t);
        let g = gs[n - 1];
        let p1 = if abs_diff(g.screen_x, t) < p.1 {
            (g.byte_idx as int, abs_diff(g.screen_x, t))
        } else {
            p
        };
        if abs_diff(end_col(g), t) < p1.1 {
            (g.byte_idx + g.len, abs_diff(end_col(g), t))
        } else {
            p1
        }
    }
}

/// The byte position on a line nearest to column `t`; `cursor` on an empty
/// line.
pub open spec fn closest_pos(gs: Seq<InputGrapheme>, t: u16, cursor: int) -> int {
    if gs.len() == 0 {
        cursor
    } else {
        closest_scan(gs, gs.len(), t).0
    }
}

/// Where moving up from byte `cursor` lands.
pub open spec fn up_target(lines: Seq<LineView>, cursor: int) -> int {
    match cursor_2d_from(lines, 0, cursor) {
        Some(p) => if p.0 > 0 {
            closest_pos(lines[p.0 - 1].0, p.1, cursor)
        } else {
            0
        },
        None => cursor,
    }
}

/// Where moving down from byte `cursor` lands; `end` past the last line.
pub open spec fn down_target(lines: Seq<LineView>, cursor: int, end: int) -> int {
    match cursor_2d_from(lines, 0, cursor) {
        Some(p) => if p.0 < lines.len() - 1 {
            closest_pos(lines[p.0 + 1].0, p.1, cursor)
        } else {
            end
        },
        None => cursor,
    }
}

pub(crate) proof fn lemma_cursor_2d_range(lines: Seq<LineView>, i: int, b: int)
    requires
        0 <= i,
    ensures
        cursor_2d_from(lines, i, b) matches Some(p) ==> i <= p.0 < lines.len(),
    decreases lines.len() - i,
{
    if 0 <= i < lines.len() {
        lemma_cursor_2d_range(lines, i + 1, b);
    }
}

/// The nearest position is the start or the end of one of the graphemes.
proof fn lemma_closest_is_edge(gs: Seq<InputGrapheme>, n: nat, t: u16)
    requires
        0 < gs.len(),
        n <= gs.len(),
    ensures
        exists|k: int|
            0 <= k < gs.len() && (closest_scan(gs, n, t).0 == (#[trigger] gs[k]).byte_idx || closest_scan(gs, n, t).0
                == gs[k].byte_idx + gs[k].len),
    decreases n,
{
    if n == 0 {
        assert(closest_scan(gs, n, t).0 == gs[0].byte_idx);
    } else {
        lemma_closest_is_edge(gs, (n - 1) as nat, t);
        let g = gs[n - 1];
        assert(closest_scan(gs, n, t).0 == g.byte_idx || closest_scan(gs, n, t).0 == g.byte_idx + g.len
            || closest_scan(gs, n, t).0 == closest_scan(gs, (n - 1) as nat, t).0);
    }
}

/// The column of the first grapheme that starts at byte `b`.
fn col_of(gs: &Vec<InputGrapheme>, b: usize) -> (r: Option<u16>)
    ensures
        r == col_of_from(gs@, 0, b as int),
{
    let mut j: usize = 0;
    while j < gs.len()
        invariant
            j <= gs@.len(),
            col_of_from(gs@, 0, b as int) == col_of_from(gs@, j as int, b as int),
        decreases gs@.len() - j,
    {
        if gs[j].byte_idx == b {
            return Some(gs[j].screen_x);
        }
        j = j + 1;
    }
    None
}

/// The last grapheme of a nonempty line ends at byte `b`.
fn ends_at_exec(gs: &Vec<InputGrapheme>, b: usize) -> (r: bool)
    ensures
        r == ends_at(gs@, b as int),
{
    if gs.len() == 0 {
        return false;
    }
    let l = gs[gs.len() - 1];
    l.len <= b && l.byte_idx == b - l.len
}

fn end_col_exec(g: InputGrapheme) -> (c: u16)
    ensures
        c == end_col(g),
{
    g.screen_x.wrapping_add(g.width as u16)
}

fn abs_diff_exec(a: u16, t: u16) -> (d: u16)
    ensures
        d == abs_diff(a, t),
{
    if a >= t {
        a - t
    } else {
        t - a
    }
}

impl InputBoxState {
    /// The (line, column) of the cursor in the layout cache.
    fn find_cursor_2d(&self) -> (r: Option<(usize, u16)>)
        ensures
            match r {
                Some(p) => cursor_2d_from(lines_view(self.lines@), 0, self.cursor_pos as int) == Some(
                    (p.0 as int, p.1),
                ),
                None => cursor_2d_from(lines_view(self.lines@), 0, self.cursor_pos as int) is None,
            },
    {
        let ghost lv = lines_view(self.lines@);
        let mut i: usize = 0;
        while i < self.lines.len()
            invariant
                i <= self.lines@.len(),
                lv == lines_view(self.lines@),
                cursor_2d_from(lv, 0, self.cursor_pos as int) == cursor_2d_from(lv, i as int, self.cursor_pos as int),
            decreases self.lines@.len() - i,
        {
            let line = &self.lines[i];
            assert(lv[i as int].0 == line.graphemes@);
            match col_of(&line.graphemes, self.cursor_pos) {
                Some(x) => {
                    return Some((i, x));
                },
                None => {},
            }
            if line.graphemes.len() == 0 {
                return Some((i, 0));
            }
            if ends_at_exec(&line.graphemes, self.cursor_pos) {
                return Some((i, end_col_exec(line.graphemes[line.graphemes.len() - 1])));
            }
            i = i + 1;
        }
        None
    }

    /// The byte position on `line` nearest to column `target_x`.
    fn find_closest_pos(&self, line: &InputLine, target_x: u16) -> (r: usize)
        requires
            forall|k: int|
                0 <= k < line.graphemes@.len() ==> (#[trigger] line.graphemes@[k]).byte_idx + line.graphemes@[k].len
                    <= usize::MAX,
        ensures
            r == closest_pos(line.graphemes@, target_x, self.cursor_pos as int),
    {
        let gs = &line.graphemes;
        if gs.len() == 0 {
            return self.cursor_pos;
        }
        let mut closest: usize = gs[0].byte_idx;
        let mut min_diff: u16 = abs_diff_exec(gs[0].screen_x, target_x);
        let mut j: usize = 0;
        while j < gs.len()
            invariant
                0 < gs@.len(),
                j <= gs@.len(),
                gs@ == line.graphemes@,
                forall|k: int| 0 <= k < gs@.len() ==> (#[trigger] gs@[k]).byte_idx + gs@[k].len <= usize::MAX,
                closest_scan(gs@, j as nat, target_x) == (closest as int, min_diff as int),
            decreases gs@.len() - j,
        {
            let g = gs[j];
            let diff = abs_diff_exec(g.screen_x, target_x);
            if diff < min_diff {
                min_diff = diff;
                closest = g.byte_idx;
            }
            let end_diff = abs_diff_exec(end_col_exec(g), target_x);
            if end_diff < min_diff {
                min_diff = end_diff;
                closest = g.byte_idx + g.len;
            }
            j = j + 1;
        }
        closest
    }

    /// The cursor's (column, line) in the layout cache; (0, 0) when the
    /// cache does not hold it.
    pub fn cursor(&self) -> (r: (usize, usize))
        ensures
            r == match cursor_2d_from(lines_view(self.lines@), 0, self.cursor_pos as int) {
                Some(p) => (p.1 as usize, p.0 as usize),
                None => (0usize, 0usize),
            },
    {
        match self.find_cursor_2d() {
            Some((line_idx, col)) => (col as usize, line_idx),
            None => (0, 0),
        }
    }

    /// The column at which byte `byte_idx` is drawn in the layout cache.
    pub fn get_screen_x(&self, byte_idx: usize) -> (r: Option<u16>)
        ensures
            r == screen_x_from(lines_view(self.lines@), 0, byte_idx as int),
    {
        let ghost lv = lines_view(self.lines@);
        let mut i: usize = 0;
        while i < self.lines.len()
            invariant
                i <= self.lines@.len(),
                lv == lines_view(self.lines@),
                screen_x_from(lv, 0, byte_idx as int) == screen_x_from(lv, i as int, byte_idx as int),
            decreases self.lines@.len() - i,
        {
            let line = &self.lines[i];
            assert(lv[i as int].0 == line.graphemes@);
            match col_of(&line.graphemes, byte_idx) {
                Some(x) => {
                    return Some(x);
                },
                None => {},
            }
            if ends_at_exec(&line.graphemes, byte_idx) {
                return Some(end_col_exec(line.graphemes[line.graphemes.len() - 1]));
            }
            i = i + 1;
        }
        None
    }
}

/// The layout lines of a state's cache when it is valid.
pub open spec fn cached_layout(s: &InputBoxState) -> Seq<LineView> {
    layout_lines(s.text@, str_width(s.prompt@) as int, s.last_width as int)
}

impl InputBoxState {
    /// Refreshes a valid cache; after this, its lines are the layout of the
    /// text and every position on them is a character boundary.
    fn refresh_layout(&mut self)
        requires
            old(self).wf(),
            old(self).layout_ok(),
            old(self).last_width > 0,
            3 * (old(self).prompt@.len() + old(self).text@.len()) <= usize::MAX,
        ensures
            final(self).same_content(old(self)),
            final(self).wf(),
            final(self).layout_ok(),
            final(self).last_width == old(self).last_width,
            final(self).prompt@ == old(self).prompt@,
            lines_view(final(self).lines@) == cached_layout(old(self)),
            forall|l: int, k: int|
                0 <= l < final(self).lines@.len() && 0 <= k < final(self).lines@[l].graphemes@.len() ==> {
                    &&& is_boundary(final(self).text@, (#[trigger] final(self).lines@[l].graphemes@[k]).byte_idx as int)
                    &&& is_boundary(
                        final(self).text@,
                        final(self).lines@[l].graphemes@[k].byte_idx + final(self).lines@[l].graphemes@[k].len,
                    )
                },
    {
        let prompt = self.prompt.clone();
        self.ensure_layout(self.last_width, prompt.as_str());
        proof {
            assert(self.undo_entries() == old(self).undo_entries());
            assert(self.redo_entries() == old(self).redo_entries());
            let lv = lines_view(self.lines@);
            lemma_layout_boundaries(self.text@, str_width(self.prompt@) as int, self.last_width as int);
            assert forall|l: int, k: int|
                0 <= l < self.lines@.len() && 0 <= k < self.lines@[l].graphemes@.len() implies {
                    &&& is_boundary(self.text@, (#[trigger] self.lines@[l].graphemes@[k]).byte_idx as int)
                    &&& is_boundary(self.text@, self.lines@[l].graphemes@[k].byte_idx + self.lines@[l].graphemes@[k].len)
                } by {
                assert(lv[l].0 == self.lines@[l].graphemes@);
                assert(lv[l].0[k] == self.lines@[l].graphemes@[k]);
            }
        }
    }

    /// After `refresh_layout`: the nearest position on a line is a boundary.
    proof fn lemma_closest_boundary(&self, l: int, t: u16)
        requires
            self.wf(),
            0 <= l < self.lines@.len(),
            forall|l: int, k: int|
                0 <= l < self.lines@.len() && 0 <= k < self.lines@[l].graphemes@.len() ==> {
                    &&& is_boundary(self.text@, (#[trigger] self.lines@[l].graphemes@[k]).byte_idx as int)
                    &&& is_boundary(self.text@, self.lines@[l].graphemes@[k].byte_idx + self.lines@[l].graphemes@[k].len)
                },
        ensures
            is_boundary(self.text@, closest_pos(self.lines@[l].graphemes@, t, self.cursor_pos as int)),
            forall|k: int|
                0 <= k < self.lines@[l].graphemes@.len() ==> (#[trigger] self.lines@[l].graphemes@[k]).byte_idx
                    + self.lines@[l].graphemes@[k].len <= usize::MAX,
    {
        let gs = self.lines@[l].graphemes@;
        assert forall|k: int| 0 <= k < gs.len() implies (#[trigger] gs[k]).byte_idx + gs[k].len <= usize::MAX by {
            assert(is_boundary(self.text@, gs[k].byte_idx + gs[k].len));
            crate::input_box::lemma_boundary_facts(self.text@, gs[k].byte_idx + gs[k].len);
        }
        if gs.len() > 0 {
            lemma_closest_is_edge(gs, gs.len(), t);
        }
    }

    /// Moves the cursor to the nearest position on the line above, or to
    /// the start of the text from the first line (or without a layout),
    /// extending the selection or dropping it.
    pub fn move_cursor_up(&mut self, extend_selection: bool)
        requires
            old(self).wf(),
            old(self).layout_ok(),
            3 * (old(self).prompt@.len() + old(self).text@.len()) <= usize::MAX,
        ensures
            final(self).wf(),
            final(self).layout_ok(),
            line_moved(
                *old(self),
                *final(self),
                if old(self).last_width > 0 {
                    up_target(cached_layout(old(self)), old(self).cursor_pos as int)
                } else {
                    0
                },
                extend_selection,
            ),
    {
        let prev_pos = self.cursor_pos;
        if self.last_width > 0 {
            self.refresh_layout();
            match self.find_cursor_2d() {
                Some((line_idx, col)) => {
                    proof {
                        lemma_cursor_2d_range(lines_view(self.lines@), 0, self.cursor_pos as int);
                    }
                    if line_idx > 0 {
                        proof {
                            self.lemma_closest_boundary(line_idx - 1, col);
                        }
                        let pos = self.find_closest_pos(&self.lines[line_idx - 1], col);
                        self.cursor_pos = pos;
                    } else {
                        self.cursor_pos = 0;
                    }
                },
                None => {},
            }
        } else {
            self.cursor_pos = 0;
        }
        proof {
            lemma_boundary_zero_end(self.text@);
        }
        self.handle_selection_movement(prev_pos, extend_selection);
        proof {
            assert(self.undo_entries() == old(self).undo_entries());
            assert(self.redo_entries() == old(self).redo_entries());
        }
    }

    /// Moves the cursor to the nearest position on the line below, or to
    /// the end of the text from the last line (or without a layout),
    /// extending the selection or dropping it.
    pub fn move_cursor_down(&mut self, extend_selection: bool)
        requires
            old(self).wf(),
            old(self).layout_ok(),
            3 * (old(self).prompt@.len() + old(self).text@.len()) <= usize::MAX,
        ensures
            final(self).wf(),
            final(self).layout_ok(),
            line_moved(
                *old(self),
                *final(self),
                if old(self).last_width > 0 {
                    down_target(cached_layout(old(self)), old(self).cursor_pos as int, byte_len(old(self).text@) as int)
                } else {
                    byte_len(old(self).text@) as int
                },
                extend_selection,
            ),
    {
        let prev_pos = self.cursor_pos;
        let end = str_byte_len(self.text.as_str());
        if self.last_width > 0 {
            self.refresh_layout();
            match self.find_cursor_2d() {
                Some((line_idx, col)) => {
                    proof {
                        lemma_cursor_2d_range(lines_view(self.lines@), 0, self.cursor_pos as int);
                    }
                    if line_idx < self.lines.len() - 1 {
                        proof {
                            self.lemma_closest_boundary(line_idx + 1, col);
                        }
                        let pos = self.find_closest_pos(&self.lines[line_idx + 1], col);
                        self.cursor_pos = pos;
                    } else {
                        self.cursor_pos = end;
                    }
                },
                None => {},
            }
        } else {
            self.cursor_pos = end;
        }
        proof {
            lemma_boundary_zero_end(self.text@);
        }
        self.handle_selection_movement(prev_pos, extend_selection);
        proof {
            assert(self.undo_entries() == old(self).undo_entries());
            assert(self.redo_entries() == old(self).redo_entries());
        }
    }

    /// Puts the cursor at (line, column) of the layout: the nearest position
    /// on that line, or the end of the text past the last line.  Without a
    /// layout, (0, 0) is the start and anything else the end.
    pub fn set_cursor(&mut self, line: usize, col: usize)
        requires
            old(self).wf(),
            old(self).layout_ok(),
            3 * (old(self).prompt@.len() + old(self).text@.len()) <= usize::MAX,
        ensures
            final(self).wf(),
            final(self).layout_ok(),
            final(self).cursor_pos == (if old(self).last_width == 0 {
                if line == 0 && col == 0 {
                    0
                } else {
                    byte_len(old(self).text@) as int
                }
            } else if line >= cached_layout(old(self)).len() {
                byte_len(old(self).text@) as int
            } else {
                closest_pos(cached_layout(old(self))[line as int].0, col as u16, old(self).cursor_pos as int)
            }),
            final(self).selection == old(self).selection,
            final(self).text == old(self).text,
            final(self).clipboard == old(self).clipboard,
            final(self).undo_stack == old(self).undo_stack,
            final(self).redo_stack == old(self).redo_stack,
            final(self).mode == old(self).mode,
            final(self).scroll == old(self).scroll,
            final(self).last_width == old(self).last_width,
            final(self).prompt@ == old(self).prompt@,
            old(self).last_width > 0 ==> lines_view(final(self).lines@) == cached_layout(old(self)),
    {
        let end = str_byte_len(self.text.as_str());
        proof {
            lemma_boundary_zero_end(self.text@);
        }
        if self.last_width == 0 {
            if line == 0 && col == 0 {
                self.cursor_pos = 0;
            } else {
                self.cursor_pos = end;
            }
            assert(self.undo_entries() == old(self).undo_entries());
            assert(self.redo_entries() == old(self).redo_entries());
            return;
        }
        self.refresh_layout();
        if line >= self.lines.len() {
            self.cursor_pos = end;
            assert(self.undo_entries() == old(self).undo_entries());
            assert(self.redo_entries() == old(self).redo_entries());
            return;
        }
        proof {
            self.lemma_closest_boundary(line as int, col as u16);
            assert(lines_view(self.lines@)[line as int].0 == self.lines@[line as int].graphemes@);
        }
        let pos = self.find_closest_pos(&self.lines[line], col as u16);
        self.cursor_pos = pos;
        assert(self.undo_entries() == old(self).undo_entries());
        assert(self.redo_entries() == old(self).redo_entries());
    }
}

/// Bytes covered by some graphemes.
pub open spec fn graphemes_bytes(gs: Seq<InputGrapheme>) -> int
    decreases gs.len(),
{
    if gs.len() == 0 {
        0
    } else {
        graphemes_bytes(gs.drop_last()) + gs.last().len
    }
}

/// Byte offset at which line `n` starts: the bytes of the lines before it,
/// and one more for each newline that ended a hard line.
pub open spec fn line_start(lines: Seq<LineView>, n: int) -> int
    decreases n,
{
    if n <= 0 {
        0
    } else {
        line_start(lines, n - 1) + graphemes_bytes(lines[n - 1].0) + (if lines[n - 1].1 {
            0int
        } else {
            1int
        })
    }
}

/// Capped at the largest `usize`.
pub open spec fn capped(v: int) -> int {
    if v > usize::MAX {
        usize::MAX as int
    } else {
        v
    }
}

/// The start of the first grapheme, from index `k` on, that column `x`
/// falls on or before.
pub open spec fn hit_from(gs: Seq<InputGrapheme>, k: int, x: u16) -> Option<usize>
    decreases gs.len() - k,
{
    if k < 0 || k >= gs.len() {
        None
    } else if (x >= gs[k].screen_x && x < end_col(gs[k])) || x < gs[k].screen_x {
        Some(gs[k].byte_idx)
    } else {
        hit_from(gs, k + 1, x)
    }
}

/// The byte offset at screen cell (x, y) of the box scrolled by `scroll`
/// lines: on the line there (or the last line), the grapheme under or
/// after x, the end of the line past its last grapheme, or the start of
/// an empty line.  Sums are capped at the largest `usize`.
pub open spec fn hit(lines: Seq<LineView>, scroll: int, x: u16, y: u16) -> int {
    if lines.len() == 0 {
        0
    } else {
        let idx = if y + scroll < lines.len() - 1 {
            y + scroll
        } else {
            lines.len() - 1
        };
        let gs = lines[idx].0;
        if gs.len() == 0 {
            capped(line_start(lines, idx))
        } else {
            match hit_from(gs, 0, x) {
                Some(b) => b as int,
                None => capped(gs.last().byte_idx + gs.last().len),
            }
        }
    }
}

impl InputBoxState {
    /// The byte offset at cell (x, y) of the box's inner area.
    pub fn hit_test(&self, x: u16, y: u16, _prompt_width: u16) -> (r: usize)
        ensures
            r == hit(lines_view(self.lines@), self.scroll as int, x, y),
    {
        let ghost lv = lines_view(self.lines@);
        if self.lines.len() == 0 {
            return 0;
        }
        let line_idx = (y as usize).saturating_add(self.scroll);
        let line_idx = if line_idx < self.lines.len() - 1 {
            line_idx
        } else {
            self.lines.len() - 1
        };
        let line = &self.lines[line_idx];
        assert(lv[line_idx as int].0 == line.graphemes@);
        if line.graphemes.len() == 0 {
            let mut offset: usize = 0;
            let mut i: usize = 0;
            while i < line_idx
                invariant
                    i <= line_idx < self.lines@.len(),
                    lv == lines_view(self.lines@),
                    offset == capped(line_start(lv, i as int)),
                decreases line_idx - i,
            {
                let gs = &self.lines[i].graphemes;
                assert(lv[i as int].0 == gs@);
                let mut j: usize = 0;
                assert(gs@.take(0) =~= Seq::<InputGrapheme>::empty());
                while j < gs.len()
                    invariant
                        j <= gs@.len(),
                        offset == capped(line_start(lv, i as int) + graphemes_bytes(gs@.take(j as int))),
                    decreases gs@.len() - j,
                {
                    assert(gs@.take(j as int + 1).drop_last() =~= gs@.take(j as int));
                    offset = offset.saturating_add(gs[j].len);
                    j = j + 1;
                }
                assert(gs@.take(gs@.len() as int) =~= gs@);
                if !self.lines[i].is_soft_wrap {
                    offset = offset.saturating_add(1);
                }
                i = i + 1;
            }
            return offset;
        }
        let gs = &line.graphemes;
        let mut j: usize = 0;
        while j < gs.len()
            invariant
                j <= gs@.len(),
                0 < gs@.len(),
                lv == lines_view(self.lines@),
                0 <= line_idx < lv.len(),
                gs@ == lv[line_idx as int].0,
                line_idx as int == (if y + self.scroll < lv.len() - 1 {
                    y + self.scroll
                } else {
                    lv.len() - 1
                }),
                hit_from(gs@, 0, x) == hit_from(gs@, j as int, x),
            decreases gs@.len() - j,
        {
            let g = gs[j];
            if x >= g.screen_x && x < end_col_exec(g) {
                return g.byte_idx;
            }
            if x < g.screen_x {
                return g.byte_idx;
            }
            j = j + 1;
        }
        let last = gs[gs.len() - 1];
        last.byte_idx.saturating_add(last.len)
    }
}


/// An ASCII whitespace byte: space, tab, line feed, form feed or carriage
/// return.
pub open spec fn is_ascii_space(b: u8) -> bool {
    b == 0x20 || b == 0x09 || b == 0x0a || b == 0x0c || b == 0x0d
}

/// Scanning back from byte `i` of `b`, an `@` comes before any whitespace,
/// and that `@` starts a word: it is the first byte, or follows whitespace,
/// `(` or `[`.
pub open spec fn mention_before(b: Seq<u8>, i: int) -> bool
    decreases i,
{
    if i <= 0 || i > b.len() {
        false
    } else if b[i - 1] == 0x40 {
        i - 1 == 0 || is_ascii_space(b[i - 2]) || b[i - 2] == 0x28 || b[i - 2] == 0x5b
    } else if is_ascii_space(b[i - 1]) {
        false
    } else {
        mention_before(b, i - 1)
    }
}

fn ascii_space(b: u8) -> (r: bool)
    ensures
        r == is_ascii_space(b),
{
    b == 0x20 || b == 0x09 || b == 0x0a || b == 0x0c || b == 0x0d
}

/// Whether the text just before byte `pos` belongs to an `@` mention, so
/// that it is drawn as one.
pub fn is_mention_at(text: &str, pos: usize) -> (r: bool)
    requires
        pos <= vstd::utf8::encode_utf8(text@).len(),
    ensures
        r == mention_before(vstd::utf8::encode_utf8(text@), pos as int),
{
    if pos == 0 {
        return false;
    }
    let bytes = text.as_bytes();
    let ghost b = vstd::utf8::encode_utf8(text@);
    let mut i: usize = pos;
    while i > 0
        invariant
            i <= pos,
            bytes@ == b,
            b == vstd::utf8::encode_utf8(text@),
            pos <= b.len(),
            mention_before(b, pos as int) == mention_before(b, i as int),
        decreases i,
    {
        i = i - 1;
        if bytes[i] == 0x40 {
            return i == 0 || ascii_space(bytes[i - 1]) || bytes[i - 1] == 0x28 || bytes[i - 1] == 0x5b;
        }
        if ascii_space(bytes[i]) {
            return false;
        }
    }
    false
}


/// `b` is `a` with the cursor moved to `target` on another line (the
/// selection extended or dropped as `extend` says) and the text, its
/// history and the layout's width and prompt kept; with a width the
/// lines are those the text is laid out into.
pub open spec fn line_moved(a: InputBoxState, b: InputBoxState, target: int, extend: bool) -> bool {
    &&& b.cursor_pos == target
    &&& b.selection == moved_selection(a.selection, a.cursor_pos, b.cursor_pos, extend)
    &&& b.text == a.text
    &&& b.clipboard == a.clipboard
    &&& b.undo_stack == a.undo_stack
    &&& b.redo_stack == a.redo_stack
    &&& b.mode == a.mode
    &&& b.scroll == a.scroll
    &&& b.last_width == a.last_width
    &&& b.prompt@ == a.prompt@
    &&& a.last_width > 0 ==> lines_view(b.lines@) == cached_layout(&a)
}


/// `b` is `a` with its layout brought up to date for `width` columns
/// behind `prompt`: kept when the width and prompt are those of a filled
/// cache, else redone (one empty line at width zero).
pub open spec fn laid_out(a: InputBoxState, b: InputBoxState, width: u16, prompt: Seq<char>) -> bool {
    &&& b.same_content(&a)
    &&& if a.last_width == width && a.prompt@ == prompt && a.lines@.len() > 0 {
        &&& b.lines == a.lines
        &&& b.cursor_display_pos == a.cursor_display_pos
        &&& b.last_width == a.last_width
        &&& b.prompt == a.prompt
    } else {
        &&& b.last_width == width
        &&& b.prompt@ == prompt
        &&& width == 0 ==> lines_view(b.lines@) == seq![(Seq::<InputGrapheme>::empty(), false, 0u16)]
            && b.cursor_display_pos == a.cursor_display_pos
        &&& width > 0 ==> lines_view(b.lines@) == layout_lines(a.text@, str_width(prompt) as int, width as int)
            && b.cursor_display_pos == layout_cursor(a.text@, a.cursor_pos as int, str_width(prompt) as int, width as int)
    }
}

/// The rows the input box asks for: `lines` laid-out lines and
/// `frame_rows` rows of frame, the sum taken in 16 bits, at most
/// `max_height` and at least three.
pub open spec fn box_rows(lines: nat, frame_rows: int, max_height: u16) -> u16 {
    let sum = (lines % 0x10000 + frame_rows) % 0x10000;
    let capped = if sum < max_height { sum } else { max_height as int };
    if capped > 3 { capped as u16 } else { 3 }
}

/// The columns inside a frame of `frame` (columns, rows), if any.
pub open spec fn inner_width(width: u16, frame: Option<(u16, u16)>) -> u16 {
    match frame {
        Some(f) => if width >= f.0 { (width - f.0) as u16 } else { 0 },
        None => width,
    }
}

/// The rows a frame of `frame` (columns, rows) takes from a box a hundred
/// rows high.
pub open spec fn frame_rows(frame: Option<(u16, u16)>) -> int {
    match frame {
        Some(f) => if f.1 < 100 { f.1 as int } else { 100 },
        None => 0,
    }
}

/// The rows the input box takes at `width` columns, drawn behind `prompt`
/// inside a frame that takes `frame.0` columns and `frame.1` rows (no
/// frame when `None`): the text laid out at the width inside, plus the
/// frame's rows, at most `max_height` and at least three.  With no column
/// inside, three rows and nothing laid out.
pub fn input_box_height(
    state: &mut InputBoxState,
    prompt: &str,
    width: u16,
    frame: Option<(u16, u16)>,
    max_height: u16,
) -> (h: u16)
    requires
        byte_len(old(state).text@) <= usize::MAX,
        old(state).layout_ok(),
        3 * (prompt@.len() + old(state).text@.len()) <= usize::MAX,
    ensures
        final(state).layout_ok(),
        inner_width(width, frame) == 0 ==> *final(state) == *old(state) && h == 3,
        inner_width(width, frame) > 0 ==> {
            &&& laid_out(*old(state), *final(state), inner_width(width, frame), prompt@)
            &&& h == box_rows(final(state).lines@.len(), frame_rows(frame), max_height)
        },
{
    let inner = match frame {
        Some(f) => width.saturating_sub(f.0),
        None => width,
    };
    if inner == 0 {
        return 3;
    }
    state.ensure_layout(inner, prompt);
    let border: u16 = match frame {
        Some(f) => if f.1 < 100 { f.1 } else { 100 },
        None => 0,
    };
    let n = state.lines.len();
    let lines16: u16 = (n % 0x10000) as u16;
    let total: u32 = lines16 as u32 + border as u32;
    let sum: u16 = if total >= 0x10000 {
        (total - 0x10000) as u16
    } else {
        total as u16
    };
    assert(sum as int == (n % 0x10000 + frame_rows(frame)) % 0x10000);
    let capped = if sum < max_height { sum } else { max_height };
    if capped > 3 { capped } else { 3 }
}

} // verus!
