//! The SVG text of an exported buffer.
use crate::export::{
    class_name, dec, dec_signed, push_dec, push_dec_signed, xml_escaped, BgRect, CharCategory, FgRun,
    run_view, runs_view, RunView, chars_view, layers_view,
};
use crate::unicode::{display_width, grapheme_clusters, graphemes, str_width, strings_chars};
use crate::text::{push_all, str_chars, string_from_chars};
use vstd::prelude::*;

verus! {

broadcast use vstd::std_specs::vec::group_vec_axioms;

/// Appends the characters of `s`.
fn push_str(out: &mut Vec<char>, s: &str)
    ensures
        final(out)@ == old(out)@ + s@,
{
    let c = str_chars(s);
    push_all(out, c.as_slice());
}

/// The style sheet: fixed rules, then one fill class per palette colour.
pub open spec fn style_rules(p: Seq<Seq<char>>, n: nat) -> Seq<char>
    decreases n,
{
    if n == 0 {
        seq![]
    } else {
        style_rules(p, (n - 1) as nat) + "."@ + class_name((n - 1) as nat) + "{fill:"@ + p[n - 1] + "}"@
    }
}

pub open spec fn style_spec(p: Seq<Seq<char>>) -> Seq<char> {
    "<style>"@ + "rect,path{shape-rendering:crispEdges}"@ + "text{white-space:pre;dominant-baseline:central}"@
        + ".n{font-size:1.66px;font-family:'DejaVu Sans Mono',monospace}"@
        + ".b{font-size:2.0px;font-family:'DejaVu Sans Mono',monospace}"@
        + ".e{font-size:2.0px;font-family:'Noto Color Emoji','DejaVu Sans Mono',monospace}"@ + style_rules(
        p,
        p.len(),
    ) + "</style>"@
}

/// The style sheet of the palette.
pub fn render_svg_style(palette: &Vec<Vec<char>>) -> (r: Vec<char>)
    ensures
        r@ == style_spec(chars_view(palette@)),
{
    let ghost pv = chars_view(palette@);
    let mut s: Vec<char> = Vec::new();
    push_str(&mut s, "<style>");
    push_str(&mut s, "rect,path{shape-rendering:crispEdges}");
    push_str(&mut s, "text{white-space:pre;dominant-baseline:central}");
    push_str(&mut s, ".n{font-size:1.66px;font-family:'DejaVu Sans Mono',monospace}");
    push_str(&mut s, ".b{font-size:2.0px;font-family:'DejaVu Sans Mono',monospace}");
    push_str(&mut s, ".e{font-size:2.0px;font-family:'Noto Color Emoji','DejaVu Sans Mono',monospace}");
    let ghost head = s@;
    let mut i: usize = 0;
    assert(s@ =~= head + style_rules(pv, 0));
    while i < palette.len()
        invariant
            i <= palette@.len(),
            pv == chars_view(palette@),
            s@ == head + style_rules(pv, i as nat),
        decreases palette@.len() - i,
    {
        push_str(&mut s, ".");
        let cls = crate::export::to_base36(i);
        push_str(&mut s, cls.as_str());
        push_str(&mut s, "{fill:");
        push_all(&mut s, palette[i].as_slice());
        push_str(&mut s, "}");
        assert(pv[i as int] == palette@[i as int]@);
        assert(s@ =~= head + style_rules(pv, (i + 1) as nat));
        i = i + 1;
    }
    push_str(&mut s, "</style>");
    assert(s@ =~= style_spec(pv));
    s
}

/// The path command of one rectangle (rows are two units high): an
/// absolute move for the first, a move relative to the previous corner
/// after that.
pub open spec fn rect_cmd(r: BgRect, prev: Option<BgRect>) -> Seq<char> {
    let body = "h"@ + dec(r.w as nat) + "v"@ + dec((2 * r.h) as nat) + "h-"@ + dec(r.w as nat) + "z"@;
    match prev {
        None => "M"@ + dec(r.x as nat) + " "@ + dec((2 * r.y) as nat) + body,
        Some(q) => "m"@ + dec_signed(r.x - q.x) + " "@ + dec_signed(2 * r.y - 2 * q.y) + body,
    }
}

pub open spec fn path_d(rs: Seq<BgRect>, n: nat) -> Seq<char>
    decreases n,
{
    if n == 0 {
        seq![]
    } else {
        path_d(rs, (n - 1) as nat) + rect_cmd(
            rs[n - 1],
            if n == 1 {
                None
            } else {
                Some(rs[n - 2])
            },
        )
    }
}

/// The layers as paths, one per palette colour.
pub open spec fn layers_svg(ls: Seq<(usize, Seq<BgRect>)>, n: nat) -> Seq<char>
    decreases n,
{
    if n == 0 {
        seq![]
    } else {
        let l = ls[n - 1];
        layers_svg(ls, (n - 1) as nat) + "<path class=\""@ + class_name(l.0 as nat) + "\" d=\""@ + path_d(
            l.1,
            l.1.len(),
        ) + "\"/>"@
    }
}

/// The backgrounds: a black canvas, then the layers.
pub open spec fn backgrounds_spec(width: u16, height: u16, ls: Seq<(usize, Seq<BgRect>)>) -> Seq<char> {
    "<rect width=\""@ + dec(width as nat) + "\" height=\""@ + dec((2 * height) as nat) + "\" fill=\"#000\"/>"@
        + layers_svg(ls, ls.len())
}

/// Rectangles whose doubled rows still fit a `u16`.
pub open spec fn rects_fit(ls: Seq<(usize, Seq<BgRect>)>) -> bool {
    forall|i: int, k: int|
        0 <= i < ls.len() && 0 <= k < ls[i].1.len() ==> 2 * (#[trigger] ls[i].1[k]).y <= u16::MAX && 2 * ls[i].1[k].h
            <= u16::MAX
}

fn rect_cmd_exec(out: &mut Vec<char>, r: BgRect, prev: Option<BgRect>)
    requires
        2 * r.y <= u16::MAX,
        2 * r.h <= u16::MAX,
        prev matches Some(q) ==> 2 * q.y <= u16::MAX,
    ensures
        final(out)@ == old(out)@ + rect_cmd(r, prev),
{
    match prev {
        None => {
            push_str(out, "M");
            push_dec(out, r.x as u64);
            push_str(out, " ");
            push_dec(out, (r.y * 2) as u64);
        },
        Some(q) => {
            push_str(out, "m");
            push_dec_signed(out, (r.x as i32 - q.x as i32) as i64);
            push_str(out, " ");
            push_dec_signed(out, ((r.y * 2) as i32 - (q.y * 2) as i32) as i64);
        },
    }
    push_str(out, "h");
    push_dec(out, r.w as u64);
    push_str(out, "v");
    push_dec(out, (r.h * 2) as u64);
    push_str(out, "h-");
    push_dec(out, r.w as u64);
    push_str(out, "z");
    assert(final(out)@ =~= old(out)@ + rect_cmd(r, prev));
}

/// The SVG of the background layers.
pub fn render_svg_backgrounds(width: u16, height: u16, layers: &Vec<(usize, Vec<BgRect>)>) -> (r: Vec<char>)
    requires
        2 * height <= u16::MAX,
        rects_fit(layers_view(layers@)),
    ensures
        r@ == backgrounds_spec(width, height, layers_view(layers@)),
{
    let ghost lv = layers_view(layers@);
    let mut s: Vec<char> = Vec::new();
    push_str(&mut s, "<rect width=\"");
    push_dec(&mut s, width as u64);
    push_str(&mut s, "\" height=\"");
    push_dec(&mut s, (height * 2) as u64);
    push_str(&mut s, "\" fill=\"#000\"/>");
    let ghost head = s@;
    let mut i: usize = 0;
    assert(s@ =~= head + layers_svg(lv, 0));
    while i < layers.len()
        invariant
            i <= layers@.len(),
            lv == layers_view(layers@),
            rects_fit(lv),
            s@ == head + layers_svg(lv, i as nat),
        decreases layers@.len() - i,
    {
        let (idx, rects) = (&layers[i].0, &layers[i].1);
        assert(lv[i as int] == (*idx, rects@));
        let mut d: Vec<char> = Vec::new();
        let mut k: usize = 0;
        assert(d@ =~= path_d(rects@, 0));
        while k < rects.len()
            invariant
                k <= rects@.len(),
                lv == layers_view(layers@),
                rects_fit(lv),
                i < lv.len(),
                lv[i as int].1 == rects@,
                d@ == path_d(rects@, k as nat),
            decreases rects@.len() - k,
        {
            assert(2 * lv[i as int].1[k as int].y <= u16::MAX && 2 * lv[i as int].1[k as int].h <= u16::MAX);
            let prev = if k == 0 {
                None
            } else {
                assert(2 * lv[i as int].1[k - 1].y <= u16::MAX);
                Some(rects[k - 1])
            };
            rect_cmd_exec(&mut d, rects[k], prev);
            k = k + 1;
        }
        push_str(&mut s, "<path class=\"");
        let cls = crate::export::to_base36(*idx);
        push_str(&mut s, cls.as_str());
        push_str(&mut s, "\" d=\"");
        push_all(&mut s, d.as_slice());
        push_str(&mut s, "\"/>");
        assert(s@ =~= head + layers_svg(lv, (i + 1) as nat));
        i = i + 1;
    }
    assert(s@ =~= backgrounds_spec(width, height, lv));
    s
}

pub open spec fn suffix(c: CharCategory) -> Seq<char> {
    match c {
        CharCategory::Normal => seq!['n'],
        CharCategory::Block => seq!['b'],
        CharCategory::Emoji => seq!['e'],
    }
}

/// The columns of the first `n` clusters of a run starting at `x0`, each
/// at least one column wide, separated by spaces; and the column after.
pub open spec fn x_positions(gs: Seq<Seq<char>>, n: nat, x0: u16) -> (Seq<char>, u16)
    decreases n,
{
    if n == 0 {
        (seq![], x0)
    } else {
        let p = x_positions(gs, (n - 1) as nat, x0);
        let sep = if n == 1 {
            Seq::<char>::empty()
        } else {
            seq![' ']
        };
        let w = str_width(gs[n - 1]);
        let step = (if w >= 1 {
            w
        } else {
            1
        }) as u16;
        (p.0 + sep + dec(p.1 as nat), vstd::wrapping::u16_specs::wrapping_add(p.1, step))
    }
}

/// A run as a `tspan`: the column of each of its clusters, its classes
/// and its escaped text.
pub open spec fn tspan(r: RunView) -> Seq<char> {
    let gs = grapheme_clusters(r.3);
    "<tspan x=\""@ + x_positions(gs, gs.len(), r.0 as u16).0 + "\" class=\""@ + class_name(r.2 as nat) + seq![' ']
        + suffix(r.5) + "\">"@ + xml_escaped(r.3) + "</tspan>"@
}

/// `s` (sorted, without repeats) with `y` added in its place.
pub open spec fn ins_unique(s: Seq<int>, y: int) -> Seq<int>
    decreases s.len(),
{
    if s.len() == 0 {
        seq![y]
    } else if s.last() < y {
        s.push(y)
    } else if s.last() == y {
        s
    } else {
        ins_unique(s.drop_last(), y).push(s.last())
    }
}

/// The rows of the first `n` runs, ascending, each once.
pub open spec fn row_keys(rs: Seq<RunView>, n: nat) -> Seq<int>
    decreases n,
{
    if n == 0 {
        seq![]
    } else {
        ins_unique(row_keys(rs, (n - 1) as nat), rs[n - 1].1)
    }
}

/// `s` (sorted by column) with `e` added after every run not right of it.
pub open spec fn ins_by_x(s: Seq<RunView>, e: RunView) -> Seq<RunView>
    decreases s.len(),
{
    if s.len() == 0 {
        seq![e]
    } else if s.last().0 <= e.0 {
        s.push(e)
    } else {
        ins_by_x(s.drop_last(), e).push(s.last())
    }
}

/// The runs of row `y` among the first `n`, stably sorted by column.
pub open spec fn row_runs(rs: Seq<RunView>, y: int, n: nat) -> Seq<RunView>
    decreases n,
{
    if n == 0 {
        seq![]
    } else {
        let p = row_runs(rs, y, (n - 1) as nat);
        if rs[n - 1].1 == y {
            ins_by_x(p, rs[n - 1])
        } else {
            p
        }
    }
}

pub open spec fn tspans(rs: Seq<RunView>, n: nat) -> Seq<char>
    decreases n,
{
    if n == 0 {
        seq![]
    } else {
        tspans(rs, (n - 1) as nat) + tspan(rs[n - 1])
    }
}

/// One `text` element per row (rows are two units high, text centred).
pub open spec fn text_rows(rs: Seq<RunView>, ys: Seq<int>, n: nat) -> Seq<char>
    decreases n,
{
    if n == 0 {
        seq![]
    } else {
        let y = ys[n - 1];
        let row = row_runs(rs, y, rs.len());
        text_rows(rs, ys, (n - 1) as nat) + "<text x=\"0\" y=\""@ + dec((2 * y + 1) as nat)
            + "\" text-anchor=\"start\">"@ + tspans(row, row.len()) + "</text>"@
    }
}

pub open spec fn foregrounds_spec(rs: Seq<RunView>) -> Seq<char> {
    let ys = row_keys(rs, rs.len());
    text_rows(rs, ys, ys.len())
}

proof fn lemma_ins_unique_split(s: Seq<int>, y: int, j: int)
    requires
        0 <= j < s.len(),
        s[j] > y,
    ensures
        ins_unique(s.take(j + 1), y) == ins_unique(s.take(j), y).push(s[j]),
{
    assert(s.take(j + 1).drop_last() =~= s.take(j));
}

pub open spec fn keys_view(v: Seq<u16>) -> Seq<int> {
    v.map_values(|k: u16| k as int)
}

/// Adds `y` to the sorted rows, once.
fn insert_key(v: &mut Vec<u16>, y: u16)
    ensures
        keys_view(final(v)@) == ins_unique(keys_view(old(v)@), y as int),
{
    let ghost s = keys_view(v@);
    let mut pos: usize = v.len();
    assert(s.take(pos as int) =~= s);
    assert(s.skip(pos as int) =~= Seq::<int>::empty());
    while pos > 0 && v[pos - 1] > y
        invariant
            pos <= s.len(),
            keys_view(v@) == s,
            ins_unique(s, y as int) == ins_unique(s.take(pos as int), y as int) + s.skip(pos as int),
        decreases pos,
    {
        proof {
            assert(s[pos - 1] == v@[pos - 1] as int);
            lemma_ins_unique_split(s, y as int, pos - 1);
            assert(s.skip(pos - 1) =~= seq![s[pos - 1]] + s.skip(pos as int));
            assert(ins_unique(s.take(pos - 1), y as int).push(s[pos - 1]) + s.skip(pos as int) =~= ins_unique(
                s.take(pos - 1),
                y as int,
            ) + s.skip(pos - 1));
        }
        pos = pos - 1;
    }
    if pos > 0 && v[pos - 1] == y {
        assert(s[pos - 1] == v@[pos - 1] as int);
        assert(s.take(pos as int).last() == y);
        assert(s.take(pos as int) + s.skip(pos as int) =~= s);
        return;
    }
    proof {
        if pos > 0 {
            assert(s[pos - 1] == v@[pos - 1] as int);
            assert(s.take(pos as int).last() < y);
        } else {
            assert(s.take(0) =~= Seq::<int>::empty());
        }
    }
    v.insert(pos, y);
    assert(keys_view(v@) =~= s.take(pos as int).push(y as int) + s.skip(pos as int));
}

proof fn lemma_ins_by_x_split(s: Seq<RunView>, e: RunView, j: int)
    requires
        0 <= j < s.len(),
        s[j].0 > e.0,
    ensures
        ins_by_x(s.take(j + 1), e) == ins_by_x(s.take(j), e).push(s[j]),
{
    assert(s.take(j + 1).drop_last() =~= s.take(j));
}

pub open spec fn picked(rs: Seq<RunView>, idx: Seq<usize>) -> Seq<RunView> {
    idx.map_values(|i: usize| rs[i as int])
}

/// Adds run `ei` to the indices `v`, kept stably sorted by column.
fn insert_by_x(v: &mut Vec<usize>, runs: &[FgRun], ei: usize)
    requires
        ei < runs@.len(),
        forall|k: int| 0 <= k < old(v)@.len() ==> (#[trigger] old(v)@[k]) < runs@.len(),
    ensures
        picked(runs_view(runs@), final(v)@) == ins_by_x(picked(runs_view(runs@), old(v)@), run_view(runs@[ei as int])),
        forall|k: int| 0 <= k < final(v)@.len() ==> (#[trigger] final(v)@[k]) < runs@.len(),
{
    let ghost rv = runs_view(runs@);
    let ghost s = picked(rv, v@);
    let ghost e = run_view(runs@[ei as int]);
    let ex = runs[ei].x;
    let mut pos: usize = v.len();
    assert(s.take(pos as int) =~= s);
    assert(s.skip(pos as int) =~= Seq::<RunView>::empty());
    while pos > 0 && runs[v[pos - 1]].x > ex
        invariant
            pos <= s.len(),
            rv == runs_view(runs@),
            s == picked(rv, v@),
            forall|k: int| 0 <= k < v@.len() ==> (#[trigger] v@[k]) < runs@.len(),
            e == run_view(runs@[ei as int]),
            ex == e.0,
            ins_by_x(s, e) == ins_by_x(s.take(pos as int), e) + s.skip(pos as int),
        decreases pos,
    {
        proof {
            assert(s[pos - 1] == rv[v@[pos - 1] as int]);
            lemma_ins_by_x_split(s, e, pos - 1);
            assert(s.skip(pos - 1) =~= seq![s[pos - 1]] + s.skip(pos as int));
            assert(ins_by_x(s.take(pos - 1), e).push(s[pos - 1]) + s.skip(pos as int) =~= ins_by_x(
                s.take(pos - 1),
                e,
            ) + s.skip(pos - 1));
        }
        pos = pos - 1;
    }
    proof {
        if pos > 0 {
            assert(s[pos - 1] == rv[v@[pos - 1] as int]);
            assert(s.take(pos as int).last().0 <= e.0);
        } else {
            assert(s.take(0) =~= Seq::<RunView>::empty());
        }
    }
    v.insert(pos, ei);
    assert(picked(rv, v@) =~= s.take(pos as int).push(e) + s.skip(pos as int));
}

/// Appends the `tspan` of a run.
fn push_tspan(out: &mut Vec<char>, r: &FgRun)
    ensures
        final(out)@ == old(out)@ + tspan(run_view(*r)),
{
    let gs = graphemes(r.text.as_str());
    let ghost cv = strings_chars(gs@);
    let mut xl: Vec<char> = Vec::new();
    let mut cx: u16 = r.x;
    let mut i: usize = 0;
    while i < gs.len()
        invariant
            i <= gs@.len(),
            cv == strings_chars(gs@),
            (xl@, cx) == x_positions(cv, i as nat, r.x),
        decreases gs@.len() - i,
    {
        if i > 0 {
            xl.push(' ');
        }
        push_dec(&mut xl, cx as u64);
        let g = gs[i].as_str();
        assert(cv[i as int] == g@);
        let w = display_width(g);
        let step = (if w >= 1 {
            w
        } else {
            1
        }) as u16;
        cx = cx.wrapping_add(step);
        assert(xl@ =~= x_positions(cv, i as nat, r.x).0 + (if i == 0 {
            Seq::<char>::empty()
        } else {
            seq![' ']
        }) + dec(x_positions(cv, i as nat, r.x).1 as nat));
        i = i + 1;
    }
    push_str(out, "<tspan x=\"");
    push_all(out, xl.as_slice());
    push_str(out, "\" class=\"");
    let cls = crate::export::to_base36(r.color_idx);
    push_str(out, cls.as_str());
    out.push(' ');
    match r.category {
        CharCategory::Normal => out.push('n'),
        CharCategory::Block => out.push('b'),
        CharCategory::Emoji => out.push('e'),
    }
    push_str(out, "\">");
    let esc = crate::export::escape_xml(r.text.as_str());
    push_str(out, esc.as_str());
    push_str(out, "</tspan>");
    assert(final(out)@ =~= old(out)@ + tspan(run_view(*r)));
}

/// Runs whose doubled row still fits a `u16`.
pub open spec fn runs_fit(rs: Seq<RunView>) -> bool {
    forall|i: int| 0 <= i < rs.len() ==> 2 * (#[trigger] rs[i]).1 + 1 <= u16::MAX
}

/// The SVG of the foreground runs: a `text` per row, top to bottom, its
/// runs left to right.
pub fn render_svg_foregrounds(runs: &[FgRun]) -> (r: Vec<char>)
    requires
        runs_fit(runs_view(runs@)),
    ensures
        r@ == foregrounds_spec(runs_view(runs@)),
{
    let ghost rv = runs_view(runs@);
    let mut ys: Vec<u16> = Vec::new();
    let mut i: usize = 0;
    assert(keys_view(ys@) =~= Seq::<int>::empty());
    while i < runs.len()
        invariant
            i <= runs@.len(),
            rv == runs_view(runs@),
            keys_view(ys@) == row_keys(rv, i as nat),
        decreases runs@.len() - i,
    {
        assert(rv[i as int].1 == runs@[i as int].y as int);
        insert_key(&mut ys, runs[i].y);
        i = i + 1;
    }
    let ghost keys = keys_view(ys@);
    let mut s: Vec<char> = Vec::new();
    let mut k: usize = 0;
    assert(s@ =~= text_rows(rv, keys, 0));
    while k < ys.len()
        invariant
            k <= ys@.len(),
            rv == runs_view(runs@),
            keys == keys_view(ys@),
            keys == row_keys(rv, rv.len()),
            s@ == text_rows(rv, keys, k as nat),
        decreases ys@.len() - k,
    {
        let y = ys[k];
        assert(keys[k as int] == y as int);
        let mut idx: Vec<usize> = Vec::new();
        let mut j: usize = 0;
        assert(picked(rv, idx@) =~= row_runs(rv, y as int, 0));
        while j < runs.len()
            invariant
                j <= runs@.len(),
                rv == runs_view(runs@),
                picked(rv, idx@) == row_runs(rv, y as int, j as nat),
                forall|q: int| 0 <= q < idx@.len() ==> (#[trigger] idx@[q]) < runs@.len(),
            decreases runs@.len() - j,
        {
            assert(rv[j as int] == run_view(runs@[j as int]));
            if runs[j].y == y {
                insert_by_x(&mut idx, runs, j);
            }
            j = j + 1;
        }
        let ghost row = row_runs(rv, y as int, rv.len());
        push_str(&mut s, "<text x=\"0\" y=\"");
        push_dec(&mut s, (y as u64) * 2 + 1);
        push_str(&mut s, "\" text-anchor=\"start\">");
        let ghost head = s@;
        let mut q: usize = 0;
        assert(s@ =~= head + tspans(row, 0));
        while q < idx.len()
            invariant
                q <= idx@.len(),
                rv == runs_view(runs@),
                row == picked(rv, idx@),
                forall|t: int| 0 <= t < idx@.len() ==> (#[trigger] idx@[t]) < runs@.len(),
                s@ == head + tspans(row, q as nat),
            decreases idx@.len() - q,
        {
            assert(row[q as int] == run_view(runs@[idx@[q as int] as int]));
            push_tspan(&mut s, &runs[idx[q]]);
            assert(s@ =~= head + tspans(row, (q + 1) as nat));
            q = q + 1;
        }
        push_str(&mut s, "</text>");
        assert(s@ =~= text_rows(rv, keys, (k + 1) as nat));
        k = k + 1;
    }
    s
}

/// The whole SVG: a canvas of `width` by `height` cells drawn ten by
/// twenty pixels, its style sheet, background layers and text.
pub open spec fn svg_spec(
    width: u16,
    height: u16,
    p: Seq<Seq<char>>,
    ls: Seq<(usize, Seq<BgRect>)>,
    rs: Seq<RunView>,
) -> Seq<char> {
    "<svg width=\""@ + dec((10 * width) as nat) + "\" height=\""@ + dec((20 * height) as nat) + "\" viewBox=\"0 0 "@
        + dec(width as nat) + " "@ + dec((2 * height) as nat) + "\" xmlns=\"http://www.w3.org/2000/svg\">"@
        + style_spec(p) + backgrounds_spec(width, height, ls) + foregrounds_spec(rs) + "</svg>"@
}

/// The SVG text of a canvas with its palette, layers and runs.
pub fn render_svg(
    width: u16,
    height: u16,
    palette: &Vec<Vec<char>>,
    layers: &Vec<(usize, Vec<BgRect>)>,
    runs: &[FgRun],
) -> (r: String)
    requires
        10 * width <= u16::MAX,
        20 * height <= u16::MAX,
        rects_fit(layers_view(layers@)),
        runs_fit(runs_view(runs@)),
    ensures
        r@ == svg_spec(width, height, chars_view(palette@), layers_view(layers@), runs_view(runs@)),
{
    let mut s: Vec<char> = Vec::new();
    push_str(&mut s, "<svg width=\"");
    push_dec(&mut s, (width * 10) as u64);
    push_str(&mut s, "\" height=\"");
    push_dec(&mut s, (height * 20) as u64);
    push_str(&mut s, "\" viewBox=\"0 0 ");
    push_dec(&mut s, width as u64);
    push_str(&mut s, " ");
    push_dec(&mut s, (height * 2) as u64);
    push_str(&mut s, "\" xmlns=\"http://www.w3.org/2000/svg\">");
    let st = render_svg_style(palette);
    push_all(&mut s, st.as_slice());
    let bg = render_svg_backgrounds(width, height, layers);
    push_all(&mut s, bg.as_slice());
    let fg = render_svg_foregrounds(runs);
    push_all(&mut s, fg.as_slice());
    push_str(&mut s, "</svg>");
    assert(s@ =~= svg_spec(width, height, chars_view(palette@), layers_view(layers@), runs_view(runs@)));
    string_from_chars(s.as_slice())
}

} // verus!
