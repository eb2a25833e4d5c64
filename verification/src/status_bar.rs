//! The status bar's window list (which windows fit around the active
//! one) and the dot patterns of its Braille sparkline and of the
//! oscilloscope.
use crate::export::{dec, push_dec};
use crate::text::{push_all, str_chars, string_from_chars};
use crate::unicode::{display_width, str_width};
use vstd::prelude::*;

verus! {

broadcast use vstd::std_specs::vec::group_vec_axioms;

/// A window as the status bar lists it.
#[derive(Debug, Clone)]
pub struct StatusWindow {
    pub name: String,
    pub index: usize,
    pub unread: usize,
    pub is_active: bool,
}

/// `[index:name] `, how a window is labelled.
pub open spec fn window_label(w: StatusWindow) -> Seq<char> {
    seq!['['] + dec(w.index as nat) + seq![':'] + w.name@ + seq![']', ' ']
}

/// `(unread)`, the unread count shown beside a window.
pub open spec fn unread_label(w: StatusWindow) -> Seq<char> {
    seq!['('] + dec(w.unread as nat) + seq![')']
}

/// The columns a window takes in the list.
pub open spec fn window_width(w: StatusWindow) -> u16 {
    let base = str_width(window_label(w)) as u16;
    if w.unread > 0 {
        vstd::wrapping::u16_specs::wrapping_add(base, str_width(unread_label(w)) as u16)
    } else {
        base
    }
}

pub open spec fn window_widths(ws: Seq<StatusWindow>) -> Seq<u16> {
    ws.map_values(|w: StatusWindow| window_width(w))
}

/// The first active window, or the first window.
pub open spec fn active_from(ws: Seq<StatusWindow>, i: int) -> int
    decreases ws.len() - i,
{
    if i < 0 || i >= ws.len() {
        0
    } else if ws[i].is_active {
        i
    } else {
        active_from(ws, i + 1)
    }
}

/// Growing the shown range `l..=r` (using `cw` columns): one more window
/// on the right if it fits in `eff` columns, then one more on the left,
/// until neither fits.
pub open spec fn grow(w: Seq<u16>, l: int, r: int, cw: int, eff: int) -> (int, int)
    decreases w.len() - (r - l),
{
    if !(0 <= l <= r < w.len()) {
        (l, r)
    } else {
        let right = r + 1 < w.len() && cw + w[r + 1] <= eff;
        let r1 = if right {
            r + 1
        } else {
            r
        };
        let cw1 = if right {
            cw + w[r + 1]
        } else {
            cw
        };
        let left = l > 0 && cw1 + w[l - 1] <= eff;
        let l1 = if left {
            l - 1
        } else {
            l
        };
        let cw2 = if left {
            cw1 + w[l - 1]
        } else {
            cw1
        };
        if !right && !left {
            (l, r)
        } else {
            grow(w, l1, r1, cw2, eff)
        }
    }
}

/// The windows shown in a status bar `width` columns wide: the range
/// grown around the active window, four columns being kept for the
/// scroll arrows.
pub open spec fn window_range_spec(ws: Seq<StatusWindow>, width: u16) -> (int, int) {
    let a = active_from(ws, 0);
    let w = window_widths(ws);
    let eff = if width >= 4 {
        width - 4
    } else {
        0
    };
    grow(w, a, a, w[a] as int, eff)
}

/// The columns a window takes in the list.
fn window_width_exec(w: &StatusWindow) -> (r: u16)
    ensures
        r == window_width(*w),
{
    let mut label: Vec<char> = vec!['['];
    push_dec(&mut label, w.index as u64);
    label.push(':');
    let name = str_chars(w.name.as_str());
    push_all(&mut label, name.as_slice());
    label.push(']');
    label.push(' ');
    assert(label@ =~= window_label(*w));
    let base = display_width(string_from_chars(label.as_slice()).as_str()) as u16;
    if w.unread > 0 {
        let mut u: Vec<char> = vec!['('];
        push_dec(&mut u, w.unread as u64);
        u.push(')');
        assert(u@ =~= unread_label(*w));
        let extra = display_width(string_from_chars(u.as_slice()).as_str()) as u16;
        base.wrapping_add(extra)
    } else {
        base
    }
}

/// The range of windows (first, last) the status bar shows around the
/// active one.
pub fn window_list_range(windows: &[StatusWindow], width: u16) -> (r: (usize, usize))
    requires
        windows@.len() > 0,
    ensures
        (r.0 as int, r.1 as int) == window_range_spec(windows@, width),
        r.0 <= r.1 < windows@.len(),
{
    let mut widths: Vec<u16> = Vec::new();
    let mut i: usize = 0;
    while i < windows.len()
        invariant
            i <= windows@.len(),
            widths@ == window_widths(windows@).take(i as int),
        decreases windows@.len() - i,
    {
        widths.push(window_width_exec(&windows[i]));
        assert(widths@ =~= window_widths(windows@).take(i as int + 1));
        i = i + 1;
    }
    assert(widths@ =~= window_widths(windows@));
    let mut a: usize = 0;
    while a < windows.len() && !windows[a].is_active
        invariant
            a <= windows@.len(),
            active_from(windows@, 0) == active_from(windows@, a as int),
        decreases windows@.len() - a,
    {
        a = a + 1;
    }
    if a == windows.len() {
        a = 0;
    }
    let eff: u32 = width.saturating_sub(4) as u32;
    let mut cw: u32 = widths[a] as u32;
    let mut l: usize = a;
    let mut r: usize = a;
    loop
        invariant
            0 <= l <= r < widths@.len(),
            widths@ == window_widths(windows@),
            eff as int == (if width >= 4 {
                width - 4
            } else {
                0
            }),
            cw <= 0xffff || (l == a && r == a),
            cw <= 0x1_0000,
            window_range_spec(windows@, width) == grow(widths@, l as int, r as int, cw as int, eff as int),
        ensures
            (l as int, r as int) == window_range_spec(windows@, width),
            l <= r < windows@.len(),
        decreases widths@.len() - (r - l),
    {
        let right = r + 1 < widths.len() && cw + widths[r + 1] as u32 <= eff;
        let (r1, cw1) = if right {
            (r + 1, cw + widths[r + 1] as u32)
        } else {
            (r, cw)
        };
        let left = l > 0 && cw1 + widths[l - 1] as u32 <= eff;
        let (l1, cw2) = if left {
            (l - 1, cw1 + widths[l - 1] as u32)
        } else {
            (l, cw1)
        };
        if !right && !left {
            break;
        }
        l = l1;
        r = r1;
        cw = cw2;
    }
    (l, r)
}

/// The Braille dots (bit pattern) of a sparkline column `dots` high (of
/// four), in the left or right half of the character.
pub open spec fn braille_bits(dots: u8, is_right: bool) -> u8 {
    if is_right {
        ((if dots >= 1 { 0x80u8 } else { 0u8 }) | (if dots >= 2 { 0x20u8 } else { 0u8 }) | (if dots >= 3 {
            0x10u8
        } else {
            0u8
        }) | (if dots >= 4 { 0x08u8 } else { 0u8 }))
    } else {
        ((if dots >= 1 { 0x40u8 } else { 0u8 }) | (if dots >= 2 { 0x04u8 } else { 0u8 }) | (if dots >= 3 {
            0x02u8
        } else {
            0u8
        }) | (if dots >= 4 { 0x01u8 } else { 0u8 }))
    }
}

/// The Braille bit pattern of a sparkline column `dots` high, filled
/// from the bottom of the left or right half of the character.
pub fn braille_column_bits(dots: u8, is_right: bool) -> (r: u8)
    ensures
        r == braille_bits(dots, is_right),
{
    if is_right {
        (if dots >= 1 { 0x80u8 } else { 0u8 }) | (if dots >= 2 { 0x20u8 } else { 0u8 }) | (if dots >= 3 {
            0x10u8
        } else {
            0u8
        }) | (if dots >= 4 { 0x08u8 } else { 0u8 })
    } else {
        (if dots >= 1 { 0x40u8 } else { 0u8 }) | (if dots >= 2 { 0x04u8 } else { 0u8 }) | (if dots >= 3 {
            0x02u8
        } else {
            0u8
        }) | (if dots >= 4 { 0x01u8 } else { 0u8 })
    }
}

/// The Braille dot of sub-cell (dx, dy) of a character two dots wide
/// and four high.
pub open spec fn dot_bit(dx: int, dy: int) -> u8 {
    let x = dx % 2;
    let y = dy % 4;
    if x == 0 && y == 0 {
        0x01
    } else if x == 0 && y == 1 {
        0x02
    } else if x == 0 && y == 2 {
        0x04
    } else if x == 1 && y == 0 {
        0x08
    } else if x == 1 && y == 1 {
        0x10
    } else if x == 1 && y == 2 {
        0x20
    } else if x == 0 && y == 3 {
        0x40
    } else {
        0x80
    }
}

/// The Braille dot of a point at (dx, dy) in the dot grid.
pub fn get_dot_bit(dx: usize, dy: usize) -> (r: u8)
    ensures
        r == dot_bit(dx as int, dy as int),
{
    let x = dx % 2;
    let y = dy % 4;
    if x == 0 && y == 0 {
        0x01
    } else if x == 0 && y == 1 {
        0x02
    } else if x == 0 && y == 2 {
        0x04
    } else if x == 1 && y == 0 {
        0x08
    } else if x == 1 && y == 1 {
        0x10
    } else if x == 1 && y == 2 {
        0x20
    } else if x == 0 && y == 3 {
        0x40
    } else {
        0x80
    }
}

} // verus!
