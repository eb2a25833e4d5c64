//! Export of a terminal buffer as SVG: colours as hex strings, a palette
//! of the colours in use, background layers cut into rectangles, runs of
//! foreground text, and the SVG text itself.
use crate::text::{char_is_whitespace, push_all, str_chars, string_from_chars};
use crate::unicode::{display_width, str_width};
use vstd::prelude::*;

verus! {

broadcast use vstd::std_specs::vec::group_vec_axioms;

/// A terminal colour: the sixteen named ANSI colours, the terminal's
/// default (`Reset`), a 24-bit colour or an entry of the 256-colour table.
#[derive(Debug, Clone, Copy, PartialEq, Eq, Structural)]
pub enum Color {
    Reset,
    Black,
    Red,
    Green,
    Yellow,
    Blue,
    Magenta,
    Cyan,
    Gray,
    DarkGray,
    LightRed,
    LightGreen,
    LightYellow,
    LightBlue,
    LightMagenta,
    LightCyan,
    White,
    Rgb(u8, u8, u8),
    Indexed(u8),
}

/// The (r, g, b) of the sixteen ANSI colours, in table order.
pub open spec fn ansi16(i: int) -> (u8, u8, u8) {
    if i == 0 {
        (0x00, 0x00, 0x00)
    } else if i == 1 {
        (0xaa, 0x00, 0x00)
    } else if i == 2 {
        (0x00, 0xaa, 0x00)
    } else if i == 3 {
        (0xaa, 0x55, 0x00)
    } else if i == 4 {
        (0x00, 0x00, 0xaa)
    } else if i == 5 {
        (0xaa, 0x00, 0xaa)
    } else if i == 6 {
        (0x00, 0xaa, 0xaa)
    } else if i == 7 {
        (0xaa, 0xaa, 0xaa)
    } else if i == 8 {
        (0x55, 0x55, 0x55)
    } else if i == 9 {
        (0xff, 0x55, 0x55)
    } else if i == 10 {
        (0x55, 0xff, 0x55)
    } else if i == 11 {
        (0xff, 0xff, 0x55)
    } else if i == 12 {
        (0x55, 0x55, 0xff)
    } else if i == 13 {
        (0xff, 0x55, 0xff)
    } else if i == 14 {
        (0x55, 0xff, 0xff)
    } else {
        (0xff, 0xff, 0xff)
    }
}

/// A level of the 6x6x6 colour cube.
pub open spec fn cube_level(v: int) -> u8 {
    if v == 0 {
        0
    } else {
        (v * 40 + 55) as u8
    }
}

/// The (r, g, b) a colour is drawn with; `None` for the default colour.
pub open spec fn color_rgb(c: Color) -> Option<(u8, u8, u8)> {
    match c {
        Color::Reset => None,
        Color::Black => Some(ansi16(0)),
        Color::Red => Some(ansi16(1)),
        Color::Green => Some(ansi16(2)),
        Color::Yellow => Some(ansi16(3)),
        Color::Blue => Some(ansi16(4)),
        Color::Magenta => Some(ansi16(5)),
        Color::Cyan => Some(ansi16(6)),
        Color::Gray => Some(ansi16(7)),
        Color::DarkGray => Some(ansi16(8)),
        Color::LightRed => Some(ansi16(9)),
        Color::LightGreen => Some(ansi16(10)),
        Color::LightYellow => Some(ansi16(11)),
        Color::LightBlue => Some(ansi16(12)),
        Color::LightMagenta => Some(ansi16(13)),
        Color::LightCyan => Some(ansi16(14)),
        Color::White => Some(ansi16(15)),
        Color::Rgb(r, g, b) => Some((r, g, b)),
        Color::Indexed(i) => if i < 16 {
            Some(ansi16(i as int))
        } else if i < 232 {
            let j = i - 16;
            Some((cube_level(((j / 36) % 6) as int), cube_level(((j / 6) % 6) as int), cube_level((j % 6) as int)))
        } else {
            let v = ((i - 232) * 10 + 8) as u8;
            Some((v, v, v))
        },
    }
}

pub open spec fn hex_digit(v: int) -> char {
    if v < 10 {
        ('0' as int + v) as char
    } else {
        ('a' as int + (v - 10)) as char
    }
}

/// `#rrggbb` in lower-case hex.
pub open spec fn rgb_hex(rgb: (u8, u8, u8)) -> Seq<char> {
    seq![
        '#',
        hex_digit((rgb.0 / 16) as int),
        hex_digit((rgb.0 % 16) as int),
        hex_digit((rgb.1 / 16) as int),
        hex_digit((rgb.1 % 16) as int),
        hex_digit((rgb.2 / 16) as int),
        hex_digit((rgb.2 % 16) as int),
    ]
}

/// The hex string of a colour, `default` for the terminal default.
pub open spec fn color_hex(c: Color, default: Seq<char>) -> Seq<char> {
    match color_rgb(c) {
        Some(rgb) => rgb_hex(rgb),
        None => default,
    }
}

fn hex_digit_exec(v: u8) -> (c: char)
    requires
        v < 16,
    ensures
        c == hex_digit(v as int),
{
    if v < 10 {
        ((48u8 + v) as char)
    } else {
        ((97u8 + (v - 10)) as char)
    }
}

fn ansi16_exec(i: u8) -> (r: (u8, u8, u8))
    requires
        i < 16,
    ensures
        r == ansi16(i as int),
{
    match i {
        0 => (0x00, 0x00, 0x00),
        1 => (0xaa, 0x00, 0x00),
        2 => (0x00, 0xaa, 0x00),
        3 => (0xaa, 0x55, 0x00),
        4 => (0x00, 0x00, 0xaa),
        5 => (0xaa, 0x00, 0xaa),
        6 => (0x00, 0xaa, 0xaa),
        7 => (0xaa, 0xaa, 0xaa),
        8 => (0x55, 0x55, 0x55),
        9 => (0xff, 0x55, 0x55),
        10 => (0x55, 0xff, 0x55),
        11 => (0xff, 0xff, 0x55),
        12 => (0x55, 0x55, 0xff),
        13 => (0xff, 0x55, 0xff),
        14 => (0x55, 0xff, 0xff),
        _ => (0xff, 0xff, 0xff),
    }
}

fn cube_level_exec(v: u8) -> (r: u8)
    requires
        v < 6,
    ensures
        r == cube_level(v as int),
{
    if v == 0 {
        0
    } else {
        v * 40 + 55
    }
}

fn color_rgb_exec(c: Color) -> (r: Option<(u8, u8, u8)>)
    ensures
        r == color_rgb(c),
{
    match c {
        Color::Reset => None,
        Color::Black => Some(ansi16_exec(0)),
        Color::Red => Some(ansi16_exec(1)),
        Color::Green => Some(ansi16_exec(2)),
        Color::Yellow => Some(ansi16_exec(3)),
        Color::Blue => Some(ansi16_exec(4)),
        Color::Magenta => Some(ansi16_exec(5)),
        Color::Cyan => Some(ansi16_exec(6)),
        Color::Gray => Some(ansi16_exec(7)),
        Color::DarkGray => Some(ansi16_exec(8)),
        Color::LightRed => Some(ansi16_exec(9)),
        Color::LightGreen => Some(ansi16_exec(10)),
        Color::LightYellow => Some(ansi16_exec(11)),
        Color::LightBlue => Some(ansi16_exec(12)),
        Color::LightMagenta => Some(ansi16_exec(13)),
        Color::LightCyan => Some(ansi16_exec(14)),
        Color::White => Some(ansi16_exec(15)),
        Color::Rgb(r, g, b) => Some((r, g, b)),
        Color::Indexed(i) => {
            if i < 16 {
                Some(ansi16_exec(i))
            } else if i < 232 {
                let j = i - 16;
                Some((cube_level_exec((j / 36) % 6), cube_level_exec((j / 6) % 6), cube_level_exec(j % 6)))
            } else {
                let v = (i - 232) * 10 + 8;
                Some((v, v, v))
            }
        },
    }
}

fn rgb_hex_exec(rgb: (u8, u8, u8)) -> (s: Vec<char>)
    ensures
        s@ == rgb_hex(rgb),
{
    let s = vec![
        '#',
        hex_digit_exec(rgb.0 / 16),
        hex_digit_exec(rgb.0 % 16),
        hex_digit_exec(rgb.1 / 16),
        hex_digit_exec(rgb.1 % 16),
        hex_digit_exec(rgb.2 / 16),
        hex_digit_exec(rgb.2 % 16),
    ];
    assert(s@ =~= rgb_hex(rgb));
    s
}

/// The `#rrggbb` hex string a colour is drawn with; `default` for the
/// terminal's default colour.
pub fn color_to_hex(color: Color, default: &str) -> (r: String)
    ensures
        r@ == color_hex(color, default@),
{
    match color_rgb_exec(color) {
        Some(rgb) => {
            let s = rgb_hex_exec(rgb);
            string_from_chars(s.as_slice())
        },
        None => default.to_owned(),
    }
}

/// Digit `v` (below 36) of the palette class names: letters first, then
/// figures.
pub open spec fn b36_digit(v: int) -> char {
    if v < 26 {
        ('a' as int + v) as char
    } else {
        ('0' as int + (v - 26)) as char
    }
}

/// `n` in base 36, most significant digit first (nothing for zero).
pub open spec fn b36(n: nat) -> Seq<char>
    decreases n,
{
    if n == 0 {
        seq![]
    } else {
        b36(n / 36) + seq![b36_digit((n % 36) as int)]
    }
}

/// The CSS class of palette entry `n`: `c` and its base-36 digits, `ca`
/// for zero.
pub open spec fn class_name(n: nat) -> Seq<char> {
    if n == 0 {
        seq!['c', 'a']
    } else {
        seq!['c'] + b36(n)
    }
}

fn b36_digit_exec(v: usize) -> (c: char)
    requires
        v < 36,
    ensures
        c == b36_digit(v as int),
{
    let b = v as u8;
    if b < 26 {
        ((97u8 + b) as char)
    } else {
        ((48u8 + (b - 26)) as char)
    }
}

/// The CSS class name of palette entry `n`.
pub fn to_base36(n: usize) -> (r: String)
    ensures
        r@ == class_name(n as nat),
{
    if n == 0 {
        let s = vec!['c', 'a'];
        assert(s@ =~= class_name(0));
        return string_from_chars(s.as_slice());
    }
    let mut digits: Vec<char> = Vec::new();
    let mut m: usize = n;
    while m > 0
        invariant
            b36(n as nat) == b36(m as nat) + digits@.reverse(),
        decreases m,
    {
        let d = b36_digit_exec(m % 36);
        let ghost before = digits@;
        digits.push(d);
        assert(digits@.reverse() =~= seq![d] + before.reverse());
        assert(b36(m as nat) == b36((m / 36) as nat) + seq![d]);
        m = m / 36;
    }
    assert(b36(0) =~= Seq::<char>::empty());
    let mut out: Vec<char> = vec!['c'];
    let mut i: usize = digits.len();
    while i > 0
        invariant
            i <= digits@.len(),
            out@ == seq!['c'] + digits@.reverse().take((digits@.len() - i) as int),
        decreases i,
    {
        i = i - 1;
        out.push(digits[i]);
        assert(digits@.reverse().take((digits@.len() - i) as int) =~= digits@.reverse().take(
            (digits@.len() - i - 1) as int,
        ).push(digits@[i as int]));
    }
    assert(digits@.reverse().take(digits@.len() as int) =~= digits@.reverse());
    assert(out@ =~= class_name(n as nat));
    string_from_chars(out.as_slice())
}

/// How a character is written in XML text.
pub open spec fn xml_char(c: char) -> Seq<char> {
    if c == '&' {
        seq!['&', 'a', 'm', 'p', ';']
    } else if c == '<' {
        seq!['&', 'l', 't', ';']
    } else if c == '>' {
        seq!['&', 'g', 't', ';']
    } else if c == '"' {
        seq!['&', 'q', 'u', 'o', 't', ';']
    } else if c == '\'' {
        seq!['&', 'a', 'p', 'o', 's', ';']
    } else {
        seq![c]
    }
}

/// `s` with the five XML special characters escaped.
pub open spec fn xml_escaped(s: Seq<char>) -> Seq<char>
    decreases s.len(),
{
    if s.len() == 0 {
        seq![]
    } else {
        xml_escaped(s.drop_last()) + xml_char(s.last())
    }
}

fn xml_char_exec(c: char) -> (r: Vec<char>)
    ensures
        r@ == xml_char(c),
{
    let r = if c == '&' {
        vec!['&', 'a', 'm', 'p', ';']
    } else if c == '<' {
        vec!['&', 'l', 't', ';']
    } else if c == '>' {
        vec!['&', 'g', 't', ';']
    } else if c == '"' {
        vec!['&', 'q', 'u', 'o', 't', ';']
    } else if c == '\'' {
        vec!['&', 'a', 'p', 'o', 's', ';']
    } else {
        vec![c]
    };
    assert(r@ =~= xml_char(c));
    r
}

/// `s` with `&`, `<`, `>`, `"` and `'` written as XML entities.
pub fn escape_xml(s: &str) -> (r: String)
    ensures
        r@ == xml_escaped(s@),
{
    let chars = str_chars(s);
    let mut out: Vec<char> = Vec::new();
    let mut i: usize = 0;
    assert(chars@.take(0) =~= Seq::<char>::empty());
    while i < chars.len()
        invariant
            i <= chars@.len(),
            out@ == xml_escaped(chars@.take(i as int)),
        decreases chars@.len() - i,
    {
        let e = xml_char_exec(chars[i]);
        push_all(&mut out, e.as_slice());
        assert(chars@.take(i as int + 1).drop_last() =~= chars@.take(i as int));
        i = i + 1;
    }
    assert(chars@.take(chars@.len() as int) =~= chars@);
    string_from_chars(out.as_slice())
}

/// How a cell's text is drawn.
#[derive(Debug, Clone, Copy, PartialEq, Eq, PartialOrd, Ord, Hash, Structural)]
pub enum CharCategory {
    Normal,
    Block,
    Emoji,
}

/// Block elements (U+2580 to U+259F) and Braille patterns (U+2800 to
/// U+28FF) fill their cell.
pub open spec fn is_block_char(c: char) -> bool {
    (0x2580 <= c as u32 && c as u32 <= 0x259F) || (0x2800 <= c as u32 && c as u32 <= 0x28FF)
}

/// The category of a cell's text: block-drawing if any of its characters
/// is, emoji if it is wider than one column, normal otherwise.
pub open spec fn char_category(s: Seq<char>) -> CharCategory {
    if s.len() == 0 {
        CharCategory::Normal
    } else if exists|k: int| 0 <= k < s.len() && is_block_char(#[trigger] s[k]) {
        CharCategory::Block
    } else if str_width(s) > 1 {
        CharCategory::Emoji
    } else {
        CharCategory::Normal
    }
}

/// The category a cell's text is drawn in.
pub fn get_char_category(symbol: &str) -> (r: CharCategory)
    ensures
        r == char_category(symbol@),
{
    let chars = str_chars(symbol);
    if chars.len() == 0 {
        return CharCategory::Normal;
    }
    let mut i: usize = 0;
    while i < chars.len()
        invariant
            i <= chars@.len(),
            chars@ == symbol@,
            forall|k: int| 0 <= k < i ==> !is_block_char(#[trigger] chars@[k]),
        decreases chars@.len() - i,
    {
        let c = chars[i] as u32;
        if (0x2580 <= c && c <= 0x259F) || (0x2800 <= c && c <= 0x28FF) {
            assert(is_block_char(chars@[i as int]));
            return CharCategory::Block;
        }
        i = i + 1;
    }
    if display_width(symbol) > 1 {
        CharCategory::Emoji
    } else {
        CharCategory::Normal
    }
}

/// The decimal digits of `n`.
pub open spec fn dec(n: nat) -> Seq<char>
    decreases n,
{
    if n < 10 {
        seq![('0' as int + n) as char]
    } else {
        dec(n / 10) + seq![('0' as int + n % 10) as char]
    }
}

/// `v` in decimal, with a minus sign when negative.
pub open spec fn dec_signed(v: int) -> Seq<char> {
    if v < 0 {
        seq!['-'] + dec((-v) as nat)
    } else {
        dec(v as nat)
    }
}

/// Appends the decimal digits of `n`.
pub(crate) fn push_dec(out: &mut Vec<char>, n: u64)
    ensures
        final(out)@ == old(out)@ + dec(n as nat),
    decreases n,
{
    if n >= 10 {
        push_dec(out, n / 10);
    }
    let d = (n % 10) as u8;
    out.push((48u8 + d) as char);
    proof {
        if n >= 10 {
            assert(final(out)@ =~= old(out)@ + dec((n / 10) as nat) + seq![('0' as int + n % 10) as char]);
        } else {
            assert(final(out)@ =~= old(out)@ + dec(n as nat));
        }
    }
}

/// Appends `v` in decimal, with a minus sign when negative.
pub(crate) fn push_dec_signed(out: &mut Vec<char>, v: i64)
    requires
        v > i64::MIN,
    ensures
        final(out)@ == old(out)@ + dec_signed(v as int),
{
    if v < 0 {
        out.push('-');
        let ghost mid = out@;
        push_dec(out, (-v) as u64);
        assert(final(out)@ =~= old(out)@ + dec_signed(v as int));
    } else {
        push_dec(out, v as u64);
    }
}

/// A background rectangle, in cells.  Ordered by row, then column.
#[derive(Debug, Clone, Copy, PartialEq, Eq, PartialOrd, Ord, Structural)]
pub struct BgRect {
    pub y: u16,
    pub x: u16,
    pub w: u16,
    pub h: u16,
}

/// Cell (`row`, `col`) lies in rectangle `r`.
pub open spec fn in_rect(r: BgRect, row: int, col: int) -> bool {
    r.y <= row < r.y + r.h && r.x <= col < r.x + r.w
}

/// A grid of flags, `h` rows of `w`.
pub open spec fn grid(m: Seq<Seq<bool>>, w: int, h: int) -> bool {
    m.len() == h && forall|r: int| 0 <= r < h ==> (#[trigger] m[r]).len() == w
}

/// The number of set flags from column `x` on, up to the first clear one.
pub open spec fn run_len(row: Seq<bool>, x: int) -> int
    decreases row.len() - x,
{
    if x < 0 || x >= row.len() || !row[x] {
        0
    } else {
        1 + run_len(row, x + 1)
    }
}

/// Columns `x` to `x + w` of `row` are all set.
pub open spec fn all_set(row: Seq<bool>, x: int, w: int) -> bool {
    forall|d: int| 0 <= d < w ==> #[trigger] row[x + d]
}

/// The height of the rectangle of width `w` at (y, x): from `h` rows down
/// while the next row is set across its width.
pub open spec fn ext_height(m: Seq<Seq<bool>>, y: int, x: int, w: int, h: int) -> int
    decreases m.len() - (y + h),
{
    if y + h < 0 || y + h >= m.len() || !all_set(m[y + h], x, w) {
        h
    } else {
        ext_height(m, y, x, w, h + 1)
    }
}

/// `m` with the rectangle `r` cleared.
pub open spec fn cleared(m: Seq<Seq<bool>>, r: BgRect) -> Seq<Seq<bool>> {
    Seq::new(m.len(), |row: int| Seq::new(m[row].len(), |col: int| if in_rect(r, row, col) { false } else { m[row][col] }))
}

/// The flags still to cover and the rectangles cut so far.
pub struct Cover {
    pub mask: Seq<Seq<bool>>,
    pub rects: Seq<BgRect>,
}

/// At a set cell, cut the widest run to the right and extend it down as
/// far as every row below is set across it.
pub open spec fn cover_step(c: Cover, y: int, x: int) -> Cover {
    if c.mask[y][x] {
        let w = run_len(c.mask[y], x);
        let h = ext_height(c.mask, y, x, w, 1);
        let r = BgRect { y: y as u16, x: x as u16, w: w as u16, h: h as u16 };
        Cover { mask: cleared(c.mask, r), rects: c.rects.push(r) }
    } else {
        c
    }
}

pub open spec fn cover_row(c: Cover, y: int, x: int, w: int) -> Cover
    decreases w - x,
{
    if x >= w {
        c
    } else {
        cover_row(cover_step(c, y, x), y, x + 1, w)
    }
}

pub open spec fn cover_rows(c: Cover, y: int, w: int, h: int) -> Cover
    decreases h - y,
{
    if y >= h {
        c
    } else {
        cover_rows(cover_row(c, y, 0, w), y + 1, w, h)
    }
}

/// The rectangles a layer's flags are cut into, scanning row by row.
pub open spec fn cover_rects(m: Seq<Seq<bool>>, w: int, h: int) -> Seq<BgRect> {
    cover_rows(Cover { mask: m, rects: seq![] }, 0, w, h).rects
}

/// What scanning keeps true up to cell (y, x): the flags left and the
/// rectangles cut together cover exactly the original flags, without
/// overlap, inside the grid, and every cell before (y, x) is done.
pub open spec fn cover_inv(orig: Seq<Seq<bool>>, c: Cover, w: int, h: int, y: int, x: int) -> bool {
    &&& grid(c.mask, w, h)
    &&& forall|r: int, col: int|
        0 <= r < h && 0 <= col < w ==> (orig[r][col] <==> (#[trigger] c.mask[r][col] || exists|k: int|
            0 <= k < c.rects.len() && in_rect(#[trigger] c.rects[k], r, col)))
    &&& forall|k: int, r: int, col: int|
        0 <= k < c.rects.len() && 0 <= r < h && 0 <= col < w && in_rect(#[trigger] c.rects[k], r, col)
            ==> !(#[trigger] c.mask[r][col])
    &&& forall|k1: int, k2: int, r: int, col: int|
        0 <= k1 < k2 < c.rects.len() && #[trigger] in_rect(c.rects[k1], r, col) ==> !#[trigger] in_rect(
            c.rects[k2],
            r,
            col,
        )
    &&& forall|k: int|
        0 <= k < c.rects.len() ==> {
            let rc = #[trigger] c.rects[k];
            &&& 1 <= rc.w && rc.x + rc.w <= w
            &&& 1 <= rc.h && rc.y + rc.h <= h
            &&& (rc.y < y || (rc.y == y && rc.x < x))
        }
    &&& forall|k1: int, k2: int|
        0 <= k1 < k2 < c.rects.len() ==> (#[trigger] c.rects[k1]).y < (#[trigger] c.rects[k2]).y || (
        c.rects[k1].y == c.rects[k2].y && c.rects[k1].x < c.rects[k2].x)
    &&& forall|r: int, col: int|
        0 <= r < h && 0 <= col < w && (r < y || (r == y && col < x)) ==> !(#[trigger] c.mask[r][col])
}

proof fn lemma_run_len(row: Seq<bool>, x: int)
    requires
        0 <= x,
    ensures
        0 <= run_len(row, x),
        x < row.len() ==> x + run_len(row, x) <= row.len(),
        all_set(row, x, run_len(row, x)),
        x < row.len() && row[x] ==> run_len(row, x) >= 1,
    decreases row.len() - x,
{
    if x < row.len() && row[x] {
        lemma_run_len(row, x + 1);
        assert forall|d: int| 0 <= d < run_len(row, x) implies #[trigger] row[x + d] by {
            if d > 0 {
                assert(row[(x + 1) + (d - 1)]);
            }
        }
    }
}

proof fn lemma_ext_height(m: Seq<Seq<bool>>, y: int, x: int, w: int, h: int)
    requires
        0 <= y,
        1 <= h,
        y + h <= m.len(),
        forall|d: int| 1 <= d < h ==> all_set(#[trigger] m[y + d], x, w),
    ensures
        h <= ext_height(m, y, x, w, h),
        y + ext_height(m, y, x, w, h) <= m.len(),
        forall|d: int| 1 <= d < ext_height(m, y, x, w, h) ==> all_set(#[trigger] m[y + d], x, w),
    decreases m.len() - (y + h),
{
    if y + h < m.len() && all_set(m[y + h], x, w) {
        assert forall|d: int| 1 <= d < h + 1 implies all_set(#[trigger] m[y + d], x, w) by {
            if d == h {
            }
        }
        lemma_ext_height(m, y, x, w, h + 1);
    }
}

/// One step of the scan keeps the invariant.
proof fn lemma_cover_step(orig: Seq<Seq<bool>>, c: Cover, w: int, h: int, y: int, x: int)
    requires
        0 <= y < h,
        0 <= x < w,
        w <= u16::MAX,
        h <= u16::MAX,
        cover_inv(orig, c, w, h, y, x),
    ensures
        cover_inv(orig, cover_step(c, y, x), w, h, y, x + 1),
{
    if c.mask[y][x] {
        let rw = run_len(c.mask[y], x);
        lemma_run_len(c.mask[y], x);
        let rh = ext_height(c.mask, y, x, rw, 1);
        lemma_ext_height(c.mask, y, x, rw, 1);
        let r = BgRect { y: y as u16, x: x as u16, w: rw as u16, h: rh as u16 };
        assert(r.w == rw && r.h == rh && r.x == x && r.y == y);
        let n = cover_step(c, y, x);
        assert(n.rects == c.rects.push(r));
        assert(n.mask == cleared(c.mask, r));
        // Every cell of the new rectangle was still set.
        assert forall|row: int, col: int| in_rect(r, row, col) implies #[trigger] c.mask[row][col] by {
            let d = row - y;
            if d == 0 {
                assert(c.mask[y][x + (col - x)]);
            } else {
                assert(all_set(c.mask[y + d], x, rw));
                assert(c.mask[y + d][x + (col - x)]);
            }
        }
        assert(grid(n.mask, w, h));
        assert forall|row: int, col: int|
            0 <= row < h && 0 <= col < w implies (orig[row][col] <==> (#[trigger] n.mask[row][col] || exists|k: int|
            0 <= k < n.rects.len() && in_rect(#[trigger] n.rects[k], row, col))) by {
            if in_rect(r, row, col) {
                assert(c.mask[row][col]);
                assert(n.rects[c.rects.len() as int] == r);
            } else {
                assert(n.mask[row][col] == c.mask[row][col]);
                if exists|k: int| 0 <= k < c.rects.len() && in_rect(#[trigger] c.rects[k], row, col) {
                    let k = choose|k: int| 0 <= k < c.rects.len() && in_rect(#[trigger] c.rects[k], row, col);
                    assert(n.rects[k] == c.rects[k]);
                }
                if exists|k: int| 0 <= k < n.rects.len() && in_rect(#[trigger] n.rects[k], row, col) {
                    let k = choose|k: int| 0 <= k < n.rects.len() && in_rect(#[trigger] n.rects[k], row, col);
                    assert(k < c.rects.len());
                    assert(c.rects[k] == n.rects[k]);
                }
            }
        }
        assert forall|k: int, row: int, col: int|
            0 <= k < n.rects.len() && 0 <= row < h && 0 <= col < w && in_rect(#[trigger] n.rects[k], row, col)
                implies !(#[trigger] n.mask[row][col]) by {
            if k < c.rects.len() {
                assert(c.rects[k] == n.rects[k]);
            }
        }
        assert forall|k1: int, k2: int, row: int, col: int|
            0 <= k1 < k2 < n.rects.len() && #[trigger] in_rect(n.rects[k1], row, col) implies !#[trigger] in_rect(
            n.rects[k2],
            row,
            col,
        ) by {
            assert(n.rects[k1] == c.rects[k1]);
            let rc = c.rects[k1];
            assert(0 <= row < h && 0 <= col < w);
            if k2 == c.rects.len() {
                if in_rect(r, row, col) {
                    assert(c.mask[row][col]);
                }
            } else {
                assert(n.rects[k2] == c.rects[k2]);
            }
        }
        assert forall|k1: int, k2: int|
            0 <= k1 < k2 < n.rects.len() implies (#[trigger] n.rects[k1]).y < (#[trigger] n.rects[k2]).y || (
            n.rects[k1].y == n.rects[k2].y && n.rects[k1].x < n.rects[k2].x) by {
            assert(n.rects[k1] == c.rects[k1]);
            if k2 < c.rects.len() {
                assert(n.rects[k2] == c.rects[k2]);
            }
        }
        assert forall|k: int| 0 <= k < n.rects.len() implies {
            let rc = #[trigger] n.rects[k];
            &&& 1 <= rc.w && rc.x + rc.w <= w
            &&& 1 <= rc.h && rc.y + rc.h <= h
            &&& (rc.y < y || (rc.y == y && rc.x < x + 1))
        } by {
            if k < c.rects.len() {
                assert(n.rects[k] == c.rects[k]);
            }
        }
        assert forall|row: int, col: int|
            0 <= row < h && 0 <= col < w && (row < y || (row == y && col < x + 1)) implies !(
            #[trigger] n.mask[row][col]) by {
            if !(row == y && col == x) {
                assert(!c.mask[row][col]);
            }
        }
    }
}

proof fn lemma_cover_row(orig: Seq<Seq<bool>>, c: Cover, w: int, h: int, y: int, x: int)
    requires
        0 <= y < h,
        0 <= x <= w,
        w <= u16::MAX,
        h <= u16::MAX,
        cover_inv(orig, c, w, h, y, x),
    ensures
        cover_inv(orig, cover_row(c, y, x, w), w, h, y, w),
    decreases w - x,
{
    if x < w {
        lemma_cover_step(orig, c, w, h, y, x);
        lemma_cover_row(orig, cover_step(c, y, x), w, h, y, x + 1);
    }
}

proof fn lemma_cover_rows(orig: Seq<Seq<bool>>, c: Cover, w: int, h: int, y: int)
    requires
        0 <= y <= h,
        0 <= w <= u16::MAX,
        h <= u16::MAX,
        cover_inv(orig, c, w, h, y, 0),
    ensures
        cover_inv(orig, cover_rows(c, y, w, h), w, h, h, 0),
    decreases h - y,
{
    if y < h {
        lemma_cover_row(orig, c, w, h, y, 0);
        let c1 = cover_row(c, y, 0, w);
        assert(cover_inv(orig, c1, w, h, y + 1, 0)) by {
            assert forall|row: int, col: int|
                0 <= row < h && 0 <= col < w && (row < y + 1 || (row == y + 1 && col < 0)) implies !(
                #[trigger] c1.mask[row][col]) by {
                assert(row < y || (row == y && col < w));
            }
            assert forall|k: int| 0 <= k < c1.rects.len() implies {
                let rc = #[trigger] c1.rects[k];
                &&& 1 <= rc.w && rc.x + rc.w <= w
                &&& 1 <= rc.h && rc.y + rc.h <= h
                &&& (rc.y < y + 1 || (rc.y == y + 1 && rc.x < 0))
            } by {
                let rc = c1.rects[k];
                assert(rc.y < y || (rc.y == y && rc.x < w));
            }
        }
        lemma_cover_rows(orig, c1, w, h, y + 1);
    }
}

/// The rectangles a background layer is cut into cover exactly its cells,
/// none twice, and come in row-major order of their top-left corners (so
/// sorting them changes nothing).
pub proof fn law_background_partition(m: Seq<Seq<bool>>, w: int, h: int)
    requires
        grid(m, w, h),
        0 <= w <= u16::MAX,
        0 <= h <= u16::MAX,
    ensures
        forall|r: int, col: int|
            0 <= r < h && 0 <= col < w ==> (m[r][col] <==> exists|k: int|
                0 <= k < cover_rects(m, w, h).len() && in_rect(#[trigger] cover_rects(m, w, h)[k], r, col)),
        forall|k1: int, k2: int, r: int, col: int|
            0 <= k1 < k2 < cover_rects(m, w, h).len() && #[trigger] in_rect(cover_rects(m, w, h)[k1], r, col)
                ==> !#[trigger] in_rect(cover_rects(m, w, h)[k2], r, col),
        forall|k1: int, k2: int|
            0 <= k1 < k2 < cover_rects(m, w, h).len() ==> (#[trigger] cover_rects(m, w, h)[k1]).y < (
            #[trigger] cover_rects(m, w, h)[k2]).y || (cover_rects(m, w, h)[k1].y == cover_rects(m, w, h)[k2].y
                && cover_rects(m, w, h)[k1].x < cover_rects(m, w, h)[k2].x),
        forall|k: int|
            0 <= k < cover_rects(m, w, h).len() ==> {
                let r = #[trigger] cover_rects(m, w, h)[k];
                &&& 1 <= r.w && r.x + r.w <= w
                &&& 1 <= r.h && r.y + r.h <= h
            },
{
    let c0 = Cover { mask: m, rects: seq![] };
    lemma_cover_rows(m, c0, w, h, 0);
    let c = cover_rows(c0, 0, w, h);
    assert(cover_rects(m, w, h) == c.rects);
    assert forall|r: int, col: int| 0 <= r < h && 0 <= col < w implies (m[r][col] <==> exists|k: int|
        0 <= k < cover_rects(m, w, h).len() && in_rect(#[trigger] cover_rects(m, w, h)[k], r, col)) by {
        assert(!c.mask[r][col]);
        assert(m[r][col] <==> (c.mask[r][col] || exists|k: int| 0 <= k < c.rects.len() && in_rect(#[trigger] c.rects[k], r, col)));
    }
}

/// A cell of a terminal buffer: its text and colours.
#[derive(Debug, Clone)]
pub struct Cell {
    pub symbol: String,
    pub fg: Color,
    pub bg: Color,
}

/// A terminal buffer: `width` by `height` cells, row by row.
#[derive(Debug, Clone)]
pub struct TermBuffer {
    pub width: u16,
    pub height: u16,
    pub content: Vec<Cell>,
}

impl TermBuffer {
    /// There is a cell for every position.
    pub open spec fn wf(&self) -> bool {
        self.content@.len() == self.width * self.height
    }

    /// The cell at column `x` of row `y`.
    pub open spec fn cell(&self, x: int, y: int) -> Cell {
        self.content@[y * self.width + x]
    }
}

proof fn lemma_cell_index(w: int, h: int, x: int, y: int)
    requires
        0 <= x < w,
        0 <= y < h,
    ensures
        0 <= y * w + x < w * h,
{
    assert(0 <= y * w + x < w * h) by (nonlinear_arith)
        requires
            0 <= x < w,
            0 <= y < h,
    ;
}

/// The cell at column `x` of row `y`.
fn cell_at(b: &TermBuffer, x: u16, y: u16) -> (c: &Cell)
    requires
        b.wf(),
        x < b.width,
        y < b.height,
    ensures
        *c == b.cell(x as int, y as int),
{
    let n = b.content.len();
    proof {
        lemma_cell_index(b.width as int, b.height as int, x as int, y as int);
    }
    let i = (y as usize) * (b.width as usize) + (x as usize);
    assert(i == y * b.width + x);
    &b.content[i]
}

/// The background hex of a cell; black for the default.
pub open spec fn bg_hex(c: Cell) -> Seq<char> {
    color_hex(c.bg, rgb_hex((0, 0, 0)))
}

/// The foreground hex of a cell; white for the default.
pub open spec fn fg_hex(c: Cell) -> Seq<char> {
    color_hex(c.fg, rgb_hex((255, 255, 255)))
}

/// `p` with `c` added at the end if it is not there yet.
pub open spec fn add_color(p: Seq<Seq<char>>, c: Seq<char>) -> Seq<Seq<char>> {
    if p.contains(c) {
        p
    } else {
        p.push(c)
    }
}

/// The distinct colours of the first `n` cells in order of first use, the
/// background of a cell before its foreground.
pub open spec fn palette_upto(cells: Seq<Cell>, n: nat) -> Seq<Seq<char>>
    decreases n,
{
    if n == 0 {
        seq![]
    } else {
        add_color(add_color(palette_upto(cells, (n - 1) as nat), bg_hex(cells[n - 1])), fg_hex(cells[n - 1]))
    }
}

pub open spec fn palette_of(cells: Seq<Cell>) -> Seq<Seq<char>> {
    palette_upto(cells, cells.len())
}

pub open spec fn chars_view(v: Seq<Vec<char>>) -> Seq<Seq<char>> {
    v.map_values(|c: Vec<char>| c@)
}

/// The position of `c` in `p`, if it is there.
fn find_color(p: &Vec<Vec<char>>, c: &Vec<char>) -> (r: Option<usize>)
    ensures
        match r {
            Some(k) => k < p@.len() && chars_view(p@)[k as int] == c@ && forall|j: int|
                0 <= j < k ==> chars_view(p@)[j] != c@,
            None => !chars_view(p@).contains(c@),
        },
{
    let mut k: usize = 0;
    while k < p.len()
        invariant
            k <= p@.len(),
            forall|j: int| 0 <= j < k ==> chars_view(p@)[j] != c@,
        decreases p@.len() - k,
    {
        if crate::text::chars_eq(p[k].as_slice(), c.as_slice()) {
            return Some(k);
        }
        k = k + 1;
    }
    proof {
        if chars_view(p@).contains(c@) {
            let j = choose|j: int| 0 <= j < chars_view(p@).len() && chars_view(p@)[j] == c@;
        }
    }
    None
}

fn add_color_exec(p: &mut Vec<Vec<char>>, c: Vec<char>)
    ensures
        chars_view(final(p)@) == add_color(chars_view(old(p)@), c@),
{
    match find_color(p, &c) {
        Some(_) => {},
        None => {
            let ghost before = chars_view(p@);
            p.push(c);
            assert(chars_view(p@) =~= before.push(c@));
        },
    }
}

fn color_hex_exec(c: Color, default: (u8, u8, u8)) -> (r: Vec<char>)
    ensures
        r@ == color_hex(c, rgb_hex(default)),
{
    match color_rgb_exec(c) {
        Some(rgb) => rgb_hex_exec(rgb),
        None => rgb_hex_exec(default),
    }
}

/// The distinct colours of a buffer in order of first use.
fn build_palette(b: &TermBuffer) -> (p: Vec<Vec<char>>)
    ensures
        chars_view(p@) == palette_of(b.content@),
{
    let mut p: Vec<Vec<char>> = Vec::new();
    let mut i: usize = 0;
    assert(chars_view(p@) =~= Seq::<Seq<char>>::empty());
    while i < b.content.len()
        invariant
            i <= b.content@.len(),
            chars_view(p@) == palette_upto(b.content@, i as nat),
        decreases b.content@.len() - i,
    {
        let cell = &b.content[i];
        add_color_exec(&mut p, color_hex_exec(cell.bg, (0, 0, 0)));
        add_color_exec(&mut p, color_hex_exec(cell.fg, (255, 255, 255)));
        i = i + 1;
    }
    p
}

/// The first position of `c` in `p`.
pub open spec fn index_in(p: Seq<Seq<char>>, c: Seq<char>) -> int {
    choose|k: int| 0 <= k < p.len() && p[k] == c && forall|j: int| 0 <= j < k ==> p[j] != c
}

/// Black backgrounds are not drawn: the canvas is black.
pub open spec fn is_black(h: Seq<char>) -> bool {
    h == seq!['#', '0', '0', '0'] || h == rgb_hex((0, 0, 0))
}

/// The cells whose background is the colour `hex`, unless it is black.
pub open spec fn layer_mask(b: TermBuffer, hex: Seq<char>) -> Seq<Seq<bool>> {
    Seq::new(
        b.height as nat,
        |y: int| Seq::new(b.width as nat, |x: int| bg_hex(b.cell(x, y)) == hex && !is_black(hex)),
    )
}

/// Some of the first `n` flags of `row` is set.
pub open spec fn any_in_row(row: Seq<bool>, n: int) -> bool
    decreases n,
{
    n > 0 && (row[n - 1] || any_in_row(row, n - 1))
}

/// Some flag of the first `n` rows is set.
pub open spec fn any_in_rows(m: Seq<Seq<bool>>, n: int) -> bool
    decreases n,
{
    n > 0 && (any_in_row(m[n - 1], m[n - 1].len() as int) || any_in_rows(m, n - 1))
}

pub open spec fn any_set(m: Seq<Seq<bool>>) -> bool {
    any_in_rows(m, m.len() as int)
}

/// The background layers of the first `n` palette colours: for each
/// colour some cell has as its (non-black) background, the colour's
/// index and the rectangles its cells are cut into.
pub open spec fn bg_layers_upto(b: TermBuffer, p: Seq<Seq<char>>, n: nat) -> Seq<(usize, Seq<BgRect>)>
    decreases n,
{
    if n == 0 {
        seq![]
    } else {
        let prev = bg_layers_upto(b, p, (n - 1) as nat);
        let m = layer_mask(b, p[n - 1]);
        if any_set(m) {
            prev.push(((n - 1) as usize, cover_rects(m, b.width as int, b.height as int)))
        } else {
            prev
        }
    }
}

pub open spec fn bg_layers(b: TermBuffer, p: Seq<Seq<char>>) -> Seq<(usize, Seq<BgRect>)> {
    bg_layers_upto(b, p, p.len())
}

pub open spec fn mask_view(m: Seq<Vec<bool>>) -> Seq<Seq<bool>> {
    m.map_values(|r: Vec<bool>| r@)
}

/// Columns `x` to `x + w` of `row` are all set.
fn row_all_set(row: &Vec<bool>, x: usize, w: usize) -> (r: bool)
    requires
        x + w <= row@.len(),
    ensures
        r == all_set(row@, x as int, w as int),
{
    let n = row.len();
    let mut d: usize = 0;
    while d < w
        invariant
            d <= w,
            x + w <= row@.len(),
            n == row@.len(),
            forall|j: int| 0 <= j < d ==> #[trigger] row@[x + j],
        decreases w - d,
    {
        if !row[x + d] {
            assert(!row@[x + d]);
            return false;
        }
        d = d + 1;
    }
    true
}

/// Clears columns `x` to `x + w` of `row`.
fn clear_span(row: &mut Vec<bool>, x: usize, w: usize)
    requires
        x + w <= old(row)@.len(),
    ensures
        final(row)@ == Seq::new(old(row)@.len(), |c: int| if x <= c < x + w { false } else { old(row)@[c] }),
{
    let n = row.len();
    let mut d: usize = 0;
    while d < w
        invariant
            d <= w,
            x + w <= row@.len(),
            n == old(row)@.len(),
            row@ == Seq::new(old(row)@.len(), |c: int| if x <= c < x + d { false } else { old(row)@[c] }),
        decreases w - d,
    {
        row.set(x + d, false);
        assert(row@ =~= Seq::new(old(row)@.len(), |c: int| if x <= c < x + d + 1 { false } else { old(row)@[c] }));
        d = d + 1;
    }
}

/// One step of the scan at (y, x).
fn cover_step_exec(m: &mut Vec<Vec<bool>>, rects: &mut Vec<BgRect>, x: u16, y: u16, w: u16, h: u16)
    requires
        grid(mask_view(old(m)@), w as int, h as int),
        x < w,
        y < h,
    ensures
        grid(mask_view(final(m)@), w as int, h as int),
        (Cover { mask: mask_view(final(m)@), rects: final(rects)@ }) == cover_step(
            Cover { mask: mask_view(old(m)@), rects: old(rects)@ },
            y as int,
            x as int,
        ),
{
    let ghost m0 = mask_view(m@);
    let yi = y as usize;
    let xi = x as usize;
    assert(m0[yi as int] == m@[yi as int]@);
    if !m[yi][xi] {
        return;
    }
    let mut rw: u16 = 0;
    while xi + (rw as usize) < w as usize && m[yi][xi + rw as usize]
        invariant
            xi + rw <= w,
            m0 == mask_view(m@),
            grid(m0, w as int, h as int),
            yi < h,
            run_len(m0[yi as int], xi as int) == rw + run_len(m0[yi as int], xi + rw),
        decreases w - (xi + rw),
    {
        rw = rw + 1;
    }
    let mut rh: u16 = 1;
    let mut go = true;
    while go && yi + (rh as usize) < h as usize
        invariant
            1 <= rh,
            yi + rh <= h,
            xi + rw <= w,
            m0 == mask_view(m@),
            grid(m0, w as int, h as int),
            ext_height(m0, yi as int, xi as int, rw as int, 1) == if go {
                ext_height(m0, yi as int, xi as int, rw as int, rh as int)
            } else {
                rh as int
            },
        decreases h - (yi + rh) + (if go {
            1int
        } else {
            0int
        }),
    {
        assert(m0[(yi + rh) as int] == m@[(yi + rh) as int]@);
        if row_all_set(&m[yi + rh as usize], xi, rw as usize) {
            rh = rh + 1;
        } else {
            go = false;
        }
    }
    let ghost r = BgRect { y: y, x: x, w: rw, h: rh };
    let mut dy: u16 = 0;
    while dy < rh
        invariant
            dy <= rh,
            yi + rh <= h,
            xi + rw <= w,
            grid(m0, w as int, h as int),
            m@.len() == h,
            yi == y,
            xi == x,
            r == (BgRect { y: y, x: x, w: rw, h: rh }),
            mask_view(m@) == Seq::new(
                m0.len(),
                |row: int|
                    if yi <= row < yi + dy {
                        Seq::new(m0[row].len(), |c: int| if in_rect(r, row, c) { false } else { m0[row][c] })
                    } else {
                        m0[row]
                    },
            ),
        decreases rh - dy,
    {
        let ghost before = mask_view(m@);
        let ri = yi + dy as usize;
        assert(mask_view(m@)[ri as int] == m@[ri as int]@);
        assert(m@[ri as int]@ == m0[ri as int]);
        let ghost old_rows = m@;
        clear_span(&mut m[ri], xi, rw as usize);
        assert(m@ == old_rows.update(ri as int, m@[ri as int]));
        assert(r.y == yi && r.h == rh && r.x == xi && r.w == rw);
        assert(forall|c: int| #[trigger] in_rect(r, ri as int, c) == (xi <= c < xi + rw));
        assert(m@[ri as int]@ =~= Seq::new(m0[ri as int].len(), |c: int| if in_rect(r, ri as int, c) { false } else { m0[ri as int][c] }));
        assert(mask_view(m@) =~= Seq::new(
            m0.len(),
            |row: int|
                if yi <= row < yi + dy + 1 {
                    Seq::new(m0[row].len(), |c: int| if in_rect(r, row, c) { false } else { m0[row][c] })
                } else {
                    m0[row]
                },
        )) by {
            assert forall|row: int| 0 <= row < m0.len() implies mask_view(m@)[row] =~= (if yi <= row < yi + dy + 1 {
                Seq::new(m0[row].len(), |c: int| if in_rect(r, row, c) { false } else { m0[row][c] })
            } else {
                m0[row]
            }) by {
                assert(mask_view(m@)[row] == m@[row]@);
                if row != ri {
                    assert(m@[row] == old_rows[row]);
                    assert(before[row] == old_rows[row]@);
                }
            }
        }
        dy = dy + 1;
    }
    assert(mask_view(m@) =~= cleared(m0, r)) by {
        assert forall|row: int| 0 <= row < m0.len() implies mask_view(m@)[row] =~= cleared(m0, r)[row] by {
            if !(yi <= row < yi + rh) {
                assert forall|c: int| 0 <= c < m0[row].len() implies !in_rect(r, row, c) by {}
            }
        }
    }
    rects.push(BgRect { y: y, x: x, w: rw, h: rh });
}

/// Cuts a layer's flags into rectangles.
fn cover_mask(mask: Vec<Vec<bool>>, w: u16, h: u16) -> (rects: Vec<BgRect>)
    requires
        grid(mask_view(mask@), w as int, h as int),
    ensures
        rects@ == cover_rects(mask_view(mask@), w as int, h as int),
{
    let ghost orig = mask_view(mask@);
    let mut m = mask;
    let mut rects: Vec<BgRect> = Vec::new();
    let mut y: u16 = 0;
    while y < h
        invariant
            y <= h,
            grid(mask_view(m@), w as int, h as int),
            cover_rects(orig, w as int, h as int) == cover_rows(
                Cover { mask: mask_view(m@), rects: rects@ },
                y as int,
                w as int,
                h as int,
            ).rects,
        decreases h - y,
    {
        let mut x: u16 = 0;
        while x < w
            invariant
                x <= w,
                y < h,
                grid(mask_view(m@), w as int, h as int),
                cover_rects(orig, w as int, h as int) == cover_rows(
                    cover_row(Cover { mask: mask_view(m@), rects: rects@ }, y as int, x as int, w as int),
                    y + 1,
                    w as int,
                    h as int,
                ).rects,
            decreases w - x,
        {
            cover_step_exec(&mut m, &mut rects, x, y, w, h);
            x = x + 1;
        }
        y = y + 1;
    }
    rects
}

/// `h` is drawn black, as the canvas is.
fn is_black_exec(h: &Vec<char>) -> (r: bool)
    ensures
        r == is_black(h@),
{
    let short = vec!['#', '0', '0', '0'];
    assert(short@ =~= seq!['#', '0', '0', '0']);
    let long = rgb_hex_exec((0, 0, 0));
    crate::text::chars_eq(h.as_slice(), short.as_slice()) || crate::text::chars_eq(h.as_slice(), long.as_slice())
}

/// The cells whose background is `hex` (unless black), and whether there
/// is any.
fn layer_mask_exec(b: &TermBuffer, hex: &Vec<char>) -> (r: (Vec<Vec<bool>>, bool))
    requires
        b.wf(),
    ensures
        mask_view(r.0@) == layer_mask(*b, hex@),
        r.1 == any_set(layer_mask(*b, hex@)),
{
    let ghost lm = layer_mask(*b, hex@);
    let black = is_black_exec(hex);
    let mut rows: Vec<Vec<bool>> = Vec::new();
    let mut any = false;
    let mut y: u16 = 0;
    while y < b.height
        invariant
            y <= b.height,
            b.wf(),
            black == is_black(hex@),
            lm == layer_mask(*b, hex@),
            mask_view(rows@) == lm.take(y as int),
            any == any_in_rows(lm, y as int),
        decreases b.height - y,
    {
        let mut row: Vec<bool> = Vec::new();
        let mut x: u16 = 0;
        while x < b.width
            invariant
                x <= b.width,
                y < b.height,
                b.wf(),
                black == is_black(hex@),
                lm == layer_mask(*b, hex@),
                row@ == lm[y as int].take(x as int),
                any == (any_in_rows(lm, y as int) || any_in_row(lm[y as int], x as int)),
            decreases b.width - x,
        {
            let cell = cell_at(b, x, y);
            let bg = color_hex_exec(cell.bg, (0, 0, 0));
            let flag = !black && crate::text::chars_eq(bg.as_slice(), hex.as_slice());
            assert(flag == lm[y as int][x as int]);
            row.push(flag);
            assert(row@ =~= lm[y as int].take(x as int + 1));
            if flag {
                any = true;
            }
            x = x + 1;
        }
        assert(row@ =~= lm[y as int]);
        let ghost before = mask_view(rows@);
        rows.push(row);
        assert(mask_view(rows@) =~= before.push(lm[y as int]));
        assert(lm.take(y as int + 1) =~= lm.take(y as int).push(lm[y as int]));
        assert(lm[y as int].len() == b.width);
        y = y + 1;
    }
    assert(lm.take(b.height as int) =~= lm);
    (rows, any)
}

pub open spec fn layers_view(v: Seq<(usize, Vec<BgRect>)>) -> Seq<(usize, Seq<BgRect>)> {
    v.map_values(|l: (usize, Vec<BgRect>)| (l.0, l.1@))
}

/// The background layers of a buffer, one per palette colour in use as a
/// (non-black) background, in palette order.
fn process_backgrounds(b: &TermBuffer, palette: &Vec<Vec<char>>) -> (layers: Vec<(usize, Vec<BgRect>)>)
    requires
        b.wf(),
    ensures
        layers_view(layers@) == bg_layers(*b, chars_view(palette@)),
{
    let mut layers: Vec<(usize, Vec<BgRect>)> = Vec::new();
    let mut i: usize = 0;
    assert(layers_view(layers@) =~= Seq::<(usize, Seq<BgRect>)>::empty());
    while i < palette.len()
        invariant
            i <= palette@.len(),
            b.wf(),
            layers_view(layers@) == bg_layers_upto(*b, chars_view(palette@), i as nat),
        decreases palette@.len() - i,
    {
        let (mask, any) = layer_mask_exec(b, &palette[i]);
        assert(chars_view(palette@)[i as int] == palette@[i as int]@);
        if any {
            assert(grid(mask_view(mask@), b.width as int, b.height as int));
            let rects = cover_mask(mask, b.width, b.height);
            let ghost before = layers_view(layers@);
            layers.push((i, rects));
            assert(layers_view(layers@) =~= before.push((i, rects@)));
        }
        i = i + 1;
    }
    layers
}

/// A run of foreground text in one colour and category.
#[derive(Debug, Clone)]
pub struct FgRun {
    pub x: u16,
    pub y: u16,
    pub color_idx: usize,
    pub text: String,
    pub width: u16,
    pub category: CharCategory,
}

/// A drawn cell of a row: palette index, text, width, category.
pub type RowItem = (usize, Seq<char>, u16, CharCategory);

/// `v` capped at the largest `u16`.
pub open spec fn sat16(v: int) -> int {
    if v > u16::MAX {
        u16::MAX as int
    } else {
        v
    }
}

pub open spec fn is_blank(s: Seq<char>) -> bool {
    s.len() == 0 || s == seq![' ']
}

/// The width of a cell's text, as a `u16`.
pub open spec fn sym_width(s: Seq<char>) -> u16 {
    str_width(s) as u16
}

/// The drawn cells of row `y` from column `x` on: a blank cell is nothing;
/// a cell of text is its palette index, text, width and category, and the
/// columns its width covers after the first are nothing.
pub open spec fn row_cells_from(b: TermBuffer, p: Seq<Seq<char>>, y: int, x: int) -> Seq<Option<RowItem>>
    decreases u16::MAX - x,
{
    if x < 0 || x >= b.width {
        seq![]
    } else {
        let c = b.cell(x, y);
        let s = c.symbol@;
        if is_blank(s) {
            seq![None] + row_cells_from(b, p, y, x + 1)
        } else {
            let sw = sym_width(s);
            let item = Some((index_in(p, fg_hex(c)) as usize, s, sw, char_category(s)));
            let adv = if sw >= 1 {
                sw as int
            } else {
                1
            };
            seq![item] + Seq::new(if sw >= 2 {
                (sw - 1) as nat
            } else {
                0
            }, |i: int| None::<RowItem>) + row_cells_from(b, p, y, sat16(x + adv))
        }
    }
}

/// Every drawn cell before column `w` has a width; a cell of zero width
/// would never be stepped over.
pub open spec fn widths_positive(cells: Seq<Option<RowItem>>, w: int) -> bool {
    forall|i: int| 0 <= i < w && i < cells.len() ==> ((#[trigger] cells[i]) matches Some(it) ==> it.2 >= 1)
}

/// Extending a run of colour `ci` and category `cat` from column `x`: the
/// text, width and end reached while the next cell continues it.
pub open spec fn merge_from(
    cells: Seq<Option<RowItem>>,
    ci: usize,
    cat: CharCategory,
    x: int,
    w: int,
    text: Seq<char>,
    width: int,
) -> (Seq<char>, int, int)
    decreases u16::MAX - x,
{
    if 0 <= x < w && x < u16::MAX && x < cells.len() && (cells[x] matches Some(n) && n.0 == ci && n.3 == cat
        && n.2 >= 1) {
        let n = cells[x]->0;
        merge_from(cells, ci, cat, sat16(x + n.2), w, text + n.1, sat16(width + n.2))
    } else {
        (text, width, x)
    }
}

/// A run as a value: (x, y, palette index, text, width, category).
pub type RunView = (int, int, usize, Seq<char>, int, CharCategory);

/// The runs of a row from column `x` on: each drawn cell starts a run
/// that takes in the following cells of its colour and category.
pub open spec fn runs_from(cells: Seq<Option<RowItem>>, y: int, x: int, w: int) -> Seq<RunView>
    decreases u16::MAX - x,
{
    if x < 0 || x >= w || x >= cells.len() || x >= u16::MAX {
        seq![]
    } else {
        match cells[x] {
            Some(it) => if it.2 >= 1 {
                let m = merge_from(cells, it.0, it.3, sat16(x + it.2), w, it.1, it.2 as int);
                if x < m.2 <= u16::MAX {
                    seq![(x, y, it.0, m.0, m.1, it.3)] + runs_from(cells, y, m.2, w)
                } else {
                    seq![]
                }
            } else {
                seq![]
            },
            None => runs_from(cells, y, x + 1, w),
        }
    }
}

/// The foreground runs of rows `0` to `n`.
pub open spec fn fg_runs_upto(b: TermBuffer, p: Seq<Seq<char>>, n: nat) -> Seq<RunView>
    decreases n,
{
    if n == 0 {
        seq![]
    } else {
        fg_runs_upto(b, p, (n - 1) as nat) + runs_from(row_cells_from(b, p, n - 1, 0), n - 1, 0, b.width as int)
    }
}

pub open spec fn fg_runs(b: TermBuffer, p: Seq<Seq<char>>) -> Seq<RunView> {
    fg_runs_upto(b, p, b.height as nat)
}

/// No row holds a drawn cell of zero width.
pub open spec fn fg_drawable(b: TermBuffer, p: Seq<Seq<char>>) -> bool {
    forall|y: int| 0 <= y < b.height ==> widths_positive(#[trigger] row_cells_from(b, p, y, 0), b.width as int)
}

pub open spec fn run_view(r: FgRun) -> RunView {
    (r.x as int, r.y as int, r.color_idx, r.text@, r.width as int, r.category)
}

pub open spec fn runs_view(v: Seq<FgRun>) -> Seq<RunView> {
    v.map_values(|r: FgRun| run_view(r))
}

proof fn lemma_palette_has(cells: Seq<Cell>, n: nat, i: int)
    requires
        0 <= i < n <= cells.len(),
    ensures
        palette_upto(cells, n).contains(bg_hex(cells[i])),
        palette_upto(cells, n).contains(fg_hex(cells[i])),
    decreases n,
{
    let p1 = add_color(palette_upto(cells, (n - 1) as nat), bg_hex(cells[n - 1]));
    if i < n - 1 {
        lemma_palette_has(cells, (n - 1) as nat, i);
        let prev = palette_upto(cells, (n - 1) as nat);
        let kb = choose|k: int| 0 <= k < prev.len() && prev[k] == bg_hex(cells[i]);
        let kf = choose|k: int| 0 <= k < prev.len() && prev[k] == fg_hex(cells[i]);
        assert(p1[kb] == bg_hex(cells[i]));
        assert(p1[kf] == fg_hex(cells[i]));
        assert(palette_upto(cells, n)[kb] == bg_hex(cells[i]));
        assert(palette_upto(cells, n)[kf] == fg_hex(cells[i]));
    } else {
        if !palette_upto(cells, (n - 1) as nat).contains(bg_hex(cells[i])) {
            assert(p1[p1.len() - 1] == bg_hex(cells[i]));
        }
        let kb = choose|k: int| 0 <= k < p1.len() && p1[k] == bg_hex(cells[i]);
        assert(palette_upto(cells, n)[kb] == bg_hex(cells[i]));
        let p2 = palette_upto(cells, n);
        if !p1.contains(fg_hex(cells[i])) {
            assert(p2[p2.len() - 1] == fg_hex(cells[i]));
        } else {
            let kf = choose|k: int| 0 <= k < p1.len() && p1[k] == fg_hex(cells[i]);
            assert(p2[kf] == fg_hex(cells[i]));
        }
    }
}

/// Every drawn cell names a palette entry below `n`.
pub open spec fn colors_below(cells: Seq<Option<RowItem>>, n: int) -> bool {
    forall|i: int| 0 <= i < cells.len() ==> ((#[trigger] cells[i]) matches Some(it) ==> it.0 < n)
}

pub open spec fn cell_item_view(o: Option<(usize, Vec<char>, u16, CharCategory)>) -> Option<RowItem> {
    match o {
        Some(t) => Some((t.0, t.1@, t.2, t.3)),
        None => None,
    }
}

pub open spec fn cells_view(v: Seq<Option<(usize, Vec<char>, u16, CharCategory)>>) -> Seq<Option<RowItem>> {
    v.map_values(|o: Option<(usize, Vec<char>, u16, CharCategory)>| cell_item_view(o))
}

/// The drawn cells of row `y`.
fn row_cells_exec(b: &TermBuffer, p: &Vec<Vec<char>>, y: u16) -> (cells: Vec<Option<(usize, Vec<char>, u16, CharCategory)>>)
    requires
        b.wf(),
        y < b.height,
        chars_view(p@) == palette_of(b.content@),
    ensures
        cells_view(cells@) == row_cells_from(*b, chars_view(p@), y as int, 0),
        colors_below(cells_view(cells@), p@.len() as int),
{
    let ghost pv = chars_view(p@);
    let mut cells: Vec<Option<(usize, Vec<char>, u16, CharCategory)>> = Vec::new();
    let mut x: u16 = 0;
    assert(cells_view(cells@) + row_cells_from(*b, pv, y as int, 0) =~= row_cells_from(*b, pv, y as int, 0));
    while x < b.width
        invariant
            b.wf(),
            y < b.height,
            pv == chars_view(p@),
            pv == palette_of(b.content@),
            row_cells_from(*b, pv, y as int, 0) == cells_view(cells@) + row_cells_from(*b, pv, y as int, x as int),
            colors_below(cells_view(cells@), p@.len() as int),
        decreases u16::MAX - x,
    {
        let c = cell_at(b, x, y);
        let s = str_chars(c.symbol.as_str());
        let ghost before = cells_view(cells@);
        if s.len() == 0 || (s.len() == 1 && s[0] == ' ') {
            proof {
                if s.len() == 1 {
                    assert(s@ =~= seq![' ']);
                }
            }
            cells.push(None);
            assert(cells_view(cells@) =~= before + seq![None::<RowItem>]);
            assert(row_cells_from(*b, pv, y as int, x as int) == seq![None::<RowItem>] + row_cells_from(
                *b,
                pv,
                y as int,
                x + 1,
            ));
            assert(before + row_cells_from(*b, pv, y as int, x as int) =~= cells_view(cells@) + row_cells_from(
                *b,
                pv,
                y as int,
                x + 1,
            ));
            x = x + 1;
        } else {
            proof {
                if s.len() == 1 {
                    assert(s@ != seq![' ']) by {
                        assert(s@[0] != ' ');
                    }
                }
            }
            let sw_full = display_width(c.symbol.as_str());
            let sw = sw_full as u16;
            let fg = color_hex_exec(c.fg, (255, 255, 255));
            proof {
                lemma_cell_index(b.width as int, b.height as int, x as int, y as int);
                lemma_palette_has(b.content@, b.content@.len(), y * b.width + x);
            }
            let idx = find_color(p, &fg).unwrap();
            let cat = get_char_category(c.symbol.as_str());
            let ghost item = Some((idx, s@, sw, cat));
            cells.push(Some((idx, s, sw, cat)));
            assert(cells_view(cells@) =~= before + seq![item]);
            assert(colors_below(cells_view(cells@), p@.len() as int)) by {
                assert forall|i: int| 0 <= i < cells_view(cells@).len() implies ((#[trigger] cells_view(cells@)[i]) matches Some(
                    it,
                ) ==> it.0 < p@.len()) by {
                    if i < before.len() {
                        assert(cells_view(cells@)[i] == before[i]);
                    }
                }
            }
            let mut k: u16 = 1;
            while k < sw
                invariant
                    1 <= k,
                    k <= sw || sw == 0,
                    sw <= 1 ==> k == 1,
                    cells_view(cells@) == before + seq![item] + Seq::new((k - 1) as nat, |i: int| None::<RowItem>),
                    colors_below(cells_view(cells@), p@.len() as int),
                decreases sw - k,
            {
                let ghost mid = cells_view(cells@);
                cells.push(None);
                assert(cells_view(cells@) =~= mid.push(None::<RowItem>));
                assert(cells_view(cells@) =~= before + seq![item] + Seq::new(k as nat, |i: int| None::<RowItem>));
                k = k + 1;
            }
            let adv: u16 = if sw >= 1 {
                sw
            } else {
                1
            };
            let nx = x.saturating_add(adv);
            assert(k - 1 == (if sw >= 2 {
                (sw - 1) as int
            } else {
                0
            }));
            assert(cells_view(cells@) =~= before + seq![item] + Seq::new(if sw >= 2 {
                (sw - 1) as nat
            } else {
                0
            }, |i: int| None::<RowItem>));
            assert(index_in(pv, fg_hex(*c)) == idx);
            assert(before + row_cells_from(*b, pv, y as int, x as int) =~= cells_view(cells@) + row_cells_from(
                *b,
                pv,
                y as int,
                nx as int,
            ));
            x = nx;
        }
    }
    assert(cells_view(cells@) + row_cells_from(*b, pv, y as int, x as int) =~= cells_view(cells@));
    cells
}

/// The cell at `x`, if it continues a run of colour `ci` and category
/// `cat`: its text and width.
fn continues(cells: &Vec<Option<(usize, Vec<char>, u16, CharCategory)>>, x: u16, w: u16, ci: usize, cat: CharCategory) -> (r:
    Option<(Vec<char>, u16)>)
    ensures
        ({
            let cv = cells_view(cells@);
            let cont = 0 <= x < w && x < u16::MAX && x < cv.len() && (cv[x as int] matches Some(n) && n.0 == ci
                && n.3 == cat && n.2 >= 1);
            let it = cv[x as int]->0;
            match r {
                Some(t) => cont && t.0@ == it.1 && t.1 == it.2,
                None => !cont,
            }
        }),
{
    if x < w && x < u16::MAX && (x as usize) < cells.len() {
        match &cells[x as usize] {
            Some((c2, s2, w2, k2)) => {
                if *c2 == ci && *k2 == cat && *w2 >= 1 {
                    let mut t: Vec<char> = Vec::new();
                    push_all(&mut t, s2.as_slice());
                    return Some((t, *w2));
                }
            },
            None => {},
        }
    }
    None
}

/// Appends the runs of a row.
fn runs_of_row(
    cells: &Vec<Option<(usize, Vec<char>, u16, CharCategory)>>,
    y: u16,
    w: u16,
    out: &mut Vec<FgRun>,
    bound: usize,
)
    requires
        widths_positive(cells_view(cells@), w as int),
        colors_below(cells_view(cells@), bound as int),
    ensures
        runs_view(final(out)@) == runs_view(old(out)@) + runs_from(cells_view(cells@), y as int, 0, w as int),
        old(out)@.len() <= final(out)@.len(),
        forall|k: int| 0 <= k < old(out)@.len() ==> final(out)@[k] == old(out)@[k],
        forall|k: int|
            old(out)@.len() <= k < final(out)@.len() ==> (#[trigger] final(out)@[k]).color_idx < bound
                && final(out)@[k].y == y,
{
    let ghost cv = cells_view(cells@);
    let ghost start = runs_view(out@);
    let mut x: u16 = 0;
    assert(start + runs_from(cv, y as int, 0, w as int) =~= runs_view(out@) + runs_from(cv, y as int, x as int, w as int));
    while x < w && x < u16::MAX && (x as usize) < cells.len()
        invariant
            cv == cells_view(cells@),
            widths_positive(cv, w as int),
            colors_below(cv, bound as int),
            start + runs_from(cv, y as int, 0, w as int) == runs_view(out@) + runs_from(cv, y as int, x as int, w as int),
            old(out)@.len() <= out@.len(),
            forall|k: int| 0 <= k < old(out)@.len() ==> out@[k] == old(out)@[k],
            forall|k: int|
                old(out)@.len() <= k < out@.len() ==> (#[trigger] out@[k]).color_idx < bound && out@[k].y == y,
        decreases u16::MAX - x,
    {
        assert(cv[x as int] == cell_item_view(cells@[x as int]));
        match &cells[x as usize] {
            None => {
                x = x + 1;
            },
            Some((ci, sym, sw, cat)) => {
                assert(*sw >= 1);
                let mut text: Vec<char> = Vec::new();
                push_all(&mut text, sym.as_slice());
                let mut width: u16 = *sw;
                let mut nx: u16 = x.saturating_add(*sw);
                let ghost target = merge_from(cv, *ci, *cat, sat16(x + *sw), w as int, sym@, *sw as int);
                assert(target == merge_from(cv, *ci, *cat, nx as int, w as int, text@, width as int));
                loop
                    invariant
                        cv == cells_view(cells@),
                        x < nx,
                        target == merge_from(cv, *ci, *cat, nx as int, w as int, text@, width as int),
                    ensures
                        x < nx,
                        target == (text@, width as int, nx as int),
                    decreases u16::MAX - nx,
                {
                    match continues(cells, nx, w, *ci, *cat) {
                        Some((t, nw)) => {
                            push_all(&mut text, t.as_slice());
                            width = width.saturating_add(nw);
                            nx = nx.saturating_add(nw);
                        },
                        None => {
                            break;
                        },
                    }
                }
                assert(target == (text@, width as int, nx as int));
                let run = FgRun {
                    x: x,
                    y: y,
                    color_idx: *ci,
                    text: string_from_chars(text.as_slice()),
                    width: width,
                    category: *cat,
                };
                let ghost before = runs_view(out@);
                out.push(run);
                assert(runs_view(out@) =~= before.push(run_view(run)));
                assert(runs_from(cv, y as int, x as int, w as int) == seq![run_view(run)] + runs_from(
                    cv,
                    y as int,
                    nx as int,
                    w as int,
                ));
                assert(before + runs_from(cv, y as int, x as int, w as int) =~= runs_view(out@) + runs_from(
                    cv,
                    y as int,
                    nx as int,
                    w as int,
                ));
                x = nx;
            },
        }
    }
    assert(runs_from(cv, y as int, x as int, w as int) =~= Seq::<RunView>::empty());
    assert(runs_view(out@) + runs_from(cv, y as int, x as int, w as int) =~= runs_view(out@));
}

/// The foreground runs of a buffer, row by row.
fn process_foregrounds(b: &TermBuffer, p: &Vec<Vec<char>>) -> (runs: Vec<FgRun>)
    requires
        b.wf(),
        chars_view(p@) == palette_of(b.content@),
        fg_drawable(*b, chars_view(p@)),
    ensures
        runs_view(runs@) == fg_runs(*b, chars_view(p@)),
        forall|k: int|
            0 <= k < runs@.len() ==> (#[trigger] runs@[k]).color_idx < p@.len() && runs@[k].y < b.height,
{
    let mut out: Vec<FgRun> = Vec::new();
    let mut y: u16 = 0;
    assert(runs_view(out@) =~= Seq::<RunView>::empty());
    while y < b.height
        invariant
            y <= b.height,
            b.wf(),
            chars_view(p@) == palette_of(b.content@),
            fg_drawable(*b, chars_view(p@)),
            runs_view(out@) == fg_runs_upto(*b, chars_view(p@), y as nat),
            forall|k: int| 0 <= k < out@.len() ==> (#[trigger] out@[k]).color_idx < p@.len() && out@[k].y < y,
        decreases b.height - y,
    {
        let cells = row_cells_exec(b, p, y);
        assert(widths_positive(row_cells_from(*b, chars_view(p@), y as int, 0), b.width as int));
        runs_of_row(&cells, y, b.width, &mut out, p.len());
        y = y + 1;
    }
    out
}

/// A background rectangle of the model, with its colour.
#[derive(Debug, Clone)]
pub struct ModelBgRect {
    pub x: u16,
    pub y: u16,
    pub width: u16,
    pub height: u16,
    pub color: String,
}

/// A run of text of the model, with its colour.
#[derive(Debug, Clone)]
pub struct ModelFgText {
    pub x: u16,
    pub y: u16,
    pub width: u16,
    pub text: String,
    pub color: String,
    pub category: CharCategory,
}

/// What an exported buffer shows: its size, background rectangles and
/// runs of text, with their colours.
#[derive(Debug, Clone)]
pub struct SvgModel {
    pub width: u16,
    pub height: u16,
    pub bg_rects: Vec<ModelBgRect>,
    pub fg_texts: Vec<ModelFgText>,
}

/// A model rectangle as a value: (x, y, width, height, colour).
pub type BgItem = (u16, u16, u16, u16, Seq<char>);

/// A model text as a value: (x, y, width, text, colour, category).
pub type FgItem = (int, int, int, Seq<char>, Seq<char>, CharCategory);

pub open spec fn bg_item_view(r: ModelBgRect) -> BgItem {
    (r.x, r.y, r.width, r.height, r.color@)
}

pub open spec fn fg_item_view(t: ModelFgText) -> FgItem {
    (t.x as int, t.y as int, t.width as int, t.text@, t.color@, t.category)
}

/// The rectangles of the first `n` layers with their colours.
pub open spec fn bg_items(ls: Seq<(usize, Seq<BgRect>)>, p: Seq<Seq<char>>, n: nat) -> Seq<BgItem>
    decreases n,
{
    if n == 0 {
        seq![]
    } else {
        let l = ls[n - 1];
        bg_items(ls, p, (n - 1) as nat) + l.1.map_values(|r: BgRect| (r.x, r.y, r.w, r.h, p[l.0 as int]))
    }
}

/// `s` (sorted by x) with `e` added after every item not right of it.
pub open spec fn ins_item_x(s: Seq<BgItem>, e: BgItem) -> Seq<BgItem>
    decreases s.len(),
{
    if s.len() == 0 {
        seq![e]
    } else if s.last().0 <= e.0 {
        s.push(e)
    } else {
        ins_item_x(s.drop_last(), e).push(s.last())
    }
}

/// The first `n` items stably sorted by x.
pub open spec fn sorted_by_x(s: Seq<BgItem>, n: nat) -> Seq<BgItem>
    decreases n,
{
    if n == 0 {
        seq![]
    } else {
        ins_item_x(sorted_by_x(s, (n - 1) as nat), s[n - 1])
    }
}

/// The runs with their colours.
pub open spec fn fg_items(rs: Seq<RunView>, p: Seq<Seq<char>>) -> Seq<FgItem> {
    rs.map_values(|r: RunView| (r.0, r.1, r.4, r.3, p[r.2 as int], r.5))
}

pub open spec fn bg_model_view(v: Seq<ModelBgRect>) -> Seq<BgItem> {
    v.map_values(|r: ModelBgRect| bg_item_view(r))
}

pub open spec fn fg_model_view(v: Seq<ModelFgText>) -> Seq<FgItem> {
    v.map_values(|t: ModelFgText| fg_item_view(t))
}

proof fn lemma_ins_item_split(s: Seq<BgItem>, e: BgItem, j: int)
    requires
        0 <= j < s.len(),
        s[j].0 > e.0,
    ensures
        ins_item_x(s.take(j + 1), e) == ins_item_x(s.take(j), e).push(s[j]),
{
    assert(s.take(j + 1).drop_last() =~= s.take(j));
}

/// Adds a rectangle to the x-sorted list after every one not right of it.
fn insert_rect_by_x(v: &mut Vec<ModelBgRect>, e: ModelBgRect)
    ensures
        bg_model_view(final(v)@) == ins_item_x(bg_model_view(old(v)@), bg_item_view(e)),
{
    let ghost s = bg_model_view(v@);
    let ghost ev = bg_item_view(e);
    let mut pos: usize = v.len();
    assert(s.take(pos as int) =~= s);
    assert(s.skip(pos as int) =~= Seq::<BgItem>::empty());
    while pos > 0 && v[pos - 1].x > e.x
        invariant
            pos <= s.len(),
            s == bg_model_view(v@),
            ev == bg_item_view(e),
            ins_item_x(s, ev) == ins_item_x(s.take(pos as int), ev) + s.skip(pos as int),
        decreases pos,
    {
        proof {
            assert(s[pos - 1] == bg_item_view(v@[pos - 1]));
            lemma_ins_item_split(s, ev, pos - 1);
            assert(s.skip(pos - 1) =~= seq![s[pos - 1]] + s.skip(pos as int));
            assert(ins_item_x(s.take(pos - 1), ev).push(s[pos - 1]) + s.skip(pos as int) =~= ins_item_x(
                s.take(pos - 1),
                ev,
            ) + s.skip(pos - 1));
        }
        pos = pos - 1;
    }
    proof {
        if pos > 0 {
            assert(s[pos - 1] == bg_item_view(v@[pos - 1]));
            assert(s.take(pos as int).last().0 <= ev.0);
        } else {
            assert(s.take(0) =~= Seq::<BgItem>::empty());
        }
    }
    v.insert(pos, e);
    assert(bg_model_view(v@) =~= s.take(pos as int).push(ev) + s.skip(pos as int));
}

/// Sorting looks only at the items it sorts.
proof fn lemma_sorted_prefix(s1: Seq<BgItem>, s2: Seq<BgItem>, n: nat)
    requires
        n <= s1.len(),
        n <= s2.len(),
        forall|i: int| 0 <= i < n ==> s1[i] == s2[i],
    ensures
        sorted_by_x(s1, n) == sorted_by_x(s2, n),
    decreases n,
{
    if n > 0 {
        lemma_sorted_prefix(s1, s2, (n - 1) as nat);
    }
}

/// The layers' indices name palette entries.
proof fn lemma_layer_indices(b: TermBuffer, p: Seq<Seq<char>>, n: nat)
    requires
        n <= p.len(),
        p.len() <= usize::MAX,
    ensures
        forall|i: int| 0 <= i < bg_layers_upto(b, p, n).len() ==> (#[trigger] bg_layers_upto(b, p, n)[i]).0 < n,
    decreases n,
{
    if n > 0 {
        lemma_layer_indices(b, p, (n - 1) as nat);
        let prev = bg_layers_upto(b, p, (n - 1) as nat);
        assert forall|i: int| 0 <= i < bg_layers_upto(b, p, n).len() implies (#[trigger] bg_layers_upto(
            b,
            p,
            n,
        )[i]).0 < n by {
            if i < prev.len() {
                assert(bg_layers_upto(b, p, n)[i] == prev[i]);
            }
        }
    }
}

/// The layers' rectangles lie inside the buffer.
proof fn lemma_layers_inside(b: TermBuffer, p: Seq<Seq<char>>, n: nat)
    requires
        n <= p.len(),
    ensures
        forall|i: int, k: int|
            0 <= i < bg_layers_upto(b, p, n).len() && 0 <= k < bg_layers_upto(b, p, n)[i].1.len() ==> {
                let r = #[trigger] bg_layers_upto(b, p, n)[i].1[k];
                r.y + r.h <= b.height && r.x + r.w <= b.width
            },
    decreases n,
{
    if n > 0 {
        lemma_layers_inside(b, p, (n - 1) as nat);
        let m = layer_mask(b, p[n - 1]);
        assert(grid(m, b.width as int, b.height as int));
        law_background_partition(m, b.width as int, b.height as int);
        let prev = bg_layers_upto(b, p, (n - 1) as nat);
        let cur = bg_layers_upto(b, p, n);
        assert forall|i: int, k: int| 0 <= i < cur.len() && 0 <= k < cur[i].1.len() implies {
            let r = #[trigger] cur[i].1[k];
            r.y + r.h <= b.height && r.x + r.w <= b.width
        } by {
            if i < prev.len() {
                assert(cur[i] == prev[i]);
            } else {
                assert(cur[i].1 == cover_rects(m, b.width as int, b.height as int));
            }
        }
    }
}

impl SvgModel {
    /// The model of a buffer: its size, its background rectangles with
    /// their colours (layer by layer, then stably sorted by column) and
    /// its runs of text with their colours.
    pub fn from_buffer(buffer: &TermBuffer) -> (m: SvgModel)
        requires
            buffer.wf(),
            fg_drawable(*buffer, palette_of(buffer.content@)),
        ensures
            m.width == buffer.width,
            m.height == buffer.height,
            ({
                let p = palette_of(buffer.content@);
                let ls = bg_layers(*buffer, p);
                let items = bg_items(ls, p, ls.len());
                bg_model_view(m.bg_rects@) == sorted_by_x(items, items.len())
            }),
            fg_model_view(m.fg_texts@) == fg_items(
                fg_runs(*buffer, palette_of(buffer.content@)),
                palette_of(buffer.content@),
            ),
    {
        let palette = build_palette(buffer);
        let ghost pv = chars_view(palette@);
        let layers = process_backgrounds(buffer, &palette);
        let runs = process_foregrounds(buffer, &palette);
        let ghost lv = layers_view(layers@);
        proof {
            lemma_layer_indices(*buffer, pv, pv.len());
        }
        let ghost items = bg_items(lv, pv, lv.len());
        let mut bg: Vec<ModelBgRect> = Vec::new();
        let ghost mut done: nat = 0;
        let mut i: usize = 0;
        assert(bg_model_view(bg@) =~= sorted_by_x(bg_items(lv, pv, 0), 0));
        while i < layers.len()
            invariant
                i <= layers@.len(),
                lv == layers_view(layers@),
                lv == bg_layers(*buffer, pv),
                pv == chars_view(palette@),
                forall|q: int| 0 <= q < lv.len() ==> (#[trigger] lv[q]).0 < pv.len(),
                bg_model_view(bg@) == sorted_by_x(bg_items(lv, pv, i as nat), bg_items(lv, pv, i as nat).len()),
            decreases layers@.len() - i,
        {
            let idx = layers[i].0;
            let rects = &layers[i].1;
            assert(lv[i as int] == (idx, rects@));
            let ghost prev = bg_items(lv, pv, i as nat);
            let ghost add = rects@.map_values(|r: BgRect| (r.x, r.y, r.w, r.h, pv[idx as int]));
            assert(bg_items(lv, pv, (i + 1) as nat) == prev + add);
            proof {
                lemma_sorted_prefix(prev, prev + add, prev.len());
            }
            let mut k: usize = 0;
            while k < rects.len()
                invariant
                    k <= rects@.len(),
                    idx < palette@.len(),
                    pv == chars_view(palette@),
                    add == rects@.map_values(|r: BgRect| (r.x, r.y, r.w, r.h, pv[idx as int])),
                    bg_model_view(bg@) == sorted_by_x(prev + add, (prev.len() + k) as nat),
                decreases rects@.len() - k,
            {
                let r = rects[k];
                let color = string_from_chars(palette[idx].as_slice());
                assert(pv[idx as int] == palette@[idx as int]@);
                let e = ModelBgRect { x: r.x, y: r.y, width: r.w, height: r.h, color: color };
                assert((prev + add)[prev.len() + k] == bg_item_view(e));
                insert_rect_by_x(&mut bg, e);
                k = k + 1;
            }
            assert(prev + add == bg_items(lv, pv, (i + 1) as nat));
            i = i + 1;
        }
        let mut fg: Vec<ModelFgText> = Vec::new();
        let ghost rv = runs_view(runs@);
        let mut j: usize = 0;
        while j < runs.len()
            invariant
                j <= runs@.len(),
                rv == runs_view(runs@),
                pv == chars_view(palette@),
                forall|k: int| 0 <= k < runs@.len() ==> (#[trigger] runs@[k]).color_idx < palette@.len(),
                fg_model_view(fg@) == fg_items(rv, pv).take(j as int),
            decreases runs@.len() - j,
        {
            let run = &runs[j];
            let color = string_from_chars(palette[run.color_idx].as_slice());
            assert(pv[run.color_idx as int] == palette@[run.color_idx as int]@);
            let t = ModelFgText {
                x: run.x,
                y: run.y,
                width: run.width,
                text: string_from_chars(str_chars(run.text.as_str()).as_slice()),
                color: color,
                category: run.category,
            };
            let ghost before = fg_model_view(fg@);
            assert(rv[j as int] == run_view(runs@[j as int]));
            assert(fg_items(rv, pv)[j as int] == fg_item_view(t));
            fg.push(t);
            assert(fg_model_view(fg@) =~= before.push(fg_item_view(t)));
            assert(fg_model_view(fg@) =~= fg_items(rv, pv).take(j as int + 1));
            j = j + 1;
        }
        assert(fg_items(rv, pv).take(runs@.len() as int) =~= fg_items(rv, pv));
        SvgModel { width: buffer.width, height: buffer.height, bg_rects: bg, fg_texts: fg }
    }
}

/// The SVG of a buffer: a canvas ten by twenty pixels per cell, the
/// palette's style sheet, the background layers and the runs of text.
pub fn buffer_to_svg(buffer: &TermBuffer) -> (r: String)
    requires
        buffer.wf(),
        fg_drawable(*buffer, palette_of(buffer.content@)),
        10 * buffer.width <= u16::MAX,
        20 * buffer.height <= u16::MAX,
    ensures
        r@ == crate::svg::svg_spec(
            buffer.width,
            buffer.height,
            palette_of(buffer.content@),
            bg_layers(*buffer, palette_of(buffer.content@)),
            fg_runs(*buffer, palette_of(buffer.content@)),
        ),
{
    let palette = build_palette(buffer);
    let layers = process_backgrounds(buffer, &palette);
    let runs = process_foregrounds(buffer, &palette);
    proof {
        let pv = chars_view(palette@);
        lemma_layers_inside(*buffer, pv, pv.len());
        let lv = layers_view(layers@);
        assert forall|i: int, k: int| 0 <= i < lv.len() && 0 <= k < lv[i].1.len() implies 2 * (
        #[trigger] lv[i].1[k]).y <= u16::MAX && 2 * lv[i].1[k].h <= u16::MAX by {
            let r = lv[i].1[k];
            assert(r.y + r.h <= buffer.height);
        }
        let rv = runs_view(runs@);
        assert forall|i: int| 0 <= i < rv.len() implies 2 * (#[trigger] rv[i]).1 + 1 <= u16::MAX by {
            assert(rv[i] == run_view(runs@[i]));
            assert(runs@[i].y < buffer.height);
        }
    }
    crate::svg::render_svg(buffer.width, buffer.height, &palette, &layers, runs.as_slice())
}

/// Every drawn cell has a width, so the runs can be stepped through.
fn drawable_exec(b: &TermBuffer, palette: &Vec<Vec<char>>) -> (r: bool)
    requires
        b.wf(),
        chars_view(palette@) == palette_of(b.content@),
    ensures
        r == fg_drawable(*b, chars_view(palette@)),
{
    let ghost pv = chars_view(palette@);
    let mut y: u16 = 0;
    while y < b.height
        invariant
            y <= b.height,
            b.wf(),
            pv == chars_view(palette@),
            pv == palette_of(b.content@),
            forall|yy: int| 0 <= yy < y ==> widths_positive(#[trigger] row_cells_from(*b, pv, yy, 0), b.width as int),
        decreases b.height - y,
    {
        let cells = row_cells_exec(b, palette, y);
        let ghost cv = cells_view(cells@);
        let mut i: usize = 0;
        while i < b.width as usize && i < cells.len()
            invariant
                cv == cells_view(cells@),
                y < b.height,
                pv == chars_view(palette@),
                cv == row_cells_from(*b, pv, y as int, 0),
                forall|j: int| 0 <= j < i && j < b.width ==> ((#[trigger] cv[j]) matches Some(it) ==> it.2 >= 1),
            decreases cells@.len() - i,
        {
            assert(cv[i as int] == cell_item_view(cells@[i as int]));
            match &cells[i] {
                Some(it) => {
                    if it.2 == 0 {
                        assert(!widths_positive(cv, b.width as int));
                        assert(!widths_positive(row_cells_from(*b, pv, y as int, 0), b.width as int));
                        return false;
                    }
                },
                None => {},
            }
            i = i + 1;
        }
        y = y + 1;
    }
    true
}

/// There is a cell for every position.
fn cells_complete(b: &TermBuffer) -> (r: bool)
    ensures
        r == b.wf(),
{
    let n = b.content.len();
    let w = b.width as u64;
    let h = b.height as u64;
    assert(w * h <= 0xffff_ffff) by (nonlinear_arith)
        requires
            w <= 0xffff,
            h <= 0xffff,
    ;
    w * h == n as u64
}

/// Whether a buffer can be exported: every position has a cell, its SVG
/// size fits, and no drawn cell has zero width.
pub open spec fn exportable(b: TermBuffer) -> bool {
    &&& b.wf()
    &&& 10 * b.width <= u16::MAX
    &&& 20 * b.height <= u16::MAX
    &&& fg_drawable(b, palette_of(b.content@))
}

/// The SVG of a buffer, or `None` when it cannot be exported (see
/// `exportable`).
pub fn try_buffer_to_svg(buffer: &TermBuffer) -> (r: Option<String>)
    ensures
        r is Some <==> exportable(*buffer),
        r matches Some(s) ==> s@ == crate::svg::svg_spec(
            buffer.width,
            buffer.height,
            palette_of(buffer.content@),
            bg_layers(*buffer, palette_of(buffer.content@)),
            fg_runs(*buffer, palette_of(buffer.content@)),
        ),
{
    if !cells_complete(buffer) {
        return None;
    }
    if buffer.width > 6553 || buffer.height > 3276 {
        return None;
    }
    let palette = build_palette(buffer);
    if !drawable_exec(buffer, &palette) {
        return None;
    }
    Some(buffer_to_svg(buffer))
}

impl SvgModel {
    /// The model of a buffer, or `None` when a position has no cell or a
    /// drawn cell has zero width.
    pub fn try_from_buffer(buffer: &TermBuffer) -> (r: Option<SvgModel>)
        ensures
            r is Some <==> buffer.wf() && fg_drawable(*buffer, palette_of(buffer.content@)),
            r matches Some(m) ==> m.width == buffer.width && m.height == buffer.height,
            r matches Some(m) ==> {
                let p = palette_of(buffer.content@);
                let ls = bg_layers(*buffer, p);
                let items = bg_items(ls, p, ls.len());
                &&& bg_model_view(m.bg_rects@) == sorted_by_x(items, items.len())
                &&& fg_model_view(m.fg_texts@) == fg_items(fg_runs(*buffer, p), p)
            },
    {
        if !cells_complete(buffer) {
            return None;
        }
        let palette = build_palette(buffer);
        if !drawable_exec(buffer, &palette) {
            return None;
        }
        Some(SvgModel::from_buffer(buffer))
    }
}

} // verus!
