//! Small panels: the profile tabs and the QR code modal's size.
use crate::message_list::split_nl;
use crate::text::{str_chars, string_from_chars};
use crate::unicode::{display_width, str_width};
use vstd::prelude::*;

verus! {

broadcast use vstd::std_specs::vec::group_vec_axioms;

/// The profile tabs: the profiles' names and the selected one.
#[derive(Debug, Clone)]
pub struct ProfileTabs {
    pub profiles: Vec<String>,
    pub selected_index: usize,
}

impl ProfileTabs {
    pub fn new(profiles: Vec<String>, selected_index: usize) -> (t: Self)
        ensures
            t.profiles@ == profiles@,
            t.selected_index == selected_index,
    {
        ProfileTabs { profiles: profiles, selected_index: selected_index }
    }
}

/// What `qrcode` draws for `data` with two pixels per character
/// (`QrCode::new`, then `render::<Dense1x2>().build()`): the picture, or
/// nothing when the data does not fit a QR code.
pub uninterp spec fn qr_dense_picture(data: Seq<char>) -> Option<Seq<char>>;

/// `qrcode::QrCode::new(data)` and, when it succeeds, the code drawn with
/// `render::<unicode::Dense1x2>().build()`.  The picture is a function of
/// the data alone; the contract names it and claims nothing more.
#[verifier::external_body]
fn render_qr(data: &str) -> (r: Option<String>)
    ensures
        match r {
            Some(s) => qr_dense_picture(data@) == Some(s@),
            None => qr_dense_picture(data@) is None,
        },
{
    match qrcode::QrCode::new(data) {
        Ok(code) => Some(code.render::<qrcode::render::unicode::Dense1x2>().build()),
        Err(_) => None,
    }
}

/// `s` without one trailing carriage return.
pub open spec fn strip_cr(s: Seq<char>) -> Seq<char> {
    if s.len() > 0 && s.last() == '\r' {
        s.drop_last()
    } else {
        s
    }
}

/// The lines of `s` as `str::lines` yields them: split at newlines, a
/// final newline ending the last line rather than starting an empty one,
/// each line without a trailing carriage return.
pub open spec fn text_lines(s: Seq<char>) -> Seq<Seq<char>> {
    if s.len() == 0 {
        seq![]
    } else {
        let p = split_nl(s);
        let q = if p.last().len() == 0 {
            p.drop_last()
        } else {
            p
        };
        q.map_values(|l: Seq<char>| strip_cr(l))
    }
}

/// The widest of the lines `0..n` (0 for none).
pub open spec fn widest_line(ls: Seq<Seq<char>>, n: nat) -> nat
    decreases n,
{
    if n == 0 {
        0
    } else {
        let w = str_width(ls[n - 1]);
        let m = widest_line(ls, (n - 1) as nat);
        if w > m {
            w
        } else {
            m
        }
    }
}

/// The size (width, height) a picture needs inside a border: its widest
/// line and its number of lines, two more each.
pub open spec fn picture_size(p: Seq<char>) -> (u16, u16) {
    let ls = text_lines(p);
    (vstd::wrapping::u16_specs::wrapping_add(widest_line(ls, ls.len()) as u16, 2), vstd::wrapping::u16_specs::wrapping_add(
        ls.len() as u16,
        2,
    ))
}

/// The size a picture needs inside a border.
pub fn picture_box_size(picture: &str) -> (r: (u16, u16))
    ensures
        r == picture_size(picture@),
{
    let chars = str_chars(picture);
    if chars.len() == 0 {
        return (2, 2);
    }
    let pieces = crate::message_list::split_newlines(chars.as_slice());
    let ghost pv = split_nl(picture@);
    proof {
        crate::message_list::lemma_split_nl_nonempty(picture@);
    }
    let mut n = pieces.len();
    if pieces[n - 1].len() == 0 {
        n = n - 1;
    }
    let ghost q = if pv.last().len() == 0 {
        pv.drop_last()
    } else {
        pv
    };
    let ghost ls = text_lines(picture@);
    assert(q.len() == n);
    let mut widest: usize = 0;
    let mut i: usize = 0;
    while i < n
        invariant
            i <= n <= pieces@.len(),
            pv == crate::message_list::pieces_view(pieces@),
            q.len() == n,
            forall|k: int| 0 <= k < n ==> q[k] == pv[k],
            ls == q.map_values(|l: Seq<char>| strip_cr(l)),
            widest == widest_line(ls, i as nat),
        decreases n - i,
    {
        let line = &pieces[i];
        let ln = line.len();
        let stripped = if ln > 0 && line[ln - 1] == '\r' {
            crate::text::chars_range(line.as_slice(), 0, ln - 1)
        } else {
            crate::text::chars_range(line.as_slice(), 0, ln)
        };
        assert(stripped@ =~= strip_cr(line@));
        assert(ls[i as int] == strip_cr(q[i as int]));
        let w = display_width(string_from_chars(stripped.as_slice()).as_str());
        if w > widest {
            widest = w;
        }
        i = i + 1;
    }
    ((widest as u16).wrapping_add(2), (n as u16).wrapping_add(2))
}

/// The QR code modal: the data shown and the title.
#[derive(Debug, Clone)]
pub struct QrCodeModal {
    pub data: String,
    pub title: String,
}

impl QrCodeModal {
    /// A modal showing `data` under the default title.
    pub fn new(data: String) -> (m: Self)
        ensures
            m.data == data,
            m.title@ == " Tox ID QR Code (Press any key to close) "@,
    {
        QrCodeModal { data: data, title: " Tox ID QR Code (Press any key to close) ".to_owned() }
    }

    /// The modal with another title.
    pub fn title(self, title: String) -> (m: Self)
        ensures
            m.title == title,
            m.data == self.data,
    {
        QrCodeModal { data: self.data, title: title }
    }

    /// The size (width, height) the modal needs: the QR code's picture
    /// inside a border, or 20 by 5 when the data does not fit a QR code.
    pub fn required_size(&self) -> (r: (u16, u16))
        ensures
            r == match qr_dense_picture(self.data@) {
                Some(p) => picture_size(p),
                None => (20u16, 5u16),
            },
    {
        match render_qr(self.data.as_str()) {
            Some(p) => picture_box_size(p.as_str()),
            None => (20, 5),
        }
    }
}

} // verus!
