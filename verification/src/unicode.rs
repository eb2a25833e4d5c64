//! The two Unicode services the layout code relies on: grapheme cluster
//! segmentation (`unicode_segmentation`) and terminal display width
//! (`unicode_width`).
use unicode_segmentation::UnicodeSegmentation;
use unicode_width::UnicodeWidthStr;
use vstd::prelude::*;

verus! {

/// The extended grapheme clusters that `unicode_segmentation` splits a
/// string into.
pub uninterp spec fn grapheme_clusters(s: Seq<char>) -> Seq<Seq<char>>;

/// The display width `unicode_width` gives a string.
pub uninterp spec fn str_width(s: Seq<char>) -> nat;

pub open spec fn strings_chars(v: Seq<String>) -> Seq<Seq<char>> {
    v.map_values(|g: String| g@)
}

/// `UnicodeSegmentation::graphemes(s, true)`, collected.  The clusters
/// cover the string: none is empty and together, in order, they are the
/// string.
#[verifier::external_body]
pub(crate) fn graphemes(s: &str) -> (r: Vec<String>)
    ensures
        strings_chars(r@) == grapheme_clusters(s@),
        strings_chars(r@).flatten() == s@,
        forall|i: int| 0 <= i < r@.len() ==> (#[trigger] r@[i])@.len() > 0,
{
    s.graphemes(true).map(|g| g.to_string()).collect()
}

/// `UnicodeWidthStr::width`.  The empty string is zero columns wide, and
/// by the crate's documented rules no character is wider than three
/// columns and no ligature wider than its characters, so a string is at
/// most three columns per character wide.
#[verifier::external_body]
pub(crate) fn display_width(s: &str) -> (w: usize)
    ensures
        w == str_width(s@),
        s@.len() == 0 ==> w == 0,
        w <= 3 * s@.len(),
{
    s.width()
}

} // verus!
