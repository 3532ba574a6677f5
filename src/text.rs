use unicode_segmentation::UnicodeSegmentation;
use unicode_width::UnicodeWidthStr;
use vstd::prelude::*;
use vstd::string::StringSliceAdditionalSpecFns;
use vstd::utf8::*;

verus! {

/// Byte offsets at which the extended grapheme clusters of a text start.
pub uninterp spec fn grapheme_starts(s: Seq<char>) -> Seq<usize>;

/// Relies on `UnicodeSegmentation::grapheme_indices(s, true)`: it walks the
/// extended grapheme clusters of `s` in order, each with the byte offset at
/// which it starts; together the clusters cover `s` without gaps.
#[verifier::external_body]
pub(crate) fn grapheme_offsets(s: &str) -> (r: Vec<usize>)
    ensures
        r@ == grapheme_starts(s@),
        r@.len() == 0 <==> s@.len() == 0,
        r@.len() > 0 ==> r@[0] == 0,
        forall|i: int|
            0 <= i < r@.len() ==> r@[i] < s.spec_bytes().len() && is_char_boundary(
                s.spec_bytes(),
                r@[i] as int,
            ),
        forall|i: int, j: int| 0 <= i < j < r@.len() ==> r@[i] < r@[j],
{
    s.grapheme_indices(true).map(|(i, _)| i).collect()
}

/// Columns that a text takes on a terminal.
pub uninterp spec fn display_width(s: Seq<char>) -> usize;

/// Relies on `UnicodeWidthStr::width`: the displayed width of `s` in
/// columns, which depends on its characters alone.
#[verifier::external_body]
pub(crate) fn str_width(s: &str) -> (r: usize)
    ensures
        r == display_width(s@),
{
    s.width()
}

} // verus!
