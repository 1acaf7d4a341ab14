use vstd::prelude::*;

verus! {

#[verifier::external_type_specification]
#[verifier::external_body]
pub struct ExFont<'a>(rusttype::Font<'a>);

/// Whether the external font parser accepts these bytes as a font.
pub uninterp spec fn font_parses(data: Seq<u8>) -> bool;

/// Errors of the text pipeline: a font file that could not be read, or
/// bytes that are not a valid font.
#[derive(Clone, Copy, PartialEq, Eq, Structural, Debug)]
pub enum FontError {
    ReadFailed,
    ParseFailed,
}

/// Relies on rusttype::Font::try_from_vec: whether data parses as a font
/// depends on the bytes alone, and `None` is returned exactly for data
/// that does not parse.
#[verifier::external_body]
pub(crate) fn font_try_parse(data: Vec<u8>) -> (r: Option<rusttype::Font<'static>>)
    ensures
        r is Some <==> font_parses(data@),
{
    rusttype::Font::try_from_vec(data)
}

} // verus!
