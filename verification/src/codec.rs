use vstd::prelude::*;

verus! {

/// The lossless WebP byte stream the external codec produces for an RGBA8
/// buffer of the given dimensions.
pub uninterp spec fn webp_of(rgba: Seq<u8>, w: int, h: int) -> Seq<u8>;

/// An image encoding failure reported by the external codec.
#[derive(Clone, Copy, PartialEq, Eq, Structural, Debug)]
pub enum EncodeError {
    EncodeFailed,
}

/// Relies on image::codecs::webp::WebPEncoder::new_lossless and encode:
/// lossless WebP encoding of an RGBA8 buffer is a function of the pixel
/// bytes and the dimensions alone. The buffer length must match the
/// dimensions, as the encoder checks exactly that, and the dimensions
/// must be within the codec's canvas limit of 16384. Within those
/// bounds the encoder cannot fail: its only error paths are a zero or
/// oversized dimension, and I/O errors, which writing into a `Vec`
/// never raises.
#[verifier::external_body]
pub(crate) fn webp_encode_rgba(buf: &Vec<u8>, w: u32, h: u32) -> (r: Option<Vec<u8>>)
    requires
        buf@.len() == (w as int) * (h as int) * 4,
        w <= 16384,
        h <= 16384,
    ensures
        r matches Some(b) ==> b@ == webp_of(buf@, w as int, h as int),
        1 <= w && 1 <= h ==> r is Some,
{
    let mut out: Vec<u8> = Vec::new();
    let enc = image::codecs::webp::WebPEncoder::new_lossless(&mut out);
    match enc.encode(buf.as_slice(), w, h, image::ExtendedColorType::Rgba8) {
        Ok(()) => Some(out),
        Err(_) => None,
    }
}

} // verus!
