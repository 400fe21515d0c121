//! Gzip frames, as `flate2` decodes them.
//!
//! Nothing here is proved: the function states what `flate2` is trusted to
//! do.

use vstd::prelude::*;

verus! {

/// The text that the gzip member at the start of `bytes` decodes to, as
/// `flate2::read::GzDecoder` reads it into a string; `None` where the bytes
/// are no gzip member or what they hold is no UTF-8 text.
pub uninterp spec fn gunzipped(bytes: Seq<u8>) -> Option<Seq<char>>;

/// Reads a `flate2::read::GzDecoder` over `bytes` to its end, into a
/// string. Trusted: whether that succeeds, and the text it gives, depend on
/// the bytes alone.
#[verifier::external_body]
pub(crate) fn gunzip(bytes: &[u8]) -> (text: Option<String>)
    ensures
        match text {
            Some(t) => gunzipped(bytes@) == Some(t@),
            None => gunzipped(bytes@) is None,
        },
{
    let mut decoder = flate2::read::GzDecoder::new(bytes);
    let mut text = String::new();
    match std::io::Read::read_to_string(&mut decoder, &mut text) {
        Ok(_) => Some(text),
        Err(_) => None,
    }
}

} // verus!
