//! Character sets of catalogs: what is decoded by `encoding_rs`.

use vstd::prelude::*;
use vstd::string::*;

use encoding_rs::Encoding;

verus! {

/// A character encoding of `encoding_rs`, known by reference only.
#[verifier::external_type_specification]
#[verifier::external_body]
pub struct ExEncoding(encoding_rs::Encoding);

/// The encoding that a label of the Encoding Standard stands for: what
/// `Encoding::for_label` gives.
pub uninterp spec fn label_encoding(label: Seq<u8>) -> Option<&'static Encoding>;

/// Whether an encoding is UTF-8.
pub uninterp spec fn encoding_is_utf8(encoding: &Encoding) -> bool;

/// The name of an encoding: what `Encoding::name` gives.
pub uninterp spec fn encoding_label(encoding: &Encoding) -> Seq<char>;

/// The text that an encoding decodes bytes to, and whether malformed
/// sequences were replaced: what `Encoding::decode` gives.
pub uninterp spec fn decoded_text(encoding: &Encoding, bytes: Seq<u8>) -> (Seq<char>, bool);

/// The greatest number of bytes that are handed to a decoder at once.
pub const DECODE_LIMIT: usize = usize::MAX / 8;

/// Calls `Encoding::for_label`, whose result depends on the label alone and
/// is named `label_encoding`.
#[verifier::external_body]
pub(crate) fn encoding_for_label(label: &[u8]) -> (r: Option<&'static Encoding>)
    ensures
        r == label_encoding(label@),
{
    Encoding::for_label(label)
}

/// Compares an encoding with `encoding_rs::UTF_8`; the answer depends on
/// the encoding alone and is named `encoding_is_utf8`.
#[verifier::external_body]
pub(crate) fn is_utf8(encoding: &'static Encoding) -> (r: bool)
    ensures
        r == encoding_is_utf8(encoding),
{
    encoding == encoding_rs::UTF_8
}

/// Calls `Encoding::name`, whose result is named `encoding_label`.
#[verifier::external_body]
pub(crate) fn name_of(encoding: &'static Encoding) -> (r: &'static str)
    ensures
        r@ == encoding_label(encoding),
{
    encoding.name()
}

/// Calls `Encoding::decode`, whose result depends on the encoding and the
/// bytes alone and is named `decoded_text`. The length of the input is
/// bounded: the decoder reserves up to three bytes and a few more for each
/// byte of input, and panics where that size does not fit.
#[verifier::external_body]
pub(crate) fn decode_with(encoding: &'static Encoding, bytes: &[u8]) -> (r: (String, bool))
    requires
        bytes@.len() <= DECODE_LIMIT,
    ensures
        (r.0@, r.1) == decoded_text(encoding, bytes@),
{
    let (text, _, errors) = encoding.decode(bytes);
    (text.into_owned(), errors)
}

} // verus!
