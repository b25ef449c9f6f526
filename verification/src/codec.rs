//! Trusted bridges to the outside text codecs and the digest: each wrapper
//! makes exactly one outside call, and its contract names the call's result
//! where that result is a pure function of the arguments.

use vstd::prelude::*;

verus! {

/// What `encoding_rs::ISO_8859_15.decode` yields, re-encoded as UTF-8
/// bytes: a pure function of the raw bytes alone.
pub uninterp spec fn latin9_utf8_of(b: Seq<u8>) -> Seq<u8>;

/// Relies on encoding_rs::ISO_8859_15.decode: decoding a legacy
/// single-byte page never fails (malformed sequences are replaced) and
/// depends on the input bytes alone.
#[verifier::external_body]
pub(crate) fn decode_latin9(b: &[u8]) -> (r: Vec<u8>)
    ensures
        r@ == latin9_utf8_of(b@),
{
    let (text, _, _) = encoding_rs::ISO_8859_15.decode(b);
    text.into_owned().into_bytes()
}

/// What `encoding_rs::UTF_8.decode` yields, as UTF-8 bytes: a pure
/// function of the raw bytes alone (invalid sequences are replaced).
pub uninterp spec fn utf8_lossy_of(b: Seq<u8>) -> Seq<u8>;

/// Relies on encoding_rs::UTF_8.decode: validation-with-replacement never
/// fails and depends on the input bytes alone.
#[verifier::external_body]
pub(crate) fn decode_utf8(b: &[u8]) -> (r: Vec<u8>)
    ensures
        r@ == utf8_lossy_of(b@),
{
    let (text, _, _) = encoding_rs::UTF_8.decode(b);
    text.into_owned().into_bytes()
}

/// The lowercase hex rendering of the MD5 digest of `b`: a pure function
/// of the input alone.
pub uninterp spec fn md5_hex_of(b: Seq<u8>) -> Seq<u8>;

/// Relies on md5::compute and the `LowerHex` rendering of its `Digest`:
/// the digest is 16 bytes, rendered as exactly 32 lowercase hex digits,
/// and depends on the input alone.
#[verifier::external_body]
pub(crate) fn md5_hex(b: &[u8]) -> (r: Vec<u8>)
    ensures
        r@ == md5_hex_of(b@),
        r@.len() == 32,
{
    format!("{:x}", md5::compute(b)).into_bytes()
}

/// What `html_escape::decode_html_entities` yields for the given text, as
/// UTF-8 bytes: a pure function of the text alone.
pub uninterp spec fn html_unescaped_of(s: Seq<char>) -> Seq<u8>;

/// Relies on html_escape::decode_html_entities: entity decoding depends
/// on the text alone and leaves empty input empty.
#[verifier::external_body]
pub(crate) fn decode_entities(s: &str) -> (r: Vec<u8>)
    ensures
        r@ == html_unescaped_of(s@),
        s@.len() == 0 ==> r@.len() == 0,
{
    html_escape::decode_html_entities(s).into_owned().into_bytes()
}


/// The station identifier is a pure function of the detail-page URL: two
/// fetches that build the same URL always derive the same identifier, in
/// this run and in any other.
pub proof fn lemma_id_stable(u1: Seq<u8>, u2: Seq<u8>)
    requires
        u1 == u2,
    ensures
        md5_hex_of(u1) == md5_hex_of(u2),
{
}

} // verus!
