//! Decoding the raw dump: gzip decompression and UTF-8 interpretation.

use vstd::prelude::*;
use vstd::utf8::*;

verus! {

/// The bytes a well-formed gzip stream decompresses to; a function of the
/// input bytes alone.
pub uninterp spec fn gunzip_of(bytes: Seq<u8>) -> Seq<u8>;

/// Whether the bytes are a gzip stream the decoder accepts whole; a
/// function of the input bytes alone.
pub uninterp spec fn gzip_ok(bytes: Seq<u8>) -> bool;

/// Relies on flate2's read::GzDecoder driven by std's Read::read_to_end:
/// gzip decompression, succeeding exactly on an acceptable stream. A
/// slice read raises no I/O error of its own, so failure means the
/// stream itself was refused.
#[verifier::external_body]
pub fn gunzip(bytes: &Vec<u8>) -> (r: Option<Vec<u8>>)
    ensures
        r is Some <==> gzip_ok(bytes@),
        r is Some ==> r->0@ == gunzip_of(bytes@),
{
    let mut out: Vec<u8> = Vec::new();
    let mut dec = flate2::read::GzDecoder::new(bytes.as_slice());
    match std::io::Read::read_to_end(&mut dec, &mut out) {
        Ok(_) => Some(out),
        Err(_) => None,
    }
}

/// Relies on String::from_utf8: succeeds exactly on valid UTF-8 and keeps
/// the bytes as the string's encoding.
#[verifier::external_body]
pub fn string_from_utf8(v: Vec<u8>) -> (r: Option<String>)
    ensures
        r is Some <==> valid_utf8(v@),
        r is Some ==> encode_utf8(r->0@) == v@,
{
    match String::from_utf8(v) {
        Ok(s) => Some(s),
        Err(_) => None,
    }
}

} // verus!
