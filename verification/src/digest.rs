//! The digest and the encoding that make the identity of an application.
//!
//! Both functions in this file are believed, not proved: each hands its
//! argument to another crate and hands the answer back.

use base64::Engine;
use sha2::Digest;
use vstd::prelude::*;

verus! {

/// The SHA-256 digest of a sequence of bytes.
pub uninterp spec fn sha256_digest(data: Seq<u8>) -> Seq<u8>;

/// The text of a sequence of bytes in base64, with the standard alphabet
/// and with padding.
pub uninterp spec fn base64_text(data: Seq<u8>) -> Seq<char>;

/// The longest input that `base64_standard` takes: short enough that the
/// length of its text fits the machine.
pub const BASE64_MAX_INPUT: usize = 0x3fff_ffff;

/// `sha2::Sha256::digest`: the digest of the bytes, which is 32 bytes long.
#[verifier::external_body]
pub(crate) fn sha256(data: &[u8]) -> (r: Vec<u8>)
    ensures
        r@ == sha256_digest(data@),
        r@.len() == 32,
{
    sha2::Sha256::digest(data).to_vec()
}

/// `encode` of `base64::engine::general_purpose::STANDARD`: the text of
/// the bytes. The encoder gives up on an input whose text would be longer
/// than the machine can count; the bound leaves such inputs out.
#[verifier::external_body]
pub(crate) fn base64_standard(data: &[u8]) -> (r: String)
    requires
        data@.len() <= BASE64_MAX_INPUT,
    ensures
        r@ == base64_text(data@),
{
    base64::engine::general_purpose::STANDARD.encode(data)
}

} // verus!
