//! Hashes, by `sha2`, and their text form, by `base64`.

use vstd::prelude::*;

verus! {

/// The SHA-256 hash of some bytes, as `sha2::Sha256` computes it.
pub uninterp spec fn sha256(bytes: Seq<u8>) -> Seq<u8>;

/// The URL-safe Base64 text of some bytes without padding, as `base64` writes it.
pub uninterp spec fn base64_url(bytes: Seq<u8>) -> Seq<char>;

/// Whether `c` is in the alphabet of URL-safe Base64.
pub open spec fn base64_char(c: char) -> bool {
    'A' <= c <= 'Z' || 'a' <= c <= 'z' || '0' <= c <= '9' || c == '-' || c == '_'
}

/// `sha2::Sha256::digest`: the hash of `bytes`, 32 bytes long.
#[verifier::external_body]
pub(crate) fn hash(bytes: &[u8]) -> (r: Vec<u8>)
    ensures
        r@ == sha256(bytes@),
        r@.len() == 32,
{
    <sha2::Sha256 as sha2::Digest>::digest(bytes).to_vec()
}

/// `encode` of the engine `base64::engine::general_purpose::URL_SAFE_NO_PAD`: the text of `bytes`, four
/// characters for three bytes, without padding, in the URL-safe alphabet. It panics where the length of the
/// text does not fit in a `usize`.
#[verifier::external_body]
pub(crate) fn encode_url(bytes: &[u8]) -> (r: String)
    requires
        bytes@.len() <= usize::MAX / 4,
    ensures
        r@ == base64_url(bytes@),
        r@.len() == (bytes@.len() * 4 + 2) / 3,
        forall|i: int| 0 <= i < r@.len() ==> base64_char(#[trigger] r@[i]),
{
    base64::Engine::encode(&base64::engine::general_purpose::URL_SAFE_NO_PAD, bytes)
}

} // verus!
