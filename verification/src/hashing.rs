//! The digests and encodings the library takes from outside crates:
//! SHA-1, SHA-512, CRC-32 and Base64. Each result is named by what it is a
//! function of; nothing here restates the algorithms.
use vstd::prelude::*;

use base64::Engine;
use sha1::Digest;

verus! {

/// The SHA-1 digest of `data`.
pub uninterp spec fn sha1_digest(data: Seq<u8>) -> Seq<u8>;

/// `sha1::Sha1::digest`: the 20-byte SHA-1 digest of `data`, which depends on
/// `data` alone.
#[verifier::external_body]
pub(crate) fn sha1_of(data: &[u8]) -> (r: Vec<u8>)
    ensures
        r@ == sha1_digest(data@),
        r@.len() == 20,
{
    sha1::Sha1::digest(data).to_vec()
}

/// The SHA-512 digest of `data`.
pub uninterp spec fn sha512_digest(data: Seq<u8>) -> Seq<u8>;

/// `sha2::Sha512::digest`: the 64-byte SHA-512 digest of `data`, which
/// depends on `data` alone.
#[verifier::external_body]
pub(crate) fn sha512_of(data: &[u8]) -> (r: Vec<u8>)
    ensures
        r@ == sha512_digest(data@),
        r@.len() == 64,
{
    sha2::Sha512::digest(data).to_vec()
}

/// The padded standard-alphabet Base64 text of `data`.
pub uninterp spec fn base64_standard(data: Seq<u8>) -> Seq<char>;

/// `base64::engine::general_purpose::STANDARD.encode`: the padded Base64
/// text of `data` in the standard alphabet, a function of `data` alone.
#[verifier::external_body]
pub(crate) fn base64_of(data: &[u8]) -> (r: String)
    ensures
        r@ == base64_standard(data@),
{
    base64::engine::general_purpose::STANDARD.encode(data)
}

#[verifier::external_type_specification]
#[verifier::external_body]
pub struct ExCrc32Hasher(crc32fast::Hasher);

/// The bytes a CRC-32 hasher has been fed, in order.
pub uninterp spec fn crc32_fed(h: crc32fast::Hasher) -> Seq<u8>;

/// The CRC-32 (IEEE) checksum of `data`.
pub uninterp spec fn crc32_ieee(data: Seq<u8>) -> u32;

/// `crc32fast::Hasher::new`: a hasher that has been fed nothing.
#[verifier::external_body]
pub(crate) fn crc32_new() -> (h: crc32fast::Hasher)
    ensures
        crc32_fed(h) == Seq::<u8>::empty(),
{
    crc32fast::Hasher::new()
}

/// `crc32fast::Hasher::update`: feeds `data` after what the hasher has had.
#[verifier::external_body]
pub(crate) fn crc32_update(h: &mut crc32fast::Hasher, data: &[u8])
    ensures
        crc32_fed(*final(h)) == crc32_fed(*old(h)) + data@,
{
    h.update(data);
}

/// `crc32fast::Hasher::finalize`: the CRC-32 of everything fed.
#[verifier::external_body]
pub(crate) fn crc32_finalize(h: crc32fast::Hasher) -> (r: u32)
    ensures
        r == crc32_ieee(crc32_fed(h)),
{
    h.finalize()
}

} // verus!
