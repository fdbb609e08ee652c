use vstd::prelude::*;

use crate::models::HashType;

verus! {

/// The CRC-32 of the bytes as eight lowercase hex digits.
pub uninterp spec fn crc32_hex_of(data: Seq<u8>) -> Seq<char>;

/// The MD5 digest of the bytes as lowercase hex digits.
pub uninterp spec fn md5_hex_of(data: Seq<u8>) -> Seq<char>;

/// The SHA-1 digest of the bytes as lowercase hex digits.
pub uninterp spec fn sha1_hex_of(data: Seq<u8>) -> Seq<char>;

/// The content hash of the given algorithm, as the catalog writes it.
pub open spec fn hash_of(data: Seq<u8>, t: HashType) -> Seq<char> {
    match t {
        HashType::Crc => crc32_hex_of(data),
        HashType::Md5 => md5_hex_of(data),
        HashType::Sha1 => sha1_hex_of(data),
    }
}

/// Relies on crc32fast::hash for the CRC-32 of the bytes; the value is
/// written as eight zero-padded lowercase hex digits.
#[verifier::external_body]
fn crc32_hex(data: &[u8]) -> (r: String)
    ensures
        r@ == crc32_hex_of(data@),
{
    format!("{:08x}", crc32fast::hash(data))
}

/// Relies on md5::Md5 (through digest::Digest::digest) for the MD5 digest of
/// the bytes, written in lowercase hex.
#[verifier::external_body]
fn md5_hex(data: &[u8]) -> (r: String)
    ensures
        r@ == md5_hex_of(data@),
{
    format!("{:x}", <md5::Md5 as md5::Digest>::digest(data))
}

/// Relies on sha1::Sha1 (through digest::Digest::digest) for the SHA-1 digest
/// of the bytes, written in lowercase hex.
#[verifier::external_body]
fn sha1_hex(data: &[u8]) -> (r: String)
    ensures
        r@ == sha1_hex_of(data@),
{
    format!("{:x}", <sha1::Sha1 as sha1::Digest>::digest(data))
}

/// Hashes a file's whole content with the chosen algorithm.
pub fn calculate_hash(data: &[u8], hash_type: HashType) -> (r: String)
    ensures
        r@ == hash_of(data@, hash_type),
{
    match hash_type {
        HashType::Crc => crc32_hex(data),
        HashType::Md5 => md5_hex(data),
        HashType::Sha1 => sha1_hex(data),
    }
}

} // verus!
