//! Content digests: SHA-256, written as lower-case hexadecimal.

use crate::failure::{Failure, FailureKind};
use vstd::prelude::*;

verus! {

/// The SHA-256 digest of `data`, as `ring::digest::digest` computes it.
pub uninterp spec fn sha256(data: Seq<u8>) -> Seq<u8>;

/// The lengths from which on `ring` refuses to digest: the number of bits
/// no longer fits into 64 bits.
pub const DIGEST_LIMIT: u64 = 0x2000_0000_0000_0000;

/// The hexadecimal digit for `n`, which is below 16.
pub open spec fn hex_digit(n: int) -> char {
    "0123456789abcdef"@[n]
}

/// Two hexadecimal digits for each byte of `bytes`, the high half first.
pub open spec fn hex_lower(bytes: Seq<u8>) -> Seq<char>
    decreases bytes.len(),
{
    if bytes.len() == 0 {
        Seq::empty()
    } else {
        hex_lower(bytes.drop_last()).push(hex_digit(bytes.last() as int / 16)).push(
            hex_digit(bytes.last() as int % 16),
        )
    }
}

/// The digest of `data` as text.
pub open spec fn digest_of(data: Seq<u8>) -> Seq<char> {
    hex_lower(sha256(data))
}

/// Calls `ring::digest::digest` with `ring::digest::SHA256`. Trusted: the
/// bytes returned are those that `sha256` names for the data, and they are
/// 32, the output length of that algorithm. The call panics on data of
/// `DIGEST_LIMIT` bytes or more, which `requires` leaves out.
#[verifier::external_body]
fn sha256_bytes(data: &[u8]) -> (out: Vec<u8>)
    requires
        data@.len() < DIGEST_LIMIT,
    ensures
        out@ == sha256(data@),
        out@.len() == 32,
{
    ring::digest::digest(&ring::digest::SHA256, data).as_ref().to_vec()
}

/// Calls `data_encoding::HEXLOWER.encode`. Trusted: the text holds two
/// digits out of `0123456789abcdef` for each byte, the high half first. The
/// call panics on more than `usize::MAX / 512` bytes, which `requires` leaves
/// out.
#[verifier::external_body]
fn hex_encode(bytes: &[u8]) -> (s: String)
    requires
        bytes@.len() <= usize::MAX / 512,
    ensures
        s@ == hex_lower(bytes@),
{
    data_encoding::HEXLOWER.encode(bytes)
}

/// The SHA-256 digest of `data` in lower-case hexadecimal, or a failure
/// where `data` is too long to be digested.
pub fn digest(data: &[u8]) -> (r: Result<String, Failure>)
    ensures
        data@.len() < DIGEST_LIMIT ==> r.is_ok() && r.unwrap()@ == digest_of(data@),
        data@.len() >= DIGEST_LIMIT ==> r.is_err() && r.unwrap_err().kind == FailureKind::TooLong,
{
    if data.len() as u64 >= DIGEST_LIMIT {
        return Err(Failure::new(FailureKind::TooLong, String::from_str("data too long to digest")));
    }
    let bytes = sha256_bytes(data);
    Ok(hex_encode(bytes.as_slice()))
}

} // verus!
