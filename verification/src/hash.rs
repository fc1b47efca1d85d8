//! Checksums.
use sha2::Digest;

use vstd::prelude::*;

verus! {

/// The SHA-256 digest of bytes, as `sha2` computes it.
pub uninterp spec fn sha256_of(data: Seq<u8>) -> Seq<u8>;

/// Calls `sha2::Sha256::digest`. The result is named; it is 32 bytes long.
#[verifier::external_body]
pub(crate) fn sha256(data: &[u8]) -> (r: Vec<u8>)
    ensures
        r@ == sha256_of(data@),
        r@.len() == 32,
{
    sha2::Sha256::digest(data).to_vec()
}

/// The hexadecimal digit of a number below sixteen.
pub open spec fn hex_digit(d: int) -> char {
    "0123456789abcdef"@[d]
}

/// Bytes written in hexadecimal, two lower-case digits each.
pub open spec fn hex_of(data: Seq<u8>) -> Seq<char> {
    Seq::new(
        2 * data.len(),
        |i: int|
            if i % 2 == 0 {
                hex_digit(data[i / 2] as int / 16)
            } else {
                hex_digit(data[i / 2] as int % 16)
            },
    )
}

/// Calls `hex::encode`: two lower-case hexadecimal digits for each byte, the
/// high half first.
#[verifier::external_body]
pub(crate) fn hex_encode(data: &[u8]) -> (r: String)
    ensures
        r@ == hex_of(data@),
{
    hex::encode(data)
}

/// The checksum of a file's content: its SHA-256 digest in hexadecimal.
pub open spec fn checksum_of(data: Seq<u8>) -> Seq<char> {
    hex_of(sha256_of(data))
}

/// The checksum of a file's content.
pub fn file_sha256(data: &[u8]) -> (r: String)
    ensures
        r@ == checksum_of(data@),
        r@.len() == 64,
{
    hex_encode(sha256(data).as_slice())
}

/// A checksum has two digits for each byte, the higher one first: from `0` to
/// `9` and then from `a` to `f`.
pub proof fn two_digits_for_each_byte(data: Seq<u8>, k: int)
    requires
        0 <= k < data.len(),
    ensures
        hex_of(data).len() == 2 * data.len(),
        ({
            let high = data[k] as int / 16;
            let low = data[k] as int % 16;
            &&& high < 10 ==> hex_of(data)[2 * k] as int == '0' as int + high
            &&& high >= 10 ==> hex_of(data)[2 * k] as int == 'a' as int + high - 10
            &&& low < 10 ==> hex_of(data)[2 * k + 1] as int == '0' as int + low
            &&& low >= 10 ==> hex_of(data)[2 * k + 1] as int == 'a' as int + low - 10
        }),
{
    reveal_strlit("0123456789abcdef");
    let digits = "0123456789abcdef"@;
    assert(digits[0] == '0' && digits[1] == '1' && digits[2] == '2' && digits[3] == '3');
    assert(digits[4] == '4' && digits[5] == '5' && digits[6] == '6' && digits[7] == '7');
    assert(digits[8] == '8' && digits[9] == '9' && digits[10] == 'a' && digits[11] == 'b');
    assert(digits[12] == 'c' && digits[13] == 'd' && digits[14] == 'e' && digits[15] == 'f');
    assert((2 * k) % 2 == 0 && (2 * k) / 2 == k);
    assert((2 * k + 1) % 2 == 1 && (2 * k + 1) / 2 == k);
}

} // verus!
