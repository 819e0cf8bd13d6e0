//! The two digests of the protocol, and their text.
use vstd::prelude::*;

use crate::json::{hex_digit, hex_digit_exec};

verus! {

/// The SHA-256 digest of a byte sequence.
pub uninterp spec fn sha256_of(data: Seq<u8>) -> Seq<u8>;

/// The MD5 digest of a byte sequence.
pub uninterp spec fn md5_of(data: Seq<u8>) -> Seq<u8>;

/// Relies on sha2's `Sha256::digest`: the SHA-256 digest of `data`, which depends
/// on the bytes alone.
#[verifier::external_body]
pub(crate) fn sha256(data: &[u8]) -> (r: [u8; 32])
    ensures
        r@ == sha256_of(data@),
{
    <sha2::Sha256 as sha2::Digest>::digest(data).into()
}

/// Relies on md5's `compute`: the MD5 digest of `data`, which depends on the
/// bytes alone.
#[verifier::external_body]
pub(crate) fn md5_digest(data: &[u8]) -> (r: [u8; 16])
    ensures
        r@ == md5_of(data@),
{
    md5::compute(data).0
}

/// Two lower-case hexadecimal digits for each byte.
pub open spec fn hex_of(b: Seq<u8>) -> Seq<char>
    decreases b.len(),
{
    if b.len() == 0 {
        seq![]
    } else {
        hex_of(b.drop_last()) + seq![
            hex_digit(b.last() as int / 16),
            hex_digit(b.last() as int % 16),
        ]
    }
}

/// Writes each byte as two lower-case hexadecimal digits.
pub fn to_hex(b: &[u8]) -> (r: String)
    ensures
        r@ == hex_of(b@),
{
    let digits = "0123456789abcdef";
    proof {
        reveal_strlit("0123456789abcdef");
    }
    let mut r = String::new();
    let mut i: usize = 0;
    assert(b@.take(0) =~= Seq::<u8>::empty());
    while i < b.len()
        invariant
            i <= b@.len(),
            r@ == hex_of(b@.take(i as int)),
            digits@ == "0123456789abcdef"@,
            digits@.len() == 16,
        decreases b.len() - i,
    {
        let hi = (b[i] / 16) as usize;
        let lo = (b[i] % 16) as usize;
        let ghost before = r@;
        let h = hex_digit_exec(hi as u32);
        let l = hex_digit_exec(lo as u32);
        r.append(digits.substring_char(hi, hi + 1));
        r.append(digits.substring_char(lo, lo + 1));
        proof {
            assert(b@.take(i + 1).drop_last() =~= b@.take(i as int));
            assert(r@ =~= before + seq![h, l]);
        }
        i = i + 1;
    }
    assert(b@.take(i as int) =~= b@);
    r
}

} // verus!
