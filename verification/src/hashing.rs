//! SHA-256, HMAC-SHA-256, HKDF-SHA-256 and hexadecimal decoding, as used by the signature
//! scheme. The hash functions are named, not written out: each name is a function of its
//! arguments alone.

use hkdf::Hkdf;
use hmac::{Hmac, Mac};
use sha2::{Digest, Sha256};
use vstd::prelude::*;

verus! {

/// The SHA-256 digest of the data.
pub uninterp spec fn sha256_digest(data: Seq<u8>) -> Seq<u8>;

/// The HMAC-SHA-256 tag of the data under the key.
pub uninterp spec fn hmac_sha256_tag(key: Seq<u8>, data: Seq<u8>) -> Seq<u8>;

/// The first 64 bytes of HKDF-SHA-256 output keying material, with no salt, for the input
/// keying material and the info string.
pub uninterp spec fn hkdf_sha256_okm(ikm: Seq<u8>, info: Seq<u8>) -> Seq<u8>;

/// The value of an ASCII hexadecimal digit (either case), or -1 for any other byte.
pub open spec fn hex_digit_value(c: u8) -> int {
    if 48 <= c <= 57 {
        c - 48
    } else if 97 <= c <= 102 {
        c - 87
    } else if 65 <= c <= 70 {
        c - 55
    } else {
        -1
    }
}

/// The bytes are a hexadecimal string: an even number of hexadecimal digits.
pub open spec fn is_hex(s: Seq<u8>) -> bool {
    &&& s.len() % 2 == 0
    &&& forall|i: int| 0 <= i < s.len() ==> hex_digit_value(#[trigger] s[i]) >= 0
}

/// The bytes that a hexadecimal string writes, two digits per byte, high digit first.
pub open spec fn hex_decoded(s: Seq<u8>) -> Seq<u8> {
    Seq::new(
        (s.len() / 2) as nat,
        |i: int| (hex_digit_value(s[2 * i]) * 16 + hex_digit_value(s[2 * i + 1])) as u8,
    )
}

/// `Sha256::digest`: the SHA-256 digest of the data.
#[verifier::external_body]
pub(crate) fn sha256(data: &[u8]) -> (r: [u8; 32])
    ensures
        r@ == sha256_digest(data@),
{
    Sha256::digest(data).into()
}

/// `Hmac::<Sha256>` keyed with `key` (any key length is accepted) and fed `data`: the tag.
#[verifier::external_body]
pub(crate) fn hmac_sha256(key: &[u8], data: &[u8]) -> (r: [u8; 32])
    ensures
        r@ == hmac_sha256_tag(key@, data@),
{
    let mut mac = <Hmac<Sha256>>::new_from_slice(key).expect("HMAC accepts any key length");
    mac.update(data);
    mac.finalize().into_bytes().into()
}

/// `Hkdf::<Sha256>::new(None, ikm)` expanded with `info` into 64 bytes (well under the
/// limit of 255 blocks, so `expand` succeeds).
#[verifier::external_body]
pub(crate) fn hkdf_sha256_expand(ikm: &[u8], info: &[u8]) -> (r: [u8; 64])
    ensures
        r@ == hkdf_sha256_okm(ikm@, info@),
{
    let hk = Hkdf::<Sha256>::new(None, ikm);
    let mut okm = [0u8; 64];
    hk.expand(info, &mut okm).expect("64 bytes is a valid HKDF-SHA-256 output length");
    okm
}

/// `hex::decode`: fails on an odd length or a byte that is not a hexadecimal digit, and
/// otherwise returns the bytes that the digits write.
#[verifier::external_body]
pub(crate) fn hex_decode(data: &[u8]) -> (r: Option<Vec<u8>>)
    ensures
        r is Some <==> is_hex(data@),
        r matches Some(v) ==> v@ == hex_decoded(data@),
{
    hex::decode(data).ok()
}

} // verus!
