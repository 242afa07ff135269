//! Trusted interfaces to the outside codec and cryptography crates
//! (`hex`, `base64`, `sha3`, `hmac` with `sha2`, `k256`).
//!
//! Each item below is believed by Verus without proof; its doc comment says
//! what it claims of the outside function it calls.

use base64::Engine;
use hmac::Mac;
use sha3::Digest;
use vstd::prelude::*;

use crate::abi::be_value;

verus! {

// ─── Outside error types ──────────────────────────────────────────────────────

/// `hex::FromHexError`, the error of `hex::decode`.
#[verifier::external_type_specification]
#[verifier::external_body]
pub struct ExFromHexError(hex::FromHexError);

/// `base64::DecodeError`, the error of `Engine::decode`.
#[verifier::external_type_specification]
#[verifier::external_body]
pub struct ExDecodeError(base64::DecodeError);

/// `crypto_common::InvalidLength`, the error of `Mac::new_from_slice`.
#[verifier::external_type_specification]
#[verifier::external_body]
pub struct ExInvalidLength(hmac::digest::crypto_common::InvalidLength);

/// `k256::ecdsa::Error` (`signature::Error`), the error of ECDSA key loading and signing.
#[verifier::external_type_specification]
#[verifier::external_body]
pub struct ExEcdsaError(k256::ecdsa::Error);

// ─── Hex ──────────────────────────────────────────────────────────────────────

pub open spec fn is_hex_digit(c: u8) -> bool {
    (48 <= c <= 57) || (97 <= c <= 102) || (65 <= c <= 70)
}

/// Value of a hex digit (upper or lower case).
pub open spec fn hex_digit_value(c: u8) -> nat {
    if 48 <= c <= 57 {
        (c - 48) as nat
    } else if 97 <= c <= 102 {
        (c - 87) as nat
    } else if 65 <= c <= 70 {
        (c - 55) as nat
    } else {
        0
    }
}

/// Text that `hex::decode` accepts: an even number of hex digits.
pub open spec fn is_hex_text(s: Seq<u8>) -> bool {
    &&& s.len() % 2 == 0
    &&& forall|i: int| 0 <= i < s.len() ==> is_hex_digit(#[trigger] s[i])
}

/// The bytes that a hex text stands for, two digits per byte, high nibble first.
pub open spec fn hex_text_bytes(s: Seq<u8>) -> Seq<u8> {
    Seq::new(
        s.len() / 2,
        |i: int| (hex_digit_value(s[2 * i]) * 16 + hex_digit_value(s[2 * i + 1])) as u8,
    )
}

/// Lower-case hex digit for a nibble.
pub open spec fn hex_char(n: nat) -> char {
    if n < 10 {
        (48 + n) as char
    } else {
        (87 + n) as char
    }
}

/// Lower-case hex text of a byte string, high nibble first.
pub open spec fn hex_lower(b: Seq<u8>) -> Seq<char> {
    Seq::new(
        2 * b.len(),
        |i: int|
            if i % 2 == 0 {
                hex_char((b[i / 2] / 16) as nat)
            } else {
                hex_char((b[i / 2] % 16) as nat)
            },
    )
}

/// `hex::decode`: succeeds exactly on an even number of hex digits (either
/// case) and then yields one byte per digit pair, high nibble first; otherwise
/// it returns its `FromHexError` (odd length or invalid character).
#[verifier::external_body]
pub(crate) fn hex_decode(data: &[u8]) -> (r: Result<Vec<u8>, hex::FromHexError>)
    ensures
        r is Ok <==> is_hex_text(data@),
        r matches Ok(v) ==> v@ == hex_text_bytes(data@),
{
    hex::decode(data)
}

/// `hex::encode`: two lower-case hex digits per byte, high nibble first.
#[verifier::external_body]
pub(crate) fn hex_encode(data: &[u8]) -> (s: String)
    ensures
        s@ == hex_lower(data@),
{
    hex::encode(data)
}

// ─── Base64 (URL-safe alphabet, padded) ──────────────────────────────────────

/// Symbol of the URL-safe base64 alphabet for a 6-bit value.
pub open spec fn b64url_symbol(n: nat) -> char {
    if n < 26 {
        (65 + n) as char
    } else if n < 52 {
        (71 + n) as char
    } else if n < 62 {
        (n - 4) as char
    } else if n == 62 {
        '-'
    } else {
        '_'
    }
}

/// Padded URL-safe base64 text of a byte string: each group of three bytes
/// becomes four symbols, and a final group of one or two bytes is padded
/// with `=` to four symbols.
pub open spec fn b64url_encode_spec(b: Seq<u8>) -> Seq<char>
    decreases b.len(),
{
    if b.len() == 0 {
        Seq::empty()
    } else if b.len() == 1 {
        seq![b64url_symbol((b[0] / 4) as nat), b64url_symbol(((b[0] % 4) * 16) as nat), '=', '=']
    } else if b.len() == 2 {
        seq![
            b64url_symbol((b[0] / 4) as nat),
            b64url_symbol(((b[0] % 4) * 16 + b[1] / 16) as nat),
            b64url_symbol(((b[1] % 16) * 4) as nat),
            '=',
        ]
    } else {
        seq![
            b64url_symbol((b[0] / 4) as nat),
            b64url_symbol(((b[0] % 4) * 16 + b[1] / 16) as nat),
            b64url_symbol(((b[1] % 16) * 4 + b[2] / 64) as nat),
            b64url_symbol((b[2] % 64) as nat),
        ] + b64url_encode_spec(b.subrange(3, b.len() as int))
    }
}

/// The padded URL-safe base64 text of `b`, as ASCII bytes.
pub open spec fn b64url_text_bytes(b: Seq<u8>) -> Seq<u8> {
    b64url_encode_spec(b).map_values(|c: char| c as u8)
}

/// `URL_SAFE.decode` (padded URL-safe base64, canonical padding required,
/// non-zero trailing bits rejected): it succeeds exactly on the canonical
/// encoding of some byte string, and then gives that byte string.
#[verifier::external_body]
pub(crate) fn b64url_decode(text: &[u8]) -> (r: Result<Vec<u8>, base64::DecodeError>)
    ensures
        r is Ok <==> exists|b: Seq<u8>| #[trigger] b64url_text_bytes(b) == text@,
        r matches Ok(v) ==> b64url_text_bytes(v@) == text@,
{
    base64::engine::general_purpose::URL_SAFE.decode(text)
}

/// `URL_SAFE.encode` (padded URL-safe base64), as `b64url_encode_spec` states it.
#[verifier::external_body]
pub(crate) fn b64url_encode(data: &[u8]) -> (s: String)
    ensures
        s@ == b64url_encode_spec(data@),
{
    base64::engine::general_purpose::URL_SAFE.encode(data)
}

// ─── Keccak-256 ───────────────────────────────────────────────────────────────

/// The Keccak-256 digest that `sha3::Keccak256` computes of a byte string.
pub uninterp spec fn keccak256_spec(data: Seq<u8>) -> Seq<u8>;

/// `sha3::Keccak256::digest`: the 32-byte digest is `keccak256_spec` of the input.
#[verifier::external_body]
pub(crate) fn keccak256(data: &[u8]) -> (out: [u8; 32])
    ensures
        out@ == keccak256_spec(data@),
{
    let mut out = [0u8; 32];
    out.copy_from_slice(&sha3::Keccak256::digest(data));
    out
}

// ─── HMAC-SHA256 ──────────────────────────────────────────────────────────────

/// The HMAC-SHA256 tag that `hmac::Hmac<sha2::Sha256>` computes for a key and a message.
pub uninterp spec fn hmac_sha256_spec(key: Seq<u8>, message: Seq<u8>) -> Seq<u8>;

/// `Hmac::<Sha256>::new_from_slice(key)`, `update(message)`, `finalize().into_bytes()`:
/// the 32-byte tag is `hmac_sha256_spec` of key and message. `new_from_slice`
/// of `HmacCore` always returns `Ok` (keys of any length are hashed or padded
/// to the block size), so the result is never `Err`.
#[verifier::external_body]
pub(crate) fn hmac_sha256(key: &[u8], message: &[u8]) -> (r: Result<[u8; 32], hmac::digest::crypto_common::InvalidLength>)
    ensures
        r is Ok,
        r matches Ok(tag) ==> tag@ == hmac_sha256_spec(key@, message@),
{
    let mut mac = hmac::Hmac::<sha2::Sha256>::new_from_slice(key)?;
    mac.update(message);
    Ok(mac.finalize().into_bytes().into())
}

// ─── secp256k1 ECDSA ──────────────────────────────────────────────────────────

/// Order of the secp256k1 group.
pub open spec fn secp256k1_order() -> nat {
    0xFFFFFFFFFFFFFFFFFFFFFFFFFFFFFFFEBAAEDCE6AF48A03BBFD25E8CD0364141nat
}

/// Secret-key bytes that `SigningKey::from_slice` accepts: 24 to 32 bytes
/// (shorter ones are left-padded with zeros) whose big-endian value is a
/// non-zero scalar below the group order.
pub open spec fn is_secret_scalar(b: Seq<u8>) -> bool {
    &&& 24 <= b.len() <= 32
    &&& 0 < be_value(b) < secp256k1_order()
}

/// What `SigningKey::sign_prehash_recoverable` gives for a secret key (as
/// bytes) and a prehash: the 64-byte `r || s` signature and the recovery id,
/// or `None` where it returns an error.
pub uninterp spec fn secp256k1_sign_prehash_spec(key: Seq<u8>, prehash: Seq<u8>) -> Option<(Seq<u8>, u8)>;

/// `k256::ecdsa::SigningKey::from_slice(key)`, then on success
/// `sign_prehash_recoverable(prehash)` with the signature as bytes and the
/// recovery id as `to_byte()`. The outer result is `Ok` exactly when the key
/// bytes are a valid secret scalar; the inner one is the named
/// `secp256k1_sign_prehash_spec`, and a recovery id is at most 3.
#[verifier::external_body]
pub(crate) fn secp256k1_sign_prehash(key: &[u8], prehash: &[u8; 32]) -> (r: Result<
    Result<([u8; 64], u8), k256::ecdsa::Error>,
    k256::ecdsa::Error,
>)
    ensures
        r is Ok <==> is_secret_scalar(key@),
        r matches Ok(inner) ==> (inner is Ok <==> secp256k1_sign_prehash_spec(key@, prehash@) is Some),
        r matches Ok(Ok(out)) ==> secp256k1_sign_prehash_spec(key@, prehash@) == Some((out.0@, out.1)),
        r matches Ok(Ok(out)) ==> out.1 <= 3,
{
    let signing_key = k256::ecdsa::SigningKey::from_slice(key)?;
    Ok(match signing_key.sign_prehash_recoverable(prehash) {
        Ok((sig, recid)) => Ok((sig.to_bytes().into(), recid.to_byte())),
        Err(e) => Err(e),
    })
}

} // verus!
