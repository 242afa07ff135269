//! Padded URL-safe base64 decoding as the inverse of the encoding.

use vstd::prelude::*;

use crate::crypto::{b64url_encode_spec, b64url_symbol, b64url_text_bytes};

verus! {

/// The 6-bit value of a URL-safe base64 symbol.
pub open spec fn b64url_value(c: u8) -> nat {
    if 65 <= c <= 90 {
        (c - 65) as nat
    } else if 97 <= c <= 122 {
        (c - 71) as nat
    } else if 48 <= c <= 57 {
        (c + 4) as nat
    } else if c == 45 {
        62
    } else {
        63
    }
}

/// Read a padded URL-safe base64 text back into bytes, four symbols at a time.
pub open spec fn b64url_text_decode(t: Seq<u8>) -> Seq<u8>
    decreases t.len(),
{
    if t.len() < 4 {
        Seq::empty()
    } else {
        let v0 = b64url_value(t[0]);
        let v1 = b64url_value(t[1]);
        let v2 = b64url_value(t[2]);
        let v3 = b64url_value(t[3]);
        let x = (v0 * 4 + v1 / 16) as u8;
        let y = ((v1 % 16) * 16 + v2 / 4) as u8;
        let z = ((v2 % 4) * 64 + v3) as u8;
        if t[2] == 61 {
            seq![x]
        } else if t[3] == 61 {
            seq![x, y]
        } else {
            seq![x, y, z] + b64url_text_decode(t.subrange(4, t.len() as int))
        }
    }
}

/// What padded URL-safe base64 decoding gives for a text: the bytes whose
/// canonical encoding it is, or `None` when it is no such encoding.
pub open spec fn b64url_decode_spec(t: Seq<u8>) -> Option<Seq<u8>> {
    if exists|b: Seq<u8>| #[trigger] b64url_text_bytes(b) == t {
        Some(b64url_text_decode(t))
    } else {
        None
    }
}

proof fn lemma_symbol_value(n: nat)
    requires
        n < 64,
    ensures
        b64url_value(b64url_symbol(n) as u8) == n,
        b64url_symbol(n) as u8 != 61,
{
}

proof fn lemma_group_arith(x: u8, y: u8, z: u8)
    ensures
        (x / 4) * 4 + ((x % 4) * 16 + y / 16) / 16 == x,
        (((x % 4) * 16 + y / 16) % 16) * 16 + ((y % 16) * 4 + z / 64) / 4 == y,
        (((y % 16) * 4 + z / 64) % 4) * 64 + z % 64 == z,
        (x / 4) * 4 + ((x % 4) * 16) / 16 == x,
        (((x % 4) * 16 + y / 16) % 16) * 16 + ((y % 16) * 4) / 4 == y,
        x / 4 < 64,
        (x % 4) * 16 + y / 16 < 64,
        (y % 16) * 4 + z / 64 < 64,
        z % 64 < 64,
        (x % 4) * 16 < 64,
        (y % 16) * 4 < 64,
{
    assert((x / 4) * 4 + ((x % 4) * 16 + y / 16) / 16 == x) by (bit_vector);
    assert((((x % 4) * 16 + y / 16) % 16) * 16 + ((y % 16) * 4 + z / 64) / 4 == y) by (bit_vector);
    assert((((y % 16) * 4 + z / 64) % 4) * 64 + z % 64 == z) by (bit_vector);
    assert((x / 4) * 4 + ((x % 4) * 16) / 16 == x) by (bit_vector);
    assert((((x % 4) * 16 + y / 16) % 16) * 16 + ((y % 16) * 4) / 4 == y) by (bit_vector);
    assert(x / 4 < 64) by (bit_vector);
    assert((x % 4) * 16 + y / 16 < 64) by (bit_vector);
    assert((y % 16) * 4 + z / 64 < 64) by (bit_vector);
    assert((x % 4) * 16 < 64) by (bit_vector);
    assert((y % 16) * 4 < 64) by (bit_vector);
}

/// Reading the encoding of `b` back gives `b`.
pub proof fn lemma_b64url_decode_of_encode(b: Seq<u8>)
    ensures
        b64url_text_decode(b64url_text_bytes(b)) == b,
    decreases b.len(),
{
    let t = b64url_text_bytes(b);
    if b.len() == 0 {
        assert(b =~= Seq::<u8>::empty());
    } else if b.len() == 1 {
        lemma_group_arith(b[0], 0, 0);
        lemma_symbol_value((b[0] / 4) as nat);
        lemma_symbol_value(((b[0] % 4) * 16) as nat);
        assert(t[2] == 61);
        assert(b64url_text_decode(t) =~= b);
    } else if b.len() == 2 {
        lemma_group_arith(b[0], b[1], 0);
        lemma_symbol_value((b[0] / 4) as nat);
        lemma_symbol_value(((b[0] % 4) * 16 + b[1] / 16) as nat);
        lemma_symbol_value(((b[1] % 16) * 4) as nat);
        assert(t[3] == 61);
        assert(b64url_text_decode(t) =~= b);
    } else {
        let rest = b.subrange(3, b.len() as int);
        lemma_b64url_decode_of_encode(rest);
        lemma_group_arith(b[0], b[1], b[2]);
        lemma_symbol_value((b[0] / 4) as nat);
        lemma_symbol_value(((b[0] % 4) * 16 + b[1] / 16) as nat);
        lemma_symbol_value(((b[1] % 16) * 4 + b[2] / 64) as nat);
        lemma_symbol_value((b[2] % 64) as nat);
        assert(t.subrange(4, t.len() as int) =~= b64url_text_bytes(rest));
        assert(b64url_text_decode(t) =~= b);
    }
}

/// Law: decoding the padded URL-safe base64 text of `b` gives `b` back, and
/// two byte strings with the same text are equal.
pub proof fn law_b64url_decode_encode(b: Seq<u8>, c: Seq<u8>)
    ensures
        b64url_decode_spec(b64url_text_bytes(b)) == Some(b),
        b64url_text_bytes(b) == b64url_text_bytes(c) ==> b == c,
{
    lemma_b64url_decode_of_encode(b);
    lemma_b64url_decode_of_encode(c);
}

} // verus!
