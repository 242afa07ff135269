//! Authentication helpers.
//!
//! L2: HMAC-SHA256 request signing.
//! Order: EIP-712 secp256k1 signing of Polymarket CTF Exchange orders.

use vstd::prelude::*;
use vstd::string::StringSliceAdditionalSpecFns;
use vstd::utf8::encode_utf8;

use crate::abi::{
    address_bytes, be_value, decimal_prefix_value, decimal_value, enc_addr, enc_decimal, enc_u64,
    enc_u8, is_ascii_digit, law_word_decodes_to_value, lemma_be_value_zero,
    lemma_decimal_digits_value, left_pad_word, word, word_modulus,
};
use crate::b64::{b64url_decode_spec, law_b64url_decode_encode, lemma_b64url_decode_of_encode};
use crate::bytes::{append_bytes, strip_0x, strip_0x_bytes};
use crate::crypto::{
    b64url_decode, b64url_encode, b64url_text_bytes, b64url_encode_spec, hex_decode, hex_encode,
    hex_char, hex_lower, hex_text_bytes, hmac_sha256, hmac_sha256_spec, is_hex_text, is_secret_scalar,
    keccak256, keccak256_spec, secp256k1_sign_prehash, secp256k1_sign_prehash_spec,
};
use crate::text::{decimal_digits, push_decimal, str_to_uppercase, uppercase_spec};

verus! {

/// Why signing failed.
#[derive(Debug)]
pub enum AuthError {
    /// The L2 secret is not valid padded URL-safe base64.
    SecretDecode(base64::DecodeError),
    /// The HMAC could not be keyed.
    HmacInit(hmac::digest::crypto_common::InvalidLength),
    /// The private key is not valid hex.
    PrivateKeyDecode(hex::FromHexError),
    /// The private key bytes are not a valid secp256k1 secret scalar.
    InvalidPrivateKey(k256::ecdsa::Error),
    /// Signing the prehash failed.
    SignPrehash(k256::ecdsa::Error),
    /// The signature's recovery id is an x-reduced one (2 or 3), so `v` would
    /// be 29 or 30; Polymarket accepts only `v` = 27 or 28.
    UnsupportedRecoveryId(u8),
}

// ─── L2 HMAC-SHA256 ───────────────────────────────────────────────────────────

/// The signed L2 message: the decimal timestamp, the upper-cased method, the
/// request path with its query, and the body, as UTF-8 bytes.
pub open spec fn l2_message(timestamp: u64, method: Seq<char>, path: Seq<u8>, body: Seq<u8>) -> Seq<u8> {
    decimal_digits(timestamp as nat) + encode_utf8(uppercase_spec(method)) + path + body
}

/// The L2 signature of a message under a decoded key: the padded URL-safe
/// base64 text of HMAC-SHA256(key, message).
pub open spec fn l2_signature(key: Seq<u8>, message: Seq<u8>) -> Seq<char> {
    b64url_encode_spec(hmac_sha256_spec(key, message))
}

/// The bytes that an L2 signature covers.
pub fn l2_message_bytes(method: &str, path: &str, body: &str, timestamp: u64) -> (message: Vec<u8>)
    ensures
        message@ == l2_message(timestamp, method@, path.spec_bytes(), body.spec_bytes()),
{
    let mut message: Vec<u8> = Vec::new();
    push_decimal(&mut message, timestamp);
    let upper = str_to_uppercase(method);
    append_bytes(&mut message, upper.as_str().as_bytes());
    append_bytes(&mut message, path.as_bytes());
    append_bytes(&mut message, body.as_bytes());
    assert(message@ =~= l2_message(timestamp, method@, path.spec_bytes(), body.spec_bytes()));
    message
}

/// Sign a CLOB REST request.
///
/// message = timestamp || METHOD || request_path_with_query || body
/// key     = base64url_decode(secret)
/// result  = base64url_encode(HMAC-SHA256(key, message))
pub fn sign_l2(secret: &str, method: &str, path: &str, body: &str, timestamp: u64) -> (r: Result<
    String,
    AuthError,
>)
    ensures
        r is Ok <==> b64url_decode_spec(secret.spec_bytes()) is Some,
        r matches Err(e) ==> e is SecretDecode,
        r matches Ok(sig) ==> ({
            let key = b64url_decode_spec(secret.spec_bytes())->0;
            let message = l2_message(timestamp, method@, path.spec_bytes(), body.spec_bytes());
            let tag = hmac_sha256_spec(key, message);
            &&& sig@ == l2_signature(key, message)
            &&& tag.len() == 32
            &&& sig@.len() == 44
            &&& b64url_decode_spec(sig@.map_values(|c: char| c as u8)) == Some(tag)
        }),
{
    let message = l2_message_bytes(method, path, body, timestamp);

    let key_bytes = match b64url_decode(secret.as_bytes()) {
        Ok(k) => k,
        Err(e) => return Err(AuthError::SecretDecode(e)),
    };
    proof {
        lemma_b64url_decode_of_encode(key_bytes@);
    }

    let tag = match hmac_sha256(key_bytes.as_slice(), message.as_slice()) {
        Ok(t) => t,
        Err(e) => return Err(AuthError::HmacInit(e)),
    };

    let sig = b64url_encode(tag.as_slice());
    proof {
        law_b64url_length(tag@);
        law_b64url_decode_encode(tag@, tag@);
        assert(sig@.map_values(|c: char| c as u8) == b64url_text_bytes(tag@));
    }
    Ok(sig)
}

// ─── EIP-712 order signing ────────────────────────────────────────────────────

/// CTF Exchange on Polygon (binary YES/NO markets).
pub const CTF_EXCHANGE: &'static str = "4bfb41d5b3570defd03c39a9a4d8de6bd8b8982e";

/// NegRisk CTF Exchange on Polygon (multi-outcome markets).
pub const NEGRISK_EXCHANGE: &'static str = "c5d563a36ae78145c45a50134d48a1215220f80a";

pub const ORDER_TYPE: &'static str = "Order(uint256 salt,address maker,address signer,address taker,uint256 tokenId,uint256 makerAmount,uint256 takerAmount,uint256 expiration,uint256 nonce,uint256 feeRateBps,uint8 side,uint8 signatureType)";

pub const DOMAIN_TYPE: &'static str = "EIP712Domain(string name,string version,uint256 chainId,address verifyingContract)";

pub const CTF_NAME: &'static str = "Polymarket CTF Exchange";

pub const CTF_VERSION: &'static str = "1";

pub const POLYGON_CHAIN_ID: u64 = 137;

/// The taker of every order: the zero address (anyone may fill).
pub const ZERO_ADDRESS: &'static str = "0000000000000000000000000000000000000000";

/// All fields needed to build and sign a Polymarket limit order.
pub struct OrderData<'a> {
    pub salt: u64,
    pub maker: &'a str,
    pub token_id: &'a str,
    pub maker_amount: u64,
    pub taker_amount: u64,
    /// 0 = BUY, 1 = SELL
    pub side: u8,
    pub neg_risk: bool,
}

/// EIP-712 domain separator of the exchange at `contract` (hex address text).
pub open spec fn domain_separator_spec(contract: Seq<u8>) -> Seq<u8> {
    keccak256_spec(
        keccak256_spec(DOMAIN_TYPE.spec_bytes()) + keccak256_spec(CTF_NAME.spec_bytes())
            + keccak256_spec(CTF_VERSION.spec_bytes()) + word(POLYGON_CHAIN_ID as nat)
            + left_pad_word(address_bytes(contract)),
    )
}

/// The ABI encoding of an order under the EIP-712 `Order` type: signer is
/// the maker, taker is the zero address, expiration, nonce, fee rate and
/// signature type are all zero.
pub open spec fn order_encoding(order: OrderData<'_>) -> Seq<u8> {
    let maker = left_pad_word(address_bytes(order.maker.spec_bytes()));
    keccak256_spec(ORDER_TYPE.spec_bytes()) + word(order.salt as nat) + maker + maker
        + left_pad_word(address_bytes(ZERO_ADDRESS.spec_bytes())) + word(
        decimal_prefix_value(order.token_id.spec_bytes()),
    ) + word(order.maker_amount as nat) + word(order.taker_amount as nat) + word(0) + word(0)
        + word(0) + word(order.side as nat) + word(0)
}

/// EIP-712 struct hash of an order.
pub open spec fn struct_hash_spec(order: OrderData<'_>) -> Seq<u8> {
    keccak256_spec(order_encoding(order))
}

/// Final EIP-712 hash: keccak256(0x19 0x01 || domainSeparator || structHash).
pub open spec fn eip712_digest_spec(domain_sep: Seq<u8>, struct_hash: Seq<u8>) -> Seq<u8> {
    keccak256_spec(seq![0x19u8, 0x01u8] + domain_sep + struct_hash)
}

/// The exchange contract that settles an order.
pub open spec fn exchange_contract(neg_risk: bool) -> Seq<u8> {
    if neg_risk {
        NEGRISK_EXCHANGE.spec_bytes()
    } else {
        CTF_EXCHANGE.spec_bytes()
    }
}

/// The hash that is signed for an order.
pub open spec fn order_signing_hash(order: OrderData<'_>) -> Seq<u8> {
    eip712_digest_spec(
        domain_separator_spec(exchange_contract(order.neg_risk)),
        struct_hash_spec(order),
    )
}

pub fn compute_domain_separator(contract_hex: &str) -> (out: [u8; 32])
    ensures
        out@ == domain_separator_spec(contract_hex.spec_bytes()),
{
    let domain_type_hash = keccak256(DOMAIN_TYPE.as_bytes());
    let name_hash = keccak256(CTF_NAME.as_bytes());
    let version_hash = keccak256(CTF_VERSION.as_bytes());

    let mut buf: Vec<u8> = Vec::with_capacity(5 * 32);
    append_bytes(&mut buf, domain_type_hash.as_slice());
    append_bytes(&mut buf, name_hash.as_slice());
    append_bytes(&mut buf, version_hash.as_slice());
    append_bytes(&mut buf, enc_u64(POLYGON_CHAIN_ID).as_slice());
    append_bytes(&mut buf, enc_addr(contract_hex).as_slice());

    keccak256(buf.as_slice())
}

pub fn compute_struct_hash(order: &OrderData<'_>) -> (out: [u8; 32])
    ensures
        out@ == struct_hash_spec(*order),
{
    let type_hash = keccak256(ORDER_TYPE.as_bytes());
    let taker_zero = ZERO_ADDRESS;

    let mut buf: Vec<u8> = Vec::with_capacity(13 * 32);
    append_bytes(&mut buf, type_hash.as_slice());
    append_bytes(&mut buf, enc_u64(order.salt).as_slice());
    append_bytes(&mut buf, enc_addr(order.maker).as_slice());
    append_bytes(&mut buf, enc_addr(order.maker).as_slice());  // signer == maker for EOA
    append_bytes(&mut buf, enc_addr(taker_zero).as_slice());
    append_bytes(&mut buf, enc_decimal(order.token_id).as_slice());
    append_bytes(&mut buf, enc_u64(order.maker_amount).as_slice());
    append_bytes(&mut buf, enc_u64(order.taker_amount).as_slice());
    append_bytes(&mut buf, enc_u64(0).as_slice());  // expiration = 0 (no expiry)
    append_bytes(&mut buf, enc_u64(0).as_slice());  // nonce = 0
    append_bytes(&mut buf, enc_u64(0).as_slice());  // feeRateBps = 0
    append_bytes(&mut buf, enc_u8(order.side).as_slice());
    append_bytes(&mut buf, enc_u8(0).as_slice());  // signatureType = 0 (EOA)

    keccak256(buf.as_slice())
}

/// Final EIP-712 hash: keccak256(0x1901 || domainSeparator || structHash).
pub fn eip712_digest(domain_sep: &[u8; 32], struct_hash: &[u8; 32]) -> (out: [u8; 32])
    ensures
        out@ == eip712_digest_spec(domain_sep@, struct_hash@),
{
    let mut msg: Vec<u8> = Vec::with_capacity(66);
    msg.push(0x19);
    msg.push(0x01);
    append_bytes(&mut msg, domain_sep.as_slice());
    append_bytes(&mut msg, struct_hash.as_slice());
    assert(msg@ =~= seq![0x19u8, 0x01u8] + domain_sep@ + struct_hash@);
    keccak256(msg.as_slice())
}

/// The text of an order signature: `0x` and the lower-case hex of the 64
/// signature bytes followed by `v = recovery id + 27` (27 or 28).
pub open spec fn signature_text(sig: Seq<u8>, recid: u8) -> Seq<char> {
    seq!['0', 'x'] + hex_lower(sig.push((recid + 27) as u8))
}

/// Render a recoverable signature as Polymarket expects it: 65 bytes
/// `r || s || v` with `v = recid + 27` (27 or 28), as `0x`-prefixed
/// lower-case hex.
pub fn signature_hex(sig: &[u8; 64], recid: u8) -> (out: String)
    requires
        recid <= 1,
    ensures
        out@ == signature_text(sig@, recid),
{
    let v = recid + 27u8;  // Polymarket uses v = 27 / 28
    let mut full: Vec<u8> = Vec::with_capacity(65);
    append_bytes(&mut full, sig.as_slice());
    full.push(v);
    let hex = hex_encode(full.as_slice());
    let prefix = "0x";
    proof {
        reveal_strlit("0x");
    }
    let out = prefix.to_owned().concat(hex.as_str());
    assert(out@ =~= signature_text(sig@, recid));
    out
}

/// Build, EIP-712 sign, and return the 65-byte hex signature for an order.
pub fn sign_order(private_key_hex: &str, order: &OrderData<'_>) -> (r: Result<String, AuthError>)
    ensures
        ({
            let key_text = strip_0x(private_key_hex.spec_bytes());
            let key = hex_text_bytes(key_text);
            let signed = secp256k1_sign_prehash_spec(key, order_signing_hash(*order));
            &&& (r matches Err(AuthError::PrivateKeyDecode(_))) <==> !is_hex_text(key_text)
            &&& (r matches Err(AuthError::InvalidPrivateKey(_))) <==> (is_hex_text(key_text)
                && !is_secret_scalar(key))
            &&& (r matches Err(AuthError::SignPrehash(_))) <==> (is_hex_text(key_text)
                && is_secret_scalar(key) && signed is None)
            &&& (r matches Err(AuthError::UnsupportedRecoveryId(_))) <==> (is_hex_text(key_text)
                && is_secret_scalar(key) && signed is Some && (signed->0).1 > 1)
            &&& r matches Ok(text) ==> signed matches Some(s) && text@ == signature_text(s.0, s.1)
                && s.0.len() == 64 && s.1 <= 1 && text@.len() == 132 && text@[0] == '0'
                && text@[1] == 'x' && text@[130] == '1' && (text@[131] == 'b' || text@[131]
                == 'c')
            &&& !(r matches Err(AuthError::SecretDecode(_)))
            &&& !(r matches Err(AuthError::HmacInit(_)))
        }),
{
    let contract = if order.neg_risk {
        NEGRISK_EXCHANGE
    } else {
        CTF_EXCHANGE
    };

    let domain_sep = compute_domain_separator(contract);
    let struct_hash = compute_struct_hash(order);
    let signing_hash = eip712_digest(&domain_sep, &struct_hash);

    let key_hex = strip_0x_bytes(private_key_hex.as_bytes());
    let key_bytes = match hex_decode(key_hex.as_slice()) {
        Ok(b) => b,
        Err(e) => return Err(AuthError::PrivateKeyDecode(e)),
    };

    let (sig_bytes, recid) = match secp256k1_sign_prehash(key_bytes.as_slice(), &signing_hash) {
        Err(e) => return Err(AuthError::InvalidPrivateKey(e)),
        Ok(Err(e)) => return Err(AuthError::SignPrehash(e)),
        Ok(Ok(signed)) => signed,
    };
    if recid > 1 {
        return Err(AuthError::UnsupportedRecoveryId(recid));
    }
    proof {
        law_signature_text_shape(sig_bytes@, recid);
    }

    Ok(signature_hex(&sig_bytes, recid))
}

/// Law: an order signature text is `0x` and 130 hex digits, ending in `1b`
/// or `1c` (v = 27 or 28).
pub proof fn law_signature_text_shape(sig: Seq<u8>, recid: u8)
    requires
        sig.len() == 64,
        recid <= 1,
    ensures
        signature_text(sig, recid).len() == 132,
        signature_text(sig, recid)[0] == '0',
        signature_text(sig, recid)[1] == 'x',
        signature_text(sig, recid)[130] == '1',
        signature_text(sig, recid)[131] == (if recid == 0 { 'b' } else { 'c' }),
{
    let full = sig.push((recid + 27) as u8);
    assert(full[64] == (recid + 27) as u8);
    assert(hex_lower(full)[128] == hex_char((full[64] / 16) as nat));
    assert(hex_lower(full)[129] == hex_char((full[64] % 16) as nat));
}

/// Law: padded base64 text has four symbols per started group of three
/// bytes, so the text of a 32-byte tag has 44 characters.
pub proof fn law_b64url_length(b: Seq<u8>)
    ensures
        b64url_encode_spec(b).len() == 4 * ((b.len() + 2) / 3),
    decreases b.len(),
{
    if b.len() >= 3 {
        let rest = b.subrange(3, b.len() as int);
        law_b64url_length(rest);
        assert((b.len() + 2) / 3 == (rest.len() + 2) / 3 + 1);
    }
}

/// Law: the signed L2 message is the decimal timestamp, then the upper-cased
/// method, then the path, then the whole body, whatever the method; nothing
/// else is in it.
pub proof fn law_l2_message_layout(ts: u64, method: Seq<char>, path: Seq<u8>, body: Seq<u8>)
    ensures
        ({
            let m = l2_message(ts, method, path, body);
            let d = decimal_digits(ts as nat);
            let u = encode_utf8(uppercase_spec(method));
            let a = d.len() + u.len();
            let b = a + path.len();
            &&& m.len() == d.len() + u.len() + path.len() + body.len()
            &&& forall|j: int| 0 <= j < d.len() ==> is_ascii_digit(#[trigger] m[j])
            &&& decimal_value(m.subrange(0, d.len() as int)) == ts
            &&& m.subrange(d.len() as int, a as int) == u
            &&& m.subrange(a as int, b as int) == path
            &&& m.subrange(m.len() - body.len(), m.len() as int) == body
        }),
{
    let m = l2_message(ts, method, path, body);
    let d = decimal_digits(ts as nat);
    let u = encode_utf8(uppercase_spec(method));
    let a = d.len() + u.len();
    let b = a + path.len();
    lemma_decimal_digits_value(ts as nat);
    assert(m.subrange(0, d.len() as int) =~= d);
    assert(m.subrange(d.len() as int, a as int) =~= u);
    assert(m.subrange(a as int, b as int) =~= path);
    assert(m.subrange(m.len() - body.len(), m.len() as int) =~= body);
    assert forall|j: int| 0 <= j < d.len() implies is_ascii_digit(#[trigger] m[j]) by {
        assert(m[j] == d[j]);
    }
}

/// Law: appending to the body appends to the signed message.
pub proof fn law_l2_message_appends_body(
    ts: u64,
    method: Seq<char>,
    path: Seq<u8>,
    b1: Seq<u8>,
    b2: Seq<u8>,
)
    ensures
        l2_message(ts, method, path, b1 + b2) == l2_message(ts, method, path, b1) + b2,
{
    assert(l2_message(ts, method, path, b1 + b2) =~= l2_message(ts, method, path, b1) + b2);
}

/// Law: the hash signed for an order is keccak256(0x19 0x01 ‖ domain ‖
/// structHash), where the domain is the one of the NegRisk exchange exactly
/// when the order is a NegRisk order, and of the CTF exchange otherwise; no
/// other field of the order takes part in that choice.
pub proof fn law_signing_hash_uses_order_exchange(o: OrderData<'_>)
    ensures
        order_signing_hash(o) == keccak256_spec(
            seq![0x19u8, 0x01u8] + domain_separator_spec(
                if o.neg_risk {
                    NEGRISK_EXCHANGE.spec_bytes()
                } else {
                    CTF_EXCHANGE.spec_bytes()
                },
            ) + struct_hash_spec(o),
        ),
{
}

/// The `k`-th 32-byte word after `start` in an encoding.
pub open spec fn encoding_word(e: Seq<u8>, start: int, k: int) -> Seq<u8> {
    e.subrange(start + 32 * k, start + 32 * k + 32)
}

proof fn lemma_left_pad_word_len(b: Seq<u8>)
    ensures
        left_pad_word(b).len() == 32,
{
}

/// The zero address text stands for the zero word.
proof fn lemma_zero_address_word()
    ensures
        be_value(left_pad_word(address_bytes(ZERO_ADDRESS.spec_bytes()))) == 0,
        left_pad_word(address_bytes(ZERO_ADDRESS.spec_bytes())).len() == 32,
{
    reveal_strlit("0000000000000000000000000000000000000000");
    let s = ZERO_ADDRESS;
    assert(s@.len() == 40);
    assert(vstd::string::is_ascii(s));
    vstd::string::is_ascii_spec_bytes(s);
    let b = s.spec_bytes();
    assert(b.len() == 40);
    assert(forall|i: int| 0 <= i < 40 ==> #[trigger] b[i] == 48u8);
    assert(strip_0x(b) == b);
    assert(is_hex_text(b));
    let h = hex_text_bytes(b);
    assert(forall|i: int| 0 <= i < h.len() ==> #[trigger] h[i] == 0u8) by {
        assert forall|i: int| 0 <= i < h.len() implies #[trigger] h[i] == 0u8 by {
            assert(b[2 * i] == 48u8);
            assert(b[2 * i + 1] == 48u8);
        }
    }
    let w = left_pad_word(h);
    assert(forall|i: int| 0 <= i < w.len() ==> #[trigger] w[i] == 0u8);
    lemma_be_value_zero(w);
}

/// Law: the struct hash of an order is the Keccak-256 of its EIP-712
/// encoding: the `Order` type hash, then twelve 32-byte words holding, in
/// order, the salt, the maker (as signer too), the zero taker, the token id
/// (mod 2^256), the maker and taker amounts, zero expiration, nonce and fee
/// rate, the side, and the zero signature type.
pub proof fn law_order_encoding_fields(o: OrderData<'_>)
    ensures
        ({
            let h = keccak256_spec(ORDER_TYPE.spec_bytes());
            let e = order_encoding(o);
            let n = h.len() as int;
            let maker = left_pad_word(address_bytes(o.maker.spec_bytes()));
            &&& struct_hash_spec(o) == keccak256_spec(e)
            &&& e.len() == n + 12 * 32
            &&& e.subrange(0, n) == h
            &&& be_value(encoding_word(e, n, 0)) == o.salt
            &&& encoding_word(e, n, 1) == maker
            &&& encoding_word(e, n, 2) == maker
            &&& maker.len() == 32
            &&& be_value(encoding_word(e, n, 3)) == 0
            &&& be_value(encoding_word(e, n, 4)) == decimal_prefix_value(o.token_id.spec_bytes())
                % word_modulus()
            &&& be_value(encoding_word(e, n, 5)) == o.maker_amount
            &&& be_value(encoding_word(e, n, 6)) == o.taker_amount
            &&& be_value(encoding_word(e, n, 7)) == 0
            &&& be_value(encoding_word(e, n, 8)) == 0
            &&& be_value(encoding_word(e, n, 9)) == 0
            &&& be_value(encoding_word(e, n, 10)) == o.side
            &&& be_value(encoding_word(e, n, 11)) == 0
        }),
{
    let h = keccak256_spec(ORDER_TYPE.spec_bytes());
    let e = order_encoding(o);
    let n = h.len() as int;
    let maker = left_pad_word(address_bytes(o.maker.spec_bytes()));
    let taker = left_pad_word(address_bytes(ZERO_ADDRESS.spec_bytes()));
    lemma_left_pad_word_len(address_bytes(o.maker.spec_bytes()));
    lemma_zero_address_word();
    let tok = decimal_prefix_value(o.token_id.spec_bytes());
    assert(e.subrange(0, n) =~= h);
    assert(encoding_word(e, n, 0) =~= word(o.salt as nat));
    assert(encoding_word(e, n, 1) =~= maker);
    assert(encoding_word(e, n, 2) =~= maker);
    assert(encoding_word(e, n, 3) =~= taker);
    assert(encoding_word(e, n, 4) =~= word(tok));
    assert(encoding_word(e, n, 5) =~= word(o.maker_amount as nat));
    assert(encoding_word(e, n, 6) =~= word(o.taker_amount as nat));
    assert(encoding_word(e, n, 7) =~= word(0));
    assert(encoding_word(e, n, 8) =~= word(0));
    assert(encoding_word(e, n, 9) =~= word(0));
    assert(encoding_word(e, n, 10) =~= word(o.side as nat));
    assert(encoding_word(e, n, 11) =~= word(0));
    law_word_decodes_to_value(o.salt as nat);
    law_word_decodes_to_value(tok);
    law_word_decodes_to_value(o.maker_amount as nat);
    law_word_decodes_to_value(o.taker_amount as nat);
    law_word_decodes_to_value(0);
    law_word_decodes_to_value(o.side as nat);
    word_values_below_modulus(o.salt, o.maker_amount, o.taker_amount, o.side);
}

proof fn word_values_below_modulus(a: u64, b: u64, c: u64, d: u8)
    ensures
        a as nat % word_modulus() == a,
        b as nat % word_modulus() == b,
        c as nat % word_modulus() == c,
        d as nat % word_modulus() == d,
        0nat % word_modulus() == 0,
{
    crate::abi::lemma_pow256_8();
    crate::abi::lemma_pow256_monotone(8, 32);
    vstd::arithmetic::div_mod::lemma_small_mod(a as nat, word_modulus());
    vstd::arithmetic::div_mod::lemma_small_mod(b as nat, word_modulus());
    vstd::arithmetic::div_mod::lemma_small_mod(c as nat, word_modulus());
    vstd::arithmetic::div_mod::lemma_small_mod(d as nat, word_modulus());
    vstd::arithmetic::div_mod::lemma_small_mod(0, word_modulus());
}

/// Law: the domain separator is the Keccak-256 of the three type/name/version
/// hashes, then the chain id word holding 137, then the contract's address
/// word; the contract enters through its address word alone.
pub proof fn law_domain_separator_fields(contract: Seq<u8>)
    ensures
        ({
            let p = keccak256_spec(DOMAIN_TYPE.spec_bytes()) + keccak256_spec(CTF_NAME.spec_bytes())
                + keccak256_spec(CTF_VERSION.spec_bytes());
            let d = p + word(POLYGON_CHAIN_ID as nat) + left_pad_word(address_bytes(contract));
            &&& domain_separator_spec(contract) == keccak256_spec(d)
            &&& d.len() == p.len() + 64
            &&& be_value(d.subrange(p.len() as int, p.len() + 32int)) == 137
            &&& d.subrange(p.len() + 32int, p.len() + 64int) == left_pad_word(address_bytes(contract))
        }),
{
    let p = keccak256_spec(DOMAIN_TYPE.spec_bytes()) + keccak256_spec(CTF_NAME.spec_bytes())
        + keccak256_spec(CTF_VERSION.spec_bytes());
    let d = p + word(POLYGON_CHAIN_ID as nat) + left_pad_word(address_bytes(contract));
    lemma_left_pad_word_len(address_bytes(contract));
    assert(d.subrange(p.len() as int, p.len() + 32int) =~= word(137));
    assert(d.subrange(p.len() + 32int, p.len() + 64int) =~= left_pad_word(address_bytes(contract)));
    law_word_decodes_to_value(137);
    crate::abi::lemma_pow256_pos(31);
    assert(word_modulus() == 256 * crate::abi::pow256(31));
    vstd::arithmetic::div_mod::lemma_small_mod(137, word_modulus());
}

} // verus!
