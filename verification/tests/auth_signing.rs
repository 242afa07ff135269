use base64::Engine;
use hmac::Mac;
use k256::ecdsa::{RecoveryId, Signature, SigningKey, VerifyingKey};
use polycopy_tool::auth::{
    compute_domain_separator, compute_struct_hash, eip712_digest, l2_message_bytes, sign_l2,
    sign_order, signature_hex, AuthError, OrderData, CTF_EXCHANGE, DOMAIN_TYPE, NEGRISK_EXCHANGE,
    ORDER_TYPE,
};
use sha3::Digest;

fn keccak(data: &[u8]) -> [u8; 32] {
    let mut out = [0u8; 32];
    out.copy_from_slice(&sha3::Keccak256::digest(data));
    out
}

fn word_u64(v: u64) -> [u8; 32] {
    let mut w = [0u8; 32];
    w[24..].copy_from_slice(&v.to_be_bytes());
    w
}

fn word_addr(hex_addr: &str) -> [u8; 32] {
    let b = hex::decode(hex_addr.trim_start_matches("0x")).unwrap();
    let mut w = [0u8; 32];
    w[32 - b.len()..].copy_from_slice(&b);
    w
}

const KEY_HEX: &str = "4c0883a69102937d6231471b5dbb6204fe5129617082792ae468d01a3f362318";
const MAKER: &str = "0x2c7536e3605d9c16a7a3d7b1898e529396a65c23";

fn sample_order(neg_risk: bool) -> OrderData<'static> {
    OrderData {
        salt: 123456789,
        maker: MAKER,
        token_id: "71321045679252212594626385532706912750332728571942532289631379312455583992563",
        maker_amount: 650_000,
        taker_amount: 1_000_000,
        side: 0,
        neg_risk,
    }
}

fn expected_domain(contract: &str) -> [u8; 32] {
    let mut buf = Vec::new();
    buf.extend_from_slice(&keccak(DOMAIN_TYPE.as_bytes()));
    buf.extend_from_slice(&keccak(b"Polymarket CTF Exchange"));
    buf.extend_from_slice(&keccak(b"1"));
    buf.extend_from_slice(&word_u64(137));
    buf.extend_from_slice(&word_addr(contract));
    keccak(&buf)
}

#[test]
fn domain_type_hash_is_the_eip712_one() {
    assert_eq!(
        hex::encode(keccak(DOMAIN_TYPE.as_bytes())),
        "8b73c3c69bb8fe3d512ecc4cf759cc79239f7b179b0ffacaa9a75d522b39400f"
    );
}

#[test]
fn domain_separator_matches_manual_encoding() {
    assert_eq!(compute_domain_separator(CTF_EXCHANGE), expected_domain(CTF_EXCHANGE));
    assert_eq!(compute_domain_separator(NEGRISK_EXCHANGE), expected_domain(NEGRISK_EXCHANGE));
    assert_ne!(compute_domain_separator(CTF_EXCHANGE), compute_domain_separator(NEGRISK_EXCHANGE));
}

#[test]
fn struct_hash_matches_manual_encoding() {
    let order = sample_order(false);
    let mut token = [0u8; 32];
    token.copy_from_slice(
        &hex::decode("9dae480511c4c0cb5d6c7937924c1db5be221e758b7135fec2a1977a1c130af3").unwrap(),
    );
    let mut buf = Vec::new();
    buf.extend_from_slice(&keccak(ORDER_TYPE.as_bytes()));
    buf.extend_from_slice(&word_u64(123456789));
    buf.extend_from_slice(&word_addr(MAKER));
    buf.extend_from_slice(&word_addr(MAKER));
    buf.extend_from_slice(&[0u8; 32]);
    buf.extend_from_slice(&token);
    buf.extend_from_slice(&word_u64(650_000));
    buf.extend_from_slice(&word_u64(1_000_000));
    buf.extend_from_slice(&[0u8; 32]);
    buf.extend_from_slice(&[0u8; 32]);
    buf.extend_from_slice(&[0u8; 32]);
    buf.extend_from_slice(&word_u64(0));
    buf.extend_from_slice(&word_u64(0));
    assert_eq!(buf.len(), 13 * 32);
    assert_eq!(compute_struct_hash(&order), keccak(&buf));
}

#[test]
fn order_type_string_is_exact() {
    assert_eq!(
        ORDER_TYPE,
        "Order(uint256 salt,address maker,address signer,address taker,uint256 tokenId,uint256 makerAmount,uint256 takerAmount,uint256 expiration,uint256 nonce,uint256 feeRateBps,uint8 side,uint8 signatureType)"
    );
}

#[test]
fn struct_hash_depends_on_side() {
    let buy = sample_order(false);
    let mut sell = sample_order(false);
    sell.side = 1;
    assert_ne!(compute_struct_hash(&buy), compute_struct_hash(&sell));
}

#[test]
fn eip712_digest_prefixes_1901() {
    let d = [1u8; 32];
    let s = [2u8; 32];
    let mut msg = vec![0x19u8, 0x01];
    msg.extend_from_slice(&d);
    msg.extend_from_slice(&s);
    assert_eq!(eip712_digest(&d, &s), keccak(&msg));
}

fn order_prehash(order: &OrderData<'_>) -> [u8; 32] {
    let contract = if order.neg_risk { NEGRISK_EXCHANGE } else { CTF_EXCHANGE };
    eip712_digest(&expected_domain(contract), &compute_struct_hash(order))
}

fn check_signature(sig_text: &str, prehash: &[u8; 32]) {
    assert_eq!(sig_text.len(), 132);
    assert!(sig_text.starts_with("0x"));
    let bytes = hex::decode(&sig_text[2..]).unwrap();
    assert_eq!(bytes.len(), 65);
    let v = bytes[64];
    assert!(v == 27 || v == 28);
    let sig = Signature::from_slice(&bytes[..64]).unwrap();
    let recid = RecoveryId::from_byte(v - 27).unwrap();
    let recovered = VerifyingKey::recover_from_prehash(prehash, &sig, recid).unwrap();
    let key = SigningKey::from_slice(&hex::decode(KEY_HEX).unwrap()).unwrap();
    assert_eq!(&recovered, key.verifying_key());
}

#[test]
fn sign_order_recovers_to_signer() {
    for neg_risk in [false, true] {
        let order = sample_order(neg_risk);
        let sig = sign_order(KEY_HEX, &order).ok().unwrap();
        check_signature(&sig, &order_prehash(&order));
    }
}

#[test]
fn sign_order_matches_k256_directly() {
    let order = sample_order(false);
    let prehash = order_prehash(&order);
    let key = SigningKey::from_slice(&hex::decode(KEY_HEX).unwrap()).unwrap();
    let (sig, recid) = key.sign_prehash_recoverable(&prehash).unwrap();
    let mut full = [0u8; 65];
    full[..64].copy_from_slice(&sig.to_bytes());
    full[64] = recid.to_byte() + 27;
    let expected = format!("0x{}", hex::encode(full));
    assert_eq!(sign_order(KEY_HEX, &order).ok().unwrap(), expected);
}

#[test]
fn sign_order_ignores_hex_case() {
    let order = sample_order(false);
    let lower = sign_order(KEY_HEX, &order).ok().unwrap();
    let upper = sign_order(&KEY_HEX.to_uppercase(), &order).ok().unwrap();
    assert_eq!(lower, upper);
}

#[test]
fn sign_order_v_is_27_or_28() {
    let order = sample_order(true);
    let sig = sign_order(KEY_HEX, &order).ok().unwrap();
    assert_eq!(sig.len(), 132);
    assert!(sig.ends_with("1b") || sig.ends_with("1c"));
    assert!(sig[2..].bytes().all(|c| c.is_ascii_digit() || (b'a'..=b'f').contains(&c)));
}

#[test]
fn sign_order_ignores_0x_prefixes() {
    let order = sample_order(false);
    let plain = sign_order(KEY_HEX, &order).ok().unwrap();
    let prefixed = sign_order(&format!("0x{KEY_HEX}"), &order).ok().unwrap();
    let double = sign_order(&format!("0x0x{KEY_HEX}"), &order).ok().unwrap();
    assert_eq!(plain, prefixed);
    assert_eq!(plain, double);
}

#[test]
fn sign_order_depends_on_exchange() {
    let a = sign_order(KEY_HEX, &sample_order(false)).ok().unwrap();
    let b = sign_order(KEY_HEX, &sample_order(true)).ok().unwrap();
    assert_ne!(a, b);
}

#[test]
fn sign_order_rejects_non_hex_key() {
    let order = sample_order(false);
    assert!(matches!(sign_order("0xnothex", &order), Err(AuthError::PrivateKeyDecode(_))));
    assert!(matches!(sign_order("abc", &order), Err(AuthError::PrivateKeyDecode(_))));
}

#[test]
fn sign_order_rejects_invalid_scalar() {
    let order = sample_order(false);
    let zero = "00".repeat(32);
    assert!(matches!(sign_order(&zero, &order), Err(AuthError::InvalidPrivateKey(_))));
    let order_n = "fffffffffffffffffffffffffffffffebaaedce6af48a03bbfd25e8cd0364141";
    assert!(matches!(sign_order(order_n, &order), Err(AuthError::InvalidPrivateKey(_))));
    let too_short = "01".repeat(20);
    assert!(matches!(sign_order(&too_short, &order), Err(AuthError::InvalidPrivateKey(_))));
    let too_long = "01".repeat(33);
    assert!(matches!(sign_order(&too_long, &order), Err(AuthError::InvalidPrivateKey(_))));
    assert!(matches!(sign_order("", &order), Err(AuthError::InvalidPrivateKey(_))));
}

#[test]
fn sign_order_accepts_short_padded_key() {
    let order = sample_order(false);
    let short = "01".repeat(24);
    let padded = format!("{}{}", "00".repeat(8), short);
    assert_eq!(
        sign_order(&short, &order).ok().unwrap(),
        sign_order(&padded, &order).ok().unwrap()
    );
}

#[test]
fn signature_hex_appends_v() {
    let sig = [0xabu8; 64];
    let text = signature_hex(&sig, 1);
    assert_eq!(text.len(), 132);
    assert_eq!(&text[..2], "0x");
    assert_eq!(&text[2..130], "ab".repeat(64));
    assert_eq!(&text[130..], "1c");
    assert_eq!(&signature_hex(&sig, 0)[130..], "1b");
}

fn hmac_b64(key: &[u8], msg: &[u8]) -> String {
    let mut mac = hmac::Hmac::<sha2::Sha256>::new_from_slice(key).unwrap();
    mac.update(msg);
    base64::engine::general_purpose::URL_SAFE.encode(mac.finalize().into_bytes())
}

#[test]
fn l2_message_layout() {
    let m = l2_message_bytes("post", "/order?x=1", "{\"a\":1}", 1700000000);
    assert_eq!(m, b"1700000000POST/order?x=1{\"a\":1}".to_vec());
    assert_eq!(l2_message_bytes("GET", "/", "", 0), b"0GET/".to_vec());
}

#[test]
fn sign_l2_matches_hmac_sha256() {
    let key = b"0123456789abcdef0123456789abcdef";
    let secret = base64::engine::general_purpose::URL_SAFE.encode(key);
    let sig = sign_l2(&secret, "get", "/trades?after=5", "", 1712345678).ok().unwrap();
    assert_eq!(sig, hmac_b64(key, b"1712345678GET/trades?after=5"));
    assert_eq!(sig.len(), 44);
    assert!(sig.ends_with('='));
    assert!(sig[..43].bytes().all(|c| c.is_ascii_alphanumeric() || c == b'-' || c == b'_'));
    let tag = base64::engine::general_purpose::URL_SAFE.decode(&sig).unwrap();
    assert_eq!(tag.len(), 32);
}

#[test]
fn sign_l2_uppercases_method() {
    let secret = base64::engine::general_purpose::URL_SAFE.encode(b"k3y");
    let a = sign_l2(&secret, "delete", "/order", "{}", 42).ok().unwrap();
    let b = sign_l2(&secret, "DELETE", "/order", "{}", 42).ok().unwrap();
    assert_eq!(a, b);
}

#[test]
fn sign_l2_rfc4231_vector() {
    // HMAC-SHA256("Jefe", "what do ya want for nothing?") with the message split
    // so that the timestamp, method and path/body rebuild it.
    let secret = base64::engine::general_purpose::URL_SAFE.encode(b"Jefe");
    let sig = sign_l2(&secret, "", "what do ya want ", "for nothing?", 0).ok().unwrap();
    assert_eq!(sig, hmac_b64(b"Jefe", b"0what do ya want for nothing?"));
}

#[test]
fn sign_l2_rejects_bad_secret() {
    assert!(matches!(sign_l2("not base64!", "GET", "/", "", 1), Err(AuthError::SecretDecode(_))));
    // standard-alphabet symbols are not URL-safe
    assert!(matches!(sign_l2("ab+/", "GET", "/", "", 1), Err(AuthError::SecretDecode(_))));
    // padding is required
    assert!(matches!(sign_l2("SmVmZQ", "GET", "/", "", 1), Err(AuthError::SecretDecode(_))));
}

#[test]
fn sign_l2_empty_secret_is_empty_key() {
    let sig = sign_l2("", "GET", "/", "", 1).ok().unwrap();
    assert_eq!(sig, hmac_b64(b"", b"1GET/"));
}
