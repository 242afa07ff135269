use polycopy_tool::abi::{enc_addr, enc_decimal, enc_u64, enc_u8};

fn word_hex(w: [u8; 32]) -> String {
    hex::encode(w)
}

#[test]
fn enc_u64_zero_is_zero_word() {
    assert_eq!(enc_u64(0), [0u8; 32]);
}

#[test]
fn enc_u64_is_big_endian_right_aligned() {
    let w = enc_u64(0x0102030405060708);
    assert_eq!(&w[..24], &[0u8; 24]);
    assert_eq!(&w[24..], &[1, 2, 3, 4, 5, 6, 7, 8]);
}

#[test]
fn enc_u64_max() {
    let w = enc_u64(u64::MAX);
    assert_eq!(&w[..24], &[0u8; 24]);
    assert_eq!(&w[24..], &[0xffu8; 8]);
}

#[test]
fn enc_u64_chain_id() {
    assert_eq!(
        word_hex(enc_u64(137)),
        "0000000000000000000000000000000000000000000000000000000000000089"
    );
}

#[test]
fn enc_u8_puts_byte_last() {
    let w = enc_u8(7);
    let mut expected = [0u8; 32];
    expected[31] = 7;
    assert_eq!(w, expected);
    assert_eq!(enc_u8(0), [0u8; 32]);
    assert_eq!(enc_u8(255)[31], 255);
}

#[test]
fn enc_decimal_small_matches_enc_u64() {
    assert_eq!(enc_decimal("0"), enc_u64(0));
    assert_eq!(enc_decimal("123"), enc_u64(123));
    assert_eq!(enc_decimal("18446744073709551615"), enc_u64(u64::MAX));
}

#[test]
fn enc_decimal_round_trips_decimal_text() {
    for v in [1u64, 9, 10, 99, 1000, 137, 4294967296, 12345678901234567] {
        assert_eq!(enc_decimal(&v.to_string()), enc_u64(v));
    }
}

#[test]
fn enc_decimal_large_token_id() {
    let w = enc_decimal(
        "71321045679252212594626385532706912750332728571942532289631379312455583992563",
    );
    assert_eq!(
        word_hex(w),
        "9dae480511c4c0cb5d6c7937924c1db5be221e758b7135fec2a1977a1c130af3"
    );
}

#[test]
fn enc_decimal_stops_at_first_non_digit() {
    assert_eq!(enc_decimal("12a34"), enc_u64(12));
    assert_eq!(enc_decimal("42 "), enc_u64(42));
    assert_eq!(enc_decimal("-5"), [0u8; 32]);
    assert_eq!(enc_decimal(""), [0u8; 32]);
    assert_eq!(enc_decimal("7é9"), enc_u64(7));
}

#[test]
fn enc_decimal_wraps_modulo_2_256() {
    // 2^256 - 1
    let max = enc_decimal(
        "115792089237316195423570985008687907853269984665640564039457584007913129639935",
    );
    assert_eq!(max, [0xffu8; 32]);
    // 2^256 + 5
    let wrapped = enc_decimal(
        "115792089237316195423570985008687907853269984665640564039457584007913129639941",
    );
    assert_eq!(wrapped, enc_u64(5));
}

#[test]
fn enc_addr_right_aligns_twenty_bytes() {
    let w = enc_addr("0x4bfb41d5b3570defd03c39a9a4d8de6bd8b8982e");
    assert_eq!(
        word_hex(w),
        "0000000000000000000000004bfb41d5b3570defd03c39a9a4d8de6bd8b8982e"
    );
    assert_eq!(enc_addr("4bfb41d5b3570defd03c39a9a4d8de6bd8b8982e"), w);
    assert_eq!(enc_addr("0x0x4bfb41d5b3570defd03c39a9a4d8de6bd8b8982e"), w);
}

#[test]
fn enc_addr_accepts_upper_case_hex() {
    assert_eq!(
        enc_addr("0x4BFB41D5B3570DEFD03C39A9A4D8DE6BD8B8982E"),
        enc_addr("0x4bfb41d5b3570defd03c39a9a4d8de6bd8b8982e")
    );
}

#[test]
fn enc_addr_invalid_hex_is_zero_word() {
    assert_eq!(enc_addr("0xzz"), [0u8; 32]);
    assert_eq!(enc_addr("abc"), [0u8; 32]);
    assert_eq!(enc_addr(""), [0u8; 32]);
}

#[test]
fn enc_addr_keeps_last_32_bytes_of_long_input() {
    let mut text = String::from("ffff");
    for i in 0..32u8 {
        text.push_str(&format!("{:02x}", i));
    }
    let w = enc_addr(&text);
    let expected: Vec<u8> = (0..32u8).collect();
    assert_eq!(&w[..], &expected[..]);
}

#[test]
fn enc_addr_short_input_is_left_padded() {
    let w = enc_addr("0x0102");
    let mut expected = [0u8; 32];
    expected[30] = 1;
    expected[31] = 2;
    assert_eq!(w, expected);
}
