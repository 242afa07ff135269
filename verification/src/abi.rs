//! Solidity ABI encoding of static values as 32-byte big-endian words.

use vstd::arithmetic::div_mod::*;
use vstd::arithmetic::mul::*;
use vstd::prelude::*;
use vstd::string::StringSliceAdditionalSpecFns;

use crate::bytes::{strip_0x, strip_0x_bytes};
use crate::crypto::{hex_decode, hex_digit_value, hex_text_bytes, is_hex_digit, is_hex_text};
use crate::text::decimal_digits;

verus! {

/// `256^k`.
pub open spec fn pow256(k: nat) -> nat
    decreases k,
{
    if k == 0 {
        1
    } else {
        256 * pow256((k - 1) as nat)
    }
}

/// The `k`-th least significant byte of `n`.
pub open spec fn byte_of(n: nat, k: nat) -> u8 {
    ((n / pow256(k)) % 256) as u8
}

/// The 32-byte big-endian word that ABI-encodes `n` (reduced modulo 2^256).
pub open spec fn word(n: nat) -> Seq<u8> {
    Seq::new(32, |i: int| byte_of(n, (31 - i) as nat))
}

pub proof fn lemma_pow256_pos(k: nat)
    ensures
        pow256(k) > 0,
    decreases k,
{
    if k > 0 {
        lemma_pow256_pos((k - 1) as nat);
    }
}

pub proof fn lemma_pow256_monotone(a: nat, b: nat)
    requires
        a <= b,
    ensures
        pow256(a) <= pow256(b),
    decreases b,
{
    if a < b {
        lemma_pow256_monotone(a, (b - 1) as nat);
        lemma_pow256_pos((b - 1) as nat);
    }
}

/// `256^8 = 2^64`.
pub proof fn lemma_pow256_8()
    ensures
        pow256(8) == 0x1_0000_0000_0000_0000,
{
    reveal_with_fuel(pow256, 9);
}

/// Dividing by `256^k` and then by 256 is dividing by `256^(k+1)`.
pub proof fn lemma_div_pow256_step(n: nat, k: nat)
    ensures
        (n / pow256(k)) / 256 == n / pow256(k + 1),
{
    lemma_pow256_pos(k);
    lemma_div_denominator(n as int, pow256(k) as int, 256);
    lemma_mul_is_commutative(pow256(k) as int, 256);
}

/// A value below `256^k` has no byte at position `k` or above.
pub proof fn lemma_byte_of_small(n: nat, k: nat, j: nat)
    requires
        n < pow256(k),
        k <= j,
    ensures
        byte_of(n, j) == 0,
{
    lemma_pow256_monotone(k, j);
    lemma_basic_div(n as int, pow256(j) as int);
}

/// ABI-encode a `uint256` whose value fits in a `u64`.
pub fn enc_u64(v: u64) -> (out: [u8; 32])
    ensures
        out@ == word(v as nat),
{
    let mut out = [0u8; 32];
    let mut x: u64 = v;
    let mut k: usize = 0;
    assert(pow256(0) == 1);
    while k < 8
        invariant
            0 <= k <= 8,
            out@.len() == 32,
            x as nat == v as nat / pow256(k as nat),
            forall|j: int| 0 <= j < k ==> #[trigger] byte_of(v as nat, j as nat) == out@[31 - j],
            forall|j: int| 0 <= j < 32 - k ==> out@[j] == 0,
        decreases 8 - k,
    {
        out[31 - k] = (x % 256) as u8;
        proof {
            lemma_div_pow256_step(v as nat, k as nat);
        }
        x = x / 256;
        k = k + 1;
    }
    proof {
        lemma_pow256_8();
        assert forall|j: nat| 8 <= j implies byte_of(v as nat, j) == 0 by {
            lemma_byte_of_small(v as nat, 8, j);
        }
    }
    assert(out@ =~= word(v as nat));
    out
}

/// ABI-encode a `uint8` as a 32-byte word.
pub fn enc_u8(v: u8) -> (out: [u8; 32])
    ensures
        out@ == word(v as nat),
{
    let mut out = [0u8; 32];
    out[31] = v;
    proof {
        reveal_with_fuel(pow256, 2);
        assert forall|j: nat| 1 <= j implies byte_of(v as nat, j) == 0 by {
            lemma_byte_of_small(v as nat, 1, j);
        }
        assert(pow256(0) == 1);
        lemma_small_mod(v as nat, 256);
        assert(byte_of(v as nat, 0) == v);
    }
    assert(out@ =~= word(v as nat));
    out
}


/// Big-endian unsigned value of a byte string.
pub open spec fn be_value(b: Seq<u8>) -> nat
    decreases b.len(),
{
    if b.len() == 0 {
        0
    } else {
        be_value(b.drop_last()) * 256 + b.last() as nat
    }
}

/// The modulus of a 256-bit word.
pub open spec fn word_modulus() -> nat {
    pow256(32)
}

pub proof fn lemma_pow256_add(a: nat, b: nat)
    ensures
        pow256(a + b) == pow256(a) * pow256(b),
    decreases b,
{
    if b == 0 {
        assert(pow256(0) == 1);
    } else {
        lemma_pow256_add(a, (b - 1) as nat);
        assert(pow256(a + b) == 256 * pow256((a + b - 1) as nat));
        lemma_mul_is_associative(256, pow256(a) as int, pow256((b - 1) as nat) as int);
        lemma_mul_is_commutative(256, pow256(a) as int);
        lemma_mul_is_associative(pow256(a) as int, 256, pow256((b - 1) as nat) as int);
    }
}

pub proof fn lemma_be_value_bound(b: Seq<u8>)
    ensures
        be_value(b) < pow256(b.len()),
    decreases b.len(),
{
    if b.len() > 0 {
        lemma_be_value_bound(b.drop_last());
        let p = pow256((b.len() - 1) as nat);
        let x = be_value(b.drop_last());
        let l = b.last();
        assert(x * 256 + l < 256 * p) by (nonlinear_arith)
            requires
                x < p,
                l < 256,
        ;
    }
}

/// Putting a byte in front of `s` adds it at weight `256^|s|`.
pub proof fn lemma_be_value_prepend(x: u8, s: Seq<u8>)
    ensures
        be_value(seq![x] + s) == x * pow256(s.len()) + be_value(s),
    decreases s.len(),
{
    let t = seq![x] + s;
    if s.len() == 0 {
        assert(t.drop_last() =~= Seq::<u8>::empty());
        assert(be_value(Seq::<u8>::empty()) == 0);
        assert(t.last() == x);
        assert(be_value(t) == x as nat);
        assert(pow256(0) == 1);
        assert(x * pow256(0) == x);
    } else {
        lemma_be_value_prepend(x, s.drop_last());
        assert(t.drop_last() =~= seq![x] + s.drop_last());
        let p = pow256((s.len() - 1) as nat);
        let r = be_value(s.drop_last());
        assert(pow256(s.len()) == 256 * p);
        assert(t.last() == s.last());
        assert(be_value(t) == be_value(t.drop_last()) * 256 + t.last());
        assert(be_value(s) == r * 256 + s.last());
        assert((x * p + r) * 256 + s.last() == x * (256 * p) + (r * 256 + s.last()))
            by (nonlinear_arith);
    }
}

/// The bytes of a big-endian string are the bytes of its value.
pub proof fn lemma_be_value_bytes(b: Seq<u8>, i: int)
    requires
        0 <= i < b.len(),
    ensures
        b[i] == byte_of(be_value(b), (b.len() - 1 - i) as nat),
    decreases b.len(),
{
    let v = be_value(b);
    let r = be_value(b.drop_last());
    let l = b.last();
    assert(v == 256 * r + l);
    if i == b.len() - 1 {
        assert(pow256(0) == 1);
        assert(v / 1 == v);
        lemma_mod_multiples_vanish(r as int, l as int, 256);
        lemma_small_mod(l as nat, 256);
        assert(v % 256 == l);
        assert(b[i] == l);
    } else {
        lemma_be_value_bytes(b.drop_last(), i);
        let k = (b.len() - 2 - i) as nat;
        assert(b.drop_last()[i] == b[i]);
        assert(b[i] == byte_of(r, k));
        lemma_div_multiples_vanish_fancy(r as int, l as int, 256);
        assert(v / 256 == r);
        lemma_div_pow256_step_front(v, k);
        assert((b.len() - 1 - i) as nat == k + 1);
        assert(v / pow256(k + 1) == r / pow256(k));
    }
}

/// Dividing by `256^(k+1)` is dividing by 256 and then by `256^k`.
pub proof fn lemma_div_pow256_step_front(n: nat, k: nat)
    ensures
        n / pow256(k + 1) == (n / 256) / pow256(k),
{
    lemma_pow256_pos(k);
    lemma_div_denominator(n as int, 256, pow256(k) as int);
    assert(pow256(k + 1) == 256 * pow256(k));
}

/// Bytes below position `m` do not depend on multiples of `256^m`.
pub proof fn lemma_byte_of_mod(n: nat, m: nat, k: nat)
    requires
        k < m,
    ensures
        byte_of(n, k) == byte_of(n % pow256(m), k),
{
    let pk = pow256(k);
    let pm = pow256(m);
    let q = pow256((m - k - 1) as nat);
    lemma_pow256_pos(k);
    lemma_pow256_pos(m);
    lemma_pow256_pos((m - k - 1) as nat);
    lemma_pow256_add(k, (m - k) as nat);
    assert(pow256((m - k) as nat) == 256 * q);
    assert(pm == pk * (256 * q));
    let r = n % pm;
    let d = n / pm;
    lemma_fundamental_div_mod(n as int, pm as int);
    // n == pm * d + r == (d * 256 * q) * pk + r
    let j = d * (256 * q);
    assert(pm * d == j * pk) by (nonlinear_arith)
        requires
            pm == pk * (256 * q),
            j == d * (256 * q),
    ;
    lemma_hoist_over_denominator(r as int, j as int, pk);
    assert(n / pk == r / pk + j);
    assert(j == 256 * (d * q)) by (nonlinear_arith)
        requires
            j == d * (256 * q),
    ;
    lemma_mod_multiples_vanish((d * q) as int, (r / pk) as int, 256);
}

/// A 32-byte string is the word of its big-endian value.
pub proof fn lemma_word_of_be_value(b: Seq<u8>)
    requires
        b.len() == 32,
    ensures
        b == word(be_value(b)),
{
    assert forall|i: int| 0 <= i < 32 implies b[i] == word(be_value(b))[i] by {
        lemma_be_value_bytes(b, i);
    }
    assert(b =~= word(be_value(b)));
}

/// A word only depends on its value modulo 2^256.
pub proof fn lemma_word_mod(n: nat)
    ensures
        word(n) == word(n % word_modulus()),
{
    assert forall|i: int| 0 <= i < 32 implies word(n)[i] == word(n % word_modulus())[i] by {
        lemma_byte_of_mod(n, 32, (31 - i) as nat);
    }
    assert(word(n) =~= word(n % word_modulus()));
}

pub open spec fn is_ascii_digit(c: u8) -> bool {
    48 <= c <= 57
}

/// Number of ASCII digits at the start of `s`.
pub open spec fn leading_digits(s: Seq<u8>) -> nat
    decreases s.len(),
{
    if s.len() > 0 && is_ascii_digit(s[0]) {
        1 + leading_digits(s.drop_first())
    } else {
        0
    }
}

/// Value of a string of ASCII digits read in base 10.
pub open spec fn decimal_value(d: Seq<u8>) -> nat
    decreases d.len(),
{
    if d.len() == 0 {
        0
    } else {
        decimal_value(d.drop_last()) * 10 + (d.last() - 48) as nat
    }
}

/// Value of the run of ASCII digits that starts `s` (0 when there is none).
pub open spec fn decimal_prefix_value(s: Seq<u8>) -> nat {
    decimal_value(s.take(leading_digits(s) as int))
}

proof fn lemma_leading_digits_at(s: Seq<u8>, i: int)
    requires
        0 <= i <= s.len(),
        forall|j: int| 0 <= j < i ==> is_ascii_digit(#[trigger] s[j]),
        i == s.len() || !is_ascii_digit(s[i]),
    ensures
        leading_digits(s) == i,
    decreases i,
{
    if i > 0 {
        let t = s.drop_first();
        assert forall|j: int| 0 <= j < i - 1 implies is_ascii_digit(#[trigger] t[j]) by {
            assert(t[j] == s[j + 1]);
        }
        if i < s.len() {
            assert(t[i - 1] == s[i]);
        }
        lemma_leading_digits_at(t, i - 1);
    }
}

proof fn lemma_carry_step(nl: int, ol: int, c: int, d: int, p: int, ob: int, nb: int, c2: int, v: int)
    requires
        nl + c * p == 10 * ol + d,
        v == 10 * ob + c,
        v == nb + 256 * c2,
    ensures
        nb * p + nl + c2 * (256 * p) == 10 * (ob * p + ol) + d,
{
    assert(nb * p + c2 * (256 * p) == v * p) by (nonlinear_arith)
        requires
            v == nb + 256 * c2,
    ;
    assert(v * p == 10 * (ob * p) + c * p) by (nonlinear_arith)
        requires
            v == 10 * ob + c,
    ;
    assert(10 * (ob * p + ol) == 10 * (ob * p) + 10 * ol) by (nonlinear_arith);
}

/// Convert a decimal string (potentially 256-bit) to a big-endian 32-byte word.
/// Reading stops at the first byte that is not an ASCII digit; the value wraps
/// modulo 2^256.
pub fn enc_decimal(s: &str) -> (out: [u8; 32])
    ensures
        out@ == word(decimal_prefix_value(s.spec_bytes())),
{
    let bytes = s.as_bytes();
    let n = bytes.len();
    let mut out = [0u8; 32];
    let mut i: usize = 0;
    let ghost m = word_modulus();
    proof {
        lemma_pow256_pos(32);
        assert(out@ =~= Seq::new(32, |j: int| 0u8));
        lemma_be_value_zero(out@);
        assert(bytes@.take(0) =~= Seq::<u8>::empty());
        assert(decimal_value(Seq::<u8>::empty()) == 0);
        assert(be_value(out@) == 0);
        assert(0nat % m == 0);
    }
    while i < n
        invariant
            n == bytes@.len(),
            bytes@ == s.spec_bytes(),
            0 <= i <= n,
            out@.len() == 32,
            m == word_modulus(),
            m > 0,
            forall|j: int| 0 <= j < i ==> is_ascii_digit(#[trigger] bytes@[j]),
            be_value(out@) == decimal_value(bytes@.take(i as int)) % m,
        ensures
            i == n || !is_ascii_digit(bytes@[i as int]),
        decreases n - i,
    {
        let b = bytes[i];
        if !(b >= 48 && b <= 57) {
            break;
        }
        let digit = b - 48;
        let ghost old_out = out@;
        let mut carry: u32 = digit as u32;
        let mut k: usize = 0;
        proof {
            assert(out@.subrange(32, 32) =~= Seq::<u8>::empty());
            assert(pow256(0) == 1);
        }
        while k < 32
            invariant
                out@.len() == 32,
                old_out.len() == 32,
                0 <= k <= 32,
                carry < 10,
                forall|j: int| 0 <= j < 32 - k ==> out@[j] == old_out[j],
                be_value(out@.subrange(32 - k, 32)) + carry * pow256(k as nat) == 10 * be_value(
                    old_out.subrange(32 - k, 32),
                ) + digit,
            decreases 32 - k,
        {
            let idx = 31 - k;
            let ob = out[idx];
            let v: u32 = (ob as u32) * 10 + carry;
            let nb = #[verifier::truncate] ((v & 0xff) as u8);
            let c2 = v >> 8;
            proof {
                assert(v & 0xff == v % 256) by (bit_vector);
                assert(v >> 8 == v / 256) by (bit_vector);
                assert((v & 0xff) as u8 == v & 0xff) by (bit_vector)
                    requires
                        v < 0x10000,
                ;
            }
            let ghost pre = out@;
            out[idx] = nb;
            proof {
                let p = pow256(k as nat);
                assert(out@.subrange(31 - k, 32) =~= seq![nb] + pre.subrange(32 - k, 32));
                assert(old_out.subrange(31 - k, 32) =~= seq![ob] + old_out.subrange(32 - k, 32));
                assert(pre.subrange(32 - k, 32) =~= out@.subrange(32 - k, 32));
                lemma_be_value_prepend(nb, pre.subrange(32 - k, 32));
                lemma_be_value_prepend(ob, old_out.subrange(32 - k, 32));
                lemma_fundamental_div_mod(v as int, 256);
                lemma_carry_step(
                    be_value(pre.subrange(32 - k, 32)) as int,
                    be_value(old_out.subrange(32 - k, 32)) as int,
                    carry as int,
                    digit as int,
                    p as int,
                    ob as int,
                    nb as int,
                    c2 as int,
                    v as int,
                );
                assert(pow256((k + 1) as nat) == 256 * p);
            }
            carry = c2;
            k = k + 1;
        }
        proof {
            let dv = decimal_value(bytes@.take(i as int));
            assert(out@.subrange(0, 32) =~= out@);
            assert(old_out.subrange(0, 32) =~= old_out);
            let nv = be_value(out@);
            let ov = be_value(old_out);
            assert(nv + carry * m == 10 * ov + digit);
            lemma_be_value_bound(out@);
            assert(nv < m);
            lemma_mod_multiples_vanish(carry as int, nv as int, m as int);
            lemma_small_mod(nv, m);
            assert((10 * ov + digit) % (m as int) == nv);
            assert(ov == dv % m);
            assert(bytes@.take(i + 1).drop_last() =~= bytes@.take(i as int));
            assert(bytes@.take(i + 1).last() == b);
            assert(decimal_value(bytes@.take(i + 1)) == dv * 10 + digit);
            lemma_mul_mod_noop_right(10, dv as int, m as int);
            lemma_small_mod(digit as nat, m);
            lemma_add_mod_noop((10 * (dv % m)) as int, digit as int, m as int);
            lemma_add_mod_noop((10 * dv) as int, digit as int, m as int);
            assert((10 * ov + digit) % (m as int) == (dv * 10 + digit) % (m as int));
        }
        i = i + 1;
    }
    proof {
        lemma_leading_digits_at(bytes@, i as int);
        lemma_word_of_be_value(out@);
        lemma_word_mod(decimal_prefix_value(bytes@));
    }
    out
}

pub proof fn lemma_be_value_zero(b: Seq<u8>)
    requires
        forall|j: int| 0 <= j < b.len() ==> b[j] == 0,
    ensures
        be_value(b) == 0,
    decreases b.len(),
{
    if b.len() > 0 {
        lemma_be_value_zero(b.drop_last());
    }
}

/// The address bytes that a hex text stands for: the hex decoding of the
/// text without its leading `"0x"`s, or nothing where that is not valid hex.
pub open spec fn address_bytes(text: Seq<u8>) -> Seq<u8> {
    let clean = strip_0x(text);
    if is_hex_text(clean) {
        hex_text_bytes(clean)
    } else {
        Seq::empty()
    }
}

/// A byte string right-aligned in a 32-byte word: left-padded with zeros, or
/// cut to its last 32 bytes.
pub open spec fn left_pad_word(b: Seq<u8>) -> Seq<u8> {
    if b.len() >= 32 {
        b.subrange(b.len() - 32, b.len() as int)
    } else {
        Seq::new((32 - b.len()) as nat, |i: int| 0u8) + b
    }
}

/// ABI-encode an Ethereum address given as hex (with or without `0x`),
/// right-aligned in a 32-byte word. Text that is not valid hex encodes as
/// the zero word.
pub fn enc_addr(hex_addr: &str) -> (out: [u8; 32])
    ensures
        out@ == left_pad_word(address_bytes(hex_addr.spec_bytes())),
{
    let clean = strip_0x_bytes(hex_addr.as_bytes());
    let bytes = match hex_decode(clean.as_slice()) {
        Ok(b) => b,
        Err(_) => Vec::new(),
    };
    let mut out = [0u8; 32];
    let len = bytes.len();
    let start: usize = if len >= 32 { 0 } else { 32 - len };
    let from: usize = if len >= 32 { len - 32 } else { 0 };
    let ghost want = left_pad_word(bytes@);
    let mut i: usize = 0;
    while i < 32 - start
        invariant
            out@.len() == 32,
            bytes@.len() == len,
            want == left_pad_word(bytes@),
            start == (if len >= 32 { 0 } else { 32 - len }),
            from == (if len >= 32 { len - 32 } else { 0 }),
            0 <= i <= 32 - start,
            forall|j: int| 0 <= j < start ==> out@[j] == 0,
            forall|j: int| start <= j < start + i ==> out@[j] == want[j],
        decreases 32 - start - i,
    {
        out[start + i] = bytes[from + i];
        i = i + 1;
    }
    assert(out@ =~= want);
    out
}

/// The last `len` bytes of `n` in big-endian order.
pub open spec fn be_bytes(n: nat, len: nat) -> Seq<u8> {
    Seq::new(len, |i: int| byte_of(n, (len - 1 - i) as nat))
}

proof fn lemma_be_value_of_be_bytes(n: nat, len: nat)
    ensures
        be_value(be_bytes(n, len)) == n % pow256(len),
    decreases len,
{
    lemma_pow256_pos(len);
    if len == 0 {
        assert(be_bytes(n, 0) =~= Seq::<u8>::empty());
        assert(pow256(0) == 1);
    } else {
        let b = be_bytes(n, len);
        let p = pow256((len - 1) as nat);
        lemma_pow256_pos((len - 1) as nat);
        assert forall|i: int| 0 <= i < len - 1 implies b.drop_last()[i] == be_bytes(
            n / 256,
            (len - 1) as nat,
        )[i] by {
            let k = (len - 2 - i) as nat;
            lemma_div_pow256_step_front(n, k);
            assert((len - 1 - i) as nat == k + 1);
        }
        assert(b.drop_last() =~= be_bytes(n / 256, (len - 1) as nat));
        lemma_be_value_of_be_bytes(n / 256, (len - 1) as nat);
        assert(pow256(0) == 1);
        assert(b.last() == byte_of(n, 0));
        assert(n / 1 == n);
        lemma_mod_bound(n as int, 256);
        assert(b.last() as nat == n % 256);
        lemma_mod_breakdown(n as int, 256, p as int);
        assert(pow256(len) == 256 * p);
    }
}

/// Law: decoding an ABI word gives back the encoded value modulo 2^256; in
/// particular `enc_u64(v)` and `enc_u8(v)` decode to `v`.
pub proof fn law_word_decodes_to_value(n: nat)
    ensures
        word(n).len() == 32,
        be_value(word(n)) == n % word_modulus(),
{
    assert(word(n) =~= be_bytes(n, 32));
    lemma_be_value_of_be_bytes(n, 32);
}

/// Law: two values below 2^256 have the same word only if they are equal.
pub proof fn law_word_injective(x: nat, y: nat)
    requires
        x < word_modulus(),
        y < word_modulus(),
        word(x) == word(y),
    ensures
        x == y,
{
    law_word_decodes_to_value(x);
    law_word_decodes_to_value(y);
    lemma_small_mod(x, word_modulus());
    lemma_small_mod(y, word_modulus());
}

pub proof fn lemma_decimal_digits_value(n: nat)
    ensures
        decimal_value(decimal_digits(n)) == n,
        forall|j: int|
            0 <= j < decimal_digits(n).len() ==> is_ascii_digit(#[trigger] decimal_digits(n)[j]),
    decreases n,
{
    let d = decimal_digits(n);
    if n < 10 {
        assert(d.drop_last() =~= Seq::<u8>::empty());
        assert(decimal_value(Seq::<u8>::empty()) == 0);
        assert(d.last() == (48 + n) as u8);
    } else {
        lemma_decimal_digits_value(n / 10);
        assert(d.drop_last() =~= decimal_digits(n / 10));
        lemma_fundamental_div_mod(n as int, 10);
        lemma_mod_bound(n as int, 10);
        assert(d.last() == (48 + n % 10) as u8);
        assert((d.last() - 48) as nat == n % 10);
        assert(decimal_value(d) == decimal_value(decimal_digits(n / 10)) * 10 + n % 10);
        assert forall|j: int| 0 <= j < d.len() implies is_ascii_digit(#[trigger] d[j]) by {
            if j < d.len() - 1 {
                assert(d[j] == decimal_digits(n / 10)[j]);
            }
        }
    }
}

/// Law: the decimal text of a number encodes to that number, so
/// `enc_decimal` of the decimal text of `v` is `enc_u64(v)`.
pub proof fn law_decimal_text_round_trip(n: nat)
    ensures
        decimal_prefix_value(decimal_digits(n)) == n,
        word(decimal_prefix_value(decimal_digits(n))) == word(n),
{
    let d = decimal_digits(n);
    lemma_decimal_digits_value(n);
    lemma_leading_digits_at(d, d.len() as int);
    assert(d.take(d.len() as int) =~= d);
}

/// Law: a leading `0x` does not change the address that a hex text stands for.
pub proof fn law_address_ignores_0x(text: Seq<u8>)
    ensures
        address_bytes(seq![48u8, 120u8] + text) == address_bytes(text),
{
    let t = seq![48u8, 120u8] + text;
    assert(t.subrange(2, t.len() as int) =~= text);
}

/// Law: letter case in hex does not matter. Two texts of hex digits whose
/// digits have the same values pairwise (such as the upper- and lower-case
/// spelling of one address or key) stand for the same address word and, read
/// as a signing key, for the same key bytes.
pub proof fn law_hex_case_irrelevant(t1: Seq<u8>, t2: Seq<u8>)
    requires
        t1.len() == t2.len(),
        forall|i: int|
            0 <= i < t1.len() ==> is_hex_digit(#[trigger] t1[i]) && is_hex_digit(t2[i])
                && hex_digit_value(t1[i]) == hex_digit_value(t2[i]),
    ensures
        strip_0x(t1) == t1,
        strip_0x(t2) == t2,
        is_hex_text(t1) == is_hex_text(t2),
        hex_text_bytes(t1) == hex_text_bytes(t2),
        address_bytes(t1) == address_bytes(t2),
        left_pad_word(address_bytes(t1)) == left_pad_word(address_bytes(t2)),
{
    if t1.len() >= 2 {
        assert(is_hex_digit(t1[1]) && is_hex_digit(t2[1]));
    }
    assert forall|i: int| 0 <= i < t2.len() implies is_hex_digit(#[trigger] t2[i]) by {
        assert(is_hex_digit(t1[i]));
    }
    assert(hex_text_bytes(t1) =~= hex_text_bytes(t2)) by {
        assert forall|i: int| 0 <= i < t1.len() / 2 implies #[trigger] hex_text_bytes(t1)[i]
            == hex_text_bytes(t2)[i] by {
            assert(hex_digit_value(t1[2 * i]) == hex_digit_value(t2[2 * i]));
            assert(hex_digit_value(t1[2 * i + 1]) == hex_digit_value(t2[2 * i + 1]));
        }
    }
}

} // verus!
