//! Text helpers: decimal rendering and Unicode case mapping.

use vstd::prelude::*;
use vstd::utf8::{decode_utf8, valid_utf8};

verus! {

/// ASCII decimal digits of `n`, most significant first, without leading zeros.
pub open spec fn decimal_digits(n: nat) -> Seq<u8>
    decreases n,
{
    if n < 10 {
        seq![(48 + n) as u8]
    } else {
        decimal_digits(n / 10).push((48 + n % 10) as u8)
    }
}

/// Append the decimal digits of `v` to `buf`.
pub fn push_decimal(buf: &mut Vec<u8>, v: u64)
    ensures
        final(buf)@ == old(buf)@ + decimal_digits(v as nat),
    decreases v,
{
    if v >= 10 {
        push_decimal(buf, v / 10);
    }
    buf.push(48 + (v % 10) as u8);
    assert(buf@ =~= old(buf)@ + decimal_digits(v as nat));
}

/// The upper-case mapping that `str::to_uppercase` applies to a string.
pub uninterp spec fn uppercase_spec(s: Seq<char>) -> Seq<char>;

/// The lower-case mapping that `str::to_lowercase` applies to a string.
pub uninterp spec fn lowercase_spec(s: Seq<char>) -> Seq<char>;

/// `str::to_uppercase`: the result is the named `uppercase_spec` of the input
/// (Unicode upper-case mapping; the mapping itself is not stated here).
#[verifier::external_body]
pub(crate) fn str_to_uppercase(s: &str) -> (r: String)
    ensures
        r@ == uppercase_spec(s@),
{
    s.to_uppercase()
}

/// `str::to_lowercase`: the result is the named `lowercase_spec` of the input
/// (Unicode lower-case mapping; the mapping itself is not stated here).
#[verifier::external_body]
pub(crate) fn str_to_lowercase(s: &str) -> (r: String)
    ensures
        r@ == lowercase_spec(s@),
{
    s.to_lowercase()
}

/// Decimal text of `n`, most significant digit first, without leading zeros.
pub open spec fn decimal_text(n: nat) -> Seq<char>
    decreases n,
{
    if n < 10 {
        seq![(48 + n) as char]
    } else {
        decimal_text(n / 10).push((48 + n % 10) as char)
    }
}

/// `String::push`: appends one character.
#[verifier::external_body]
pub(crate) fn string_push(s: &mut String, c: char)
    ensures
        final(s)@ == old(s)@.push(c),
{
    s.push(c)
}

/// Append the decimal text of `v` to `s`.
pub fn push_decimal_text(s: &mut String, v: u64)
    ensures
        final(s)@ == old(s)@ + decimal_text(v as nat),
    decreases v,
{
    if v >= 10 {
        push_decimal_text(s, v / 10);
    }
    let d: u8 = 48 + (v % 10) as u8;
    string_push(s, d as char);
    assert(s@ =~= old(s)@ + decimal_text(v as nat));
}

/// Characters with the Unicode property White_Space.
pub open spec fn is_white_space(c: char) -> bool {
    let n = c as u32;
    (9 <= n <= 13) || n == 32 || n == 0x85 || n == 0xA0 || n == 0x1680 || (0x2000 <= n <= 0x200A)
        || n == 0x2028 || n == 0x2029 || n == 0x202F || n == 0x205F || n == 0x3000
}

/// `s` without its leading white space.
pub open spec fn trim_start_spec(s: Seq<char>) -> Seq<char>
    decreases s.len(),
{
    if s.len() > 0 && is_white_space(s[0]) {
        trim_start_spec(s.drop_first())
    } else {
        s
    }
}

/// `s` without its trailing white space.
pub open spec fn trim_end_spec(s: Seq<char>) -> Seq<char>
    decreases s.len(),
{
    if s.len() > 0 && is_white_space(s.last()) {
        trim_end_spec(s.drop_last())
    } else {
        s
    }
}

/// `s` without leading and trailing white space.
pub open spec fn trim_spec(s: Seq<char>) -> Seq<char> {
    trim_end_spec(trim_start_spec(s))
}

/// `str::trim`: the string without leading and trailing white space, white
/// space being the characters with the Unicode White_Space property.
#[verifier::external_body]
pub(crate) fn str_trim(s: &str) -> (r: &str)
    ensures
        r@ == trim_spec(s@),
{
    s.trim()
}

/// The text that `String::from_utf8_lossy` makes of a byte string.
pub uninterp spec fn utf8_lossy_spec(b: Seq<u8>) -> Seq<char>;

/// `String::from_utf8_lossy`: the result is the named `utf8_lossy_spec` of the
/// bytes; valid UTF-8 is decoded unchanged (invalid sequences become U+FFFD,
/// which is not stated here).
#[verifier::external_body]
pub(crate) fn utf8_lossy(b: &[u8]) -> (r: String)
    ensures
        r@ == utf8_lossy_spec(b@),
        valid_utf8(b@) ==> r@ == decode_utf8(b@),
{
    String::from_utf8_lossy(b).into_owned()
}

/// The decimal text of `n`, read as ASCII bytes, is its decimal digits.
pub proof fn lemma_decimal_text_bytes(n: nat)
    ensures
        decimal_text(n).map_values(|c: char| c as u8) == decimal_digits(n),
    decreases n,
{
    if n >= 10 {
        lemma_decimal_text_bytes(n / 10);
        assert(decimal_text(n).map_values(|c: char| c as u8) =~= decimal_text(n / 10).map_values(
            |c: char| c as u8,
        ).push((48 + n % 10) as u8));
    } else {
        assert(decimal_text(n).map_values(|c: char| c as u8) =~= decimal_digits(n));
    }
}

} // verus!
