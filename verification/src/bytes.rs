//! Small verified helpers on byte strings.

use vstd::prelude::*;

verus! {

/// `s` with every leading `"0x"` removed (as `str::trim_start_matches("0x")` does).
pub open spec fn strip_0x(s: Seq<u8>) -> Seq<u8>
    decreases s.len(),
{
    if s.len() >= 2 && s[0] == 48 && s[1] == 120 {
        strip_0x(s.subrange(2, s.len() as int))
    } else {
        s
    }
}

/// The bytes of `s` from index `start` on.
pub fn tail_to_vec(s: &[u8], start: usize) -> (r: Vec<u8>)
    requires
        start <= s@.len(),
    ensures
        r@ == s@.subrange(start as int, s@.len() as int),
{
    let mut r: Vec<u8> = Vec::new();
    let mut i = start;
    while i < s.len()
        invariant
            start <= i <= s@.len(),
            r@ == s@.subrange(start as int, i as int),
        decreases s@.len() - i,
    {
        r.push(s[i]);
        i = i + 1;
        assert(r@ =~= s@.subrange(start as int, i as int));
    }
    r
}

/// Append the bytes of `data` to `buf`.
pub fn append_bytes(buf: &mut Vec<u8>, data: &[u8])
    ensures
        final(buf)@ == old(buf)@ + data@,
{
    let mut i: usize = 0;
    let ghost start = buf@;
    while i < data.len()
        invariant
            i <= data@.len(),
            buf@ == start + data@.subrange(0, i as int),
        decreases data@.len() - i,
    {
        buf.push(data[i]);
        i = i + 1;
        assert(buf@ =~= start + data@.subrange(0, i as int));
    }
    assert(data@.subrange(0, data@.len() as int) =~= data@);
}

/// Remove every leading `"0x"` from a byte string.
pub fn strip_0x_bytes(s: &[u8]) -> (r: Vec<u8>)
    ensures
        r@ == strip_0x(s@),
{
    let n = s.len();
    let mut i: usize = 0;
    assert(s@.subrange(0, n as int) =~= s@);
    while i < n && n - i >= 2 && s[i] == 48 && s[i + 1] == 120
        invariant
            n == s@.len(),
            i <= n,
            strip_0x(s@) == strip_0x(s@.subrange(i as int, n as int)),
        decreases n - i,
    {
        let ghost t = s@.subrange(i as int, n as int);
        assert(t.subrange(2, t.len() as int) =~= s@.subrange(i + 2, n as int));
        i = i + 2;
    }
    tail_to_vec(s, i)
}

/// Law: a leading `0x` is ignored, so a key or address with or without the
/// prefix is read the same.
pub proof fn law_strip_0x_ignores_prefix(t: Seq<u8>)
    ensures
        strip_0x(seq![48u8, 120u8] + t) == strip_0x(t),
{
    let s = seq![48u8, 120u8] + t;
    assert(s.subrange(2, s.len() as int) =~= t);
}

/// Law: stripping twice is stripping once; what is left never starts with `0x`.
pub proof fn law_strip_0x_idempotent(s: Seq<u8>)
    ensures
        strip_0x(strip_0x(s)) == strip_0x(s),
        !(strip_0x(s).len() >= 2 && strip_0x(s)[0] == 48 && strip_0x(s)[1] == 120),
    decreases s.len(),
{
    if s.len() >= 2 && s[0] == 48 && s[1] == 120 {
        law_strip_0x_idempotent(s.subrange(2, s.len() as int));
    }
}

} // verus!
