//! Big-endian encoding of 32-bit values, as the PNG length and checksum
//! fields use it.

use vstd::prelude::*;

verus! {

/// The four big-endian bytes of `x`, most significant first.
pub open spec fn u32_to_be(x: u32) -> Seq<u8> {
    seq![
        ((x >> 24) & 0xff) as u8,
        ((x >> 16) & 0xff) as u8,
        ((x >> 8) & 0xff) as u8,
        (x & 0xff) as u8,
    ]
}

/// The value carried by four big-endian bytes, most significant first.
pub open spec fn u32_from_be(s: Seq<u8>) -> u32
    recommends
        s.len() == 4,
{
    ((s[0] as u32) << 24) | ((s[1] as u32) << 16) | ((s[2] as u32) << 8) | (s[3] as u32)
}

/// Decoding the four bytes of `x` gives `x` back.
pub proof fn lemma_u32_be_to_from(x: u32)
    ensures
        u32_to_be(x).len() == 4,
        u32_from_be(u32_to_be(x)) == x,
{
    assert(x == (((((x >> 24) & 0xff) as u8) as u32) << 24) | (((((x >> 16) & 0xff) as u8)
        as u32) << 16) | (((((x >> 8) & 0xff) as u8) as u32) << 8) | (((x & 0xff) as u8)
        as u32)) by (bit_vector);
}

/// Re-encoding the value carried by four bytes gives the same four bytes.
pub proof fn lemma_u32_be_from_to(s: Seq<u8>)
    requires
        s.len() == 4,
    ensures
        u32_to_be(u32_from_be(s)) == s,
{
    let x = u32_from_be(s);
    let s0 = s[0] as u32;
    let s1 = s[1] as u32;
    let s2 = s[2] as u32;
    let s3 = s[3] as u32;
    assert(((x == (s0 << 24) | (s1 << 16) | (s2 << 8) | s3) && s0 < 256 && s1 < 256 && s2 < 256
        && s3 < 256) ==> (s0 == (x >> 24) & 0xff && s1 == (x >> 16) & 0xff && s2 == (x >> 8)
        & 0xff && s3 == x & 0xff)) by (bit_vector);
    assert(u32_to_be(u32_from_be(s)) =~= s);
}

/// Appends the four big-endian bytes of `x` to `out`.
pub fn push_u32_be(out: &mut Vec<u8>, x: u32)
    ensures
        final(out)@ == old(out)@ + u32_to_be(x),
{
    proof {
        assert((x >> 24) & 0xff < 256 && (x >> 16) & 0xff < 256 && (x >> 8) & 0xff < 256 && x
            & 0xff < 256) by (bit_vector);
    }
    out.push(((x >> 24) & 0xff) as u8);
    out.push(((x >> 16) & 0xff) as u8);
    out.push(((x >> 8) & 0xff) as u8);
    out.push((x & 0xff) as u8);
    proof {
        assert(out@ =~= old(out)@ + u32_to_be(x));
    }
}

/// Reads the big-endian `u32` stored at `b[at .. at + 4]`.
pub fn read_u32_be(b: &[u8], at: usize) -> (r: u32)
    requires
        at + 4 <= b@.len(),
    ensures
        r == u32_from_be(b@.subrange(at as int, at as int + 4)),
{
    let r = ((b[at] as u32) << 24) | ((b[at + 1] as u32) << 16) | ((b[at + 2] as u32) << 8) | (b[at
        + 3] as u32);
    proof {
        let s = b@.subrange(at as int, at as int + 4);
        assert(s[0] == b@[at as int] && s[1] == b@[at as int + 1] && s[2] == b@[at as int + 2]
            && s[3] == b@[at as int + 3]);
    }
    r
}

} // verus!
