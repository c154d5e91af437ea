//! Big-endian encoding of 32-bit integers, with proofs that encoding
//! and decoding invert each other.

use vstd::prelude::*;

verus! {

/// The four big-endian bytes of `x`, most significant first.
pub open spec fn spec_u32_to_be_bytes(x: u32) -> Seq<u8> {
    seq![
        (x / 0x1000000) as u8,
        ((x / 0x10000) % 0x100) as u8,
        ((x / 0x100) % 0x100) as u8,
        (x % 0x100) as u8,
    ]
}

/// The value of four bytes read as a big-endian 32-bit integer.
pub open spec fn spec_u32_from_be_bytes(s: Seq<u8>) -> u32
    recommends
        s.len() == 4,
{
    (s[0] * 0x1000000 + s[1] * 0x10000 + s[2] * 0x100 + s[3]) as u32
}

/// Decoding inverts encoding: the bytes of `x` read back as `x`.
pub proof fn lemma_u32_be_bytes_value(x: u32)
    ensures
        spec_u32_to_be_bytes(x).len() == 4,
        spec_u32_from_be_bytes(spec_u32_to_be_bytes(x)) == x,
{
    assert(((x / 0x1000000) as u8) * 0x1000000 + (((x / 0x10000) % 0x100) as u8) * 0x10000 + (((x
        / 0x100) % 0x100) as u8) * 0x100 + ((x % 0x100) as u8) == x) by (bit_vector);
}

/// Encoding inverts decoding: any four bytes are the encoding of their value.
pub proof fn lemma_u32_be_value_bytes(s: Seq<u8>)
    requires
        s.len() == 4,
    ensures
        spec_u32_to_be_bytes(spec_u32_from_be_bytes(s)) == s,
{
    let b0 = s[0];
    let b1 = s[1];
    let b2 = s[2];
    let b3 = s[3];
    let x = spec_u32_from_be_bytes(s);
    assert(x == b0 * 0x1000000 + b1 * 0x10000 + b2 * 0x100 + b3);
    assert((b0 as u32) * 0x1000000 + (b1 as u32) * 0x10000 + (b2 as u32) * 0x100 + (b3 as u32)
        == x ==> ((x / 0x1000000) as u8 == b0 && ((x / 0x10000) % 0x100) as u8 == b1 && ((x
        / 0x100) % 0x100) as u8 == b2 && (x % 0x100) as u8 == b3)) by (bit_vector);
    assert(spec_u32_to_be_bytes(x) =~= s);
}

/// Two different values never share an encoding.
pub proof fn lemma_u32_be_bytes_injective(s1: Seq<u8>, s2: Seq<u8>)
    requires
        s1.len() == 4,
        s2.len() == 4,
        spec_u32_from_be_bytes(s1) == spec_u32_from_be_bytes(s2),
    ensures
        s1 == s2,
{
    lemma_u32_be_value_bytes(s1);
    lemma_u32_be_value_bytes(s2);
}

/// Reads a big-endian 32-bit integer from the first four bytes of `s`.
pub fn u32_from_be_slice(s: &[u8], offset: usize) -> (x: u32)
    requires
        offset + 4 <= s@.len(),
    ensures
        x == spec_u32_from_be_bytes(s@.subrange(offset as int, offset as int + 4)),
{
    let b0 = s[offset];
    let b1 = s[offset + 1];
    let b2 = s[offset + 2];
    let b3 = s[offset + 3];
    (b0 as u32) * 0x1000000 + (b1 as u32) * 0x10000 + (b2 as u32) * 0x100 + (b3 as u32)
}

/// Appends the big-endian encoding of `x` to `out`.
pub fn u32_push_be_bytes(out: &mut Vec<u8>, x: u32)
    ensures
        final(out)@ == old(out)@ + spec_u32_to_be_bytes(x),
{
    out.push((x / 0x1000000) as u8);
    out.push(((x / 0x10000) % 0x100) as u8);
    out.push(((x / 0x100) % 0x100) as u8);
    out.push((x % 0x100) as u8);
    assert(out@ =~= old(out)@ + spec_u32_to_be_bytes(x));
}

} // verus!
