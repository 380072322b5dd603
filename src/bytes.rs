//! Big-endian encoding of 32-bit integers.
use vstd::prelude::*;

verus! {

/// The four big-endian bytes of `n`.
pub open spec fn be32(n: u32) -> Seq<u8> {
    seq![(n >> 24u32) as u8, (n >> 16u32) as u8, (n >> 8u32) as u8, n as u8]
}

/// The integer whose big-endian bytes are `s[0..4]`.
pub open spec fn be32_value(s: Seq<u8>) -> u32
    recommends
        s.len() >= 4,
{
    ((s[0] as u32) << 24u32) | ((s[1] as u32) << 16u32) | ((s[2] as u32) << 8u32) | (s[3] as u32)
}

proof fn lemma_pack_unpack(a: u8, b: u8, c: u8, d: u8)
    by (bit_vector)
    ensures
        ((((a as u32) << 24u32) | ((b as u32) << 16u32) | ((c as u32) << 8u32) | (d as u32))
            >> 24u32) as u8 == a,
        ((((a as u32) << 24u32) | ((b as u32) << 16u32) | ((c as u32) << 8u32) | (d as u32))
            >> 16u32) as u8 == b,
        ((((a as u32) << 24u32) | ((b as u32) << 16u32) | ((c as u32) << 8u32) | (d as u32))
            >> 8u32) as u8 == c,
        (((a as u32) << 24u32) | ((b as u32) << 16u32) | ((c as u32) << 8u32) | (d as u32)) as u8
            == d,
{
}

proof fn lemma_unpack_pack(n: u32)
    by (bit_vector)
    ensures
        ((((n >> 24u32) as u8) as u32) << 24u32) | ((((n >> 16u32) as u8) as u32) << 16u32) | ((((n
            >> 8u32) as u8) as u32) << 8u32) | ((n as u8) as u32) == n,
{
}

/// Reading back the bytes of an integer gives the integer.
pub proof fn lemma_be32_value_of_be32(n: u32)
    ensures
        be32_value(be32(n)) == n,
        be32(n).len() == 4,
{
    lemma_unpack_pack(n);
}

/// Writing the integer read from four bytes gives those bytes.
pub proof fn lemma_be32_of_be32_value(s: Seq<u8>)
    requires
        s.len() == 4,
    ensures
        be32(be32_value(s)) == s,
{
    lemma_pack_unpack(s[0], s[1], s[2], s[3]);
    assert(be32(be32_value(s)) =~= s);
}

/// Two integers with the same bytes are equal.
pub proof fn lemma_be32_injective(m: u32, n: u32)
    ensures
        be32(m) == be32(n) ==> m == n,
{
    lemma_be32_value_of_be32(m);
    lemma_be32_value_of_be32(n);
}

/// The big-endian bytes of `n`.
pub fn u32_to_be(n: u32) -> (r: [u8; 4])
    ensures
        r@ == be32(n),
{
    let r = [(n >> 24u32) as u8, (n >> 16u32) as u8, (n >> 8u32) as u8, n as u8];
    assert(r@ =~= be32(n));
    r
}

/// The integer held big-endian in `b[at..at + 4]`.
pub fn u32_from_be(b: &[u8], at: usize) -> (r: u32)
    requires
        at + 4 <= b@.len(),
    ensures
        r == be32_value(b@.subrange(at as int, at + 4)),
{
    ((b[at] as u32) << 24u32) | ((b[at + 1] as u32) << 16u32) | ((b[at + 2] as u32) << 8u32) | (b[at
        + 3] as u32)
}

} // verus!
