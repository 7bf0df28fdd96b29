use byteorder::{BigEndian, ByteOrder};
use vstd::prelude::*;

verus! {

/// The two bytes of `n`, most significant first.
pub open spec fn be16(n: u16) -> Seq<u8> {
    seq![((n >> 8u16) & 0xffu16) as u8, (n & 0xffu16) as u8]
}

/// The four bytes of `n`, most significant first.
pub open spec fn be32(n: u32) -> Seq<u8> {
    seq![
        ((n >> 24u32) & 0xffu32) as u8,
        ((n >> 16u32) & 0xffu32) as u8,
        ((n >> 8u32) & 0xffu32) as u8,
        (n & 0xffu32) as u8,
    ]
}

/// The number that two bytes hold, most significant first.
pub open spec fn be16_value(b0: u8, b1: u8) -> u16 {
    ((b0 as u16) << 8u16) | (b1 as u16)
}

/// The number that four bytes hold, most significant first.
pub open spec fn be32_value(b0: u8, b1: u8, b2: u8, b3: u8) -> u32 {
    ((b0 as u32) << 24u32) | ((b1 as u32) << 16u32) | ((b2 as u32) << 8u32) | (b3 as u32)
}

pub proof fn lemma_be16_round_trip(n: u16)
    ensures
        be16_value(be16(n)[0], be16(n)[1]) == n,
{
    let b0 = ((n >> 8u16) & 0xffu16) as u8;
    let b1 = (n & 0xffu16) as u8;
    assert(((b0 as u16) << 8u16) | (b1 as u16) == n) by (bit_vector)
        requires
            b0 == ((n >> 8u16) & 0xffu16) as u8,
            b1 == (n & 0xffu16) as u8,
    ;
}

pub proof fn lemma_be16_value_bytes(b0: u8, b1: u8)
    ensures
        be16(be16_value(b0, b1)) == seq![b0, b1],
{
    let n = be16_value(b0, b1);
    assert(((n >> 8u16) & 0xffu16) as u8 == b0 && (n & 0xffu16) as u8 == b1) by (bit_vector)
        requires
            n == ((b0 as u16) << 8u16) | (b1 as u16),
    ;
    assert(be16(n) =~= seq![b0, b1]);
}

pub proof fn lemma_be32_round_trip(n: u32)
    ensures
        be32_value(be32(n)[0], be32(n)[1], be32(n)[2], be32(n)[3]) == n,
{
    let b0 = ((n >> 24u32) & 0xffu32) as u8;
    let b1 = ((n >> 16u32) & 0xffu32) as u8;
    let b2 = ((n >> 8u32) & 0xffu32) as u8;
    let b3 = (n & 0xffu32) as u8;
    assert(((b0 as u32) << 24u32) | ((b1 as u32) << 16u32) | ((b2 as u32) << 8u32) | (b3 as u32)
        == n) by (bit_vector)
        requires
            b0 == ((n >> 24u32) & 0xffu32) as u8,
            b1 == ((n >> 16u32) & 0xffu32) as u8,
            b2 == ((n >> 8u32) & 0xffu32) as u8,
            b3 == (n & 0xffu32) as u8,
    ;
}

pub proof fn lemma_be32_value_bytes(b0: u8, b1: u8, b2: u8, b3: u8)
    ensures
        be32(be32_value(b0, b1, b2, b3)) == seq![b0, b1, b2, b3],
{
    let n = be32_value(b0, b1, b2, b3);
    assert(((n >> 24u32) & 0xffu32) as u8 == b0 && ((n >> 16u32) & 0xffu32) as u8 == b1 && ((n
        >> 8u32) & 0xffu32) as u8 == b2 && (n & 0xffu32) as u8 == b3) by (bit_vector)
        requires
            n == ((b0 as u32) << 24u32) | ((b1 as u32) << 16u32) | ((b2 as u32) << 8u32) | (
            b3 as u32),
    ;
    assert(be32(n) =~= seq![b0, b1, b2, b3]);
}

/// Relies on byteorder's `BigEndian::read_u16`: the first two bytes of the slice it is
/// given, most significant first (it panics on fewer than two).
#[verifier::external_body]
pub(crate) fn read_be16_at(buf: &[u8], pos: usize) -> (r: u16)
    requires
        pos + 2 <= buf@.len(),
    ensures
        r == be16_value(buf@[pos as int], buf@[pos + 1]),
{
    BigEndian::read_u16(&buf[pos..])
}

/// Relies on byteorder's `BigEndian::read_u32`: the first four bytes of the slice it is
/// given, most significant first (it panics on fewer than four).
#[verifier::external_body]
pub(crate) fn read_be32_at(buf: &[u8], pos: usize) -> (r: u32)
    requires
        pos + 4 <= buf@.len(),
    ensures
        r == be32_value(buf@[pos as int], buf@[pos + 1], buf@[pos + 2], buf@[pos + 3]),
{
    BigEndian::read_u32(&buf[pos..])
}

/// Relies on byteorder's `BigEndian::write_u16`: it stores `n` into the first two bytes,
/// most significant first.
#[verifier::external_body]
pub(crate) fn be16_bytes(n: u16) -> (r: [u8; 2])
    ensures
        r@ == be16(n),
{
    let mut b = [0u8; 2];
    BigEndian::write_u16(&mut b, n);
    b
}

/// Relies on byteorder's `BigEndian::write_u32`: it stores `n` into the first four bytes,
/// most significant first.
#[verifier::external_body]
pub(crate) fn be32_bytes(n: u32) -> (r: [u8; 4])
    ensures
        r@ == be32(n),
{
    let mut b = [0u8; 4];
    BigEndian::write_u32(&mut b, n);
    b
}

} // verus!
