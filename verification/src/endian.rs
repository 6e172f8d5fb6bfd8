//! Numbers as bytes in big-endian order, the order of every number in a
//! FastCGI record.

use vstd::prelude::*;

verus! {

/// The two bytes of `v`, most significant first.
pub open spec fn u16_be(v: u16) -> Seq<u8> {
    seq![(v / 256) as u8, (v % 256) as u8]
}

/// The four bytes of `v`, most significant first.
pub open spec fn u32_be(v: u32) -> Seq<u8> {
    seq![
        (v / 0x100_0000) as u8,
        (v / 0x1_0000 % 256) as u8,
        (v / 0x100 % 256) as u8,
        (v % 256) as u8,
    ]
}

/// The number that two bytes spell, most significant first.
pub open spec fn u16_from_be(b: Seq<u8>) -> u16
    recommends
        b.len() >= 2,
{
    (b[0] * 256 + b[1]) as u16
}

/// The number that four bytes spell, most significant first.
pub open spec fn u32_from_be(b: Seq<u8>) -> u32
    recommends
        b.len() >= 4,
{
    (b[0] * 0x100_0000 + b[1] * 0x1_0000 + b[2] * 0x100 + b[3]) as u32
}

/// The four bytes of a number spell the number, and the first of them is
/// 128 or more exactly where the number is 2^31 or more.
pub proof fn lemma_u32_be_round_trip(v: u32)
    ensures
        u32_be(v).len() == 4,
        u32_from_be(u32_be(v)) == v,
        v >= 0x8000_0000 <==> u32_be(v)[0] >= 128,
{
    let q3: u32 = v / 0x100_0000u32;
    let q2: u32 = v / 0x1_0000u32 % 256u32;
    let q1: u32 = v / 0x100u32 % 256u32;
    let q0: u32 = v % 256u32;
    assert(q3 < 256 && q2 < 256 && q1 < 256 && q0 < 256);
    assert(v == q3 * 0x100_0000 + q2 * 0x1_0000 + q1 * 0x100 + q0) by {
        let r3 = v % 0x100_0000u32;
        assert(v == q3 * 0x100_0000 + r3);
        let r2 = r3 % 0x1_0000u32;
        assert(r3 == (r3 / 0x1_0000u32) * 0x1_0000 + r2);
        assert(r3 / 0x1_0000u32 == q2);
        assert(r2 == (r2 / 0x100u32) * 0x100 + r2 % 0x100u32);
        assert(r2 / 0x100u32 == q1);
        assert(r2 % 0x100u32 == q0);
    }
}

/// The two bytes of a number spell the number.
pub proof fn lemma_u16_be_round_trip(v: u16)
    ensures
        u16_be(v).len() == 2,
        u16_from_be(u16_be(v)) == v,
{
    assert(v == (v / 256u16) * 256 + v % 256u16);
}

} // verus!
