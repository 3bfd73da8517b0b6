//! Little-endian byte layouts for the fixed-width integers that the record
//! codec and the persisted counter use.

use vstd::prelude::*;

verus! {

/// The eight bytes of `x`, least significant first.
pub open spec fn u64_le(x: u64) -> Seq<u8> {
    seq![
        x as u8,
        (x >> 8) as u8,
        (x >> 16) as u8,
        (x >> 24) as u8,
        (x >> 32) as u8,
        (x >> 40) as u8,
        (x >> 48) as u8,
        (x >> 56) as u8,
    ]
}

/// The value read back from eight little-endian bytes.
pub open spec fn u64_of_le(b: Seq<u8>) -> u64
    recommends
        b.len() == 8,
{
    (b[0] as u64) | ((b[1] as u64) << 8) | ((b[2] as u64) << 16) | ((b[3] as u64) << 24) | ((b[4]
        as u64) << 32) | ((b[5] as u64) << 40) | ((b[6] as u64) << 48) | ((b[7] as u64) << 56)
}

/// The two bytes of a length prefix, least significant first.
pub open spec fn u16_le(x: u16) -> Seq<u8> {
    seq![x as u8, (x >> 8) as u8]
}

/// The length read back from a two-byte prefix.
pub open spec fn u16_of_le(b0: u8, b1: u8) -> u16 {
    (b0 as u16) | ((b1 as u16) << 8)
}

pub proof fn lemma_u64_le_round(x: u64)
    ensures
        u64_of_le(u64_le(x)) == x,
{
    assert((x as u8 as u64) | ((x >> 8) as u8 as u64) << 8 | ((x >> 16) as u8 as u64) << 16 | ((x
        >> 24) as u8 as u64) << 24 | ((x >> 32) as u8 as u64) << 32 | ((x >> 40) as u8 as u64)
        << 40 | ((x >> 48) as u8 as u64) << 48 | ((x >> 56) as u8 as u64) << 56 == x)
        by (bit_vector);
}

pub proof fn lemma_u64_of_le_round(b: Seq<u8>)
    requires
        b.len() == 8,
    ensures
        u64_le(u64_of_le(b)) == b,
{
    let x = u64_of_le(b);
    let b0 = b[0];
    let b1 = b[1];
    let b2 = b[2];
    let b3 = b[3];
    let b4 = b[4];
    let b5 = b[5];
    let b6 = b[6];
    let b7 = b[7];
    assert({
        let y = (b0 as u64) | ((b1 as u64) << 8) | ((b2 as u64) << 16) | ((b3 as u64) << 24) | ((
        b4 as u64) << 32) | ((b5 as u64) << 40) | ((b6 as u64) << 48) | ((b7 as u64) << 56);
        y as u8 == b0 && (y >> 8) as u8 == b1 && (y >> 16) as u8 == b2 && (y >> 24) as u8 == b3 && (
        y >> 32) as u8 == b4 && (y >> 40) as u8 == b5 && (y >> 48) as u8 == b6 && (y >> 56) as u8
            == b7
    }) by (bit_vector);
    assert(u64_le(x) =~= b);
}

pub proof fn lemma_u16_le_round(x: u16)
    ensures
        u16_of_le(u16_le(x)[0], u16_le(x)[1]) == x,
{
    assert((x as u8 as u16) | ((x >> 8) as u8 as u16) << 8 == x) by (bit_vector);
}

pub proof fn lemma_u16_of_le_round(b0: u8, b1: u8)
    ensures
        u16_le(u16_of_le(b0, b1)) == seq![b0, b1],
{
    assert({
        let y = (b0 as u16) | ((b1 as u16) << 8);
        y as u8 == b0 && (y >> 8) as u8 == b1
    }) by (bit_vector);
    assert(u16_le(u16_of_le(b0, b1)) =~= seq![b0, b1]);
}

/// Appends the eight little-endian bytes of `x`.
pub fn push_u64_le(out: &mut Vec<u8>, x: u64)
    ensures
        final(out)@ == old(out)@ + u64_le(x),
{
    out.push(#[verifier::truncate] (x as u8));
    out.push(#[verifier::truncate] ((x >> 8) as u8));
    out.push(#[verifier::truncate] ((x >> 16) as u8));
    out.push(#[verifier::truncate] ((x >> 24) as u8));
    out.push(#[verifier::truncate] ((x >> 32) as u8));
    out.push(#[verifier::truncate] ((x >> 40) as u8));
    out.push(#[verifier::truncate] ((x >> 48) as u8));
    out.push(#[verifier::truncate] ((x >> 56) as u8));
    assert(final(out)@ =~= old(out)@ + u64_le(x));
}

/// Reads a `u64` from the eight little-endian bytes starting at `pos`.
pub fn read_u64_le(b: &Vec<u8>, pos: usize) -> (x: u64)
    requires
        pos + 8 <= b@.len(),
    ensures
        x == u64_of_le(b@.subrange(pos as int, pos + 8)),
{
    let n = b.len();
    let x = (b[pos] as u64) | ((b[pos + 1] as u64) << 8) | ((b[pos + 2] as u64) << 16) | ((b[pos
        + 3] as u64) << 24) | ((b[pos + 4] as u64) << 32) | ((b[pos + 5] as u64) << 40) | ((b[pos
        + 6] as u64) << 48) | ((b[pos + 7] as u64) << 56);
    proof {
        let s = b@.subrange(pos as int, pos + 8);
        assert(s[0] == b@[pos as int] && s[1] == b@[pos + 1] && s[2] == b@[pos + 2] && s[3] == b@[
            pos + 3] && s[4] == b@[pos + 4] && s[5] == b@[pos + 5] && s[6] == b@[pos + 6] && s[7]
            == b@[pos + 7]);
    }
    x
}

} // verus!
