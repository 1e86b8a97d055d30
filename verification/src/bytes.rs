//! Fixed-width integers as bytes: the big-endian words of a protocol frame and
//! the little-endian samples of a PCM stream.
use vstd::prelude::*;

verus! {

/// The four bytes of `x`, most significant first.
pub open spec fn be32(x: u32) -> Seq<u8> {
    seq![
        (x / 0x100_0000) as u8,
        (x / 0x1_0000 % 0x100) as u8,
        (x / 0x100 % 0x100) as u8,
        (x % 0x100) as u8,
    ]
}

/// The number that the four bytes of `s` from `at` on spell, most significant
/// first.
#[verifier::opaque]
pub open spec fn word_at(s: Seq<u8>, at: int) -> u32 {
    (s[at] * 0x100_0000 + s[at + 1] * 0x1_0000 + s[at + 2] * 0x100 + s[at + 3]) as u32
}

/// The 32-bit two's complement pattern of `x`.
pub open spec fn twos32(x: i32) -> u32 {
    if x >= 0 {
        x as u32
    } else {
        (x + 0x1_0000_0000) as u32
    }
}

/// The signed number whose two's complement pattern is `x`.
pub open spec fn signed32(x: u32) -> i32 {
    if x < 0x8000_0000 {
        x as i32
    } else {
        (x - 0x1_0000_0000) as i32
    }
}

/// The two bytes of `x` in two's complement, least significant first.
pub open spec fn le16(x: i16) -> Seq<u8> {
    let bits = if x >= 0 { x as int } else { x + 0x1_0000 };
    seq![(bits % 0x100) as u8, (bits / 0x100) as u8]
}

/// A word survives being written and read back, wherever it is written.
pub proof fn be32_reads_back(before: Seq<u8>, x: u32, after: Seq<u8>)
    ensures
        be32(x).len() == 4,
        word_at(before + be32(x) + after, before.len() as int) == x,
{
    reveal(word_at);
    let s = before + be32(x) + after;
    let at = before.len() as int;
    assert(s[at] == be32(x)[0]);
    assert(s[at + 1] == be32(x)[1]);
    assert(s[at + 2] == be32(x)[2]);
    assert(s[at + 3] == be32(x)[3]);
}

/// A signed number survives its two's complement pattern.
pub proof fn twos32_reads_back(x: i32)
    ensures
        signed32(twos32(x)) == x,
{
}

/// Appends the four bytes of `x`, most significant first.
pub(crate) fn push_be32(out: &mut Vec<u8>, x: u32)
    ensures
        final(out)@ == old(out)@ + be32(x),
{
    out.push((x / 0x100_0000) as u8);
    out.push((x / 0x1_0000 % 0x100) as u8);
    out.push((x / 0x100 % 0x100) as u8);
    out.push((x % 0x100) as u8);
    assert(out@ =~= old(out)@ + be32(x));
}

/// Reads the four bytes from `at` on as a word, most significant first.
pub(crate) fn read_be32(s: &[u8], at: usize) -> (x: u32)
    requires
        at + 4 <= s@.len(),
    ensures
        x == word_at(s@, at as int),
{
    proof {
        reveal(word_at);
    }
    s[at] as u32 * 0x100_0000 + s[at + 1] as u32 * 0x1_0000 + s[at + 2] as u32 * 0x100
        + s[at + 3] as u32
}

/// The two's complement pattern of `x`.
pub(crate) fn to_twos32(x: i32) -> (bits: u32)
    ensures
        bits == twos32(x),
{
    if x >= 0 {
        x as u32
    } else {
        (x as i64 + 0x1_0000_0000) as u32
    }
}

/// The signed number that two bytes spell in two's complement, least
/// significant first.
pub open spec fn from_le16(s: Seq<u8>) -> i16 {
    let bits = s[0] + s[1] * 0x100;
    if bits < 0x8000 {
        bits as i16
    } else {
        (bits - 0x1_0000) as i16
    }
}

/// A sample survives being written and read back.
pub proof fn le16_reads_back(x: i16)
    ensures
        le16(x).len() == 2,
        from_le16(le16(x)) == x,
{
}

/// Appends the two bytes of `x`, least significant first.
pub(crate) fn push_le16(out: &mut Vec<u8>, x: i16)
    ensures
        final(out)@ == old(out)@ + le16(x),
{
    let bits: u32 = if x >= 0 {
        x as u32
    } else {
        (x as i32 + 0x1_0000) as u32
    };
    out.push((bits % 0x100) as u8);
    out.push((bits / 0x100) as u8);
    assert(out@ =~= old(out)@ + le16(x));
}

/// The bytes of a word are its bits, eight at a time, the highest first.
pub proof fn be32_starts_with_the_highest_bits(x: u32)
    ensures
        be32(x).len() == 4,
        be32(x)[0] == x >> 24,
        be32(x)[1] == (x >> 16) & 0xff,
        be32(x)[2] == (x >> 8) & 0xff,
        be32(x)[3] == x & 0xff,
{
    assert(x / 0x100_0000 == x >> 24 && x / 0x100_0000 < 0x100) by (bit_vector);
    assert(x / 0x1_0000 % 0x100 == (x >> 16) & 0xff) by (bit_vector);
    assert(x / 0x100 % 0x100 == (x >> 8) & 0xff) by (bit_vector);
    assert(x % 0x100 == x & 0xff) by (bit_vector);
}

/// The first of four bytes counts for the most.
pub proof fn first_byte_counts_most(s: Seq<u8>, at: int)
    ensures
        word_at(s, at) == 0x100_0000 * s[at] + 0x1_0000 * s[at + 1] + 0x100 * s[at + 2] + s[at + 3],
{
    reveal(word_at);
}

/// The two's complement pattern of a number is the number modulo 2^32.
pub proof fn twos32_is_the_residue(x: i32)
    ensures
        twos32(x) as int == (x as int) % 0x1_0000_0000,
{
}

/// The bytes of a sample spell it modulo 2^16, the lower one first.
pub proof fn le16_starts_with_the_lower_byte(x: i16)
    ensures
        le16(x).len() == 2,
        le16(x)[0] + 0x100 * le16(x)[1] == (x as int) % 0x1_0000,
{
}

} // verus!
