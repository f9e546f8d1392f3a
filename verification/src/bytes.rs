//! Little-endian integers on the wire.

use byteorder::ByteOrder;
use byteorder::LittleEndian;
use vstd::prelude::*;

verus! {

/// The two bytes of `n`, least significant first.
pub open spec fn le16(n: u16) -> Seq<u8> {
    seq![(n % 256) as u8, (n / 256) as u8]
}

/// The number that two bytes hold, least significant first.
pub open spec fn from_le16(s: Seq<u8>) -> int
    recommends
        s.len() == 2,
{
    s[0] as int + 256 * (s[1] as int)
}

/// `256` to the power `i`, for the byte positions of a 64-bit word.
pub open spec fn byte_weight(i: int) -> int
    recommends
        0 <= i < 8,
{
    if i <= 0 {
        1
    } else if i == 1 {
        0x100
    } else if i == 2 {
        0x1_0000
    } else if i == 3 {
        0x100_0000
    } else if i == 4 {
        0x1_0000_0000
    } else if i == 5 {
        0x100_0000_0000
    } else if i == 6 {
        0x1_0000_0000_0000
    } else {
        0x100_0000_0000_0000
    }
}

/// The eight bytes of `n`, least significant first.
pub open spec fn le64(n: u64) -> Seq<u8> {
    Seq::new(8, |i: int| ((n as int / byte_weight(i)) % 256) as u8)
}

/// The number that eight bytes hold, least significant first.
pub open spec fn from_le64(s: Seq<u8>) -> int
    recommends
        s.len() == 8,
{
    s[0] as int + 0x100 * (s[1] as int) + 0x1_0000 * (s[2] as int) + 0x100_0000 * (s[3] as int)
        + 0x1_0000_0000 * (s[4] as int) + 0x100_0000_0000 * (s[5] as int) + 0x1_0000_0000_0000 * (
    s[6] as int) + 0x100_0000_0000_0000 * (s[7] as int)
}

/// Reading back what was written gives the number again.
pub proof fn lemma_le16_round_trip(n: u16)
    ensures
        le16(n).len() == 2,
        from_le16(le16(n)) == n,
{
}

/// Writing what was read gives the bytes again.
pub proof fn lemma_le16_bytes_round_trip(s: Seq<u8>)
    requires
        s.len() == 2,
    ensures
        0 <= from_le16(s) <= u16::MAX,
        le16(from_le16(s) as u16) == s,
{
    assert(le16(from_le16(s) as u16) =~= s);
}

/// Reading back what was written gives the number again.
pub proof fn lemma_le64_round_trip(n: u64)
    ensures
        le64(n).len() == 8,
        from_le64(le64(n)) == n,
{
    assert(n == (n % 0x100) + 0x100 * ((n / 0x100) % 0x100) + 0x1_0000 * ((n / 0x1_0000) % 0x100)
        + 0x100_0000 * ((n / 0x100_0000) % 0x100) + 0x1_0000_0000 * ((n / 0x1_0000_0000) % 0x100)
        + 0x100_0000_0000 * ((n / 0x100_0000_0000) % 0x100) + 0x1_0000_0000_0000 * ((n
        / 0x1_0000_0000_0000) % 0x100) + 0x100_0000_0000_0000 * ((n / 0x100_0000_0000_0000)
        % 0x100)) by (bit_vector);
    let s = le64(n);
    assert(s[0] == (n % 0x100) as u8);
    assert(s[1] == ((n / 0x100) % 0x100) as u8);
    assert(s[2] == ((n / 0x1_0000) % 0x100) as u8);
    assert(s[3] == ((n / 0x100_0000) % 0x100) as u8);
    assert(s[4] == ((n / 0x1_0000_0000) % 0x100) as u8);
    assert(s[5] == ((n / 0x100_0000_0000) % 0x100) as u8);
    assert(s[6] == ((n / 0x1_0000_0000_0000) % 0x100) as u8);
    assert(s[7] == ((n / 0x100_0000_0000_0000) % 0x100) as u8);
}

/// Eight bytes always hold a number that fits in 64 bits, and writing it
/// gives the bytes again.
pub proof fn lemma_le64_bytes_round_trip(s: Seq<u8>)
    requires
        s.len() == 8,
    ensures
        0 <= from_le64(s) <= u64::MAX,
        le64(from_le64(s) as u64) == s,
{
    let (b0, b1, b2, b3) = (s[0], s[1], s[2], s[3]);
    let (b4, b5, b6, b7) = (s[4], s[5], s[6], s[7]);
    let v: u64 = from_le64(s) as u64;
    assert(v == b0 as u64 + 0x100 * (b1 as u64) + 0x1_0000 * (b2 as u64) + 0x100_0000 * (b3 as u64)
        + 0x1_0000_0000 * (b4 as u64) + 0x100_0000_0000 * (b5 as u64) + 0x1_0000_0000_0000 * (
    b6 as u64) + 0x100_0000_0000_0000 * (b7 as u64));
    assert((v % 0x100) == b0 && (v / 0x100) % 0x100 == b1 && (v / 0x1_0000) % 0x100 == b2 && (v
        / 0x100_0000) % 0x100 == b3 && (v / 0x1_0000_0000) % 0x100 == b4 && (v / 0x100_0000_0000)
        % 0x100 == b5 && (v / 0x1_0000_0000_0000) % 0x100 == b6 && (v / 0x100_0000_0000_0000)
        % 0x100 == b7) by (bit_vector)
        requires
            v == b0 as u64 + 0x100 * (b1 as u64) + 0x1_0000 * (b2 as u64) + 0x100_0000 * (
            b3 as u64) + 0x1_0000_0000 * (b4 as u64) + 0x100_0000_0000 * (b5 as u64)
                + 0x1_0000_0000_0000 * (b6 as u64) + 0x100_0000_0000_0000 * (b7 as u64),
    ;
    assert(le64(v) =~= s);
}

/// Calls `byteorder::LittleEndian::write_u16` on a fresh two-byte buffer.
/// Trusted: the buffer then holds the low byte of `n` followed by its high
/// byte.
#[verifier::external_body]
pub(crate) fn write_le16(n: u16) -> (out: [u8; 2])
    ensures
        out@ == le16(n),
{
    let mut out: [u8; 2] = [0; 2];
    LittleEndian::write_u16(&mut out, n);
    out
}

/// Calls `byteorder::LittleEndian::write_u64` on a fresh eight-byte
/// buffer. Trusted: byte `i` of the buffer is bits `8 i` to `8 i + 7` of
/// `n`.
#[verifier::external_body]
pub(crate) fn write_le64(n: u64) -> (out: [u8; 8])
    ensures
        out@ == le64(n),
{
    let mut out: [u8; 8] = [0; 8];
    LittleEndian::write_u64(&mut out, n);
    out
}

/// Calls `byteorder::LittleEndian::read_u16`, which panics on fewer than
/// two bytes. Trusted: the result is the number held by the first two
/// bytes, least significant first.
#[verifier::external_body]
pub(crate) fn read_le16(buf: &[u8]) -> (n: u16)
    requires
        buf@.len() >= 2,
    ensures
        n == from_le16(buf@.subrange(0, 2)),
{
    LittleEndian::read_u16(buf)
}

/// Calls `byteorder::LittleEndian::read_u64`, which panics on fewer than
/// eight bytes. Trusted: the result is the number held by the first eight
/// bytes, least significant first.
#[verifier::external_body]
pub(crate) fn read_le64(buf: &[u8]) -> (n: u64)
    requires
        buf@.len() >= 8,
    ensures
        n == from_le64(buf@.subrange(0, 8)),
{
    LittleEndian::read_u64(buf)
}

} // verus!
