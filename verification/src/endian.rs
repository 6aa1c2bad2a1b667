//! Big-endian integers, as every multi-byte field of the container stores
//! them. The conversions themselves are made by the `byteorder` crate.

use byteorder::{BigEndian, ByteOrder};
use vstd::prelude::*;

verus! {

/// The number that the first two bytes of `bytes` spell, most significant
/// byte first.
pub open spec fn be_u16(bytes: Seq<u8>) -> u16
    recommends
        bytes.len() >= 2,
{
    (bytes[0] * 0x100 + bytes[1]) as u16
}

/// The number that the first four bytes of `bytes` spell, most significant
/// byte first.
pub open spec fn be_u32(bytes: Seq<u8>) -> u32
    recommends
        bytes.len() >= 4,
{
    (bytes[0] * 0x100_0000 + bytes[1] * 0x1_0000 + bytes[2] * 0x100 + bytes[3]) as u32
}

/// The two bytes that spell `n`, most significant first.
pub open spec fn be_bytes_u16(n: u16) -> Seq<u8> {
    seq![(n / 0x100) as u8, (n % 0x100) as u8]
}

/// The four bytes that spell `n`, most significant first.
pub open spec fn be_bytes_u32(n: u32) -> Seq<u8> {
    seq![
        (n / 0x100_0000) as u8,
        (n / 0x1_0000 % 0x100) as u8,
        (n / 0x100 % 0x100) as u8,
        (n % 0x100) as u8,
    ]
}

/// `bytes` with the part that starts at `pos` replaced by `patch`.
pub open spec fn overwrite(bytes: Seq<u8>, pos: int, patch: Seq<u8>) -> Seq<u8>
    recommends
        0 <= pos,
        pos + patch.len() <= bytes.len(),
{
    bytes.subrange(0, pos) + patch + bytes.subrange(pos + patch.len(), bytes.len() as int)
}

/// Calls `byteorder::BigEndian::read_u16` on the bytes from `pos` on. That
/// function reads the first two bytes of its argument as a big-endian number
/// and panics when there are fewer than two.
#[verifier::external_body]
pub(crate) fn get_be_u16(buf: &[u8], pos: usize) -> (n: u16)
    requires
        pos + 2 <= buf@.len(),
    ensures
        n == be_u16(buf@.subrange(pos as int, pos + 2)),
{
    BigEndian::read_u16(&buf[pos..])
}

/// Calls `byteorder::BigEndian::read_u32` on the bytes from `pos` on. That
/// function reads the first four bytes of its argument as a big-endian number
/// and panics when there are fewer than four.
#[verifier::external_body]
pub(crate) fn get_be_u32(buf: &[u8], pos: usize) -> (n: u32)
    requires
        pos + 4 <= buf@.len(),
    ensures
        n == be_u32(buf@.subrange(pos as int, pos + 4)),
{
    BigEndian::read_u32(&buf[pos..])
}

/// Calls `byteorder::BigEndian::write_u16` on the bytes from `pos` on. That
/// function overwrites the first two bytes of its argument with `n` in
/// big-endian order, leaves the others alone, and panics when there are
/// fewer than two.
#[verifier::external_body]
pub(crate) fn put_be_u16(out: &mut Vec<u8>, pos: usize, n: u16)
    requires
        pos + 2 <= old(out)@.len(),
    ensures
        final(out)@ == overwrite(old(out)@, pos as int, be_bytes_u16(n)),
{
    BigEndian::write_u16(&mut out[pos..], n)
}

/// Calls `byteorder::BigEndian::write_u32` on the bytes from `pos` on. That
/// function overwrites the first four bytes of its argument with `n` in
/// big-endian order, leaves the others alone, and panics when there are
/// fewer than four.
#[verifier::external_body]
pub(crate) fn put_be_u32(out: &mut Vec<u8>, pos: usize, n: u32)
    requires
        pos + 4 <= old(out)@.len(),
    ensures
        final(out)@ == overwrite(old(out)@, pos as int, be_bytes_u32(n)),
{
    BigEndian::write_u32(&mut out[pos..], n)
}

/// Appends `n` to `out` as two big-endian bytes.
pub fn push_be_u16(out: &mut Vec<u8>, n: u16)
    ensures
        final(out)@ == old(out)@ + be_bytes_u16(n),
{
    let pos = out.len();
    out.push(0);
    out.push(0);
    put_be_u16(out, pos, n);
    assert(out@ =~= old(out)@ + be_bytes_u16(n));
}

/// Appends `n` to `out` as four big-endian bytes.
pub fn push_be_u32(out: &mut Vec<u8>, n: u32)
    ensures
        final(out)@ == old(out)@ + be_bytes_u32(n),
{
    let pos = out.len();
    out.push(0);
    out.push(0);
    out.push(0);
    out.push(0);
    put_be_u32(out, pos, n);
    assert(out@ =~= old(out)@ + be_bytes_u32(n));
}

/// Two bytes written for `n` read back as `n`, whatever follows them.
pub proof fn lemma_be_u16_round_trip(n: u16, rest: Seq<u8>)
    ensures
        be_u16(be_bytes_u16(n) + rest) == n,
        be_bytes_u16(n).len() == 2,
{
}

/// Four bytes written for `n` read back as `n`, whatever follows them.
pub proof fn lemma_be_u32_round_trip(n: u32, rest: Seq<u8>)
    ensures
        be_u32(be_bytes_u32(n) + rest) == n,
        be_bytes_u32(n).len() == 4,
{
}

} // verus!
