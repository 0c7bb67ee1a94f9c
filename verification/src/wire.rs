//! Little-endian integers on the wire, read and written through `scroll`.
use scroll::Error as ScrollError;
use scroll::{Pread, Pwrite};
use vstd::prelude::*;

verus! {

#[verifier::external_type_specification]
#[verifier::external_body]
pub struct ExScrollError(ScrollError);

#[verifier::external_type_specification]
#[verifier::external_body]
pub struct ExUtf8Error(std::str::Utf8Error);

#[verifier::external_type_specification]
#[verifier::external_body]
pub struct ExIoError(std::io::Error);

/// The two bytes of `v`, low byte first.
pub open spec fn le_bytes_u16(v: u16) -> Seq<u8> {
    seq![(v % 256) as u8, (v / 256) as u8]
}

/// The four bytes of `v`, low byte first.
pub open spec fn le_bytes_u32(v: u32) -> Seq<u8> {
    seq![(v % 256) as u8, (v / 256 % 256) as u8, (v / 65536 % 256) as u8, (v / 16777216) as u8]
}

/// The number whose low byte is `b[0]` and whose high byte is `b[1]`.
pub open spec fn u16_from_le(b: Seq<u8>) -> u16
    recommends
        b.len() == 2,
{
    (b[0] as int + 256 * (b[1] as int)) as u16
}

/// The number whose high byte is `b[0]` and whose low byte is `b[1]`.
pub open spec fn u16_from_be(b: Seq<u8>) -> u16
    recommends
        b.len() == 2,
{
    (256 * (b[0] as int) + b[1] as int) as u16
}

/// The number that the two bytes of `b` spell in the given byte order.
pub open spec fn u16_from_bytes(b: Seq<u8>, little: bool) -> u16
    recommends
        b.len() == 2,
{
    if little {
        u16_from_le(b)
    } else {
        u16_from_be(b)
    }
}

/// The number that the four bytes of `b` spell, low byte first.
pub open spec fn u32_from_le(b: Seq<u8>) -> u32
    recommends
        b.len() == 4,
{
    (b[0] as int + 256 * (b[1] as int) + 65536 * (b[2] as int) + 16777216 * (b[3] as int)) as u32
}

/// `buf` with the bytes from `at` on replaced by `bytes`.
pub open spec fn overwrite(buf: Seq<u8>, at: int, bytes: Seq<u8>) -> Seq<u8>
    recommends
        0 <= at,
        at + bytes.len() <= buf.len(),
{
    buf.subrange(0, at) + bytes + buf.subrange(at + bytes.len(), buf.len() as int)
}

/// Reading back what was written gives the number that was written.
pub proof fn lemma_le_round_trip_u16(v: u16)
    ensures
        le_bytes_u16(v).len() == 2,
        u16_from_le(le_bytes_u16(v)) == v,
{
}

/// Reading back what was written gives the number that was written.
pub proof fn lemma_le_round_trip_u32(v: u32)
    ensures
        le_bytes_u32(v).len() == 4,
        u32_from_le(le_bytes_u32(v)) == v,
{
}

/// `scroll`'s `gread_with::<u8>` on a byte slice.
///
/// Trusted: the call succeeds exactly when one byte is left at `offset`; it
/// then returns that byte and moves `offset` past it. On failure `offset`
/// stays where it was.
#[verifier::external_body]
pub(crate) fn gread_u8(bytes: &[u8], offset: &mut usize) -> (r: Result<u8, ScrollError>)
    ensures
        match r {
            Ok(v) => *old(offset) + 1 <= bytes@.len() && *final(offset) == *old(offset) + 1 && v
                == bytes@[*old(offset) as int],
            Err(_) => *old(offset) + 1 > bytes@.len() && *final(offset) == *old(offset),
        },
{
    bytes.gread_with::<u8>(offset, scroll::LE)
}

/// `scroll`'s `gread_with::<u16>` on a byte slice, in the byte order that
/// `little` chooses.
///
/// Trusted: the call succeeds exactly when two bytes are left at `offset`; it
/// then returns the number they spell in that byte order, whatever the
/// machine's own, and moves `offset` past them. On failure `offset` stays
/// where it was.
#[verifier::external_body]
pub(crate) fn gread_u16(bytes: &[u8], offset: &mut usize, little: bool) -> (r: Result<
    u16,
    ScrollError,
>)
    ensures
        match r {
            Ok(v) => *old(offset) + 2 <= bytes@.len() && *final(offset) == *old(offset) + 2 && v
                == u16_from_bytes(
                bytes@.subrange(*old(offset) as int, *old(offset) + 2),
                little,
            ),
            Err(_) => *old(offset) + 2 > bytes@.len() && *final(offset) == *old(offset),
        },
{
    bytes.gread_with::<u16>(offset, scroll::Endian::from(little))
}

/// `scroll`'s `gwrite_with` for a `u16` on a byte buffer, little-endian.
///
/// Trusted: the call succeeds exactly when two bytes are left at `offset`; it
/// then overwrites them with the bytes of `v`, low byte first, leaves the
/// rest of the buffer alone, returns 2 and moves `offset` past them. On
/// failure nothing changes.
#[verifier::external_body]
pub(crate) fn gwrite_u16(buf: &mut Vec<u8>, v: u16, offset: &mut usize) -> (r: Result<
    usize,
    ScrollError,
>)
    ensures
        match r {
            Ok(n) => n == 2 && *old(offset) + 2 <= old(buf)@.len() && *final(offset) == *old(
                offset,
            ) + 2 && final(buf)@ == overwrite(old(buf)@, *old(offset) as int, le_bytes_u16(v)),
            Err(_) => *old(offset) + 2 > old(buf)@.len() && *final(offset) == *old(offset)
                && final(buf)@ == old(buf)@,
        },
{
    buf.gwrite_with(v, offset, scroll::LE)
}

/// `scroll`'s `gwrite_with` for a `u32` on a byte buffer, little-endian.
///
/// Trusted: the call succeeds exactly when four bytes are left at `offset`;
/// it then overwrites them with the bytes of `v`, low byte first, leaves the
/// rest of the buffer alone, returns 4 and moves `offset` past them. On
/// failure nothing changes.
#[verifier::external_body]
pub(crate) fn gwrite_u32(buf: &mut Vec<u8>, v: u32, offset: &mut usize) -> (r: Result<
    usize,
    ScrollError,
>)
    ensures
        match r {
            Ok(n) => n == 4 && *old(offset) + 4 <= old(buf)@.len() && *final(offset) == *old(
                offset,
            ) + 4 && final(buf)@ == overwrite(old(buf)@, *old(offset) as int, le_bytes_u32(v)),
            Err(_) => *old(offset) + 4 > old(buf)@.len() && *final(offset) == *old(offset)
                && final(buf)@ == old(buf)@,
        },
{
    buf.gwrite_with(v, offset, scroll::LE)
}

} // verus!
