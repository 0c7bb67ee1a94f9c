//! The header byte that leads every packet: two bits of kind above six bits
//! of payload length.
use crate::error::Error;
use vstd::prelude::*;

verus! {

/// The longest payload that the six-bit length field can announce.
pub const MAX_PAYLOAD: usize = 63;

/// What a packet is within its run.
#[derive(Clone, Copy, Debug, PartialEq, Eq, Structural)]
pub enum PacketType {
    /// Inner packet of a command message: more packets follow.
    Inner,
    /// Final packet of a command message.
    Final,
    /// Serial stdout.
    StdOut,
    /// Serial stderr.
    Stderr,
}

impl PacketType {
    /// The two-bit number that stands for this kind on the wire.
    pub open spec fn bits(self) -> u8 {
        match self {
            PacketType::Inner => 0,
            PacketType::Final => 1,
            PacketType::StdOut => 2,
            PacketType::Stderr => 3,
        }
    }

    /// The kind that `val` stands for, if any.
    pub open spec fn from_bits(val: u8) -> Result<PacketType, Error> {
        if val == 0 {
            Ok(PacketType::Inner)
        } else if val == 1 {
            Ok(PacketType::Final)
        } else if val == 2 {
            Ok(PacketType::StdOut)
        } else if val == 3 {
            Ok(PacketType::Stderr)
        } else {
            Err(Error::Parse)
        }
    }

    /// The two-bit number that stands for this kind on the wire.
    pub fn to_bits(self) -> (b: u8)
        ensures
            b == self.bits(),
            b < 4,
    {
        match self {
            PacketType::Inner => 0,
            PacketType::Final => 1,
            PacketType::StdOut => 2,
            PacketType::Stderr => 3,
        }
    }
}

impl TryFrom<u8> for PacketType {
    type Error = Error;

    /// Decodes a kind from its number; numbers from 4 up stand for no kind.
    fn try_from(val: u8) -> (r: Result<PacketType, Error>)
        ensures
            r == PacketType::from_bits(val),
            val >= 4 <==> r == Err::<PacketType, Error>(Error::Parse),
            val < 4 <==> r.is_ok(),
            r.is_ok() ==> r.unwrap().bits() == val,
    {
        match val {
            0 => Ok(PacketType::Inner),
            1 => Ok(PacketType::Final),
            2 => Ok(PacketType::StdOut),
            3 => Ok(PacketType::Stderr),
            _ => Err(Error::Parse),
        }
    }
}

impl vstd::std_specs::convert::TryFromSpecImpl<u8> for PacketType {
    open spec fn obeys_try_from_spec() -> bool {
        true
    }

    open spec fn try_from_spec(val: u8) -> Result<PacketType, Error> {
        PacketType::from_bits(val)
    }
}

/// The header byte of a packet of the given kind and payload length:
/// the kind in the two high bits, the length in the six low bits.
pub open spec fn header_byte(kind: PacketType, length: u8) -> u8
    recommends
        length <= 63,
{
    (kind.bits() << 6) | length
}

/// What a header byte announces: the kind in its two high bits and the
/// payload length in its six low bits.
pub open spec fn decode_header_spec(byte: u8) -> Result<(PacketType, u8), Error> {
    match PacketType::from_bits(byte >> 6) {
        Ok(kind) => Ok((kind, byte & 0x3f)),
        Err(e) => Err(e),
    }
}

/// Packs a kind and a payload length of at most 63 into a header byte.
pub fn encode_header(kind: PacketType, length: u8) -> (byte: u8)
    requires
        length <= 63,
    ensures
        byte == header_byte(kind, length),
        byte == kind.bits() * 64 + length,
{
    let k = kind.to_bits();
    assert((k << 6) | length == k * 64 + length) by (bit_vector)
        requires
            k < 4,
            length <= 63,
    ;
    (k << 6) | length
}

/// Unpacks a header byte into its kind and its payload length.
pub fn decode_header(byte: u8) -> (r: Result<(PacketType, u8), Error>)
    ensures
        r == decode_header_spec(byte),
        r.is_ok(),
        r.unwrap().1 <= 63,
        header_byte(r.unwrap().0, r.unwrap().1) == byte,
{
    proof {
        lemma_decode_then_encode(byte);
    }
    match PacketType::try_from(byte >> 6) {
        Ok(kind) => Ok((kind, byte & 0x3f)),
        Err(e) => Err(e),
    }
}

/// Every byte is the header of exactly one kind and length: decoding never
/// fails, the length it yields is at most 63, and encoding what it yields
/// gives the byte back.
pub proof fn lemma_decode_then_encode(byte: u8)
    ensures
        decode_header_spec(byte).is_ok(),
        decode_header_spec(byte).unwrap().1 <= 63,
        header_byte(decode_header_spec(byte).unwrap().0, decode_header_spec(byte).unwrap().1)
            == byte,
{
    let k = byte >> 6;
    let l = byte & 0x3f;
    assert(k < 4 && l <= 63 && (k << 6) | l == byte) by (bit_vector)
        requires
            k == byte >> 6,
            l == byte & 0x3f,
    ;
}

/// Decoding the header byte of a kind and a length of at most 63 gives that
/// kind and that length back.
pub proof fn lemma_encode_then_decode(kind: PacketType, length: u8)
    requires
        length <= 63,
    ensures
        decode_header_spec(header_byte(kind, length)) == Ok::<(PacketType, u8), Error>(
            (kind, length),
        ),
{
    let k = kind.bits();
    let b = (k << 6) | length;
    assert(b >> 6 == k && b & 0x3f == length) by (bit_vector)
        requires
            k < 4,
            length <= 63,
            b == (k << 6) | length,
    ;
}

} // verus!
