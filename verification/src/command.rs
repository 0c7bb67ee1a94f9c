//! Outbound side: splitting one command into report-sized packets.
use crate::error::Error;
use crate::packet::{
    decode_header_spec, encode_header, header_byte, lemma_encode_then_decode, PacketType,
    MAX_PAYLOAD,
};
use crate::wire::{gwrite_u16, gwrite_u32, le_bytes_u16, le_bytes_u32};
use vstd::arithmetic::div_mod::{lemma_basic_div, lemma_div_plus_one};
use vstd::prelude::*;

verus! {

/// The number of bytes of the command header: id, tag, two reserved bytes.
pub const COMMAND_HEADER_LEN: usize = 8;

/// The size of one report of the HID transport.
pub const REPORT_SIZE: usize = 64;

/// One command for the device. `data` is already in the byte order that the
/// device expects.
#[derive(Clone, Debug, PartialEq, Eq)]
pub struct Command {
    /// Command ID.
    pub id: u32,
    /// Arbitrary number set by the host, for example as sequence number. The
    /// response repeats the tag.
    pub tag: u16,
    /// The bytes that follow the command header.
    pub data: Vec<u8>,
}

impl Command {
    /// A command with the given id, tag and data.
    pub fn new(id: u32, tag: u16, data: Vec<u8>) -> (c: Command)
        ensures
            c.id == id,
            c.tag == tag,
            c.data == data,
    {
        Command { id, tag, data }
    }
}

/// The most payload bytes that one packet carries in a report of
/// `max_report_size` bytes: one byte goes to the header, and the length field
/// counts to 63.
pub open spec fn payload_cap(max_report_size: int) -> int {
    if max_report_size - 1 > 63 {
        63
    } else {
        max_report_size - 1
    }
}

/// The bytes of a command as the device reads them once the packets are
/// joined: id and tag, little-endian, two zero bytes, then the data.
pub open spec fn command_bytes(id: u32, tag: u16, data: Seq<u8>) -> Seq<u8> {
    le_bytes_u32(id) + le_bytes_u16(tag) + seq![0u8, 0u8] + data
}

/// One packet: the header byte for `kind` and the length of `payload`, then
/// `payload`.
pub open spec fn packet(kind: PacketType, payload: Seq<u8>) -> Seq<u8>
    recommends
        payload.len() <= 63,
{
    seq![header_byte(kind, payload.len() as u8)] + payload
}

/// The packets that carry `msg`, `cap` payload bytes at a time: while more
/// than `cap` bytes are left, an `Inner` packet with the next `cap` of them;
/// then one `Final` packet with the rest.
pub open spec fn fragments(msg: Seq<u8>, cap: int) -> Seq<Seq<u8>>
    recommends
        0 < cap <= 63,
    decreases msg.len(),
{
    if cap <= 0 || msg.len() <= cap {
        seq![packet(PacketType::Final, msg)]
    } else {
        seq![packet(PacketType::Inner, msg.take(cap))] + fragments(msg.skip(cap), cap)
    }
}

/// The packets of a command for reports of `max_report_size` bytes.
pub open spec fn serialize_spec(id: u32, tag: u16, data: Seq<u8>, max_report_size: int) -> Seq<
    Seq<u8>,
>
    recommends
        max_report_size >= 9,
{
    fragments(command_bytes(id, tag, data), payload_cap(max_report_size))
}

/// `a` divided by `b`, rounded up.
pub open spec fn ceil_div(a: int, b: int) -> int
    recommends
        0 < b,
{
    (a + b - 1) / b
}

/// How many packets carry a command with `len` bytes of data, `cap` payload
/// bytes to the packet: one if the command header and the data fit in the
/// first; else one, and as many more as it takes for the data that the first
/// has no room for.
pub open spec fn packet_count(len: int, cap: int) -> int
    recommends
        8 <= cap,
        0 <= len,
{
    if 8 + len <= cap {
        1
    } else {
        1 + ceil_div(len - (cap - 8), cap)
    }
}

/// Whether `run` is a run of packets for reports of `cap + 1` bytes: every
/// packet has a header byte whose length field counts the bytes after it, at
/// most `cap` of them; the last packet is `Final`, and every other is
/// `Inner`.
pub open spec fn well_framed(run: Seq<Seq<u8>>, cap: int) -> bool {
    &&& run.len() >= 1
    &&& forall|i: int|
        0 <= i < run.len() ==> {
            let p = #[trigger] run[i];
            &&& 1 <= p.len() <= cap + 1
            &&& decode_header_spec(p[0]) == Ok::<(PacketType, u8), Error>(
                (
                    if i == run.len() - 1 {
                        PacketType::Final
                    } else {
                        PacketType::Inner
                    },
                    (p.len() - 1) as u8,
                ),
            )
        }
}

/// The number of packets that carry `msg`: one if `msg` fits in a packet,
/// else one for its first `cap` bytes and as many as the rest takes.
pub proof fn lemma_fragment_count(msg: Seq<u8>, cap: int)
    requires
        0 < cap,
    ensures
        fragments(msg, cap).len() == if msg.len() <= cap {
            1
        } else {
            1 + ceil_div(msg.len() - cap, cap)
        },
    decreases msg.len(),
{
    if msg.len() > cap {
        let rest = msg.skip(cap);
        lemma_fragment_count(rest, cap);
        lemma_div_plus_one(rest.len() - 1, cap);
        assert(cap + (rest.len() - 1) == (msg.len() - cap) + cap - 1);
        if rest.len() <= cap {
            lemma_basic_div(rest.len() - 1, cap);
        } else {
            assert(rest.len() - 1 == (rest.len() - cap) + cap - 1);
        }
    }
}

/// The packets that carry `msg` form a run: exactly one of them is `Final`,
/// it comes last, all before it are `Inner`, and each announces its own
/// payload length and has at most `cap` payload bytes.
pub proof fn lemma_fragments_well_framed(msg: Seq<u8>, cap: int)
    requires
        0 < cap <= 63,
    ensures
        well_framed(fragments(msg, cap), cap),
    decreases msg.len(),
{
    let run = fragments(msg, cap);
    if msg.len() <= cap {
        lemma_encode_then_decode(PacketType::Final, msg.len() as u8);
    } else {
        let rest = fragments(msg.skip(cap), cap);
        lemma_fragments_well_framed(msg.skip(cap), cap);
        lemma_encode_then_decode(PacketType::Inner, cap as u8);
        assert forall|i: int| 0 <= i < run.len() implies {
            let p = #[trigger] run[i];
            &&& 1 <= p.len() <= cap + 1
            &&& decode_header_spec(p[0]) == Ok::<(PacketType, u8), Error>(
                (
                    if i == run.len() - 1 {
                        PacketType::Final
                    } else {
                        PacketType::Inner
                    },
                    (p.len() - 1) as u8,
                ),
            )
        } by {
            if i > 0 {
                assert(run[i] == rest[i - 1]);
            }
        }
    }
}

/// The packets `packets` as byte sequences.
pub open spec fn packets_view(packets: Seq<Vec<u8>>) -> Seq<Seq<u8>> {
    Seq::new(packets.len(), |i: int| packets[i]@)
}

/// The packets `packets`, each behind a report ID of zero.
pub open spec fn numbered(packets: Seq<Seq<u8>>) -> Seq<Seq<u8>> {
    Seq::new(packets.len(), |i: int| seq![0u8] + packets[i])
}

/// The first packet of a command: header byte, command header, and the first
/// `count` bytes of `data`.
fn first_packet(id: u32, tag: u16, data: &[u8], count: usize, kind: PacketType) -> (r: Result<
    Vec<u8>,
    Error,
>)
    requires
        count <= data@.len(),
        count <= 55,
    ensures
        r.is_ok(),
        r.unwrap()@ == packet(kind, command_bytes(id, tag, data@).take(8 + count)),
{
    let mut buffer: Vec<u8> = vec![0u8; 1 + COMMAND_HEADER_LEN + count];
    // header is at 0 so start at 1
    let mut offset: usize = 1;
    // command struct is 8 bytes
    if let Err(e) = gwrite_u32(&mut buffer, id, &mut offset) {
        return Err(Error::from(e));
    }
    if let Err(e) = gwrite_u16(&mut buffer, tag, &mut offset) {
        return Err(Error::from(e));
    }
    if let Err(e) = gwrite_u16(&mut buffer, 0u16, &mut offset) {
        return Err(Error::from(e));
    }
    assert(offset == 9);
    let ghost head = le_bytes_u32(id) + le_bytes_u16(tag) + seq![0u8, 0u8];
    assert(buffer@.subrange(1, 9) =~= head);
    let mut i: usize = 0;
    while i < count
        invariant
            i <= count <= data@.len(),
            count <= 55,
            offset == 9,
            buffer@.len() == 9 + count,
            buffer@.subrange(1, 9) == head,
            buffer@.subrange(9, 9 + i as int) == data@.subrange(0, i as int),
        decreases count - i,
    {
        let ghost prev = buffer@;
        buffer[i + offset] = data[i];
        proof {
            assert(buffer@.subrange(1, 9) =~= prev.subrange(1, 9));
            assert(buffer@.subrange(9, 10 + i as int) =~= prev.subrange(9, 9 + i as int).push(
                data@[i as int],
            ));
            assert(data@.subrange(0, i as int).push(data@[i as int]) =~= data@.subrange(
                0,
                i + 1,
            ));
        }
        i += 1;
    }
    let ghost filled = buffer@;
    // the payload is the command header and the data copied
    buffer[0] = encode_header(kind, (offset - 1 + count) as u8);
    proof {
        let msg = command_bytes(id, tag, data@);
        assert(msg.take(8 + count) =~= head + data@.subrange(0, count as int));
        assert(buffer@ =~= seq![buffer@[0]] + filled.subrange(1, 9) + filled.subrange(
            9,
            9 + count,
        ));
        assert(buffer@ =~= packet(kind, msg.take(8 + count)));
    }
    Ok(buffer)
}

/// One later packet of a command: header byte, then the `len` bytes of
/// `data` from `pos` on.
fn chunk_packet(data: &[u8], pos: usize, len: usize, kind: PacketType) -> (buffer: Vec<u8>)
    requires
        pos + len <= data@.len(),
        len <= 63,
    ensures
        buffer@ == packet(kind, data@.subrange(pos as int, pos + len)),
{
    let total: usize = data.len();
    let mut buffer: Vec<u8> = Vec::new();
    buffer.push(encode_header(kind, len as u8));
    let mut i: usize = 0;
    while i < len
        invariant
            i <= len <= 63,
            pos + len <= total == data@.len(),
            buffer@ == seq![header_byte(kind, len as u8)] + data@.subrange(pos as int, pos + i),
        decreases len - i,
    {
        buffer.push(data[pos + i]);
        proof {
            assert(data@.subrange(pos as int, pos + i).push(data@[pos + i]) =~= data@.subrange(
                pos as int,
                pos + i + 1,
            ));
        }
        i += 1;
    }
    buffer
}

/// Splits a command into packets for reports of `max_report_size` bytes,
/// in the order in which they are to be written.
///
/// The first packet starts with the command header and takes as much of
/// `data` as fits beside it; the rest of `data` follows in packets filled to
/// the brim, and the last packet alone is `Final`. A report too small for the
/// header byte and the command header is refused.
pub fn serialize(id: u32, tag: u16, data: &[u8], max_report_size: usize) -> (r: Result<
    Vec<Vec<u8>>,
    Error,
>)
    ensures
        match r {
            Ok(packets) => {
                &&& max_report_size >= 9
                &&& packets_view(packets@) == serialize_spec(
                    id,
                    tag,
                    data@,
                    max_report_size as int,
                )
                &&& packets@.len() == packet_count(
                    data@.len() as int,
                    payload_cap(max_report_size as int),
                )
                &&& well_framed(packets_view(packets@), payload_cap(max_report_size as int))
            },
            Err(e) => max_report_size < 9 && e == Error::Arguments,
        },
{
    if max_report_size < 1 + COMMAND_HEADER_LEN {
        return Err(Error::Arguments);
    }
    proof {
        let msg = command_bytes(id, tag, data@);
        let cap = payload_cap(max_report_size as int);
        lemma_fragment_count(msg, cap);
        lemma_fragments_well_framed(msg, cap);
    }
    let cap: usize = if max_report_size - 1 > MAX_PAYLOAD {
        MAX_PAYLOAD
    } else {
        max_report_size - 1
    };
    let room: usize = cap - COMMAND_HEADER_LEN;
    let count: usize = if data.len() > room {
        room
    } else {
        data.len()
    };
    let ghost msg = command_bytes(id, tag, data@);
    let mut packets: Vec<Vec<u8>> = Vec::new();
    if count == data.len() {
        let first = match first_packet(id, tag, data, count, PacketType::Final) {
            Ok(buffer) => buffer,
            Err(e) => {
                return Err(e);
            },
        };
        packets.push(first);
        proof {
            assert(msg.take(8 + count) =~= msg);
            assert(packets_view(packets@) =~= seq![packet(PacketType::Final, msg)]);
        }
        return Ok(packets);
    }
    let first = match first_packet(id, tag, data, count, PacketType::Inner) {
        Ok(buffer) => buffer,
        Err(e) => {
            return Err(e);
        },
    };
    packets.push(first);
    let mut pos: usize = count;
    proof {
        assert(msg.skip(cap as int) =~= data@.skip(pos as int));
        assert(packets_view(packets@) =~= seq![packet(PacketType::Inner, msg.take(cap as int))]);
    }
    // send the rest in chunks up to the cap
    while pos < data.len()
        invariant
            0 < cap <= 63,
            pos <= data@.len(),
            if pos < data@.len() {
                packets_view(packets@) + fragments(data@.skip(pos as int), cap as int)
                    == fragments(msg, cap as int)
            } else {
                packets_view(packets@) == fragments(msg, cap as int)
            },
        decreases data@.len() - pos,
    {
        let left: usize = data.len() - pos;
        let len: usize = if left > cap {
            cap
        } else {
            left
        };
        let kind = if pos + len == data.len() {
            PacketType::Final
        } else {
            PacketType::Inner
        };
        let chunk = chunk_packet(data, pos, len, kind);
        let ghost before = packets_view(packets@);
        let ghost rest = data@.skip(pos as int);
        packets.push(chunk);
        proof {
            assert(packets_view(packets@) =~= before.push(chunk@));
            assert(data@.subrange(pos as int, pos + len) =~= rest.take(len as int));
            if left > cap {
                assert(rest.skip(cap as int) =~= data@.skip(pos + len));
                assert(before.push(chunk@) + fragments(rest.skip(cap as int), cap as int)
                    =~= before + fragments(rest, cap as int));
            } else {
                assert(rest.take(len as int) =~= rest);
                assert(before.push(chunk@) =~= before + fragments(rest, cap as int));
            }
        }
        pos += len;
    }
    Ok(packets)
}

/// The reports to write for `cmd` on the HID transport, in order: its
/// packets for 64-byte reports, each behind a report ID of zero.
pub fn xmit(cmd: &Command) -> (reports: Vec<Vec<u8>>)
    ensures
        packets_view(reports@) == numbered(
            serialize_spec(cmd.id, cmd.tag, cmd.data@, 64),
        ),
{
    let packets = serialize(cmd.id, cmd.tag, cmd.data.as_slice(), REPORT_SIZE).unwrap();
    let ghost plain = packets_view(packets@);
    let mut reports: Vec<Vec<u8>> = Vec::new();
    let mut k: usize = 0;
    while k < packets.len()
        invariant
            k <= packets@.len(),
            reports@.len() == k,
            forall|j: int| 0 <= j < k ==> (#[trigger] reports@[j])@ == seq![0u8] + packets@[j]@,
        decreases packets@.len() - k,
    {
        let mut report: Vec<u8> = Vec::new();
        // Report ID
        report.push(0u8);
        let mut i: usize = 0;
        while i < packets[k].len()
            invariant
                k < packets@.len(),
                i <= packets@[k as int]@.len(),
                report@ == seq![0u8] + packets@[k as int]@.take(i as int),
            decreases packets@[k as int]@.len() - i,
        {
            report.push(packets[k][i]);
            proof {
                assert(packets@[k as int]@.take(i as int).push(packets@[k as int]@[i as int])
                    =~= packets@[k as int]@.take(i + 1));
            }
            i += 1;
        }
        proof {
            assert(packets@[k as int]@.take(i as int) =~= packets@[k as int]@);
        }
        reports.push(report);
        k += 1;
    }
    proof {
        assert(packets_view(reports@) =~= numbered(plain));
    }
    reports
}

} // verus!
