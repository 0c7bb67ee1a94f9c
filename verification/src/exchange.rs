//! What holds of the two sides together: the packets of a command, joined as
//! a receive joins them, spell the command again.
use crate::command::{command_bytes, fragments, packet, payload_cap, serialize_spec};
use crate::error::Error;
use crate::packet::{lemma_encode_then_decode, PacketType};
use crate::response::{
    accept_spec, gather, lemma_empty_reads, parse_response, rx_spec, ReassemblyView,
};
use crate::wire::{
    le_bytes_u16, le_bytes_u32, lemma_le_round_trip_u16, lemma_le_round_trip_u32, u16_from_le,
    u32_from_le,
};
use vstd::prelude::*;

verus! {

/// The command id that the joined bytes `msg` spell.
pub open spec fn command_id(msg: Seq<u8>) -> u32
    recommends
        msg.len() >= 8,
{
    u32_from_le(msg.subrange(0, 4))
}

/// The tag that the joined bytes `msg` spell.
pub open spec fn command_tag(msg: Seq<u8>) -> u16
    recommends
        msg.len() >= 8,
{
    u16_from_le(msg.subrange(4, 6))
}

/// The data that the joined bytes `msg` carry behind the command header.
pub open spec fn command_data(msg: Seq<u8>) -> Seq<u8>
    recommends
        msg.len() >= 8,
{
    msg.skip(8)
}

/// Joining the packets that carry `msg` appends `msg` to what was gathered
/// before, whatever the retries left.
pub proof fn lemma_gather_fragments(msg: Seq<u8>, cap: int, st: ReassemblyView)
    requires
        0 < cap <= 63,
    ensures
        gather(fragments(msg, cap), st) == Ok::<Seq<u8>, Error>(st.buffer + msg),
    decreases msg.len(),
{
    let run = fragments(msg, cap);
    if msg.len() <= cap {
        let p = packet(PacketType::Final, msg);
        lemma_encode_then_decode(PacketType::Final, msg.len() as u8);
        assert(run[0] == p);
        assert(p.subrange(1, 1 + msg.len() as int) =~= msg);
    } else {
        let head = msg.take(cap);
        let rest = msg.skip(cap);
        let p = packet(PacketType::Inner, head);
        lemma_encode_then_decode(PacketType::Inner, cap as u8);
        assert(run[0] == p);
        assert(p.subrange(1, 1 + cap) =~= head);
        assert(run.drop_first() =~= fragments(rest, cap));
        let next = ReassemblyView { buffer: st.buffer + head, retries: st.retries };
        assert(accept_spec(st, p) == Ok::<(ReassemblyView, bool), Error>((next, false)));
        lemma_gather_fragments(rest, cap, next);
        assert(st.buffer + head + rest =~= st.buffer + msg);
    }
}

/// A run of packets that carries the bytes `buf` is received as the response
/// that `buf` spells, however the bytes were split over the packets.
pub proof fn lemma_rx_of_fragments(buf: Seq<u8>, cap: int)
    requires
        0 < cap <= 63,
    ensures
        rx_spec(fragments(buf, cap)) == parse_response(buf, true),
{
    lemma_gather_fragments(buf, cap, ReassemblyView::start());
    assert(Seq::<u8>::empty() + buf =~= buf);
}

/// Up to five empty reads before a run do no harm: the run behind them is
/// still joined to the bytes that it carries.
pub proof fn lemma_gather_after_empty_reads(msg: Seq<u8>, cap: int, k: nat)
    requires
        0 < cap <= 63,
        k <= 5,
    ensures
        gather(
            Seq::new(k, |i: int| Seq::<u8>::empty()) + fragments(msg, cap),
            ReassemblyView::start(),
        ) == Ok::<Seq<u8>, Error>(msg),
{
    let reads = Seq::new(k, |i: int| Seq::<u8>::empty()) + fragments(msg, cap);
    lemma_empty_reads(reads, ReassemblyView::start(), k);
    assert(reads.skip(k as int) =~= fragments(msg, cap));
    let st = ReassemblyView { buffer: Seq::empty(), retries: (5 - k) as nat };
    lemma_gather_fragments(msg, cap, st);
    assert(Seq::<u8>::empty() + msg =~= msg);
}

/// A command survives the trip: for reports of any size that `serialize`
/// accepts, joining the payloads of its packets in order gives the command's
/// bytes, and these spell the id, the tag and the data that went in.
pub proof fn lemma_round_trip(id: u32, tag: u16, data: Seq<u8>, max_report_size: int)
    requires
        max_report_size >= 9,
    ensures
        gather(serialize_spec(id, tag, data, max_report_size), ReassemblyView::start()) == Ok::<
            Seq<u8>,
            Error,
        >(command_bytes(id, tag, data)),
        command_id(command_bytes(id, tag, data)) == id,
        command_tag(command_bytes(id, tag, data)) == tag,
        command_data(command_bytes(id, tag, data)) == data,
{
    let msg = command_bytes(id, tag, data);
    lemma_gather_fragments(msg, payload_cap(max_report_size), ReassemblyView::start());
    assert(Seq::<u8>::empty() + msg =~= msg);
    lemma_le_round_trip_u32(id);
    lemma_le_round_trip_u16(tag);
    assert(msg.subrange(0, 4) =~= le_bytes_u32(id));
    assert(msg.subrange(4, 6) =~= le_bytes_u16(tag));
    assert(msg.skip(8) =~= data);
}

} // verus!
