//! Inbound side: joining a run of packets into one response and decoding its
//! header.
use crate::error::Error;
use crate::packet::{decode_header, decode_header_spec, PacketType};
use crate::wire::{gread_u16, gread_u8, u16_from_bytes};
use vstd::prelude::*;
use vstd::slice::{slice_subrange, slice_to_vec};

verus! {

/// How many empty reads one receive puts up with, over the whole run.
pub const EMPTY_READ_RETRIES: u8 = 5;

/// The number of bytes of the response header: tag, status, status info.
pub const RESPONSE_HEADER_LEN: usize = 4;

/// How the device says a command went.
#[derive(Clone, Copy, Debug, PartialEq, Eq, Structural)]
pub enum CommandResponseStatus {
    /// Command understood and executed correctly.
    Success,
    /// Command not understood.
    ParseError,
    /// Command execution error.
    ExecutionError,
}

impl CommandResponseStatus {
    /// The status that `val` stands for, if any.
    pub open spec fn from_byte(val: u8) -> Result<CommandResponseStatus, Error> {
        if val == 0 {
            Ok(CommandResponseStatus::Success)
        } else if val == 1 {
            Ok(CommandResponseStatus::ParseError)
        } else if val == 2 {
            Ok(CommandResponseStatus::ExecutionError)
        } else {
            Err(Error::Parse)
        }
    }

}

impl TryFrom<u8> for CommandResponseStatus {
    type Error = Error;

    /// Decodes a status byte; bytes from 3 up stand for no status.
    fn try_from(val: u8) -> (r: Result<CommandResponseStatus, Error>)
        ensures
            r == CommandResponseStatus::from_byte(val),
            val >= 3 <==> r == Err::<CommandResponseStatus, Error>(Error::Parse),
    {
        match val {
            0 => Ok(CommandResponseStatus::Success),
            1 => Ok(CommandResponseStatus::ParseError),
            2 => Ok(CommandResponseStatus::ExecutionError),
            _ => Err(Error::Parse),
        }
    }
}

impl vstd::std_specs::convert::TryFromSpecImpl<u8> for CommandResponseStatus {
    open spec fn obeys_try_from_spec() -> bool {
        true
    }

    open spec fn try_from_spec(val: u8) -> Result<CommandResponseStatus, Error> {
        CommandResponseStatus::from_byte(val)
    }
}

/// The response to a command that answers with nothing the caller reads.
#[derive(Clone, Copy, Debug, PartialEq, Eq, Structural)]
pub struct NoResponse {}

impl NoResponse {
    /// Decodes nothing from `this`, whatever the byte order: always
    /// succeeds, and uses up no byte.
    pub fn try_from_ctx(this: &[u8], little: bool) -> (r: Result<(NoResponse, usize), Error>)
        ensures
            r == Ok::<(NoResponse, usize), Error>((NoResponse {  }, 0)),
    {
        Ok((NoResponse {  }, 0))
    }
}

/// One decoded response. `data` is not interpreted in any way.
#[derive(Clone, Debug, PartialEq, Eq)]
pub struct CommandResponse {
    /// Arbitrary number set by the host with the command; the response
    /// repeats it.
    pub tag: u16,
    /// How the command went.
    pub status: CommandResponseStatus,
    /// Additional information in case of a status other than success.
    pub status_info: u8,
    /// The bytes after the header, as they came.
    pub data: Vec<u8>,
}

/// A response as a mathematical value.
pub struct ResponseView {
    pub tag: u16,
    pub status: CommandResponseStatus,
    pub status_info: u8,
    pub data: Seq<u8>,
}

impl View for CommandResponse {
    type V = ResponseView;

    open spec fn view(&self) -> ResponseView {
        ResponseView {
            tag: self.tag,
            status: self.status,
            status_info: self.status_info,
            data: self.data@,
        }
    }
}

/// The response that the bytes `buf` spell: the tag in the first two, in the
/// byte order that `little` chooses, then the status, then the status info,
/// then the data. Fewer than four bytes, or a status byte from 3 up, spell
/// none. On the wire the tag is little-endian.
pub open spec fn parse_response(buf: Seq<u8>, little: bool) -> Result<ResponseView, Error> {
    if buf.len() < 4 {
        Err(Error::Parse)
    } else {
        match CommandResponseStatus::from_byte(buf[2]) {
            Err(e) => Err(e),
            Ok(status) => Ok(
                ResponseView {
                    tag: u16_from_bytes(buf.subrange(0, 2), little),
                    status,
                    status_info: buf[3],
                    data: buf.subrange(4, buf.len() as int),
                },
            ),
        }
    }
}

/// The outcome of a decode, with the response as a mathematical value.
pub open spec fn outcome_view(r: Result<CommandResponse, Error>) -> Result<ResponseView, Error> {
    match r {
        Ok(resp) => Ok(resp@),
        Err(e) => Err(e),
    }
}

impl CommandResponse {
    /// Decodes a response from `this`, with the tag in the byte order that
    /// `little` chooses, and says how many bytes its header took.
    pub fn try_from_ctx(this: &[u8], little: bool) -> (r: Result<(CommandResponse, usize), Error>)
        ensures
            match r {
                Ok((resp, used)) => parse_response(this@, little) == Ok::<ResponseView, Error>(
                    resp@,
                ) && used == 4,
                Err(e) => parse_response(this@, little) == Err::<ResponseView, Error>(e),
            },
            this@.len() < 4 ==> r.is_err(),
    {
        if this.len() < RESPONSE_HEADER_LEN {
            return Err(Error::Parse);
        }
        let mut offset: usize = 0;
        let tag = match gread_u16(this, &mut offset, little) {
            Ok(v) => v,
            Err(e) => {
                return Err(Error::from(e));
            },
        };
        let status = match gread_u8(this, &mut offset) {
            Ok(v) => v,
            Err(e) => {
                return Err(Error::from(e));
            },
        };
        let status = match CommandResponseStatus::try_from(status) {
            Ok(s) => s,
            Err(e) => {
                return Err(e);
            },
        };
        let status_info = match gread_u8(this, &mut offset) {
            Ok(v) => v,
            Err(e) => {
                return Err(Error::from(e));
            },
        };
        let data = slice_to_vec(slice_subrange(this, offset, this.len()));
        Ok((CommandResponse { tag, status, status_info, data }, offset))
    }

    /// Decodes a response from `value` as it comes off the wire, with a
    /// little-endian tag.
    pub fn try_from(value: &[u8]) -> (r: Result<CommandResponse, Error>)
        ensures
            outcome_view(r) == parse_response(value@, true),
            value@.len() < 4 ==> r.is_err(),
    {
        match CommandResponse::try_from_ctx(value, true) {
            Ok((resp, _)) => Ok(resp),
            Err(e) => Err(e),
        }
    }
}

/// The state of one receive as a mathematical value: the payload bytes
/// gathered so far and the empty reads still put up with.
pub struct ReassemblyView {
    pub buffer: Seq<u8>,
    pub retries: nat,
}

impl ReassemblyView {
    /// The state in which a receive starts.
    pub open spec fn start() -> ReassemblyView {
        ReassemblyView { buffer: Seq::empty(), retries: 5 }
    }
}

/// What one read does to a receive.
///
/// An empty read costs one retry, and fails once none is left. Any other
/// read is a packet: its header byte announces a kind and a length; the
/// length must stay below the number of bytes read; that many bytes after the
/// header join the buffer, and whatever follows them is dropped. The flag
/// says whether the run is over, which it is after any kind but `Inner`.
pub open spec fn accept_spec(st: ReassemblyView, report: Seq<u8>) -> Result<
    (ReassemblyView, bool),
    Error,
> {
    if report.len() == 0 {
        if st.retries == 0 {
            Err(Error::Parse)
        } else {
            Ok((ReassemblyView { buffer: st.buffer, retries: (st.retries - 1) as nat }, false))
        }
    } else {
        match decode_header_spec(report[0]) {
            Err(e) => Err(e),
            Ok((kind, len)) => if len as int >= report.len() {
                Err(Error::Parse)
            } else {
                Ok(
                    (
                        ReassemblyView {
                            buffer: st.buffer + report.subrange(1, 1 + len as int),
                            retries: st.retries,
                        },
                        kind != PacketType::Inner,
                    ),
                )
            },
        }
    }
}

/// The payload bytes that a receive gathers from the reads `reads`, taken in
/// order from the state `st`, up to and including the first packet that ends
/// the run. Reads after that packet are not looked at. A transport with
/// nothing more to deliver answers with empty reads for ever, so a run that
/// is still open when `reads` ends fails as one that ran out of retries.
pub open spec fn gather(reads: Seq<Seq<u8>>, st: ReassemblyView) -> Result<Seq<u8>, Error>
    decreases reads.len(),
{
    if reads.len() == 0 {
        Err(Error::Parse)
    } else {
        match accept_spec(st, reads[0]) {
            Err(e) => Err(e),
            Ok((next, done)) => if done {
                Ok(next.buffer)
            } else {
                gather(reads.drop_first(), next)
            },
        }
    }
}

/// The response that a receive yields on the reads `reads`.
pub open spec fn rx_spec(reads: Seq<Seq<u8>>) -> Result<ResponseView, Error> {
    match gather(reads, ReassemblyView::start()) {
        Ok(buf) => parse_response(buf, true),
        Err(e) => Err(e),
    }
}

/// Empty reads at the front of `reads` cost one retry each and are otherwise
/// passed over; one more of them than there are retries left fails the
/// receive.
pub proof fn lemma_empty_reads(reads: Seq<Seq<u8>>, st: ReassemblyView, k: nat)
    requires
        k <= reads.len(),
        forall|i: int| 0 <= i < k ==> (#[trigger] reads[i]).len() == 0,
    ensures
        k <= st.retries ==> gather(reads, st) == gather(
            reads.skip(k as int),
            ReassemblyView { buffer: st.buffer, retries: (st.retries - k) as nat },
        ),
        k > st.retries ==> gather(reads, st) == Err::<Seq<u8>, Error>(Error::Parse),
    decreases k,
{
    if k == 0 {
        assert(reads.skip(0) =~= reads);
    } else if st.retries > 0 {
        let next = ReassemblyView { buffer: st.buffer, retries: (st.retries - 1) as nat };
        let rest = reads.drop_first();
        assert(reads[0].len() == 0);
        assert forall|i: int| 0 <= i < k - 1 implies (#[trigger] rest[i]).len() == 0 by {
            assert(rest[i] == reads[i + 1]);
        }
        lemma_empty_reads(rest, next, (k - 1) as nat);
        assert(rest.skip(k - 1) =~= reads.skip(k as int));
    } else {
        assert(reads[0].len() == 0);
    }
}

/// A receive that starts with six empty reads fails with `Parse`; one that
/// starts with `k` of them, `k` at most five, goes on with what follows them
/// and `5 - k` retries left.
pub proof fn lemma_retry_budget(reads: Seq<Seq<u8>>, k: nat)
    requires
        k <= reads.len(),
        forall|i: int| 0 <= i < k ==> (#[trigger] reads[i]).len() == 0,
    ensures
        k >= 6 ==> rx_spec(reads) == Err::<ResponseView, Error>(Error::Parse),
        k <= 5 ==> gather(reads, ReassemblyView::start()) == gather(
            reads.skip(k as int),
            ReassemblyView { buffer: Seq::empty(), retries: (5 - k) as nat },
        ),
{
    lemma_empty_reads(reads, ReassemblyView::start(), k);
}

/// The reads `reads` as byte sequences.
pub open spec fn reports(reads: Seq<Vec<u8>>) -> Seq<Seq<u8>> {
    Seq::new(reads.len(), |i: int| reads[i]@)
}

/// What to do after a read has been taken in.
#[derive(Clone, Copy, Debug, PartialEq, Eq, Structural)]
pub enum Next {
    /// The run is still open: read again.
    Read,
    /// The run is over: decode the response.
    Finish,
}

/// One receive in progress.
pub struct Reassembly {
    buffer: Vec<u8>,
    retries: u8,
}

impl View for Reassembly {
    type V = ReassemblyView;

    closed spec fn view(&self) -> ReassemblyView {
        ReassemblyView { buffer: self.buffer@, retries: self.retries as nat }
    }
}

impl Reassembly {
    /// A receive that has read nothing yet.
    pub fn new() -> (s: Reassembly)
        ensures
            s@ == ReassemblyView::start(),
    {
        Reassembly { buffer: Vec::new(), retries: EMPTY_READ_RETRIES }
    }

    /// Takes in the bytes of one read and says what to do next. A read that
    /// is refused leaves the receive as it was.
    pub fn accept(&mut self, report: &[u8]) -> (r: Result<Next, Error>)
        ensures
            match r {
                Ok(next) => accept_spec(old(self)@, report@) == Ok::<(ReassemblyView, bool), Error>(
                    (final(self)@, next == Next::Finish),
                ),
                Err(e) => accept_spec(old(self)@, report@) == Err::<(ReassemblyView, bool), Error>(
                    e,
                ) && e == Error::Parse && final(self)@ == old(self)@,
            },
            report@.len() > 0 && (report@[0] & 0x3f) as int >= report@.len() ==> r.is_err(),
    {
        let count = report.len();
        if count < 1 {
            if self.retries == 0 {
                return Err(Error::Parse);
            }
            self.retries = self.retries - 1;
            return Ok(Next::Read);
        }
        let (ptype, len) = match decode_header(report[0]) {
            Ok(h) => h,
            Err(e) => {
                return Err(e);
            },
        };
        let len: usize = len as usize;
        if len >= count {
            return Err(Error::Parse);
        }
        let ghost before = self.buffer@;
        let mut i: usize = 0;
        while i < len
            invariant
                i <= len < count == report@.len(),
                self.retries == old(self).retries,
                self.buffer@ == before + report@.subrange(1, 1 + i as int),
            decreases len - i,
        {
            self.buffer.push(report[i + 1]);
            proof {
                assert(report@.subrange(1, 1 + i as int).push(report@[i + 1])
                    =~= report@.subrange(1, 2 + i as int));
            }
            i += 1;
        }
        match ptype {
            PacketType::Inner => Ok(Next::Read),
            _ => Ok(Next::Finish),
        }
    }

    /// Decodes the response from the bytes gathered.
    pub fn finish(self) -> (r: Result<CommandResponse, Error>)
        ensures
            outcome_view(r) == parse_response(self@.buffer, true),
    {
        CommandResponse::try_from(self.buffer.as_slice())
    }
}

/// Receives one response from the reads `reads`, taken in order: joins the
/// payloads of the packets up to the first that ends the run, then decodes
/// the response header. `data` of the response is not interpreted in any way.
pub fn rx(reads: &[Vec<u8>]) -> (r: Result<CommandResponse, Error>)
    ensures
        outcome_view(r) == rx_spec(reports(reads@)),
{
    let mut state = Reassembly::new();
    let mut i: usize = 0;
    proof {
        assert(reports(reads@).skip(0) =~= reports(reads@));
    }
    while i < reads.len()
        invariant
            i <= reads@.len(),
            gather(reports(reads@), ReassemblyView::start()) == gather(
                reports(reads@).skip(i as int),
                state@,
            ),
        decreases reads.len() - i,
    {
        proof {
            assert(reports(reads@).skip(i as int).drop_first() =~= reports(reads@).skip(i + 1));
            assert(reports(reads@).skip(i as int)[0] == reads@[i as int]@);
        }
        match state.accept(reads[i].as_slice()) {
            Err(e) => {
                return Err(e);
            },
            Ok(next) => {
                if next == Next::Finish {
                    return state.finish();
                }
            },
        }
        i += 1;
    }
    Err(Error::Parse)
}

} // verus!
