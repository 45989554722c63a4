//! The streaming parser: a resumable state machine that rebuilds packets
//! from bytes delivered in chunks of any size.
//!
//! After a packet or an `InvalidVersion` error comes out of a call, the rest
//! of that call's bytes are dropped. After `InvalidVersion` the header bytes
//! gathered so far are dropped too, and the parser scans for a sync byte
//! again from an empty buffer.
use vstd::prelude::*;
use vstd::slice::slice_subrange;

use crate::commands::{
    packet_of, parse_command, result_view, Packet, PacketView, HEADER_SIZE, MAX_PACKET_SIZE,
    MAX_PAYLOAD_SIZE, SYNC_BYTE, VERSION,
};

verus! {

#[derive(Debug, PartialEq, Eq, Clone, Copy, Structural)]
pub enum Error {
    /// The header names a protocol version other than this one.
    InvalidVersion,
    /// No frame start has been found yet.
    NoSyncByte,
    /// A frame has started and its payload is not complete yet.
    InCompletePayload,
    /// A frame has started and its header is not complete yet.
    InCompleteHeader,
}

/// Where the parser stands in the current frame.
#[derive(Debug, PartialEq, Eq, Clone, Copy, Structural)]
pub enum Status {
    WaitingForSync,
    WaitingForHeader,
    /// The header is complete: its command byte and payload length.
    WaitingForPayload(u8, usize),
}

/// The parser's state: where it stands, and the bytes of the current frame
/// gathered so far.
pub struct ParserView {
    pub status: Status,
    pub buf: Seq<u8>,
}

/// What one call, or one byte, may bring out: a packet, an error, or nothing
/// yet.
pub type Outcome = Option<Result<PacketView, Error>>;

impl ParserView {
    /// The state before any byte has arrived.
    pub open spec fn initial() -> ParserView {
        ParserView { status: Status::WaitingForSync, buf: Seq::empty() }
    }

    /// The gathered bytes are a proper prefix of a frame that the status
    /// describes.
    pub open spec fn wf(self) -> bool {
        match self.status {
            Status::WaitingForSync => self.buf.len() == 0,
            Status::WaitingForHeader => {
                &&& 1 <= self.buf.len() < HEADER_SIZE
                &&& self.buf[0] == SYNC_BYTE
            },
            Status::WaitingForPayload(command, len) => {
                &&& HEADER_SIZE <= self.buf.len() < HEADER_SIZE + len
                &&& len <= MAX_PAYLOAD_SIZE
                &&& self.buf[0] == SYNC_BYTE
                &&& self.buf[1] == VERSION
                &&& self.buf[2] == command
                &&& self.buf[3] == len
            },
        }
    }
}

/// One byte through the state machine.
pub open spec fn step(s: ParserView, b: u8) -> (ParserView, Outcome) {
    let buf = s.buf.push(b);
    match s.status {
        Status::WaitingForSync => if b == SYNC_BYTE {
            (ParserView { status: Status::WaitingForHeader, buf }, None)
        } else {
            (ParserView::initial(), None)
        },
        Status::WaitingForHeader => if buf.len() < HEADER_SIZE {
            (ParserView { status: Status::WaitingForHeader, buf }, None)
        } else if buf[1] != VERSION {
            (ParserView::initial(), Some(Err(Error::InvalidVersion)))
        } else if buf[3] == 0 {
            (ParserView::initial(), Some(Ok(packet_of(buf[2], Seq::empty()))))
        } else {
            (ParserView { status: Status::WaitingForPayload(buf[2], buf[3] as usize), buf }, None)
        },
        Status::WaitingForPayload(command, len) => if buf.len() < HEADER_SIZE + len {
            (ParserView { status: s.status, buf }, None)
        } else {
            (
                ParserView::initial(),
                Some(Ok(packet_of(command, buf.subrange(HEADER_SIZE as int, HEADER_SIZE + len)))),
            )
        },
    }
}

/// Bytes through the state machine, one at a time, until one of them brings
/// out a packet or an error; the bytes after it are dropped.
pub open spec fn run(s: ParserView, input: Seq<u8>) -> (ParserView, Outcome)
    decreases input.len(),
{
    if input.len() == 0 {
        (s, None)
    } else {
        let (s1, out) = step(s, input[0]);
        if out is Some {
            (s1, out)
        } else {
            run(s1, input.drop_first())
        }
    }
}

/// The error that reports a frame not yet complete, by where the parser stands.
pub open spec fn pending_error(status: Status) -> Error {
    match status {
        Status::WaitingForSync => Error::NoSyncByte,
        Status::WaitingForHeader => Error::InCompleteHeader,
        Status::WaitingForPayload(_, _) => Error::InCompletePayload,
    }
}

/// What one call of `parse` returns.
pub open spec fn parse_result(s: ParserView, input: Seq<u8>) -> Result<PacketView, Error> {
    let (s1, out) = run(s, input);
    match out {
        Some(r) => r,
        None => Err(pending_error(s1.status)),
    }
}

/// An outcome with the packet seen through its view.
pub open spec fn outcome_view(r: Option<Result<Packet, Error>>) -> Outcome {
    match r {
        Some(r) => Some(result_view(r)),
        None => None,
    }
}

#[derive(Debug, Clone)]
pub struct Parser {
    status: Status,
    buffer: Vec<u8>,
}

impl View for Parser {
    type V = ParserView;

    closed spec fn view(&self) -> ParserView {
        ParserView { status: self.status, buf: self.buffer@ }
    }
}

impl Parser {
    /// The gathered bytes agree with the status.
    pub closed spec fn wf(&self) -> bool {
        self@.wf()
    }

    /// A parser waiting for a sync byte, with room for one largest frame.
    pub fn new() -> (r: Self)
        ensures
            r.wf(),
            r@ == ParserView::initial(),
    {
        let r = Parser {
            status: Status::WaitingForSync,
            buffer: Vec::with_capacity(MAX_PACKET_SIZE),
        };
        assert(r@.buf =~= Seq::<u8>::empty());
        r
    }

    /// Drops the frame in progress: the parser is as new.
    pub fn reset(&mut self)
        ensures
            final(self).wf(),
            final(self)@ == ParserView::initial(),
    {
        self.buffer.clear();
        self.status = Status::WaitingForSync;
        assert(self@.buf =~= Seq::<u8>::empty());
    }

    /// One byte through the state machine.
    fn feed_byte(&mut self, b: u8) -> (r: Option<Result<Packet, Error>>)
        requires
            old(self).wf(),
        ensures
            final(self).wf(),
            (final(self)@, outcome_view(r)) == step(old(self)@, b),
    {
        let ghost s = self@;
        self.buffer.push(b);
        assert(self.buffer@ == s.buf.push(b));
        match self.status {
            Status::WaitingForSync => {
                if b == SYNC_BYTE {
                    self.status = Status::WaitingForHeader;
                } else {
                    self.reset();
                }
                None
            },
            Status::WaitingForHeader => {
                if self.buffer.len() < HEADER_SIZE {
                    None
                } else if self.buffer[1] != VERSION {
                    self.reset();
                    Some(Err(Error::InvalidVersion))
                } else if self.buffer[3] == 0 {
                    let empty = slice_subrange(self.buffer.as_slice(), HEADER_SIZE, HEADER_SIZE);
                    let packet = parse_command(self.buffer[2], empty);
                    assert(empty@ =~= Seq::<u8>::empty());
                    self.reset();
                    Some(Ok(packet))
                } else {
                    self.status = Status::WaitingForPayload(self.buffer[2], self.buffer[3] as usize);
                    None
                }
            },
            Status::WaitingForPayload(command, len) => {
                if self.buffer.len() < HEADER_SIZE + len {
                    None
                } else {
                    let payload = slice_subrange(self.buffer.as_slice(), HEADER_SIZE, HEADER_SIZE + len);
                    let packet = parse_command(command, payload);
                    self.reset();
                    Some(Ok(packet))
                }
            },
        }
    }

    /// Feeds `buffer` to the parser, byte by byte, and returns the first
    /// packet completed or the first `InvalidVersion` met. Where neither
    /// comes, the error says how far the current frame has got, and the next
    /// call goes on from there.
    pub fn parse(&mut self, buffer: &[u8]) -> (r: Result<Packet, Error>)
        requires
            old(self).wf(),
        ensures
            final(self).wf(),
            final(self)@ == run(old(self)@, buffer@).0,
            result_view(r) == parse_result(old(self)@, buffer@),
    {
        let ghost s0 = self@;
        let mut i: usize = 0;
        assert(buffer@.subrange(0, buffer@.len() as int) =~= buffer@);
        while i < buffer.len()
            invariant
                self.wf(),
                s0 == old(self)@,
                i <= buffer@.len(),
                run(s0, buffer@) == run(self@, buffer@.subrange(i as int, buffer@.len() as int)),
            decreases buffer@.len() - i,
        {
            let ghost rest = buffer@.subrange(i as int, buffer@.len() as int);
            assert(rest[0] == buffer@[i as int]);
            assert(rest.drop_first() =~= buffer@.subrange(i + 1, buffer@.len() as int));
            let ghost before = self@;
            let out = self.feed_byte(buffer[i]);
            assert(run(before, rest) == if out is Some {
                (self@, outcome_view(out))
            } else {
                run(self@, rest.drop_first())
            });
            match out {
                Some(r) => {
                    assert(outcome_view(out) == Some(result_view(r)));
                    return r;
                },
                None => {},
            }
            i += 1;
        }
        match self.status {
            Status::WaitingForSync => Err(Error::NoSyncByte),
            Status::WaitingForHeader => Err(Error::InCompleteHeader),
            Status::WaitingForPayload(_, _) => Err(Error::InCompletePayload),
        }
    }
}

} // verus!
