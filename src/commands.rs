//! The wire format: header layout, command set, packets, and the codec
//! between packets and frames.
use vstd::prelude::*;
use vstd::slice::slice_subrange;

use crate::buffers::{
    frame_bytes, frame_from_slice, payload_as_slice, payload_bytes, payload_from_slice,
};
pub use crate::buffers::{FrameBuf, PayloadBuf};
use crate::parser::Error;

verus! {

/// Marker byte that starts every frame.
pub const SYNC_BYTE: u8 = 0xA1;

/// Protocol version this implementation speaks.
pub const VERSION: u8 = 0x01;

/// Largest payload a frame can carry: the length field is one byte.
pub const MAX_PAYLOAD_SIZE: usize = 255;

/// Size of the fixed header: sync, version, command and payload length.
pub const HEADER_SIZE: usize = 4;

/// Size of the largest frame: header plus the largest payload.
pub const MAX_PACKET_SIZE: usize = MAX_PAYLOAD_SIZE + HEADER_SIZE;

/// The closed set of commands. On the wire a command is one byte: its
/// position in this list, starting at zero.
#[derive(Debug, PartialEq, Eq, Clone, Copy, Structural)]
pub enum Command {
    Echo,
    GetParam,
    SetParam,
    GetParamList,
    Response,
    Error,
}

/// The wire byte of a command.
pub open spec fn command_byte(c: Command) -> u8 {
    match c {
        Command::Echo => 0,
        Command::GetParam => 1,
        Command::SetParam => 2,
        Command::GetParamList => 3,
        Command::Response => 4,
        Command::Error => 5,
    }
}

/// The command a wire byte stands for, if any.
pub open spec fn command_of_byte(b: u8) -> Option<Command> {
    if b == 0 {
        Some(Command::Echo)
    } else if b == 1 {
        Some(Command::GetParam)
    } else if b == 2 {
        Some(Command::SetParam)
    } else if b == 3 {
        Some(Command::GetParamList)
    } else if b == 4 {
        Some(Command::Response)
    } else if b == 5 {
        Some(Command::Error)
    } else {
        None
    }
}

impl Command {
    /// The byte that stands for this command on the wire.
    pub fn as_byte(self) -> (r: u8)
        ensures
            r == command_byte(self),
            command_of_byte(r) == Some(self),
    {
        match self {
            Command::Echo => 0,
            Command::GetParam => 1,
            Command::SetParam => 2,
            Command::GetParamList => 3,
            Command::Response => 4,
            Command::Error => 5,
        }
    }

    /// The command that a wire byte stands for, or `None` for a byte outside
    /// the command set.
    pub fn from_byte(b: u8) -> (r: Option<Command>)
        ensures
            r == command_of_byte(b),
            r matches Some(c) ==> command_byte(c) == b,
    {
        if b == 0 {
            Some(Command::Echo)
        } else if b == 1 {
            Some(Command::GetParam)
        } else if b == 2 {
            Some(Command::SetParam)
        } else if b == 3 {
            Some(Command::GetParamList)
        } else if b == 4 {
            Some(Command::Response)
        } else if b == 5 {
            Some(Command::Error)
        } else {
            None
        }
    }
}

/// The fixed four-byte header that starts a frame. On the wire its fields
/// follow each other in declaration order, one byte each, with no padding.
#[derive(Debug, PartialEq, Eq, Clone, Copy, Structural)]
pub struct Header {
    pub sync: u8,
    pub version: u8,
    pub command: Command,
    pub payload_length: u8,
}

/// The wire bytes of a header.
pub open spec fn header_bytes(h: Header) -> Seq<u8> {
    seq![h.sync, h.version, command_byte(h.command), h.payload_length]
}

/// Structured payload of a response or error record: the command it answers
/// and a message.
#[derive(Debug, PartialEq, Eq, Clone, Copy)]
pub struct ResponsePayload {
    pub command: Command,
    pub msg: [u8; 254],
}

/// One message of the protocol.
#[derive(Debug, PartialEq)]
pub enum Packet {
    /// The whole payload is the message.
    Echo(PayloadBuf),
    GetParamList,
    GetParam(PayloadBuf),
    SetParam(PayloadBuf),
    Response(PayloadBuf),
    Error(PayloadBuf),
}

/// A packet as a command and the payload bytes it carries.
pub struct PacketView {
    pub command: Command,
    pub payload: Seq<u8>,
}

impl PacketView {
    /// A packet that a frame can carry: its payload fits the one-byte length,
    /// and a command without payload carries none.
    pub open spec fn valid(self) -> bool {
        &&& self.payload.len() <= MAX_PAYLOAD_SIZE
        &&& self.command == Command::GetParamList ==> self.payload.len() == 0
    }
}

impl View for Packet {
    type V = PacketView;

    open spec fn view(&self) -> PacketView {
        match *self {
            Packet::Echo(b) => PacketView { command: Command::Echo, payload: payload_bytes(b) },
            Packet::GetParamList => PacketView {
                command: Command::GetParamList,
                payload: Seq::empty(),
            },
            Packet::GetParam(b) => PacketView { command: Command::GetParam, payload: payload_bytes(b) },
            Packet::SetParam(b) => PacketView { command: Command::SetParam, payload: payload_bytes(b) },
            Packet::Response(b) => PacketView { command: Command::Response, payload: payload_bytes(b) },
            Packet::Error(b) => PacketView { command: Command::Error, payload: payload_bytes(b) },
        }
    }
}

/// The wire bytes of a packet: its header, then its payload verbatim.
pub open spec fn frame_of(p: PacketView) -> Seq<u8> {
    seq![SYNC_BYTE, VERSION, command_byte(p.command), p.payload.len() as u8] + p.payload
}

/// Message that a packet of an unknown command decodes to: the ASCII text
/// `unknown command`.
pub open spec fn unknown_command_message() -> Seq<u8> {
    seq![117u8, 110, 107, 110, 111, 119, 110, 32, 99, 111, 109, 109, 97, 110, 100]
}

/// The packet that a well-formed frame with this command byte and payload
/// carries. A command without payload ignores the bytes; a byte outside the
/// command set gives an error packet that says so.
pub open spec fn packet_of(command: u8, payload: Seq<u8>) -> PacketView {
    match command_of_byte(command) {
        Some(Command::GetParamList) => PacketView {
            command: Command::GetParamList,
            payload: Seq::empty(),
        },
        Some(c) => PacketView { command: c, payload },
        None => PacketView { command: Command::Error, payload: unknown_command_message() },
    }
}

/// What decoding a frame gives. Bytes after the frame's payload are ignored.
pub open spec fn decode_spec(f: Seq<u8>) -> Result<PacketView, Error> {
    if f.len() < HEADER_SIZE {
        Err(Error::InCompleteHeader)
    } else if f[0] != SYNC_BYTE {
        Err(Error::NoSyncByte)
    } else if f[1] != VERSION {
        Err(Error::InvalidVersion)
    } else if f.len() < HEADER_SIZE + f[3] {
        Err(Error::InCompletePayload)
    } else {
        Ok(packet_of(f[2], f.subrange(HEADER_SIZE as int, HEADER_SIZE + f[3])))
    }
}

/// A decoding result with the packet seen through its view.
pub open spec fn result_view(r: Result<Packet, Error>) -> Result<PacketView, Error> {
    match r {
        Ok(p) => Ok(p@),
        Err(e) => Err(e),
    }
}

impl Header {
    /// The header that this implementation sends for a command and payload
    /// length.
    pub open spec fn new_spec(command: Command, payload_length: u8) -> Header {
        Header { sync: SYNC_BYTE, version: VERSION, command, payload_length }
    }

    pub fn new(command: Command, payload_length: u8) -> (r: Header)
        ensures
            r == Header::new_spec(command, payload_length),
    {
        Header { sync: SYNC_BYTE, version: VERSION, command, payload_length }
    }

    /// The header of a packet, and its payload unless the command carries none.
    pub fn from_packet(packet: Packet) -> (r: (Header, Option<PayloadBuf>))
        ensures
            packet@.payload.len() <= MAX_PAYLOAD_SIZE,
            r.0 == Header::new_spec(packet@.command, packet@.payload.len() as u8),
            r.1 is None <==> packet is GetParamList,
            r.1 matches Some(b) ==> payload_bytes(b) == packet@.payload,
    {
        match packet {
            Packet::Echo(buf) => {
                let n = payload_as_slice(&buf).len() as u8;
                (Header::new(Command::Echo, n), Some(buf))
            },
            Packet::GetParam(buf) => {
                let n = payload_as_slice(&buf).len() as u8;
                (Header::new(Command::GetParam, n), Some(buf))
            },
            Packet::SetParam(buf) => {
                let n = payload_as_slice(&buf).len() as u8;
                (Header::new(Command::SetParam, n), Some(buf))
            },
            Packet::GetParamList => (Header::new(Command::GetParamList, 0), None),
            Packet::Response(buf) => {
                let n = payload_as_slice(&buf).len() as u8;
                (Header::new(Command::Response, n), Some(buf))
            },
            Packet::Error(buf) => {
                let n = payload_as_slice(&buf).len() as u8;
                (Header::new(Command::Error, n), Some(buf))
            },
        }
    }

    /// Size a byte array needs to hold the whole frame.
    pub fn packet_size(&self) -> (r: usize)
        ensures
            r == HEADER_SIZE + self.payload_length,
    {
        HEADER_SIZE + self.payload_length as usize
    }

    /// Appends the header's wire bytes, field by field.
    pub fn serialize_into(&self, out: &mut Vec<u8>)
        ensures
            final(out)@ == old(out)@ + header_bytes(*self),
    {
        out.push(self.sync);
        out.push(self.version);
        out.push(self.command.as_byte());
        out.push(self.payload_length);
        assert(final(out)@ =~= old(out)@ + header_bytes(*self));
    }
}

/// Appends every byte of `bytes` to `out`, in order.
pub(crate) fn extend_bytes(out: &mut Vec<u8>, bytes: &[u8])
    ensures
        final(out)@ == old(out)@ + bytes@,
{
    let mut i: usize = 0;
    while i < bytes.len()
        invariant
            i <= bytes@.len(),
            out@ == old(out)@ + bytes@.subrange(0, i as int),
        decreases bytes@.len() - i,
    {
        out.push(bytes[i]);
        i += 1;
        assert(out@ =~= old(out)@ + bytes@.subrange(0, i as int));
    }
    assert(bytes@.subrange(0, i as int) =~= bytes@);
}

impl Packet {
    /// The frame of this packet, in a fixed-capacity buffer.
    pub fn serialize(self) -> (r: FrameBuf)
        ensures
            self@.valid(),
            frame_bytes(r) == frame_of(self@),
    {
        let v = self.serialize_vec();
        match frame_from_slice(v.as_slice()) {
            Ok(f) => f,
            Err(_) => unreached(),
        }
    }

    /// The frame of this packet: header fields in wire order, then the payload.
    pub fn serialize_vec(self) -> (r: Vec<u8>)
        ensures
            self@.valid(),
            r@ == frame_of(self@),
    {
        let ghost view = self@;
        let (header, payload) = Header::from_packet(self);
        let mut out: Vec<u8> = Vec::with_capacity(MAX_PACKET_SIZE);
        header.serialize_into(&mut out);
        match payload {
            Some(buf) => extend_bytes(&mut out, payload_as_slice(&buf)),
            None => {},
        }
        assert(out@ =~= frame_of(view));
        out
    }
}

/// A payload that holds the unknown-command message.
pub(crate) fn unknown_command_payload() -> (r: PayloadBuf)
    ensures
        payload_bytes(r) == unknown_command_message(),
{
    let msg: [u8; 15] = [117, 110, 107, 110, 111, 119, 110, 32, 99, 111, 109, 109, 97, 110, 100];
    assert(msg@ =~= unknown_command_message());
    match payload_from_slice(&msg) {
        Ok(b) => b,
        Err(_) => unreached(),
    }
}

/// The packet that a well-formed frame with this command byte carries, built
/// from the frame's payload bytes.
pub fn parse_command(command: u8, payload: &[u8]) -> (r: Packet)
    requires
        payload@.len() <= MAX_PAYLOAD_SIZE,
    ensures
        r@ == packet_of(command, payload@),
{
    match Command::from_byte(command) {
        Some(Command::GetParamList) => Packet::GetParamList,
        Some(c) => {
            let buf = match payload_from_slice(payload) {
                Ok(b) => b,
                Err(_) => unreached(),
            };
            match c {
                Command::Echo => Packet::Echo(buf),
                Command::GetParam => Packet::GetParam(buf),
                Command::SetParam => Packet::SetParam(buf),
                Command::Response => Packet::Response(buf),
                _ => Packet::Error(buf),
            }
        },
        None => Packet::Error(unknown_command_payload()),
    }
}

/// Decodes one frame that starts at the first byte of `frame`. Bytes after
/// the frame's payload are ignored.
pub fn decode(frame: &[u8]) -> (r: Result<Packet, Error>)
    ensures
        result_view(r) == decode_spec(frame@),
{
    if frame.len() < HEADER_SIZE {
        Err(Error::InCompleteHeader)
    } else if frame[0] != SYNC_BYTE {
        Err(Error::NoSyncByte)
    } else if frame[1] != VERSION {
        Err(Error::InvalidVersion)
    } else if frame.len() < HEADER_SIZE + frame[3] as usize {
        Err(Error::InCompletePayload)
    } else {
        let end = HEADER_SIZE + frame[3] as usize;
        let payload = slice_subrange(frame, HEADER_SIZE, end);
        Ok(parse_command(frame[2], payload))
    }
}

/// Decoding the frame of a packet gives back that packet.
pub proof fn lemma_decode_encode(p: PacketView)
    requires
        p.valid(),
    ensures
        decode_spec(frame_of(p)) == Ok::<PacketView, Error>(p),
{
    let f = frame_of(p);
    assert(f[3] == p.payload.len());
    assert(f.subrange(HEADER_SIZE as int, HEADER_SIZE + f[3]) =~= p.payload);
    if p.command == Command::GetParamList {
        assert(p.payload =~= Seq::<u8>::empty());
    }
}

} // verus!
