//! The device's side of the link: its answer to each packet it receives
//! (echoes come back, the firmware version can be asked for, anything else
//! gets an error packet with a readable message), and the pass that drains
//! received bytes from the queue through the parser into answers.
use vstd::prelude::*;

use crate::buffers::{frame_bytes, payload_as_slice, payload_from_slice};
use crate::commands::{
    extend_bytes, frame_of, unknown_command_message, unknown_command_payload, Command,
    FrameBuf, Packet, PacketView, MAX_PAYLOAD_SIZE,
};
use crate::fifo::{lemma_room_accounting, Fifo};
use crate::parser::{run, step, Error, Parser, ParserView};

verus! {

/// The name of the one parameter that can be asked for: the ASCII text
/// `VERSION`.
pub open spec fn version_param() -> Seq<u8> {
    seq![86u8, 69, 82, 83, 73, 79, 78]
}

/// Message of the answer to a parameter nobody knows: the ASCII text
/// `unknown param`.
pub open spec fn unknown_param_message() -> Seq<u8> {
    seq![117u8, 110, 107, 110, 111, 119, 110, 32, 112, 97, 114, 97, 109]
}

/// The packet that answers `p` on a device whose firmware version is
/// `firmware`.
pub open spec fn response_to(p: PacketView, firmware: Seq<u8>) -> PacketView {
    match p.command {
        Command::Echo => p,
        Command::GetParam => if p.payload == version_param() {
            PacketView { command: Command::Response, payload: firmware }
        } else {
            PacketView { command: Command::Error, payload: unknown_param_message() }
        },
        _ => PacketView { command: Command::Error, payload: unknown_command_message() },
    }
}

/// Whether two byte strings are equal.
fn bytes_eq(a: &[u8], b: &[u8]) -> (r: bool)
    ensures
        r == (a@ == b@),
{
    if a.len() != b.len() {
        return false;
    }
    let mut i: usize = 0;
    while i < a.len()
        invariant
            a@.len() == b@.len(),
            i <= a@.len(),
            a@.subrange(0, i as int) == b@.subrange(0, i as int),
        decreases a@.len() - i,
    {
        if a[i] != b[i] {
            assert(a@[i as int] != b@[i as int]);
            return false;
        }
        assert(a@.subrange(0, i + 1) =~= b@.subrange(0, i + 1));
        i += 1;
    }
    assert(a@ =~= a@.subrange(0, i as int));
    assert(b@ =~= b@.subrange(0, i as int));
    true
}

/// The packet that answers `packet`, for a device whose firmware version is
/// `firmware_version`.
pub fn response_packet(packet: Packet, firmware_version: &[u8]) -> (r: Packet)
    requires
        firmware_version@.len() <= MAX_PAYLOAD_SIZE,
    ensures
        r@ == response_to(packet@, firmware_version@),
{
    match packet {
        Packet::Echo(buf) => Packet::Echo(buf),
        Packet::GetParam(param) => {
            let name: [u8; 7] = [86, 69, 82, 83, 73, 79, 78];
            assert(name@ =~= version_param());
            if bytes_eq(payload_as_slice(&param), &name) {
                match payload_from_slice(firmware_version) {
                    Ok(v) => Packet::Response(v),
                    Err(_) => unreached(),
                }
            } else {
                let msg: [u8; 13] = [117, 110, 107, 110, 111, 119, 110, 32, 112, 97, 114, 97, 109];
                assert(msg@ =~= unknown_param_message());
                match payload_from_slice(&msg) {
                    Ok(m) => Packet::Error(m),
                    Err(_) => unreached(),
                }
            }
        },
        _ => Packet::Error(unknown_command_payload()),
    }
}

/// The encoded answer to `packet`, for a device whose firmware version is
/// `firmware_version`.
pub fn handle_packet(packet: Packet, firmware_version: &[u8]) -> (r: FrameBuf)
    requires
        firmware_version@.len() <= MAX_PAYLOAD_SIZE,
    ensures
        frame_bytes(r) == frame_of(response_to(packet@, firmware_version@)),
{
    response_packet(packet, firmware_version).serialize()
}

/// Bytes handed to the parser one at a time from state `s`: the state they
/// leave, the encoded answers to the packets that come out, in order, and
/// how many headers named a foreign protocol version.
pub open spec fn serve(s: ParserView, input: Seq<u8>, firmware: Seq<u8>) -> (ParserView, Seq<u8>, nat)
    decreases input.len(),
{
    if input.len() == 0 {
        (s, Seq::empty(), 0)
    } else {
        let (s1, out) = step(s, input[0]);
        let (s2, answers, foreign) = serve(s1, input.drop_first(), firmware);
        match out {
            Some(Ok(p)) => (s2, frame_of(response_to(p, firmware)) + answers, foreign),
            Some(Err(_)) => (s2, answers, foreign + 1),
            None => (s2, answers, foreign),
        }
    }
}

/// What one pass over the received bytes produced.
pub struct Served {
    /// The encoded answers, one after the other, ready for the transport.
    pub answers: Vec<u8>,
    /// How many headers named a protocol version other than this one.
    pub invalid_versions: usize,
}

proof fn lemma_serve_split(s: ParserView, a: Seq<u8>, b: u8, firmware: Seq<u8>)
    ensures
        ({
            let (s1, answers1, foreign1) = serve(s, a, firmware);
            let (s2, answers2, foreign2) = serve(s1, seq![b], firmware);
            serve(s, a.push(b), firmware) == (s2, answers1 + answers2, foreign1 + foreign2)
        }),
    decreases a.len(),
{
    if a.len() == 0 {
        assert(a.push(b) =~= seq![b]);
        assert(serve(s, a, firmware).1 + serve(s, seq![b], firmware).1 =~= serve(s, seq![b], firmware).1);
    } else {
        let (s1, out) = step(s, a[0]);
        assert(a.push(b).drop_first() =~= a.drop_first().push(b));
        assert(a.push(b)[0] == a[0]);
        lemma_serve_split(s1, a.drop_first(), b, firmware);
        let (t, answers1, f1) = serve(s1, a.drop_first(), firmware);
        let (t2, answers2, f2) = serve(t, seq![b], firmware);
        match out {
            Some(Ok(p)) => {
                assert(frame_of(response_to(p, firmware)) + (answers1 + answers2)
                    =~= (frame_of(response_to(p, firmware)) + answers1) + answers2);
            },
            _ => {},
        }
    }
}

/// Hands every byte held in `fifo` to `parser`, oldest first, and gathers the
/// answers to the packets that come out. The queue is left empty.
pub fn serve_pending(fifo: &mut Fifo<u8>, parser: &mut Parser, firmware_version: &[u8]) -> (r: Served)
    requires
        old(fifo).wf(),
        old(parser).wf(),
        firmware_version@.len() <= MAX_PAYLOAD_SIZE,
    ensures
        final(fifo).wf(),
        final(fifo).slots() == old(fifo).slots(),
        final(fifo)@ == Seq::<u8>::empty(),
        final(parser).wf(),
        final(parser)@ == serve(old(parser)@, old(fifo)@, firmware_version@).0,
        r.answers@ == serve(old(parser)@, old(fifo)@, firmware_version@).1,
        r.invalid_versions == serve(old(parser)@, old(fifo)@, firmware_version@).2,
{
    let ghost input = fifo@;
    let ghost s0 = parser@;
    let mut answers: Vec<u8> = Vec::new();
    let mut invalid_versions: usize = 0;
    let ghost mut done: Seq<u8> = Seq::empty();
    proof {
        lemma_room_accounting(fifo);
    }
    loop
        invariant
            input.len() < usize::MAX,
            fifo.wf(),
            fifo.slots() == old(fifo).slots(),
            parser.wf(),
            input == old(fifo)@,
            s0 == old(parser)@,
            firmware_version@.len() <= MAX_PAYLOAD_SIZE,
            input == done + fifo@,
            invalid_versions <= done.len(),
            parser@ == serve(s0, done, firmware_version@).0,
            answers@ == serve(s0, done, firmware_version@).1,
            invalid_versions == serve(s0, done, firmware_version@).2,
        ensures
            fifo.wf(),
            fifo.slots() == old(fifo).slots(),
            fifo@ == Seq::<u8>::empty(),
            parser.wf(),
            parser@ == serve(s0, input, firmware_version@).0,
            answers@ == serve(s0, input, firmware_version@).1,
            invalid_versions == serve(s0, input, firmware_version@).2,
        decreases fifo@.len(),
    {
        let ghost before = fifo@;
        let ghost s = parser@;
        match fifo.read() {
            None => {
                assert(fifo@ =~= Seq::<u8>::empty());
                assert(done =~= input);
                break;
            },
            Some(byte) => {
                let one: [u8; 1] = [byte];
                assert(one@ =~= seq![byte]);
                assert(seq![byte].drop_first() =~= Seq::<u8>::empty());
                assert(run(s, seq![byte]) == (step(s, byte).0, step(s, byte).1)) by {
                    reveal_with_fuel(run, 2);
                }
                let ghost after = step(s, byte).0;
                assert(serve(after, Seq::<u8>::empty(), firmware_version@).1 =~= Seq::<u8>::empty());
                proof {
                    lemma_serve_split(s0, done, byte, firmware_version@);
                }
                let r = parser.parse(&one);
                match r {
                    Ok(packet) => {
                        let answer = response_packet(packet, firmware_version).serialize_vec();
                        extend_bytes(&mut answers, answer.as_slice());
                    },
                    Err(Error::InvalidVersion) => {
                        invalid_versions += 1;
                    },
                    Err(_) => {},
                }
                proof {
                    assert(before == seq![byte] + fifo@);
                    assert(input == done.push(byte) + fifo@);
                    done = done.push(byte);
                }
                assert(answers@ =~= serve(s0, done, firmware_version@).1);
            },
        }
    }
    Served { answers, invalid_versions }
}

} // verus!
