//! What the streaming parser guarantees over whole byte streams: chunking
//! does not matter, leading noise is skipped, a foreign version is refused,
//! and a frame cut short completes when the rest arrives.
use vstd::prelude::*;

use crate::commands::{
    command_byte, frame_of, packet_of, Command, PacketView, HEADER_SIZE, SYNC_BYTE, VERSION,
};
use crate::parser::{parse_result, run, step, Error, ParserView, Status};

verus! {

/// The packets that come out when the chunks are handed to `parse` one call
/// each, in order, starting from state `s`.
pub open spec fn emitted(s: ParserView, chunks: Seq<Seq<u8>>) -> Seq<PacketView>
    decreases chunks.len(),
{
    if chunks.len() == 0 {
        Seq::empty()
    } else {
        let (s1, out) = run(s, chunks[0]);
        let rest = emitted(s1, chunks.drop_first());
        match out {
            Some(Ok(p)) => seq![p] + rest,
            _ => rest,
        }
    }
}

/// Feeding `a` then `b` in two calls is feeding `a + b` in one, as long as
/// `a` brings nothing out; where it does, the bytes of `b` are dropped either
/// way.
pub proof fn lemma_run_concat(s: ParserView, a: Seq<u8>, b: Seq<u8>)
    ensures
        run(s, a).1 is None ==> run(s, a + b) == run(run(s, a).0, b),
        run(s, a).1 is Some ==> run(s, a + b) == run(s, a),
    decreases a.len(),
{
    if a.len() == 0 {
        assert(a + b =~= b);
    } else {
        let (s1, out) = step(s, a[0]);
        assert((a + b)[0] == a[0]);
        assert((a + b).drop_first() =~= a.drop_first() + b);
        lemma_run_concat(s1, a.drop_first(), b);
    }
}

/// The state after the first `k` bytes of the frame of `p`.
pub open spec fn frame_state(p: PacketView, k: int) -> ParserView {
    let f = frame_of(p);
    if k == 0 {
        ParserView::initial()
    } else if k < HEADER_SIZE {
        ParserView { status: Status::WaitingForHeader, buf: f.subrange(0, k) }
    } else {
        ParserView {
            status: Status::WaitingForPayload(command_byte(p.command), p.payload.len() as usize),
            buf: f.subrange(0, k),
        }
    }
}

proof fn lemma_packet_of_frame(p: PacketView)
    requires
        p.valid(),
    ensures
        packet_of(command_byte(p.command), p.payload) == p,
        p.payload.len() == 0 ==> packet_of(command_byte(p.command), Seq::empty()) == p,
{
    if p.command == Command::GetParamList || p.payload.len() == 0 {
        assert(p.payload =~= Seq::<u8>::empty());
    }
}

proof fn lemma_frame_step(p: PacketView, k: int)
    requires
        p.valid(),
        0 <= k < frame_of(p).len(),
    ensures
        step(frame_state(p, k), frame_of(p)[k]) == if k + 1 < frame_of(p).len() {
            (frame_state(p, k + 1), None::<Result<PacketView, Error>>)
        } else {
            (ParserView::initial(), Some(Ok::<PacketView, Error>(p)))
        },
{
    let f = frame_of(p);
    let s = frame_state(p, k);
    lemma_packet_of_frame(p);
    assert(s.buf.push(f[k]) =~= f.subrange(0, k + 1));
    if k + 1 == f.len() {
        assert(f.subrange(0, k + 1).subrange(HEADER_SIZE as int, f.len() as int) =~= p.payload);
    }
}

/// Feeding bytes `k..j` of the frame of `p` to the state after its first `k`
/// bytes.
proof fn lemma_frame_run(p: PacketView, k: int, j: int)
    requires
        p.valid(),
        0 <= k <= j <= frame_of(p).len(),
        k < frame_of(p).len(),
    ensures
        run(frame_state(p, k), frame_of(p).subrange(k, j)) == if j < frame_of(p).len() {
            (frame_state(p, j), None::<Result<PacketView, Error>>)
        } else {
            (ParserView::initial(), Some(Ok::<PacketView, Error>(p)))
        },
    decreases j - k,
{
    let f = frame_of(p);
    let input = f.subrange(k, j);
    if j > k {
        lemma_frame_step(p, k);
        assert(input[0] == f[k]);
        assert(input.drop_first() =~= f.subrange(k + 1, j));
        if k + 1 < f.len() {
            lemma_frame_run(p, k + 1, j);
        }
    }
}

/// Chunks that make up an empty stream bring nothing out.
proof fn lemma_emitted_nothing(s: ParserView, chunks: Seq<Seq<u8>>)
    requires
        chunks.flatten().len() == 0,
    ensures
        emitted(s, chunks) == Seq::<PacketView>::empty(),
    decreases chunks.len(),
{
    if chunks.len() > 0 {
        assert(chunks[0].len() == 0);
        lemma_emitted_nothing(s, chunks.drop_first());
    }
}

proof fn lemma_emitted_frame_rest(p: PacketView, k: int, chunks: Seq<Seq<u8>>)
    requires
        p.valid(),
        0 <= k < frame_of(p).len(),
        chunks.flatten() == frame_of(p).subrange(k, frame_of(p).len() as int),
    ensures
        emitted(frame_state(p, k), chunks) == seq![p],
    decreases chunks.len(),
{
    let f = frame_of(p);
    let whole = f.subrange(k, f.len() as int);
    if chunks.len() == 0 {
        assert(whole.len() > 0);
    }
    let c = chunks[0];
    let r = chunks.drop_first().flatten();
    let j = k + c.len();
    assert(whole == c + r);
    assert(whole.subrange(0, c.len() as int) =~= c);
    assert(whole.subrange(c.len() as int, whole.len() as int) =~= r);
    assert(f.subrange(k, j) =~= c);
    assert(r =~= f.subrange(j, f.len() as int));
    lemma_frame_run(p, k, j);
    if j < f.len() {
        lemma_emitted_frame_rest(p, j, chunks.drop_first());
    } else {
        lemma_emitted_nothing(ParserView::initial(), chunks.drop_first());
        assert(seq![p] + Seq::<PacketView>::empty() =~= seq![p]);
    }
}

/// However the frame of a packet is cut into chunks, handing them to a new
/// parser one call each brings out that packet exactly once, just as one call
/// with the whole frame does.
pub proof fn lemma_chunking_invariant(p: PacketView, chunks: Seq<Seq<u8>>)
    requires
        p.valid(),
        chunks.flatten() == frame_of(p),
    ensures
        emitted(ParserView::initial(), chunks) == seq![p],
        emitted(ParserView::initial(), seq![frame_of(p)]) == seq![p],
{
    let f = frame_of(p);
    assert(f.subrange(0, f.len() as int) =~= f);
    lemma_emitted_frame_rest(p, 0, chunks);
    let one = seq![f];
    assert(one.drop_first().flatten() =~= Seq::<u8>::empty());
    assert(one.flatten() =~= f);
    lemma_emitted_frame_rest(p, 0, one);
}

/// Bytes other than the sync marker leave a fresh parser as it was.
proof fn lemma_run_noise(noise: Seq<u8>)
    requires
        forall|i: int| 0 <= i < noise.len() ==> noise[i] != SYNC_BYTE,
    ensures
        run(ParserView::initial(), noise) == (ParserView::initial(), None::<Result<PacketView, Error>>),
    decreases noise.len(),
{
    if noise.len() > 0 {
        assert(step(ParserView::initial(), noise[0]).0 =~= ParserView::initial());
        lemma_run_noise(noise.drop_first());
    }
}

/// Leading bytes that are not the sync marker, then one frame, in one call:
/// the packet comes out, no error, and the parser is back at its start.
pub proof fn lemma_skip_leading_noise(noise: Seq<u8>, p: PacketView)
    requires
        p.valid(),
        forall|i: int| 0 <= i < noise.len() ==> noise[i] != SYNC_BYTE,
    ensures
        run(ParserView::initial(), noise + frame_of(p)) == (
            ParserView::initial(),
            Some(Ok::<PacketView, Error>(p)),
        ),
        parse_result(ParserView::initial(), noise + frame_of(p)) == Ok::<PacketView, Error>(p),
{
    let f = frame_of(p);
    lemma_run_noise(noise);
    lemma_run_concat(ParserView::initial(), noise, f);
    assert(f.subrange(0, f.len() as int) =~= f);
    lemma_frame_run(p, 0, f.len() as int);
}

/// A header with a version other than this one brings out `InvalidVersion`
/// and no packet, whatever follows it, and the parser starts over.
pub proof fn lemma_foreign_version(version: u8, command: u8, len: u8, rest: Seq<u8>)
    requires
        version != VERSION,
    ensures
        run(ParserView::initial(), seq![SYNC_BYTE, version, command, len] + rest) == (
            ParserView::initial(),
            Some(Err::<PacketView, Error>(Error::InvalidVersion)),
        ),
        parse_result(ParserView::initial(), seq![SYNC_BYTE, version, command, len] + rest)
            == Err::<PacketView, Error>(Error::InvalidVersion),
{
    let h = seq![SYNC_BYTE, version, command, len];
    let s1 = step(ParserView::initial(), SYNC_BYTE).0;
    let s2 = step(s1, version).0;
    let s3 = step(s2, command).0;
    assert(s1.buf =~= seq![SYNC_BYTE]);
    assert(s2.buf =~= seq![SYNC_BYTE, version]);
    assert(s3.buf =~= seq![SYNC_BYTE, version, command]);
    assert(s3.buf.push(len)[1] == version);
    let t3 = seq![len];
    let t2 = seq![command, len];
    let t1 = seq![version, command, len];
    assert(t3[0] == len);
    assert(run(s3, t3) == (
        ParserView::initial(),
        Some(Err::<PacketView, Error>(Error::InvalidVersion)),
    ));
    assert(t2.drop_first() =~= t3);
    assert(run(s2, t2) == run(s3, t3));
    assert(t1.drop_first() =~= t2);
    assert(run(s1, t1) == run(s2, t2));
    assert(h.drop_first() =~= t1);
    assert(run(ParserView::initial(), h) == run(s1, t1));
    lemma_run_concat(ParserView::initial(), h, rest);
}

/// A frame whose header has arrived and whose payload lacks at least one byte
/// reports `InCompletePayload`; the rest of the frame, fed afterwards, brings
/// out the packet.
pub proof fn lemma_truncated_frame_resumes(p: PacketView, k: int)
    requires
        p.valid(),
        HEADER_SIZE <= k < frame_of(p).len(),
    ensures
        parse_result(ParserView::initial(), frame_of(p).subrange(0, k))
            == Err::<PacketView, Error>(Error::InCompletePayload),
        run(
            run(ParserView::initial(), frame_of(p).subrange(0, k)).0,
            frame_of(p).subrange(k, frame_of(p).len() as int),
        ) == (ParserView::initial(), Some(Ok::<PacketView, Error>(p))),
{
    lemma_frame_run(p, 0, k);
    lemma_frame_run(p, k, frame_of(p).len() as int);
}

} // verus!
