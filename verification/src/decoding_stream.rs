//! The streaming decoder: byte chunks in, packets out.
//!
//! A frame is a header of one, three or nine bytes followed by the binary
//! form of one packet. The decoder buffers chunks as they arrive and hands
//! out a packet whenever a whole frame has been buffered, wherever the
//! chunk boundaries fall.

use vstd::prelude::*;
use std::collections::VecDeque;
use crate::decode::packet_outcome;
use crate::decode::parse_packet_bytes;
use crate::error::DecodeFailure;
use crate::error::DecodingError;
use crate::packet::Packet;
use crate::packet::PacketView;
use crate::raw_data::BinaryType;

verus! {

/// What the decoder waits for.
#[derive(Debug, Clone, Copy, PartialEq, Eq, Structural)]
pub enum State {
    /// The first byte of a frame: mask bit and seven-bit length.
    ReadHeader,
    /// The two bytes of a sixteen-bit length.
    ReadExtendedLength16,
    /// The eight bytes of a sixty-four-bit length.
    ReadExtendedLength64,
    /// The bytes of the frame's packet.
    ReadPayload,
}

/// The mathematical content of a decoder: its state and the bytes that it
/// has buffered and not yet consumed.
pub struct DecoderModel {
    /// What the decoder waits for.
    pub state: State,
    /// The length of the packet of the frame under way.
    pub expected_length: nat,
    /// Whether the header of the frame under way announced a binary payload.
    pub is_binary: bool,
    /// The buffered bytes, oldest first.
    pub pending: Seq<u8>,
}

/// The bytes of a sequence of chunks, in order.
pub open spec fn flat(chunks: Seq<BinaryType>) -> Seq<u8>
    decreases chunks.len(),
{
    if chunks.len() == 0 {
        Seq::<u8>::empty()
    } else {
        chunks[0]@ + flat(chunks.drop_first())
    }
}

/// The bytes of a sequence of byte sequences, in order.
pub open spec fn concat(chunks: Seq<Seq<u8>>) -> Seq<u8>
    decreases chunks.len(),
{
    if chunks.len() == 0 {
        Seq::<u8>::empty()
    } else {
        chunks[0] + concat(chunks.drop_first())
    }
}

/// The number that the bytes `b[0..n]` denote, most significant first.
pub open spec fn be_value(b: Seq<u8>, n: nat) -> nat
    decreases n,
{
    if n == 0 {
        0
    } else {
        be_value(b, (n - 1) as nat) * 256 + b[n - 1] as nat
    }
}

/// The decoder in its initial state.
pub open spec fn initial() -> DecoderModel {
    DecoderModel {
        state: State::ReadHeader,
        expected_length: 0,
        is_binary: false,
        pending: Seq::<u8>::empty(),
    }
}

/// The decoder after more bytes have arrived.
pub open spec fn feed(m: DecoderModel, bytes: Seq<u8>) -> DecoderModel {
    DecoderModel { pending: m.pending + bytes, ..m }
}

/// Number of buffered bytes that the decoder needs before it can move on.
pub open spec fn needed(m: DecoderModel) -> nat {
    match m.state {
        State::ReadHeader => 1,
        State::ReadExtendedLength16 => 2,
        State::ReadExtendedLength64 => 8,
        State::ReadPayload => m.expected_length,
    }
}

/// One move of the decoder, which `needed(m)` buffered bytes allow: it
/// consumes them. Reading a header or a length changes the state; reading a
/// payload hands out the frame's packet bytes and returns to `ReadHeader`.
pub open spec fn step(m: DecoderModel) -> (DecoderModel, Option<Seq<u8>>) {
    let rest = m.pending.skip(needed(m) as int);
    match m.state {
        State::ReadHeader => {
            let header = m.pending[0];
            let length = (header % 128) as nat;
            (
                DecoderModel {
                    state: if length < 126 {
                        State::ReadPayload
                    } else if length == 126 {
                        State::ReadExtendedLength16
                    } else {
                        State::ReadExtendedLength64
                    },
                    expected_length: length,
                    is_binary: header >= 128,
                    pending: rest,
                },
                None,
            )
        },
        State::ReadExtendedLength16 => (
            DecoderModel {
                state: State::ReadPayload,
                expected_length: be_value(m.pending, 2),
                pending: rest,
                ..m
            },
            None,
        ),
        State::ReadExtendedLength64 => (
            DecoderModel {
                state: State::ReadPayload,
                expected_length: be_value(m.pending, 8),
                pending: rest,
                ..m
            },
            None,
        ),
        State::ReadPayload => (
            DecoderModel { state: State::ReadHeader, pending: rest, ..m },
            Some(m.pending.take(m.expected_length as int)),
        ),
    }
}

/// The decoder run until it hands out the packet bytes of one frame or
/// needs more bytes than it has buffered.
pub open spec fn advance(m: DecoderModel) -> (DecoderModel, Option<Seq<u8>>)
    decreases m.pending.len(), (if m.state is ReadPayload {
        0nat
    } else {
        1nat
    }),
{
    if m.pending.len() < needed(m) {
        (m, None)
    } else if m.state is ReadPayload {
        step(m)
    } else {
        advance(step(m).0)
    }
}

/// The decoder run until it needs more bytes than it has buffered: the
/// packet bytes of all the frames it hands out on the way, and the decoder
/// it ends as.
pub open spec fn drain(m: DecoderModel) -> (Seq<Seq<u8>>, DecoderModel)
    decreases m.pending.len(), (if m.state is ReadPayload {
        1nat
    } else {
        0nat
    }),
{
    let (next, frame) = advance(m);
    match frame {
        None => (Seq::<Seq<u8>>::empty(), next),
        Some(f) => {
            if next.pending.len() < m.pending.len() || (next.pending.len() == m.pending.len()
                && m.state is ReadPayload && !(next.state is ReadPayload)) {
                let (more, last) = drain(next);
                (seq![f] + more, last)
            } else {
                (seq![f], next)
            }
        },
    }
}

/// The decoder fed chunk after chunk and drained after each: all the frames
/// handed out, and the decoder it ends as.
pub open spec fn run(m: DecoderModel, chunks: Seq<Seq<u8>>) -> (Seq<Seq<u8>>, DecoderModel)
    decreases chunks.len(),
{
    if chunks.len() == 0 {
        (Seq::<Seq<u8>>::empty(), m)
    } else {
        let (first, mid) = drain(feed(m, chunks[0]));
        let (more, last) = run(mid, chunks.drop_first());
        (first + more, last)
    }
}

/// What the packet bytes of frames decode to, frame by frame.
pub open spec fn parsed(frames: Seq<Seq<u8>>) -> Seq<Result<PacketView, DecodeFailure>> {
    Seq::new(frames.len(), |i: int| parse_packet_bytes(frames[i]))
}

/// The outcomes of decoding, as mathematical values.
pub open spec fn outcomes(results: Seq<Result<Packet, DecodingError>>) -> Seq<
    Result<PacketView, DecodeFailure>,
> {
    Seq::new(results.len(), |i: int| packet_outcome(results[i]))
}

/// A decoder that has been drained is stuck: it needs more bytes than it
/// has buffered.
pub open spec fn is_stuck(m: DecoderModel) -> bool {
    m.pending.len() < needed(m)
}

/// Advancing never adds bytes; it leaves the decoder stuck where it hands
/// out nothing, and in `ReadHeader` with fewer bytes, or as many and coming
/// from `ReadPayload`, where it hands out a frame.
pub proof fn lemma_advance(m: DecoderModel)
    ensures
        advance(m).0.pending.len() <= m.pending.len(),
        advance(m).1 is None ==> is_stuck(advance(m).0),
        advance(m).1 is Some ==> advance(m).0.state is ReadHeader && (advance(m).0.pending.len()
            < m.pending.len() || m.state is ReadPayload),
    decreases m.pending.len(), (if m.state is ReadPayload {
        0nat
    } else {
        1nat
    }),
{
    if m.pending.len() < needed(m) {
    } else if m.state is ReadPayload {
    } else {
        lemma_advance(step(m).0);
    }
}

/// Draining leaves the decoder stuck.
pub proof fn lemma_drain_stuck(m: DecoderModel)
    ensures
        is_stuck(drain(m).1),
    decreases m.pending.len(), (if m.state is ReadPayload {
        1nat
    } else {
        0nat
    }),
{
    lemma_advance(m);
    let (next, frame) = advance(m);
    if frame is Some {
        lemma_drain_stuck(next);
    }
}

/// A stuck decoder hands out nothing and stays as it is.
pub proof fn lemma_stuck(m: DecoderModel)
    requires
        is_stuck(m),
    ensures
        advance(m) == (m, None::<Seq<u8>>),
        drain(m) == (Seq::<Seq<u8>>::empty(), m),
{
}

/// A move that the buffered bytes allow is the same move when more bytes
/// follow them.
pub proof fn lemma_step_feed(m: DecoderModel, more: Seq<u8>)
    requires
        !is_stuck(m),
    ensures
        step(feed(m, more)) == (feed(step(m).0, more), step(m).1),
{
    let n = needed(m) as int;
    let fed = feed(m, more);
    assert(fed.pending.skip(n) =~= m.pending.skip(n) + more);
    assert(fed.pending.take(n) =~= m.pending.take(n));
    reveal_with_fuel(be_value, 9);
    if n >= 1 {
        assert(fed.pending[0] == m.pending[0]);
    }
    if n >= 2 {
        assert(fed.pending[1] == m.pending[1]);
    }
    if n >= 8 {
        assert(fed.pending[2] == m.pending[2] && fed.pending[3] == m.pending[3]
            && fed.pending[4] == m.pending[4] && fed.pending[5] == m.pending[5]
            && fed.pending[6] == m.pending[6] && fed.pending[7] == m.pending[7]);
    }
}

/// Bytes that arrive late change nothing of what was already handed out:
/// advancing with them buffered is advancing without them and then, where
/// the decoder got stuck, advancing again once they are there.
pub proof fn lemma_advance_feed(m: DecoderModel, more: Seq<u8>)
    ensures
        advance(m).1 is Some ==> advance(feed(m, more)) == (
            feed(advance(m).0, more),
            advance(m).1,
        ),
        advance(m).1 is None ==> advance(feed(m, more)) == advance(feed(advance(m).0, more)),
    decreases m.pending.len(), (if m.state is ReadPayload {
        0nat
    } else {
        1nat
    }),
{
    if m.pending.len() < needed(m) {
    } else {
        lemma_step_feed(m, more);
        if m.state is ReadPayload {
        } else {
            lemma_advance_feed(step(m).0, more);
        }
    }
}

/// Draining with late bytes buffered is draining without them, letting
/// them arrive, and draining again.
pub proof fn lemma_drain_feed(m: DecoderModel, more: Seq<u8>)
    ensures
        drain(feed(m, more)) == (
            drain(m).0 + drain(feed(drain(m).1, more)).0,
            drain(feed(drain(m).1, more)).1,
        ),
    decreases m.pending.len(), (if m.state is ReadPayload {
        1nat
    } else {
        0nat
    }),
{
    lemma_advance(m);
    lemma_advance_feed(m, more);
    let (next, frame) = advance(m);
    match frame {
        None => {
            lemma_stuck(next);
            assert(drain(m) == (Seq::<Seq<u8>>::empty(), next));
            let fed = feed(next, more);
            assert(advance(feed(m, more)) == advance(fed));
            lemma_drain_same_advance(feed(m, more), fed);
            assert(Seq::<Seq<u8>>::empty() + drain(fed).0 =~= drain(fed).0);
        },
        Some(f) => {
            lemma_drain_feed(next, more);
            lemma_advance(feed(m, more));
            assert(advance(feed(m, more)) == (feed(next, more), Some(f)));
            assert(seq![f] + (drain(next).0 + drain(feed(drain(next).1, more)).0) =~= (seq![f]
                + drain(next).0) + drain(feed(drain(next).1, more)).0);
        },
    }
}

/// Two decoders that advance alike and both make headway drain alike.
pub proof fn lemma_drain_same_advance(a: DecoderModel, b: DecoderModel)
    requires
        advance(a) == advance(b),
    ensures
        drain(a) == drain(b),
{
    lemma_advance(a);
    lemma_advance(b);
    let (next, frame) = advance(a);
    if frame is Some {
        if a.state is ReadPayload != b.state is ReadPayload {
            lemma_advance_from_other_state(a);
            lemma_advance_from_other_state(b);
        }
    }
}

/// A decoder that is not in `ReadPayload` consumes at least one byte before
/// it hands out a frame.
pub proof fn lemma_advance_from_other_state(m: DecoderModel)
    ensures
        advance(m).1 is Some && !(m.state is ReadPayload) ==> advance(m).0.pending.len()
            < m.pending.len(),
{
    lemma_advance(m);
}

/// Streaming decoder fidelity: the frames that the decoder hands out, and
/// the decoder it ends as, depend on the bytes it is fed and not on how
/// they are cut into chunks.
pub proof fn law_chunking_is_irrelevant(m: DecoderModel, chunks: Seq<Seq<u8>>)
    requires
        is_stuck(m),
    ensures
        run(m, chunks) == drain(feed(m, concat(chunks))),
    decreases chunks.len(),
{
    if chunks.len() == 0 {
        assert(feed(m, concat(chunks)).pending =~= m.pending);
        assert(feed(m, concat(chunks)) == m);
        lemma_stuck(m);
    } else {
        let head = chunks[0];
        let tail = chunks.drop_first();
        let fed = feed(m, head);
        let (first, mid) = drain(fed);
        lemma_drain_stuck(fed);
        law_chunking_is_irrelevant(mid, tail);
        lemma_drain_feed(fed, concat(tail));
        assert(feed(fed, concat(tail)).pending =~= feed(m, concat(chunks)).pending);
        assert(feed(fed, concat(tail)) == feed(m, concat(chunks)));
    }
}

/// Streaming decoder fidelity, for two chunkings: fed the same bytes from
/// its initial state, the decoder hands out the same frames.
pub proof fn law_same_bytes_same_frames(a: Seq<Seq<u8>>, b: Seq<Seq<u8>>)
    requires
        concat(a) == concat(b),
    ensures
        run(initial(), a) == run(initial(), b),
{
    law_chunking_is_irrelevant(initial(), a);
    law_chunking_is_irrelevant(initial(), b);
}

/// The bytes of chunks after one more chunk has been put behind them.
pub proof fn lemma_flat_push(chunks: Seq<BinaryType>, last: BinaryType)
    ensures
        flat(chunks.push(last)) == flat(chunks) + last@,
    decreases chunks.len(),
{
    let all = chunks.push(last);
    if chunks.len() == 0 {
        assert(all.drop_first() =~= Seq::<BinaryType>::empty());
        assert(all[0] == last);
        assert(flat(all.drop_first()) =~= Seq::<u8>::empty());
        assert(flat(chunks) =~= Seq::<u8>::empty());
        assert(flat(all) =~= flat(chunks) + last@);
    } else {
        lemma_flat_push(chunks.drop_first(), last);
        assert(all.drop_first() =~= chunks.drop_first().push(last));
        assert(all[0] == chunks[0]);
        assert(flat(all) =~= flat(chunks) + last@);
    }
}

/// The bytes of chunks after one more chunk has been put in front of them.
pub proof fn lemma_flat_front(first: BinaryType, chunks: Seq<BinaryType>)
    ensures
        flat(seq![first] + chunks) == first@ + flat(chunks),
{
    let all = seq![first] + chunks;
    assert(all.drop_first() =~= chunks);
    assert(all[0] == first);
}

/// The number of bytes buffered in `chunks`.
pub fn total_length(chunks: &VecDeque<BinaryType>) -> (n: u128)
    ensures
        n == flat(chunks@).len(),
{
    let mut total: u128 = 0;
    let mut i: usize = 0;
    let count: usize = chunks.len();
    assert(chunks@.skip(0) =~= chunks@);
    while i < count
        invariant
            i <= count,
            count == chunks@.len(),
            total <= i * 0xFFFF_FFFF_FFFF_FFFF,
            total + flat(chunks@.skip(i as int)).len() == flat(chunks@).len(),
        decreases chunks@.len() - i,
    {
        assert(chunks@.skip(i as int).drop_first() =~= chunks@.skip(i + 1));
        assert(chunks@.skip(i as int)[0] == chunks@[i as int]);
        total = total + chunks[i].len() as u128;
        i = i + 1;
    }
    assert(chunks@.skip(i as int) =~= Seq::<BinaryType>::empty());
    total
}

/// Takes the first `size` bytes out of `chunks`, across chunk boundaries;
/// all of them, where fewer are buffered. A chunk that is only partly
/// taken keeps its remainder at the front.
pub fn concat_chunks(chunks: &mut VecDeque<BinaryType>, size: u64) -> (buffer: BinaryType)
    ensures
        size <= flat(old(chunks)@).len() ==> buffer@ == flat(old(chunks)@).take(size as int)
            && flat(final(chunks)@) == flat(old(chunks)@).skip(size as int),
        size > flat(old(chunks)@).len() ==> buffer@ == flat(old(chunks)@) && flat(final(chunks)@)
            == Seq::<u8>::empty(),
{
    let ghost all = flat(chunks@);
    let mut buffer: Vec<u8> = Vec::new();
    while (buffer.len() as u64) < size
        invariant
            buffer@.len() <= size,
            buffer@ + flat(chunks@) == all,
        ensures
            buffer@ + flat(chunks@) == all,
            buffer@.len() == size || flat(chunks@).len() == 0,
            buffer@.len() <= size,
        decreases size - buffer@.len() + chunks@.len(),
    {
        let ghost before = chunks@;
        match chunks.pop_front() {
            Some(chunk) => {
                let mut chunk: Vec<u8> = chunk;
                let ghost whole = chunk@;
                assert(before.drop_first() =~= chunks@);
                assert(flat(before) == whole + flat(chunks@));
                let need: u64 = size - buffer.len() as u64;
                if chunk.len() as u64 <= need {
                    buffer.append(&mut chunk);
                    assert(buffer@ + flat(chunks@) =~= all);
                } else {
                    let rest: Vec<u8> = chunk.split_off(need as usize);
                    buffer.append(&mut chunk);
                    proof {
                        lemma_flat_front(rest, chunks@);
                    }
                    chunks.push_front(rest);
                    assert(whole =~= whole.subrange(0, need as int) + whole.subrange(
                        need as int,
                        whole.len() as int,
                    ));
                    assert(buffer@ + flat(chunks@) =~= all);
                }
            },
            None => {
                break ;
            },
        }
    }
    proof {
        if size <= all.len() {
            assert(buffer@ =~= all.take(size as int));
            assert(flat(chunks@) =~= all.skip(size as int));
        } else {
            assert(buffer@ =~= all);
        }
    }
    buffer
}

/// The state machine that turns buffered byte chunks into packets.
#[derive(Debug)]
pub struct PacketDecoderStream {
    chunks: VecDeque<BinaryType>,
    state: State,
    expected_length: u64,
    is_binary: bool,
}

impl View for PacketDecoderStream {
    type V = DecoderModel;

    closed spec fn view(&self) -> DecoderModel {
        DecoderModel {
            state: self.state,
            expected_length: self.expected_length as nat,
            is_binary: self.is_binary,
            pending: flat(self.chunks@),
        }
    }
}

impl PacketDecoderStream {
    /// A decoder that has seen no byte yet.
    pub fn new() -> (decoder: Self)
        ensures
            decoder@ == initial(),
    {
        PacketDecoderStream {
            chunks: VecDeque::new(),
            state: State::ReadHeader,
            expected_length: 0,
            is_binary: false,
        }
    }

    /// What the decoder waits for.
    pub fn state(&self) -> (state: State)
        ensures
            state == self@.state,
    {
        self.state
    }

    /// Whether the header of the frame under way announced a binary
    /// payload.
    pub fn is_binary(&self) -> (b: bool)
        ensures
            b == self@.is_binary,
    {
        self.is_binary
    }

    /// The length of the packet of the frame under way.
    pub fn expected_length(&self) -> (n: u64)
        ensures
            n == self@.expected_length,
    {
        self.expected_length
    }

    /// The number of bytes that are buffered.
    pub fn buffered(&self) -> (n: u128)
        ensures
            n == self@.pending.len(),
    {
        total_length(&self.chunks)
    }

    /// Buffers one more chunk behind those already there.
    pub fn push_chunk(&mut self, chunk: BinaryType)
        ensures
            final(self)@ == feed(old(self)@, chunk@),
    {
        proof {
            lemma_flat_push(self.chunks@, chunk);
        }
        self.chunks.push_back(chunk);
    }

    /// Runs the decoder until a whole frame has been read or more bytes
    /// are needed. Hands out the packet that the frame's bytes decode to,
    /// or the failure to decode them; `None` where more bytes are needed.
    pub fn next_packet(&mut self) -> (r: Option<Result<Packet, DecodingError>>)
        ensures
            final(self)@ == advance(old(self)@).0,
            match advance(old(self)@).1 {
                None => r is None,
                Some(frame) => r is Some && packet_outcome(r->0) == parse_packet_bytes(frame),
            },
    {
        let ghost start = self@;
        loop
            invariant
                start == old(self)@,
                advance(self@) == advance(start),
            decreases flat(self.chunks@).len(),
        {
            proof {
                reveal_with_fuel(be_value, 9);
            }
            let ghost m = self@;
            let buffered: u128 = total_length(&self.chunks);
            match self.state {
                State::ReadHeader => {
                    if buffered < 1 {
                        return None;
                    }
                    let header: Vec<u8> = concat_chunks(&mut self.chunks, 1);
                    assert(header@[0] == m.pending[0]);
                    self.is_binary = header[0] >= 128;
                    self.expected_length = (header[0] % 128) as u64;
                    self.state = if self.expected_length < 126 {
                        State::ReadPayload
                    } else if self.expected_length == 126 {
                        State::ReadExtendedLength16
                    } else {
                        State::ReadExtendedLength64
                    };
                    assert(self@ == step(m).0);
                },
                State::ReadExtendedLength16 => {
                    if buffered < 2 {
                        return None;
                    }
                    let header: Vec<u8> = concat_chunks(&mut self.chunks, 2);
                    assert(header@[0] == m.pending[0] && header@[1] == m.pending[1]);
                    self.expected_length = (header[0] as u64) * 256 + (header[1] as u64);
                    self.state = State::ReadPayload;
                    assert(self@ == step(m).0);
                },
                State::ReadExtendedLength64 => {
                    if buffered < 8 {
                        return None;
                    }
                    let header: Vec<u8> = concat_chunks(&mut self.chunks, 8);
                    assert(header@[0] == m.pending[0] && header@[1] == m.pending[1] && header@[2]
                        == m.pending[2] && header@[3] == m.pending[3] && header@[4] == m.pending[4]
                        && header@[5] == m.pending[5] && header@[6] == m.pending[6] && header@[7]
                        == m.pending[7]);
                    self.expected_length = (header[0] as u64) * 72057594037927936 + (
                    header[1] as u64) * 281474976710656 + (header[2] as u64) * 1099511627776 + (
                    header[3] as u64) * 4294967296 + (header[4] as u64) * 16777216 + (
                    header[5] as u64) * 65536 + (header[6] as u64) * 256 + (header[7] as u64);
                    self.state = State::ReadPayload;
                    assert(self@ == step(m).0);
                },
                State::ReadPayload => {
                    if buffered < self.expected_length as u128 {
                        return None;
                    }
                    let payload: Vec<u8> = concat_chunks(&mut self.chunks, self.expected_length);
                    self.state = State::ReadHeader;
                    assert(self@ == step(m).0);
                    return Some(Packet::decode_binary(payload));
                },
            }
        }
    }

    /// Runs the decoder until it needs more bytes than it has buffered, and
    /// hands out what the frames read on the way decode to, in order.
    pub fn drain_packets(&mut self) -> (results: Vec<Result<Packet, DecodingError>>)
        ensures
            outcomes(results@) == parsed(drain(old(self)@).0),
            final(self)@ == drain(old(self)@).1,
    {
        let mut results: Vec<Result<Packet, DecodingError>> = Vec::new();
        let ghost mut done: Seq<Seq<u8>> = Seq::empty();
        assert(done + drain(self@).0 =~= drain(self@).0);
        assert(outcomes(results@) =~= parsed(done));
        loop
            invariant
                drain(old(self)@) == (done + drain(self@).0, drain(self@).1),
                outcomes(results@) == parsed(done),
            decreases
                    self@.pending.len(),
                    (if self@.state is ReadPayload {
                        1nat
                    } else {
                        0nat
                    }),
        {
            let ghost before = self@;
            let ghost had = results@;
            proof {
                lemma_advance(before);
            }
            match self.next_packet() {
                None => {
                    proof {
                        lemma_stuck(self@);
                        assert(done + Seq::<Seq<u8>>::empty() =~= done);
                    }
                    return results;
                },
                Some(result) => {
                    results.push(result);
                    proof {
                        let frame = advance(before).1->0;
                        assert(drain(before).0 =~= seq![frame] + drain(self@).0);
                        assert(done.push(frame) + drain(self@).0 =~= done + drain(before).0);
                        assert(outcomes(had).len() == had.len());
                        assert(parsed(done).len() == done.len());
                        assert(packet_outcome(result) == parse_packet_bytes(frame));
                        assert(results@[had.len() as int] == result);
                        assert(outcomes(results@) =~= parsed(done.push(frame))) by {
                            assert forall|i: int| 0 <= i < results@.len() implies outcomes(
                                results@,
                            )[i] == parsed(done.push(frame))[i] by {
                                if i < had.len() {
                                    assert(outcomes(had)[i] == parsed(done)[i]);
                                }
                            }
                        }
                        done = done.push(frame);
                    }
                },
            }
        }
    }

    /// Buffers one more chunk and hands out what the frames that it
    /// completes decode to, in order.
    pub fn feed_chunk(&mut self, chunk: BinaryType) -> (results: Vec<Result<Packet, DecodingError>>)
        ensures
            outcomes(results@) == parsed(drain(feed(old(self)@, chunk@)).0),
            final(self)@ == drain(feed(old(self)@, chunk@)).1,
    {
        self.push_chunk(chunk);
        self.drain_packets()
    }
}

} // verus!
