//! Stream framing: a two-byte big-endian length followed by that many payload
//! bytes.

use vstd::prelude::*;
use vstd::slice::{slice_subrange, slice_to_vec};

verus! {

/// Bytes taken by the length prefix of a frame.
pub const PREFIX_LEN: usize = 2;

/// Largest payload one frame can carry: the largest value of the prefix.
pub const MAX_PAYLOAD_LEN: usize = 65535;

/// Why a frame could not be produced or completed.
#[derive(Clone, Copy, Debug, PartialEq, Eq, Structural)]
pub enum FrameError {
    /// The stream ended inside a frame.
    TruncatedFrame,
    /// The payload does not fit the two-byte length prefix.
    FrameTooLarge,
}

/// The two prefix bytes that announce a payload of `n` bytes.
pub open spec fn length_prefix(n: nat) -> Seq<u8>
    recommends
        n <= MAX_PAYLOAD_LEN,
{
    seq![(n / 256) as u8, (n % 256) as u8]
}

/// The wire image of one frame: the prefix, then the payload.
pub open spec fn frame_bytes(payload: Seq<u8>) -> Seq<u8>
    recommends
        payload.len() <= MAX_PAYLOAD_LEN,
{
    length_prefix(payload.len()) + payload
}

/// The payload length announced by the first two bytes of `bytes`.
pub open spec fn announced_len(bytes: Seq<u8>) -> nat
    recommends
        bytes.len() >= PREFIX_LEN,
{
    (bytes[0] as nat) * 256 + (bytes[1] as nat)
}

/// Whether `bytes` begins with a whole frame: prefix and all of its payload.
pub open spec fn starts_with_frame(bytes: Seq<u8>) -> bool {
    bytes.len() >= PREFIX_LEN && bytes.len() >= PREFIX_LEN + announced_len(bytes)
}

/// The payload of the frame at the front of `bytes`.
pub open spec fn first_payload(bytes: Seq<u8>) -> Seq<u8>
    recommends
        starts_with_frame(bytes),
{
    bytes.subrange(PREFIX_LEN as int, PREFIX_LEN + announced_len(bytes))
}

/// What follows the frame at the front of `bytes`.
pub open spec fn after_first_frame(bytes: Seq<u8>) -> Seq<u8>
    recommends
        starts_with_frame(bytes),
{
    bytes.skip(PREFIX_LEN + announced_len(bytes))
}

/// The payloads of the whole frames at the front of `bytes`, in stream order.
pub open spec fn frames_of(bytes: Seq<u8>) -> Seq<Seq<u8>>
    decreases bytes.len(),
{
    if starts_with_frame(bytes) {
        seq![first_payload(bytes)] + frames_of(after_first_frame(bytes))
    } else {
        Seq::empty()
    }
}

/// What stays behind the last whole frame of `bytes`: nothing, or the
/// beginning of a frame whose end has not arrived.
pub open spec fn leftover(bytes: Seq<u8>) -> Seq<u8>
    decreases bytes.len(),
{
    if starts_with_frame(bytes) {
        leftover(after_first_frame(bytes))
    } else {
        bytes
    }
}

/// The views of a vector of payloads.
pub open spec fn payloads_of(frames: Seq<Vec<u8>>) -> Seq<Seq<u8>> {
    Seq::new(frames.len(), |i: int| frames[i]@)
}

/// The wire image of a sequence of payloads: their frames, one after another.
pub open spec fn wire_of(payloads: Seq<Seq<u8>>) -> Seq<u8>
    decreases payloads.len(),
{
    if payloads.len() == 0 {
        Seq::empty()
    } else {
        frame_bytes(payloads[0]) + wire_of(payloads.skip(1))
    }
}

/// Whether every payload fits a frame.
pub open spec fn all_fit(payloads: Seq<Seq<u8>>) -> bool {
    forall|i: int| 0 <= i < payloads.len() ==> (#[trigger] payloads[i]).len() <= MAX_PAYLOAD_LEN
}

/// A frame followed by anything decodes to its payload, and what followed is
/// what remains.
pub proof fn lemma_frame_then_rest(payload: Seq<u8>, rest: Seq<u8>)
    requires
        payload.len() <= MAX_PAYLOAD_LEN,
    ensures
        starts_with_frame(frame_bytes(payload) + rest),
        first_payload(frame_bytes(payload) + rest) == payload,
        after_first_frame(frame_bytes(payload) + rest) == rest,
        frames_of(frame_bytes(payload) + rest) == seq![payload] + frames_of(rest),
        leftover(frame_bytes(payload) + rest) == leftover(rest),
{
}

/// Decoding undoes encoding: the frame of a payload that fits decodes to
/// that payload alone, and nothing is left over.
pub proof fn lemma_round_trip(payload: Seq<u8>)
    requires
        payload.len() <= MAX_PAYLOAD_LEN,
    ensures
        frames_of(frame_bytes(payload)) == seq![payload],
        leftover(frame_bytes(payload)) == Seq::<u8>::empty(),
{
    lemma_frame_then_rest(payload, Seq::empty());
}

/// A frame cut short holds no frame: every proper beginning of a frame
/// decodes to nothing and is left over whole.
pub proof fn lemma_partial_frame(payload: Seq<u8>, k: int)
    requires
        payload.len() <= MAX_PAYLOAD_LEN,
        0 <= k < frame_bytes(payload).len(),
    ensures
        !starts_with_frame(frame_bytes(payload).take(k)),
        frames_of(frame_bytes(payload).take(k)) == Seq::<Seq<u8>>::empty(),
        leftover(frame_bytes(payload).take(k)) == frame_bytes(payload).take(k),
{
}

/// Pipelined frames come out one by one and in order: the wire image of
/// payloads that fit, followed by anything, decodes to those payloads and
/// then to whatever the rest decodes to.
pub proof fn lemma_wire_round_trip(payloads: Seq<Seq<u8>>, rest: Seq<u8>)
    requires
        all_fit(payloads),
    ensures
        frames_of(wire_of(payloads) + rest) == payloads + frames_of(rest),
        leftover(wire_of(payloads) + rest) == leftover(rest),
    decreases payloads.len(),
{
    if payloads.len() > 0 {
        let head = payloads[0];
        let tail = payloads.skip(1);
        lemma_wire_round_trip(tail, rest);
        lemma_frame_then_rest(head, wire_of(tail) + rest);
        assert(wire_of(payloads) + rest =~= frame_bytes(head) + (wire_of(tail) + rest));
    }
}

/// Where the transport cuts the stream does not matter: decoding a first
/// piece, keeping its leftover and decoding that together with the second
/// piece gives the frames of the two pieces joined.
pub proof fn lemma_cut_anywhere(first: Seq<u8>, second: Seq<u8>)
    ensures
        frames_of(first + second) == frames_of(first) + frames_of(leftover(first) + second),
        leftover(first + second) == leftover(leftover(first) + second),
    decreases first.len(),
{
    if starts_with_frame(first) {
        let whole = first + second;
        assert(first_payload(whole) =~= first_payload(first));
        assert(after_first_frame(whole) =~= after_first_frame(first) + second);
        lemma_cut_anywhere(after_first_frame(first), second);
    }
}

/// Every stream is the wire image of its frames followed by its leftover;
/// each of its frames fits, and the leftover begins no whole frame.
pub proof fn lemma_stream_shape(bytes: Seq<u8>)
    ensures
        bytes == wire_of(frames_of(bytes)) + leftover(bytes),
        all_fit(frames_of(bytes)),
        !starts_with_frame(leftover(bytes)),
    decreases bytes.len(),
{
    if starts_with_frame(bytes) {
        let payload = first_payload(bytes);
        let rest = after_first_frame(bytes);
        lemma_stream_shape(rest);
        let frames = frames_of(bytes);
        assert(frames.skip(1) =~= frames_of(rest));
        assert(frame_bytes(payload) =~= bytes.take(PREFIX_LEN + announced_len(bytes)));
        assert(bytes =~= frame_bytes(payload) + (wire_of(frames_of(rest)) + leftover(rest)));
    }
}

/// Bytes that begin with a whole frame are that frame followed by the rest.
pub proof fn lemma_front_frame(bytes: Seq<u8>)
    requires
        starts_with_frame(bytes),
    ensures
        bytes == frame_bytes(first_payload(bytes)) + after_first_frame(bytes),
        first_payload(bytes).len() <= MAX_PAYLOAD_LEN,
{
}

/// The frames of payloads with one more payload behind them.
pub proof fn lemma_wire_push(payloads: Seq<Seq<u8>>, payload: Seq<u8>)
    ensures
        wire_of(payloads.push(payload)) == wire_of(payloads) + frame_bytes(payload),
    decreases payloads.len(),
{
    if payloads.len() == 0 {
        assert(wire_of(payloads.push(payload).skip(1)) =~= Seq::<u8>::empty());
    } else {
        lemma_wire_push(payloads.skip(1), payload);
        assert(payloads.push(payload).skip(1) =~= payloads.skip(1).push(payload));
    }
}

/// Frames `payload` for the wire.
///
/// Fails with `FrameTooLarge` exactly when the payload is longer than
/// `MAX_PAYLOAD_LEN`; otherwise the result is the payload behind its length
/// prefix.
pub fn encode_frame(payload: &[u8]) -> (result: Result<Vec<u8>, FrameError>)
    ensures
        payload@.len() <= MAX_PAYLOAD_LEN ==> result.is_ok() && result.unwrap()@ == frame_bytes(
            payload@,
        ),
        payload@.len() > MAX_PAYLOAD_LEN ==> result == Err::<Vec<u8>, FrameError>(
            FrameError::FrameTooLarge,
        ),
{
    let n: usize = payload.len();
    if n > MAX_PAYLOAD_LEN {
        return Err(FrameError::FrameTooLarge);
    }
    let mut out: Vec<u8> = Vec::with_capacity(n + PREFIX_LEN);
    out.push((n / 256) as u8);
    out.push((n % 256) as u8);
    out.extend_from_slice(payload);
    Ok(out)
}

/// Looks for a whole frame at the front of `bytes` and returns the length of
/// its payload; `None` while the prefix or part of the payload is missing.
pub fn whole_frame_len(bytes: &[u8]) -> (result: Option<usize>)
    ensures
        starts_with_frame(bytes@) ==> result == Some(announced_len(bytes@) as usize),
        !starts_with_frame(bytes@) ==> result.is_none(),
        result.is_some() ==> result.unwrap() <= MAX_PAYLOAD_LEN,
{
    if bytes.len() < PREFIX_LEN {
        return None;
    }
    let n: usize = (bytes[0] as usize) * 256 + (bytes[1] as usize);
    if bytes.len() - PREFIX_LEN < n {
        return None;
    }
    Some(n)
}

/// Cuts a finished stream into its frames.
///
/// The first component holds the payload of every whole frame, in order. The
/// second is `Ok` when the stream ended between frames and
/// `Err(TruncatedFrame)` when it ended inside one.
pub fn decode_stream(bytes: &[u8]) -> (result: (Vec<Vec<u8>>, Result<(), FrameError>))
    ensures
        payloads_of(result.0@) == frames_of(bytes@),
        all_fit(payloads_of(result.0@)),
        leftover(bytes@).len() == 0 ==> result.1 == Ok::<(), FrameError>(()),
        leftover(bytes@).len() > 0 ==> result.1 == Err::<(), FrameError>(
            FrameError::TruncatedFrame,
        ),
{
    let mut frames: Vec<Vec<u8>> = Vec::new();
    let mut rest: &[u8] = bytes;
    loop
        invariant
            frames_of(bytes@) == payloads_of(frames@) + frames_of(rest@),
            leftover(bytes@) == leftover(rest@),
        ensures
            payloads_of(frames@) == frames_of(bytes@),
            leftover(bytes@) == rest@,
        decreases rest@.len(),
    {
        match whole_frame_len(rest) {
            None => {
                break ;
            },
            Some(n) => {
                let payload: Vec<u8> = slice_to_vec(slice_subrange(rest, PREFIX_LEN, PREFIX_LEN + n));
                frames.push(payload);
                assert(after_first_frame(rest@) == rest@.subrange(
                    PREFIX_LEN + n,
                    rest@.len() as int,
                ));
                rest = slice_subrange(rest, PREFIX_LEN + n, rest.len());
            },
        }
    }
    proof {
        lemma_stream_shape(bytes@);
    }
    if rest.len() == 0 {
        (frames, Ok(()))
    } else {
        (frames, Err(FrameError::TruncatedFrame))
    }
}

/// Counts the bytes of `bytes` that lie behind its last whole frame.
pub fn leftover_len(bytes: &[u8]) -> (result: usize)
    ensures
        result == leftover(bytes@).len(),
{
    let mut rest: &[u8] = bytes;
    loop
        invariant
            leftover(bytes@) == leftover(rest@),
        ensures
            leftover(bytes@) == rest@,
        decreases rest@.len(),
    {
        match whole_frame_len(rest) {
            None => {
                break ;
            },
            Some(n) => {
                assert(after_first_frame(rest@) == rest@.subrange(
                    PREFIX_LEN + n,
                    rest@.len() as int,
                ));
                rest = slice_subrange(rest, PREFIX_LEN + n, rest.len());
            },
        }
    }
    rest.len()
}

/// Incremental frame decoder for one stream.
///
/// Bytes go in as the transport delivers them, in pieces of any size; frames
/// come out as soon as their last byte has arrived. The view of a reader is
/// the bytes it has taken in and not yet given out as a frame.
#[derive(Debug)]
pub struct FrameReader {
    buf: Vec<u8>,
    pos: usize,
}

impl View for FrameReader {
    type V = Seq<u8>;

    closed spec fn view(&self) -> Seq<u8> {
        self.buf@.skip(self.pos as int)
    }
}

impl FrameReader {
    #[verifier::type_invariant]
    spec fn cursor_in_buffer(self) -> bool {
        self.pos <= self.buf@.len()
    }

    /// A reader that has seen no bytes.
    pub fn new() -> (reader: Self)
        ensures
            reader@ == Seq::<u8>::empty(),
    {
        FrameReader { buf: Vec::new(), pos: 0 }
    }

    /// Number of bytes held.
    pub fn buffered(&self) -> (n: usize)
        ensures
            n == self@.len(),
    {
        proof {
            use_type_invariant(self);
        }
        self.buf.len() - self.pos
    }

    /// Takes in the next piece of the stream.
    pub fn push(&mut self, chunk: &[u8])
        ensures
            final(self)@ == old(self)@ + chunk@,
    {
        proof {
            use_type_invariant(&*self);
        }
        let consumed: usize = self.pos;
        self.pos = 0;
        let mut held: Vec<u8> = Vec::new();
        core::mem::swap(&mut held, &mut self.buf);
        if consumed > 0 {
            held = held.split_off(consumed);
        }
        held.extend_from_slice(chunk);
        self.buf = held;
    }

    /// Gives out the frame at the front of the held bytes, if it is whole.
    ///
    /// With a whole frame at the front the result is its payload, and the
    /// frame leaves the reader. Otherwise the result is `None` and nothing
    /// changes: more bytes are needed.
    pub fn next_frame(&mut self) -> (result: Option<Vec<u8>>)
        ensures
            starts_with_frame(old(self)@) ==> result.is_some() && result.unwrap()@
                == first_payload(old(self)@) && final(self)@ == after_first_frame(old(self)@),
            !starts_with_frame(old(self)@) ==> result.is_none() && final(self)@ == old(self)@,
            result.is_some() ==> result.unwrap()@.len() <= MAX_PAYLOAD_LEN,
    {
        proof {
            use_type_invariant(&*self);
        }
        let held: &[u8] = slice_subrange(self.buf.as_slice(), self.pos, self.buf.len());
        match whole_frame_len(held) {
            None => None,
            Some(n) => {
                let payload: Vec<u8> = slice_to_vec(
                    slice_subrange(held, PREFIX_LEN, PREFIX_LEN + n),
                );
                self.pos = self.pos + PREFIX_LEN + n;
                Some(payload)
            },
        }
    }

    /// Judges the end of the stream.
    ///
    /// `Ok` when the stream ended between frames, that is when nothing stays
    /// behind the last whole frame held; `Err(TruncatedFrame)` when it ended
    /// inside a frame.
    pub fn finish(&self) -> (result: Result<(), FrameError>)
        ensures
            leftover(self@).len() == 0 ==> result == Ok::<(), FrameError>(()),
            leftover(self@).len() > 0 ==> result == Err::<(), FrameError>(
                FrameError::TruncatedFrame,
            ),
    {
        proof {
            use_type_invariant(self);
        }
        let held: &[u8] = slice_subrange(self.buf.as_slice(), self.pos, self.buf.len());
        if leftover_len(held) == 0 {
            Ok(())
        } else {
            Err(FrameError::TruncatedFrame)
        }
    }
}

} // verus!
