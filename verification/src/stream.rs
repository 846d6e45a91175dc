//! One accepted stream connection: frames in, replies out.
//!
//! A connection is a state machine. The caller owns the socket and the
//! collaborators that decode a message and build its reply; the machine says
//! what to do next (`StreamConnection::action`) and is told what came of it
//! (`StreamConnection::step`). Messages are served one after another for as
//! long as the peer keeps the stream open.

use crate::frame::{
    after_first_frame, all_fit, encode_frame, first_payload, frame_bytes, frames_of, leftover,
    lemma_frame_then_rest, lemma_front_frame, lemma_partial_frame, lemma_wire_push,
    lemma_wire_round_trip, starts_with_frame, wire_of, FrameReader, MAX_PAYLOAD_LEN,
};
use vstd::prelude::*;
use vstd::slice::slice_subrange;

verus! {

/// Why a connection was closed.
#[derive(Clone, Copy, Debug, PartialEq, Eq, Structural)]
pub enum CloseReason {
    /// The peer ended the stream between frames.
    EndOfStream,
    /// The peer ended the stream inside a frame.
    TruncatedFrame,
    /// Reading or writing failed.
    TransportFailure,
    /// The server is shutting down and the connection was between exchanges.
    Shutdown,
}

/// Where a connection stands.
#[derive(Clone, Copy, Debug, PartialEq, Eq, Structural)]
pub enum Phase {
    /// Waiting for the bytes of the next frame.
    Reading,
    /// A frame is complete; its payload is being decoded.
    Decoding,
    /// The message was decoded; its reply is being built or written.
    Replying,
    /// Terminal.
    Closed(CloseReason),
}

/// What the transport or the collaborators report to a connection.
#[derive(Clone, Copy, Debug, PartialEq, Eq)]
pub enum StreamEvent<'a> {
    /// A read returned these bytes.
    Bytes(&'a [u8]),
    /// A read found the end of the stream.
    EndOfStream,
    /// A read failed.
    ReadFailed,
    /// The server is shutting down; reported in place of a read.
    Shutdown,
    /// The payload was decoded.
    Decoded,
    /// The payload could not be decoded.
    DecodeFailed,
    /// The reply was built and encoded to these bytes.
    Reply(&'a [u8]),
    /// The reply could not be encoded.
    EncodeFailed,
    /// A write took this many of the bytes offered.
    Written(usize),
    /// A write failed.
    WriteFailed,
}

/// What a connection asks its caller to do next.
#[derive(Clone, Copy, Debug, PartialEq, Eq)]
pub enum StreamAction<'a> {
    /// Read from the stream and report `Bytes`, `EndOfStream` or
    /// `ReadFailed`, or report `Shutdown` if the server is shutting down.
    Read,
    /// Decode this payload and report `Decoded` or `DecodeFailed`.
    Decode(&'a [u8]),
    /// Build and encode the reply to the decoded message and report `Reply`
    /// or `EncodeFailed`.
    BuildReply,
    /// Offer these bytes to the stream and report `Written` or `WriteFailed`.
    Write(&'a [u8]),
    /// Shut the connection down; nothing more will be asked.
    Close(CloseReason),
}

/// What a step has to tell beyond the next action: the fate of the exchange
/// the event belonged to.
#[derive(Clone, Copy, Debug, PartialEq, Eq, Structural)]
pub enum Notice {
    /// Nothing to report.
    Nothing,
    /// The reply is on the wire in full.
    ReplySent,
    /// The message could not be decoded and was discarded; no reply is sent.
    MessageDiscarded,
    /// The reply could not be encoded; the exchange was dropped.
    ReplyDropped,
    /// The reply does not fit a frame; this reply alone was rejected.
    ReplyTooLarge,
    /// The stream ended inside a frame.
    StreamTruncated,
    /// The transport failed, or reported a count it cannot have written.
    TransportFailed,
    /// The event answers no action the connection has asked for; it was
    /// ignored.
    OutOfTurn,
}

/// The state of a connection as contracts see it.
pub struct ConnModel {
    /// Where the connection stands.
    pub phase: Phase,
    /// Bytes read and not yet given out as a frame.
    pub inbound: Seq<u8>,
    /// Payload of the message being served; empty outside an exchange.
    pub request: Seq<u8>,
    /// The part of the framed reply that is still to be written; empty
    /// unless a reply is being written.
    pub outbound: Seq<u8>,
}

/// A connection that has just been accepted.
pub open spec fn fresh() -> ConnModel {
    ConnModel {
        phase: Phase::Reading,
        inbound: Seq::empty(),
        request: Seq::empty(),
        outbound: Seq::empty(),
    }
}

/// A closed connection: it holds nothing any more.
pub open spec fn closed(reason: CloseReason) -> ConnModel {
    ConnModel {
        phase: Phase::Closed(reason),
        inbound: Seq::empty(),
        request: Seq::empty(),
        outbound: Seq::empty(),
    }
}

/// The state in which an exchange begins or the connection idles: with a
/// whole frame at the front of `inbound` its payload goes to decoding at
/// once, otherwise the connection reads.
pub open spec fn resume(inbound: Seq<u8>) -> ConnModel {
    if starts_with_frame(inbound) {
        ConnModel {
            phase: Phase::Decoding,
            inbound: after_first_frame(inbound),
            request: first_payload(inbound),
            outbound: Seq::empty(),
        }
    } else {
        ConnModel {
            phase: Phase::Reading,
            inbound,
            request: Seq::empty(),
            outbound: Seq::empty(),
        }
    }
}

/// Whether `event` answers the action that a connection in state `m` has
/// asked for.
pub open spec fn in_turn(m: ConnModel, event: StreamEvent) -> bool {
    match m.phase {
        Phase::Reading => event is Bytes || event is EndOfStream || event is ReadFailed
            || event is Shutdown,
        Phase::Decoding => event is Decoded || event is DecodeFailed,
        Phase::Replying => if m.outbound.len() == 0 {
            event is Reply || event is EncodeFailed
        } else {
            event is Written || event is WriteFailed
        },
        Phase::Closed(_) => false,
    }
}

/// The state that follows `m` on `event`.
pub open spec fn next(m: ConnModel, event: StreamEvent) -> ConnModel {
    if !in_turn(m, event) {
        m
    } else {
        match event {
            StreamEvent::Bytes(data) => resume(m.inbound + data@),
            StreamEvent::EndOfStream => if m.inbound.len() == 0 {
                closed(CloseReason::EndOfStream)
            } else {
                closed(CloseReason::TruncatedFrame)
            },
            StreamEvent::Decoded => ConnModel { phase: Phase::Replying, ..m },
            StreamEvent::Reply(bytes) => if bytes@.len() <= MAX_PAYLOAD_LEN {
                ConnModel { outbound: frame_bytes(bytes@), ..m }
            } else {
                resume(m.inbound)
            },
            StreamEvent::DecodeFailed | StreamEvent::EncodeFailed => resume(m.inbound),
            StreamEvent::Written(n) => if n == 0 || n > m.outbound.len() {
                closed(CloseReason::TransportFailure)
            } else if n == m.outbound.len() {
                resume(m.inbound)
            } else {
                ConnModel { outbound: m.outbound.skip(n as int), ..m }
            },
            StreamEvent::ReadFailed | StreamEvent::WriteFailed => closed(
                CloseReason::TransportFailure,
            ),
            StreamEvent::Shutdown => closed(CloseReason::Shutdown),
        }
    }
}

/// What a step from `m` on `event` reports.
pub open spec fn notice(m: ConnModel, event: StreamEvent) -> Notice {
    if !in_turn(m, event) {
        Notice::OutOfTurn
    } else {
        match event {
            StreamEvent::Bytes(_) | StreamEvent::Decoded | StreamEvent::Shutdown =>
                Notice::Nothing,
            StreamEvent::EndOfStream => if m.inbound.len() == 0 {
                Notice::Nothing
            } else {
                Notice::StreamTruncated
            },
            StreamEvent::DecodeFailed => Notice::MessageDiscarded,
            StreamEvent::EncodeFailed => Notice::ReplyDropped,
            StreamEvent::Reply(bytes) => if bytes@.len() <= MAX_PAYLOAD_LEN {
                Notice::Nothing
            } else {
                Notice::ReplyTooLarge
            },
            StreamEvent::Written(n) => if n == 0 || n > m.outbound.len() {
                Notice::TransportFailed
            } else if n == m.outbound.len() {
                Notice::ReplySent
            } else {
                Notice::Nothing
            },
            StreamEvent::ReadFailed | StreamEvent::WriteFailed => Notice::TransportFailed,
        }
    }
}

/// Whether `action` is what a connection in state `m` asks for.
pub open spec fn asks(m: ConnModel, action: StreamAction) -> bool {
    match m.phase {
        Phase::Reading => action is Read,
        Phase::Decoding => action matches StreamAction::Decode(payload) && payload@ == m.request,
        Phase::Replying => if m.outbound.len() == 0 {
            action is BuildReply
        } else {
            action matches StreamAction::Write(bytes) && bytes@ == m.outbound
        },
        Phase::Closed(reason) => action == StreamAction::Close(reason),
    }
}

/// A framed reply on its way out: what a write has not yet taken.
#[derive(Debug)]
struct Outbox {
    bytes: Vec<u8>,
    sent: usize,
}

impl View for Outbox {
    type V = Seq<u8>;

    closed spec fn view(&self) -> Seq<u8> {
        self.bytes@.skip(self.sent as int)
    }
}

impl Outbox {
    #[verifier::type_invariant]
    spec fn sent_within_bytes(self) -> bool {
        self.sent <= self.bytes@.len()
    }

    fn empty() -> (outbox: Self)
        ensures
            outbox@ == Seq::<u8>::empty(),
    {
        Outbox { bytes: Vec::new(), sent: 0 }
    }

    fn holding(bytes: Vec<u8>) -> (outbox: Self)
        ensures
            outbox@ == bytes@,
    {
        Outbox { bytes, sent: 0 }
    }

    fn rest(&self) -> (rest: &[u8])
        ensures
            rest@ == self@,
    {
        proof {
            use_type_invariant(self);
        }
        slice_subrange(self.bytes.as_slice(), self.sent, self.bytes.len())
    }

    fn advance(&mut self, n: usize)
        requires
            n <= old(self)@.len(),
        ensures
            final(self)@ == old(self)@.skip(n as int),
    {
        proof {
            use_type_invariant(&*self);
        }
        let total: usize = self.bytes.len();
        assert(self.sent + n <= total);
        self.sent = self.sent + n;
    }
}

/// One accepted stream connection.
///
/// Its view is a `ConnModel`. A connection starts in `fresh()`; `step` moves
/// it as `next` says, and `action` tells what it asks for as `asks` says.
#[derive(Debug)]
pub struct StreamConnection {
    phase: Phase,
    reader: FrameReader,
    request: Vec<u8>,
    outbox: Outbox,
}

impl View for StreamConnection {
    type V = ConnModel;

    closed spec fn view(&self) -> ConnModel {
        ConnModel {
            phase: self.phase,
            inbound: self.reader@,
            request: self.request@,
            outbound: self.outbox@,
        }
    }
}

impl StreamConnection {
    /// The state of a connection that has just been accepted.
    pub fn new() -> (conn: Self)
        ensures
            conn@ == fresh(),
    {
        StreamConnection {
            phase: Phase::Reading,
            reader: FrameReader::new(),
            request: Vec::new(),
            outbox: Outbox::empty(),
        }
    }

    /// Where the connection stands.
    pub fn phase(&self) -> (phase: Phase)
        ensures
            phase == self@.phase,
    {
        self.phase
    }

    /// Whether the connection has reached its terminal state.
    pub fn is_closed(&self) -> (closed: bool)
        ensures
            closed == (self@.phase is Closed),
    {
        match self.phase {
            Phase::Closed(_) => true,
            _ => false,
        }
    }

    /// What the connection asks its caller to do now.
    pub fn action(&self) -> (action: StreamAction<'_>)
        ensures
            asks(self@, action),
    {
        match self.phase {
            Phase::Reading => StreamAction::Read,
            Phase::Decoding => StreamAction::Decode(self.request.as_slice()),
            Phase::Replying => {
                let rest: &[u8] = self.outbox.rest();
                if rest.len() == 0 {
                    StreamAction::BuildReply
                } else {
                    StreamAction::Write(rest)
                }
            },
            Phase::Closed(reason) => StreamAction::Close(reason),
        }
    }

    /// Takes in what the caller reports and moves to the state that follows.
    ///
    /// The new state is `next` of the old one, for every state and every
    /// event; the result is the `notice` of that step. An event that answers
    /// no action the connection has asked for changes nothing.
    pub fn step(&mut self, event: StreamEvent<'_>) -> (told: Notice)
        ensures
            final(self)@ == next(old(self)@, event),
            told == notice(old(self)@, event),
    {
        match self.phase {
            Phase::Reading => match event {
                StreamEvent::Bytes(data) => {
                    self.reader.push(data);
                    self.resume();
                    Notice::Nothing
                },
                StreamEvent::EndOfStream => {
                    if self.reader.buffered() == 0 {
                        self.close(CloseReason::EndOfStream);
                        Notice::Nothing
                    } else {
                        self.close(CloseReason::TruncatedFrame);
                        Notice::StreamTruncated
                    }
                },
                StreamEvent::ReadFailed => {
                    self.close(CloseReason::TransportFailure);
                    Notice::TransportFailed
                },
                StreamEvent::Shutdown => {
                    self.close(CloseReason::Shutdown);
                    Notice::Nothing
                },
                _ => Notice::OutOfTurn,
            },
            Phase::Decoding => match event {
                StreamEvent::Decoded => {
                    self.phase = Phase::Replying;
                    Notice::Nothing
                },
                StreamEvent::DecodeFailed => {
                    self.resume();
                    Notice::MessageDiscarded
                },
                _ => Notice::OutOfTurn,
            },
            Phase::Replying => {
                let pending: usize = self.outbox.rest().len();
                if pending == 0 {
                    match event {
                        StreamEvent::Reply(bytes) => match encode_frame(bytes) {
                            Ok(framed) => {
                                self.outbox = Outbox::holding(framed);
                                Notice::Nothing
                            },
                            Err(_) => {
                                self.resume();
                                Notice::ReplyTooLarge
                            },
                        },
                        StreamEvent::EncodeFailed => {
                            self.resume();
                            Notice::ReplyDropped
                        },
                        _ => Notice::OutOfTurn,
                    }
                } else {
                    match event {
                        StreamEvent::Written(n) => {
                            if n == 0 || n > pending {
                                self.close(CloseReason::TransportFailure);
                                Notice::TransportFailed
                            } else if n == pending {
                                self.resume();
                                Notice::ReplySent
                            } else {
                                self.outbox.advance(n);
                                Notice::Nothing
                            }
                        },
                        StreamEvent::WriteFailed => {
                            self.close(CloseReason::TransportFailure);
                            Notice::TransportFailed
                        },
                        _ => Notice::OutOfTurn,
                    }
                }
            },
            Phase::Closed(_) => Notice::OutOfTurn,
        }
    }

    /// Ends the exchange in hand and turns to the next frame.
    fn resume(&mut self)
        ensures
            final(self)@ == resume(old(self)@.inbound),
    {
        self.outbox = Outbox::empty();
        match self.reader.next_frame() {
            Some(payload) => {
                self.request = payload;
                self.phase = Phase::Decoding;
            },
            None => {
                self.request = Vec::new();
                self.phase = Phase::Reading;
            },
        }
    }

    /// Gives up everything held and enters the terminal state.
    fn close(&mut self, reason: CloseReason)
        ensures
            final(self)@ == closed(reason),
    {
        self.phase = Phase::Closed(reason);
        self.reader = FrameReader::new();
        self.request = Vec::new();
        self.outbox = Outbox::empty();
    }
}

/// What has passed through a connection since it was accepted.
pub struct History {
    /// Every byte the connection has taken in, in order.
    pub taken: Seq<u8>,
    /// The payload of every message that went to decoding, in order.
    pub served: Seq<Seq<u8>>,
    /// Every reply that was accepted for writing, in order.
    pub replies: Seq<Seq<u8>>,
    /// For each reply, the position in `served` of the message it answers.
    pub answers: Seq<int>,
    /// Every byte a write has taken, in order.
    pub written: Seq<u8>,
}

/// The history of a connection that has just been accepted.
pub open spec fn blank() -> History {
    History {
        taken: Seq::empty(),
        served: Seq::empty(),
        replies: Seq::empty(),
        answers: Seq::empty(),
        written: Seq::empty(),
    }
}

/// The history after a step from `m` on `event`, given the history `h`
/// before it.
pub open spec fn record(h: History, m: ConnModel, event: StreamEvent) -> History {
    if !in_turn(m, event) {
        h
    } else {
        let after = next(m, event);
        let h1 = match event {
            StreamEvent::Bytes(data) => History { taken: h.taken + data@, ..h },
            StreamEvent::Reply(bytes) => if bytes@.len() <= MAX_PAYLOAD_LEN {
                History {
                    replies: h.replies.push(bytes@),
                    answers: h.answers.push(h.served.len() - 1),
                    ..h
                }
            } else {
                h
            },
            StreamEvent::Written(n) => if after.phase is Closed {
                h
            } else {
                History { written: h.written + m.outbound.take(n as int), ..h }
            },
            _ => h,
        };
        if after.phase is Decoding {
            History { served: h1.served.push(after.request), ..h1 }
        } else {
            h1
        }
    }
}

/// Whether each reply answers a message that was served, and a later one
/// than the reply before it.
pub open spec fn answers_in_order(h: History) -> bool {
    &&& h.answers.len() == h.replies.len()
    &&& forall|i: int| 0 <= i < h.answers.len() ==> 0 <= #[trigger] h.answers[i] < h.served.len()
    &&& forall|i: int, j: int|
        0 <= i < j < h.answers.len() ==> #[trigger] h.answers[i] < #[trigger] h.answers[j]
}

/// What holds of a connection and its history at every moment.
///
/// The bytes taken in are the frames of the messages served followed by
/// what is still buffered, so the messages served are the frames of the
/// stream, each once and in order. The bytes written are a beginning of the
/// frames of the replies, in order, and all of them once the reply in hand
/// is out. No message is answered twice.
pub open spec fn faithful(h: History, m: ConnModel) -> bool {
    &&& all_fit(h.served)
    &&& all_fit(h.replies)
    &&& answers_in_order(h)
    &&& h.written.len() <= wire_of(h.replies).len()
    &&& h.written == wire_of(h.replies).take(h.written.len() as int)
    &&& match m.phase {
        Phase::Reading => {
            &&& h.taken == wire_of(h.served) + m.inbound
            &&& !starts_with_frame(m.inbound)
            &&& m.request.len() == 0
            &&& m.outbound.len() == 0
            &&& h.written == wire_of(h.replies)
        },
        Phase::Decoding => {
            &&& h.taken == wire_of(h.served) + m.inbound
            &&& h.served.len() > 0
            &&& h.served.last() == m.request
            &&& m.outbound.len() == 0
            &&& h.written == wire_of(h.replies)
            &&& h.answers.len() > 0 ==> h.answers.last() < h.served.len() - 1
        },
        Phase::Replying => {
            &&& h.taken == wire_of(h.served) + m.inbound
            &&& h.served.len() > 0
            &&& h.served.last() == m.request
            &&& h.written + m.outbound == wire_of(h.replies)
            &&& m.outbound.len() == 0 ==> (h.answers.len() > 0 ==> h.answers.last()
                < h.served.len() - 1)
        },
        Phase::Closed(_) => m == closed(m.phase->Closed_0),
    }
}

/// `faithful` holds when a connection is accepted.
pub proof fn lemma_faithful_at_start()
    ensures
        faithful(blank(), fresh()),
{
    assert(wire_of(blank().replies).take(0) =~= blank().written);
}

/// `faithful` survives every step, whatever the event.
pub proof fn lemma_faithful_step(h: History, m: ConnModel, event: StreamEvent)
    requires
        faithful(h, m),
    ensures
        faithful(record(h, m, event), next(m, event)),
{
    if in_turn(m, event) {
        let after = next(m, event);
        let h2 = record(h, m, event);
        match event {
            StreamEvent::Bytes(data) => {
                let h1 = History { taken: h.taken + data@, ..h };
                assert(h1.taken =~= wire_of(h.served) + (m.inbound + data@));
                lemma_resumed(h1, m.inbound + data@, h2, after);
            },
            StreamEvent::DecodeFailed | StreamEvent::EncodeFailed => {
                lemma_resumed(h, m.inbound, h2, after);
            },
            StreamEvent::Reply(bytes) => {
                if bytes@.len() <= MAX_PAYLOAD_LEN {
                    lemma_wire_push(h.replies, bytes@);
                    assert(h2.written =~= wire_of(h2.replies).take(h2.written.len() as int));
                } else {
                    lemma_resumed(h, m.inbound, h2, after);
                }
            },
            StreamEvent::Written(n) => {
                if 0 < n <= m.outbound.len() {
                    let whole = wire_of(h.replies);
                    assert(h2.written + m.outbound.skip(n as int) =~= whole);
                    assert(h2.written =~= whole.take(h2.written.len() as int));
                    if n == m.outbound.len() {
                        lemma_resumed(
                            History { written: h2.written, ..h },
                            m.inbound,
                            h2,
                            after,
                        );
                    }
                }
            },
            _ => {},
        }
    }
}

/// The step of `lemma_faithful_step` that ends an exchange and turns to the
/// next frame.
proof fn lemma_resumed(h: History, inbound: Seq<u8>, h2: History, after: ConnModel)
    requires
        all_fit(h.served),
        all_fit(h.replies),
        answers_in_order(h),
        h.written == wire_of(h.replies),
        h.taken == wire_of(h.served) + inbound,
        after == resume(inbound),
        h2 == if after.phase is Decoding {
            History { served: h.served.push(after.request), ..h }
        } else {
            h
        },
    ensures
        faithful(h2, after),
{
    assert(h.written =~= wire_of(h.replies).take(h.written.len() as int));
    if starts_with_frame(inbound) {
        lemma_front_frame(inbound);
        lemma_wire_push(h.served, first_payload(inbound));
        assert(h2.taken =~= wire_of(h2.served) + after.inbound);
    }
}

/// The state of a connection after `events`, counted from its acceptance.
pub open spec fn state_after(events: Seq<StreamEvent>) -> ConnModel
    decreases events.len(),
{
    if events.len() == 0 {
        fresh()
    } else {
        next(state_after(events.drop_last()), events.last())
    }
}

/// The history of a connection after `events`, counted from its acceptance.
pub open spec fn history_after(events: Seq<StreamEvent>) -> History
    decreases events.len(),
{
    if events.len() == 0 {
        blank()
    } else {
        record(
            history_after(events.drop_last()),
            state_after(events.drop_last()),
            events.last(),
        )
    }
}

/// `faithful` holds after any sequence of events, in turn or not.
pub proof fn lemma_always_faithful(events: Seq<StreamEvent>)
    ensures
        faithful(history_after(events), state_after(events)),
    decreases events.len(),
{
    if events.len() == 0 {
        lemma_faithful_at_start();
    } else {
        lemma_always_faithful(events.drop_last());
        lemma_faithful_step(
            history_after(events.drop_last()),
            state_after(events.drop_last()),
            events.last(),
        );
    }
}

/// Whenever a connection waits for bytes, it has served the frames of the
/// stream so far, each once and in order, it has put on the wire the frames
/// of the replies it accepted and nothing else, and it has answered no
/// message twice.
pub proof fn lemma_idle_means_all_served(events: Seq<StreamEvent>)
    requires
        state_after(events).phase is Reading,
    ensures
        history_after(events).served == frames_of(history_after(events).taken),
        state_after(events).inbound == leftover(history_after(events).taken),
        history_after(events).written == wire_of(history_after(events).replies),
        answers_in_order(history_after(events)),
{
    let h = history_after(events);
    let m = state_after(events);
    lemma_always_faithful(events);
    lemma_wire_round_trip(h.served, m.inbound);
}

/// A closed connection stays closed: no event moves it.
pub proof fn lemma_closed_is_terminal(m: ConnModel, event: StreamEvent)
    requires
        m.phase is Closed,
    ensures
        next(m, event) == m,
        notice(m, event) == Notice::OutOfTurn,
{
}

/// A connection closes on what its own stream does and on shutdown, never
/// on a message: the end of the stream, a failed read or shutdown while it
/// reads, a failed write while it writes.
pub proof fn lemma_what_closes_a_connection(m: ConnModel, event: StreamEvent)
    requires
        next(m, event).phase is Closed,
    ensures
        m.phase is Closed || (m.phase is Reading && (event is EndOfStream || event is ReadFailed
            || event is Shutdown)) || (m.phase is Replying && m.outbound.len() > 0 && (event
            is WriteFailed || event is Written)),
{
}

/// Shutdown spares the exchange in hand: a connection that reads closes at
/// once, any other stays as it is until its exchange is over.
pub proof fn lemma_shutdown_spares_exchanges(m: ConnModel)
    ensures
        m.phase is Reading ==> next(m, StreamEvent::Shutdown) == closed(CloseReason::Shutdown),
        !(m.phase is Reading) ==> next(m, StreamEvent::Shutdown) == m,
{
}

/// A reply is built only for a message that was decoded, and bytes are
/// offered for writing only while a reply is on its way.
pub proof fn lemma_reply_needs_decoded(events: Seq<StreamEvent>, event: StreamEvent)
    ensures
        next(state_after(events), event).phase is Replying ==> state_after(events).phase
            is Replying || (state_after(events).phase is Decoding && event is Decoded),
        state_after(events).outbound.len() > 0 ==> state_after(events).phase is Replying,
{
    lemma_always_faithful(events);
}

/// A message that cannot be decoded costs the connection nothing but that
/// message: the connection stays open, offers nothing for writing and turns
/// to the next frame.
pub proof fn lemma_discard_keeps_connection(m: ConnModel)
    requires
        m.phase is Decoding,
    ensures
        next(m, StreamEvent::DecodeFailed) == resume(m.inbound),
        notice(m, StreamEvent::DecodeFailed) == Notice::MessageDiscarded,
        !(next(m, StreamEvent::DecodeFailed).phase is Closed),
        next(m, StreamEvent::DecodeFailed).outbound.len() == 0,
{
}

/// A reply too large for a frame is rejected alone: nothing of it is
/// written, the connection stays open and turns to the next frame, as it
/// does after a message it discarded.
pub proof fn lemma_oversize_reply_rejected(h: History, m: ConnModel, reply: &[u8])
    requires
        m.phase is Replying,
        m.outbound.len() == 0,
        reply@.len() > MAX_PAYLOAD_LEN,
    ensures
        next(m, StreamEvent::Reply(reply)) == resume(m.inbound),
        notice(m, StreamEvent::Reply(reply)) == Notice::ReplyTooLarge,
        !(next(m, StreamEvent::Reply(reply)).phase is Closed),
        record(h, m, StreamEvent::Reply(reply)).written == h.written,
        record(h, m, StreamEvent::Reply(reply)).replies == h.replies,
{
}

/// A write that takes a reply in two pieces leaves the connection where a
/// write that takes both at once does, and the same bytes on the wire.
pub proof fn lemma_write_in_pieces(h: History, m: ConnModel, first: usize, both: usize)
    requires
        m.phase is Replying,
        0 < first < both <= m.outbound.len(),
    ensures
        next(next(m, StreamEvent::Written(first)), StreamEvent::Written((both - first) as usize))
            == next(m, StreamEvent::Written(both)),
        record(
            record(h, m, StreamEvent::Written(first)),
            next(m, StreamEvent::Written(first)),
            StreamEvent::Written((both - first) as usize),
        ) == record(h, m, StreamEvent::Written(both)),
{
    let mid = next(m, StreamEvent::Written(first));
    assert(mid.outbound.skip(both - first) =~= m.outbound.skip(both as int));
    assert(h.written + m.outbound.take(first as int) + mid.outbound.take(both - first)
        =~= h.written + m.outbound.take(both as int));
}

/// One well-formed frame, one framed reply: a connection that takes in the
/// frame of `request`, in one piece or in two, and is given `reply` for it
/// puts the frame of `reply` on the wire and nothing else, and then waits
/// for bytes with nothing buffered.
pub proof fn lemma_one_frame_one_reply(
    request: Seq<u8>,
    piece1: &[u8],
    piece2: &[u8],
    reply: &[u8],
)
    requires
        request.len() <= MAX_PAYLOAD_LEN,
        reply@.len() <= MAX_PAYLOAD_LEN,
        piece1@ + piece2@ == frame_bytes(request),
    ensures
        ({
            let events = seq![
                StreamEvent::Bytes(piece1),
                StreamEvent::Bytes(piece2),
                StreamEvent::Decoded,
                StreamEvent::Reply(reply),
                StreamEvent::Written((reply@.len() + 2) as usize),
            ];
            &&& state_after(events.take(2)).phase is Decoding
            &&& state_after(events.take(2)).request == request
            &&& state_after(events.take(4)).outbound == frame_bytes(reply@)
            &&& state_after(events) == fresh()
            &&& history_after(events).served == seq![request]
            &&& history_after(events).replies == seq![reply@]
            &&& history_after(events).answers == seq![0int]
            &&& history_after(events).written == frame_bytes(reply@)
        }),
{
    let e1 = StreamEvent::Bytes(piece1);
    let e2 = StreamEvent::Bytes(piece2);
    let e3 = StreamEvent::Decoded;
    let e4 = StreamEvent::Reply(reply);
    let e5 = StreamEvent::Written((reply@.len() + 2) as usize);
    let events = seq![e1, e2, e3, e4, e5];
    let none = Seq::<StreamEvent>::empty();
    let whole = frame_bytes(request);

    // The run, one event at a time.
    assert(events.take(1).drop_last() =~= none);
    assert(events.take(2).drop_last() =~= events.take(1));
    assert(events.take(3).drop_last() =~= events.take(2));
    assert(events.take(4).drop_last() =~= events.take(3));
    assert(events.drop_last() =~= events.take(4));
    let m1 = state_after(events.take(1));
    let h1 = history_after(events.take(1));
    assert(state_after(none) == fresh() && history_after(none) == blank());
    assert(m1 == next(fresh(), e1) && h1 == record(blank(), fresh(), e1));
    let m2 = state_after(events.take(2));
    let h2 = history_after(events.take(2));
    assert(m2 == next(m1, e2) && h2 == record(h1, m1, e2));
    let m3 = state_after(events.take(3));
    let h3 = history_after(events.take(3));
    assert(m3 == next(m2, e3) && h3 == record(h2, m2, e3));
    let m4 = state_after(events.take(4));
    let h4 = history_after(events.take(4));
    assert(m4 == next(m3, e4) && h4 == record(h3, m3, e4));
    assert(state_after(events) == next(m4, e5) && history_after(events) == record(h4, m4, e5));

    // The frame is whole with the first piece, or with the second and not
    // before.
    lemma_frame_then_rest(request, Seq::empty());
    assert(fresh().inbound + piece1@ =~= piece1@);
    if piece2@.len() == 0 {
        assert(piece1@ =~= whole);
    } else {
        assert(piece1@ =~= whole.take(piece1@.len() as int));
        lemma_partial_frame(request, piece1@.len() as int);
        assert(m1.inbound + piece2@ =~= whole);
    }
    assert(m2 == resume(whole) && h2.served =~= seq![request]);

    // Decoded, replied to, written.
    assert(h4.replies =~= seq![reply@] && h4.answers =~= seq![0int]);
    assert(m4.outbound.take((reply@.len() + 2) as int) =~= frame_bytes(reply@));
}

/// A frame with bytes withheld is no frame, and the connection learns that
/// it never will be one only when the stream ends: after any proper, not
/// empty beginning of a frame the connection still reads, and the end of the
/// stream then closes it as truncated.
pub proof fn lemma_truncation_shows_at_close(payload: Seq<u8>, part: &[u8])
    requires
        payload.len() <= MAX_PAYLOAD_LEN,
        0 < part@.len() < frame_bytes(payload).len(),
        part@ == frame_bytes(payload).take(part@.len() as int),
    ensures
        next(fresh(), StreamEvent::Bytes(part)).phase is Reading,
        notice(fresh(), StreamEvent::Bytes(part)) == Notice::Nothing,
        next(next(fresh(), StreamEvent::Bytes(part)), StreamEvent::EndOfStream) == closed(
            CloseReason::TruncatedFrame,
        ),
        notice(next(fresh(), StreamEvent::Bytes(part)), StreamEvent::EndOfStream)
            == Notice::StreamTruncated,
{
    lemma_partial_frame(payload, part@.len() as int);
}

} // verus!
