//! The datagram channel: one datagram in, at most one datagram back.
//!
//! Like a stream connection, the channel is a state machine that its caller
//! drives: `DatagramChannel::action` says what to do, `DatagramChannel::step`
//! takes in what came of it. The channel never looks inside a peer address;
//! it only carries the source of a datagram to the reply.

use vstd::prelude::*;
use vstd::slice::{slice_subrange, slice_to_vec};

verus! {

/// Capacity of the receive buffer: the most bytes of one datagram that reach
/// the decoder. What a longer datagram holds beyond them is lost.
pub const RECV_CAPACITY: usize = 1024;

/// What the transport or the collaborators report to the channel.
#[derive(Debug, PartialEq, Eq)]
pub enum DatagramEvent<'a, A> {
    /// A datagram arrived from `from`.
    Datagram { payload: &'a [u8], from: A },
    /// Receiving failed.
    ReceiveFailed,
    /// The server is shutting down; reported in place of a datagram.
    Shutdown,
    /// The payload was decoded.
    Decoded,
    /// The payload could not be decoded.
    DecodeFailed,
    /// The reply was built and encoded to these bytes.
    Reply(&'a [u8]),
    /// The reply could not be encoded.
    EncodeFailed,
    /// The transport sent this many bytes of the reply.
    Sent(usize),
    /// Sending failed.
    SendFailed,
}

/// What the channel asks its caller to do next.
#[derive(Debug, PartialEq, Eq)]
pub enum DatagramAction<'a, A> {
    /// Receive a datagram and report `Datagram` or `ReceiveFailed`, or
    /// report `Shutdown` if the server is shutting down.
    Receive,
    /// Decode this payload and report `Decoded` or `DecodeFailed`.
    Decode(&'a [u8]),
    /// Build and encode the reply to the decoded message for `peer` and
    /// report `Reply` or `EncodeFailed`.
    BuildReply { peer: &'a A },
    /// Send `bytes` to `to` and report `Sent` or `SendFailed`.
    Send { to: &'a A, bytes: &'a [u8] },
    /// Stop: the channel was shut down.
    Stop,
    /// Stop and report a fatal error: the transport is unusable.
    Fail,
}

/// What a step has to tell beyond the next action.
#[derive(Clone, Copy, Debug, PartialEq, Eq, Structural)]
pub enum DatagramNotice {
    /// Nothing to report.
    Nothing,
    /// The reply went out in full.
    ReplySent,
    /// The datagram could not be decoded and was discarded; no reply is sent.
    MessageDiscarded,
    /// The reply could not be encoded; the exchange was dropped.
    ReplyDropped,
    /// The transport reports `sent` bytes sent of a reply of `expected`: not
    /// the whole reply.
    ShortWrite { sent: usize, expected: usize },
    /// The reply could not be sent; the exchange was dropped.
    SendFailed,
    /// Receiving failed; the channel has stopped.
    ReceiveFailed,
    /// The event answers no action the channel has asked for; it was ignored.
    OutOfTurn,
}

/// The state of a channel as contracts see it.
pub enum ChannelModel<A> {
    /// Waiting for a datagram.
    Receiving,
    /// A datagram from `from` is being decoded.
    Decoding { from: A, request: Seq<u8> },
    /// The datagram from `from` was decoded; its reply is being built.
    Replying { from: A },
    /// `reply` is being sent to `to`.
    Sending { to: A, reply: Seq<u8> },
    /// Terminal: the channel was shut down between exchanges.
    Stopped,
    /// Terminal: receiving failed.
    Failed,
}

/// The part of a datagram that fits the receive buffer.
pub open spec fn clipped(payload: Seq<u8>) -> Seq<u8> {
    if payload.len() <= RECV_CAPACITY {
        payload
    } else {
        payload.take(RECV_CAPACITY as int)
    }
}

/// Whether `event` answers the action that a channel in state `m` has asked
/// for.
pub open spec fn in_turn<A>(m: ChannelModel<A>, event: DatagramEvent<A>) -> bool {
    match m {
        ChannelModel::Receiving => event is Datagram || event is ReceiveFailed
            || event is Shutdown,
        ChannelModel::Decoding { .. } => event is Decoded || event is DecodeFailed,
        ChannelModel::Replying { .. } => event is Reply || event is EncodeFailed,
        ChannelModel::Sending { .. } => event is Sent || event is SendFailed,
        ChannelModel::Stopped | ChannelModel::Failed => false,
    }
}

/// The state that follows `m` on `event`.
pub open spec fn next<A>(m: ChannelModel<A>, event: DatagramEvent<A>) -> ChannelModel<A> {
    if !in_turn(m, event) {
        m
    } else {
        match event {
            DatagramEvent::Datagram { payload, from } => ChannelModel::Decoding {
                from,
                request: clipped(payload@),
            },
            DatagramEvent::ReceiveFailed => ChannelModel::Failed,
            DatagramEvent::Shutdown => ChannelModel::Stopped,
            DatagramEvent::Decoded => ChannelModel::Replying { from: m->Decoding_from },
            DatagramEvent::Reply(bytes) => ChannelModel::Sending {
                to: m->Replying_from,
                reply: bytes@,
            },
            DatagramEvent::DecodeFailed
            | DatagramEvent::EncodeFailed
            | DatagramEvent::Sent(_)
            | DatagramEvent::SendFailed => ChannelModel::Receiving,
        }
    }
}

/// What a step from `m` on `event` reports.
pub open spec fn notice<A>(m: ChannelModel<A>, event: DatagramEvent<A>) -> DatagramNotice {
    if !in_turn(m, event) {
        DatagramNotice::OutOfTurn
    } else {
        match event {
            DatagramEvent::Datagram { .. }
            | DatagramEvent::Shutdown
            | DatagramEvent::Decoded
            | DatagramEvent::Reply(_) => DatagramNotice::Nothing,
            DatagramEvent::ReceiveFailed => DatagramNotice::ReceiveFailed,
            DatagramEvent::DecodeFailed => DatagramNotice::MessageDiscarded,
            DatagramEvent::EncodeFailed => DatagramNotice::ReplyDropped,
            DatagramEvent::Sent(n) => if n == m->Sending_reply.len() {
                DatagramNotice::ReplySent
            } else {
                DatagramNotice::ShortWrite { sent: n, expected: m->Sending_reply.len() as usize }
            },
            DatagramEvent::SendFailed => DatagramNotice::SendFailed,
        }
    }
}

/// Whether `action` is what a channel in state `m` asks for.
pub open spec fn asks<A>(m: ChannelModel<A>, action: DatagramAction<A>) -> bool {
    match m {
        ChannelModel::Receiving => action is Receive,
        ChannelModel::Decoding { request, .. } => action matches DatagramAction::Decode(payload)
            && payload@ == request,
        ChannelModel::Replying { from } => action matches DatagramAction::BuildReply { peer }
            && *peer == from,
        ChannelModel::Sending { to, reply } => action matches DatagramAction::Send {
            to: target,
            bytes,
        } && *target == to && bytes@ == reply,
        ChannelModel::Stopped => action is Stop,
        ChannelModel::Failed => action is Fail,
    }
}

#[derive(Debug)]
enum State<A> {
    Receiving,
    Decoding { from: A, request: Vec<u8> },
    Replying { from: A },
    Sending { to: A, reply: Vec<u8> },
    Stopped,
    Failed,
}

/// The datagram channel of a server.
///
/// Its view is a `ChannelModel`. A channel starts in `Receiving`; `step`
/// moves it as `next` says, and `action` tells what it asks for as `asks`
/// says.
#[derive(Debug)]
pub struct DatagramChannel<A> {
    state: State<A>,
}

impl<A> View for DatagramChannel<A> {
    type V = ChannelModel<A>;

    closed spec fn view(&self) -> ChannelModel<A> {
        match self.state {
            State::Receiving => ChannelModel::Receiving,
            State::Decoding { from, request } => ChannelModel::Decoding { from, request: request@ },
            State::Replying { from } => ChannelModel::Replying { from },
            State::Sending { to, reply } => ChannelModel::Sending { to, reply: reply@ },
            State::Stopped => ChannelModel::Stopped,
            State::Failed => ChannelModel::Failed,
        }
    }
}

impl<A> DatagramChannel<A> {
    /// A channel that waits for its first datagram.
    pub fn new() -> (channel: Self)
        ensures
            channel@ == ChannelModel::<A>::Receiving,
    {
        DatagramChannel { state: State::Receiving }
    }

    /// Whether the channel has reached a terminal state.
    pub fn is_done(&self) -> (done: bool)
        ensures
            done == (self@ is Stopped || self@ is Failed),
    {
        match &self.state {
            State::Stopped | State::Failed => true,
            _ => false,
        }
    }

    /// What the channel asks its caller to do now.
    pub fn action(&self) -> (action: DatagramAction<'_, A>)
        ensures
            asks(self@, action),
    {
        match &self.state {
            State::Receiving => DatagramAction::Receive,
            State::Decoding { request, .. } => DatagramAction::Decode(request.as_slice()),
            State::Replying { from } => DatagramAction::BuildReply { peer: from },
            State::Sending { to, reply } => DatagramAction::Send { to, bytes: reply.as_slice() },
            State::Stopped => DatagramAction::Stop,
            State::Failed => DatagramAction::Fail,
        }
    }

    /// Takes in what the caller reports and moves to the state that follows.
    ///
    /// The new state is `next` of the old one, for every state and every
    /// event, a datagram of any length included; the result is the `notice`
    /// of that step. An event that answers no action the channel has asked
    /// for changes nothing.
    pub fn step(&mut self, event: DatagramEvent<'_, A>) -> (told: DatagramNotice)
        ensures
            final(self)@ == next(old(self)@, event),
            told == notice(old(self)@, event),
    {
        let mut state: State<A> = State::Receiving;
        core::mem::swap(&mut state, &mut self.state);
        let (state, told) = match (state, event) {
            (State::Receiving, DatagramEvent::Datagram { payload, from }) => {
                let kept: &[u8] = if payload.len() <= RECV_CAPACITY {
                    payload
                } else {
                    slice_subrange(payload, 0, RECV_CAPACITY)
                };
                (State::Decoding { from, request: slice_to_vec(kept) }, DatagramNotice::Nothing)
            },
            (State::Receiving, DatagramEvent::ReceiveFailed) => (
                State::Failed,
                DatagramNotice::ReceiveFailed,
            ),
            (State::Receiving, DatagramEvent::Shutdown) => (
                State::Stopped,
                DatagramNotice::Nothing,
            ),
            (State::Decoding { from, .. }, DatagramEvent::Decoded) => (
                State::Replying { from },
                DatagramNotice::Nothing,
            ),
            (State::Decoding { .. }, DatagramEvent::DecodeFailed) => (
                State::Receiving,
                DatagramNotice::MessageDiscarded,
            ),
            (State::Replying { from }, DatagramEvent::Reply(bytes)) => (
                State::Sending { to: from, reply: slice_to_vec(bytes) },
                DatagramNotice::Nothing,
            ),
            (State::Replying { .. }, DatagramEvent::EncodeFailed) => (
                State::Receiving,
                DatagramNotice::ReplyDropped,
            ),
            (State::Sending { reply, .. }, DatagramEvent::Sent(n)) => {
                let expected: usize = reply.len();
                if n == expected {
                    (State::Receiving, DatagramNotice::ReplySent)
                } else {
                    (State::Receiving, DatagramNotice::ShortWrite { sent: n, expected })
                }
            },
            (State::Sending { .. }, DatagramEvent::SendFailed) => (
                State::Receiving,
                DatagramNotice::SendFailed,
            ),
            (state, _) => (state, DatagramNotice::OutOfTurn),
        };
        self.state = state;
        told
    }
}

/// One exchange as the channel lived it.
pub struct Exchange<A> {
    /// Where the datagram came from.
    pub from: A,
    /// What of the datagram reached the decoder.
    pub request: Seq<u8>,
    /// Whether the request was decoded.
    pub decoded: bool,
    /// The reply that was handed to the transport, if there was one.
    pub reply: Option<Seq<u8>>,
}

/// The exchanges of a channel after a step from `m` on `event`, given the
/// exchanges `h` before it.
pub open spec fn record<A>(
    h: Seq<Exchange<A>>,
    m: ChannelModel<A>,
    event: DatagramEvent<A>,
) -> Seq<Exchange<A>> {
    if !in_turn(m, event) {
        h
    } else {
        match event {
            DatagramEvent::Datagram { payload, from } => h.push(
                Exchange { from, request: clipped(payload@), decoded: false, reply: None },
            ),
            DatagramEvent::Decoded => h.update(
                h.len() - 1,
                Exchange { decoded: true, ..h.last() },
            ),
            DatagramEvent::Reply(bytes) => h.update(
                h.len() - 1,
                Exchange { reply: Some(bytes@), ..h.last() },
            ),
            _ => h,
        }
    }
}

/// What holds of a channel and its exchanges at every moment.
///
/// A reply exists only for a request that was decoded. The exchange in hand
/// is the last one, and what the channel holds of it is what was recorded:
/// the reply it sends is the reply it was given, and it goes to the peer the
/// datagram came from.
pub open spec fn faithful<A>(h: Seq<Exchange<A>>, m: ChannelModel<A>) -> bool {
    &&& forall|i: int|
        0 <= i < h.len() ==> ((#[trigger] h[i]).reply is Some ==> h[i].decoded) && h[i].request.len()
            <= RECV_CAPACITY
    &&& match m {
        ChannelModel::Decoding { from, request } => h.len() > 0 && h.last() == (Exchange {
            from,
            request,
            decoded: false,
            reply: None,
        }),
        ChannelModel::Replying { from } => h.len() > 0 && h.last().from == from
            && h.last().decoded && h.last().reply is None,
        ChannelModel::Sending { to, reply } => h.len() > 0 && h.last().from == to
            && h.last().decoded && h.last().reply == Some(reply),
        _ => true,
    }
}

/// `faithful` survives every step, whatever the event.
pub proof fn lemma_faithful_step<A>(
    h: Seq<Exchange<A>>,
    m: ChannelModel<A>,
    event: DatagramEvent<A>,
)
    requires
        faithful(h, m),
    ensures
        faithful(record(h, m, event), next(m, event)),
{
}

/// The state of a channel after `events`, counted from its creation.
pub open spec fn state_after<A>(events: Seq<DatagramEvent<A>>) -> ChannelModel<A>
    decreases events.len(),
{
    if events.len() == 0 {
        ChannelModel::Receiving
    } else {
        next(state_after(events.drop_last()), events.last())
    }
}

/// The exchanges of a channel after `events`, counted from its creation.
pub open spec fn exchanges_after<A>(events: Seq<DatagramEvent<A>>) -> Seq<Exchange<A>>
    decreases events.len(),
{
    if events.len() == 0 {
        Seq::empty()
    } else {
        record(exchanges_after(events.drop_last()), state_after(events.drop_last()), events.last())
    }
}

/// `faithful` holds after any sequence of events, in turn or not.
pub proof fn lemma_always_faithful<A>(events: Seq<DatagramEvent<A>>)
    ensures
        faithful(exchanges_after(events), state_after(events)),
    decreases events.len(),
{
    if events.len() > 0 {
        lemma_always_faithful(events.drop_last());
        lemma_faithful_step(
            exchanges_after(events.drop_last()),
            state_after(events.drop_last()),
            events.last(),
        );
    }
}

/// The reply goes back where the datagram came from: once a datagram from
/// `from` is decoded and `reply` is given for it, the channel asks for
/// `reply` to be sent to `from`, and a send in full ends the exchange.
pub proof fn lemma_reply_goes_to_source<A>(payload: &[u8], from: A, reply: &[u8])
    ensures
        ({
            let events = seq![
                DatagramEvent::Datagram { payload, from },
                DatagramEvent::Decoded,
                DatagramEvent::Reply(reply),
            ];
            let sending = state_after(events);
            &&& state_after(events.take(1)) == ChannelModel::Decoding {
                from,
                request: clipped(payload@),
            }
            &&& sending == ChannelModel::Sending { to: from, reply: reply@ }
            &&& exchanges_after(events) == seq![
                Exchange { from, request: clipped(payload@), decoded: true, reply: Some(reply@) },
            ]
            &&& reply@.len() <= usize::MAX ==> next(
                sending,
                DatagramEvent::Sent(reply@.len() as usize),
            ) == ChannelModel::<A>::Receiving && notice(
                sending,
                DatagramEvent::Sent(reply@.len() as usize),
            ) == DatagramNotice::ReplySent
        }),
{
    let e1 = DatagramEvent::Datagram { payload, from };
    let e2 = DatagramEvent::<A>::Decoded;
    let e3 = DatagramEvent::<A>::Reply(reply);
    let events = seq![e1, e2, e3];
    let none = Seq::<DatagramEvent<A>>::empty();
    assert(events.take(1).drop_last() =~= none);
    assert(events.take(2).drop_last() =~= events.take(1));
    assert(events.drop_last() =~= events.take(2));
    assert(state_after(none) == ChannelModel::<A>::Receiving);
    let m1 = state_after(events.take(1));
    assert(m1 == next(state_after(none), e1));
    let h1 = exchanges_after(events.take(1));
    assert(h1 == record(exchanges_after(none), state_after(none), e1));
    let m2 = state_after(events.take(2));
    assert(m2 == next(m1, e2));
    let h2 = exchanges_after(events.take(2));
    assert(h2 == record(h1, m1, e2));
    let m3 = state_after(events);
    assert(m3 == next(m2, e3));
    let h3 = exchanges_after(events);
    assert(h3 == record(h2, m2, e3));
    assert(h3 =~= seq![
        Exchange { from, request: clipped(payload@), decoded: true, reply: Some(reply@) },
    ]);
}

/// A datagram of any length and content that cannot be decoded gets no
/// reply: the channel asks for its decoding, then for the next datagram, and
/// never for a send.
pub proof fn lemma_malformed_gets_no_reply<A>(h: Seq<Exchange<A>>, payload: &[u8], from: A)
    ensures
        ({
            let arrival = DatagramEvent::Datagram { payload, from };
            let decoding = next(ChannelModel::Receiving, arrival);
            let met = record(h, ChannelModel::Receiving, arrival);
            &&& decoding == ChannelModel::Decoding { from, request: clipped(payload@) }
            &&& next(decoding, DatagramEvent::DecodeFailed) == ChannelModel::<A>::Receiving
            &&& notice(decoding, DatagramEvent::DecodeFailed) == DatagramNotice::MessageDiscarded
            &&& record(met, decoding, DatagramEvent::DecodeFailed).last().reply is None
            &&& forall|action: DatagramAction<A>|
                asks(decoding, action) || asks(ChannelModel::<A>::Receiving, action) ==> !(action is Send)
        }),
{
}

/// Trouble with one reply stays with that reply: whether the transport sent
/// all of it, part of it or failed, the channel turns to the next datagram.
pub proof fn lemma_send_trouble_is_isolated<A>(m: ChannelModel<A>, event: DatagramEvent<A>)
    requires
        m is Sending,
        event is Sent || event is SendFailed,
    ensures
        next(m, event) == ChannelModel::<A>::Receiving,
        notice(m, event) is ReplySent <==> event is Sent && event->Sent_0 == m->Sending_reply.len(),
{
}

/// The channel ends only between exchanges, on a failed receive or on
/// shutdown, and nothing starts it again. Shutdown spares the exchange in
/// hand.
pub proof fn lemma_ends_between_exchanges<A>(m: ChannelModel<A>, event: DatagramEvent<A>)
    ensures
        m is Failed || m is Stopped ==> next(m, event) == m,
        next(m, event) is Failed ==> m is Failed || (m is Receiving && event is ReceiveFailed),
        next(m, event) is Stopped ==> m is Stopped || (m is Receiving && event is Shutdown),
        m is Receiving ==> next(m, DatagramEvent::<A>::Shutdown) is Stopped,
        !(m is Receiving) ==> next(m, DatagramEvent::<A>::Shutdown) == m,
{
}

/// A send is asked for only after a reply was given, and a reply only
/// after the datagram was decoded.
pub proof fn lemma_reply_needs_decoded<A>(m: ChannelModel<A>, event: DatagramEvent<A>)
    ensures
        next(m, event) is Sending ==> m is Sending || (m is Replying && event is Reply),
        next(m, event) is Replying ==> m is Replying || (m is Decoding && event is Decoded),
{
}

} // verus!
