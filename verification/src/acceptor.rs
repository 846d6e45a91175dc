//! The connection acceptor: every accepted connection gets a handler of its
//! own, and the acceptor goes straight back to accepting.

use crate::stream::{fresh, ConnModel, StreamConnection, StreamEvent};
use vstd::prelude::*;

verus! {

/// Whether an acceptor still accepts.
#[derive(Clone, Copy, Debug, PartialEq, Eq, Structural)]
pub enum AcceptorState {
    /// Accepting connections.
    Listening,
    /// Terminal: the acceptor was shut down.
    Stopped,
    /// Terminal: accepting failed.
    Failed,
}

/// What the listening socket reports to the acceptor.
#[derive(Clone, Copy, Debug, PartialEq, Eq, Structural)]
pub enum AcceptEvent {
    /// A connection was accepted.
    Connection,
    /// Accepting failed.
    AcceptFailed,
    /// The server is shutting down; reported in place of a connection.
    Shutdown,
}

/// What the acceptor asks its caller to do next.
#[derive(Clone, Copy, Debug, PartialEq, Eq, Structural)]
pub enum AcceptorAction {
    /// Accept a connection and report `Connection` or `AcceptFailed`, or
    /// report `Shutdown` if the server is shutting down.
    Accept,
    /// Stop: the acceptor was shut down.
    Stop,
    /// Stop and report a fatal error: the listening socket is unusable.
    Fail,
}

/// The state of an acceptor as contracts see it.
pub struct AcceptorModel {
    /// Whether the acceptor still accepts.
    pub state: AcceptorState,
    /// Connections accepted so far; the count stops at `u64::MAX`.
    pub accepted: u64,
}

/// An acceptor that has accepted nothing yet.
pub open spec fn listening() -> AcceptorModel {
    AcceptorModel { state: AcceptorState::Listening, accepted: 0 }
}

/// Whether a step from `m` on `event` hands a new connection to a handler.
pub open spec fn spawns(m: AcceptorModel, event: AcceptEvent) -> bool {
    m.state is Listening && event is Connection
}

/// The state that follows `m` on `event`.
pub open spec fn next(m: AcceptorModel, event: AcceptEvent) -> AcceptorModel {
    if !(m.state is Listening) {
        m
    } else {
        match event {
            AcceptEvent::Connection => AcceptorModel {
                accepted: if m.accepted < u64::MAX {
                    (m.accepted + 1) as u64
                } else {
                    m.accepted
                },
                ..m
            },
            AcceptEvent::AcceptFailed => AcceptorModel { state: AcceptorState::Failed, ..m },
            AcceptEvent::Shutdown => AcceptorModel { state: AcceptorState::Stopped, ..m },
        }
    }
}

/// The action that an acceptor in state `m` asks for.
pub open spec fn asks(m: AcceptorModel) -> AcceptorAction {
    match m.state {
        AcceptorState::Listening => AcceptorAction::Accept,
        AcceptorState::Stopped => AcceptorAction::Stop,
        AcceptorState::Failed => AcceptorAction::Fail,
    }
}

/// The connection acceptor of a server.
#[derive(Debug)]
pub struct ConnectionAcceptor {
    state: AcceptorState,
    accepted: u64,
}

impl View for ConnectionAcceptor {
    type V = AcceptorModel;

    closed spec fn view(&self) -> AcceptorModel {
        AcceptorModel { state: self.state, accepted: self.accepted }
    }
}

impl ConnectionAcceptor {
    /// An acceptor that listens and has accepted nothing yet.
    pub fn new() -> (acceptor: Self)
        ensures
            acceptor@ == listening(),
    {
        ConnectionAcceptor { state: AcceptorState::Listening, accepted: 0 }
    }

    /// Connections accepted so far.
    pub fn accepted(&self) -> (count: u64)
        ensures
            count == self@.accepted,
    {
        self.accepted
    }

    /// What the acceptor asks its caller to do now.
    pub fn action(&self) -> (action: AcceptorAction)
        ensures
            action == asks(self@),
    {
        match self.state {
            AcceptorState::Listening => AcceptorAction::Accept,
            AcceptorState::Stopped => AcceptorAction::Stop,
            AcceptorState::Failed => AcceptorAction::Fail,
        }
    }

    /// Takes in what the listening socket reports.
    ///
    /// For a connection accepted while listening the result is the state
    /// machine of that connection, newly made and owing nothing to any
    /// other; the caller hands it to a handler of its own. In every other
    /// case the result is `None`. The acceptor moves as `next` says.
    pub fn step(&mut self, event: AcceptEvent) -> (spawned: Option<StreamConnection>)
        ensures
            final(self)@ == next(old(self)@, event),
            spawns(old(self)@, event) ==> spawned.is_some() && spawned.unwrap()@ == fresh(),
            !spawns(old(self)@, event) ==> spawned.is_none(),
    {
        match self.state {
            AcceptorState::Listening => match event {
                AcceptEvent::Connection => {
                    if self.accepted < u64::MAX {
                        self.accepted = self.accepted + 1;
                    }
                    Some(StreamConnection::new())
                },
                AcceptEvent::AcceptFailed => {
                    self.state = AcceptorState::Failed;
                    None
                },
                AcceptEvent::Shutdown => {
                    self.state = AcceptorState::Stopped;
                    None
                },
            },
            _ => None,
        }
    }
}

/// Only its own socket ends an acceptor, or shutdown, and nothing starts
/// it again.
pub proof fn lemma_what_ends_an_acceptor(m: AcceptorModel, event: AcceptEvent)
    ensures
        !(m.state is Listening) ==> next(m, event) == m && !spawns(m, event),
        next(m, event).state is Failed ==> m.state is Failed || event is AcceptFailed,
        next(m, event).state is Stopped ==> m.state is Stopped || event is Shutdown,
{
}

/// The acceptor together with the connections it has handed out.
pub struct ServiceModel {
    /// The acceptor.
    pub acceptor: AcceptorModel,
    /// The connections, in the order of their acceptance.
    pub connections: Seq<ConnModel>,
}

/// Something that happens to the acceptor or to one of its connections.
pub enum ServiceEvent<'a> {
    /// The listening socket reports to the acceptor.
    Acceptor(AcceptEvent),
    /// The connection at this position is told this event.
    Connection(int, StreamEvent<'a>),
}

/// The service after `event`.
pub open spec fn service_next(s: ServiceModel, event: ServiceEvent) -> ServiceModel {
    match event {
        ServiceEvent::Acceptor(e) => ServiceModel {
            acceptor: next(s.acceptor, e),
            connections: if spawns(s.acceptor, e) {
                s.connections.push(fresh())
            } else {
                s.connections
            },
        },
        ServiceEvent::Connection(i, e) => if 0 <= i < s.connections.len() {
            ServiceModel {
                connections: s.connections.update(i, crate::stream::next(s.connections[i], e)),
                ..s
            }
        } else {
            s
        },
    }
}

/// The service after `events`, counted from a listening acceptor without
/// connections.
pub open spec fn service_after(events: Seq<ServiceEvent>) -> ServiceModel
    decreases events.len(),
{
    if events.len() == 0 {
        ServiceModel { acceptor: listening(), connections: Seq::empty() }
    } else {
        service_next(service_after(events.drop_last()), events.last())
    }
}

/// What the acceptor was told among `events`, in order.
pub open spec fn acceptor_events(events: Seq<ServiceEvent>) -> Seq<AcceptEvent>
    decreases events.len(),
{
    if events.len() == 0 {
        Seq::empty()
    } else {
        match events.last() {
            ServiceEvent::Acceptor(e) => acceptor_events(events.drop_last()).push(e),
            _ => acceptor_events(events.drop_last()),
        }
    }
}

/// The acceptor after `events`, counted from `listening()`.
pub open spec fn acceptor_after(events: Seq<AcceptEvent>) -> AcceptorModel
    decreases events.len(),
{
    if events.len() == 0 {
        listening()
    } else {
        next(acceptor_after(events.drop_last()), events.last())
    }
}

/// What the connection at position `i` was told among `events`, in order,
/// once it existed.
pub open spec fn connection_events<'a>(events: Seq<ServiceEvent<'a>>, i: int) -> Seq<
    StreamEvent<'a>,
>
    decreases events.len(),
{
    if events.len() == 0 {
        Seq::empty()
    } else {
        let before = events.drop_last();
        match events.last() {
            ServiceEvent::Connection(j, e) => if j == i && i < service_after(
                before,
            ).connections.len() {
                connection_events(before, i).push(e)
            } else {
                connection_events(before, i)
            },
            _ => connection_events(before, i),
        }
    }
}

/// A slow or failing connection holds up nothing but itself: while the
/// acceptor listens, whatever state its connections are in, a new
/// connection is accepted, starts fresh and leaves the others as they were.
pub proof fn lemma_accept_is_never_blocked(s: ServiceModel)
    requires
        s.acceptor.state is Listening,
    ensures
        ({
            let after = service_next(s, ServiceEvent::Acceptor(AcceptEvent::Connection));
            &&& after.acceptor.state is Listening
            &&& after.connections.len() == s.connections.len() + 1
            &&& after.connections.last() == fresh()
            &&& forall|j: int|
                0 <= j < s.connections.len() ==> after.connections[j] == s.connections[j]
        }),
{
}

/// What happens to one connection happens to it alone: the acceptor and
/// every other connection are as they were.
pub proof fn lemma_connections_are_isolated(s: ServiceModel, i: int, event: StreamEvent)
    ensures
        ({
            let after = service_next(s, ServiceEvent::Connection(i, event));
            &&& after.acceptor == s.acceptor
            &&& after.connections.len() == s.connections.len()
            &&& forall|j: int|
                0 <= j < s.connections.len() && j != i ==> after.connections[j]
                    == s.connections[j]
        }),
{
}

/// However the events of a service interleave, the acceptor is where its
/// own events alone would have taken it, and so is each connection: its
/// state depends on what it was told and on nothing that happened to the
/// others or when.
pub proof fn lemma_interleaving_does_not_matter(events: Seq<ServiceEvent>)
    ensures
        service_after(events).acceptor == acceptor_after(acceptor_events(events)),
        forall|i: int|
            0 <= i < service_after(events).connections.len() ==> #[trigger] service_after(
                events,
            ).connections[i] == crate::stream::state_after(connection_events(events, i)),
    decreases events.len(),
{
    if events.len() > 0 {
        let before = events.drop_last();
        lemma_interleaving_does_not_matter(before);
        let s = service_after(before);
        let after = service_after(events);
        match events.last() {
            ServiceEvent::Acceptor(e) => {
                assert(acceptor_events(events).drop_last() =~= acceptor_events(before));
                assert forall|i: int| 0 <= i < after.connections.len() implies #[trigger] after.connections[i]
                    == crate::stream::state_after(connection_events(events, i)) by {
                    if i >= s.connections.len() {
                        lemma_unborn_hears_nothing(before, i);
                    }
                }
            },
            ServiceEvent::Connection(j, e) => {
                assert forall|i: int| 0 <= i < after.connections.len() implies #[trigger] after.connections[i]
                    == crate::stream::state_after(connection_events(events, i)) by {
                    if i == j {
                        assert(connection_events(events, i).drop_last() =~= connection_events(
                            before,
                            i,
                        ));
                    }
                }
            },
        }
    }
}

/// A connection that does not exist yet has been told nothing.
proof fn lemma_unborn_hears_nothing(events: Seq<ServiceEvent>, i: int)
    requires
        i >= service_after(events).connections.len(),
    ensures
        connection_events(events, i) == Seq::<StreamEvent>::empty(),
    decreases events.len(),
{
    if events.len() > 0 {
        lemma_connections_only_grow(events.drop_last(), events.last());
        lemma_unborn_hears_nothing(events.drop_last(), i);
    }
}

/// No step of a service takes a connection away.
proof fn lemma_connections_only_grow(events: Seq<ServiceEvent>, event: ServiceEvent)
    ensures
        service_after(events).connections.len() <= service_next(
            service_after(events),
            event,
        ).connections.len(),
{
}

} // verus!
