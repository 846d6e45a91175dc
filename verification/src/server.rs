//! The server: two loops side by side, and the first fatal failure of either
//! ends both.

use vstd::prelude::*;

verus! {

/// Exit status of a server that was shut down.
pub const EXIT_OK: u8 = 0;

/// Exit status of a server one of whose loops failed.
pub const EXIT_FATAL: u8 = 1;

/// The two loops of a server.
#[derive(Clone, Copy, Debug, PartialEq, Eq, Structural)]
pub enum ServiceLoop {
    /// The loop of the datagram channel.
    Datagram,
    /// The loop of the connection acceptor.
    Acceptor,
}

/// What the server is told.
#[derive(Clone, Copy, Debug, PartialEq, Eq, Structural)]
pub enum ServerEvent {
    /// The shutdown signal arrived.
    ShutdownRequested,
    /// This loop has ended after it was shut down or cancelled.
    LoopStopped(ServiceLoop),
    /// This loop has ended with a fatal error: it could not bind, receive
    /// or accept.
    LoopFailed(ServiceLoop),
}

/// What the server has its caller do on an event.
#[derive(Clone, Copy, Debug, PartialEq, Eq, Structural)]
pub enum Directive {
    /// Nothing.
    Nothing,
    /// Tell both loops to shut down: no new datagram, no new connection;
    /// exchanges in hand finish.
    Shutdown,
    /// Cancel this loop, as far as that can be done: the other has failed.
    Cancel(ServiceLoop),
}

/// The state of a server as contracts see it.
pub struct ServerModel {
    /// Whether the datagram loop is running.
    pub datagram_running: bool,
    /// Whether the acceptor loop is running.
    pub acceptor_running: bool,
    /// Whether a loop has failed.
    pub failed: bool,
}

/// A server whose two loops have just been started.
pub open spec fn started() -> ServerModel {
    ServerModel { datagram_running: true, acceptor_running: true, failed: false }
}

/// The loop that is not `which`.
pub open spec fn other(which: ServiceLoop) -> ServiceLoop {
    match which {
        ServiceLoop::Datagram => ServiceLoop::Acceptor,
        ServiceLoop::Acceptor => ServiceLoop::Datagram,
    }
}

/// Whether the loop `which` is running in state `m`.
pub open spec fn running(m: ServerModel, which: ServiceLoop) -> bool {
    match which {
        ServiceLoop::Datagram => m.datagram_running,
        ServiceLoop::Acceptor => m.acceptor_running,
    }
}

/// The state `m` with the loop `which` ended.
pub open spec fn ended(m: ServerModel, which: ServiceLoop) -> ServerModel {
    match which {
        ServiceLoop::Datagram => ServerModel { datagram_running: false, ..m },
        ServiceLoop::Acceptor => ServerModel { acceptor_running: false, ..m },
    }
}

/// The state that follows `m` on `event`. The end of a loop that is not
/// running changes nothing.
pub open spec fn next(m: ServerModel, event: ServerEvent) -> ServerModel {
    match event {
        ServerEvent::ShutdownRequested => m,
        ServerEvent::LoopStopped(which) => ended(m, which),
        ServerEvent::LoopFailed(which) => if running(m, which) {
            ServerModel { failed: true, ..ended(m, which) }
        } else {
            m
        },
    }
}

/// What the server has its caller do on `event` in state `m`.
pub open spec fn directive(m: ServerModel, event: ServerEvent) -> Directive {
    match event {
        ServerEvent::ShutdownRequested => if !m.failed && (m.datagram_running
            || m.acceptor_running) {
            Directive::Shutdown
        } else {
            Directive::Nothing
        },
        ServerEvent::LoopStopped(_) => Directive::Nothing,
        ServerEvent::LoopFailed(which) => if running(m, which) && running(m, other(which)) {
            Directive::Cancel(other(which))
        } else {
            Directive::Nothing
        },
    }
}

/// The exit status the process owes in state `m`: `EXIT_FATAL` as soon as a
/// loop has failed, `EXIT_OK` once both loops have ended and none has
/// failed, none while the server is to go on.
pub open spec fn exit_status(m: ServerModel) -> Option<u8> {
    if m.failed {
        Some(EXIT_FATAL)
    } else if !m.datagram_running && !m.acceptor_running {
        Some(EXIT_OK)
    } else {
        None
    }
}

/// The server: it starts with both loops running and is told how they end.
#[derive(Debug)]
pub struct Server {
    datagram_running: bool,
    acceptor_running: bool,
    failed: bool,
}

impl View for Server {
    type V = ServerModel;

    closed spec fn view(&self) -> ServerModel {
        ServerModel {
            datagram_running: self.datagram_running,
            acceptor_running: self.acceptor_running,
            failed: self.failed,
        }
    }
}

impl Server {
    /// A server whose two loops have just been started.
    pub fn new() -> (server: Self)
        ensures
            server@ == started(),
    {
        Server { datagram_running: true, acceptor_running: true, failed: false }
    }

    /// Whether the loop `which` is running.
    pub fn is_running(&self, which: ServiceLoop) -> (yes: bool)
        ensures
            yes == running(self@, which),
    {
        match which {
            ServiceLoop::Datagram => self.datagram_running,
            ServiceLoop::Acceptor => self.acceptor_running,
        }
    }

    /// Takes in an event and says what to do about it.
    pub fn step(&mut self, event: ServerEvent) -> (todo: Directive)
        ensures
            final(self)@ == next(old(self)@, event),
            todo == directive(old(self)@, event),
    {
        match event {
            ServerEvent::ShutdownRequested => {
                if !self.failed && (self.datagram_running || self.acceptor_running) {
                    Directive::Shutdown
                } else {
                    Directive::Nothing
                }
            },
            ServerEvent::LoopStopped(which) => {
                self.end(which);
                Directive::Nothing
            },
            ServerEvent::LoopFailed(which) => {
                if !self.is_running(which) {
                    return Directive::Nothing;
                }
                self.end(which);
                self.failed = true;
                let rest: ServiceLoop = match which {
                    ServiceLoop::Datagram => ServiceLoop::Acceptor,
                    ServiceLoop::Acceptor => ServiceLoop::Datagram,
                };
                if self.is_running(rest) {
                    Directive::Cancel(rest)
                } else {
                    Directive::Nothing
                }
            },
        }
    }

    /// The exit status the process owes now, if the server is to end.
    pub fn exit_status(&self) -> (status: Option<u8>)
        ensures
            status == exit_status(self@),
    {
        if self.failed {
            Some(EXIT_FATAL)
        } else if !self.datagram_running && !self.acceptor_running {
            Some(EXIT_OK)
        } else {
            None
        }
    }

    fn end(&mut self, which: ServiceLoop)
        ensures
            final(self)@ == ended(old(self)@, which),
    {
        match which {
            ServiceLoop::Datagram => {
                self.datagram_running = false;
            },
            ServiceLoop::Acceptor => {
                self.acceptor_running = false;
            },
        }
    }
}

/// The state of a server after `events`, counted from `started()`.
pub open spec fn state_after(events: Seq<ServerEvent>) -> ServerModel
    decreases events.len(),
{
    if events.len() == 0 {
        started()
    } else {
        next(state_after(events.drop_last()), events.last())
    }
}

/// Whether a running loop failed at some point of `events`.
pub open spec fn some_loop_failed(events: Seq<ServerEvent>) -> bool {
    exists|i: int|
        0 <= i < events.len() && (#[trigger] events[i]) is LoopFailed && running(
            state_after(events.take(i)),
            events[i]->LoopFailed_0,
        )
}

/// The first fatal failure is fatal to the server: when a running loop
/// fails, the exit status is `EXIT_FATAL` at once, and the other loop, if
/// it runs, is cancelled.
pub proof fn lemma_first_failure_is_fatal(m: ServerModel, which: ServiceLoop)
    requires
        running(m, which),
    ensures
        exit_status(next(m, ServerEvent::LoopFailed(which))) == Some(EXIT_FATAL),
        running(m, other(which)) ==> directive(m, ServerEvent::LoopFailed(which))
            == Directive::Cancel(other(which)),
        !running(next(m, ServerEvent::LoopFailed(which)), which),
{
}

/// Nothing undoes a failure: once a loop has failed the exit status stays
/// `EXIT_FATAL`, and no loop starts again.
pub proof fn lemma_failure_is_final(m: ServerModel, event: ServerEvent)
    ensures
        m.failed ==> exit_status(next(m, event)) == Some(EXIT_FATAL),
        forall|which: ServiceLoop| !running(m, which) ==> !running(next(m, event), which),
{
}

/// The exit status after any events: `EXIT_FATAL` exactly when a running
/// loop failed among them; `EXIT_OK` exactly when none did and both loops
/// have ended.
pub proof fn lemma_exit_status(events: Seq<ServerEvent>)
    ensures
        exit_status(state_after(events)) == Some(EXIT_FATAL) <==> some_loop_failed(events),
        exit_status(state_after(events)) == Some(EXIT_OK) <==> !some_loop_failed(events)
            && !state_after(events).datagram_running && !state_after(events).acceptor_running,
    decreases events.len(),
{
    if events.len() > 0 {
        let before = events.drop_last();
        lemma_exit_status(before);
        let last: int = events.len() - 1;
        assert(events.take(last) =~= before);
        if some_loop_failed(before) {
            let i: int = choose|i: int|
                0 <= i < before.len() && (#[trigger] before[i]) is LoopFailed && running(
                    state_after(before.take(i)),
                    before[i]->LoopFailed_0,
                );
            assert(before.take(i) =~= events.take(i));
        }
        if some_loop_failed(events) {
            let i: int = choose|i: int|
                0 <= i < events.len() && (#[trigger] events[i]) is LoopFailed && running(
                    state_after(events.take(i)),
                    events[i]->LoopFailed_0,
                );
            if i < last {
                assert(before.take(i) =~= events.take(i));
                assert(events[i] == before[i]);
            }
        }
    }
}

} // verus!
