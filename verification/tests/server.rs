use responder::server::{
    Directive, Server, ServerEvent, ServiceLoop, EXIT_FATAL, EXIT_OK,
};

#[test]
fn exit_codes() {
    assert_eq!(EXIT_OK, 0);
    assert_ne!(EXIT_FATAL, 0);
}

#[test]
fn server_starts_with_both_loops_running() {
    let server = Server::new();
    assert!(server.is_running(ServiceLoop::Datagram));
    assert!(server.is_running(ServiceLoop::Acceptor));
    assert_eq!(server.exit_status(), None);
}

#[test]
fn datagram_failure_is_fatal_and_cancels_the_acceptor() {
    let mut server = Server::new();
    assert_eq!(
        server.step(ServerEvent::LoopFailed(ServiceLoop::Datagram)),
        Directive::Cancel(ServiceLoop::Acceptor)
    );
    assert_eq!(server.exit_status(), Some(EXIT_FATAL));
    assert!(!server.is_running(ServiceLoop::Datagram));
    assert!(server.is_running(ServiceLoop::Acceptor));
}

#[test]
fn acceptor_failure_is_fatal_and_cancels_the_datagram_loop() {
    let mut server = Server::new();
    assert_eq!(
        server.step(ServerEvent::LoopFailed(ServiceLoop::Acceptor)),
        Directive::Cancel(ServiceLoop::Datagram)
    );
    assert_eq!(server.exit_status(), Some(EXIT_FATAL));
    assert_eq!(
        server.step(ServerEvent::LoopStopped(ServiceLoop::Datagram)),
        Directive::Nothing
    );
    assert_eq!(server.exit_status(), Some(EXIT_FATAL));
}

#[test]
fn graceful_shutdown_exits_with_zero_once_both_loops_have_ended() {
    for order in [
        [ServiceLoop::Datagram, ServiceLoop::Acceptor],
        [ServiceLoop::Acceptor, ServiceLoop::Datagram],
    ] {
        let mut server = Server::new();
        assert_eq!(server.step(ServerEvent::ShutdownRequested), Directive::Shutdown);
        assert_eq!(server.exit_status(), None);
        assert_eq!(server.step(ServerEvent::LoopStopped(order[0])), Directive::Nothing);
        assert_eq!(server.exit_status(), None);
        assert!(!server.is_running(order[0]));
        assert!(server.is_running(order[1]));
        assert_eq!(server.step(ServerEvent::LoopStopped(order[1])), Directive::Nothing);
        assert_eq!(server.exit_status(), Some(EXIT_OK));
    }
}

#[test]
fn failure_during_shutdown_is_still_fatal() {
    let mut server = Server::new();
    server.step(ServerEvent::ShutdownRequested);
    server.step(ServerEvent::LoopStopped(ServiceLoop::Acceptor));
    assert_eq!(
        server.step(ServerEvent::LoopFailed(ServiceLoop::Datagram)),
        Directive::Nothing
    );
    assert_eq!(server.exit_status(), Some(EXIT_FATAL));
}

#[test]
fn failure_is_never_undone() {
    let mut server = Server::new();
    server.step(ServerEvent::LoopFailed(ServiceLoop::Datagram));
    for event in [
        ServerEvent::ShutdownRequested,
        ServerEvent::LoopStopped(ServiceLoop::Acceptor),
        ServerEvent::LoopStopped(ServiceLoop::Datagram),
        ServerEvent::LoopFailed(ServiceLoop::Datagram),
        ServerEvent::LoopFailed(ServiceLoop::Acceptor),
    ] {
        assert_eq!(server.step(event), Directive::Nothing);
        assert_eq!(server.exit_status(), Some(EXIT_FATAL));
    }
}

#[test]
fn repeated_shutdown_request_is_passed_on_while_a_loop_runs() {
    let mut server = Server::new();
    assert_eq!(server.step(ServerEvent::ShutdownRequested), Directive::Shutdown);
    assert_eq!(server.step(ServerEvent::ShutdownRequested), Directive::Shutdown);
    server.step(ServerEvent::LoopStopped(ServiceLoop::Datagram));
    assert_eq!(server.step(ServerEvent::ShutdownRequested), Directive::Shutdown);
    server.step(ServerEvent::LoopStopped(ServiceLoop::Acceptor));
    assert_eq!(server.step(ServerEvent::ShutdownRequested), Directive::Nothing);
    assert_eq!(server.exit_status(), Some(EXIT_OK));
}

#[test]
fn failure_of_a_loop_that_has_ended_is_ignored() {
    let mut server = Server::new();
    server.step(ServerEvent::ShutdownRequested);
    server.step(ServerEvent::LoopStopped(ServiceLoop::Datagram));
    assert_eq!(
        server.step(ServerEvent::LoopFailed(ServiceLoop::Datagram)),
        Directive::Nothing
    );
    assert_eq!(server.exit_status(), None);
    server.step(ServerEvent::LoopStopped(ServiceLoop::Acceptor));
    assert_eq!(server.exit_status(), Some(EXIT_OK));
}
