use responder::acceptor::{AcceptEvent, AcceptorAction, ConnectionAcceptor};
use responder::frame::encode_frame;
use responder::stream::{Notice, Phase, StreamAction, StreamConnection, StreamEvent};

#[test]
fn new_acceptor_accepts() {
    let acceptor = ConnectionAcceptor::new();
    assert_eq!(acceptor.action(), AcceptorAction::Accept);
    assert_eq!(acceptor.accepted(), 0);
}

#[test]
fn every_connection_gets_a_fresh_handler_and_accepting_goes_on() {
    let mut acceptor = ConnectionAcceptor::new();
    for n in 1..=5u64 {
        let conn = acceptor.step(AcceptEvent::Connection).unwrap();
        assert_eq!(conn.phase(), Phase::Reading);
        assert_eq!(conn.action(), StreamAction::Read);
        assert_eq!(acceptor.accepted(), n);
        assert_eq!(acceptor.action(), AcceptorAction::Accept);
    }
}

#[test]
fn accept_failure_is_fatal() {
    let mut acceptor = ConnectionAcceptor::new();
    assert!(acceptor.step(AcceptEvent::Connection).is_some());
    assert!(acceptor.step(AcceptEvent::AcceptFailed).is_none());
    assert_eq!(acceptor.action(), AcceptorAction::Fail);
    assert!(acceptor.step(AcceptEvent::Connection).is_none());
    assert!(acceptor.step(AcceptEvent::Shutdown).is_none());
    assert_eq!(acceptor.action(), AcceptorAction::Fail);
    assert_eq!(acceptor.accepted(), 1);
}

#[test]
fn shutdown_stops_accepting() {
    let mut acceptor = ConnectionAcceptor::new();
    assert!(acceptor.step(AcceptEvent::Shutdown).is_none());
    assert_eq!(acceptor.action(), AcceptorAction::Stop);
    assert!(acceptor.step(AcceptEvent::Connection).is_none());
    assert!(acceptor.step(AcceptEvent::AcceptFailed).is_none());
    assert_eq!(acceptor.action(), AcceptorAction::Stop);
    assert_eq!(acceptor.accepted(), 0);
}

#[test]
fn stalled_connection_does_not_hold_up_the_next() {
    let mut acceptor = ConnectionAcceptor::new();

    // The first peer connects, sends part of a frame and then nothing.
    let mut stalled: StreamConnection = acceptor.step(AcceptEvent::Connection).unwrap();
    stalled.step(StreamEvent::Bytes(&[0x00, 0x05, b'h']));
    assert_eq!(stalled.action(), StreamAction::Read);

    // The acceptor is ready for the next peer at once.
    assert_eq!(acceptor.action(), AcceptorAction::Accept);
    let mut second = acceptor.step(AcceptEvent::Connection).unwrap();
    assert_eq!(acceptor.action(), AcceptorAction::Accept);

    // The second peer is served in full while the first still stalls.
    second.step(StreamEvent::Bytes(&encode_frame(b"ping").unwrap()));
    assert_eq!(second.action(), StreamAction::Decode(b"ping"));
    second.step(StreamEvent::Decoded);
    second.step(StreamEvent::Reply(b"pong"));
    assert_eq!(
        second.action(),
        StreamAction::Write(&[0, 4, b'p', b'o', b'n', b'g'])
    );
    assert_eq!(second.step(StreamEvent::Written(6)), Notice::ReplySent);
    second.step(StreamEvent::EndOfStream);
    assert!(second.is_closed());

    // Nothing of this has touched the first.
    assert_eq!(stalled.phase(), Phase::Reading);
    assert_eq!(stalled.action(), StreamAction::Read);
    stalled.step(StreamEvent::Bytes(b"ello"));
    assert_eq!(stalled.action(), StreamAction::Decode(b"hello"));
}

#[test]
fn failure_of_one_connection_leaves_acceptor_and_others_alone() {
    let mut acceptor = ConnectionAcceptor::new();
    let mut first = acceptor.step(AcceptEvent::Connection).unwrap();
    let mut second = acceptor.step(AcceptEvent::Connection).unwrap();
    second.step(StreamEvent::Bytes(&encode_frame(b"ping").unwrap()));

    first.step(StreamEvent::ReadFailed);
    assert!(first.is_closed());

    assert_eq!(acceptor.action(), AcceptorAction::Accept);
    assert_eq!(acceptor.accepted(), 2);
    assert_eq!(second.action(), StreamAction::Decode(b"ping"));
    assert!(acceptor.step(AcceptEvent::Connection).is_some());
}
