use responder::datagram::{DatagramAction, DatagramChannel, DatagramEvent, DatagramNotice};
use responder::frame::{decode_stream, encode_frame};
use responder::stream::{StreamAction, StreamConnection, StreamEvent};

/// A query of the fake collaborator: a name, and whether recursion is wanted.
#[derive(Clone, Debug, PartialEq, Eq)]
struct Query {
    name: String,
    recurse: bool,
}

/// A reply of the fake collaborator.
#[derive(Clone, Debug, PartialEq, Eq)]
struct Reply {
    name: String,
    asker: u16,
}

fn encode_query(query: &Query) -> Vec<u8> {
    let mut bytes = vec![query.recurse as u8, query.name.len() as u8];
    bytes.extend_from_slice(query.name.as_bytes());
    bytes
}

fn decode(bytes: &[u8]) -> Result<Query, String> {
    if bytes.len() < 2 {
        return Err(format!("{} bytes are no query", bytes.len()));
    }
    if bytes[0] > 1 {
        return Err(format!("bad flag {}", bytes[0]));
    }
    if bytes.len() != 2 + bytes[1] as usize {
        return Err(format!("bad length {}", bytes[1]));
    }
    match String::from_utf8(bytes[2..].to_vec()) {
        Ok(name) => Ok(Query { name, recurse: bytes[0] == 1 }),
        Err(e) => Err(format!("{}", e)),
    }
}

fn build_reply(query: Query, peer: &u16) -> Reply {
    Reply { name: query.name, asker: *peer }
}

fn encode(reply: Reply) -> Result<Vec<u8>, String> {
    Ok(format!("{} asked by {}", reply.name, reply.asker).into_bytes())
}

fn queries() -> Vec<Query> {
    vec![
        Query { name: String::new(), recurse: false },
        Query { name: "example.org".to_string(), recurse: true },
        Query { name: "x".repeat(255), recurse: false },
        Query { name: "b\u{fc}cher.example".to_string(), recurse: true },
    ]
}

#[test]
fn fake_decode_undoes_fake_encode() {
    for query in queries() {
        assert_eq!(decode(&encode_query(&query)), Ok(query));
    }
}

#[test]
fn fake_decode_rejects_what_is_no_query() {
    for bytes in [&b""[..], &[1], &[2, 0], &[0, 3, b'a'], &[0, 1, 0xff]] {
        assert!(decode(bytes).is_err());
    }
}

#[test]
fn query_survives_the_datagram_channel() {
    for query in queries() {
        let mut channel = DatagramChannel::new();
        let sent = encode_query(&query);
        channel.step(DatagramEvent::Datagram { payload: &sent, from: 4242u16 });
        let decoded = match channel.action() {
            DatagramAction::Decode(payload) => decode(payload).unwrap(),
            other => panic!("unexpected action {:?}", other),
        };
        assert_eq!(decoded, query);
        channel.step(DatagramEvent::Decoded);
        let reply = match channel.action() {
            DatagramAction::BuildReply { peer } => encode(build_reply(decoded, peer)).unwrap(),
            other => panic!("unexpected action {:?}", other),
        };
        channel.step(DatagramEvent::Reply(&reply));
        let expected = format!("{} asked by 4242", query.name).into_bytes();
        assert_eq!(
            channel.action(),
            DatagramAction::Send { to: &4242, bytes: &expected }
        );
        assert_eq!(
            channel.step(DatagramEvent::Sent(expected.len())),
            DatagramNotice::ReplySent
        );
    }
}

#[test]
fn queries_survive_framing_and_the_stream_connection() {
    let mut wire = Vec::new();
    for query in queries() {
        wire.extend(encode_frame(&encode_query(&query)).unwrap());
    }
    let mut conn = StreamConnection::new();
    let mut seen = Vec::new();
    let mut written = Vec::new();
    let mut pieces = wire.chunks(13);
    let mut pending: Option<Query> = None;
    loop {
        match conn.action() {
            StreamAction::Read => match pieces.next() {
                Some(piece) => {
                    let piece = piece.to_vec();
                    conn.step(StreamEvent::Bytes(&piece));
                }
                None => {
                    conn.step(StreamEvent::EndOfStream);
                }
            },
            StreamAction::Decode(payload) => {
                let query = decode(payload).unwrap();
                seen.push(query.clone());
                pending = Some(query);
                conn.step(StreamEvent::Decoded);
            }
            StreamAction::BuildReply => {
                let reply = encode(build_reply(pending.take().unwrap(), &7)).unwrap();
                conn.step(StreamEvent::Reply(&reply));
            }
            StreamAction::Write(bytes) => {
                let n = bytes.len().min(10);
                written.extend_from_slice(&bytes[..n]);
                conn.step(StreamEvent::Written(n));
            }
            StreamAction::Close(_) => break,
        }
    }
    assert_eq!(seen, queries());
    let (replies, end) = decode_stream(&written);
    assert_eq!(end, Ok(()));
    let expected: Vec<Vec<u8>> = queries()
        .into_iter()
        .map(|q| format!("{} asked by 7", q.name).into_bytes())
        .collect();
    assert_eq!(replies, expected);
}
