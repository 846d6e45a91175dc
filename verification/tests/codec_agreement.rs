use bytes::{Bytes, BytesMut};
use responder::frame::{decode_stream, encode_frame, FrameReader};
use tokio_util::codec::{Decoder, Encoder, LengthDelimitedCodec};

fn codec() -> LengthDelimitedCodec {
    LengthDelimitedCodec::builder()
        .length_field_length(2)
        .new_codec()
}

fn payloads() -> Vec<Vec<u8>> {
    let mut all = vec![
        Vec::new(),
        b"hello".to_vec(),
        vec![0u8; 255],
        vec![1u8; 256],
        vec![2u8; 257],
        vec![3u8; 65535],
    ];
    all.push((0..5000).map(|i| (i * 7 % 256) as u8).collect());
    all
}

#[test]
fn encode_frame_agrees_with_the_length_delimited_codec() {
    let mut codec = codec();
    for payload in payloads() {
        let mut expected = BytesMut::new();
        codec
            .encode(Bytes::from(payload.clone()), &mut expected)
            .unwrap();
        assert_eq!(encode_frame(&payload).unwrap(), expected.to_vec());
    }
}

#[test]
fn both_refuse_a_payload_of_65536_bytes() {
    let payload = vec![0u8; 65536];
    let mut out = BytesMut::new();
    assert!(codec().encode(Bytes::from(payload.clone()), &mut out).is_err());
    assert!(encode_frame(&payload).is_err());
}

#[test]
fn frame_reader_agrees_with_the_length_delimited_codec() {
    let mut wire = Vec::new();
    for payload in payloads() {
        wire.extend(encode_frame(&payload).unwrap());
    }
    for chunk in [1usize, 2, 3, 100, 4096, 70000] {
        let mut codec = codec();
        let mut theirs = BytesMut::new();
        let mut reader = FrameReader::new();
        for piece in wire.chunks(chunk) {
            theirs.extend_from_slice(piece);
            reader.push(piece);
            loop {
                let expected = codec.decode(&mut theirs).unwrap().map(|frame| frame.to_vec());
                let ours = reader.next_frame();
                assert_eq!(ours, expected);
                if ours.is_none() {
                    break;
                }
            }
        }
        assert_eq!(reader.buffered(), 0);
        assert!(theirs.is_empty());
    }
}

#[test]
fn decode_stream_agrees_with_the_length_delimited_codec() {
    let mut wire = Vec::new();
    for payload in payloads() {
        wire.extend(encode_frame(&payload).unwrap());
    }
    let mut codec = codec();
    let mut theirs = BytesMut::from(&wire[..]);
    let mut expected = Vec::new();
    while let Some(frame) = codec.decode(&mut theirs).unwrap() {
        expected.push(frame.to_vec());
    }
    let (frames, end) = decode_stream(&wire);
    assert_eq!(frames, expected);
    assert_eq!(frames, payloads());
    assert_eq!(end, Ok(()));
}
