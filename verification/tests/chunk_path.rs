use chilsonite::chunk::{ChunkStream, decode_chunk_data};
use chilsonite::protocol::Payload;
use chilsonite::codec::{encode_payload, decode_payload};

#[test]
fn chunk_ids_count_from_one() {
    let mut cs = ChunkStream::new("req".to_string());
    for expected in 1u32..=5 {
        let p = cs.next_response_chunk(&[1, 2, 3]);
        match p {
            Payload::DataResponseChunk { chunk_id, .. } => assert_eq!(chunk_id, expected),
            _ => panic!("wrong variant"),
        }
    }
}

#[test]
fn command_chunk_counter_is_shared_across_streams() {
    let mut cs = ChunkStream::new("req".to_string());
    let p1 = cs.next_command_chunk(1, b"out".as_slice());
    let p2 = cs.next_command_chunk(2, b"err".as_slice());
    match (p1, p2) {
        (
            Payload::CommandResponseChunk { chunk_id: c1, stream_type: s1, .. },
            Payload::CommandResponseChunk { chunk_id: c2, stream_type: s2, .. },
        ) => {
            assert_eq!((c1, s1), (1, 1));
            assert_eq!((c2, s2), (2, 2));
        },
        _ => panic!("wrong variants"),
    }
}

#[test]
fn bytes_round_trip_through_chunk_and_wire() {
    // client bytes -> chunk -> JSON -> wire -> JSON -> chunk -> bytes
    let original: Vec<u8> = (0u16..1024).map(|i| (i % 251) as u8).collect();
    assert_eq!(original.len(), 1024);
    let mut cs = ChunkStream::new("req-7".to_string());
    let chunk = cs.next_request_chunk(original.as_slice());
    let wire = encode_payload(&chunk);
    let back = decode_payload(wire.as_slice()).expect("decodes");
    match back {
        Payload::DataRequestChunk { request_id, chunk_id, data } => {
            assert_eq!(request_id, "req-7");
            assert_eq!(chunk_id, 1);
            let bytes = decode_chunk_data(data.as_str()).expect("base64 decodes");
            assert_eq!(bytes, original);
        },
        _ => panic!("wrong variant"),
    }
}

#[test]
fn empty_and_binary_chunks_round_trip() {
    for case in [&b""[..], &b"\x00\xff\x7f\x80"[..], &b"text"[..]] {
        let mut cs = ChunkStream::new("r".to_string());
        let chunk = cs.next_response_chunk(case);
        match chunk {
            Payload::DataResponseChunk { data, .. } => {
                assert_eq!(decode_chunk_data(data.as_str()).unwrap(), case);
            },
            _ => panic!("wrong variant"),
        }
    }
}

#[test]
fn invalid_base64_yields_nothing() {
    assert!(decode_chunk_data("!!!not base64!!!").is_none());
}
