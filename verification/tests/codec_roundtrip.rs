use chilsonite::codec::{encode_payload, decode_payload};
use chilsonite::protocol::Payload;
use base64::Engine;

fn roundtrip(p: Payload) -> Payload {
    let bytes = encode_payload(&p);
    decode_payload(bytes.as_slice()).expect("canonical bytes must decode")
}

#[test]
fn connect_request_roundtrip() {
    let p = Payload::ConnectRequest {
        request_id: "0192aeb7-89ab-7cde-8000-000000000001".to_string(),
        target_addr: "example.com".to_string(),
        target_port: 80,
        agent_id: None,
        address_type: 3,
    };
    assert_eq!(roundtrip(p.clone()), p);
}

#[test]
fn connect_request_roundtrip_with_agent_and_escapes() {
    let p = Payload::ConnectRequest {
        request_id: "id-1".to_string(),
        target_addr: "wei\u{00df}\"quote\\back\nnew".to_string(),
        target_port: 65535,
        agent_id: Some("agent_000000000001".to_string()),
        address_type: 1,
    };
    assert_eq!(roundtrip(p.clone()), p);
}

#[test]
fn connect_response_roundtrip() {
    let p = Payload::ConnectResponse { request_id: "r1".to_string(), success: true };
    assert_eq!(roundtrip(p.clone()), p);
    let q = Payload::ConnectResponse { request_id: "r2".to_string(), success: false };
    assert_eq!(roundtrip(q.clone()), q);
}

#[test]
fn data_chunk_roundtrip() {
    let p = Payload::DataRequestChunk {
        request_id: "r1".to_string(),
        chunk_id: 1,
        data: "aGVsbG8=".to_string(),
    };
    assert_eq!(roundtrip(p.clone()), p);
    let q = Payload::DataResponseChunk {
        request_id: "r1".to_string(),
        chunk_id: 4294967295,
        data: String::new(),
    };
    assert_eq!(roundtrip(q.clone()), q);
}

#[test]
fn other_variants_roundtrip() {
    let ps = vec![
        Payload::InitResponse { success: true, message: None },
        Payload::InitResponse { success: false, message: Some("Agent ID must start with 'agent_'".to_string()) },
        Payload::InitError { error_message: "boom".to_string() },
        Payload::DataResponseTransferComplete {
            request_id: "r".to_string(),
            success: true,
            error_message: None,
        },
        Payload::DataRequestTransferComplete {
            request_id: "r".to_string(),
            success: false,
            error_message: Some("broken pipe".to_string()),
        },
        Payload::ClientDisconnect { request_id: "r".to_string() },
        Payload::CommandRequest { request_id: "r".to_string(), command: "ls -l".to_string() },
        Payload::CommandResponseChunk {
            request_id: "r".to_string(),
            chunk_id: 2,
            stream_type: 2,
            data: "YQ==".to_string(),
        },
        Payload::CommandResponseTransferComplete {
            request_id: "r".to_string(),
            success: false,
            exit_code: Some(-3),
            error_message: Some("line1\nline2".to_string()),
        },
        Payload::CommandResponseTransferComplete {
            request_id: "r".to_string(),
            success: true,
            exit_code: None,
            error_message: None,
        },
    ];
    for p in ps {
        assert_eq!(roundtrip(p.clone()), p);
    }
}

#[test]
fn init_request_roundtrip() {
    let p = Payload::InitRequest {
        agent_id: "agent_abcdef123456".to_string(),
        ip: "203.0.113.9".to_string(),
        remote_host: "Tokyo".to_string(),
        country_code: "JP".to_string(),
        city: "Chiyoda".to_string(),
        region: "Tokyo".to_string(),
        asn: "AS64500".to_string(),
        asn_org: "Example Networks".to_string(),
        os_type: "Linux".to_string(),
        os_version: "6.1".to_string(),
        hostname: "box".to_string(),
        kernel_version: "6.1.0".to_string(),
        username: "user".to_string(),
    };
    assert_eq!(roundtrip(p.clone()), p);
}

#[test]
fn encoded_form_is_the_documented_json() {
    let p = Payload::ConnectResponse { request_id: "r1".to_string(), success: true };
    let bytes = encode_payload(&p);
    assert_eq!(
        String::from_utf8(bytes).unwrap(),
        "{\"type\":\"connect-response\",\"request_id\":\"r1\",\"success\":true}"
    );
    let q = Payload::ClientDisconnect { request_id: "a\"b".to_string() };
    assert_eq!(
        String::from_utf8(encode_payload(&q)).unwrap(),
        "{\"type\":\"client-disconnect\",\"request_id\":\"a\\\"b\"}"
    );
}

#[test]
fn decoder_accepts_canonical_text_and_rejects_noise() {
    let text = "{\"type\":\"connect-request\",\"request_id\":\"r\",\"target_addr\":\"example.com\",\"target_port\":443,\"agent_id\":null,\"address_type\":3}";
    let p = decode_payload(text.as_bytes()).expect("decodes");
    assert_eq!(
        p,
        Payload::ConnectRequest {
            request_id: "r".to_string(),
            target_addr: "example.com".to_string(),
            target_port: 443,
            agent_id: None,
            address_type: 3,
        }
    );
    assert_eq!(decode_payload(b"not json"), None);
    assert_eq!(decode_payload(b"{\"type\":\"unknown-kind\",\"x\":1}"), None);
    assert_eq!(decode_payload(b""), None);
}

#[test]
fn control_bytes_escape_as_u00_sequences() {
    let p = Payload::CommandRequest {
        request_id: "r".to_string(),
        command: "a\u{1}b".to_string(),
    };
    let text = String::from_utf8(encode_payload(&p)).unwrap();
    assert!(text.contains("a\\u0001b"));
    assert_eq!(roundtrip(p.clone()), p);
}

#[test]
fn chunk_data_field_is_standard_base64() {
    // The chunk builder must agree with the base64 crate's standard engine.
    let mut cs = chilsonite::chunk::ChunkStream::new("r1".to_string());
    let payload = cs.next_request_chunk(b"hello".as_slice());
    match payload {
        Payload::DataRequestChunk { request_id, chunk_id, data } => {
            assert_eq!(request_id, "r1");
            assert_eq!(chunk_id, 1);
            assert_eq!(data, base64::engine::general_purpose::STANDARD.encode(b"hello"));
            assert_eq!(data, "aGVsbG8=");
        },
        _ => panic!("wrong variant"),
    }
}
