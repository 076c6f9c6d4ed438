//! Round trips and edge cases of the wire codec: headers, error bodies,
//! numerals, frames, and the cancellation token.

use toy_rpc::digits::{encode_u64, parse_u64};
use toy_rpc::codec::{decode_u64_body, encode_u64_body};
use toy_rpc::errmsg::{decode_error_message, encode_error_message};
use toy_rpc::frame::{read_frame, read_message, write_frame, write_message};
use toy_rpc::message::{ErrorMessage, RequestHeader, ResponseHeader};
use toy_rpc::routing::{classify, make_cancel_token, validate_cancel_token, RequestKind};
use toy_rpc::wire::{
    decode_request_header, decode_response_header, decode_string_body, encode_request_header,
    encode_response_header, encode_string_body,
};

fn bytes(s: &str) -> Vec<u8> {
    s.as_bytes().to_vec()
}

#[test]
fn json_request() {
    let header = RequestHeader {
        id: 0,
        service_method: "service.method".to_string().into_bytes(),
    };
    let body = {
        let mut obj = serde_json::Map::new();
        obj.insert("a".to_string(), serde_json::Value::from(3u32));
        obj.insert("b".to_string(), serde_json::Value::from(6u32));
        serde_json::Value::Object(obj)
    };

    let header_buf = String::from_utf8(encode_request_header(&header)).unwrap();
    let body_buf = serde_json::to_string(&body).unwrap();

    println!("header:\n{}", header_buf);
    println!("body:\n{}", body_buf);
}

#[test]
fn request_header_matches_json_codec() {
    // The hand-written header encoder emits the same bytes serde_json
    // gives the equivalent two-field object.
    let header = RequestHeader {
        id: 42,
        service_method: bytes("Arith.add"),
    };
    let mine = encode_request_header(&header);

    let mut obj = serde_json::Map::new();
    obj.insert("id".to_string(), serde_json::Value::from(42u64));
    obj.insert(
        "service_method".to_string(),
        serde_json::Value::from("Arith.add"),
    );
    let theirs = serde_json::to_vec(&serde_json::Value::Object(obj)).unwrap();
    assert_eq!(mine, theirs);
}

#[test]
fn response_header_matches_json_codec() {
    let header = ResponseHeader { id: 7, is_error: true };
    let mine = encode_response_header(&header);

    let mut obj = serde_json::Map::new();
    obj.insert("id".to_string(), serde_json::Value::from(7u64));
    obj.insert("is_error".to_string(), serde_json::Value::from(true));
    let theirs = serde_json::to_vec(&serde_json::Value::Object(obj)).unwrap();
    assert_eq!(mine, theirs);
}

#[test]
fn request_header_round_trip() {
    for (id, name) in [
        (0u64, "a.b"),
        (1, "service.method"),
        (u64::MAX, "deep.dotted.name"),
        (17, "odd\"quote.and\\slash"),
        (3, ""),
    ] {
        let h = RequestHeader {
            id,
            service_method: bytes(name),
        };
        let encoded = encode_request_header(&h);
        let decoded = decode_request_header(&encoded).expect("header must decode");
        assert_eq!(decoded.id, id);
        assert_eq!(decoded.service_method, bytes(name));
    }
}

#[test]
fn response_header_round_trip() {
    for (id, is_error) in [(0u64, false), (5, true), (u64::MAX, false)] {
        let h = ResponseHeader { id, is_error };
        let encoded = encode_response_header(&h);
        let decoded = decode_response_header(&encoded).expect("header must decode");
        assert_eq!(decoded.id, id);
        assert_eq!(decoded.is_error, is_error);
    }
}

#[test]
fn malformed_headers_rejected() {
    assert!(decode_request_header(b"").is_none());
    assert!(decode_request_header(b"{\"id\":,\"service_method\":\"a.b\"}").is_none());
    // Leading zeros are not the canonical numeral.
    assert!(decode_request_header(b"{\"id\":007,\"service_method\":\"a.b\"}").is_none());
    // Trailing bytes after the closing brace.
    assert!(decode_request_header(b"{\"id\":1,\"service_method\":\"a.b\"}x").is_none());
    // A number beyond sixty-four bits.
    assert!(
        decode_request_header(b"{\"id\":18446744073709551616,\"service_method\":\"a\"}").is_none()
    );
    assert!(decode_response_header(b"{\"id\":1,\"is_error\":maybe}").is_none());
}

#[test]
fn error_message_round_trips() {
    let cases = vec![
        ErrorMessage::InvalidArgument,
        ErrorMessage::ServiceNotFound,
        ErrorMessage::MethodNotFound,
        ErrorMessage::ExecutionError(bytes("div by zero")),
        ErrorMessage::ExecutionError(bytes("with \"quotes\" and \\slashes\\")),
        ErrorMessage::Timeout(None),
        ErrorMessage::Timeout(Some(12)),
        ErrorMessage::Canceled(None),
        ErrorMessage::Canceled(Some(u64::MAX)),
    ];
    for m in cases {
        let encoded = encode_error_message(&m);
        let decoded = decode_error_message(&encoded).expect("error body must decode");
        let re_encoded = encode_error_message(&decoded);
        assert_eq!(encoded, re_encoded);
    }
}

#[test]
fn error_message_wire_text() {
    assert_eq!(
        encode_error_message(&ErrorMessage::ServiceNotFound),
        bytes("\"ServiceNotFound\"")
    );
    assert_eq!(
        encode_error_message(&ErrorMessage::ExecutionError(bytes("div by zero"))),
        bytes("{\"ExecutionError\":\"div by zero\"}")
    );
    assert_eq!(
        encode_error_message(&ErrorMessage::Timeout(Some(9))),
        bytes("{\"Timeout\":9}")
    );
}

#[test]
fn numerals_round_trip() {
    for v in [0u64, 1, 9, 10, 99, 12345, u64::MAX] {
        let d = encode_u64(v);
        assert_eq!(parse_u64(&d), Some(v));
    }
    assert_eq!(parse_u64(b""), None);
    assert_eq!(parse_u64(b"12x4"), None);
    assert_eq!(parse_u64(b"007"), Some(7));
    assert_eq!(parse_u64(b"18446744073709551615"), Some(u64::MAX));
    assert_eq!(parse_u64(b"18446744073709551616"), None);
}

#[test]
fn u64_body_through_json_codec() {
    // Would fail if the codec wrapper handed its argument back unchanged
    // in either direction.
    assert_eq!(encode_u64_body(12345), bytes("12345"));
    assert_eq!(encode_u64_body(0), bytes("0"));
    assert_eq!(decode_u64_body(b"12345"), Some(12345));
    assert_eq!(decode_u64_body(b"not a number"), None);
}

#[test]
fn frames_round_trip() {
    let mut out = Vec::new();
    write_frame(&mut out, b"hello");
    let (payload, next) = read_frame(&out, 0).expect("frame must read");
    assert_eq!(payload, bytes("hello"));
    assert_eq!(next, out.len());
}

#[test]
fn zero_length_body_round_trips() {
    let mut out = Vec::new();
    write_message(&mut out, b"header-bytes", b"");
    let (header, body, next) = read_message(&out, 0).expect("message must read");
    assert_eq!(header, bytes("header-bytes"));
    assert_eq!(body, Vec::<u8>::new());
    assert_eq!(next, out.len());
}

#[test]
fn truncated_frames_rejected() {
    let mut out = Vec::new();
    write_frame(&mut out, b"hello");
    assert!(read_frame(&out[..out.len() - 1], 0).is_none());
    assert!(read_frame(b"\x00\x00", 0).is_none());
}

#[test]
fn cancel_token_round_trip() {
    let token = make_cancel_token(77);
    assert_eq!(token, bytes("CANCEL.77"));
    assert!(validate_cancel_token(77, &token));
    assert!(!validate_cancel_token(78, &token));
    assert!(!validate_cancel_token(77, b"CANCEL."));
    assert!(!validate_cancel_token(77, b"OTHER.77"));
    // A forged token parses but authorizes only its own id.
    assert!(validate_cancel_token(7, b"CANCEL.007"));
}

#[test]
fn string_body_round_trip() {
    for text in ["CANCEL.5", "", "with \"quote", "back\\slash"] {
        let encoded = encode_string_body(text.as_bytes());
        let decoded = decode_string_body(&encoded).expect("string body must decode");
        assert_eq!(decoded, bytes(text));
    }
    assert!(decode_string_body(b"no quotes").is_none());
    assert!(decode_string_body(b"\"unterminated").is_none());
    assert!(decode_string_body(b"\"tail\"x").is_none());
}

#[test]
fn classify_reserved_names() {
    assert!(matches!(classify(b"CANCELLATION_TOKEN"), RequestKind::Cancel));
    assert!(matches!(classify(b"TIMEOUT_TOKEN"), RequestKind::TimeoutHint));
    assert!(matches!(classify(b"ACK_TOKEN"), RequestKind::Ack));
    match classify(b"PUBLISH_TOKEN.weather") {
        RequestKind::Publish { topic } => assert_eq!(topic, bytes("weather")),
        _ => panic!("expected a publish"),
    }
    match classify(b"SUBSCRIBE_TOKEN.weather") {
        RequestKind::Subscribe { topic } => assert_eq!(topic, bytes("weather")),
        _ => panic!("expected a subscribe"),
    }
    match classify(b"UNSUBSCRIBE_TOKEN.weather") {
        RequestKind::Unsubscribe { topic } => assert_eq!(topic, bytes("weather")),
        _ => panic!("expected an unsubscribe"),
    }
    match classify(b"Arith.add") {
        RequestKind::Call { service, method } => {
            assert_eq!(service, bytes("Arith"));
            assert_eq!(method, bytes("add"));
        },
        _ => panic!("expected a call"),
    }
    // The split takes the last dot.
    match classify(b"a.b.c") {
        RequestKind::Call { service, method } => {
            assert_eq!(service, bytes("a.b"));
            assert_eq!(method, bytes("c"));
        },
        _ => panic!("expected a call"),
    }
    assert!(matches!(classify(b"nodot"), RequestKind::Unrecognized));
}
