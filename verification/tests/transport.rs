//! The WebSocket seam: payload messages round-trip through the real
//! WebSocket crate, and the reader's interpretation is exact.

use toy_rpc::message::Error;
use toy_rpc::transport::{
    close_message, interpret_payload, read_payload_event, write_payload_message, WsPayload,
};

#[test]
fn binary_message_round_trips() {
    // Would fail if either wrapper handed something else back.
    let message = write_payload_message(b"frame payload".to_vec());
    match read_payload_event(message) {
        Some(Ok(bytes)) => assert_eq!(bytes, b"frame payload".to_vec()),
        _ => panic!("a binary message carries its payload"),
    }
}

#[test]
fn empty_binary_message_round_trips() {
    let message = write_payload_message(Vec::new());
    match read_payload_event(message) {
        Some(Ok(bytes)) => assert_eq!(bytes, Vec::<u8>::new()),
        _ => panic!("an empty payload is still a payload"),
    }
}

#[test]
fn close_ends_the_stream() {
    assert!(read_payload_event(close_message()).is_none());
}

#[test]
fn unexpected_message_is_a_transport_error() {
    match interpret_payload(WsPayload::Other) {
        Some(Err(Error::IoError(_))) => {}
        _ => panic!("anything but binary or close is a transport error"),
    }
    assert!(interpret_payload(WsPayload::Close).is_none());
    match interpret_payload(WsPayload::Binary(vec![1, 2, 3])) {
        Some(Ok(b)) => assert_eq!(b, vec![1, 2, 3]),
        _ => panic!("binary payloads pass through"),
    }
}
