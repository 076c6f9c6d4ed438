//! The WebSocket transport seam. On a message transport every frame is one
//! binary message. The split halves own one direction each; reading and
//! sending stay with the surrounding task, while the decisions — what a
//! received message means, what leaves for a payload or a close — are
//! verified here against trusted wrappers around the WebSocket crate.

use vstd::prelude::*;
use crate::message::Error;

verus! {

/// Declares the WebSocket crate's message type so that signatures here can
/// carry its values through; the engine never looks inside one.
#[verifier::external_type_specification]
#[verifier::external_body]
pub struct ExWsMessage(tungstenite::Message);

/// A WebSocket connection around a duplex stream `S`, before it is split
/// into its two halves.
pub struct WebSocketConn<S> {
    /// The duplex stream underneath.
    pub inner: S,
}

impl<S> WebSocketConn<S> {
    /// Wrap a duplex stream.
    pub fn new(inner: S) -> (r: WebSocketConn<S>)
        ensures
            r == (WebSocketConn { inner }),
    {
        WebSocketConn { inner }
    }
}

/// The receiving half of a split connection.
pub struct StreamHalf<S> {
    /// The stream of inbound messages.
    pub inner: S,
}

impl<S> StreamHalf<S> {
    /// Wrap the receiving half.
    pub fn new(inner: S) -> (r: StreamHalf<S>)
        ensures
            r == (StreamHalf { inner }),
    {
        StreamHalf { inner }
    }
}

/// The sending half of a split connection.
pub struct SinkHalf<S> {
    /// The sink of outbound messages.
    pub inner: S,
}

impl<S> SinkHalf<S> {
    /// Wrap the sending half.
    pub fn new(inner: S) -> (r: SinkHalf<S>)
        ensures
            r == (SinkHalf { inner }),
    {
        SinkHalf { inner }
    }
}

/// What one inbound WebSocket message means to the frame protocol.
pub enum WsPayload {
    /// A binary message: one payload frame.
    Binary(Vec<u8>),
    /// The peer closed the connection.
    Close,
    /// Anything else — text, ping, pong, continuation.
    Other,
}

/// Ghost mirror of [`WsPayload`].
pub enum SpecWsPayload {
    /// A binary message carrying these bytes.
    Binary(Seq<u8>),
    /// The peer closed the connection.
    Close,
    /// Anything else.
    Other,
}

impl View for WsPayload {
    type V = SpecWsPayload;

    open spec fn view(&self) -> SpecWsPayload {
        match self {
            WsPayload::Binary(b) => SpecWsPayload::Binary(b@),
            WsPayload::Close => SpecWsPayload::Close,
            WsPayload::Other => SpecWsPayload::Other,
        }
    }
}

/// The binary WebSocket message that carries exactly these bytes; its
/// value depends on the bytes alone.
pub uninterp spec fn ws_binary_of(payload: Seq<u8>) -> tungstenite::Message;

/// The WebSocket close message carrying this optional close reason; its
/// value depends on the reason alone.
pub uninterp spec fn ws_close_of(reason: Option<Seq<u8>>) -> tungstenite::Message;

/// Relies on tungstenite's Message::Binary: a binary message is a plain
/// carrier of its bytes, built from them alone.
#[verifier::external_body]
fn ws_make_binary(payload: Vec<u8>) -> (r: tungstenite::Message)
    ensures
        r == ws_binary_of(payload@),
{
    tungstenite::Message::Binary(payload.into())
}

/// Relies on tungstenite's Message enum: telling its variants apart and
/// moving the binary payload out; a binary message built from some bytes
/// classifies back to exactly those bytes, and a close message classifies
/// as the close.
#[verifier::external_body]
fn ws_classify(m: tungstenite::Message) -> (r: WsPayload)
    ensures
        forall|p: Seq<u8>| m == ws_binary_of(p) ==> r@ == SpecWsPayload::Binary(p),
        forall|reason: Option<Seq<u8>>| m == ws_close_of(reason) ==> r@ == SpecWsPayload::Close,
{
    match m {
        tungstenite::Message::Binary(bytes) => WsPayload::Binary(bytes.into()),
        tungstenite::Message::Close(_) => WsPayload::Close,
        _ => WsPayload::Other,
    }
}

/// Relies on tungstenite's Message::Close: the frame that closes the
/// connection gracefully, built from its optional reason alone.
#[verifier::external_body]
fn ws_make_close() -> (r: tungstenite::Message)
    ensures
        r == ws_close_of(None),
{
    tungstenite::Message::Close(None)
}

/// The message that a payload frame leaves the connection as.
pub fn write_payload_message(payload: Vec<u8>) -> (r: tungstenite::Message)
    ensures
        r == ws_binary_of(payload@),
{
    ws_make_binary(payload)
}

/// The one message that closes the connection gracefully: the close frame
/// with no reason attached.
pub fn close_message() -> (r: tungstenite::Message)
    ensures
        r == ws_close_of(None),
{
    ws_make_close()
}

/// What an inbound message yields to the reader: a payload to decode, the
/// end of the stream on a close, or a transport error on anything else —
/// a message carrying a payload always yields exactly that payload, and a
/// close frame always ends the stream.
pub fn read_payload_event(m: tungstenite::Message) -> (r: Option<Result<Vec<u8>, Error>>)
    ensures
        forall|p: Seq<u8>| m == ws_binary_of(p) ==> (match r {
            Some(Ok(b)) => b@ == p,
            _ => false,
        }),
        forall|reason: Option<Seq<u8>>| m == ws_close_of(reason) ==> r is None,
        match r {
            Some(Ok(_)) => true,
            Some(Err(e)) => e is IoError,
            None => true,
        },
{
    let payload = ws_classify(m);
    interpret_payload(payload)
}

/// The reader's decision on one classified message: a binary message is a
/// payload, a close ends the stream, anything else is a transport error.
pub fn interpret_payload(p: WsPayload) -> (r: Option<Result<Vec<u8>, Error>>)
    ensures
        match p@ {
            SpecWsPayload::Binary(b) => (match r {
                Some(Ok(out)) => out@ == b,
                _ => false,
            }),
            SpecWsPayload::Close => r is None,
            SpecWsPayload::Other => (match r {
                Some(Err(e)) => e is IoError,
                _ => false,
            }),
        },
{
    match p {
        WsPayload::Binary(b) => Some(Ok(b)),
        WsPayload::Close => None,
        WsPayload::Other => Some(Err(Error::IoError(Vec::new()))),
    }
}

} // verus!
