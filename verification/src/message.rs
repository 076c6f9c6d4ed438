//! Message-level data: headers, the error taxonomy, and the reserved
//! `service_method` values that multiplex control traffic onto the
//! request channel. Names and payload text travel as byte strings.

use vstd::prelude::*;

verus! {

/// Identifier of a request or response, allocated by the originator and
/// unique per connection.
pub type MessageId = u64;

/// Identifier of a publication, allocated by the hub and unique per server.
pub type SeqId = u64;

/// Leading part of every logical message sent as a request.
pub struct RequestHeader {
    /// Message id chosen by the caller.
    pub id: MessageId,
    /// Dotted `service.method` name, or a reserved control value.
    pub service_method: Vec<u8>,
}

/// Leading part of every logical message sent as a response.
pub struct ResponseHeader {
    /// Id of the request this answers.
    pub id: MessageId,
    /// Whether the body that follows carries an [`ErrorMessage`].
    pub is_error: bool,
}

/// Everything that can go wrong while serving a connection.
#[derive(Clone, Debug)]
pub enum Error {
    /// Transport failure; tears the connection down.
    IoError(Vec<u8>),
    /// Codec failure while decoding; mapped to `InvalidArgument` when it
    /// happens inside a request body.
    ParseError(Vec<u8>),
    /// Invariant violation inside the engine.
    Internal(Vec<u8>),
    /// Argument decode failure or an invalid cancellation token.
    InvalidArgument,
    /// No service registered under the requested name.
    ServiceNotFound,
    /// The service exists but not the requested method.
    MethodNotFound,
    /// The handler itself failed; the text travels verbatim.
    ExecutionError(Vec<u8>),
    /// The call exceeded its deadline.
    Timeout(Option<MessageId>),
    /// The call was cancelled cooperatively.
    Canceled(Option<MessageId>),
}

/// Ghost mirror of [`Error`].
pub enum SpecError {
    /// Transport failure.
    IoError(Seq<u8>),
    /// Codec failure while decoding.
    ParseError(Seq<u8>),
    /// Invariant violation inside the engine.
    Internal(Seq<u8>),
    /// Argument decode failure or an invalid cancellation token.
    InvalidArgument,
    /// No service registered under the requested name.
    ServiceNotFound,
    /// The service exists but not the requested method.
    MethodNotFound,
    /// The handler itself failed.
    ExecutionError(Seq<u8>),
    /// The call exceeded its deadline.
    Timeout(Option<MessageId>),
    /// The call was cancelled cooperatively.
    Canceled(Option<MessageId>),
}

impl View for Error {
    type V = SpecError;

    open spec fn view(&self) -> SpecError {
        match self {
            Error::IoError(t) => SpecError::IoError(t@),
            Error::ParseError(t) => SpecError::ParseError(t@),
            Error::Internal(t) => SpecError::Internal(t@),
            Error::InvalidArgument => SpecError::InvalidArgument,
            Error::ServiceNotFound => SpecError::ServiceNotFound,
            Error::MethodNotFound => SpecError::MethodNotFound,
            Error::ExecutionError(t) => SpecError::ExecutionError(t@),
            Error::Timeout(id) => SpecError::Timeout(*id),
            Error::Canceled(id) => SpecError::Canceled(*id),
        }
    }
}

impl DeepView for Error {
    type V = SpecError;

    open spec fn deep_view(&self) -> SpecError {
        self@
    }
}

/// What a handler hands back, as the contracts see it.
pub type SpecHandlerResult = Result<Seq<u8>, SpecError>;

/// The value of a handler result in contracts.
pub open spec fn spec_handler_result(r: &Result<Vec<u8>, Error>) -> SpecHandlerResult {
    match r {
        Ok(body) => Ok(body@),
        Err(e) => Err(e@),
    }
}

/// The error variants that may travel in a response body. Transport and
/// internal failures stay local; the rest answer the request.
pub enum ErrorMessage {
    /// Argument decode failure or an invalid cancellation token.
    InvalidArgument,
    /// No service registered under the requested name.
    ServiceNotFound,
    /// The service exists but not the requested method.
    MethodNotFound,
    /// The handler itself failed; the text travels verbatim.
    ExecutionError(Vec<u8>),
    /// The call exceeded its deadline.
    Timeout(Option<MessageId>),
    /// The call was cancelled cooperatively.
    Canceled(Option<MessageId>),
}

/// Which errors become a response body, and as what.
pub open spec fn spec_from_err(e: Error) -> Result<ErrorMessage, Error> {
    match e {
        Error::InvalidArgument => Ok(ErrorMessage::InvalidArgument),
        Error::ServiceNotFound => Ok(ErrorMessage::ServiceNotFound),
        Error::MethodNotFound => Ok(ErrorMessage::MethodNotFound),
        Error::ExecutionError(t) => Ok(ErrorMessage::ExecutionError(t)),
        Error::Timeout(id) => Ok(ErrorMessage::Timeout(id)),
        Error::Canceled(id) => Ok(ErrorMessage::Canceled(id)),
        _ => Err(e),
    }
}

impl ErrorMessage {
    /// Turn a per-call error into its wire form. Transport failures
    /// (`IoError`, `ParseError`) and `Internal` cannot be sent back and are
    /// returned unchanged as the `Err` case.
    pub fn from_err(e: Error) -> (r: Result<ErrorMessage, Error>)
        ensures
            r == spec_from_err(e),
    {
        match e {
            Error::InvalidArgument => Ok(ErrorMessage::InvalidArgument),
            Error::ServiceNotFound => Ok(ErrorMessage::ServiceNotFound),
            Error::MethodNotFound => Ok(ErrorMessage::MethodNotFound),
            Error::ExecutionError(t) => Ok(ErrorMessage::ExecutionError(t)),
            Error::Timeout(id) => Ok(ErrorMessage::Timeout(id)),
            Error::Canceled(id) => Ok(ErrorMessage::Canceled(id)),
            other => Err(other),
        }
    }
}

/// The error a received error body denotes.
pub open spec fn spec_err_of_message(m: crate::errmsg::SpecErrorMessage) -> SpecError {
    match m {
        crate::errmsg::SpecErrorMessage::InvalidArgument => SpecError::InvalidArgument,
        crate::errmsg::SpecErrorMessage::ServiceNotFound => SpecError::ServiceNotFound,
        crate::errmsg::SpecErrorMessage::MethodNotFound => SpecError::MethodNotFound,
        crate::errmsg::SpecErrorMessage::ExecutionError(t) => SpecError::ExecutionError(t),
        crate::errmsg::SpecErrorMessage::Timeout(id) => SpecError::Timeout(id),
        crate::errmsg::SpecErrorMessage::Canceled(id) => SpecError::Canceled(id),
    }
}

impl ErrorMessage {
    /// The error this wire form denotes, at the receiving end.
    pub fn into_err(self) -> (r: Error)
        ensures
            r@ == spec_err_of_message(self@),
    {
        match self {
            ErrorMessage::InvalidArgument => Error::InvalidArgument,
            ErrorMessage::ServiceNotFound => Error::ServiceNotFound,
            ErrorMessage::MethodNotFound => Error::MethodNotFound,
            ErrorMessage::ExecutionError(t) => Error::ExecutionError(t),
            ErrorMessage::Timeout(id) => Error::Timeout(id),
            ErrorMessage::Canceled(id) => Error::Canceled(id),
        }
    }
}

/// What a handler hands back: a result body, or a per-call error.
pub type HandlerResult = Result<Vec<u8>, Error>;

/// The byte `.` that separates a service name from a method name, and a
/// reserved token from a topic.
pub const DOT: u8 = 46;

/// Acknowledgement policy for pub/sub delivery.
#[derive(Clone, Copy, PartialEq, Eq, Structural)]
pub enum AckMode {
    /// No acknowledgements in either direction; delivery is best effort.
    NoAck,
    /// The server confirms each accepted publish back to the publisher.
    Auto,
    /// The hub tracks acknowledgements per subscriber and retries.
    Manual,
}

/// Reserved `service_method` value announcing a cancellation
/// (text `CANCELLATION_TOKEN`).
pub open spec fn spec_cancellation_token() -> Seq<u8> {
    seq![67u8, 65, 78, 67, 69, 76, 76, 65, 84, 73, 79, 78, 95, 84, 79, 75, 69, 78]
}

/// Exec form of [`spec_cancellation_token`].
pub fn cancellation_token() -> (r: Vec<u8>)
    ensures
        r@ == spec_cancellation_token(),
{
    let v: Vec<u8> = vec![67u8, 65, 78, 67, 69, 76, 76, 65, 84, 73, 79, 78, 95, 84, 79, 75, 69, 78];
    proof {
        assert(v@ =~= spec_cancellation_token());
    }
    v
}

/// Prefix of a cancellation body, `CANCEL`; the full body is
/// `CANCEL.<id>` with the id in decimal.
pub open spec fn spec_cancel_base() -> Seq<u8> {
    seq![67u8, 65, 78, 67, 69, 76]
}

/// Exec form of [`spec_cancel_base`].
pub fn cancel_base() -> (r: Vec<u8>)
    ensures
        r@ == spec_cancel_base(),
{
    let v: Vec<u8> = vec![67u8, 65, 78, 67, 69, 76];
    proof {
        assert(v@ =~= spec_cancel_base());
    }
    v
}

/// Reserved `service_method` value announcing a timeout hint
/// (text `TIMEOUT_TOKEN`).
pub open spec fn spec_timeout_token() -> Seq<u8> {
    seq![84u8, 73, 77, 69, 79, 85, 84, 95, 84, 79, 75, 69, 78]
}

/// Exec form of [`spec_timeout_token`].
pub fn timeout_token() -> (r: Vec<u8>)
    ensures
        r@ == spec_timeout_token(),
{
    let v: Vec<u8> = vec![84u8, 73, 77, 69, 79, 85, 84, 95, 84, 79, 75, 69, 78];
    proof {
        assert(v@ =~= spec_timeout_token());
    }
    v
}

/// Reserved prefix of a publish message (text `PUBLISH_TOKEN`); the topic
/// follows after a dot.
pub open spec fn spec_publish_token() -> Seq<u8> {
    seq![80u8, 85, 66, 76, 73, 83, 72, 95, 84, 79, 75, 69, 78]
}

/// Exec form of [`spec_publish_token`].
pub fn publish_token() -> (r: Vec<u8>)
    ensures
        r@ == spec_publish_token(),
{
    let v: Vec<u8> = vec![80u8, 85, 66, 76, 73, 83, 72, 95, 84, 79, 75, 69, 78];
    proof {
        assert(v@ =~= spec_publish_token());
    }
    v
}

/// Reserved prefix of a subscribe message (text `SUBSCRIBE_TOKEN`).
pub open spec fn spec_subscribe_token() -> Seq<u8> {
    seq![83u8, 85, 66, 83, 67, 82, 73, 66, 69, 95, 84, 79, 75, 69, 78]
}

/// Exec form of [`spec_subscribe_token`].
pub fn subscribe_token() -> (r: Vec<u8>)
    ensures
        r@ == spec_subscribe_token(),
{
    let v: Vec<u8> = vec![83u8, 85, 66, 83, 67, 82, 73, 66, 69, 95, 84, 79, 75, 69, 78];
    proof {
        assert(v@ =~= spec_subscribe_token());
    }
    v
}

/// Reserved prefix of an unsubscribe message (text `UNSUBSCRIBE_TOKEN`).
pub open spec fn spec_unsubscribe_token() -> Seq<u8> {
    seq![85u8, 78, 83, 85, 66, 83, 67, 82, 73, 66, 69, 95, 84, 79, 75, 69, 78]
}

/// Exec form of [`spec_unsubscribe_token`].
pub fn unsubscribe_token() -> (r: Vec<u8>)
    ensures
        r@ == spec_unsubscribe_token(),
{
    let v: Vec<u8> = vec![85u8, 78, 83, 85, 66, 83, 67, 82, 73, 66, 69, 95, 84, 79, 75, 69, 78];
    proof {
        assert(v@ =~= spec_unsubscribe_token());
    }
    v
}

/// Reserved `service_method` value acknowledging a publication
/// (text `ACK_TOKEN`).
pub open spec fn spec_ack_token() -> Seq<u8> {
    seq![65u8, 67, 75, 95, 84, 79, 75, 69, 78]
}

/// Exec form of [`spec_ack_token`].
pub fn ack_token() -> (r: Vec<u8>)
    ensures
        r@ == spec_ack_token(),
{
    let v: Vec<u8> = vec![65u8, 67, 75, 95, 84, 79, 75, 69, 78];
    proof {
        assert(v@ =~= spec_ack_token());
    }
    v
}

} // verus!
