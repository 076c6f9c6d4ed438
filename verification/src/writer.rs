//! The writer's pure half: turning one execution result into the exact
//! bytes of a response message — header frame, then body frame. The
//! surrounding task owns the transport write-half and sends what this
//! module composes, so header and body always leave as one atomic pair.

use vstd::prelude::*;
use crate::errmsg::{encode_error_message, spec_error_message_bytes};
use crate::frame::{spec_message, write_message};
use crate::message::{Error, ErrorMessage, ResponseHeader, SpecError};
use crate::wire::{encode_response_header, spec_response_header_bytes};

verus! {

/// The writer around one connection's transport write-half. The handle
/// `W` is whatever the surroundings write bytes with; this module only
/// composes the bytes.
pub struct ServerWriter<W> {
    /// The transport write-half handle.
    pub writer: W,
}

impl<W> ServerWriter<W> {
    /// Wrap a transport write-half.
    pub fn new(writer: W) -> (r: ServerWriter<W>)
        ensures
            r == (ServerWriter { writer }),
    {
        ServerWriter { writer }
    }
}

/// The bytes one response puts on the wire: a success carries the result
/// body under an `is_error = false` header; a failure carries the encoded
/// error under an `is_error = true` header.
pub open spec fn spec_response_message(id: u64, result: Result<Seq<u8>, SpecError>) -> Option<
    Seq<u8>,
> {
    match result {
        Ok(body) => Some(
            spec_message(spec_response_header_bytes(id, false), body),
        ),
        Err(e) => match spec_from_err_spec(e) {
            Ok(m) => Some(
                spec_message(
                    spec_response_header_bytes(id, true),
                    spec_error_message_bytes(m),
                ),
            ),
            Err(_) => None,
        },
    }
}

/// Which errors become a response body, over ghost values.
pub open spec fn spec_from_err_spec(e: SpecError) -> Result<
    crate::errmsg::SpecErrorMessage,
    SpecError,
> {
    match e {
        SpecError::InvalidArgument => Ok(crate::errmsg::SpecErrorMessage::InvalidArgument),
        SpecError::ServiceNotFound => Ok(crate::errmsg::SpecErrorMessage::ServiceNotFound),
        SpecError::MethodNotFound => Ok(crate::errmsg::SpecErrorMessage::MethodNotFound),
        SpecError::ExecutionError(t) => Ok(crate::errmsg::SpecErrorMessage::ExecutionError(t)),
        SpecError::Timeout(id) => Ok(crate::errmsg::SpecErrorMessage::Timeout(id)),
        SpecError::Canceled(id) => Ok(crate::errmsg::SpecErrorMessage::Canceled(id)),
        _ => Err(e),
    }
}

/// Compose the two payloads of one response — the header bytes and the
/// body bytes — without framing them. On a message transport each leaves
/// as its own binary message; on a stream transport [`compose_response`]
/// frames the pair. `Err` returns the errors that cannot be sent back
/// (`IoError`, `ParseError`, `Internal`), exactly as
/// [`ErrorMessage::from_err`] refuses them.
pub fn compose_response_parts(id: u64, result: Result<Vec<u8>, Error>) -> (r: Result<
    (Vec<u8>, Vec<u8>),
    Error,
>)
    ensures
        match r {
            Ok((header, body)) => match crate::message::spec_handler_result(&result) {
                Ok(b) => header@ == spec_response_header_bytes(id, false) && body@ == b,
                Err(e) => match spec_from_err_spec(e) {
                    Ok(m) => header@ == spec_response_header_bytes(id, true) && body@
                        == spec_error_message_bytes(m),
                    Err(_) => false,
                },
            },
            Err(_) => spec_response_message(
                id,
                crate::message::spec_handler_result(&result),
            ) is None,
        },
{
    match result {
        Ok(body) => {
            let header = encode_response_header(&ResponseHeader { id, is_error: false });
            Ok((header, body))
        },
        Err(e) => {
            let msg = match ErrorMessage::from_err(e) {
                Ok(m) => m,
                Err(e) => {
                    return Err(e);
                },
            };
            let header = encode_response_header(&ResponseHeader { id, is_error: true });
            Ok((header, encode_error_message(&msg)))
        },
    }
}

/// Compose the wire bytes of one response on a stream transport, as
/// [`spec_response_message`] describes: both parts framed, back to back.
/// `Err` returns the errors that cannot be sent back, exactly as
/// [`ErrorMessage::from_err`] refuses them; `Err` is also returned when a
/// body is too long for one frame, which a body held in memory does not
/// reach on this target.
pub fn compose_response(id: u64, result: Result<Vec<u8>, Error>) -> (r: Result<Vec<u8>, Error>)
    ensures
        match r {
            Ok(bytes) => spec_response_message(id, crate::message::spec_handler_result(&result))
                == Some(bytes@),
            Err(e) => spec_response_message(id, crate::message::spec_handler_result(&result))
                is None || (match spec_response_message(
                id,
                crate::message::spec_handler_result(&result),
            ) {
                Some(bytes) => bytes.len() >= 4294967296,
                None => true,
            }),
        },
{
    let ghost spec_result = crate::message::spec_handler_result(&result);
    let (header, body) = match compose_response_parts(id, result) {
        Ok(parts) => parts,
        Err(e) => {
            return Err(e);
        },
    };
    proof {
        lemma_header_len(id, false);
        lemma_header_len(id, true);
    }
    if (body.len() as u64) >= 4294967296u64 {
        return Err(Error::Internal(Vec::new()));
    }
    let mut out: Vec<u8> = Vec::new();
    write_message(&mut out, header.as_slice(), body.as_slice());
    Ok(out)
}

/// Compose the wire bytes of one request: the header frame, then the body
/// frame. `Err` is returned only when a part is too long for one frame,
/// which bytes held in memory do not reach on this target.
pub fn compose_request(id: u64, service_method: Vec<u8>, body: &[u8]) -> (r: Result<
    Vec<u8>,
    Error,
>)
    ensures
        match r {
            Ok(bytes) => bytes@ == spec_message(
                crate::wire::spec_request_header_bytes(id, service_method@),
                body@,
            ),
            Err(_) => crate::wire::spec_request_header_bytes(id, service_method@).len()
                >= 4294967296 || body@.len() >= 4294967296,
        },
{
    if (body.len() as u64) >= 4294967296u64 {
        return Err(Error::Internal(Vec::new()));
    }
    let header = crate::wire::encode_request_header(
        &crate::message::RequestHeader { id, service_method },
    );
    if (header.len() as u64) >= 4294967296u64 {
        return Err(Error::Internal(Vec::new()));
    }
    let mut out: Vec<u8> = Vec::new();
    write_message(&mut out, header.as_slice(), body);
    Ok(out)
}

/// A response header is a few dozen bytes: well under one frame.
proof fn lemma_header_len(id: u64, is_error: bool)
    ensures
        spec_response_header_bytes(id, is_error).len() < 4294967296,
{
    crate::digits::lemma_dec_digits_len(id as nat);
}

} // verus!
