//! The reader's dispatch: one decoded header and body become either a
//! broker event or an immediate error answer. This is where the reserved
//! control values, the cancellation token check, the timeout and ack body
//! decodes, and the service lookup all come together.

use vstd::prelude::*;
use crate::digits::{parse_u64, parse_u64_spec};
use crate::message::{Error, RequestHeader};
use crate::routing::{
    classify, spec_classify, spec_valid_cancel_token, validate_cancel_token, RequestKind,
    SpecRequestKind,
};
use crate::server::{ServerEvent, SpecServerEvent};
use crate::service::{spec_lookup, Server};
use crate::wire::{decode_string_body, spec_decode_string_body};

verus! {

/// What the reader does with one inbound request message.
pub enum Dispatch {
    /// Hand this event to the broker.
    ToBroker(ServerEvent),
    /// Answer at once with this error; the request never reaches a worker.
    Respond { id: u64, err: Error },
}

/// Ghost mirror of [`Dispatch`].
pub enum SpecDispatch {
    /// Hand this event to the broker.
    ToBroker(SpecServerEvent),
    /// Answer at once with this error.
    Respond { id: u64, err: crate::message::SpecError },
}

impl View for Dispatch {
    type V = SpecDispatch;

    open spec fn view(&self) -> SpecDispatch {
        match self {
            Dispatch::ToBroker(e) => SpecDispatch::ToBroker(e@),
            Dispatch::Respond { id, err } => SpecDispatch::Respond { id: *id, err: err@ },
        }
    }
}

/// What the dispatch of one message must be, given how the header
/// classifies and what the body holds.
pub open spec fn spec_dispatch(
    services: Seq<crate::service::ServiceEntry>,
    id: u64,
    sm: Seq<u8>,
    body: Seq<u8>,
) -> SpecDispatch {
    match spec_classify(sm) {
        SpecRequestKind::Call { service, method } => match spec_lookup(services, service, method) {
            Ok(_) => SpecDispatch::ToBroker(
                SpecServerEvent::Request { id, service, method, body },
            ),
            Err(e) => SpecDispatch::Respond { id, err: e@ },
        },
        SpecRequestKind::Cancel => match spec_decode_string_body(body) {
            Some(token) => if spec_valid_cancel_token(id, token) {
                SpecDispatch::ToBroker(SpecServerEvent::Cancel { id })
            } else {
                SpecDispatch::Respond { id, err: crate::message::SpecError::InvalidArgument }
            },
            None => SpecDispatch::Respond {
                id,
                err: crate::message::SpecError::InvalidArgument,
            },
        },
        SpecRequestKind::TimeoutHint => match parse_u64_spec(body) {
            Some(duration) => SpecDispatch::ToBroker(
                SpecServerEvent::TimeoutInfo { id, duration },
            ),
            None => SpecDispatch::Respond {
                id,
                err: crate::message::SpecError::InvalidArgument,
            },
        },
        SpecRequestKind::Publish { topic } => SpecDispatch::ToBroker(
            SpecServerEvent::Publish { id, topic, content: body },
        ),
        SpecRequestKind::Subscribe { topic } => SpecDispatch::ToBroker(
            SpecServerEvent::Subscribe { id, topic },
        ),
        SpecRequestKind::Unsubscribe { topic } => SpecDispatch::ToBroker(
            SpecServerEvent::Unsubscribe { id, topic },
        ),
        SpecRequestKind::Ack => match parse_u64_spec(body) {
            Some(seq_id) => SpecDispatch::ToBroker(SpecServerEvent::InboundAck { seq_id }),
            None => SpecDispatch::Respond {
                id,
                err: crate::message::SpecError::InvalidArgument,
            },
        },
        SpecRequestKind::Unrecognized => SpecDispatch::Respond {
            id,
            err: crate::message::SpecError::MethodNotFound,
        },
    }
}

/// Dispatch one decoded request message, as [`spec_dispatch`] describes:
/// calls are looked up and routed or answered with the exact lookup error,
/// a cancel is validated against its token, timeout hints and acks decode
/// their number, and a name with no dot is answered `MethodNotFound`.
pub fn dispatch_request(server: &Server, header: RequestHeader, body: Vec<u8>) -> (r: Dispatch)
    ensures
        r@ == spec_dispatch(server.services@, header.id, header.service_method@, body@),
{
    let id = header.id;
    match classify(header.service_method.as_slice()) {
        RequestKind::Call { service, method } => match server.lookup(
            service.as_slice(),
            method.as_slice(),
        ) {
            Ok(_) => Dispatch::ToBroker(ServerEvent::Request { id, service, method, body }),
            Err(e) => Dispatch::Respond { id, err: e },
        },
        RequestKind::Cancel => match decode_string_body(body.as_slice()) {
            Some(token) => {
                if validate_cancel_token(id, token.as_slice()) {
                    Dispatch::ToBroker(ServerEvent::Cancel { id })
                } else {
                    Dispatch::Respond { id, err: Error::InvalidArgument }
                }
            },
            None => Dispatch::Respond { id, err: Error::InvalidArgument },
        },
        RequestKind::TimeoutHint => match parse_u64(body.as_slice()) {
            Some(duration) => Dispatch::ToBroker(ServerEvent::TimeoutInfo { id, duration }),
            None => Dispatch::Respond { id, err: Error::InvalidArgument },
        },
        RequestKind::Publish { topic } => Dispatch::ToBroker(
            ServerEvent::Publish { id, topic, content: body },
        ),
        RequestKind::Subscribe { topic } => Dispatch::ToBroker(
            ServerEvent::Subscribe { id, topic },
        ),
        RequestKind::Unsubscribe { topic } => Dispatch::ToBroker(
            ServerEvent::Unsubscribe { id, topic },
        ),
        RequestKind::Ack => match parse_u64(body.as_slice()) {
            Some(seq_id) => Dispatch::ToBroker(ServerEvent::InboundAck { seq_id }),
            None => Dispatch::Respond { id, err: Error::InvalidArgument },
        },
        RequestKind::Unrecognized => Dispatch::Respond { id, err: Error::MethodNotFound },
    }
}

} // verus!
