//! End-to-end call scenarios driven through both broker state machines and
//! the full wire codec: request out, dispatch, worker policy, response
//! back, delivery at the client.

use toy_rpc::client::{response_event, CallOutcome, ClientAction, ClientBroker, ClientEvent};
use toy_rpc::codec::encode_u64_body;
use toy_rpc::dispatch::{dispatch_request, Dispatch};
use toy_rpc::frame::{read_message, write_message};
use toy_rpc::message::{AckMode, Error, RequestHeader};
use toy_rpc::routing::make_cancel_token;
use toy_rpc::server::{execute_call, execute_timed_call, ServerAction, ServerBroker, ServerEvent};
use toy_rpc::service::{Server, ServerBuilder, ServiceEntry};
use toy_rpc::wire::{
    decode_request_header, decode_response_header, encode_request_header, encode_string_body,
};
use toy_rpc::writer::{compose_request, compose_response};

fn bytes(s: &str) -> Vec<u8> {
    s.as_bytes().to_vec()
}

fn arith_server() -> Server {
    let mut builder: ServerBuilder = Server::builder();
    builder.register(ServiceEntry {
        name: bytes("Arith"),
        methods: vec![bytes("add")],
    });
    builder.register(ServiceEntry {
        name: bytes("Calculator"),
        methods: vec![bytes("divide")],
    });
    builder.register(ServiceEntry {
        name: bytes("slow"),
        methods: vec![bytes("sleep")],
    });
    builder.build()
}

/// The demo handlers behind the registered services.
fn handler(method: &[u8], body: &[u8]) -> Result<Vec<u8>, Error> {
    if method == b"add" {
        let args: Vec<u64> = serde_json::from_slice(body)
            .map_err(|_| Error::ParseError(Vec::new()))?;
        let sum: u64 = args.iter().sum();
        Ok(serde_json::to_vec(&sum).unwrap())
    } else if method == b"divide" {
        let args: Vec<u64> = serde_json::from_slice(body)
            .map_err(|_| Error::ParseError(Vec::new()))?;
        if args[1] == 0 {
            Err(Error::ExecutionError(bytes("div by zero")))
        } else {
            Ok(serde_json::to_vec(&(args[0] / args[1])).unwrap())
        }
    } else if method == b"sleep" {
        Ok(bytes("slept"))
    } else {
        Err(Error::MethodNotFound)
    }
}

/// Drive one call through the whole pipeline. `elapsed` is how long the
/// worker ran, for calls that carry a deadline.
fn run_call(
    server: &Server,
    client: &mut ClientBroker,
    broker: &mut ServerBroker,
    method: &str,
    args: &[u8],
    timeout: Option<u64>,
    elapsed: u64,
) -> (u64, CallOutcome) {
    // Client side: the call becomes wire bytes.
    let actions = client.op(ClientEvent::Call {
        method: bytes(method),
        body: args.to_vec(),
        timeout,
    });
    let mut wire = Vec::new();
    let mut call_id = None;
    for action in actions {
        match action {
            ClientAction::WriteTimeoutInfo { id, duration } => {
                wire.extend(
                    compose_request(id, bytes("TIMEOUT_TOKEN"), &encode_u64_body(duration))
                        .unwrap(),
                );
            }
            ClientAction::WriteRequest { id, method, body } => {
                call_id = Some(id);
                wire.extend(compose_request(id, method, &body).unwrap());
            }
            _ => panic!("a call sends only hints and the request"),
        }
    }
    let call_id = call_id.expect("the call must go out");

    // Server side: read every message, dispatch, run workers, respond.
    let mut responses = Vec::new();
    let mut at: usize = 0;
    while let Some((header_bytes, body, next)) = read_message(&wire, at) {
        at = next;
        let header = decode_request_header(&header_bytes).expect("header must decode");
        match dispatch_request(server, header, body) {
            Dispatch::ToBroker(event) => {
                for action in broker.op(event) {
                    if let ServerAction::SpawnWorker { id, method, body, duration, .. } = action {
                        let outcome = handler(&method, &body);
                        let result = match duration {
                            Some(d) => execute_timed_call(id, d, elapsed, outcome),
                            None => execute_call(id, outcome),
                        };
                        for out in broker.op(ServerEvent::Response { id, result }) {
                            if let ServerAction::WriteResponse { id, result } = out {
                                responses.push(compose_response(id, result).unwrap());
                            }
                        }
                    }
                }
            }
            Dispatch::Respond { id, err } => {
                responses.push(compose_response(id, Err(err)).unwrap());
            }
        }
    }

    // Client side: decode the response and resolve the call.
    let mut outcome = None;
    for response in responses {
        let (header_bytes, body, _) = read_message(&response, 0).expect("response must read");
        let event = response_event(&header_bytes, body).expect("response must decode");
        for action in client.op(event) {
            if let ClientAction::Deliver { id, outcome: out } = action {
                assert_eq!(id, call_id);
                outcome = Some(out);
            }
        }
    }
    (call_id, outcome.expect("the call must resolve"))
}

#[test]
fn arith_add_two_three() {
    let server = arith_server();
    let mut client = ClientBroker::new();
    let mut broker = ServerBroker::new(1, AckMode::NoAck);
    let (_, outcome) = run_call(&server, &mut client, &mut broker, "Arith.add", b"[2,3]", None, 0);
    match outcome {
        CallOutcome::Response { result } => assert_eq!(result.unwrap(), bytes("5")),
        _ => panic!("expected a response"),
    }
}

#[test]
fn divide_by_zero_is_execution_error() {
    let server = arith_server();
    let mut client = ClientBroker::new();
    let mut broker = ServerBroker::new(1, AckMode::NoAck);
    let (_, outcome) = run_call(
        &server,
        &mut client,
        &mut broker,
        "Calculator.divide",
        b"[6,0]",
        None,
        0,
    );
    match outcome {
        CallOutcome::Response { result } => match result {
            Err(Error::ExecutionError(t)) => assert_eq!(t, bytes("div by zero")),
            other => panic!("expected ExecutionError, got {:?}", other),
        },
        _ => panic!("expected a response"),
    }
}

#[test]
fn unknown_service_and_method() {
    let server = arith_server();
    let mut client = ClientBroker::new();
    let mut broker = ServerBroker::new(1, AckMode::NoAck);
    let (_, outcome) = run_call(&server, &mut client, &mut broker, "Foo.bar", b"[]", None, 0);
    match outcome {
        CallOutcome::Response { result } => {
            assert!(matches!(result, Err(Error::ServiceNotFound)));
        }
        _ => panic!("expected a response"),
    }
    let (_, outcome) = run_call(&server, &mut client, &mut broker, "Arith.mul", b"[]", None, 0);
    match outcome {
        CallOutcome::Response { result } => {
            assert!(matches!(result, Err(Error::MethodNotFound)));
        }
        _ => panic!("expected a response"),
    }
}

#[test]
fn deadline_exceeded_is_timeout() {
    let server = arith_server();
    let mut client = ClientBroker::new();
    let mut broker = ServerBroker::new(1, AckMode::NoAck);
    // A 50 ms deadline on a handler that takes 10 s.
    let (id, outcome) = run_call(
        &server,
        &mut client,
        &mut broker,
        "slow.sleep",
        b"[]",
        Some(50_000_000),
        10_000_000_000,
    );
    match outcome {
        CallOutcome::Response { result } => {
            assert!(matches!(result, Err(Error::Timeout(Some(got))) if got == id));
        }
        _ => panic!("expected a response"),
    }
}

#[test]
fn timeout_of_zero_never_runs_to_completion() {
    let r = execute_timed_call(9, 0, 0, Ok(bytes("fast")));
    assert!(matches!(r, Err(Error::Timeout(Some(9)))));
}

#[test]
fn parse_error_surfaces_as_invalid_argument() {
    let r = execute_call(3, Err(Error::ParseError(bytes("bad json"))));
    assert!(matches!(r, Err(Error::InvalidArgument)));
}

#[test]
fn cancel_unresolved_call_resolves_canceled() {
    let mut client = ClientBroker::new();
    let actions = client.op(ClientEvent::Call {
        method: bytes("slow.sleep"),
        body: bytes("[]"),
        timeout: None,
    });
    assert_eq!(actions.len(), 1);
    let actions = client.op(ClientEvent::CancelCall { id: 0 });
    assert_eq!(actions.len(), 2);
    match &actions[0] {
        ClientAction::Deliver { id, outcome } => {
            assert_eq!(*id, 0);
            assert!(matches!(outcome, CallOutcome::Canceled));
        }
        _ => panic!("the cancel must resolve the waiter first"),
    }
    match &actions[1] {
        ClientAction::WriteCancel { id, token } => {
            assert_eq!(*id, 0);
            assert_eq!(*token, make_cancel_token(0));
        }
        _ => panic!("the cancel must go on the wire"),
    }
}

#[test]
fn cancel_after_response_is_no_op() {
    let mut client = ClientBroker::new();
    client.op(ClientEvent::Call {
        method: bytes("Arith.add"),
        body: bytes("[2,3]"),
        timeout: None,
    });
    let delivered = client.op(ClientEvent::ResponseReceived {
        id: 0,
        result: Ok(bytes("5")),
    });
    assert_eq!(delivered.len(), 1);
    let after = client.op(ClientEvent::CancelCall { id: 0 });
    assert!(after.is_empty());
}

#[test]
fn server_accepts_validated_cancel() {
    let server = arith_server();
    let mut broker = ServerBroker::new(1, AckMode::NoAck);
    // A request is in flight...
    let header = RequestHeader { id: 4, service_method: bytes("slow.sleep") };
    match dispatch_request(&server, header, bytes("[]")) {
        Dispatch::ToBroker(event) => {
            broker.op(event);
        }
        _ => panic!("the request must reach the broker"),
    }
    // ... and the client cancels it with the right token.
    let header = RequestHeader { id: 4, service_method: bytes("CANCELLATION_TOKEN") };
    let body = encode_string_body(&make_cancel_token(4));
    match dispatch_request(&server, header, body) {
        Dispatch::ToBroker(ServerEvent::Cancel { id }) => {
            let actions = broker.op(ServerEvent::Cancel { id });
            assert_eq!(actions.len(), 1);
            assert!(matches!(actions[0], ServerAction::CancelWorker { id: 4 }));
        }
        _ => panic!("a valid token must cancel"),
    }
}

#[test]
fn forged_cancel_token_is_invalid_argument() {
    let server = arith_server();
    let header = RequestHeader { id: 4, service_method: bytes("CANCELLATION_TOKEN") };
    let body = encode_string_body(&make_cancel_token(5));
    match dispatch_request(&server, header, body) {
        Dispatch::Respond { id, err } => {
            assert_eq!(id, 4);
            assert!(matches!(err, Error::InvalidArgument));
        }
        _ => panic!("a forged token must be refused"),
    }
}

#[test]
fn late_response_is_dropped_silently() {
    // The server never writes a response for an id it did not first read
    // as a request.
    let mut broker = ServerBroker::new(1, AckMode::NoAck);
    let actions = broker.op(ServerEvent::Response { id: 99, result: Ok(bytes("ghost")) });
    assert!(actions.is_empty());
}

#[test]
fn each_call_resolves_exactly_once() {
    let mut client = ClientBroker::new();
    client.op(ClientEvent::Call { method: bytes("a.b"), body: vec![], timeout: None });
    client.op(ClientEvent::Call { method: bytes("a.b"), body: vec![], timeout: None });

    // The first call resolves with its response; a duplicate response for
    // the same id resolves nothing.
    let first = client.op(ClientEvent::ResponseReceived { id: 0, result: Ok(vec![1]) });
    assert_eq!(first.len(), 1);
    let dup = client.op(ClientEvent::ResponseReceived { id: 0, result: Ok(vec![2]) });
    assert!(dup.is_empty());

    // The shutdown resolves whatever is still pending, exactly once each.
    let rest = client.op(ClientEvent::Shutdown);
    assert_eq!(rest.len(), 1);
    match &rest[0] {
        ClientAction::Deliver { id, outcome } => {
            assert_eq!(*id, 1);
            assert!(matches!(outcome, CallOutcome::Closed));
        }
        _ => panic!("the shutdown must resolve the pending call"),
    }

    // A call after the shutdown resolves at once as closed.
    let after = client.op(ClientEvent::Call { method: bytes("a.b"), body: vec![], timeout: None });
    assert_eq!(after.len(), 1);
    assert!(matches!(
        &after[0],
        ClientAction::Deliver { id: 2, outcome: CallOutcome::Closed }
    ));
}

#[test]
fn stopping_cancels_workers_and_schedules_stop() {
    let mut broker = ServerBroker::new(1, AckMode::NoAck);
    broker.op(ServerEvent::Request {
        id: 1,
        service: bytes("Arith"),
        method: bytes("add"),
        body: vec![],
    });
    broker.op(ServerEvent::Request {
        id: 2,
        service: bytes("Arith"),
        method: bytes("add"),
        body: vec![],
    });
    let actions = broker.op(ServerEvent::Stopping);
    assert_eq!(actions.len(), 5);
    assert!(matches!(actions[0], ServerAction::CancelWorker { id: 1 }));
    assert!(matches!(actions[1], ServerAction::CancelWorker { id: 2 }));
    assert!(matches!(actions[2], ServerAction::WriteStopping));
    assert!(matches!(actions[4], ServerAction::ScheduleStop));
    let stop = broker.op(ServerEvent::Stop);
    assert_eq!(stop.len(), 1);
    assert!(matches!(stop[0], ServerAction::WriteStop));
    assert!(!broker.running);
}

#[test]
fn identity_handler_returns_args() {
    // call(method, args) where the handler is the identity returns args.
    let mut builder: ServerBuilder = Server::builder();
    builder.register(ServiceEntry {
        name: bytes("Echo"),
        methods: vec![bytes("id")],
    });
    let server = builder.build();
    let mut client = ClientBroker::new();
    let mut broker = ServerBroker::new(1, AckMode::NoAck);

    // The pipeline of run_call with an identity worker, inlined.
    let args = bytes("{\"any\":[\"payload\",42]}");
    let actions = client.op(ClientEvent::Call {
        method: bytes("Echo.id"),
        body: args.clone(),
        timeout: None,
    });
    let mut wire = Vec::new();
    for action in actions {
        if let ClientAction::WriteRequest { id, method, body } = action {
            let header = encode_request_header(&RequestHeader { id, service_method: method });
            write_message(&mut wire, &header, &body);
        }
    }
    let (header_bytes, body, _) = read_message(&wire, 0).unwrap();
    let header = decode_request_header(&header_bytes).unwrap();
    let event = match dispatch_request(&server, header, body) {
        Dispatch::ToBroker(e) => e,
        _ => panic!("the call must reach the broker"),
    };
    let mut response = Vec::new();
    for action in broker.op(event) {
        if let ServerAction::SpawnWorker { id, body, .. } = action {
            let result = execute_call(id, Ok(body));
            for out in broker.op(ServerEvent::Response { id, result }) {
                if let ServerAction::WriteResponse { id, result } = out {
                    response = compose_response(id, result).unwrap();
                }
            }
        }
    }
    let (header_bytes, body, _) = read_message(&response, 0).unwrap();
    let header = decode_response_header(&header_bytes).unwrap();
    assert!(!header.is_error);
    for action in client.op(ClientEvent::ResponseReceived { id: header.id, result: Ok(body) }) {
        match action {
            ClientAction::Deliver { outcome: CallOutcome::Response { result }, .. } => {
                assert_eq!(result.unwrap(), args);
            }
            _ => panic!("the call must resolve with the echoed args"),
        }
    }
}
