//! The per-connection server broker: the single owner of the in-flight
//! execution table and the timeout-hint table. It answers one event at a
//! time with the actions the surroundings must carry out: spawn or cancel
//! a worker, enqueue an item for the writer, or forward a message to the
//! hub. `server_step` is its whole behaviour; `op` implements it exactly.
//!
//! A response whose id is no longer in the table — its call was cancelled,
//! or it was never requested — is dropped silently and nothing is written.
//! Retry timers for `Manual` acknowledgement live in the hub, which owns
//! the outstanding-publication table; this broker only forwards
//! publications to the writer and acknowledgements to the hub.

use vstd::prelude::*;
use crate::hub::{HubEvent, SpecHubEvent};
use crate::message::{AckMode, Error, SpecError, spec_handler_result, SpecHandlerResult};
use crate::table::{
    assoc_get, assoc_remove, seq_remove_all, vec_assoc_get, vec_assoc_remove, vec_contains,
    vec_remove_all,
};

verus! {

/// What the server broker is told.
pub enum ServerEvent {
    /// The reader saw a timeout hint: the request `id` that follows has
    /// this deadline, in nanoseconds.
    TimeoutInfo { id: u64, duration: u64 },
    /// The reader saw a request: run `method` of `service` on the decoded
    /// body.
    Request { id: u64, service: Vec<u8>, method: Vec<u8>, body: Vec<u8> },
    /// A worker finished `id` with this result.
    Response { id: u64, result: Result<Vec<u8>, Error> },
    /// The reader saw a validated cancellation of `id`.
    Cancel { id: u64 },
    /// The reader saw a publish of `content` to `topic`.
    Publish { id: u64, topic: Vec<u8>, content: Vec<u8> },
    /// The reader saw a subscribe to `topic`.
    Subscribe { id: u64, topic: Vec<u8> },
    /// The reader saw an unsubscribe from `topic`.
    Unsubscribe { id: u64, topic: Vec<u8> },
    /// The hub fanned a publication out to this connection.
    Publication { seq_id: u64, topic: Vec<u8>, content: Vec<u8> },
    /// The reader saw the client acknowledge publication `seq_id`.
    InboundAck { seq_id: u64 },
    /// The reader reached the end of the stream.
    Stopping,
    /// The broker told itself to stop.
    Stop,
}

/// Ghost mirror of [`ServerEvent`].
pub enum SpecServerEvent {
    /// A timeout hint for the request `id` that follows.
    TimeoutInfo { id: u64, duration: u64 },
    /// A request: run `method` of `service` on the body.
    Request { id: u64, service: Seq<u8>, method: Seq<u8>, body: Seq<u8> },
    /// A worker finished `id`.
    Response { id: u64, result: SpecHandlerResult },
    /// A validated cancellation of `id`.
    Cancel { id: u64 },
    /// A publish of `content` to `topic`.
    Publish { id: u64, topic: Seq<u8>, content: Seq<u8> },
    /// A subscribe to `topic`.
    Subscribe { id: u64, topic: Seq<u8> },
    /// An unsubscribe from `topic`.
    Unsubscribe { id: u64, topic: Seq<u8> },
    /// A publication fanned out by the hub.
    Publication { seq_id: u64, topic: Seq<u8>, content: Seq<u8> },
    /// The client acknowledged publication `seq_id`.
    InboundAck { seq_id: u64 },
    /// The reader reached the end of the stream.
    Stopping,
    /// The broker told itself to stop.
    Stop,
}

impl View for ServerEvent {
    type V = SpecServerEvent;

    open spec fn view(&self) -> SpecServerEvent {
        match self {
            ServerEvent::TimeoutInfo { id, duration } => SpecServerEvent::TimeoutInfo {
                id: *id,
                duration: *duration,
            },
            ServerEvent::Request { id, service, method, body } => SpecServerEvent::Request {
                id: *id,
                service: service@,
                method: method@,
                body: body@,
            },
            ServerEvent::Response { id, result } => SpecServerEvent::Response {
                id: *id,
                result: spec_handler_result(result),
            },
            ServerEvent::Cancel { id } => SpecServerEvent::Cancel { id: *id },
            ServerEvent::Publish { id, topic, content } => SpecServerEvent::Publish {
                id: *id,
                topic: topic@,
                content: content@,
            },
            ServerEvent::Subscribe { id, topic } => SpecServerEvent::Subscribe {
                id: *id,
                topic: topic@,
            },
            ServerEvent::Unsubscribe { id, topic } => SpecServerEvent::Unsubscribe {
                id: *id,
                topic: topic@,
            },
            ServerEvent::Publication { seq_id, topic, content } => SpecServerEvent::Publication {
                seq_id: *seq_id,
                topic: topic@,
                content: content@,
            },
            ServerEvent::InboundAck { seq_id } => SpecServerEvent::InboundAck { seq_id: *seq_id },
            ServerEvent::Stopping => SpecServerEvent::Stopping,
            ServerEvent::Stop => SpecServerEvent::Stop,
        }
    }
}

impl DeepView for ServerEvent {
    type V = SpecServerEvent;

    open spec fn deep_view(&self) -> SpecServerEvent {
        self@
    }
}

/// What the broker asks the surroundings to do.
pub enum ServerAction {
    /// Spawn a worker for `id` on the named service's method, with its
    /// deadline if one was hinted.
    SpawnWorker { id: u64, service: Vec<u8>, method: Vec<u8>, body: Vec<u8>, duration: Option<u64> },
    /// Signal the worker of `id` to stop, cooperatively.
    CancelWorker { id: u64 },
    /// Enqueue a response for the writer.
    WriteResponse { id: u64, result: Result<Vec<u8>, Error> },
    /// Enqueue an acknowledgement of publish `id` for the writer.
    WriteAck { id: u64 },
    /// Enqueue a publication frame for the writer.
    WritePublication { seq_id: u64, topic: Vec<u8>, content: Vec<u8> },
    /// Enqueue the stopping sentinel: the writer flushes what it has.
    WriteStopping,
    /// Enqueue the final stop: the writer closes the transport.
    WriteStop,
    /// Forward a message to the hub.
    ToHub { event: HubEvent },
    /// Put a `Stop` event on the broker's own mailbox.
    ScheduleStop,
}

/// Ghost mirror of [`ServerAction`].
pub enum SpecServerAction {
    /// Spawn a worker for `id`.
    SpawnWorker { id: u64, service: Seq<u8>, method: Seq<u8>, body: Seq<u8>, duration: Option<u64> },
    /// Signal the worker of `id` to stop.
    CancelWorker { id: u64 },
    /// Enqueue a response for the writer.
    WriteResponse { id: u64, result: SpecHandlerResult },
    /// Enqueue an acknowledgement of publish `id`.
    WriteAck { id: u64 },
    /// Enqueue a publication frame.
    WritePublication { seq_id: u64, topic: Seq<u8>, content: Seq<u8> },
    /// Enqueue the stopping sentinel.
    WriteStopping,
    /// Enqueue the final stop.
    WriteStop,
    /// Forward a message to the hub.
    ToHub { event: SpecHubEvent },
    /// Put a `Stop` event on the broker's own mailbox.
    ScheduleStop,
}

impl View for ServerAction {
    type V = SpecServerAction;

    open spec fn view(&self) -> SpecServerAction {
        match self {
            ServerAction::SpawnWorker { id, service, method, body, duration } =>
                SpecServerAction::SpawnWorker {
                    id: *id,
                    service: service@,
                    method: method@,
                    body: body@,
                    duration: *duration,
                },
            ServerAction::CancelWorker { id } => SpecServerAction::CancelWorker { id: *id },
            ServerAction::WriteResponse { id, result } => SpecServerAction::WriteResponse {
                id: *id,
                result: spec_handler_result(result),
            },
            ServerAction::WriteAck { id } => SpecServerAction::WriteAck { id: *id },
            ServerAction::WritePublication { seq_id, topic, content } =>
                SpecServerAction::WritePublication {
                    seq_id: *seq_id,
                    topic: topic@,
                    content: content@,
                },
            ServerAction::WriteStopping => SpecServerAction::WriteStopping,
            ServerAction::WriteStop => SpecServerAction::WriteStop,
            ServerAction::ToHub { event } => SpecServerAction::ToHub { event: event@ },
            ServerAction::ScheduleStop => SpecServerAction::ScheduleStop,
        }
    }
}

impl DeepView for ServerAction {
    type V = SpecServerAction;

    open spec fn deep_view(&self) -> SpecServerAction {
        self@
    }
}

/// The server broker state.
pub struct ServerBroker {
    /// Which connection this broker serves; it tags hub traffic.
    pub client_id: u64,
    /// The ids whose workers are in flight.
    pub executions: Vec<u64>,
    /// Timeout hints read but not yet consumed by their request.
    pub durations: Vec<(u64, u64)>,
    /// The acknowledgement policy of this connection.
    pub ack_mode: AckMode,
    /// False once `Stop` was handled.
    pub running: bool,
}

/// Ghost mirror of [`ServerBroker`].
pub struct SpecServerBroker {
    /// Which connection this broker serves.
    pub client_id: u64,
    /// The ids whose workers are in flight.
    pub executions: Seq<u64>,
    /// Timeout hints read but not yet consumed.
    pub durations: Seq<(u64, u64)>,
    /// The acknowledgement policy.
    pub ack_mode: AckMode,
    /// False once `Stop` was handled.
    pub running: bool,
}

impl View for ServerBroker {
    type V = SpecServerBroker;

    open spec fn view(&self) -> SpecServerBroker {
        SpecServerBroker {
            client_id: self.client_id,
            executions: self.executions@,
            durations: self.durations@,
            ack_mode: self.ack_mode,
            running: self.running,
        }
    }
}

/// One cancel signal per in-flight worker, in table order.
pub open spec fn cancel_all(ids: Seq<u64>) -> Seq<SpecServerAction> {
    ids.map_values(|id: u64| SpecServerAction::CancelWorker { id })
}

/// How the broker answers one event: the next state and the actions the
/// surroundings must carry out, in order.
pub open spec fn server_step(s: SpecServerBroker, e: SpecServerEvent) -> (
    SpecServerBroker,
    Seq<SpecServerAction>,
) {
    match e {
        SpecServerEvent::TimeoutInfo { id, duration } => (
            SpecServerBroker {
                durations: assoc_remove(s.durations, id).push((id, duration)),
                ..s
            },
            Seq::empty(),
        ),
        SpecServerEvent::Request { id, service, method, body } => (
            SpecServerBroker {
                durations: assoc_remove(s.durations, id),
                executions: if s.executions.contains(id) {
                    s.executions
                } else {
                    s.executions.push(id)
                },
                ..s
            },
            seq![
                SpecServerAction::SpawnWorker {
                    id,
                    service,
                    method,
                    body,
                    duration: assoc_get(s.durations, id),
                },
            ],
        ),
        SpecServerEvent::Response { id, result } => {
            if s.executions.contains(id) {
                (
                    SpecServerBroker { executions: seq_remove_all(s.executions, id), ..s },
                    seq![SpecServerAction::WriteResponse { id, result }],
                )
            } else {
                // A late result: its call was cancelled, or never read as a
                // request. It is dropped without a write.
                (s, Seq::empty())
            }
        },
        SpecServerEvent::Cancel { id } => {
            if s.executions.contains(id) {
                (
                    SpecServerBroker { executions: seq_remove_all(s.executions, id), ..s },
                    seq![SpecServerAction::CancelWorker { id }],
                )
            } else {
                (s, Seq::empty())
            }
        },
        SpecServerEvent::Publish { id, topic, content } => (
            s,
            seq![
                SpecServerAction::ToHub {
                    event: SpecHubEvent::Publish {
                        client_id: s.client_id,
                        msg_id: id,
                        topic,
                        content,
                    },
                },
            ] + if s.ack_mode is Auto {
                seq![SpecServerAction::WriteAck { id }]
            } else {
                Seq::empty()
            },
        ),
        SpecServerEvent::Subscribe { id, topic } => (
            s,
            seq![
                SpecServerAction::ToHub {
                    event: SpecHubEvent::Subscribe { client_id: s.client_id, topic },
                },
            ],
        ),
        SpecServerEvent::Unsubscribe { id, topic } => (
            s,
            seq![
                SpecServerAction::ToHub {
                    event: SpecHubEvent::Unsubscribe { client_id: s.client_id, topic },
                },
            ],
        ),
        SpecServerEvent::Publication { seq_id, topic, content } => (
            s,
            seq![SpecServerAction::WritePublication { seq_id, topic, content }],
        ),
        SpecServerEvent::InboundAck { seq_id } => (
            s,
            seq![
                SpecServerAction::ToHub {
                    event: SpecHubEvent::Ack { seq_id, client_id: s.client_id },
                },
            ],
        ),
        SpecServerEvent::Stopping => (
            SpecServerBroker { executions: Seq::empty(), ..s },
            cancel_all(s.executions) + seq![
                SpecServerAction::WriteStopping,
                SpecServerAction::ToHub {
                    event: SpecHubEvent::Disconnect { client_id: s.client_id },
                },
                SpecServerAction::ScheduleStop,
            ],
        ),
        SpecServerEvent::Stop => (
            SpecServerBroker { running: false, ..s },
            seq![SpecServerAction::WriteStop],
        ),
    }
}

impl ServerBroker {
    /// A fresh broker for one connection: nothing in flight, no hints.
    pub fn new(client_id: u64, ack_mode: AckMode) -> (r: ServerBroker)
        ensures
            r@.client_id == client_id,
            r@.ack_mode == ack_mode,
            r@.executions.len() == 0,
            r@.durations.len() == 0,
            r@.running,
    {
        ServerBroker {
            client_id,
            executions: Vec::new(),
            durations: Vec::new(),
            ack_mode,
            running: true,
        }
    }

    /// Answer one event, as [`server_step`] describes.
    pub fn op(&mut self, e: ServerEvent) -> (actions: Vec<ServerAction>)
        ensures
            final(self)@ == server_step(old(self)@, e@).0,
            actions.deep_view() == server_step(old(self)@, e@).1,
    {
        let ghost s0 = self@;
        let ghost ev = e@;
        let mut actions: Vec<ServerAction> = Vec::new();
        match e {
            ServerEvent::TimeoutInfo { id, duration } => {
                let mut durations = vec_assoc_remove(&self.durations, id);
                durations.push((id, duration));
                self.durations = durations;
            },
            ServerEvent::Request { id, service, method, body } => {
                let duration = vec_assoc_get(&self.durations, id);
                self.durations = vec_assoc_remove(&self.durations, id);
                if !vec_contains(&self.executions, id) {
                    self.executions.push(id);
                }
                actions.push(ServerAction::SpawnWorker { id, service, method, body, duration });
            },
            ServerEvent::Response { id, result } => {
                if vec_contains(&self.executions, id) {
                    self.executions = vec_remove_all(&self.executions, id);
                    actions.push(ServerAction::WriteResponse { id, result });
                }
            },
            ServerEvent::Cancel { id } => {
                if vec_contains(&self.executions, id) {
                    self.executions = vec_remove_all(&self.executions, id);
                    actions.push(ServerAction::CancelWorker { id });
                }
            },
            ServerEvent::Publish { id, topic, content } => {
                let auto = match self.ack_mode {
                    AckMode::Auto => true,
                    _ => false,
                };
                actions.push(
                    ServerAction::ToHub {
                        event: HubEvent::Publish {
                            client_id: self.client_id,
                            msg_id: id,
                            topic,
                            content,
                        },
                    },
                );
                if auto {
                    actions.push(ServerAction::WriteAck { id });
                }
            },
            ServerEvent::Subscribe { id, topic } => {
                actions.push(
                    ServerAction::ToHub {
                        event: HubEvent::Subscribe { client_id: self.client_id, topic },
                    },
                );
            },
            ServerEvent::Unsubscribe { id, topic } => {
                actions.push(
                    ServerAction::ToHub {
                        event: HubEvent::Unsubscribe { client_id: self.client_id, topic },
                    },
                );
            },
            ServerEvent::Publication { seq_id, topic, content } => {
                actions.push(ServerAction::WritePublication { seq_id, topic, content });
            },
            ServerEvent::InboundAck { seq_id } => {
                actions.push(
                    ServerAction::ToHub {
                        event: HubEvent::Ack { seq_id, client_id: self.client_id },
                    },
                );
            },
            ServerEvent::Stopping => {
                let mut i: usize = 0;
                while i < self.executions.len()
                    invariant
                        i <= self.executions@.len(),
                        self == old(self),
                        actions.deep_view() == cancel_all(self.executions@.take(i as int)),
                    decreases self.executions@.len() - i,
                {
                    let ghost prev = actions.deep_view();
                    let ghost prev_raw = actions@;
                    let act = ServerAction::CancelWorker { id: self.executions[i] };
                    actions.push(act);
                    proof {
                        let next = cancel_all(self.executions@.take(i + 1 as int));
                        assert(actions@ == prev_raw.push(act));
                        assert(prev.len() == i);
                        assert(actions.deep_view().len() == i + 1);
                        assert(next.len() == i + 1);
                        assert(actions.deep_view()[i as int] == act@);
                        assert forall|k: int| 0 <= k < i + 1 implies actions.deep_view()[k]
                            == next[k] by {
                            assert(self.executions@.take(i + 1 as int)[k]
                                == self.executions@[k]);
                            if k < i {
                                assert(actions@[k] == prev_raw[k]);
                                assert(actions.deep_view()[k] == prev[k]);
                                assert(self.executions@.take(i as int)[k]
                                    == self.executions@[k]);
                                assert(prev[k] == cancel_all(
                                    self.executions@.take(i as int),
                                )[k]);
                            }
                        }
                        assert(actions.deep_view() =~= next);
                    }
                    i = i + 1;
                }
                proof {
                    assert(self.executions@.take(self.executions@.len() as int)
                        =~= self.executions@);
                }
                self.executions = Vec::new();
                actions.push(ServerAction::WriteStopping);
                actions.push(
                    ServerAction::ToHub {
                        event: HubEvent::Disconnect { client_id: self.client_id },
                    },
                );
                actions.push(ServerAction::ScheduleStop);
                proof {
                    assert(self@.executions =~= Seq::<u64>::empty());
                    assert(actions.deep_view() =~= server_step(s0, ev).1);
                }
            },
            ServerEvent::Stop => {
                self.running = false;
                actions.push(ServerAction::WriteStop);
            },
        }
        proof {
            assert(actions.deep_view() =~= server_step(s0, ev).1);
        }
        actions
    }
}

/// The error a worker reports for a failed handler: a codec failure inside
/// the request body surfaces as `InvalidArgument`, every other error
/// travels unchanged.
pub open spec fn spec_execute_call(result: SpecHandlerResult) -> SpecHandlerResult {
    match result {
        Ok(body) => Ok(body),
        Err(SpecError::ParseError(t)) => Err(SpecError::InvalidArgument),
        Err(e) => Err(e),
    }
}

/// Run one handler outcome through the worker's error policy, as
/// [`spec_execute_call`] describes.
pub fn execute_call(id: u64, result: Result<Vec<u8>, Error>) -> (r: Result<Vec<u8>, Error>)
    ensures
        spec_handler_result(&r) == spec_execute_call(spec_handler_result(&result)),
{
    match result {
        Ok(body) => Ok(body),
        Err(Error::ParseError(t)) => Err(Error::InvalidArgument),
        Err(e) => Err(e),
    }
}

/// The outcome of a deadline-bound call: the handler's outcome when it
/// finished strictly inside the deadline, `Err(Timeout(id))` otherwise. A
/// deadline of zero can only time out, whatever the handler did.
pub open spec fn spec_execute_timed_call(
    id: u64,
    duration: u64,
    elapsed: u64,
    result: SpecHandlerResult,
) -> SpecHandlerResult {
    if elapsed < duration {
        spec_execute_call(result)
    } else {
        Err(SpecError::Timeout(Some(id)))
    }
}

/// Resolve a deadline-bound call: `duration` is the hinted deadline and
/// `elapsed` how long the handler ran, both in nanoseconds.
pub fn execute_timed_call(
    id: u64,
    duration: u64,
    elapsed: u64,
    result: Result<Vec<u8>, Error>,
) -> (r: Result<Vec<u8>, Error>)
    ensures
        spec_handler_result(&r) == spec_execute_timed_call(
            id,
            duration,
            elapsed,
            spec_handler_result(&result),
        ),
        duration == 0 ==> r == Err::<Vec<u8>, Error>(Error::Timeout(Some(id))),
{
    if elapsed < duration {
        execute_call(id, result)
    } else {
        Err(Error::Timeout(Some(id)))
    }
}

/// For any id there is at most one live in-flight entry: the table never
/// holds an id twice, whatever event arrives.
pub proof fn lemma_executions_unique(s: SpecServerBroker, e: SpecServerEvent)
    requires
        s.executions.no_duplicates(),
    ensures
        server_step(s, e).0.executions.no_duplicates(),
{
    let s1 = server_step(s, e).0;
    match e {
        SpecServerEvent::Request { id, .. } => {
            if !s.executions.contains(id) {
                assert(forall|k: int| 0 <= k < s.executions.len() ==> s.executions[k] != id);
                assert(s1.executions =~= s.executions.push(id));
                assert(s1.executions.no_duplicates());
            }
        },
        SpecServerEvent::Response { id, .. } => {
            if s.executions.contains(id) {
                crate::table::lemma_remove_all_no_dup(s.executions, id);
            }
        },
        SpecServerEvent::Cancel { id } => {
            if s.executions.contains(id) {
                crate::table::lemma_remove_all_no_dup(s.executions, id);
            }
        },
        _ => {},
    }
}

/// A whole run of the broker: the final state and every action emitted, in
/// order.
pub open spec fn server_run(s: SpecServerBroker, events: Seq<SpecServerEvent>) -> (
    SpecServerBroker,
    Seq<SpecServerAction>,
)
    decreases events.len(),
{
    if events.len() == 0 {
        (s, Seq::empty())
    } else {
        let (s1, a1) = server_step(s, events[0]);
        let (s2, a2) = server_run(s1, events.skip(1));
        (s2, a1 + a2)
    }
}

/// The id a request event carries.
pub open spec fn event_request_id(e: SpecServerEvent) -> Option<u64> {
    match e {
        SpecServerEvent::Request { id, .. } => Some(id),
        _ => None,
    }
}

/// Does some event of the trace request `id`?
pub open spec fn has_request(events: Seq<SpecServerEvent>, id: u64) -> bool {
    exists|k: int| 0 <= k < events.len() && event_request_id(events[k]) == Some(id)
}

/// The id a written response carries.
pub open spec fn action_response_id(a: SpecServerAction) -> Option<u64> {
    match a {
        SpecServerAction::WriteResponse { id, .. } => Some(id),
        _ => None,
    }
}

/// Does some action of the run write a response for `id`?
pub open spec fn has_response(actions: Seq<SpecServerAction>, id: u64) -> bool {
    exists|k: int| 0 <= k < actions.len() && action_response_id(actions[k]) == Some(id)
}

/// No cancel signal is a response.
proof fn lemma_cancel_all_no_response(ids: Seq<u64>, id: u64)
    ensures
        !has_response(cancel_all(ids), id),
{
    assert forall|k: int| 0 <= k < cancel_all(ids).len() implies action_response_id(
        cancel_all(ids)[k],
    ) != Some(id) by {
        assert(cancel_all(ids)[k] == (SpecServerAction::CancelWorker { id: ids[k] }));
    }
}

/// One step writes a response for `id` only while `id` is in the table,
/// and the table only ever gains ids that a request event carried.
proof fn lemma_step_responses(s: SpecServerBroker, e: SpecServerEvent, id: u64)
    ensures
        has_response(server_step(s, e).1, id) ==> s.executions.contains(id),
        server_step(s, e).0.executions.contains(id) ==> s.executions.contains(id)
            || event_request_id(e) == Some(id),
{
    let (s1, a) = server_step(s, e);
    match e {
        SpecServerEvent::Response { id: rid, result } => {
            if s.executions.contains(rid) {
                crate::table::lemma_seq_remove_all(s.executions, rid);
                if has_response(a, id) {
                    assert(a[0] == (SpecServerAction::WriteResponse { id: rid, result }));
                    assert(id == rid);
                }
            }
        },
        SpecServerEvent::Cancel { id: cid } => {
            if s.executions.contains(cid) {
                crate::table::lemma_seq_remove_all(s.executions, cid);
            }
        },
        SpecServerEvent::Request { id: rid, .. } => {
            if s1.executions.contains(id) && !s.executions.contains(id) {
                if s.executions.contains(rid) {
                    assert(s1.executions == s.executions);
                } else {
                    assert(s1.executions == s.executions.push(rid));
                    let k = choose|k: int| 0 <= k < s1.executions.len()
                        && s1.executions[k] == id;
                    if k < s.executions.len() {
                        assert(s.executions[k] == id);
                    } else {
                        assert(id == rid);
                    }
                }
            }
        },
        SpecServerEvent::Stopping => {
            lemma_cancel_all_no_response(s.executions, id);
            if has_response(a, id) {
                let k = choose|k: int| 0 <= k < a.len() && action_response_id(a[k]) == Some(id);
                if k < cancel_all(s.executions).len() {
                    assert(action_response_id(cancel_all(s.executions)[k]) == Some(id));
                } else {
                    assert(a[k] == seq![
                        SpecServerAction::WriteStopping,
                        SpecServerAction::ToHub {
                            event: SpecHubEvent::Disconnect { client_id: s.client_id },
                        },
                        SpecServerAction::ScheduleStop,
                    ][k - cancel_all(s.executions).len()]);
                }
            }
        },
        _ => {},
    }
}

/// The server never writes a response for an id it did not first read as
/// a request: over any whole run, a response for `id` needs `id` in the
/// starting table or a request event carrying `id`.
#[verifier::rlimit(60)]
#[verifier::spinoff_prover]
pub proof fn lemma_run_responses_requested(
    s: SpecServerBroker,
    events: Seq<SpecServerEvent>,
    id: u64,
)
    ensures
        has_response(server_run(s, events).1, id) ==> s.executions.contains(id) || has_request(
            events,
            id,
        ),
        server_run(s, events).0.executions.contains(id) ==> s.executions.contains(id)
            || has_request(events, id),
    decreases events.len(),
{
    if events.len() > 0 {
        let (s1, a1) = server_step(s, events[0]);
        let (s2, a2) = server_run(s1, events.skip(1));
        lemma_step_responses(s, events[0], id);
        lemma_run_responses_requested(s1, events.skip(1), id);
        assert forall|k: int| 0 <= k < events.skip(1).len() implies events.skip(1)[k]
            == events[k + 1] by {}
        if has_response(a1 + a2, id) {
            let k = choose|k: int| 0 <= k < (a1 + a2).len() && action_response_id(
                (a1 + a2)[k],
            ) == Some(id);
            if k < a1.len() {
                assert(action_response_id(a1[k]) == Some(id));
                assert(has_response(a1, id));
            } else {
                assert(action_response_id(a2[k - a1.len()]) == Some(id));
                assert(has_response(a2, id));
            }
        }
        if has_request(events.skip(1), id) {
            let k = choose|k: int| 0 <= k < events.skip(1).len() && event_request_id(
                events.skip(1)[k],
            ) == Some(id);
            assert(event_request_id(events[k + 1]) == Some(id));
        }
        if event_request_id(events[0]) == Some(id) {
            assert(has_request(events, id));
        }
    }
}

/// A fresh broker starts with an empty table, so over a run from the start
/// of the connection every response id was first read as a request.
pub proof fn lemma_response_needs_request(
    s: SpecServerBroker,
    events: Seq<SpecServerEvent>,
    id: u64,
)
    requires
        s.executions.len() == 0,
        has_response(server_run(s, events).1, id),
    ensures
        has_request(events, id),
{
    lemma_run_responses_requested(s, events, id);
}

/// How many acknowledgements a run writes.
pub open spec fn count_acks(actions: Seq<SpecServerAction>) -> int
    decreases actions.len(),
{
    if actions.len() == 0 {
        0
    } else {
        (match actions[0] {
            SpecServerAction::WriteAck { .. } => 1int,
            _ => 0int,
        }) + count_acks(actions.skip(1))
    }
}

/// How many publish events a trace carries.
pub open spec fn count_publishes(events: Seq<SpecServerEvent>) -> int
    decreases events.len(),
{
    if events.len() == 0 {
        0
    } else {
        (match events[0] {
            SpecServerEvent::Publish { .. } => 1int,
            _ => 0int,
        }) + count_publishes(events.skip(1))
    }
}

/// Ack counting distributes over concatenation.
proof fn lemma_count_acks_append(a: Seq<SpecServerAction>, b: Seq<SpecServerAction>)
    ensures
        count_acks(a + b) == count_acks(a) + count_acks(b),
    decreases a.len(),
{
    if a.len() == 0 {
        assert(a + b =~= b);
    } else {
        assert((a + b).skip(1) =~= a.skip(1) + b);
        lemma_count_acks_append(a.skip(1), b);
    }
}

/// Cancel signals carry no acknowledgements.
proof fn lemma_cancel_all_no_acks(ids: Seq<u64>)
    ensures
        count_acks(cancel_all(ids)) == 0,
    decreases ids.len(),
{
    if ids.len() > 0 {
        assert(cancel_all(ids).skip(1) =~= cancel_all(ids.skip(1)));
        lemma_cancel_all_no_acks(ids.skip(1));
    }
}

/// Counting one action.
proof fn lemma_count_acks_singleton(a: SpecServerAction)
    ensures
        count_acks(seq![a]) == (match a {
            SpecServerAction::WriteAck { .. } => 1int,
            _ => 0int,
        }),
{
    assert(seq![a].skip(1) =~= Seq::<SpecServerAction>::empty());
    assert(count_acks(Seq::<SpecServerAction>::empty()) == 0);
}

/// One step in `Auto` mode writes exactly one acknowledgement for a
/// publish event and none for any other event; the mode never changes.
proof fn lemma_step_acks(s: SpecServerBroker, e: SpecServerEvent)
    requires
        s.ack_mode is Auto,
    ensures
        count_acks(server_step(s, e).1) == (match e {
            SpecServerEvent::Publish { .. } => 1int,
            _ => 0int,
        }),
        server_step(s, e).0.ack_mode == s.ack_mode,
{
    let a = server_step(s, e).1;
    assert(count_acks(Seq::<SpecServerAction>::empty()) == 0);
    match e {
        SpecServerEvent::TimeoutInfo { .. } => {},
        SpecServerEvent::Request { .. } => {
            lemma_count_acks_singleton(a[0]);
            assert(a =~= seq![a[0]]);
        },
        SpecServerEvent::Response { id, result } => {
            if s.executions.contains(id) {
                lemma_count_acks_singleton(a[0]);
                assert(a =~= seq![a[0]]);
            }
        },
        SpecServerEvent::Cancel { id } => {
            if s.executions.contains(id) {
                lemma_count_acks_singleton(a[0]);
                assert(a =~= seq![a[0]]);
            }
        },
        SpecServerEvent::Publish { id, topic, content } => {
            let head = seq![
                SpecServerAction::ToHub {
                    event: SpecHubEvent::Publish {
                        client_id: s.client_id,
                        msg_id: id,
                        topic,
                        content,
                    },
                },
            ];
            let tail = seq![SpecServerAction::WriteAck { id }];
            lemma_count_acks_append(head, tail);
            lemma_count_acks_singleton(head[0]);
            lemma_count_acks_singleton(tail[0]);
            assert(head =~= seq![head[0]]);
            assert(tail =~= seq![tail[0]]);
        },
        SpecServerEvent::Subscribe { .. } => {
            lemma_count_acks_singleton(a[0]);
            assert(a =~= seq![a[0]]);
        },
        SpecServerEvent::Unsubscribe { .. } => {
            lemma_count_acks_singleton(a[0]);
            assert(a =~= seq![a[0]]);
        },
        SpecServerEvent::Publication { .. } => {
            lemma_count_acks_singleton(a[0]);
            assert(a =~= seq![a[0]]);
        },
        SpecServerEvent::InboundAck { .. } => {
            lemma_count_acks_singleton(a[0]);
            assert(a =~= seq![a[0]]);
        },
        SpecServerEvent::Stopping => {
            let tail = seq![
                SpecServerAction::WriteStopping,
                SpecServerAction::ToHub {
                    event: SpecHubEvent::Disconnect { client_id: s.client_id },
                },
                SpecServerAction::ScheduleStop,
            ];
            lemma_count_acks_append(cancel_all(s.executions), tail);
            lemma_cancel_all_no_acks(s.executions);
            assert(tail =~= seq![tail[0]] + (seq![tail[1]] + seq![tail[2]]));
            lemma_count_acks_append(seq![tail[0]], seq![tail[1]] + seq![tail[2]]);
            lemma_count_acks_append(seq![tail[1]], seq![tail[2]]);
            lemma_count_acks_singleton(tail[0]);
            lemma_count_acks_singleton(tail[1]);
            lemma_count_acks_singleton(tail[2]);
            assert(count_acks(tail) == 0);
        },
        SpecServerEvent::Stop => {
            lemma_count_acks_singleton(a[0]);
            assert(a =~= seq![a[0]]);
        },
    }
}

/// Auto-acknowledged publishes yield exactly one ack per accepted publish:
/// over any whole run in `Auto` mode, the acks written and the publishes
/// read count the same.
pub proof fn lemma_auto_ack_one_per_publish(s: SpecServerBroker, events: Seq<SpecServerEvent>)
    requires
        s.ack_mode is Auto,
    ensures
        count_acks(server_run(s, events).1) == count_publishes(events),
    decreases events.len(),
{
    if events.len() > 0 {
        let (s1, a1) = server_step(s, events[0]);
        lemma_step_acks(s, events[0]);
        lemma_auto_ack_one_per_publish(s1, events.skip(1));
        lemma_count_acks_append(a1, server_run(s1, events.skip(1)).1);
    }
}

} // verus!
