//! The per-connection client broker: it allocates message ids, keeps the
//! pending-call table, and resolves every call exactly once — with the
//! response, with `Canceled` when the caller cancelled first, or with a
//! closed-connection outcome when the transport went down. `client_step`
//! is its whole behaviour; `op` implements it exactly.

use vstd::prelude::*;
use crate::message::{Error, spec_handler_result, SpecHandlerResult};
use crate::routing::{make_cancel_token, spec_cancel_token_bytes};
use crate::table::{
    lemma_remove_all_no_dup, lemma_seq_remove_all, seq_remove_all, vec_contains, vec_remove_all,
};

verus! {

/// How a call resolves locally. Server-side errors, timeouts included,
/// arrive inside the `Response` result.
pub enum CallOutcome {
    /// A response arrived for the call.
    Response { result: Result<Vec<u8>, Error> },
    /// The caller cancelled before any response arrived.
    Canceled,
    /// The connection closed before any response arrived.
    Closed,
}

/// Ghost mirror of [`CallOutcome`].
pub enum SpecCallOutcome {
    /// A response arrived.
    Response { result: SpecHandlerResult },
    /// The caller cancelled first.
    Canceled,
    /// The connection closed first.
    Closed,
}

impl View for CallOutcome {
    type V = SpecCallOutcome;

    open spec fn view(&self) -> SpecCallOutcome {
        match self {
            CallOutcome::Response { result } => SpecCallOutcome::Response {
                result: spec_handler_result(result),
            },
            CallOutcome::Canceled => SpecCallOutcome::Canceled,
            CallOutcome::Closed => SpecCallOutcome::Closed,
        }
    }
}

impl DeepView for CallOutcome {
    type V = SpecCallOutcome;

    open spec fn deep_view(&self) -> SpecCallOutcome {
        self@
    }
}

/// What the client broker is told.
pub enum ClientEvent {
    /// The application starts a call of `method` with an encoded body and
    /// an optional deadline in nanoseconds.
    Call { method: Vec<u8>, body: Vec<u8>, timeout: Option<u64> },
    /// The reader decoded a response for `id`.
    ResponseReceived { id: u64, result: Result<Vec<u8>, Error> },
    /// The application cancels the call `id`.
    CancelCall { id: u64 },
    /// The transport closed or failed.
    Shutdown,
}

/// Ghost mirror of [`ClientEvent`].
pub enum SpecClientEvent {
    /// A call of `method` with a body and an optional deadline.
    Call { method: Seq<u8>, body: Seq<u8>, timeout: Option<u64> },
    /// A response for `id`.
    ResponseReceived { id: u64, result: SpecHandlerResult },
    /// A cancellation of `id`.
    CancelCall { id: u64 },
    /// The transport closed or failed.
    Shutdown,
}

impl View for ClientEvent {
    type V = SpecClientEvent;

    open spec fn view(&self) -> SpecClientEvent {
        match self {
            ClientEvent::Call { method, body, timeout } => SpecClientEvent::Call {
                method: method@,
                body: body@,
                timeout: *timeout,
            },
            ClientEvent::ResponseReceived { id, result } => SpecClientEvent::ResponseReceived {
                id: *id,
                result: spec_handler_result(result),
            },
            ClientEvent::CancelCall { id } => SpecClientEvent::CancelCall { id: *id },
            ClientEvent::Shutdown => SpecClientEvent::Shutdown,
        }
    }
}

impl DeepView for ClientEvent {
    type V = SpecClientEvent;

    open spec fn deep_view(&self) -> SpecClientEvent {
        self@
    }
}

/// What the broker asks the surroundings to do.
pub enum ClientAction {
    /// Send a timeout hint ahead of the request with the same id.
    WriteTimeoutInfo { id: u64, duration: u64 },
    /// Send the request itself.
    WriteRequest { id: u64, method: Vec<u8>, body: Vec<u8> },
    /// Send a cancellation, guarded by its token.
    WriteCancel { id: u64, token: Vec<u8> },
    /// Resolve the local waiter of `id` with this outcome, exactly once.
    Deliver { id: u64, outcome: CallOutcome },
}

/// Ghost mirror of [`ClientAction`].
pub enum SpecClientAction {
    /// Send a timeout hint.
    WriteTimeoutInfo { id: u64, duration: u64 },
    /// Send the request itself.
    WriteRequest { id: u64, method: Seq<u8>, body: Seq<u8> },
    /// Send a cancellation.
    WriteCancel { id: u64, token: Seq<u8> },
    /// Resolve the local waiter of `id`.
    Deliver { id: u64, outcome: SpecCallOutcome },
}

impl View for ClientAction {
    type V = SpecClientAction;

    open spec fn view(&self) -> SpecClientAction {
        match self {
            ClientAction::WriteTimeoutInfo { id, duration } => SpecClientAction::WriteTimeoutInfo {
                id: *id,
                duration: *duration,
            },
            ClientAction::WriteRequest { id, method, body } => SpecClientAction::WriteRequest {
                id: *id,
                method: method@,
                body: body@,
            },
            ClientAction::WriteCancel { id, token } => SpecClientAction::WriteCancel {
                id: *id,
                token: token@,
            },
            ClientAction::Deliver { id, outcome } => SpecClientAction::Deliver {
                id: *id,
                outcome: outcome@,
            },
        }
    }
}

impl DeepView for ClientAction {
    type V = SpecClientAction;

    open spec fn deep_view(&self) -> SpecClientAction {
        self@
    }
}

/// The client broker state.
pub struct ClientBroker {
    /// The next message id to allocate.
    pub next_id: u64,
    /// The calls whose outcome was not delivered yet.
    pub pending: Vec<u64>,
    /// False once the connection closed.
    pub open: bool,
}

/// Ghost mirror of [`ClientBroker`].
pub struct SpecClientBroker {
    /// The next message id to allocate.
    pub next_id: u64,
    /// The calls whose outcome was not delivered yet.
    pub pending: Seq<u64>,
    /// False once the connection closed.
    pub open: bool,
}

impl View for ClientBroker {
    type V = SpecClientBroker;

    open spec fn view(&self) -> SpecClientBroker {
        SpecClientBroker { next_id: self.next_id, pending: self.pending@, open: self.open }
    }
}

/// The broker's well-formedness: pending ids are distinct and were all
/// allocated before `next_id`.
pub open spec fn client_wf(s: SpecClientBroker) -> bool {
    &&& s.pending.no_duplicates()
    &&& forall|k: int| 0 <= k < s.pending.len() ==> s.pending[k] < s.next_id
}

/// One closed-connection delivery per pending call, in table order.
pub open spec fn deliver_closed(ids: Seq<u64>) -> Seq<SpecClientAction> {
    ids.map_values(
        |id: u64| SpecClientAction::Deliver { id, outcome: SpecCallOutcome::Closed },
    )
}

/// How the broker answers one event: the next state and the actions the
/// surroundings must carry out, in order.
///
/// A call on a closed connection is resolved at once with `Closed`; a call
/// that would exhaust the id space is refused without an action. A
/// response for an id not pending — resolved, cancelled, or never issued —
/// is dropped. A cancellation of an id not pending is a no-op, not an
/// error. Shutdown resolves everything pending with `Closed`.
pub open spec fn client_step(s: SpecClientBroker, e: SpecClientEvent) -> (
    SpecClientBroker,
    Seq<SpecClientAction>,
) {
    match e {
        SpecClientEvent::Call { method, body, timeout } => {
            if s.next_id == u64::MAX {
                (s, Seq::empty())
            } else if !s.open {
                (
                    SpecClientBroker { next_id: (s.next_id + 1) as u64, ..s },
                    seq![
                        SpecClientAction::Deliver {
                            id: s.next_id,
                            outcome: SpecCallOutcome::Closed,
                        },
                    ],
                )
            } else {
                (
                    SpecClientBroker {
                        next_id: (s.next_id + 1) as u64,
                        pending: s.pending.push(s.next_id),
                        ..s
                    },
                    (match timeout {
                        Some(d) => seq![
                            SpecClientAction::WriteTimeoutInfo { id: s.next_id, duration: d },
                        ],
                        None => Seq::empty(),
                    }) + seq![SpecClientAction::WriteRequest { id: s.next_id, method, body }],
                )
            }
        },
        SpecClientEvent::ResponseReceived { id, result } => {
            if s.pending.contains(id) {
                (
                    SpecClientBroker { pending: seq_remove_all(s.pending, id), ..s },
                    seq![
                        SpecClientAction::Deliver {
                            id,
                            outcome: SpecCallOutcome::Response { result },
                        },
                    ],
                )
            } else {
                (s, Seq::empty())
            }
        },
        SpecClientEvent::CancelCall { id } => {
            if s.pending.contains(id) {
                (
                    SpecClientBroker { pending: seq_remove_all(s.pending, id), ..s },
                    seq![
                        SpecClientAction::Deliver { id, outcome: SpecCallOutcome::Canceled },
                        SpecClientAction::WriteCancel {
                            id,
                            token: spec_cancel_token_bytes(id),
                        },
                    ],
                )
            } else {
                (s, Seq::empty())
            }
        },
        SpecClientEvent::Shutdown => (
            SpecClientBroker { pending: Seq::empty(), open: false, ..s },
            deliver_closed(s.pending),
        ),
    }
}

impl ClientBroker {
    /// A fresh broker on an open connection.
    pub fn new() -> (r: ClientBroker)
        ensures
            r@.next_id == 0,
            r@.pending.len() == 0,
            r@.open,
            client_wf(r@),
    {
        ClientBroker { next_id: 0, pending: Vec::new(), open: true }
    }

    /// Answer one event, as [`client_step`] describes.
    pub fn op(&mut self, e: ClientEvent) -> (actions: Vec<ClientAction>)
        ensures
            final(self)@ == client_step(old(self)@, e@).0,
            actions.deep_view() == client_step(old(self)@, e@).1,
    {
        let ghost s0 = self@;
        let ghost ev = e@;
        let mut actions: Vec<ClientAction> = Vec::new();
        match e {
            ClientEvent::Call { method, body, timeout } => {
                if self.next_id == u64::MAX {
                } else if !self.open {
                    let id = self.next_id;
                    self.next_id = self.next_id + 1;
                    actions.push(ClientAction::Deliver { id, outcome: CallOutcome::Closed });
                } else {
                    let id = self.next_id;
                    self.next_id = self.next_id + 1;
                    self.pending.push(id);
                    match timeout {
                        Some(d) => {
                            actions.push(ClientAction::WriteTimeoutInfo { id, duration: d });
                        },
                        None => {},
                    }
                    actions.push(ClientAction::WriteRequest { id, method, body });
                }
            },
            ClientEvent::ResponseReceived { id, result } => {
                if vec_contains(&self.pending, id) {
                    self.pending = vec_remove_all(&self.pending, id);
                    actions.push(
                        ClientAction::Deliver { id, outcome: CallOutcome::Response { result } },
                    );
                }
            },
            ClientEvent::CancelCall { id } => {
                if vec_contains(&self.pending, id) {
                    self.pending = vec_remove_all(&self.pending, id);
                    actions.push(ClientAction::Deliver { id, outcome: CallOutcome::Canceled });
                    let token = make_cancel_token(id);
                    actions.push(ClientAction::WriteCancel { id, token });
                }
            },
            ClientEvent::Shutdown => {
                let mut i: usize = 0;
                while i < self.pending.len()
                    invariant
                        i <= self.pending@.len(),
                        self == old(self),
                        actions.deep_view() == deliver_closed(self.pending@.take(i as int)),
                    decreases self.pending@.len() - i,
                {
                    let ghost prev = actions.deep_view();
                    let ghost prev_raw = actions@;
                    let act = ClientAction::Deliver {
                        id: self.pending[i],
                        outcome: CallOutcome::Closed,
                    };
                    actions.push(act);
                    proof {
                        let next = deliver_closed(self.pending@.take(i + 1 as int));
                        assert(actions@ == prev_raw.push(act));
                        assert(prev.len() == i);
                        assert(actions.deep_view().len() == i + 1);
                        assert(next.len() == i + 1);
                        assert(actions.deep_view()[i as int] == act@);
                        assert forall|k: int| 0 <= k < i + 1 implies actions.deep_view()[k]
                            == next[k] by {
                            assert(self.pending@.take(i + 1 as int)[k] == self.pending@[k]);
                            if k < i {
                                assert(actions@[k] == prev_raw[k]);
                                assert(actions.deep_view()[k] == prev[k]);
                                assert(self.pending@.take(i as int)[k] == self.pending@[k]);
                                assert(prev[k] == deliver_closed(
                                    self.pending@.take(i as int),
                                )[k]);
                            }
                        }
                        assert(actions.deep_view() =~= next);
                    }
                    i = i + 1;
                }
                proof {
                    assert(self.pending@.take(self.pending@.len() as int) =~= self.pending@);
                }
                self.pending = Vec::new();
                self.open = false;
                proof {
                    assert(self@.pending =~= Seq::<u64>::empty());
                }
            },
        }
        proof {
            assert(actions.deep_view() =~= client_step(s0, ev).1);
        }
        actions
    }
}

/// `cancel()` on an unresolved call produces `Canceled(id)` at the client
/// at once, whatever the server ever does: the cancel step itself resolves
/// the waiter, before the cancel frame even leaves.
pub proof fn lemma_cancel_resolves(s: SpecClientBroker, id: u64)
    requires
        s.pending.contains(id),
    ensures
        ({
            let (s1, a) = client_step(s, SpecClientEvent::CancelCall { id });
            &&& a.len() == 2
            &&& a[0] == (SpecClientAction::Deliver { id, outcome: SpecCallOutcome::Canceled })
            &&& a[1] == (SpecClientAction::WriteCancel {
                id,
                token: spec_cancel_token_bytes(id),
            })
            &&& !s1.pending.contains(id)
        }),
{
    lemma_seq_remove_all(s.pending, id);
}

/// A cancel issued after the call resolved is a no-op, not an error: the
/// state is untouched and nothing is sent or delivered.
pub proof fn lemma_cancel_after_resolution_is_no_op(s: SpecClientBroker, id: u64)
    requires
        !s.pending.contains(id),
    ensures
        client_step(s, SpecClientEvent::CancelCall { id }).0 == s,
        client_step(s, SpecClientEvent::CancelCall { id }).1 == Seq::<SpecClientAction>::empty(),
{
}

/// What the client reader makes of one inbound response message: nothing
/// when the header does not decode; otherwise the response event, with the
/// body as the result on success, the decoded error on a failure, and a
/// codec error when an error body does not decode.
pub open spec fn spec_response_event(header: Seq<u8>, body: Seq<u8>) -> Option<SpecClientEvent> {
    match crate::wire::spec_decode_response_header(header) {
        None => None,
        Some((id, is_error)) => {
            if !is_error {
                Some(SpecClientEvent::ResponseReceived { id, result: Ok(body) })
            } else {
                match crate::errmsg::spec_decode_error_message(body) {
                    Some(m) => Some(
                        SpecClientEvent::ResponseReceived {
                            id,
                            result: Err(crate::message::spec_err_of_message(m)),
                        },
                    ),
                    None => Some(
                        SpecClientEvent::ResponseReceived {
                            id,
                            result: Err(crate::message::SpecError::ParseError(body)),
                        },
                    ),
                }
            }
        },
    }
}

/// Interpret one inbound response message, as [`spec_response_event`]
/// describes.
pub fn response_event(header: &[u8], body: Vec<u8>) -> (r: Option<ClientEvent>)
    ensures
        match r {
            None => spec_response_event(header@, body@) is None,
            Some(e) => spec_response_event(header@, body@) == Some(e@),
        },
{
    let decoded = match crate::wire::decode_response_header(header) {
        Some(h) => h,
        None => {
            return None;
        },
    };
    if !decoded.is_error {
        Some(ClientEvent::ResponseReceived { id: decoded.id, result: Ok(body) })
    } else {
        match crate::errmsg::decode_error_message(body.as_slice()) {
            Some(m) => Some(
                ClientEvent::ResponseReceived { id: decoded.id, result: Err(m.into_err()) },
            ),
            None => Some(
                ClientEvent::ResponseReceived {
                    id: decoded.id,
                    result: Err(Error::ParseError(body)),
                },
            ),
        }
    }
}

/// A whole run of the broker: the final state and every action emitted, in
/// order.
pub open spec fn client_run(s: SpecClientBroker, events: Seq<SpecClientEvent>) -> (
    SpecClientBroker,
    Seq<SpecClientAction>,
)
    decreases events.len(),
{
    if events.len() == 0 {
        (s, Seq::empty())
    } else {
        let (s1, a1) = client_step(s, events[0]);
        let (s2, a2) = client_run(s1, events.skip(1));
        (s2, a1 + a2)
    }
}

/// The ids resolved by the actions of a run, in delivery order.
pub open spec fn delivered_ids(actions: Seq<SpecClientAction>) -> Seq<u64>
    decreases actions.len(),
{
    if actions.len() == 0 {
        Seq::empty()
    } else {
        (match actions[0] {
            SpecClientAction::Deliver { id, .. } => seq![id],
            _ => Seq::empty(),
        }) + delivered_ids(actions.skip(1))
    }
}

/// Delivered ids distribute over concatenation.
proof fn lemma_delivered_ids_append(a: Seq<SpecClientAction>, b: Seq<SpecClientAction>)
    ensures
        delivered_ids(a + b) == delivered_ids(a) + delivered_ids(b),
    decreases a.len(),
{
    if a.len() == 0 {
        assert(a + b =~= b);
        assert(delivered_ids(a) + delivered_ids(b) =~= delivered_ids(b));
    } else {
        assert((a + b).skip(1) =~= a.skip(1) + b);
        lemma_delivered_ids_append(a.skip(1), b);
        assert(delivered_ids(a + b) =~= delivered_ids(a) + delivered_ids(b));
    }
}

/// Closing deliveries resolve exactly the given ids, in order.
proof fn lemma_deliver_closed_ids(ids: Seq<u64>)
    ensures
        delivered_ids(deliver_closed(ids)) == ids,
    decreases ids.len(),
{
    if ids.len() > 0 {
        assert(deliver_closed(ids).skip(1) =~= deliver_closed(ids.skip(1)));
        lemma_deliver_closed_ids(ids.skip(1));
        assert(delivered_ids(deliver_closed(ids)) =~= ids);
    }
}

/// The ids a run issues: one per accepted `Call` event, in order.
pub open spec fn issued_ids(s: SpecClientBroker, events: Seq<SpecClientEvent>) -> Seq<u64>
    decreases events.len(),
{
    if events.len() == 0 {
        Seq::empty()
    } else {
        step_issued(s, events[0]) + issued_ids(client_step(s, events[0]).0, events.skip(1))
    }
}

/// The bookkeeping that carries the exactly-once argument through a run:
/// deliveries are unique, they are spoken for by the old table or by the
/// issues of the run, and whatever is spoken for is either delivered or
/// still pending.
#[verifier::rlimit(60)]
#[verifier::spinoff_prover]
pub proof fn lemma_client_run_accounting(s: SpecClientBroker, events: Seq<SpecClientEvent>)
    requires
        client_wf(s),
    ensures
        ({
            let (s1, acts) = client_run(s, events);
            let d = delivered_ids(acts);
            let issued = issued_ids(s, events);
            &&& client_wf(s1)
            &&& s.next_id <= s1.next_id
            &&& d.no_duplicates()
            &&& issued.no_duplicates()
            &&& forall|id: u64| issued.contains(id) ==> s.next_id <= id < s1.next_id
            &&& forall|id: u64| d.contains(id) ==> s.pending.contains(id) || issued.contains(id)
            &&& forall|id: u64| s1.pending.contains(id) ==> (s.pending.contains(id)
                || issued.contains(id)) && !d.contains(id)
            &&& forall|id: u64| s.pending.contains(id) || issued.contains(id) ==> (d.contains(id)
                <==> !s1.pending.contains(id))
        }),
    decreases events.len(),
{
    let (s1, acts) = client_run(s, events);
    let d = delivered_ids(acts);
    let issued = issued_ids(s, events);
    if events.len() == 0 {
        assert(d =~= Seq::<u64>::empty());
    } else {
        let e = events[0];
        let sm = client_step(s, e).0;
        let a1 = client_step(s, e).1;
        let sf = client_run(sm, events.skip(1)).0;
        let a2 = client_run(sm, events.skip(1)).1;
        let d1 = delivered_ids(a1);
        let d2 = delivered_ids(a2);
        let issued1 = step_issued(s, e);
        let issued2 = issued_ids(sm, events.skip(1));
        lemma_delivered_ids_append(a1, a2);
        assert(d == d1 + d2);
        assert(issued == issued1 + issued2);
        lemma_client_step_accounting(s, e);
        lemma_client_run_accounting(sm, events.skip(1));
        // Ids issued later are fresh with respect to this step.
        assert forall|id: u64| d.contains(id) implies d1.contains(id) || d2.contains(id) by {
            let k = choose|k: int| 0 <= k < d.len() && d[k] == id;
            if k < d1.len() {
                assert(d1[k] == id);
            } else {
                assert(d2[k - d1.len()] == id);
            }
        }
        assert forall|id: u64| issued.contains(id) implies issued1.contains(id)
            || issued2.contains(id) by {
            let k = choose|k: int| 0 <= k < issued.len() && issued[k] == id;
            if k < issued1.len() {
                assert(issued1[k] == id);
            } else {
                assert(issued2[k - issued1.len()] == id);
            }
        }
        assert forall|id: u64| d1.contains(id) implies d.contains(id) by {
            let k = choose|k: int| 0 <= k < d1.len() && d1[k] == id;
            assert(d[k] == id);
        }
        assert forall|id: u64| d2.contains(id) implies d.contains(id) by {
            let k = choose|k: int| 0 <= k < d2.len() && d2[k] == id;
            assert(d[k + d1.len()] == id);
        }
        assert forall|id: u64| issued1.contains(id) implies issued.contains(id) by {
            let k = choose|k: int| 0 <= k < issued1.len() && issued1[k] == id;
            assert(issued[k] == id);
        }
        assert forall|id: u64| issued2.contains(id) implies issued.contains(id) by {
            let k = choose|k: int| 0 <= k < issued2.len() && issued2[k] == id;
            assert(issued[k + issued1.len()] == id);
        }
        assert(d.no_duplicates()) by {
            assert forall|i: int, j: int| 0 <= i < j < d.len() implies d[i] != d[j] by {
                if j < d1.len() {
                } else if i >= d1.len() {
                    assert(d2[i - d1.len()] != d2[j - d1.len()]);
                } else {
                    assert(d1.contains(d[i]));
                    assert(d2.contains(d[j]));
                    if d[i] == d[j] {
                        assert(d2.contains(d[i]));
                        assert(sm.pending.contains(d[i]) || issued2.contains(d[i]));
                        assert(d1.contains(d[i]));
                        assert(s.pending.contains(d[i]) || issued1.contains(d[i]));
                        assert(!sm.pending.contains(d[i]));
                        assert(issued2.contains(d[i]));
                        assert(sm.next_id <= d[i]);
                        if s.pending.contains(d[i]) {
                            let k2 = choose|k2: int|
                                0 <= k2 < s.pending.len() && s.pending[k2] == d[i];
                            assert(s.pending[k2] < s.next_id);
                        }
                        assert(d[i] < sm.next_id);
                    }
                }
            }
        }
        assert(issued.no_duplicates()) by {
            assert forall|i: int, j: int| 0 <= i < j < issued.len() implies issued[i]
                != issued[j] by {
                if j < issued1.len() {
                } else if i >= issued1.len() {
                    assert(issued2[i - issued1.len()] != issued2[j - issued1.len()]);
                } else {
                    assert(issued1.contains(issued[i]));
                    assert(issued2.contains(issued[j]));
                    assert(issued[i] < sm.next_id);
                    assert(sm.next_id <= issued[j]);
                }
            }
        }
        // An id known before this step stays under the middle watermark,
        // so later issues never collide with it.
        assert forall|id: u64| s.pending.contains(id) || issued1.contains(id) implies id
            < sm.next_id by {
            if s.pending.contains(id) {
                let k = choose|k: int| 0 <= k < s.pending.len() && s.pending[k] == id;
                assert(s.pending[k] < s.next_id);
            }
        }
        assert forall|id: u64| issued.contains(id) implies s.next_id <= id < s1.next_id by {
            if issued1.contains(id) {
            } else {
                assert(issued2.contains(id));
            }
        }
        assert forall|id: u64| d.contains(id) implies s.pending.contains(id) || issued.contains(
            id,
        ) by {
            if d1.contains(id) {
            } else {
                assert(d2.contains(id));
                assert(sm.pending.contains(id) || issued2.contains(id));
            }
        }
        assert forall|id: u64| s1.pending.contains(id) implies (s.pending.contains(id)
            || issued.contains(id)) && !d.contains(id) by {
            assert(sm.pending.contains(id) || issued2.contains(id));
            assert(!d2.contains(id));
            assert(!d1.contains(id)) by {
                if d1.contains(id) {
                    assert(s.pending.contains(id) || issued1.contains(id));
                    assert(id < sm.next_id);
                    if sm.pending.contains(id) {
                        assert(!d1.contains(id));
                    } else {
                        assert(issued2.contains(id));
                        assert(sm.next_id <= id);
                    }
                }
            }
            if d.contains(id) {
                assert(d1.contains(id) || d2.contains(id));
            }
        }
        assert forall|id: u64| s.pending.contains(id) || issued.contains(id) implies (d.contains(
            id,
        ) <==> !s1.pending.contains(id)) by {
            if s.pending.contains(id) || issued1.contains(id) {
                assert(id < sm.next_id);
                assert(!issued2.contains(id));
                assert(s.pending.contains(id) || step_issued(s, e).contains(id));
                assert(d1.contains(id) <==> !sm.pending.contains(id)) by {
                    if d1.contains(id) {
                        assert(!sm.pending.contains(id));
                    } else {
                        if !sm.pending.contains(id) {
                            lemma_step_delivers(s, e, id);
                        }
                    }
                }
                if d1.contains(id) {
                    assert(d.contains(id));
                    assert(!sm.pending.contains(id));
                    if s1.pending.contains(id) {
                        assert(sm.pending.contains(id) || issued2.contains(id));
                    }
                    assert(!s1.pending.contains(id));
                } else {
                    assert(sm.pending.contains(id));
                    if d2.contains(id) {
                        assert(d.contains(id));
                        assert(!s1.pending.contains(id));
                    } else {
                        assert(s1.pending.contains(id));
                        if d.contains(id) {
                            assert(d1.contains(id) || d2.contains(id));
                        }
                        assert(!d.contains(id));
                    }
                }
            } else {
                assert(issued2.contains(id));
                assert(sm.next_id <= id);
                assert(!d1.contains(id)) by {
                    if d1.contains(id) {
                        assert(s.pending.contains(id) || issued1.contains(id));
                        assert(id < sm.next_id);
                    }
                }
                if d2.contains(id) {
                    assert(d.contains(id));
                    assert(!s1.pending.contains(id));
                } else {
                    assert(s1.pending.contains(id));
                    if d.contains(id) {
                        assert(d1.contains(id) || d2.contains(id));
                    }
                    assert(!d.contains(id));
                }
            }
        }
    }
}

/// The ids one step issues: the fresh id of an accepted `Call`.
pub open spec fn step_issued(s: SpecClientBroker, e: SpecClientEvent) -> Seq<u64> {
    match e {
        SpecClientEvent::Call { .. } => if s.next_id == u64::MAX {
            Seq::empty()
        } else {
            seq![s.next_id]
        },
        _ => Seq::empty(),
    }
}

/// Actions that resolve nothing deliver nothing.
proof fn lemma_no_deliver(a: Seq<SpecClientAction>)
    requires
        forall|k: int| 0 <= k < a.len() ==> !(#[trigger] a[k] is Deliver),
    ensures
        delivered_ids(a) == Seq::<u64>::empty(),
    decreases a.len(),
{
    if a.len() > 0 {
        assert(forall|k: int| 0 <= k < a.skip(1).len() ==> a.skip(1)[k] == a[k + 1]);
        lemma_no_deliver(a.skip(1));
        assert(delivered_ids(a) =~= Seq::<u64>::empty());
    }
}

/// What one action delivers.
proof fn lemma_delivered_singleton(x: SpecClientAction)
    ensures
        delivered_ids(seq![x]) == (match x {
            SpecClientAction::Deliver { id, .. } => seq![id],
            _ => Seq::<u64>::empty(),
        }),
{
    assert(seq![x].skip(1) =~= Seq::<SpecClientAction>::empty());
    assert(delivered_ids(Seq::<SpecClientAction>::empty()) =~= Seq::<u64>::empty());
    assert(delivered_ids(seq![x]) =~= (match x {
        SpecClientAction::Deliver { id, .. } => seq![id],
        _ => Seq::<u64>::empty(),
    }));
}

/// One instance of the step accounting: a call known to the old table or
/// issued by this step, and no longer pending, was delivered by this step.
proof fn lemma_step_delivers(s: SpecClientBroker, e: SpecClientEvent, id: u64)
    requires
        client_wf(s),
        s.pending.contains(id) || step_issued(s, e).contains(id),
        !client_step(s, e).0.pending.contains(id),
    ensures
        delivered_ids(client_step(s, e).1).contains(id),
{
    lemma_client_step_accounting(s, e);
}

/// What one step does to the books: stated over [`client_step`] alone.
proof fn lemma_client_step_accounting(s: SpecClientBroker, e: SpecClientEvent)
    requires
        client_wf(s),
    ensures
        client_wf(client_step(s, e).0),
        s.next_id <= client_step(s, e).0.next_id,
        delivered_ids(client_step(s, e).1).no_duplicates(),
        forall|id: u64| step_issued(s, e).contains(id) ==> s.next_id <= id < client_step(
            s,
            e,
        ).0.next_id,
        forall|id: u64| delivered_ids(client_step(s, e).1).contains(id) ==> s.pending.contains(
            id,
        ) || step_issued(s, e).contains(id),
        forall|id: u64| client_step(s, e).0.pending.contains(id) ==> (s.pending.contains(id)
            || step_issued(s, e).contains(id)) && !delivered_ids(client_step(s, e).1).contains(
            id,
        ),
        forall|id: u64| s.pending.contains(id) || step_issued(s, e).contains(id) ==> (
        delivered_ids(client_step(s, e).1).contains(id) <==> !client_step(s, e).0.pending.contains(
            id,
        )),
        forall|id: u64| #[trigger] delivered_ids(client_step(s, e).1).contains(id)
            ==> !client_step(s, e).0.pending.contains(id),
        forall|id: u64| (#[trigger] s.pending.contains(id) || #[trigger] step_issued(
            s,
            e,
        ).contains(id)) && !client_step(s, e).0.pending.contains(id) ==> delivered_ids(
            client_step(s, e).1,
        ).contains(id),
{
    let (s1, a) = client_step(s, e);
    let d = delivered_ids(a);
    assert(delivered_ids(Seq::<SpecClientAction>::empty()) =~= Seq::<u64>::empty());
    match e {
        SpecClientEvent::Call { method, body, timeout } => {
            if s.next_id == u64::MAX {
            } else if !s.open {
                assert(a =~= seq![a[0]]);
                lemma_delivered_singleton(a[0]);
                assert(d == seq![s.next_id]);
                assert(forall|k: int| 0 <= k < s.pending.len() ==> s.pending[k] != s.next_id);
                assert(!s.pending.contains(s.next_id));
                assert forall|y: u64| #[trigger] d.contains(y) implies y == s.next_id by {
                    let k = choose|k: int| 0 <= k < d.len() && d[k] == y;
                }
                assert(d.contains(s.next_id)) by {
                    assert(d[0] == s.next_id);
                }
                assert(d.no_duplicates());
                let issued = seq![s.next_id];
                assert(issued.contains(s.next_id)) by {
                    assert(issued[0] == s.next_id);
                }
                assert forall|y: u64| #[trigger] issued.contains(y) implies y == s.next_id by {
                    let k = choose|k: int| 0 <= k < issued.len() && issued[k] == y;
                }
                let s1c = client_step(s, e).0;
                assert(s1c.pending == s.pending);
                assert(client_wf(s1c)) by {
                    assert(forall|k: int| 0 <= k < s1c.pending.len() ==> s1c.pending[k]
                        < s1c.next_id);
                }
                assert forall|id: u64| s.pending.contains(id) || issued.contains(id) implies (
                d.contains(id) <==> !s1c.pending.contains(id)) by {
                    if s.pending.contains(id) {
                        assert(id != s.next_id);
                        assert(!d.contains(id));
                    } else {
                        assert(id == s.next_id);
                        assert(d.contains(id));
                        assert(!s1c.pending.contains(id));
                    }
                }
            } else {
                assert(forall|k: int| 0 <= k < a.len() ==> !(#[trigger] a[k] is Deliver)) by {
                    match timeout {
                        Some(dur) => {
                            assert(a.len() == 2);
                            assert(a[0] is WriteTimeoutInfo);
                            assert(a[1] is WriteRequest);
                        },
                        None => {
                            assert(a.len() == 1);
                            assert(a[0] is WriteRequest);
                        },
                    }
                }
                lemma_no_deliver(a);
                assert(d == Seq::<u64>::empty());
                let issued = seq![s.next_id];
                assert(issued.contains(s.next_id)) by {
                    assert(issued[0] == s.next_id);
                }
                assert forall|y: u64| #[trigger] issued.contains(y) implies y == s.next_id by {
                    let k = choose|k: int| 0 <= k < issued.len() && issued[k] == y;
                }
                assert(forall|k: int| 0 <= k < s.pending.len() ==> s.pending[k] != s.next_id);
                assert(!s.pending.contains(s.next_id));
                assert(s1.pending =~= s.pending.push(s.next_id));
                assert forall|id: u64| s1.pending.contains(id) implies s.pending.contains(id)
                    || id == s.next_id by {
                    let k = choose|k: int| 0 <= k < s1.pending.len() && s1.pending[k] == id;
                    if k < s.pending.len() {
                        assert(s.pending[k] == id);
                    }
                }
                assert(s1.pending.no_duplicates());
                assert(s1.pending.contains(s.next_id)) by {
                    assert(s1.pending[s.pending.len() as int] == s.next_id);
                }
                assert forall|id: u64| s.pending.contains(id) implies s1.pending.contains(
                    id,
                ) by {
                    let k = choose|k: int| 0 <= k < s.pending.len() && s.pending[k] == id;
                    assert(s1.pending[k] == id);
                }
                assert(client_wf(s1)) by {
                    assert(forall|k: int| 0 <= k < s1.pending.len() ==> s1.pending[k]
                        < s1.next_id);
                }
                assert(d.no_duplicates());
                assert(forall|id: u64| issued.contains(id) ==> s.next_id <= id < s1.next_id);
                assert(forall|id: u64| d.contains(id) ==> s.pending.contains(id)
                    || issued.contains(id));
                assert(forall|id: u64| s1.pending.contains(id) ==> (s.pending.contains(id)
                    || issued.contains(id)) && !d.contains(id));
                assert forall|id: u64| s.pending.contains(id) || issued.contains(id) implies (
                d.contains(id) <==> !s1.pending.contains(id)) by {
                    if issued.contains(id) {
                        assert(id == s.next_id);
                        assert(s1.pending.contains(id));
                    }
                }
            }
        },
        SpecClientEvent::ResponseReceived { id: rid, result } => {
            if s.pending.contains(rid) {
                assert(a =~= seq![a[0]]);
                lemma_delivered_singleton(a[0]);
                assert(d == seq![rid]);
                lemma_seq_remove_all(s.pending, rid);
                lemma_remove_all_no_dup(s.pending, rid);
                lemma_removed_books(s, rid, d);
            }
        },
        SpecClientEvent::CancelCall { id: cid } => {
            if s.pending.contains(cid) {
                assert(a =~= seq![a[0]] + seq![a[1]]);
                lemma_delivered_ids_append(seq![a[0]], seq![a[1]]);
                lemma_delivered_singleton(a[0]);
                lemma_delivered_singleton(a[1]);
                assert(d == delivered_ids(a));
                assert(delivered_ids(a) =~= seq![cid]);
                lemma_seq_remove_all(s.pending, cid);
                lemma_remove_all_no_dup(s.pending, cid);
                lemma_removed_books(s, cid, d);
            }
        },
        SpecClientEvent::Shutdown => {
            lemma_deliver_closed_ids(s.pending);
            assert(d == s.pending);
        },
    }
}

/// After resolving `rid`, the table is still well formed under the same
/// id bound, and the single delivery accounts for exactly `rid`.
proof fn lemma_removed_books(s: SpecClientBroker, rid: u64, d: Seq<u64>)
    requires
        client_wf(s),
        s.pending.contains(rid),
        d == seq![rid],
    ensures
        ({
            let p1 = seq_remove_all(s.pending, rid);
            &&& p1.no_duplicates()
            &&& forall|k: int| 0 <= k < p1.len() ==> p1[k] < s.next_id
            &&& forall|id: u64| s.pending.contains(id) ==> (d.contains(id) <==> !p1.contains(
                id,
            ))
            &&& forall|id: u64| #[trigger] d.contains(id) ==> s.pending.contains(id)
            &&& forall|id: u64| p1.contains(id) ==> s.pending.contains(id) && !d.contains(id)
        }),
{
    let p1 = seq_remove_all(s.pending, rid);
    lemma_seq_remove_all(s.pending, rid);
    lemma_remove_all_no_dup(s.pending, rid);
    assert(d.contains(rid)) by {
        assert(d[0] == rid);
    }
    assert forall|y: u64| #[trigger] d.contains(y) implies y == rid by {
        let k = choose|k: int| 0 <= k < d.len() && d[k] == y;
    }
    assert forall|k: int| 0 <= k < p1.len() implies p1[k] < s.next_id by {
        assert(p1.contains(p1[k]));
        assert(s.pending.contains(p1[k]));
        let j = choose|j: int| 0 <= j < s.pending.len() && s.pending[j] == p1[k];
    }
}

/// Every call the client issues resolves exactly once. Over any run that
/// ends with the connection's shutdown: nothing stays pending, no id is
/// resolved twice, only issued or already pending calls are resolved, and
/// every issued or already pending call is resolved.
pub proof fn lemma_exactly_one_outcome(s: SpecClientBroker, events: Seq<SpecClientEvent>)
    requires
        client_wf(s),
        events.len() > 0,
        events.last() is Shutdown,
    ensures
        ({
            let (s1, acts) = client_run(s, events);
            let d = delivered_ids(acts);
            let issued = issued_ids(s, events);
            &&& s1.pending.len() == 0
            &&& d.no_duplicates()
            &&& forall|id: u64| d.contains(id) ==> s.pending.contains(id) || issued.contains(id)
            &&& forall|id: u64| s.pending.contains(id) || issued.contains(id) ==> d.contains(id)
        }),
{
    lemma_client_run_accounting(s, events);
    lemma_run_ends_closed(s, events);
}

/// A run whose last event is the shutdown leaves nothing pending.
proof fn lemma_run_ends_closed(s: SpecClientBroker, events: Seq<SpecClientEvent>)
    requires
        events.len() > 0,
        events.last() is Shutdown,
    ensures
        client_run(s, events).0.pending.len() == 0,
    decreases events.len(),
{
    let (s1, a1) = client_step(s, events[0]);
    if events.len() == 1 {
        assert(events[0] is Shutdown);
        assert(client_run(s1, events.skip(1)).0 == s1);
    } else {
        assert(events.skip(1).len() > 0);
        assert(events.skip(1).last() == events.last());
        lemma_run_ends_closed(s1, events.skip(1));
    }
}

/// The client-side view of one topic subscription: publications arrive,
/// possibly more than once under `Manual` retries, and each distinct
/// sequence id is handed to the application exactly once.
pub struct SubscriptionStream {
    /// The topic this stream listens to.
    pub topic: Vec<u8>,
    /// The sequence ids already handed over.
    pub seen: Vec<u64>,
}

/// Ghost mirror of [`SubscriptionStream`].
pub struct SpecSubscriptionStream {
    /// The topic this stream listens to.
    pub topic: Seq<u8>,
    /// The sequence ids already handed over.
    pub seen: Seq<u64>,
}

impl View for SubscriptionStream {
    type V = SpecSubscriptionStream;

    open spec fn view(&self) -> SpecSubscriptionStream {
        SpecSubscriptionStream { topic: self.topic@, seen: self.seen@ }
    }
}

impl SubscriptionStream {
    /// A fresh stream for `topic` with nothing delivered yet.
    pub fn new(topic: Vec<u8>) -> (r: SubscriptionStream)
        ensures
            r@.topic == topic@,
            r@.seen.len() == 0,
    {
        SubscriptionStream { topic, seen: Vec::new() }
    }

    /// Take one publication in. The result says whether the payload goes
    /// to the application: it does exactly when this sequence id was never
    /// seen before, so a retried publication is handed over once. The
    /// caller acknowledges every receipt, duplicate or not.
    pub fn on_publication(&mut self, seq_id: u64) -> (deliver: bool)
        ensures
            deliver <==> !old(self)@.seen.contains(seq_id),
            final(self)@.topic == old(self)@.topic,
            forall|x: u64| final(self)@.seen.contains(x) <==> old(self)@.seen.contains(x)
                || x == seq_id,
    {
        if vec_contains(&self.seen, seq_id) {
            proof {
                assert(forall|x: u64| self@.seen.contains(x) <==> old(self)@.seen.contains(x)
                    || x == seq_id);
            }
            false
        } else {
            self.seen.push(seq_id);
            proof {
                assert forall|x: u64| self@.seen.contains(x) implies old(self)@.seen.contains(x)
                    || x == seq_id by {
                    let k = choose|k: int| 0 <= k < self@.seen.len() && self@.seen[k] == x;
                    if k < old(self)@.seen.len() {
                        assert(old(self)@.seen[k] == x);
                    }
                }
                assert forall|x: u64| old(self)@.seen.contains(x) || x == seq_id implies self@
                    .seen.contains(x) by {
                    if old(self)@.seen.contains(x) {
                        let k = choose|k: int|
                            0 <= k < old(self)@.seen.len() && old(self)@.seen[k] == x;
                        assert(self@.seen[k] == x);
                    } else {
                        assert(self@.seen[old(self)@.seen.len() as int] == seq_id);
                    }
                }
            }
            true
        }
    }
}

/// How many times a stream hands `target` to the application while the
/// given sequence ids arrive, in order.
pub open spec fn stream_deliveries(
    s: SpecSubscriptionStream,
    arrivals: Seq<u64>,
    target: u64,
) -> int
    decreases arrivals.len(),
{
    if arrivals.len() == 0 {
        0
    } else {
        let here: int = if arrivals[0] == target && !s.seen.contains(target) {
            1
        } else {
            0
        };
        here + stream_deliveries(stream_step(s, arrivals[0]), arrivals.skip(1), target)
    }
}

/// What one arrival does to the stream's state.
pub open spec fn stream_step(s: SpecSubscriptionStream, seq_id: u64) -> SpecSubscriptionStream {
    if s.seen.contains(seq_id) {
        s
    } else {
        SpecSubscriptionStream { seen: s.seen.push(seq_id), ..s }
    }
}

/// A publication retried any number of times is handed to the application
/// exactly once: as often as its sequence id arrives at all.
pub proof fn lemma_retry_delivers_once(
    s: SpecSubscriptionStream,
    arrivals: Seq<u64>,
    target: u64,
)
    requires
        !s.seen.contains(target),
        arrivals.contains(target),
    ensures
        stream_deliveries(s, arrivals, target) == 1,
    decreases arrivals.len(),
{
    let s1 = stream_step(s, arrivals[0]);
    if arrivals[0] == target {
        assert(s1.seen.contains(target)) by {
            if !s.seen.contains(arrivals[0]) {
                assert(s1.seen[s.seen.len() as int] == target);
            }
        }
        lemma_seen_stays_zero(s1, arrivals.skip(1), target);
    } else {
        assert(!s1.seen.contains(target)) by {
            if !s.seen.contains(arrivals[0]) {
                assert forall|x: u64| s1.seen.contains(x) implies s.seen.contains(x)
                    || x == arrivals[0] by {
                    let k = choose|k: int| 0 <= k < s1.seen.len() && s1.seen[k] == x;
                    if k < s.seen.len() {
                        assert(s.seen[k] == x);
                    }
                }
            }
        }
        assert(arrivals.skip(1).contains(target)) by {
            let k = choose|k: int| 0 <= k < arrivals.len() && arrivals[k] == target;
            assert(arrivals.skip(1)[k - 1] == target);
        }
        lemma_retry_delivers_once(s1, arrivals.skip(1), target);
    }
}

/// Once seen, a sequence id is never handed over again.
proof fn lemma_seen_stays_zero(s: SpecSubscriptionStream, arrivals: Seq<u64>, target: u64)
    requires
        s.seen.contains(target),
    ensures
        stream_deliveries(s, arrivals, target) == 0,
    decreases arrivals.len(),
{
    if arrivals.len() > 0 {
        let s1 = stream_step(s, arrivals[0]);
        assert(s1.seen.contains(target)) by {
            if !s.seen.contains(arrivals[0]) {
                let k = choose|k: int| 0 <= k < s.seen.len() && s.seen[k] == target;
                assert(s1.seen[k] == target);
            }
        }
        lemma_seen_stays_zero(s1, arrivals.skip(1), target);
    }
}

} // verus!
