//! Classification of an inbound request header: reserved control values,
//! publish/subscribe prefixes, and the dotted `service.method` form; and
//! the cancellation token that guards a cancel body.

use vstd::prelude::*;
use crate::digits::{dec_digits, encode_u64, lemma_dec_digits_val, parse_u64, parse_u64_spec};
use crate::message::{
    ack_token, cancel_base, cancellation_token, publish_token, spec_ack_token, spec_cancel_base,
    spec_cancellation_token, spec_publish_token, spec_subscribe_token, spec_timeout_token,
    spec_unsubscribe_token, subscribe_token, timeout_token, unsubscribe_token, DOT,
};
use crate::util::{bytes_eq, starts_with, sub_bytes};

verus! {

/// What a request header announces, after the reserved values are told
/// apart from ordinary calls.
pub enum RequestKind {
    /// An ordinary call of `method` on `service`.
    Call { service: Vec<u8>, method: Vec<u8> },
    /// A cancellation of the request with the header's id.
    Cancel,
    /// A timeout hint for the request that follows with the same id.
    TimeoutHint,
    /// A publish to `topic`; the body is the payload.
    Publish { topic: Vec<u8> },
    /// A subscribe to `topic`.
    Subscribe { topic: Vec<u8> },
    /// An unsubscribe from `topic`.
    Unsubscribe { topic: Vec<u8> },
    /// An acknowledgement; the body is the sequence id.
    Ack,
    /// None of the above: a name without a dot is answered with
    /// `MethodNotFound`.
    Unrecognized,
}

/// Ghost mirror of [`RequestKind`].
pub enum SpecRequestKind {
    /// An ordinary call of `method` on `service`.
    Call { service: Seq<u8>, method: Seq<u8> },
    /// A cancellation of the request with the header's id.
    Cancel,
    /// A timeout hint for the request that follows with the same id.
    TimeoutHint,
    /// A publish to `topic`.
    Publish { topic: Seq<u8> },
    /// A subscribe to `topic`.
    Subscribe { topic: Seq<u8> },
    /// An unsubscribe from `topic`.
    Unsubscribe { topic: Seq<u8> },
    /// An acknowledgement.
    Ack,
    /// None of the above.
    Unrecognized,
}

impl View for RequestKind {
    type V = SpecRequestKind;

    open spec fn view(&self) -> SpecRequestKind {
        match self {
            RequestKind::Call { service, method } => SpecRequestKind::Call {
                service: service@,
                method: method@,
            },
            RequestKind::Cancel => SpecRequestKind::Cancel,
            RequestKind::TimeoutHint => SpecRequestKind::TimeoutHint,
            RequestKind::Publish { topic } => SpecRequestKind::Publish { topic: topic@ },
            RequestKind::Subscribe { topic } => SpecRequestKind::Subscribe { topic: topic@ },
            RequestKind::Unsubscribe { topic } => SpecRequestKind::Unsubscribe { topic: topic@ },
            RequestKind::Ack => SpecRequestKind::Ack,
            RequestKind::Unrecognized => SpecRequestKind::Unrecognized,
        }
    }
}

/// Index of the last dot in `s`, or `-1`.
pub open spec fn last_dot(s: Seq<u8>) -> int
    decreases s.len(),
{
    if s.len() == 0 {
        -1
    } else if s.last() == DOT {
        s.len() - 1
    } else {
        last_dot(s.drop_last())
    }
}

/// Index of the first dot in `s`, or `-1`.
pub open spec fn first_dot(s: Seq<u8>) -> int
    decreases s.len(),
{
    if s.len() == 0 {
        -1
    } else if s[0] == DOT {
        0
    } else {
        let r = first_dot(s.skip(1));
        if r < 0 {
            -1
        } else {
            r + 1
        }
    }
}

/// The last dot lies in the string, on a dot, with none after it.
pub proof fn lemma_last_dot(s: Seq<u8>)
    ensures
        -1 <= last_dot(s) < s.len(),
        last_dot(s) >= 0 ==> s[last_dot(s)] == DOT,
        forall|k: int| last_dot(s) < k < s.len() ==> s[k] != DOT,
    decreases s.len(),
{
    if s.len() > 0 && s.last() != DOT {
        lemma_last_dot(s.drop_last());
        assert(forall|k: int| 0 <= k < s.len() - 1 ==> s[k] == s.drop_last()[k]);
    }
}

/// The first dot lies in the string, on a dot, with none before it.
pub proof fn lemma_first_dot(s: Seq<u8>)
    ensures
        -1 <= first_dot(s) < s.len(),
        first_dot(s) >= 0 ==> s[first_dot(s)] == DOT,
        first_dot(s) >= 0 ==> forall|k: int| 0 <= k < first_dot(s) ==> s[k] != DOT,
        first_dot(s) < 0 ==> forall|k: int| 0 <= k < s.len() ==> s[k] != DOT,
    decreases s.len(),
{
    if s.len() > 0 && s[0] != DOT {
        lemma_first_dot(s.skip(1));
        assert(forall|k: int| 0 <= k < s.len() - 1 ==> s.skip(1)[k] == s[k + 1]);
        assert(forall|k: int| 1 <= k < s.len() ==> #[trigger] s[k] == s.skip(1)[k - 1]);
    }
}

/// A token followed by a dot, as a prefix of publish, subscribe and
/// unsubscribe names.
pub open spec fn spec_token_dot(tok: Seq<u8>) -> Seq<u8> {
    tok + seq![DOT]
}

/// How a `service_method` value is classified, reserved values first.
pub open spec fn spec_classify(sm: Seq<u8>) -> SpecRequestKind {
    if sm == spec_cancellation_token() {
        SpecRequestKind::Cancel
    } else if sm == spec_timeout_token() {
        SpecRequestKind::TimeoutHint
    } else if sm == spec_ack_token() {
        SpecRequestKind::Ack
    } else if spec_token_dot(spec_publish_token()).is_prefix_of(sm) {
        SpecRequestKind::Publish { topic: sm.skip(spec_publish_token().len() + 1 as int) }
    } else if spec_token_dot(spec_subscribe_token()).is_prefix_of(sm) {
        SpecRequestKind::Subscribe { topic: sm.skip(spec_subscribe_token().len() + 1 as int) }
    } else if spec_token_dot(spec_unsubscribe_token()).is_prefix_of(sm) {
        SpecRequestKind::Unsubscribe { topic: sm.skip(spec_unsubscribe_token().len() + 1 as int) }
    } else if last_dot(sm) >= 0 {
        SpecRequestKind::Call {
            service: sm.take(last_dot(sm)),
            method: sm.skip(last_dot(sm) + 1),
        }
    } else {
        SpecRequestKind::Unrecognized
    }
}

/// Find the last dot of `s`, or `s.len()` when there is none.
fn find_last_dot(s: &[u8]) -> (r: Option<usize>)
    ensures
        match r {
            Some(i) => last_dot(s@) == i as int,
            None => last_dot(s@) == -1,
        },
{
    let mut i: usize = s.len();
    proof {
        assert(s@.take(s@.len() as int) =~= s@);
    }
    while i > 0
        invariant
            i <= s@.len(),
            last_dot(s@) == last_dot(s@.take(i as int)),
        decreases i,
    {
        proof {
            assert(s@.take(i as int).drop_last() =~= s@.take(i - 1 as int));
            assert(s@.take(i as int).last() == s@[i - 1]);
        }
        if s[i - 1] == DOT {
            assert(last_dot(s@.take(i as int)) == i - 1);
            return Some(i - 1);
        }
        i = i - 1;
    }
    proof {
        assert(s@.take(0) =~= Seq::<u8>::empty());
    }
    None
}

/// Classify a `service_method` value, as [`spec_classify`] describes.
pub fn classify(sm: &[u8]) -> (r: RequestKind)
    ensures
        r@ == spec_classify(sm@),
{
    let cancel = cancellation_token();
    if bytes_eq(sm, cancel.as_slice()) {
        return RequestKind::Cancel;
    }
    let timeout = timeout_token();
    if bytes_eq(sm, timeout.as_slice()) {
        return RequestKind::TimeoutHint;
    }
    let ack = ack_token();
    if bytes_eq(sm, ack.as_slice()) {
        return RequestKind::Ack;
    }
    let mut publish = publish_token();
    publish.push(DOT);
    proof {
        assert(publish@ =~= spec_token_dot(spec_publish_token()));
    }
    if starts_with(sm, publish.as_slice()) {
        let topic = sub_bytes(sm, publish.len(), sm.len());
        proof {
            assert(topic@ =~= sm@.skip(spec_publish_token().len() + 1 as int));
        }
        return RequestKind::Publish { topic };
    }
    let mut subscribe = subscribe_token();
    subscribe.push(DOT);
    proof {
        assert(subscribe@ =~= spec_token_dot(spec_subscribe_token()));
    }
    if starts_with(sm, subscribe.as_slice()) {
        let topic = sub_bytes(sm, subscribe.len(), sm.len());
        proof {
            assert(topic@ =~= sm@.skip(spec_subscribe_token().len() + 1 as int));
        }
        return RequestKind::Subscribe { topic };
    }
    let mut unsubscribe = unsubscribe_token();
    unsubscribe.push(DOT);
    proof {
        assert(unsubscribe@ =~= spec_token_dot(spec_unsubscribe_token()));
    }
    if starts_with(sm, unsubscribe.as_slice()) {
        let topic = sub_bytes(sm, unsubscribe.len(), sm.len());
        proof {
            assert(topic@ =~= sm@.skip(spec_unsubscribe_token().len() + 1 as int));
        }
        return RequestKind::Unsubscribe { topic };
    }
    match find_last_dot(sm) {
        Some(i) => {
            proof {
                lemma_last_dot(sm@);
            }
            let n = sm.len();
            let service = sub_bytes(sm, 0, i);
            let method = sub_bytes(sm, i + 1, n);
            proof {
                assert(service@ =~= sm@.take(last_dot(sm@)));
                assert(method@ =~= sm@.skip(last_dot(sm@) + 1));
            }
            RequestKind::Call { service, method }
        },
        None => RequestKind::Unrecognized,
    }
}

/// The wire form of the cancellation body for id `id`: `CANCEL.<decimal>`.
pub open spec fn spec_cancel_token_bytes(id: u64) -> Seq<u8> {
    spec_cancel_base() + seq![DOT] + dec_digits(id as nat)
}

/// Build the cancellation body for `id`.
pub fn make_cancel_token(id: u64) -> (r: Vec<u8>)
    ensures
        r@ == spec_cancel_token_bytes(id),
{
    let mut out = cancel_base();
    out.push(DOT);
    let digits = encode_u64(id);
    crate::util::extend_bytes(&mut out, digits.as_slice());
    proof {
        assert(out@ =~= spec_cancel_token_bytes(id));
    }
    out
}

/// Whether `token` authorizes cancelling `id`: the text before the first
/// dot must be `CANCEL` and the text after it must parse to `id`.
pub open spec fn spec_valid_cancel_token(id: u64, token: Seq<u8>) -> bool {
    let d = first_dot(token);
    &&& d >= 0
    &&& token.take(d) == spec_cancel_base()
    &&& parse_u64_spec(token.skip(d + 1)) == Some(id)
}

/// Find the first dot of `s`.
fn find_first_dot(s: &[u8]) -> (r: Option<usize>)
    ensures
        match r {
            Some(i) => first_dot(s@) == i as int,
            None => first_dot(s@) == -1,
        },
{
    let mut i: usize = 0;
    proof {
        assert(s@.skip(0) =~= s@);
    }
    loop
        invariant
            i <= s@.len(),
            first_dot(s@) >= 0 <==> first_dot(s@.skip(i as int)) >= 0,
            first_dot(s@) >= 0 ==> first_dot(s@) == first_dot(s@.skip(i as int)) + i,
        decreases s@.len() - i,
    {
        if i >= s.len() {
            proof {
                assert(s@.skip(i as int) =~= Seq::<u8>::empty());
            }
            return None;
        }
        proof {
            assert(s@.skip(i as int)[0] == s@[i as int]);
            assert(s@.skip(i as int).skip(1) =~= s@.skip(i + 1 as int));
        }
        if s[i] == DOT {
            return Some(i);
        }
        i = i + 1;
    }
}

/// Validate a cancellation body against the header id, as
/// [`spec_valid_cancel_token`] describes.
pub fn validate_cancel_token(id: u64, token: &[u8]) -> (r: bool)
    ensures
        r == spec_valid_cancel_token(id, token@),
{
    let d = match find_first_dot(token) {
        Some(d) => d,
        None => {
            return false;
        },
    };
    proof {
        lemma_first_dot(token@);
        assert(d < token@.len());
    }
    let base = sub_bytes(token, 0, d);
    let expect = cancel_base();
    if !bytes_eq(base.as_slice(), expect.as_slice()) {
        proof {
            assert(base@ =~= token@.take(d as int));
        }
        return false;
    }
    let n = token.len();
    let digits = sub_bytes(token, d + 1, n);
    proof {
        assert(base@ =~= token@.take(d as int));
        assert(digits@ =~= token@.skip(d + 1 as int));
    }
    match parse_u64(digits.as_slice()) {
        Some(v) => v == id,
        None => false,
    }
}

/// The token built for an id validates that id and no other.
pub proof fn lemma_cancel_token_round_trip(id: u64, other: u64)
    ensures
        spec_valid_cancel_token(other, spec_cancel_token_bytes(id)) <==> other == id,
{
    let t = spec_cancel_token_bytes(id);
    lemma_dec_digits_val(id as nat);
    assert(first_dot(t) == 6) by {
        lemma_first_dot(t);
        assert(t[6] == DOT);
        assert(forall|k: int| 0 <= k < 6 ==> t[k] == spec_cancel_base()[k]);
        assert(forall|k: int| 0 <= k < 6 ==> t[k] != DOT);
        if first_dot(t) < 0 {
            assert(t[6] != DOT);
        }
        if 0 <= first_dot(t) < 6 {
            assert(t[first_dot(t)] != DOT);
        }
        if first_dot(t) > 6 {
            assert(t[6] != DOT);
        }
    }
    assert(t.take(6) =~= spec_cancel_base());
    assert(t.skip(7) =~= dec_digits(id as nat));
    assert(parse_u64_spec(t.skip(7)) == Some(id));
}

} // verus!
