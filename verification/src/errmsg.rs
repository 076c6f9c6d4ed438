//! Wire form of an error body. A bare variant is its quoted tag, such as
//! `"ServiceNotFound"`; a variant with data is a one-field object, such as
//! `{"ExecutionError":"text"}` or `{"Timeout":7}`. The codec is an exact
//! inverse pair, which `lemma_error_message_round_trip` states.

use vstd::prelude::*;
use crate::digits::{
    all_digits, dec_digits, dec_val, digit_run_end, encode_u64, is_digit,
    lemma_dec_digits_no_leading_zero, lemma_dec_digits_val, lemma_dec_val_nonneg,
    lemma_digit_run_end_bounds, lemma_digit_run_of, parse_u64,
};
use crate::escape::{escape, escape_into, lemma_scan_escape, scan_string, scan_string_at};
use crate::message::ErrorMessage;
use crate::util::{bytes_eq, extend_bytes, starts_with_at};

verus! {

/// Ghost mirror of [`ErrorMessage`], the value a decoded body denotes.
pub enum SpecErrorMessage {
    /// Argument decode failure or an invalid cancellation token.
    InvalidArgument,
    /// No service registered under the requested name.
    ServiceNotFound,
    /// The service exists but not the requested method.
    MethodNotFound,
    /// The handler itself failed.
    ExecutionError(Seq<u8>),
    /// The call exceeded its deadline.
    Timeout(Option<u64>),
    /// The call was cancelled cooperatively.
    Canceled(Option<u64>),
}

impl View for ErrorMessage {
    type V = SpecErrorMessage;

    open spec fn view(&self) -> SpecErrorMessage {
        match self {
            ErrorMessage::InvalidArgument => SpecErrorMessage::InvalidArgument,
            ErrorMessage::ServiceNotFound => SpecErrorMessage::ServiceNotFound,
            ErrorMessage::MethodNotFound => SpecErrorMessage::MethodNotFound,
            ErrorMessage::ExecutionError(t) => SpecErrorMessage::ExecutionError(t@),
            ErrorMessage::Timeout(id) => SpecErrorMessage::Timeout(*id),
            ErrorMessage::Canceled(id) => SpecErrorMessage::Canceled(*id),
        }
    }
}

/// The text `InvalidArgument`.
pub open spec fn spec_tag_invalid_argument() -> Seq<u8> {
    seq![73u8, 110, 118, 97, 108, 105, 100, 65, 114, 103, 117, 109, 101, 110, 116]
}

/// The text `ServiceNotFound`.
pub open spec fn spec_tag_service_not_found() -> Seq<u8> {
    seq![83u8, 101, 114, 118, 105, 99, 101, 78, 111, 116, 70, 111, 117, 110, 100]
}

/// The text `MethodNotFound`.
pub open spec fn spec_tag_method_not_found() -> Seq<u8> {
    seq![77u8, 101, 116, 104, 111, 100, 78, 111, 116, 70, 111, 117, 110, 100]
}

/// The text `Timeout`.
pub open spec fn spec_tag_timeout() -> Seq<u8> {
    seq![84u8, 105, 109, 101, 111, 117, 116]
}

/// The text `Canceled`.
pub open spec fn spec_tag_canceled() -> Seq<u8> {
    seq![67u8, 97, 110, 99, 101, 108, 101, 100]
}

/// A tag between quotes.
pub open spec fn spec_quoted(tag: Seq<u8>) -> Seq<u8> {
    seq![34u8] + tag + seq![34u8]
}

/// The text `{"ExecutionError":"`.
pub open spec fn spec_execution_error_prefix() -> Seq<u8> {
    seq![123u8, 34, 69, 120, 101, 99, 117, 116, 105, 111, 110, 69, 114, 114, 111, 114, 34, 58, 34]
}

/// The text `{"Timeout":`.
pub open spec fn spec_timeout_prefix() -> Seq<u8> {
    seq![123u8, 34, 84, 105, 109, 101, 111, 117, 116, 34, 58]
}

/// The text `{"Canceled":`.
pub open spec fn spec_canceled_prefix() -> Seq<u8> {
    seq![123u8, 34, 67, 97, 110, 99, 101, 108, 101, 100, 34, 58]
}

/// The bytes of an encoded error body.
pub open spec fn spec_error_message_bytes(m: SpecErrorMessage) -> Seq<u8> {
    match m {
        SpecErrorMessage::InvalidArgument => spec_quoted(spec_tag_invalid_argument()),
        SpecErrorMessage::ServiceNotFound => spec_quoted(spec_tag_service_not_found()),
        SpecErrorMessage::MethodNotFound => spec_quoted(spec_tag_method_not_found()),
        SpecErrorMessage::ExecutionError(t) => spec_execution_error_prefix() + escape(t)
            + seq![34u8, 125],
        SpecErrorMessage::Timeout(id) => match id {
            None => spec_quoted(spec_tag_timeout()),
            Some(n) => spec_timeout_prefix() + dec_digits(n as nat) + seq![125u8],
        },
        SpecErrorMessage::Canceled(id) => match id {
            None => spec_quoted(spec_tag_canceled()),
            Some(n) => spec_canceled_prefix() + dec_digits(n as nat) + seq![125u8],
        },
    }
}

/// What decoding an error body yields: the denoted variant when the whole
/// input is one well-formed body, nothing otherwise.
pub open spec fn spec_decode_error_message(s: Seq<u8>) -> Option<SpecErrorMessage> {
    if s == spec_quoted(spec_tag_invalid_argument()) {
        Some(SpecErrorMessage::InvalidArgument)
    } else if s == spec_quoted(spec_tag_service_not_found()) {
        Some(SpecErrorMessage::ServiceNotFound)
    } else if s == spec_quoted(spec_tag_method_not_found()) {
        Some(SpecErrorMessage::MethodNotFound)
    } else if s == spec_quoted(spec_tag_timeout()) {
        Some(SpecErrorMessage::Timeout(None))
    } else if s == spec_quoted(spec_tag_canceled()) {
        Some(SpecErrorMessage::Canceled(None))
    } else if spec_execution_error_prefix().len() <= s.len()
        && s.subrange(0, spec_execution_error_prefix().len() as int)
            == spec_execution_error_prefix() {
        match scan_string(s, spec_execution_error_prefix().len() as int) {
            None => None,
            Some((t, m)) => {
                if m + 1 == s.len() && s[m] == 125 {
                    Some(SpecErrorMessage::ExecutionError(t))
                } else {
                    None
                }
            },
        }
    } else if spec_timeout_prefix().len() <= s.len()
        && s.subrange(0, spec_timeout_prefix().len() as int) == spec_timeout_prefix() {
        spec_decode_tagged_id(s, spec_timeout_prefix().len() as int, true)
    } else if spec_canceled_prefix().len() <= s.len()
        && s.subrange(0, spec_canceled_prefix().len() as int) == spec_canceled_prefix() {
        spec_decode_tagged_id(s, spec_canceled_prefix().len() as int, false)
    } else {
        None
    }
}

/// Decode the `<decimal>}` remainder of a `Timeout` or `Canceled` object.
pub open spec fn spec_decode_tagged_id(s: Seq<u8>, i: int, timeout: bool) -> Option<
    SpecErrorMessage,
> {
    let j = digit_run_end(s, i);
    if j == i || (s[i] == 48 && j > i + 1) || dec_val(s.subrange(i, j)) > u64::MAX {
        None
    } else if j + 1 == s.len() && s[j] == 125 {
        let id = dec_val(s.subrange(i, j)) as u64;
        if timeout {
            Some(SpecErrorMessage::Timeout(Some(id)))
        } else {
            Some(SpecErrorMessage::Canceled(Some(id)))
        }
    } else {
        None
    }
}

/// Exec form of [`spec_quoted`] over a tag given as exec bytes.
fn quoted(tag: &[u8]) -> (r: Vec<u8>)
    ensures
        r@ == spec_quoted(tag@),
{
    let mut v: Vec<u8> = Vec::new();
    v.push(34);
    extend_bytes(&mut v, tag);
    v.push(34);
    proof {
        assert(v@ =~= spec_quoted(tag@));
    }
    v
}

/// Exec form of [`spec_tag_invalid_argument`].
fn tag_invalid_argument() -> (r: Vec<u8>)
    ensures
        r@ == spec_tag_invalid_argument(),
{
    let v: Vec<u8> = vec![73u8, 110, 118, 97, 108, 105, 100, 65, 114, 103, 117, 109, 101, 110, 116];
    proof {
        assert(v@ =~= spec_tag_invalid_argument());
    }
    v
}

/// Exec form of [`spec_tag_service_not_found`].
fn tag_service_not_found() -> (r: Vec<u8>)
    ensures
        r@ == spec_tag_service_not_found(),
{
    let v: Vec<u8> = vec![83u8, 101, 114, 118, 105, 99, 101, 78, 111, 116, 70, 111, 117, 110, 100];
    proof {
        assert(v@ =~= spec_tag_service_not_found());
    }
    v
}

/// Exec form of [`spec_tag_method_not_found`].
fn tag_method_not_found() -> (r: Vec<u8>)
    ensures
        r@ == spec_tag_method_not_found(),
{
    let v: Vec<u8> = vec![77u8, 101, 116, 104, 111, 100, 78, 111, 116, 70, 111, 117, 110, 100];
    proof {
        assert(v@ =~= spec_tag_method_not_found());
    }
    v
}

/// Exec form of [`spec_tag_timeout`].
fn tag_timeout() -> (r: Vec<u8>)
    ensures
        r@ == spec_tag_timeout(),
{
    let v: Vec<u8> = vec![84u8, 105, 109, 101, 111, 117, 116];
    proof {
        assert(v@ =~= spec_tag_timeout());
    }
    v
}

/// Exec form of [`spec_tag_canceled`].
fn tag_canceled() -> (r: Vec<u8>)
    ensures
        r@ == spec_tag_canceled(),
{
    let v: Vec<u8> = vec![67u8, 97, 110, 99, 101, 108, 101, 100];
    proof {
        assert(v@ =~= spec_tag_canceled());
    }
    v
}

/// Exec form of [`spec_execution_error_prefix`].
fn execution_error_prefix() -> (r: Vec<u8>)
    ensures
        r@ == spec_execution_error_prefix(),
{
    let v: Vec<u8> = vec![
        123u8, 34, 69, 120, 101, 99, 117, 116, 105, 111, 110, 69, 114, 114, 111, 114, 34, 58, 34,
    ];
    proof {
        assert(v@ =~= spec_execution_error_prefix());
    }
    v
}

/// Exec form of [`spec_timeout_prefix`].
fn timeout_prefix() -> (r: Vec<u8>)
    ensures
        r@ == spec_timeout_prefix(),
{
    let v: Vec<u8> = vec![123u8, 34, 84, 105, 109, 101, 111, 117, 116, 34, 58];
    proof {
        assert(v@ =~= spec_timeout_prefix());
    }
    v
}

/// Exec form of [`spec_canceled_prefix`].
fn canceled_prefix() -> (r: Vec<u8>)
    ensures
        r@ == spec_canceled_prefix(),
{
    let v: Vec<u8> = vec![123u8, 34, 67, 97, 110, 99, 101, 108, 101, 100, 34, 58];
    proof {
        assert(v@ =~= spec_canceled_prefix());
    }
    v
}

/// Encode an error body.
pub fn encode_error_message(m: &ErrorMessage) -> (r: Vec<u8>)
    ensures
        r@ == spec_error_message_bytes(m@),
{
    match m {
        ErrorMessage::InvalidArgument => {
            let t = tag_invalid_argument();
            quoted(t.as_slice())
        },
        ErrorMessage::ServiceNotFound => {
            let t = tag_service_not_found();
            quoted(t.as_slice())
        },
        ErrorMessage::MethodNotFound => {
            let t = tag_method_not_found();
            quoted(t.as_slice())
        },
        ErrorMessage::ExecutionError(t) => {
            let mut out = execution_error_prefix();
            escape_into(&mut out, t.as_slice());
            out.push(34);
            out.push(125);
            proof {
                assert(out@ =~= spec_error_message_bytes(m@));
            }
            out
        },
        ErrorMessage::Timeout(id) => match id {
            None => {
                let t = tag_timeout();
                quoted(t.as_slice())
            },
            Some(n) => {
                let mut out = timeout_prefix();
                let digits = encode_u64(*n);
                extend_bytes(&mut out, digits.as_slice());
                out.push(125);
                proof {
                    assert(out@ =~= spec_error_message_bytes(m@));
                }
                out
            },
        },
        ErrorMessage::Canceled(id) => match id {
            None => {
                let t = tag_canceled();
                quoted(t.as_slice())
            },
            Some(n) => {
                let mut out = canceled_prefix();
                let digits = encode_u64(*n);
                extend_bytes(&mut out, digits.as_slice());
                out.push(125);
                proof {
                    assert(out@ =~= spec_error_message_bytes(m@));
                }
                out
            },
        },
    }
}

/// Find the end of the digit run that begins at `i`.
fn find_digit_run_end(s: &[u8], i: usize) -> (j: usize)
    requires
        i <= s@.len(),
    ensures
        j == digit_run_end(s@, i as int),
        i <= j <= s@.len(),
{
    let mut j: usize = i;
    while j < s.len() && 48 <= s[j] && s[j] <= 57
        invariant
            i <= j <= s@.len(),
            digit_run_end(s@, i as int) == digit_run_end(s@, j as int),
        decreases s@.len() - j,
    {
        j = j + 1;
    }
    j
}

/// Decode the `<decimal>}` remainder of a `Timeout` or `Canceled` object.
fn decode_tagged_id(s: &[u8], i: usize, timeout: bool) -> (r: Option<ErrorMessage>)
    requires
        i <= s@.len(),
    ensures
        match r {
            None => spec_decode_tagged_id(s@, i as int, timeout) is None,
            Some(m) => spec_decode_tagged_id(s@, i as int, timeout) == Some(m@),
        },
{
    let j = find_digit_run_end(s, i);
    proof {
        lemma_digit_run_end_bounds(s@, i as int);
    }
    if j == i {
        return None;
    }
    if s[i] == 48 && j > i + 1 {
        return None;
    }
    let digits = crate::util::sub_bytes(s, i, j);
    let id = match parse_u64(digits.as_slice()) {
        Some(v) => v,
        None => {
            proof {
                assert(all_digits(s@.subrange(i as int, j as int)));
                lemma_dec_val_nonneg(s@.subrange(i as int, j as int));
            }
            return None;
        },
    };
    proof {
        assert(all_digits(s@.subrange(i as int, j as int)));
    }
    if j < s.len() && j + 1 == s.len() && s[j] == 125 {
        if timeout {
            Some(ErrorMessage::Timeout(Some(id)))
        } else {
            Some(ErrorMessage::Canceled(Some(id)))
        }
    } else {
        None
    }
}

/// Decode an error body, as [`spec_decode_error_message`] describes.
pub fn decode_error_message(s: &[u8]) -> (r: Option<ErrorMessage>)
    ensures
        match r {
            None => spec_decode_error_message(s@) is None,
            Some(m) => spec_decode_error_message(s@) == Some(m@),
        },
{
    let t = tag_invalid_argument();
    let q = quoted(t.as_slice());
    if bytes_eq(s, q.as_slice()) {
        return Some(ErrorMessage::InvalidArgument);
    }
    let t = tag_service_not_found();
    let q = quoted(t.as_slice());
    if bytes_eq(s, q.as_slice()) {
        return Some(ErrorMessage::ServiceNotFound);
    }
    let t = tag_method_not_found();
    let q = quoted(t.as_slice());
    if bytes_eq(s, q.as_slice()) {
        return Some(ErrorMessage::MethodNotFound);
    }
    let t = tag_timeout();
    let q = quoted(t.as_slice());
    if bytes_eq(s, q.as_slice()) {
        return Some(ErrorMessage::Timeout(None));
    }
    let t = tag_canceled();
    let q = quoted(t.as_slice());
    if bytes_eq(s, q.as_slice()) {
        return Some(ErrorMessage::Canceled(None));
    }
    let pe = execution_error_prefix();
    if starts_with_at(s, 0, pe.as_slice()) {
        return match scan_string_at(s, pe.len()) {
            None => None,
            Some((text, m)) => {
                if m < s.len() && m + 1 == s.len() && s[m] == 125 {
                    Some(ErrorMessage::ExecutionError(text))
                } else {
                    None
                }
            },
        };
    }
    let pt = timeout_prefix();
    if starts_with_at(s, 0, pt.as_slice()) {
        return decode_tagged_id(s, pt.len(), true);
    }
    let pc = canceled_prefix();
    if starts_with_at(s, 0, pc.as_slice()) {
        return decode_tagged_id(s, pc.len(), false);
    }
    None
}

/// Decoding inverts encoding on every error body.
pub proof fn lemma_error_message_round_trip(m: SpecErrorMessage)
    ensures
        spec_decode_error_message(spec_error_message_bytes(m)) == Some(m),
{
    let s = spec_error_message_bytes(m);
    match m {
        SpecErrorMessage::InvalidArgument => {},
        SpecErrorMessage::ServiceNotFound => {
            assert(s[1] != spec_quoted(spec_tag_invalid_argument())[1]);
        },
        SpecErrorMessage::MethodNotFound => {
            assert(s.len() != spec_quoted(spec_tag_invalid_argument()).len());
            assert(s.len() != spec_quoted(spec_tag_service_not_found()).len());
        },
        SpecErrorMessage::Timeout(id) => match id {
            None => {
                assert(s.len() == 9);
                assert(s.len() != spec_quoted(spec_tag_invalid_argument()).len());
                assert(s.len() != spec_quoted(spec_tag_service_not_found()).len());
                assert(s.len() != spec_quoted(spec_tag_method_not_found()).len());
                assert(s.len() != spec_quoted(spec_tag_canceled()).len());
            },
            Some(n) => {
                lemma_not_quoted(s);
                lemma_dec_digits_val(n as nat);
                lemma_dec_digits_no_leading_zero(n as nat);
                let p = spec_timeout_prefix();
                let d = dec_digits(n as nat);
                assert(s.subrange(0, p.len() as int) =~= p);
                assert(s[2] != spec_execution_error_prefix()[2]);
                let i = p.len() as int;
                let j = i + d.len() as int;
                assert(s.subrange(i, j) =~= d);
                assert(s[j] == 125);
                assert(!is_digit(s[j]));
                lemma_digit_run_of(s, i, d);
                assert(dec_val(s.subrange(i, j)) == n);
                assert(!(s[i] == 48 && j > i + 1));
                assert(spec_decode_tagged_id(s, i, true) == Some(m));
            },
        },
        SpecErrorMessage::Canceled(id) => match id {
            None => {
                assert(s.len() == 10);
                assert(s.len() != spec_quoted(spec_tag_invalid_argument()).len());
                assert(s.len() != spec_quoted(spec_tag_service_not_found()).len());
                assert(s.len() != spec_quoted(spec_tag_method_not_found()).len());
                assert(s.len() != spec_quoted(spec_tag_timeout()).len());
            },
            Some(n) => {
                lemma_not_quoted(s);
                lemma_dec_digits_val(n as nat);
                lemma_dec_digits_no_leading_zero(n as nat);
                let p = spec_canceled_prefix();
                let d = dec_digits(n as nat);
                assert(s.subrange(0, p.len() as int) =~= p);
                assert(s[2] != spec_execution_error_prefix()[2]);
                assert(s[2] != spec_timeout_prefix()[2]);
                if spec_timeout_prefix().len() <= s.len()
                    && s.subrange(0, spec_timeout_prefix().len() as int)
                        == spec_timeout_prefix() {
                    assert(s[2] == spec_timeout_prefix()[2]);
                }
                let i = p.len() as int;
                let j = i + d.len() as int;
                assert(s.subrange(i, j) =~= d);
                assert(s[j] == 125);
                assert(!is_digit(s[j]));
                lemma_digit_run_of(s, i, d);
                assert(dec_val(s.subrange(i, j)) == n);
                assert(!(s[i] == 48 && j > i + 1));
                assert(spec_decode_tagged_id(s, i, false) == Some(m));
            },
        },
        SpecErrorMessage::ExecutionError(t) => {
            lemma_not_quoted(s);
            let p = spec_execution_error_prefix();
            let e = escape(t);
            assert(s.subrange(0, p.len() as int) =~= p);
            let k = p.len() as int;
            assert(s.subrange(k, k + e.len()) =~= e);
            assert(s[k + e.len()] == 34);
            lemma_scan_escape(s, k, t);
            let end = k + e.len() + 1;
            assert(scan_string(s, k) == Some((t, end)));
            assert(s[end] == 125);
            assert(end + 1 == s.len());
        },
    }
}

/// A body that begins with an opening brace equals no quoted tag.
proof fn lemma_not_quoted(s: Seq<u8>)
    requires
        s.len() > 0,
        s[0] == 123,
    ensures
        s != spec_quoted(spec_tag_invalid_argument()),
        s != spec_quoted(spec_tag_service_not_found()),
        s != spec_quoted(spec_tag_method_not_found()),
        s != spec_quoted(spec_tag_timeout()),
        s != spec_quoted(spec_tag_canceled()),
{
    assert(spec_quoted(spec_tag_invalid_argument())[0] == 34);
    assert(spec_quoted(spec_tag_service_not_found())[0] == 34);
    assert(spec_quoted(spec_tag_method_not_found())[0] == 34);
    assert(spec_quoted(spec_tag_timeout())[0] == 34);
    assert(spec_quoted(spec_tag_canceled())[0] == 34);
}

} // verus!
