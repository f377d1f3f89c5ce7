//! The connection session: what the daemon does with one line.
//!
//! A session reads a line, discards it when blank, and otherwise answers it:
//! a line that does not decode gets a parse-error reply with the null id; a
//! decoded request that fails validation gets an invalid-request reply
//! echoing whatever id was read; a valid request is dispatched. The read and
//! write themselves, and the one-task-per-connection scheduling, are the
//! host's; this module decides every answer.

use vstd::prelude::*;

use crate::codec::{is_ws, ser_value, wf_value};
use crate::dispatch::{error_model, handle_request, spec_dispatch, Dispatched, DispatchedModel};
use crate::protocol::{
    decode_request, lookup, request_of, spec_validate, spec_validation_message,
    validation_message, JsonRpcResponse, ParseError, ResponseModel, INVALID_PARAMS,
    INVALID_REQUEST, METHOD_NOT_FOUND, PARSE_ERROR,
};
use crate::text::{lit_id, lit_jsonrpc, lit_method, lit_msg_parse_error, lit_msg_parse_error_vec,
    lit_version};
use crate::value::{JsonValue, ValueModel};

verus! {

/// Shared state available to every connection handler. The protocol core
/// needs none; configuration and policy state for future operations would
/// live here, behind concurrency-safe sharing.
pub struct AppState {}

impl AppState {
    /// A fresh shared state.
    pub fn new() -> (s: Self) {
        AppState {  }
    }
}

// ─── Blank lines and surrounding whitespace ──────────────────────────────────

/// A line of nothing but whitespace; the session discards it silently.
pub open spec fn spec_blank(s: Seq<u8>) -> bool {
    forall|i: int| 0 <= i < s.len() ==> is_ws(#[trigger] s[i])
}

/// Whether the line is blank: such a line is discarded without a reply.
pub fn is_blank(line: &Vec<u8>) -> (r: bool)
    ensures
        r == spec_blank(line@),
{
    let mut i: usize = 0;
    while i < line.len()
        invariant
            i <= line@.len(),
            forall|k: int| 0 <= k < i ==> is_ws(#[trigger] line@[k]),
        decreases line@.len() - i,
    {
        let b = line[i];
        if !(b == 0x20 || b == 0x09 || b == 0x0a || b == 0x0d) {
            return false;
        }
        i = i + 1;
    }
    true
}

/// The line without leading and trailing whitespace.
pub open spec fn spec_trim(s: Seq<u8>) -> Seq<u8>
    decreases s.len(),
{
    if s.len() == 0 {
        s
    } else if is_ws(s[0]) {
        spec_trim(s.skip(1))
    } else if is_ws(s.last()) {
        spec_trim(s.drop_last())
    } else {
        s
    }
}

/// Strips leading and trailing whitespace from a line.
#[verifier::loop_isolation(false)]
pub fn trim_line(line: &Vec<u8>) -> (r: Vec<u8>)
    ensures
        r@ == spec_trim(line@),
{
    let mut a: usize = 0;
    let mut b: usize = line.len();
    proof {
        assert(line@.subrange(0, line@.len() as int) =~= line@);
    }
    while a < b && (line[a] == 0x20 || line[a] == 0x09 || line[a] == 0x0a || line[a] == 0x0d)
        invariant
            a <= b <= line@.len(),
            spec_trim(line@) == spec_trim(line@.subrange(a as int, b as int)),
        decreases b - a,
    {
        proof {
            assert(line@.subrange(a as int, b as int).skip(1)
                =~= line@.subrange(a as int + 1, b as int));
        }
        a = a + 1;
    }
    while a < b && (line[b - 1] == 0x20 || line[b - 1] == 0x09 || line[b - 1] == 0x0a
        || line[b - 1] == 0x0d)
        invariant
            a <= b <= line@.len(),
            spec_trim(line@) == spec_trim(line@.subrange(a as int, b as int)),
            a < b ==> !is_ws(line@[a as int]),
        decreases b - a,
    {
        proof {
            assert(line@.subrange(a as int, b as int).drop_last()
                =~= line@.subrange(a as int, b as int - 1));
        }
        b = b - 1;
    }
    proof {
        let t = line@.subrange(a as int, b as int);
        if t.len() > 0 {
            assert(t[0] == line@[a as int]);
            assert(t.last() == line@[b - 1]);
        }
        assert(spec_trim(t) == t);
    }
    let mut r: Vec<u8> = Vec::new();
    let mut i: usize = a;
    while i < b
        invariant
            a <= i <= b,
            r@ == line@.subrange(a as int, i as int),
        decreases b - i,
    {
        r.push(line[i]);
        proof {
            assert(line@.subrange(a as int, i as int + 1)
                =~= line@.subrange(a as int, i as int).push(line@[i as int]));
        }
        i = i + 1;
    }
    r
}

// ─── Processing one line ─────────────────────────────────────────────────────

/// What the session answers, given the value a line serializes: a non-object
/// is a parse error with the null id; an object that fails validation is an
/// invalid-request error echoing the id that was read; a valid request is
/// dispatched.
pub open spec fn spec_session(g: ValueModel) -> DispatchedModel {
    if !(g is Obj) {
        DispatchedModel::Reply(
            error_model(ValueModel::Null, PARSE_ERROR as int, lit_msg_parse_error()),
        )
    } else {
        let r = request_of(g);
        match spec_validate(r) {
            Result::Err(e) => DispatchedModel::Reply(
                error_model(r.id, INVALID_REQUEST as int, spec_validation_message(e)),
            ),
            Result::Ok(u) => spec_dispatch(r),
        }
    }
}

/// Every reply a dispatch produces carries exactly one of result and error,
/// and only parsing ever produces the parse-error code.
proof fn lemma_dispatch_reply_shape(r: crate::protocol::RequestModel)
    ensures
        spec_dispatch(r) matches DispatchedModel::Reply(resp) ==> {
            &&& ((resp.result is Some) <==> !(resp.error is Some))
            &&& (resp.error matches Some(e) ==> e.code == METHOD_NOT_FOUND as int || e.code
                == INVALID_PARAMS as int)
        },
{
}

/// The reply to a line that could not be read: the parse-error code, the
/// null id sentinel (no id could be determined), no result.
pub open spec fn parse_failure_model() -> ResponseModel {
    error_model(ValueModel::Null, PARSE_ERROR as int, lit_msg_parse_error())
}

/// Handles one non-blank line: decode, validate, dispatch. Wherever the
/// trimmed line is exactly the serialization of a well-formed value, the
/// outcome is `spec_session` of that value. Every reply carries exactly one
/// of result and error. The second component carries the offending text for
/// the host to log exactly when the line could not be read as a request, and
/// then — and only then — the reply is the parse-error reply with the null
/// id and no result.
pub fn process_message(line: &Vec<u8>) -> (r: (Dispatched, Option<ParseError>))
    ensures
        forall|g: ValueModel| wf_value(g) && spec_trim(line@) == #[trigger] ser_value(g)
            ==> r.0.deep_view() == spec_session(g),
        r.0 matches Dispatched::Reply(resp) ==> ((resp.deep_view().result is Some) <==> !(
        resp.deep_view().error is Some)),
        r.1 matches Some(pe) ==> pe.offending@ == spec_trim(line@)
            && r.0.deep_view() == DispatchedModel::Reply(parse_failure_model()),
        r.1 is None ==> (r.0 matches Dispatched::Reply(resp) ==> (resp.deep_view().error
            matches Some(e) ==> e.code != PARSE_ERROR as int)),
{
    let trimmed = trim_line(line);
    match decode_request(&trimmed) {
        Err(pe) => (
            Dispatched::Reply(
                JsonRpcResponse::error(JsonValue::Null, PARSE_ERROR, lit_msg_parse_error_vec()),
            ),
            Some(pe),
        ),
        Ok(req) => {
            match req.validate() {
                Err(e) => {
                    let message = validation_message(&e);
                    proof {
                        assert(INVALID_REQUEST != PARSE_ERROR);
                    }
                    (
                        Dispatched::Reply(
                            JsonRpcResponse::error(req.id, INVALID_REQUEST, message),
                        ),
                        None,
                    )
                },
                Ok(_) => {
                    let d = handle_request(&req);
                    proof {
                        lemma_dispatch_reply_shape(req.deep_view());
                    }
                    (d, None)
                },
            }
        },
    }
}

/// Only an unreadable line is ever answered with the parse-error code: the
/// session's answer to a decoded object, whatever it holds, never carries it.
pub proof fn lemma_parse_error_only_for_unreadable(g: ValueModel)
    requires
        g is Obj,
    ensures
        ({
            let d = spec_session(g);
            d matches DispatchedModel::Reply(resp) ==> (resp.error matches Some(e)
                ==> e.code != PARSE_ERROR as int)
        }),
{
    lemma_dispatch_reply_shape(request_of(g));
}

/// A wire object that lacks a `method` member, with the right version marker
/// and a non-null id, is answered with an invalid-request error echoing that
/// id — never dispatched.
pub proof fn lemma_missing_method_invalid_request(g: ValueModel)
    requires
        g is Obj,
        lookup(g->Obj_0, lit_jsonrpc()) == Option::Some(ValueModel::Str(lit_version())),
        lookup(g->Obj_0, lit_id()) matches Option::Some(idv) && !(idv is Null),
        lookup(g->Obj_0, lit_method()) is None,
    ensures
        ({
            let d = spec_session(g);
            &&& d matches DispatchedModel::Reply(resp)
            &&& resp.id == lookup(g->Obj_0, lit_id())->Some_0
            &&& resp.result is None
            &&& resp.error matches Some(e)
            &&& e.code == INVALID_REQUEST as int
        }),
{
    let r = request_of(g);
    assert(r.method =~= Seq::<u8>::empty());
    assert(spec_validate(r) == Result::<(), crate::protocol::ValidationError>::Err(
        crate::protocol::ValidationError::MissingMethod,
    ));
}

} // verus!
