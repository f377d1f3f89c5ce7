//! Dispatch: from a validated request to a reply, or to the named outside
//! work a host must perform before the reply can be built.
//!
//! The built-in operations `ping` and `echo` are pure and answered here.
//! `whoami` and `execute` need the host (the process's user identity, a child
//! process): dispatch hands back what to do, and the host feeds the outcome
//! to a completion function that builds the reply. An unknown method is
//! answered with a method-not-found error naming it; `execute` without a
//! `command` parameter with an invalid-params error.

use vstd::prelude::*;

use crate::protocol::{
    lookup, lookup_pair, ErrorModel, JsonRpcRequest, JsonRpcResponse, ResponseModel,
    INTERNAL_ERROR, INVALID_PARAMS, METHOD_NOT_FOUND,
};
use crate::text::{
    lit_args, lit_args_vec, lit_command, lit_command_vec, lit_echo, lit_echo_vec, lit_execute,
    lit_execute_vec, lit_exit_code, lit_exit_code_vec, lit_message, lit_message_vec,
    lit_msg_missing_command, lit_msg_missing_command_vec, lit_msg_unknown_method,
    lit_msg_unknown_method_vec, lit_ping, lit_ping_vec, lit_pong, lit_pong_vec, lit_stderr,
    lit_stderr_vec, lit_stdout, lit_stdout_vec, lit_uid, lit_uid_vec, lit_user, lit_user_vec,
    lit_version, lit_whoami, lit_whoami_vec,
};
use crate::value::{
    bytes_eq, clone_bytes, deep_view_pairs, deep_view_seq, lemma_deep_view_pairs_index,
    lemma_deep_view_seq_index, JsonValue, ValueModel,
};

verus! {

// ─── Handler outcomes ────────────────────────────────────────────────────────

/// What handling a request yields: a complete reply, or the outside work the
/// host must perform first.
pub enum Dispatched {
    /// The reply is complete.
    Reply(JsonRpcResponse),
    /// The host must find the user the daemon runs as, then call
    /// `complete_whoami` with this id.
    Whoami { id: JsonValue },
    /// The host must run `command` with `args`, then call `complete_execute`
    /// (or `execute_failure`, if the process could not be launched) with this
    /// id.
    Execute { id: JsonValue, command: Vec<u8>, args: Vec<Vec<u8>> },
}

/// The mathematical model of a handler outcome.
pub enum DispatchedModel {
    Reply(ResponseModel),
    Whoami { id: ValueModel },
    Execute { id: ValueModel, command: Seq<u8>, args: Seq<Seq<u8>> },
}

/// The views of a sequence of byte strings, elementwise.
pub open spec fn views_of_bytes(s: Seq<Vec<u8>>) -> Seq<Seq<u8>> {
    Seq::new(s.len(), |i: int| s[i]@)
}

impl Dispatched {
    /// The model of this outcome.
    pub open spec fn deep_view(&self) -> DispatchedModel {
        match self {
            Dispatched::Reply(r) => DispatchedModel::Reply(r.deep_view()),
            Dispatched::Whoami { id } => DispatchedModel::Whoami { id: id.deep_view() },
            Dispatched::Execute { id, command, args } => DispatchedModel::Execute {
                id: id.deep_view(),
                command: command@,
                args: views_of_bytes(args@),
            },
        }
    }
}

// ─── Reply models ────────────────────────────────────────────────────────────

/// A successful reply: version marker, the echoed id, the result.
pub open spec fn success_model(id: ValueModel, result: ValueModel) -> ResponseModel {
    ResponseModel {
        jsonrpc: lit_version(),
        id,
        result: Option::Some(result),
        error: Option::None,
    }
}

/// A failed reply: version marker, the echoed id, code and message.
pub open spec fn error_model(id: ValueModel, code: int, message: Seq<u8>) -> ResponseModel {
    ResponseModel {
        jsonrpc: lit_version(),
        id,
        result: Option::None,
        error: Option::Some(ErrorModel { code, message, data: Option::None }),
    }
}

// ─── What each built-in operation reads from `params` ────────────────────────

/// What `echo` echoes: the `message` member if it is text, else empty text.
pub open spec fn echo_text(params: ValueModel) -> Seq<u8> {
    if params is Obj {
        match lookup(params->Obj_0, lit_message()) {
            Option::Some(ValueModel::Str(s)) => s,
            _ => Seq::empty(),
        }
    } else {
        Seq::empty()
    }
}

/// What `execute` runs: the `command` member, which must be text.
pub open spec fn execute_command(params: ValueModel) -> Option<Seq<u8>> {
    if params is Obj {
        match lookup(params->Obj_0, lit_command()) {
            Option::Some(ValueModel::Str(c)) => Option::Some(c),
            _ => Option::None,
        }
    } else {
        Option::None
    }
}

/// The text elements of a sequence of values, non-text elements dropped.
pub open spec fn str_items(items: Seq<ValueModel>) -> Seq<Seq<u8>>
    decreases items.len(),
{
    if items.len() == 0 {
        Seq::empty()
    } else {
        str_items(items.drop_last()) + (if items.last() is Str {
            seq![items.last()->Str_0]
        } else {
            Seq::empty()
        })
    }
}

/// The arguments `execute` passes on: the text elements of the `args` member
/// if it is an array, else none.
pub open spec fn execute_args(params: ValueModel) -> Seq<Seq<u8>> {
    if params is Obj {
        match lookup(params->Obj_0, lit_args()) {
            Option::Some(ValueModel::Arr(items)) => str_items(items),
            _ => Seq::empty(),
        }
    } else {
        Seq::empty()
    }
}

// ─── The dispatch table ──────────────────────────────────────────────────────

/// The dispatch rule. `ping` is answered with `{"pong": true}`; `echo` with
/// `{"echo": <message>}`; `whoami` and `execute` become outside work, with an
/// invalid-params error when `execute` lacks a text `command`; any other
/// method is answered with method-not-found, the message carrying the method
/// name after a fixed prefix.
pub open spec fn spec_dispatch(r: crate::protocol::RequestModel) -> DispatchedModel {
    if r.method == lit_ping() {
        DispatchedModel::Reply(
            success_model(
                r.id,
                ValueModel::Obj(seq![(lit_pong(), ValueModel::Bool(true))]),
            ),
        )
    } else if r.method == lit_echo() {
        DispatchedModel::Reply(
            success_model(
                r.id,
                ValueModel::Obj(seq![(lit_echo(), ValueModel::Str(echo_text(r.params)))]),
            ),
        )
    } else if r.method == lit_whoami() {
        DispatchedModel::Whoami { id: r.id }
    } else if r.method == lit_execute() {
        match execute_command(r.params) {
            Option::Some(c) => DispatchedModel::Execute {
                id: r.id,
                command: c,
                args: execute_args(r.params),
            },
            Option::None => DispatchedModel::Reply(
                error_model(r.id, INVALID_PARAMS as int, lit_msg_missing_command()),
            ),
        }
    } else {
        DispatchedModel::Reply(
            error_model(r.id, METHOD_NOT_FOUND as int, lit_msg_unknown_method() + r.method),
        )
    }
}

/// Appends `src` to `dst`.
fn append_bytes(dst: &mut Vec<u8>, src: &Vec<u8>)
    ensures
        final(dst)@ == old(dst)@ + src@,
{
    let mut i: usize = 0;
    while i < src.len()
        invariant
            i <= src@.len(),
            dst@ == old(dst)@ + src@.take(i as int),
        decreases src@.len() - i,
    {
        dst.push(src[i]);
        proof {
            assert(old(dst)@ + src@.take(i as int + 1) =~= (old(dst)@ + src@.take(
                i as int)).push(src@[i as int]));
        }
        i = i + 1;
    }
    proof {
        assert(src@.take(src@.len() as int) =~= src@);
    }
}

/// What `echo` echoes, read from the request's params.
fn echo_text_of(params: &JsonValue) -> (r: Vec<u8>)
    ensures
        r@ == echo_text(params.deep_view()),
{
    match params {
        JsonValue::Obj(pairs) => match lookup_pair(pairs, &lit_message_vec()) {
            Option::Some(JsonValue::Str(s)) => s,
            _ => Vec::new(),
        },
        _ => Vec::new(),
    }
}

/// The text elements of the `args` member, read from the request's params.
fn execute_args_of(params: &JsonValue) -> (r: Vec<Vec<u8>>)
    ensures
        views_of_bytes(r@) == execute_args(params.deep_view()),
{
    let mut out: Vec<Vec<u8>> = Vec::new();
    proof {
        assert(views_of_bytes(out@) =~= Seq::<Seq<u8>>::empty());
    }
    match params {
        JsonValue::Obj(pairs) => {
            match lookup_pair(pairs, &lit_args_vec()) {
                Option::Some(JsonValue::Arr(items)) => {
                    let ghost m = deep_view_seq(items@);
                    proof {
                        lemma_deep_view_seq_index(items@);
                        assert(m.take(0) =~= Seq::<ValueModel>::empty());
                    }
                    let mut k: usize = 0;
                    while k < items.len()
                        invariant
                            k <= items@.len(),
                            m.len() == items@.len(),
                            forall|l: int| 0 <= l < items@.len()
                                ==> #[trigger] m[l] == items@[l].deep_view(),
                            views_of_bytes(out@) == str_items(m.take(k as int)),
                        decreases items@.len() - k,
                    {
                        proof {
                            assert(m.take(k as int + 1).drop_last() =~= m.take(k as int));
                            assert(m.take(k as int + 1).last() == m[k as int]);
                        }
                        match &items[k] {
                            JsonValue::Str(s) => {
                                let ghost out0 = out@;
                                out.push(clone_bytes(s));
                                proof {
                                    assert(views_of_bytes(out@) =~= views_of_bytes(out0).push(
                                        s@));
                                    assert(views_of_bytes(out@)
                                        =~= str_items(m.take(k as int + 1)));
                                }
                            },
                            _ => {
                                proof {
                                    assert(views_of_bytes(out@)
                                        =~= str_items(m.take(k as int + 1)));
                                }
                            },
                        }
                        k = k + 1;
                    }
                    proof {
                        assert(m.take(m.len() as int) =~= m);
                    }
                    out
                },
                _ => out,
            }
        },
        _ => out,
    }
}

/// Handles a validated request: answers `ping`, `echo`, unknown methods and
/// `execute` without a command directly; hands `whoami` and well-formed
/// `execute` requests back as outside work. Exactly `spec_dispatch`.
pub fn handle_request(req: &JsonRpcRequest) -> (d: Dispatched)
    ensures
        d.deep_view() == spec_dispatch(req.deep_view()),
{
    if bytes_eq(&req.method, &lit_ping_vec()) {
        let mut pairs: Vec<(Vec<u8>, JsonValue)> = Vec::new();
        pairs.push((lit_pong_vec(), JsonValue::Bool(true)));
        proof {
            lemma_deep_view_pairs_index(pairs@);
            assert(deep_view_pairs(pairs@)
                =~= seq![(lit_pong(), ValueModel::Bool(true))]);
        }
        Dispatched::Reply(JsonRpcResponse::success(req.id.deep_clone(), JsonValue::Obj(pairs)))
    } else if bytes_eq(&req.method, &lit_echo_vec()) {
        let text = echo_text_of(&req.params);
        let mut pairs: Vec<(Vec<u8>, JsonValue)> = Vec::new();
        let ghost text_view = text@;
        pairs.push((lit_echo_vec(), JsonValue::Str(text)));
        proof {
            lemma_deep_view_pairs_index(pairs@);
            assert(deep_view_pairs(pairs@)
                =~= seq![(lit_echo(), ValueModel::Str(text_view))]);
        }
        Dispatched::Reply(JsonRpcResponse::success(req.id.deep_clone(), JsonValue::Obj(pairs)))
    } else if bytes_eq(&req.method, &lit_whoami_vec()) {
        Dispatched::Whoami { id: req.id.deep_clone() }
    } else if bytes_eq(&req.method, &lit_execute_vec()) {
        let command_opt: Option<Vec<u8>> = match &req.params {
            JsonValue::Obj(pairs) => match lookup_pair(pairs, &lit_command_vec()) {
                Option::Some(JsonValue::Str(c)) => Some(c),
                _ => None,
            },
            _ => None,
        };
        match command_opt {
            Some(command) => {
                let args = execute_args_of(&req.params);
                Dispatched::Execute { id: req.id.deep_clone(), command, args }
            },
            None => Dispatched::Reply(
                JsonRpcResponse::error(
                    req.id.deep_clone(),
                    INVALID_PARAMS,
                    lit_msg_missing_command_vec(),
                ),
            ),
        }
    } else {
        let mut message = lit_msg_unknown_method_vec();
        append_bytes(&mut message, &req.method);
        Dispatched::Reply(
            JsonRpcResponse::error(req.id.deep_clone(), METHOD_NOT_FOUND, message),
        )
    }
}

/// An unregistered method dispatches to a method-not-found reply that echoes
/// the id, and the message carries the method name: it is exactly the fixed
/// prefix followed by the method.
pub proof fn lemma_unknown_method(r: crate::protocol::RequestModel)
    requires
        r.method != lit_ping(),
        r.method != lit_echo(),
        r.method != lit_whoami(),
        r.method != lit_execute(),
    ensures
        ({
            let d = spec_dispatch(r);
            &&& d matches DispatchedModel::Reply(resp)
            &&& resp.id == r.id
            &&& resp.result is None
            &&& resp.error matches Some(e)
            &&& e.code == METHOD_NOT_FOUND as int
            &&& e.message == lit_msg_unknown_method() + r.method
            &&& e.message.subrange(
                lit_msg_unknown_method().len() as int,
                e.message.len() as int,
            ) == r.method
        }),
{
    let msg = lit_msg_unknown_method() + r.method;
    assert(msg.subrange(lit_msg_unknown_method().len() as int, msg.len() as int) =~= r.method);
}

// ─── Completing the outside work ─────────────────────────────────────────────

/// The reply for `whoami`, given the user name and numeric user id the host
/// found: `{"user": ..., "uid": ...}`.
pub fn complete_whoami(id: JsonValue, user: Vec<u8>, uid: u32) -> (r: JsonRpcResponse)
    ensures
        r.deep_view() == success_model(
            id.deep_view(),
            ValueModel::Obj(
                seq![
                    (lit_user(), ValueModel::Str(user@)),
                    (lit_uid(), ValueModel::Int(uid as int)),
                ],
            ),
        ),
{
    let ghost user_view = user@;
    let mut pairs: Vec<(Vec<u8>, JsonValue)> = Vec::new();
    pairs.push((lit_user_vec(), JsonValue::Str(user)));
    pairs.push((lit_uid_vec(), JsonValue::Int(uid as i64)));
    proof {
        lemma_deep_view_pairs_index(pairs@);
        assert(deep_view_pairs(pairs@) =~= seq![
            (lit_user(), ValueModel::Str(user_view)),
            (lit_uid(), ValueModel::Int(uid as int)),
        ]);
    }
    JsonRpcResponse::success(id, JsonValue::Obj(pairs))
}

/// The reply for `execute`, given what the child process produced:
/// `{"stdout": ..., "stderr": ..., "exit_code": ...}`. An exit code of -1 is
/// the host's sentinel for a process that exposed none.
pub fn complete_execute(id: JsonValue, stdout: Vec<u8>, stderr: Vec<u8>, exit_code: i32) -> (r:
    JsonRpcResponse)
    ensures
        r.deep_view() == success_model(
            id.deep_view(),
            ValueModel::Obj(
                seq![
                    (lit_stdout(), ValueModel::Str(stdout@)),
                    (lit_stderr(), ValueModel::Str(stderr@)),
                    (lit_exit_code(), ValueModel::Int(exit_code as int)),
                ],
            ),
        ),
{
    let ghost stdout_view = stdout@;
    let ghost stderr_view = stderr@;
    let mut pairs: Vec<(Vec<u8>, JsonValue)> = Vec::new();
    pairs.push((lit_stdout_vec(), JsonValue::Str(stdout)));
    pairs.push((lit_stderr_vec(), JsonValue::Str(stderr)));
    pairs.push((lit_exit_code_vec(), JsonValue::Int(exit_code as i64)));
    proof {
        lemma_deep_view_pairs_index(pairs@);
        assert(deep_view_pairs(pairs@) =~= seq![
            (lit_stdout(), ValueModel::Str(stdout_view)),
            (lit_stderr(), ValueModel::Str(stderr_view)),
            (lit_exit_code(), ValueModel::Int(exit_code as int)),
        ]);
    }
    JsonRpcResponse::success(id, JsonValue::Obj(pairs))
}

/// The reply for an `execute` whose process could not be launched at all: an
/// internal error carrying the host's diagnostic.
pub fn execute_failure(id: JsonValue, message: Vec<u8>) -> (r: JsonRpcResponse)
    ensures
        r.deep_view() == error_model(id.deep_view(), INTERNAL_ERROR as int, message@),
{
    JsonRpcResponse::error(id, INTERNAL_ERROR, message)
}

} // verus!
