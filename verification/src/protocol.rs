//! The protocol types: requests, responses, error codes, validation.
//!
//! The gateway speaks newline-delimited JSON-RPC over a Unix domain socket:
//! each message is a single line. A request carries the protocol version
//! marker, a caller-chosen opaque `id`, a method name, and a structured
//! `params` payload. A response echoes the `id` and carries exactly one of
//! `result` or `error`.

use vstd::prelude::*;

use crate::codec::{
    encode_value, parse_value, ser_value, skip_ws, val_at, wf_members, wf_text, wf_value,
};
use crate::text::{
    lit_code, lit_code_vec, lit_data, lit_data_vec, lit_error, lit_error_vec, lit_id,
    lit_id_vec, lit_jsonrpc, lit_jsonrpc_vec, lit_method, lit_method_vec,
    lit_msg_bad_version, lit_msg_bad_version_vec, lit_msg_missing_id, lit_msg_missing_id_vec,
    lit_msg_missing_method, lit_msg_missing_method_vec, lit_message, lit_message_vec, lit_params, lit_params_vec, lit_result, lit_result_vec,
    lit_version,
    lit_version_vec,
};
use crate::value::{
    bytes_eq, clone_bytes, deep_view_pairs, lemma_deep_view_pairs_index, JsonValue, ValueModel,
};

verus! {

// ─── Error codes ─────────────────────────────────────────────────────────────
//
// Protocol-level codes live in one reserved block, application-level codes in
// a disjoint block, so a caller can always tell "the protocol rejected this"
// from "the operation itself failed".

pub const PARSE_ERROR: i32 = -32700;
pub const INVALID_REQUEST: i32 = -32600;
pub const METHOD_NOT_FOUND: i32 = -32601;
pub const INVALID_PARAMS: i32 = -32602;
pub const INTERNAL_ERROR: i32 = -32603;

pub const NOT_IN_ALLOWLIST: i32 = -32001;
pub const RATE_LIMITED: i32 = -32002;
pub const CONTENT_BLOCKED: i32 = -32003;
pub const CHANNEL_UNAVAILABLE: i32 = -32004;
pub const SEND_FAILED: i32 = -32005;

/// The reserved block of protocol-level codes.
pub open spec fn protocol_code(c: int) -> bool {
    -32768 <= c <= -32600
}

/// The reserved block of application-level codes.
pub open spec fn application_code(c: int) -> bool {
    -32099 <= c <= -32000
}

/// The two reserved blocks never overlap, every protocol-level constant lies
/// in the protocol block, and every application-level constant lies in the
/// application block.
pub proof fn lemma_error_code_blocks_disjoint()
    ensures
        forall|c: int| protocol_code(c) ==> !application_code(c),
        protocol_code(PARSE_ERROR as int),
        protocol_code(INVALID_REQUEST as int),
        protocol_code(METHOD_NOT_FOUND as int),
        protocol_code(INVALID_PARAMS as int),
        protocol_code(INTERNAL_ERROR as int),
        application_code(NOT_IN_ALLOWLIST as int),
        application_code(RATE_LIMITED as int),
        application_code(CONTENT_BLOCKED as int),
        application_code(CHANNEL_UNAVAILABLE as int),
        application_code(SEND_FAILED as int),
{
}

// ─── Requests ────────────────────────────────────────────────────────────────

/// A request from a client: version marker, opaque correlation id, method
/// name, structured params. Text is UTF-8 bytes, as on the wire.
pub struct JsonRpcRequest {
    pub jsonrpc: Vec<u8>,
    pub id: JsonValue,
    pub method: Vec<u8>,
    pub params: JsonValue,
}

/// The mathematical model of a request.
pub struct RequestModel {
    pub jsonrpc: Seq<u8>,
    pub id: ValueModel,
    pub method: Seq<u8>,
    pub params: ValueModel,
}

impl JsonRpcRequest {
    /// The model of this request.
    pub open spec fn deep_view(&self) -> RequestModel {
        RequestModel {
            jsonrpc: self.jsonrpc@,
            id: self.id.deep_view(),
            method: self.method@,
            params: self.params.deep_view(),
        }
    }

    /// The request can be carried by the codec.
    pub open spec fn wf(&self) -> bool {
        wf_request(self.deep_view())
    }
}

/// A request the codec can carry.
pub open spec fn wf_request(r: RequestModel) -> bool {
    &&& wf_text(r.jsonrpc)
    &&& wf_value(r.id)
    &&& wf_text(r.method)
    &&& wf_value(r.params)
}

/// The wire object of a request: its four members, in canonical order.
pub open spec fn request_value(r: RequestModel) -> ValueModel {
    ValueModel::Obj(
        seq![
            (lit_jsonrpc(), ValueModel::Str(r.jsonrpc)),
            (lit_id(), r.id),
            (lit_method(), ValueModel::Str(r.method)),
            (lit_params(), r.params),
        ],
    )
}

/// The wire object of a request, as a value.
pub fn request_to_value(req: &JsonRpcRequest) -> (v: JsonValue)
    ensures
        v.deep_view() == request_value(req.deep_view()),
{
    let mut pairs: Vec<(Vec<u8>, JsonValue)> = Vec::new();
    pairs.push((lit_jsonrpc_vec(), JsonValue::Str(clone_bytes(&req.jsonrpc))));
    pairs.push((lit_id_vec(), req.id.deep_clone()));
    pairs.push((lit_method_vec(), JsonValue::Str(clone_bytes(&req.method))));
    pairs.push((lit_params_vec(), req.params.deep_clone()));
    proof {
        lemma_deep_view_pairs_index(pairs@);
        assert(deep_view_pairs(pairs@) =~= request_value(req.deep_view())->Obj_0);
    }
    JsonValue::Obj(pairs)
}

/// Encodes a request as one line of text (newline not included).
pub fn encode_request(req: &JsonRpcRequest) -> (out: Vec<u8>)
    ensures
        out@ == ser_value(request_value(req.deep_view())),
{
    let v = request_to_value(req);
    let mut out: Vec<u8> = Vec::new();
    encode_value(&v, &mut out);
    proof {
        assert(out@ =~= ser_value(request_value(req.deep_view())));
    }
    out
}

// ─── Reading the members of a wire object ────────────────────────────────────

/// The value under `key`, at its last occurrence: a peer that repeats a
/// member is read leniently, the last occurrence winning, as a map built by
/// inserting the members in order would read.
pub open spec fn lookup(pairs: Seq<(Seq<u8>, ValueModel)>, key: Seq<u8>) -> Option<ValueModel>
    decreases pairs.len(),
{
    if pairs.len() == 0 {
        None
    } else if pairs.last().0 == key {
        Some(pairs.last().1)
    } else {
        lookup(pairs.drop_last(), key)
    }
}

/// A copy of the value under `key`, at its last occurrence.
pub fn lookup_pair(pairs: &Vec<(Vec<u8>, JsonValue)>, key: &Vec<u8>) -> (r: Option<JsonValue>)
    ensures
        match lookup(deep_view_pairs(pairs@), key@) {
            Option::None => r is None,
            Option::Some(gv) => r matches Some(v) && v.deep_view() == gv,
        },
{
    proof {
        lemma_deep_view_pairs_index(pairs@);
    }
    let ghost m = deep_view_pairs(pairs@);
    let mut found: Option<usize> = None;
    let mut k: usize = 0;
    while k < pairs.len()
        invariant
            k <= pairs@.len(),
            m == deep_view_pairs(pairs@),
            m.len() == pairs@.len(),
            forall|l: int| 0 <= l < pairs@.len()
                ==> #[trigger] m[l] == (pairs@[l].0@, pairs@[l].1.deep_view()),
            match found {
                Option::None => lookup(m.take(k as int), key@) is None,
                Option::Some(f) => f < k && lookup(m.take(k as int), key@)
                    == Some(m[f as int].1),
            },
        decreases pairs@.len() - k,
    {
        proof {
            assert(m.take(k as int + 1).drop_last() =~= m.take(k as int));
            assert(m.take(k as int + 1).last() == m[k as int]);
        }
        if bytes_eq(&pairs[k].0, key) {
            found = Some(k);
        }
        k = k + 1;
    }
    proof {
        assert(m.take(m.len() as int) =~= m);
    }
    match found {
        Some(f) => Some(pairs[f].1.deep_clone()),
        None => None,
    }
}

/// The request read from a wire object: a missing or non-text version marker
/// or method reads as empty text, a missing id as null, and missing params as
/// the empty map, so that validation can name what is missing.
pub open spec fn request_of(g: ValueModel) -> RequestModel {
    let pairs = g->Obj_0;
    RequestModel {
        jsonrpc: match lookup(pairs, lit_jsonrpc()) {
            Option::Some(ValueModel::Str(s)) => s,
            _ => Seq::empty(),
        },
        id: match lookup(pairs, lit_id()) {
            Option::Some(v) => v,
            Option::None => ValueModel::Null,
        },
        method: match lookup(pairs, lit_method()) {
            Option::Some(ValueModel::Str(s)) => s,
            _ => Seq::empty(),
        },
        params: match lookup(pairs, lit_params()) {
            Option::Some(v) => v,
            Option::None => ValueModel::Obj(Seq::empty()),
        },
    }
}

/// Reads a request from a decoded wire value. Fails exactly on values that
/// are not objects.
pub fn request_from_value(v: JsonValue) -> (r: Result<JsonRpcRequest, ()>)
    ensures
        v.deep_view() is Obj ==> (r matches Ok(req)
            && req.deep_view() == request_of(v.deep_view())),
        !(v.deep_view() is Obj) ==> r is Err,
{
    match v {
        JsonValue::Obj(pairs) => {
            let jsonrpc: Vec<u8> = match lookup_pair(&pairs, &lit_jsonrpc_vec()) {
                Option::Some(JsonValue::Str(s)) => s,
                _ => Vec::new(),
            };
            let id: JsonValue = match lookup_pair(&pairs, &lit_id_vec()) {
                Option::Some(w) => w,
                Option::None => JsonValue::Null,
            };
            let method: Vec<u8> = match lookup_pair(&pairs, &lit_method_vec()) {
                Option::Some(JsonValue::Str(s)) => s,
                _ => Vec::new(),
            };
            let params: JsonValue = match lookup_pair(&pairs, &lit_params_vec()) {
                Option::Some(w) => w,
                Option::None => JsonValue::Obj(Vec::new()),
            };
            let req = JsonRpcRequest { jsonrpc, id, method, params };
            proof {
                assert(deep_view_pairs(Seq::<(Vec<u8>, JsonValue)>::empty())
                    =~= Seq::<(Seq<u8>, ValueModel)>::empty());
                assert(req.deep_view().jsonrpc =~= request_of(
                    JsonValue::Obj(pairs).deep_view()).jsonrpc);
                assert(req.deep_view().method =~= request_of(
                    JsonValue::Obj(pairs).deep_view()).method);
            }
            Ok(req)
        },
        _ => Err(()),
    }
}

/// A line the codec could not read as a request; it keeps the offending text
/// for diagnostics.
#[derive(Debug)]
pub struct ParseError {
    pub offending: Vec<u8>,
}

/// Decodes one line (newline not included) as a request.
///
/// Wherever the line is exactly the serialization of a well-formed object
/// value, decoding succeeds and reads the request out of that object; a line
/// that serializes a non-object value, or no value at all, is a parse error
/// carrying the offending text. Lines with insignificant whitespace between
/// tokens are read as well, beyond what the contract pins.
pub fn decode_request(line: &Vec<u8>) -> (r: Result<JsonRpcRequest, ParseError>)
    ensures
        forall|g: ValueModel| wf_value(g) && line@ == #[trigger] ser_value(g) ==> {
            &&& g is Obj ==> (r matches Ok(req) && req.deep_view() == request_of(g))
            &&& !(g is Obj) ==> r is Err
        },
        r matches Err(e) ==> e.offending@ == line@,
{
    proof {
        assert forall|g: ValueModel| wf_value(g) && line@ == #[trigger] ser_value(g)
            implies val_at(g, line@, 0) by {
            assert(line@.subrange(0, ser_value(g).len() as int) =~= ser_value(g));
        }
    }
    match parse_value(line, 0) {
        Ok((v, j)) => {
            let j = skip_ws(line, j);
            if j != line.len() {
                return Err(ParseError { offending: clone_bytes(line) });
            }
            match request_from_value(v) {
                Ok(req) => Ok(req),
                Err(()) => Err(ParseError { offending: clone_bytes(line) }),
            }
        },
        Err(()) => Err(ParseError { offending: clone_bytes(line) }),
    }
}

// ─── Responses ───────────────────────────────────────────────────────────────

/// The error object inside an error response.
pub struct JsonRpcError {
    pub code: i32,
    pub message: Vec<u8>,
    pub data: Option<JsonValue>,
}

/// A response to a client: version marker, the echoed id, and exactly one of
/// `result` and `error`.
pub struct JsonRpcResponse {
    pub jsonrpc: Vec<u8>,
    pub id: JsonValue,
    pub result: Option<JsonValue>,
    pub error: Option<JsonRpcError>,
}

/// The mathematical model of a response's error object.
pub struct ErrorModel {
    pub code: int,
    pub message: Seq<u8>,
    pub data: Option<ValueModel>,
}

/// The mathematical model of a response.
pub struct ResponseModel {
    pub jsonrpc: Seq<u8>,
    pub id: ValueModel,
    pub result: Option<ValueModel>,
    pub error: Option<ErrorModel>,
}

impl JsonRpcError {
    /// The model of this error object.
    pub open spec fn deep_view(&self) -> ErrorModel {
        ErrorModel {
            code: self.code as int,
            message: self.message@,
            data: match self.data {
                Option::Some(d) => Option::Some(d.deep_view()),
                Option::None => Option::None,
            },
        }
    }
}

impl JsonRpcResponse {
    /// The model of this response.
    pub open spec fn deep_view(&self) -> ResponseModel {
        ResponseModel {
            jsonrpc: self.jsonrpc@,
            id: self.id.deep_view(),
            result: match self.result {
                Option::Some(v) => Option::Some(v.deep_view()),
                Option::None => Option::None,
            },
            error: match self.error {
                Option::Some(e) => Option::Some(e.deep_view()),
                Option::None => Option::None,
            },
        }
    }

    /// The response can be carried by the codec and is success xor failure.
    pub open spec fn wf(&self) -> bool {
        wf_response(self.deep_view())
    }
}

/// An error object the codec can carry.
pub open spec fn wf_error(e: ErrorModel) -> bool {
    &&& i32::MIN <= e.code <= i32::MAX
    &&& wf_text(e.message)
    &&& (e.data matches Option::Some(d) ==> wf_value(d))
}

/// A response the codec can carry, with exactly one of result and error.
pub open spec fn wf_response(r: ResponseModel) -> bool {
    &&& wf_text(r.jsonrpc)
    &&& wf_value(r.id)
    &&& (r.result matches Option::Some(v) ==> wf_value(v))
    &&& (r.error matches Option::Some(e) ==> wf_error(e))
    &&& ((r.result is Some) <==> !(r.error is Some))
}

/// The wire object of an error: code and message, then the data if present.
pub open spec fn error_object(e: ErrorModel) -> ValueModel {
    ValueModel::Obj(
        seq![(lit_code(), ValueModel::Int(e.code)), (lit_message(), ValueModel::Str(e.message))]
            + match e.data {
            Option::Some(d) => seq![(lit_data(), d)],
            Option::None => Seq::empty(),
        },
    )
}

/// The wire object of a response: version marker and id always; a `result`
/// member exactly when a result is present; an `error` member exactly when an
/// error is present. The unset side has no member at all.
pub open spec fn response_value(r: ResponseModel) -> ValueModel {
    ValueModel::Obj(
        seq![(lit_jsonrpc(), ValueModel::Str(r.jsonrpc)), (lit_id(), r.id)] + (match r.result {
            Option::Some(v) => seq![(lit_result(), v)],
            Option::None => Seq::empty(),
        }) + (match r.error {
            Option::Some(e) => seq![(lit_error(), error_object(e))],
            Option::None => Seq::empty(),
        }),
    )
}

/// The member keys of a response's wire object.
pub open spec fn response_keys(r: ResponseModel) -> Seq<Seq<u8>> {
    response_value(r)->Obj_0.map_values(|p: (Seq<u8>, ValueModel)| p.0)
}

/// In a well-formed response exactly one of result and error is present, and
/// the wire object carries a `result` key exactly when the result is present
/// and an `error` key exactly when the error is present: the unset side is
/// omitted entirely.
pub proof fn lemma_response_exactly_one(r: ResponseModel)
    requires
        wf_response(r),
    ensures
        (r.result is Some) <==> !(r.error is Some),
        response_keys(r).contains(lit_result()) <==> r.result is Some,
        response_keys(r).contains(lit_error()) <==> r.error is Some,
{
    let ks = response_keys(r);
    assert(ks[0] == lit_jsonrpc());
    assert(ks[1] == lit_id());
    assert(lit_jsonrpc().len() != lit_result().len() && lit_id().len() != lit_result().len()
        && lit_jsonrpc().len() != lit_error().len() && lit_id().len() != lit_error().len());
    assert(lit_result()[0] != lit_error()[0]);
    if r.result is Some {
        assert(ks[2] == lit_result());
        assert(ks.contains(lit_result()));
        assert(ks.len() == 3);
        assert forall|k: int| 0 <= k < ks.len() implies ks[k] != lit_error() by {}
        assert(!ks.contains(lit_error()));
    } else {
        assert(ks[2] == lit_error());
        assert(ks.contains(lit_error()));
        assert(ks.len() == 3);
        assert forall|k: int| 0 <= k < ks.len() implies ks[k] != lit_result() by {}
        assert(!ks.contains(lit_result()));
    }
}

impl JsonRpcResponse {
    /// A successful response carrying `result`, with no error member.
    pub fn success(id: JsonValue, result: JsonValue) -> (r: Self)
        ensures
            r.deep_view() == (ResponseModel {
                jsonrpc: lit_version(),
                id: id.deep_view(),
                result: Option::Some(result.deep_view()),
                error: Option::None,
            }),
    {
        JsonRpcResponse {
            jsonrpc: lit_version_vec(),
            id,
            result: Some(result),
            error: None,
        }
    }

    /// A failed response carrying an error code and message, with no result
    /// member.
    pub fn error(id: JsonValue, code: i32, message: Vec<u8>) -> (r: Self)
        ensures
            r.deep_view() == (ResponseModel {
                jsonrpc: lit_version(),
                id: id.deep_view(),
                result: Option::None,
                error: Option::Some(ErrorModel {
                    code: code as int,
                    message: message@,
                    data: Option::None,
                }),
            }),
    {
        JsonRpcResponse {
            jsonrpc: lit_version_vec(),
            id,
            result: None,
            error: Some(JsonRpcError { code, message, data: None }),
        }
    }

    /// A failed response carrying an error code, message, and extra data.
    pub fn error_with_data(id: JsonValue, code: i32, message: Vec<u8>, data: JsonValue) -> (r:
        Self)
        ensures
            r.deep_view() == (ResponseModel {
                jsonrpc: lit_version(),
                id: id.deep_view(),
                result: Option::None,
                error: Option::Some(ErrorModel {
                    code: code as int,
                    message: message@,
                    data: Option::Some(data.deep_view()),
                }),
            }),
    {
        JsonRpcResponse {
            jsonrpc: lit_version_vec(),
            id,
            result: None,
            error: Some(JsonRpcError { code, message, data: Some(data) }),
        }
    }
}

/// The wire object of a response, as a value.
pub fn response_to_value(resp: &JsonRpcResponse) -> (v: JsonValue)
    ensures
        v.deep_view() == response_value(resp.deep_view()),
{
    let mut pairs: Vec<(Vec<u8>, JsonValue)> = Vec::new();
    pairs.push((lit_jsonrpc_vec(), JsonValue::Str(clone_bytes(&resp.jsonrpc))));
    pairs.push((lit_id_vec(), resp.id.deep_clone()));
    match &resp.result {
        Some(v) => {
            pairs.push((lit_result_vec(), v.deep_clone()));
        },
        None => {},
    }
    match &resp.error {
        Some(e) => {
            let mut epairs: Vec<(Vec<u8>, JsonValue)> = Vec::new();
            epairs.push((lit_code_vec(), JsonValue::Int(e.code as i64)));
            epairs.push((lit_message_vec(), JsonValue::Str(clone_bytes(&e.message))));
            match &e.data {
                Some(d) => {
                    epairs.push((lit_data_vec(), d.deep_clone()));
                },
                None => {},
            }
            proof {
                lemma_deep_view_pairs_index(epairs@);
                assert(deep_view_pairs(epairs@)
                    =~= error_object(e.deep_view())->Obj_0);
            }
            pairs.push((lit_error_vec(), JsonValue::Obj(epairs)));
        },
        None => {},
    }
    proof {
        lemma_deep_view_pairs_index(pairs@);
        assert(deep_view_pairs(pairs@) =~= response_value(resp.deep_view())->Obj_0);
    }
    JsonValue::Obj(pairs)
}

/// Encodes a response as one line of text (newline not included).
pub fn encode_response(resp: &JsonRpcResponse) -> (out: Vec<u8>)
    ensures
        out@ == ser_value(response_value(resp.deep_view())),
{
    let v = response_to_value(resp);
    let mut out: Vec<u8> = Vec::new();
    encode_value(&v, &mut out);
    proof {
        assert(out@ =~= ser_value(response_value(resp.deep_view())));
    }
    out
}

/// The response read from a wire object, if it has the right shape: an `id`,
/// an optional `result`, and an optional `error` that is itself an object
/// with an integer `code` in 32-bit range and a text `message`; an optional
/// `data` member of the error is carried along. Absent id reads as null; a
/// malformed `error` member makes the whole response unreadable.
pub open spec fn response_of(g: ValueModel) -> Option<ResponseModel> {
    if !(g is Obj) {
        Option::None
    } else {
        let pairs = g->Obj_0;
        let jsonrpc = match lookup(pairs, lit_jsonrpc()) {
            Option::Some(ValueModel::Str(s)) => s,
            _ => Seq::empty(),
        };
        let id = match lookup(pairs, lit_id()) {
            Option::Some(v) => v,
            Option::None => ValueModel::Null,
        };
        let result = lookup(pairs, lit_result());
        match lookup(pairs, lit_error()) {
            Option::None => Option::Some(ResponseModel {
                jsonrpc,
                id,
                result,
                error: Option::None,
            }),
            Option::Some(ev) => if ev is Obj {
                let epairs = ev->Obj_0;
                match (lookup(epairs, lit_code()), lookup(epairs, lit_message())) {
                    (Option::Some(ValueModel::Int(c)), Option::Some(ValueModel::Str(msg))) => if
                        i32::MIN <= c <= i32::MAX {
                        Option::Some(ResponseModel {
                            jsonrpc,
                            id,
                            result,
                            error: Option::Some(ErrorModel {
                                code: c,
                                message: msg,
                                data: lookup(epairs, lit_data()),
                            }),
                        })
                    } else {
                        Option::None
                    },
                    _ => Option::None,
                }
            } else {
                Option::None
            },
        }
    }
}

/// Reads a response from a decoded wire value. Fails exactly where
/// `response_of` reads nothing.
pub fn response_from_value(v: JsonValue) -> (r: Result<JsonRpcResponse, ()>)
    ensures
        match response_of(v.deep_view()) {
            Option::Some(rm) => r matches Ok(resp) && resp.deep_view() == rm,
            Option::None => r is Err,
        },
{
    match v {
        JsonValue::Obj(pairs) => {
            let jsonrpc: Vec<u8> = match lookup_pair(&pairs, &lit_jsonrpc_vec()) {
                Option::Some(JsonValue::Str(s)) => s,
                _ => Vec::new(),
            };
            let id: JsonValue = match lookup_pair(&pairs, &lit_id_vec()) {
                Option::Some(w) => w,
                Option::None => JsonValue::Null,
            };
            let result: Option<JsonValue> = lookup_pair(&pairs, &lit_result_vec());
            match lookup_pair(&pairs, &lit_error_vec()) {
                Option::None => {
                    let resp = JsonRpcResponse { jsonrpc, id, result, error: None };
                    Ok(resp)
                },
                Option::Some(ev) => {
                    match ev {
                        JsonValue::Obj(epairs) => {
                            let code_v = lookup_pair(&epairs, &lit_code_vec());
                            let msg_v = lookup_pair(&epairs, &lit_message_vec());
                            match (code_v, msg_v) {
                                (
                                    Option::Some(JsonValue::Int(c)),
                                    Option::Some(JsonValue::Str(msg)),
                                ) => {
                                    if c < (i32::MIN as i64) || c > (i32::MAX as i64) {
                                        return Err(());
                                    }
                                    let data = lookup_pair(&epairs, &lit_data_vec());
                                    let resp = JsonRpcResponse {
                                        jsonrpc,
                                        id,
                                        result,
                                        error: Some(JsonRpcError {
                                            code: c as i32,
                                            message: msg,
                                            data,
                                        }),
                                    };
                                    Ok(resp)
                                },
                                _ => Err(()),
                            }
                        },
                        _ => Err(()),
                    }
                },
            }
        },
        _ => Err(()),
    }
}

// ─── The codec round trip ────────────────────────────────────────────────────

/// The wire object of a well-formed request is a well-formed value.
pub proof fn lemma_request_value_wf(r: RequestModel)
    requires
        wf_request(r),
    ensures
        wf_value(request_value(r)),
{
    let p = request_value(r)->Obj_0;
    assert(wf_text(lit_jsonrpc()));
    assert(wf_text(lit_id()));
    assert(wf_text(lit_method()));
    assert(wf_text(lit_params()));
    assert(p.drop_last() =~= seq![
        (lit_jsonrpc(), ValueModel::Str(r.jsonrpc)),
        (lit_id(), r.id),
        (lit_method(), ValueModel::Str(r.method)),
    ]);
    assert(p.drop_last().drop_last() =~= seq![
        (lit_jsonrpc(), ValueModel::Str(r.jsonrpc)),
        (lit_id(), r.id),
    ]);
    assert(p.drop_last().drop_last().drop_last() =~= seq![
        (lit_jsonrpc(), ValueModel::Str(r.jsonrpc)),
    ]);
    assert(p.drop_last().drop_last().drop_last().drop_last()
        =~= Seq::<(Seq<u8>, ValueModel)>::empty());
    assert(wf_value(ValueModel::Str(r.jsonrpc)));
    assert(wf_value(ValueModel::Str(r.method)));
    assert(p.drop_last().drop_last().drop_last().last()
        == (lit_jsonrpc(), ValueModel::Str(r.jsonrpc)));
    assert(p.drop_last().drop_last().last() == (lit_id(), r.id));
    assert(p.drop_last().last() == (lit_method(), ValueModel::Str(r.method)));
    assert(p.last() == (lit_params(), r.params));
    assert(wf_members(Seq::<(Seq<u8>, ValueModel)>::empty()));
    assert(wf_members(p.drop_last().drop_last().drop_last()));
    assert(wf_members(p.drop_last().drop_last()));
    assert(wf_members(p.drop_last()));
    assert(wf_members(p));
}

/// Reading a request back out of its own wire object yields the request: the
/// object-level half of the codec round trip.
pub proof fn lemma_request_of_request_value(r: RequestModel)
    ensures
        request_of(request_value(r)) == r,
{
    let p = request_value(r)->Obj_0;
    assert(lit_jsonrpc().len() != lit_id().len());
    assert(lit_jsonrpc().len() != lit_method().len());
    assert(lit_jsonrpc().len() != lit_params().len());
    assert(lit_id().len() != lit_method().len());
    assert(lit_id().len() != lit_params().len());
    assert(lit_method()[0] != lit_params()[0]);
    let p1 = p.drop_last();
    let p2 = p1.drop_last();
    let p3 = p2.drop_last();
    assert(p1 =~= seq![(lit_jsonrpc(), ValueModel::Str(r.jsonrpc)), (lit_id(), r.id),
        (lit_method(), ValueModel::Str(r.method))]);
    assert(p2 =~= seq![(lit_jsonrpc(), ValueModel::Str(r.jsonrpc)), (lit_id(), r.id)]);
    assert(p3 =~= seq![(lit_jsonrpc(), ValueModel::Str(r.jsonrpc))]);
    assert(lookup(p, lit_params()) == Some(r.params));
    assert(lookup(p, lit_method()) == lookup(p1, lit_method()));
    assert(lookup(p1, lit_method()) == Some(ValueModel::Str(r.method)));
    assert(lookup(p, lit_id()) == lookup(p1, lit_id()));
    assert(lookup(p1, lit_id()) == lookup(p2, lit_id()));
    assert(lookup(p2, lit_id()) == Some(r.id));
    assert(lookup(p, lit_jsonrpc()) == lookup(p1, lit_jsonrpc()));
    assert(lookup(p1, lit_jsonrpc()) == lookup(p2, lit_jsonrpc()));
    assert(lookup(p2, lit_jsonrpc()) == lookup(p3, lit_jsonrpc()));
    assert(lookup(p3, lit_jsonrpc()) == Some(ValueModel::Str(r.jsonrpc)));
}

/// A request's wire line holds no newline byte, so writing it plus a newline
/// frames exactly one message.
pub proof fn lemma_request_line_newline_free(r: RequestModel)
    requires
        wf_request(r),
    ensures
        crate::codec::newline_free(ser_value(request_value(r))),
{
    lemma_request_value_wf(r);
    crate::codec::lemma_ser_value_newline_free(request_value(r));
}

/// The codec round trip, executable: decoding an encoded well-formed request
/// yields the request back, and decoding cannot fail on it.
pub fn round_trip_request(req: &JsonRpcRequest) -> (r: JsonRpcRequest)
    requires
        req.wf(),
    ensures
        r.deep_view() == req.deep_view(),
{
    let line = encode_request(req);
    proof {
        lemma_request_value_wf(req.deep_view());
        lemma_request_of_request_value(req.deep_view());
    }
    match decode_request(&line) {
        Ok(out) => out,
        Err(_) => unreached(),
    }
}

/// The wire object of a well-formed response is a well-formed value.
pub proof fn lemma_response_value_wf(r: ResponseModel)
    requires
        wf_response(r),
    ensures
        wf_value(response_value(r)),
{
    let p = response_value(r)->Obj_0;
    assert(wf_text(lit_jsonrpc()));
    assert(wf_text(lit_id()));
    assert(wf_text(lit_result()));
    assert(wf_text(lit_error()));
    assert(wf_text(lit_code()));
    assert(wf_text(lit_message()));
    assert(wf_text(lit_data()));
    assert(wf_value(ValueModel::Str(r.jsonrpc)));
    let head = seq![(lit_jsonrpc(), ValueModel::Str(r.jsonrpc)), (lit_id(), r.id)];
    assert(wf_members(Seq::<(Seq<u8>, ValueModel)>::empty()));
    if r.result is Some {
        let v = r.result->Some_0;
        assert(p =~= head.push((lit_result(), v)));
        assert(p.drop_last() =~= head);
        assert(p.drop_last().drop_last() =~= seq![(lit_jsonrpc(), ValueModel::Str(r.jsonrpc))]);
        assert(p.drop_last().drop_last().drop_last() =~= Seq::<(Seq<u8>, ValueModel)>::empty());
        assert(p.drop_last().drop_last().last() == (lit_jsonrpc(), ValueModel::Str(r.jsonrpc)));
        assert(p.drop_last().last() == (lit_id(), r.id));
        assert(p.last() == (lit_result(), v));
        assert(wf_members(p.drop_last().drop_last()));
        assert(wf_members(p.drop_last()));
        assert(wf_members(p));
    } else {
        let em = r.error->Some_0;
        let eo = error_object(em);
        let ep = eo->Obj_0;
        assert(wf_value(ValueModel::Int(em.code)));
        assert(wf_value(ValueModel::Str(em.message)));
        match em.data {
            Option::Some(d) => {
                assert(ep =~= seq![
                    (lit_code(), ValueModel::Int(em.code)),
                    (lit_message(), ValueModel::Str(em.message)),
                    (lit_data(), d),
                ]);
                assert(ep.drop_last() =~= seq![
                    (lit_code(), ValueModel::Int(em.code)),
                    (lit_message(), ValueModel::Str(em.message)),
                ]);
                assert(ep.drop_last().drop_last() =~= seq![
                    (lit_code(), ValueModel::Int(em.code)),
                ]);
                assert(ep.drop_last().drop_last().drop_last()
                    =~= Seq::<(Seq<u8>, ValueModel)>::empty());
                assert(ep.drop_last().drop_last().last()
                    == (lit_code(), ValueModel::Int(em.code)));
                assert(ep.drop_last().last() == (lit_message(), ValueModel::Str(em.message)));
                assert(ep.last() == (lit_data(), d));
                assert(wf_members(ep.drop_last().drop_last()));
                assert(wf_members(ep.drop_last()));
                assert(wf_members(ep));
            },
            Option::None => {
                assert(ep =~= seq![
                    (lit_code(), ValueModel::Int(em.code)),
                    (lit_message(), ValueModel::Str(em.message)),
                ]);
                assert(ep.drop_last() =~= seq![(lit_code(), ValueModel::Int(em.code))]);
                assert(ep.drop_last().drop_last() =~= Seq::<(Seq<u8>, ValueModel)>::empty());
                assert(ep.drop_last().last() == (lit_code(), ValueModel::Int(em.code)));
                assert(ep.last() == (lit_message(), ValueModel::Str(em.message)));
                assert(wf_members(ep.drop_last()));
                assert(wf_members(ep));
            },
        }
        assert(wf_value(eo));
        assert(p =~= head.push((lit_error(), eo)));
        assert(p.drop_last() =~= head);
        assert(p.drop_last().drop_last() =~= seq![(lit_jsonrpc(), ValueModel::Str(r.jsonrpc))]);
        assert(p.drop_last().drop_last().drop_last() =~= Seq::<(Seq<u8>, ValueModel)>::empty());
        assert(p.drop_last().drop_last().last() == (lit_jsonrpc(), ValueModel::Str(r.jsonrpc)));
        assert(p.drop_last().last() == (lit_id(), r.id));
        assert(p.last() == (lit_error(), eo));
        assert(wf_members(p.drop_last().drop_last()));
        assert(wf_members(p.drop_last()));
        assert(wf_members(p));
    }
}

/// Reading a response back out of its own wire object yields the response:
/// the object-level half of the response round trip.
pub proof fn lemma_response_of_response_value(r: ResponseModel)
    requires
        wf_response(r),
    ensures
        response_of(response_value(r)) == Some(r),
{
    let p = response_value(r)->Obj_0;
    assert(lit_jsonrpc().len() != lit_id().len());
    assert(lit_jsonrpc().len() != lit_result().len());
    assert(lit_jsonrpc().len() != lit_error().len());
    assert(lit_id().len() != lit_result().len());
    assert(lit_id().len() != lit_error().len());
    assert(lit_result().len() != lit_error().len());
    let p1 = p.drop_last();
    let p2 = p1.drop_last();
    let p3 = p2.drop_last();
    if r.result is Some {
        let v = r.result->Some_0;
        assert(p =~= seq![(lit_jsonrpc(), ValueModel::Str(r.jsonrpc)), (lit_id(), r.id),
            (lit_result(), v)]);
        assert(p1 =~= seq![(lit_jsonrpc(), ValueModel::Str(r.jsonrpc)), (lit_id(), r.id)]);
        assert(p2 =~= seq![(lit_jsonrpc(), ValueModel::Str(r.jsonrpc))]);
        assert(p3 =~= Seq::<(Seq<u8>, ValueModel)>::empty());
        assert(lookup(p, lit_result()) == Some(v));
        assert(lookup(p, lit_id()) == lookup(p1, lit_id()));
        assert(lookup(p1, lit_id()) == Some(r.id));
        assert(lookup(p, lit_jsonrpc()) == lookup(p1, lit_jsonrpc()));
        assert(lookup(p1, lit_jsonrpc()) == lookup(p2, lit_jsonrpc()));
        assert(lookup(p2, lit_jsonrpc()) == Some(ValueModel::Str(r.jsonrpc)));
        assert(lookup(p, lit_error()) == lookup(p1, lit_error()));
        assert(lookup(p1, lit_error()) == lookup(p2, lit_error()));
        assert(lookup(p2, lit_error()) == lookup(p3, lit_error()));
        assert(lookup(p3, lit_error()) is None);
    } else {
        let em = r.error->Some_0;
        let eo = error_object(em);
        assert(p =~= seq![(lit_jsonrpc(), ValueModel::Str(r.jsonrpc)), (lit_id(), r.id),
            (lit_error(), eo)]);
        assert(p1 =~= seq![(lit_jsonrpc(), ValueModel::Str(r.jsonrpc)), (lit_id(), r.id)]);
        assert(p2 =~= seq![(lit_jsonrpc(), ValueModel::Str(r.jsonrpc))]);
        assert(p3 =~= Seq::<(Seq<u8>, ValueModel)>::empty());
        assert(lookup(p, lit_error()) == Some(eo));
        assert(lookup(p, lit_id()) == lookup(p1, lit_id()));
        assert(lookup(p1, lit_id()) == Some(r.id));
        assert(lookup(p, lit_jsonrpc()) == lookup(p1, lit_jsonrpc()));
        assert(lookup(p1, lit_jsonrpc()) == lookup(p2, lit_jsonrpc()));
        assert(lookup(p2, lit_jsonrpc()) == Some(ValueModel::Str(r.jsonrpc)));
        assert(lookup(p, lit_result()) == lookup(p1, lit_result()));
        assert(lookup(p1, lit_result()) == lookup(p2, lit_result()));
        assert(lookup(p2, lit_result()) == lookup(p3, lit_result()));
        assert(lookup(p3, lit_result()) is None);
        // inside the error object
        assert(lit_code().len() == lit_data().len() && lit_code()[0] != lit_data()[0]);
        assert(lit_code().len() != lit_message().len());
        assert(lit_message().len() != lit_data().len());
        let ep = eo->Obj_0;
        let ep1 = ep.drop_last();
        let ep2 = ep1.drop_last();
        match em.data {
            Option::Some(d) => {
                assert(ep =~= seq![(lit_code(), ValueModel::Int(em.code)),
                    (lit_message(), ValueModel::Str(em.message)), (lit_data(), d)]);
                assert(ep1 =~= seq![(lit_code(), ValueModel::Int(em.code)),
                    (lit_message(), ValueModel::Str(em.message))]);
                assert(ep2 =~= seq![(lit_code(), ValueModel::Int(em.code))]);
                assert(lookup(ep, lit_data()) == Some(d));
                assert(lookup(ep, lit_message()) == lookup(ep1, lit_message()));
                assert(lookup(ep1, lit_message()) == Some(ValueModel::Str(em.message)));
                assert(lookup(ep, lit_code()) == lookup(ep1, lit_code()));
                assert(lookup(ep1, lit_code()) == lookup(ep2, lit_code()));
                assert(lookup(ep2, lit_code()) == Some(ValueModel::Int(em.code)));
            },
            Option::None => {
                assert(ep =~= seq![(lit_code(), ValueModel::Int(em.code)),
                    (lit_message(), ValueModel::Str(em.message))]);
                assert(ep1 =~= seq![(lit_code(), ValueModel::Int(em.code))]);
                assert(ep2 =~= Seq::<(Seq<u8>, ValueModel)>::empty());
                assert(lookup(ep, lit_message()) == Some(ValueModel::Str(em.message)));
                assert(lookup(ep, lit_code()) == lookup(ep1, lit_code()));
                assert(lookup(ep1, lit_code()) == Some(ValueModel::Int(em.code)));
                assert(lookup(ep, lit_data()) == lookup(ep1, lit_data()));
                assert(lookup(ep1, lit_data()) == lookup(ep2, lit_data()));
                assert(lookup(ep2, lit_data()) is None);
            },
        }
        assert(response_of(response_value(r))->Some_0 =~= r);
    }
}

/// The response round trip, executable: a well-formed response the daemon
/// encodes reads back as exactly the same response, and reading cannot fail
/// on it.
pub fn round_trip_response(resp: &JsonRpcResponse) -> (r: JsonRpcResponse)
    requires
        resp.wf(),
    ensures
        r.deep_view() == resp.deep_view(),
{
    let line = encode_response(resp);
    proof {
        lemma_response_value_wf(resp.deep_view());
        lemma_response_of_response_value(resp.deep_view());
        let g = response_value(resp.deep_view());
        assert(wf_value(g) && line@ == ser_value(g));
        assert(val_at(g, line@, 0)) by {
            assert(line@.subrange(0, ser_value(g).len() as int) =~= ser_value(g));
        }
    }
    match parse_value(&line, 0) {
        Ok((v, _)) => match response_from_value(v) {
            Ok(out) => out,
            Err(_) => unreached(),
        },
        Err(_) => unreached(),
    }
}

// ─── Validation ──────────────────────────────────────────────────────────────

/// Why a request failed validation, in the order the rules are checked.
#[derive(Clone, Copy, Debug, PartialEq, Eq, Structural)]
pub enum ValidationError {
    /// The version marker is not the expected literal.
    BadVersion,
    /// The id is the null sentinel, or absent.
    MissingId,
    /// The method is empty, absent, or not text.
    MissingMethod,
}

/// The validation rules, first failure first: the version marker must equal
/// the protocol literal, the id must not be null, the method must be
/// non-empty.
pub open spec fn spec_validate(r: RequestModel) -> Result<(), ValidationError> {
    if r.jsonrpc != lit_version() {
        Err(ValidationError::BadVersion)
    } else if r.id is Null {
        Err(ValidationError::MissingId)
    } else if r.method.len() == 0 {
        Err(ValidationError::MissingMethod)
    } else {
        Ok(())
    }
}

impl JsonRpcRequest {
    /// Checks the protocol-level shape of the request: exactly the rules of
    /// `spec_validate`, first failure reported.
    pub fn validate(&self) -> (r: Result<(), ValidationError>)
        ensures
            r == spec_validate(self.deep_view()),
    {
        if !bytes_eq(&self.jsonrpc, &lit_version_vec()) {
            return Err(ValidationError::BadVersion);
        }
        if matches!(self.id, JsonValue::Null) {
            return Err(ValidationError::MissingId);
        }
        if self.method.len() == 0 {
            return Err(ValidationError::MissingMethod);
        }
        Ok(())
    }
}

/// The diagnostic text for a validation failure.
pub open spec fn spec_validation_message(e: ValidationError) -> Seq<u8> {
    match e {
        ValidationError::BadVersion => lit_msg_bad_version(),
        ValidationError::MissingId => lit_msg_missing_id(),
        ValidationError::MissingMethod => lit_msg_missing_method(),
    }
}

/// The diagnostic text for a validation failure.
pub fn validation_message(e: &ValidationError) -> (r: Vec<u8>)
    ensures
        r@ == spec_validation_message(*e),
{
    match e {
        ValidationError::BadVersion => lit_msg_bad_version_vec(),
        ValidationError::MissingId => lit_msg_missing_id_vec(),
        ValidationError::MissingMethod => lit_msg_missing_method_vec(),
    }
}

} // verus!
