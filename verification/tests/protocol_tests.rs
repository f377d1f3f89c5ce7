//! Tests of the protocol types, the codec, and the dispatch table.

use carapace::dispatch::{complete_execute, complete_whoami, handle_request, Dispatched};
use carapace::protocol::{
    decode_request, encode_response, JsonRpcRequest, JsonRpcResponse, INVALID_PARAMS,
    METHOD_NOT_FOUND,
};
use carapace::value::JsonValue;

fn make_request(method: &str, params: JsonValue) -> JsonRpcRequest {
    JsonRpcRequest {
        jsonrpc: b"2.0".to_vec(),
        id: JsonValue::Int(1),
        method: method.as_bytes().to_vec(),
        params,
    }
}

fn obj(pairs: Vec<(&str, JsonValue)>) -> JsonValue {
    JsonValue::Obj(
        pairs
            .into_iter()
            .map(|(k, v)| (k.as_bytes().to_vec(), v))
            .collect(),
    )
}

fn get<'a>(v: &'a JsonValue, key: &str) -> Option<&'a JsonValue> {
    match v {
        JsonValue::Obj(pairs) => pairs
            .iter()
            .find(|(k, _)| k.as_slice() == key.as_bytes())
            .map(|(_, v)| v),
        _ => None,
    }
}

fn reply_of(d: Dispatched) -> JsonRpcResponse {
    match d {
        Dispatched::Reply(r) => r,
        _ => panic!("expected a complete reply"),
    }
}

#[test]
fn ping_returns_pong() {
    let req = make_request("ping", obj(vec![]));
    let resp = reply_of(handle_request(&req));
    let result = resp.result.unwrap();
    assert!(matches!(get(&result, "pong"), Some(JsonValue::Bool(true))));
}

#[test]
fn echo_returns_message() {
    let req = make_request(
        "echo",
        obj(vec![("message", JsonValue::Str(b"hello world".to_vec()))]),
    );
    let resp = reply_of(handle_request(&req));
    let result = resp.result.unwrap();
    match get(&result, "echo") {
        Some(JsonValue::Str(s)) => assert_eq!(s.as_slice(), b"hello world"),
        other => panic!("unexpected echo payload: {:?}", other.is_some()),
    }
}

#[test]
fn whoami_returns_user() {
    let req = make_request("whoami", obj(vec![]));
    let resp = match handle_request(&req) {
        Dispatched::Whoami { id } => complete_whoami(id, b"carapace".to_vec(), 1000),
        _ => panic!("whoami should ask the host for the user"),
    };
    let result = resp.result.unwrap();
    assert!(get(&result, "user").is_some());
    assert!(get(&result, "uid").is_some());
}

#[test]
fn execute_runs_echo() {
    let req = make_request(
        "execute",
        obj(vec![
            ("command", JsonValue::Str(b"echo".to_vec())),
            (
                "args",
                JsonValue::Arr(vec![JsonValue::Str(b"hello".to_vec())]),
            ),
        ]),
    );
    let resp = match handle_request(&req) {
        Dispatched::Execute { id, command, args } => {
            assert_eq!(command, b"echo".to_vec());
            assert_eq!(args, vec![b"hello".to_vec()]);
            // The host would run the command; `echo hello` prints its
            // argument and exits cleanly.
            complete_execute(id, b"hello\n".to_vec(), Vec::new(), 0)
        }
        _ => panic!("execute with a command should ask the host to run it"),
    };
    let result = resp.result.unwrap();
    match get(&result, "stdout") {
        Some(JsonValue::Str(s)) => {
            assert_eq!(String::from_utf8(s.clone()).unwrap().trim(), "hello")
        }
        _ => panic!("stdout missing"),
    }
    assert!(matches!(get(&result, "exit_code"), Some(JsonValue::Int(0))));
}

#[test]
fn execute_missing_command() {
    let req = make_request("execute", obj(vec![]));
    let resp = reply_of(handle_request(&req));
    assert!(resp.error.is_some());
    assert_eq!(resp.error.unwrap().code, INVALID_PARAMS);
}

#[test]
fn unknown_method_returns_error() {
    let req = make_request("nonexistent.method", obj(vec![]));
    let resp = reply_of(handle_request(&req));
    assert!(resp.error.is_some());
    assert_eq!(resp.error.unwrap().code, METHOD_NOT_FOUND);
}

#[test]
fn round_trip_success_response() {
    let resp = JsonRpcResponse::success(
        JsonValue::Int(1),
        obj(vec![("pong", JsonValue::Bool(true))]),
    );
    let json = String::from_utf8(encode_response(&resp)).unwrap();
    assert!(json.contains("\"result\""));
    assert!(!json.contains("\"error\""));
}

#[test]
fn round_trip_error_response() {
    let resp = JsonRpcResponse::error(
        JsonValue::Int(1),
        METHOD_NOT_FOUND,
        b"Method not found".to_vec(),
    );
    let json = String::from_utf8(encode_response(&resp)).unwrap();
    assert!(json.contains("\"error\""));
    assert!(!json.contains("\"result\""));
}

#[test]
fn deserialize_request() {
    let raw = br#"{"jsonrpc":"2.0","id":1,"method":"ping","params":{}}"#.to_vec();
    let req = decode_request(&raw).unwrap();
    assert_eq!(req.method, b"ping".to_vec());
    assert!(req.validate().is_ok());
}

#[test]
fn missing_params_gets_default() {
    let raw = br#"{"jsonrpc":"2.0","id":1,"method":"ping"}"#.to_vec();
    let req = decode_request(&raw).unwrap();
    assert!(matches!(req.params, JsonValue::Obj(_)));
}
