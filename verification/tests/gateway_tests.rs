//! End-to-end tests of the session pipeline, the codec round trip, and the
//! client correlation engine: each wire scenario runs through the same
//! functions the daemon and the client run.

use carapace::client::{interpret_response, ClientCore, ClientError};
use carapace::codec::{encode_value, parse_value};
use carapace::dispatch::{complete_execute, execute_failure, Dispatched};
use carapace::protocol::{
    decode_request, encode_request, encode_response, round_trip_request, round_trip_response,
    JsonRpcRequest, JsonRpcResponse, ValidationError, INTERNAL_ERROR, INVALID_PARAMS,
    INVALID_REQUEST, METHOD_NOT_FOUND, PARSE_ERROR,
};
use carapace::session::{is_blank, process_message, trim_line};
use carapace::value::JsonValue;

fn obj(pairs: Vec<(&str, JsonValue)>) -> JsonValue {
    JsonValue::Obj(
        pairs
            .into_iter()
            .map(|(k, v)| (k.as_bytes().to_vec(), v))
            .collect(),
    )
}

fn get<'a>(v: &'a JsonValue, key: &str) -> Option<&'a JsonValue> {
    match v {
        JsonValue::Obj(pairs) => pairs
            .iter()
            .find(|(k, _)| k.as_slice() == key.as_bytes())
            .map(|(_, v)| v),
        _ => None,
    }
}

/// Answers one line exactly as the daemon's session does, standing in for the
/// host on `whoami` and `execute`.
fn answer(line: &[u8]) -> JsonRpcResponse {
    match process_message(&line.to_vec()).0 {
        Dispatched::Reply(r) => r,
        Dispatched::Whoami { id } => {
            carapace::dispatch::complete_whoami(id, b"carapace".to_vec(), 1000)
        }
        Dispatched::Execute { id, command, args } => {
            if command == b"echo".to_vec() {
                let mut out: Vec<u8> = Vec::new();
                for (i, a) in args.iter().enumerate() {
                    if i > 0 {
                        out.push(b' ');
                    }
                    out.extend_from_slice(a);
                }
                out.push(b'\n');
                complete_execute(id, out, Vec::new(), 0)
            } else {
                execute_failure(id, b"cannot launch".to_vec())
            }
        }
    }
}

fn answer_line(line: &[u8]) -> Vec<u8> {
    encode_response(&answer(line))
}

// ── Scenario 1: ping ─────────────────────────────────────────────────────────

#[test]
fn scenario_ping() {
    let out = answer_line(br#"{"jsonrpc":"2.0","id":1,"method":"ping","params":{}}"#);
    assert_eq!(
        String::from_utf8(out).unwrap(),
        r#"{"jsonrpc":"2.0","id":1,"result":{"pong":true}}"#
    );
}

// ── Scenario 2: echo ─────────────────────────────────────────────────────────

#[test]
fn scenario_echo() {
    let resp = answer(br#"{"jsonrpc":"2.0","id":2,"method":"echo","params":{"message":"hi"}}"#);
    let result = resp.result.unwrap();
    match get(&result, "echo") {
        Some(JsonValue::Str(s)) => assert_eq!(s.as_slice(), b"hi"),
        _ => panic!("echo payload missing"),
    }
    assert!(resp.error.is_none());
}

// ── Scenario 3: unknown method ───────────────────────────────────────────────

#[test]
fn scenario_unknown_method() {
    let resp = answer(br#"{"jsonrpc":"2.0","id":3,"method":"nope","params":{}}"#);
    assert!(resp.result.is_none());
    let err = resp.error.unwrap();
    assert_eq!(err.code, METHOD_NOT_FOUND);
    let msg = String::from_utf8(err.message).unwrap();
    assert!(msg.contains("nope"));
}

// ── Scenario 4: execute without a command ────────────────────────────────────

#[test]
fn scenario_execute_missing_command() {
    let resp = answer(br#"{"jsonrpc":"2.0","id":4,"method":"execute","params":{}}"#);
    assert!(resp.result.is_none());
    let err = resp.error.unwrap();
    assert_eq!(err.code, INVALID_PARAMS);
    assert_eq!(err.message, b"Missing required param: \"command\"".to_vec());
}

// ── Ordinary JSON whitespace between tokens is accepted ──────────────────────

#[test]
fn whitespace_between_tokens_is_accepted() {
    // The spacing a stock serializer such as Python's json.dumps emits.
    let out = answer_line(br#"{"jsonrpc": "2.0", "id": 1, "method": "ping", "params": {}}"#);
    assert_eq!(
        String::from_utf8(out).unwrap(),
        r#"{"jsonrpc":"2.0","id":1,"result":{"pong":true}}"#
    );
    // Heavier spacing, arrays and nested objects included.
    let spaced =
        b"  { \"jsonrpc\" : \"2.0\" ,\t\"id\" : 7 , \"method\" : \"execute\" , \"params\" : { \"command\" : \"echo\" , \"args\" : [ \"a\" , \"b\" ] } }  ";
    match process_message(&spaced.to_vec()).0 {
        Dispatched::Execute { command, args, .. } => {
            assert_eq!(command, b"echo".to_vec());
            assert_eq!(args, vec![b"a".to_vec(), b"b".to_vec()]);
        }
        _ => panic!("spaced execute request should dispatch"),
    }
    // Empty containers with space inside.
    let req = decode_request(&br#"{"jsonrpc": "2.0", "id": [ ], "method": "x", "params": { }}"#.to_vec())
        .unwrap();
    assert!(matches!(req.id, JsonValue::Arr(a) if a.is_empty()));
    assert!(matches!(req.params, JsonValue::Obj(p) if p.is_empty()));
}

// ── Unicode escapes decode as UTF-8 ──────────────────────────────────────────

#[test]
fn unicode_escapes_decode_as_utf8() {
    let line =
        br#"{"jsonrpc":"2.0","id":8,"method":"echo","params":{"message":"aA \u00e9\u20ac\ud83d\ude00"}}"#;
    let resp = answer(line);
    let result = resp.result.unwrap();
    match get(&result, "echo") {
        Some(JsonValue::Str(s)) => assert_eq!(s.as_slice(), "aA é€😀".as_bytes()),
        _ => panic!("echo payload missing"),
    }
    // A lone surrogate names no code point: a parse error.
    let lone =
        br#"{"jsonrpc":"2.0","id":8,"method":"echo","params":{"message":"\ud800"}}"#.to_vec();
    let (outcome, fault) = process_message(&lone);
    assert!(fault.is_some());
    match outcome {
        Dispatched::Reply(resp) => assert_eq!(resp.error.unwrap().code, PARSE_ERROR),
        _ => panic!("a lone surrogate must be a parse error"),
    }
    // So do broken hex digits.
    let bad = br#"{"jsonrpc":"2.0","id":1,"method":"x","params":{"m":"\u12g4"}}"#.to_vec();
    assert!(decode_request(&bad).is_err());
}

// ── A repeated member reads as its last occurrence ───────────────────────────

#[test]
fn duplicate_member_reads_last() {
    let resp = answer(
        br#"{"jsonrpc":"2.0","id":2,"method":"echo","params":{"message":"a","message":"b"}}"#,
    );
    let result = resp.result.unwrap();
    match get(&result, "echo") {
        Some(JsonValue::Str(s)) => assert_eq!(s.as_slice(), b"b"),
        _ => panic!("echo payload missing"),
    }
}

// ── The offending line is handed out for logging ─────────────────────────────

#[test]
fn parse_fault_hands_out_offending_line() {
    let (outcome, fault) = process_message(&b"  {broken \n".to_vec());
    let pe = fault.expect("an unreadable line must carry its text out");
    assert_eq!(pe.offending, b"{broken".to_vec());
    match outcome {
        Dispatched::Reply(resp) => {
            assert_eq!(resp.error.unwrap().code, PARSE_ERROR);
            assert!(matches!(resp.id, JsonValue::Null));
        }
        _ => panic!("an unreadable line must get a reply"),
    }
    let (_, ok_fault) =
        process_message(&br#"{"jsonrpc":"2.0","id":1,"method":"ping","params":{}}"#.to_vec());
    assert!(ok_fault.is_none());
}

// ── Scenario 5: two interleaved conversations stay independent ───────────────

#[test]
fn scenario_interleaved_clients() {
    let mut alice = ClientCore::new();
    let mut bob = ClientCore::new();

    let (a1, a_line1) = alice.begin_call(&b"ping".to_vec(), &obj(vec![]));
    let (b1, b_line1) = bob.begin_call(
        &b"echo".to_vec(),
        &obj(vec![("message", JsonValue::Str(b"from bob".to_vec()))]),
    );
    // One connection's traffic does not touch the other's: each line is
    // answered on its own connection, here interleaved in arrival order.
    let b_resp1 = answer_line(&b_line1);
    let a_resp1 = answer_line(&a_line1);
    // Bob's second call is a fault (bad params for execute); Alice continues.
    let (b2, b_line2) = bob.begin_call(&b"execute".to_vec(), &obj(vec![]));
    let b_resp2 = answer_line(&b_line2);
    let (a2, a_line2) = alice.begin_call(&b"ping".to_vec(), &obj(vec![]));
    let a_resp2 = answer_line(&a_line2);

    assert_eq!((a1, a2), (1, 2));
    assert_eq!((b1, b2), (1, 2));
    let a_result1 = interpret_response(&a_resp1, a1).unwrap();
    assert!(matches!(
        get(&a_result1, "pong"),
        Some(JsonValue::Bool(true))
    ));
    let b_result1 = interpret_response(&b_resp1, b1).unwrap();
    match get(&b_result1, "echo") {
        Some(JsonValue::Str(s)) => assert_eq!(s.as_slice(), b"from bob"),
        _ => panic!("echo payload missing"),
    }
    match interpret_response(&b_resp2, b2) {
        Err(ClientError::Gateway { code, .. }) => assert_eq!(code, INVALID_PARAMS),
        _ => panic!("expected a gateway error"),
    }
    let a_result2 = interpret_response(&a_resp2, a2).unwrap();
    assert!(matches!(
        get(&a_result2, "pong"),
        Some(JsonValue::Bool(true))
    ));
    // A crossed wire is caught, not silently accepted.
    match interpret_response(&a_resp2, 99) {
        Err(ClientError::IdMismatch { expected, got }) => {
            assert_eq!(expected, 99);
            assert_eq!(got, b"2".to_vec());
        }
        _ => panic!("expected an id mismatch"),
    }
}

// ── The codec round trip ─────────────────────────────────────────────────────

#[test]
fn codec_round_trip_request() {
    let req = JsonRpcRequest {
        jsonrpc: b"2.0".to_vec(),
        id: JsonValue::Str(b"an-opaque-id".to_vec()),
        method: b"echo".to_vec(),
        params: obj(vec![
            ("message", JsonValue::Str(b"tab\there \"quoted\" \\ and\nnewline".to_vec())),
            ("count", JsonValue::Int(-42)),
            (
                "nested",
                JsonValue::Arr(vec![
                    JsonValue::Null,
                    JsonValue::Bool(false),
                    JsonValue::Int(i64::MIN),
                    JsonValue::Int(i64::MAX),
                    obj(vec![]),
                    JsonValue::Arr(vec![]),
                ]),
            ),
        ]),
    };
    let back = round_trip_request(&req);
    assert_eq!(back.jsonrpc, req.jsonrpc);
    assert_eq!(back.method, req.method);
    assert_eq!(encode_request(&back), encode_request(&req));
}

#[test]
fn codec_round_trip_response() {
    let failure = JsonRpcResponse::error_with_data(
        JsonValue::Int(3),
        METHOD_NOT_FOUND,
        b"Unknown method: x".to_vec(),
        obj(vec![("hint", JsonValue::Str(b"try ping".to_vec()))]),
    );
    let back = round_trip_response(&failure);
    assert_eq!(encode_response(&back), encode_response(&failure));
    let success = JsonRpcResponse::success(
        JsonValue::Int(4),
        obj(vec![("pong", JsonValue::Bool(true))]),
    );
    let back = round_trip_response(&success);
    assert_eq!(encode_response(&back), encode_response(&success));
}

#[test]
fn codec_integer_bounds() {
    for n in [0i64, 7, -1, 10, -10, i64::MAX, i64::MIN] {
        let mut line: Vec<u8> = Vec::new();
        encode_value(&JsonValue::Int(n), &mut line);
        let (v, used) = parse_value(&line, 0).unwrap();
        assert_eq!(used, line.len());
        assert!(matches!(v, JsonValue::Int(m) if m == n));
    }
    let mut max_line: Vec<u8> = Vec::new();
    encode_value(&JsonValue::Int(i64::MAX), &mut max_line);
    assert_eq!(max_line, b"9223372036854775807".to_vec());
    let mut min_line: Vec<u8> = Vec::new();
    encode_value(&JsonValue::Int(i64::MIN), &mut min_line);
    assert_eq!(min_line, b"-9223372036854775808".to_vec());
    // One past the 64-bit range is a parse error, not a wrong number.
    assert!(parse_value(&b"9223372036854775808".to_vec(), 0).is_err());
}

// ── Parse errors leave the session usable (next line still answered) ─────────

#[test]
fn malformed_line_gets_parse_error_then_session_continues() {
    for bad in [
        &b"{not json"[..],
        &b"\"unterminated"[..],
        &b"[1,2,"[..],
        &b"true false"[..],
        &b"3.25"[..],
        &b"42"[..],
    ] {
        let resp = answer(bad);
        assert!(resp.result.is_none(), "no result for {:?}", bad);
        let err = resp.error.unwrap();
        assert_eq!(err.code, PARSE_ERROR);
        assert!(matches!(resp.id, JsonValue::Null));
    }
    // The same session code answers the next, well-formed line.
    let out = answer_line(br#"{"jsonrpc":"2.0","id":1,"method":"ping","params":{}}"#);
    assert_eq!(
        String::from_utf8(out).unwrap(),
        r#"{"jsonrpc":"2.0","id":1,"result":{"pong":true}}"#
    );
}

#[test]
fn blank_lines_are_discarded_silently() {
    assert!(is_blank(&b"".to_vec()));
    assert!(is_blank(&b"  \t \r\n".to_vec()));
    assert!(!is_blank(&b" x ".to_vec()));
    assert_eq!(trim_line(&b"  {\"a\":1} \n".to_vec()), b"{\"a\":1}".to_vec());
}

// ── Invalid requests echo the id that was read ───────────────────────────────

#[test]
fn missing_method_echoes_id() {
    let resp = answer(br#"{"jsonrpc":"2.0","id":17}"#);
    assert!(resp.result.is_none());
    assert_eq!(resp.error.unwrap().code, INVALID_REQUEST);
    assert!(matches!(resp.id, JsonValue::Int(17)));
}

#[test]
fn bad_version_rejected_first() {
    let req = JsonRpcRequest {
        jsonrpc: b"1.0".to_vec(),
        id: JsonValue::Null,
        method: Vec::new(),
        params: obj(vec![]),
    };
    // All three rules fail; the version marker is reported first.
    assert_eq!(req.validate(), Err(ValidationError::BadVersion));
    let missing_id = JsonRpcRequest {
        jsonrpc: b"2.0".to_vec(),
        id: JsonValue::Null,
        method: b"ping".to_vec(),
        params: obj(vec![]),
    };
    assert_eq!(missing_id.validate(), Err(ValidationError::MissingId));
    let missing_method = JsonRpcRequest {
        jsonrpc: b"2.0".to_vec(),
        id: JsonValue::Int(1),
        method: Vec::new(),
        params: obj(vec![]),
    };
    assert_eq!(
        missing_method.validate(),
        Err(ValidationError::MissingMethod)
    );
}

// ── Client correlation ids: 1..N in order, no reuse, no gaps ─────────────────

#[test]
fn client_ids_count_up_from_one() {
    let mut core = ClientCore::new();
    for expected in 1u64..=5 {
        let (id, line) = core.begin_call(&b"ping".to_vec(), &obj(vec![]));
        assert_eq!(id, expected);
        // The id on the wire is the allocated one.
        let req = decode_request(&line).unwrap();
        assert!(matches!(req.id, JsonValue::Int(n) if n == expected as i64));
    }
}

// ── Error taxonomy ───────────────────────────────────────────────────────────

#[test]
fn error_code_blocks_are_disjoint() {
    let protocol = [
        PARSE_ERROR,
        INVALID_REQUEST,
        METHOD_NOT_FOUND,
        INVALID_PARAMS,
        INTERNAL_ERROR,
    ];
    let application = [
        carapace::protocol::NOT_IN_ALLOWLIST,
        carapace::protocol::RATE_LIMITED,
        carapace::protocol::CONTENT_BLOCKED,
        carapace::protocol::CHANNEL_UNAVAILABLE,
        carapace::protocol::SEND_FAILED,
    ];
    for p in protocol {
        assert!((-32768..=-32600).contains(&p));
        for a in application {
            assert!((-32099..=-32000).contains(&a));
            assert_ne!(p, a);
        }
    }
}

#[test]
fn execute_failure_is_internal_error() {
    let resp = execute_failure(JsonValue::Int(9), b"no such binary".to_vec());
    assert!(resp.result.is_none());
    let err = resp.error.unwrap();
    assert_eq!(err.code, INTERNAL_ERROR);
    assert_eq!(err.message, b"no such binary".to_vec());
    assert!(matches!(resp.id, JsonValue::Int(9)));
}

// ── The client's reading of responses ────────────────────────────────────────

#[test]
fn client_rejects_garbage_response() {
    match interpret_response(&b"not a response".to_vec(), 1) {
        Err(ClientError::Parse(t)) => assert_eq!(t, b"not a response".to_vec()),
        _ => panic!("expected a parse fault"),
    }
}

#[test]
fn client_result_defaults_to_null() {
    let line = br#"{"jsonrpc":"2.0","id":5}"#.to_vec();
    match interpret_response(&line, 5) {
        Ok(JsonValue::Null) => {}
        _ => panic!("expected a null result"),
    }
}

#[test]
fn client_surfaces_gateway_error_with_data() {
    let resp = JsonRpcResponse::error_with_data(
        JsonValue::Int(6),
        carapace::protocol::RATE_LIMITED,
        b"slow down".to_vec(),
        JsonValue::Int(30),
    );
    let line = encode_response(&resp);
    let json = String::from_utf8(line.clone()).unwrap();
    assert!(json.contains("\"error\""));
    assert!(json.contains("\"data\":30"));
    assert!(!json.contains("\"result\""));
    match interpret_response(&line, 6) {
        Err(ClientError::Gateway { code, message }) => {
            assert_eq!(code, carapace::protocol::RATE_LIMITED);
            assert_eq!(message, b"slow down".to_vec());
        }
        _ => panic!("expected a gateway error"),
    }
}
