//! The client's side of the protocol: correlation ids and response reading.
//!
//! A client owns one connection and one counter. Each call allocates the next
//! id (1, 2, 3, ... — never reused, never reset), sends one request line, and
//! reads exactly one response line, which must echo the id just sent; a
//! mismatch means the two sides have desynchronized. The socket itself is the
//! host's; this module builds every line sent and judges every line received.

use vstd::prelude::*;

use crate::codec::{encode_value, parse_value, ser_value, skip_ws, val_at, wf_value};
use crate::protocol::{
    encode_request, request_value, response_from_value, response_of, JsonRpcRequest,
    RequestModel,
};
use crate::text::{lit_version, lit_version_vec};
use crate::value::{clone_bytes, JsonValue, ValueModel};

verus! {

/// Errors the client surfaces to its caller, each a distinct outcome, so a
/// caller can tell "could not reach the daemon" from "the daemon rejected the
/// protocol" from "the operation itself failed".
#[derive(Debug)]
pub enum ClientError {
    /// The daemon could not be reached, or closed the connection
    /// unexpectedly; the text says which.
    Connection(Vec<u8>),
    /// A local I/O fault while reading or writing, as text.
    Io(Vec<u8>),
    /// The daemon's bytes could not be read as a response; carries them.
    Parse(Vec<u8>),
    /// The daemon answered with an error response: the operation failed.
    Gateway { code: i32, message: Vec<u8> },
    /// The response's id is not the id just sent: the two sides have
    /// desynchronized and the connection should be treated as unusable.
    IdMismatch { expected: u64, got: Vec<u8> },
}

/// The request one call sends: version marker, the allocated id, the caller's
/// method and params.
pub open spec fn call_request(id: int, method: Seq<u8>, params: ValueModel) -> RequestModel {
    RequestModel { jsonrpc: lit_version(), id: ValueModel::Int(id), method, params }
}

/// The correlation engine of one client connection: the exclusively-owned
/// counter of the next id. It starts at 1 and only ever moves forward, so
/// sequential calls get ids 1, 2, 3, ... with no reuse and no gaps.
pub struct ClientCore {
    pub next_id: u64,
}

impl ClientCore {
    /// A fresh engine: the first call gets id 1.
    pub fn new() -> (c: Self)
        ensures
            c.next_id == 1,
    {
        ClientCore { next_id: 1 }
    }

    /// Allocates the id for one call and builds the request line to send
    /// (newline not included): the id is the counter's value, and the counter
    /// moves forward by exactly one.
    pub fn begin_call(&mut self, method: &Vec<u8>, params: &JsonValue) -> (r: (u64, Vec<u8>))
        requires
            old(self).next_id < 0x7fff_ffff_ffff_ffff,
        ensures
            r.0 == old(self).next_id,
            final(self).next_id == old(self).next_id + 1,
            r.1@ == ser_value(
                request_value(
                    call_request(old(self).next_id as int, method@, params.deep_view()),
                ),
            ),
    {
        let id = self.next_id;
        self.next_id = self.next_id + 1;
        let req = JsonRpcRequest {
            jsonrpc: lit_version_vec(),
            id: JsonValue::Int(id as i64),
            method: clone_bytes(method),
            params: params.deep_clone(),
        };
        let line = encode_request(&req);
        (id, line)
    }
}

/// Judges one response line against the id just sent. Wherever the line is
/// exactly the serialization of a well-formed value: a value that does not
/// read as a response is a parse fault carrying the bytes; a response whose
/// id is not the integer `expected` is an id mismatch carrying the offending
/// id's text; a response carrying an error surfaces it as a gateway error;
/// otherwise the result payload comes back, null when absent. A parse fault,
/// whatever provoked it, always carries the offending line for diagnosis.
pub fn interpret_response(line: &Vec<u8>, expected: u64) -> (r: Result<JsonValue, ClientError>)
    ensures
        r matches Err(ClientError::Parse(t)) ==> t@ == line@,
        forall|g: ValueModel| wf_value(g) && line@ == #[trigger] ser_value(g) ==> {
            match response_of(g) {
                Option::None => r matches Err(ClientError::Parse(t)) && t@ == line@,
                Option::Some(rm) => {
                    if rm.id != ValueModel::Int(expected as int) {
                        r matches Err(ClientError::IdMismatch { expected: e2, got })
                            && e2 == expected && got@ == ser_value(rm.id)
                    } else {
                        match rm.error {
                            Option::Some(em) => r matches Err(
                                ClientError::Gateway { code, message },
                            ) && code as int == em.code && message@ == em.message,
                            Option::None => r matches Ok(v) && v.deep_view() == (
                            match rm.result {
                                Option::Some(gv) => gv,
                                Option::None => ValueModel::Null,
                            }),
                        }
                    }
                },
            }
        },
{
    proof {
        assert forall|g: ValueModel| wf_value(g) && line@ == #[trigger] ser_value(g)
            implies val_at(g, line@, 0) by {
            assert(line@.subrange(0, ser_value(g).len() as int) =~= ser_value(g));
        }
    }
    match parse_value(line, 0) {
        Err(_) => Err(ClientError::Parse(clone_bytes(line))),
        Ok((v, j)) => {
            let j = skip_ws(line, j);
            if j != line.len() {
                return Err(ClientError::Parse(clone_bytes(line)));
            }
            match response_from_value(v) {
                Err(_) => Err(ClientError::Parse(clone_bytes(line))),
                Ok(resp) => {
                    let id_matches: bool = match &resp.id {
                        JsonValue::Int(n) => expected <= 0x7fff_ffff_ffff_ffffu64 && *n
                            == expected as i64,
                        _ => false,
                    };
                    if !id_matches {
                        let mut got: Vec<u8> = Vec::new();
                        encode_value(&resp.id, &mut got);
                        proof {
                            assert(got@ =~= ser_value(resp.id.deep_view()));
                        }
                        return Err(ClientError::IdMismatch { expected, got });
                    }
                    match resp.error {
                        Some(e) => Err(ClientError::Gateway { code: e.code, message: e.message }),
                        None => match resp.result {
                            Some(rv) => Ok(rv),
                            None => Ok(JsonValue::Null),
                        },
                    }
                },
            }
        },
    }
}

} // verus!
