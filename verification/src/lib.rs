//! Carapace: a verified protocol core for a local inter-process gateway.
//!
//! A privileged daemon exposes named operations to unprivileged clients over
//! a Unix domain socket, speaking newline-delimited JSON-RPC. This crate
//! holds the verified substance of that protocol: the wire codec, request
//! validation, dispatch, per-connection session logic, and the client-side
//! correlation engine. The I/O shell (sockets, the accept loop, process
//! spawning) lives outside the library and drives it with plain values.

pub mod client;
pub mod codec;
pub mod dispatch;
pub mod protocol;
pub mod session;
pub mod text;
pub mod value;

pub use client::{ClientCore, ClientError};
pub use dispatch::{handle_request, Dispatched};
pub use protocol::{
    JsonRpcError, JsonRpcRequest, JsonRpcResponse, ParseError, ValidationError,
};
pub use session::{process_message, AppState};
pub use value::JsonValue;
