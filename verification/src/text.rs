//! The fixed pieces of text of the protocol: member keys, the version
//! marker, the built-in method names, and diagnostic messages. Each piece
//! exists twice: as the mathematical byte sequence the contracts speak of,
//! and as a function building the same bytes for the running code.

use vstd::prelude::*;

verus! {

/// `jsonrpc`
pub open spec fn lit_jsonrpc() -> Seq<u8> {
    seq![0x6au8, 0x73u8, 0x6fu8, 0x6eu8, 0x72u8, 0x70u8, 0x63u8]
}

/// The bytes of `jsonrpc`.
pub fn lit_jsonrpc_vec() -> (r: Vec<u8>)
    ensures
        r@ == lit_jsonrpc(),
{
    let r: Vec<u8> = vec![0x6a, 0x73, 0x6f, 0x6e, 0x72, 0x70, 0x63];
    proof {
        assert(r@ =~= lit_jsonrpc());
    }
    r
}

/// `id`
pub open spec fn lit_id() -> Seq<u8> {
    seq![0x69u8, 0x64u8]
}

/// The bytes of `id`.
pub fn lit_id_vec() -> (r: Vec<u8>)
    ensures
        r@ == lit_id(),
{
    let r: Vec<u8> = vec![0x69, 0x64];
    proof {
        assert(r@ =~= lit_id());
    }
    r
}

/// `method`
pub open spec fn lit_method() -> Seq<u8> {
    seq![0x6du8, 0x65u8, 0x74u8, 0x68u8, 0x6fu8, 0x64u8]
}

/// The bytes of `method`.
pub fn lit_method_vec() -> (r: Vec<u8>)
    ensures
        r@ == lit_method(),
{
    let r: Vec<u8> = vec![0x6d, 0x65, 0x74, 0x68, 0x6f, 0x64];
    proof {
        assert(r@ =~= lit_method());
    }
    r
}

/// `params`
pub open spec fn lit_params() -> Seq<u8> {
    seq![0x70u8, 0x61u8, 0x72u8, 0x61u8, 0x6du8, 0x73u8]
}

/// The bytes of `params`.
pub fn lit_params_vec() -> (r: Vec<u8>)
    ensures
        r@ == lit_params(),
{
    let r: Vec<u8> = vec![0x70, 0x61, 0x72, 0x61, 0x6d, 0x73];
    proof {
        assert(r@ =~= lit_params());
    }
    r
}

/// `result`
pub open spec fn lit_result() -> Seq<u8> {
    seq![0x72u8, 0x65u8, 0x73u8, 0x75u8, 0x6cu8, 0x74u8]
}

/// The bytes of `result`.
pub fn lit_result_vec() -> (r: Vec<u8>)
    ensures
        r@ == lit_result(),
{
    let r: Vec<u8> = vec![0x72, 0x65, 0x73, 0x75, 0x6c, 0x74];
    proof {
        assert(r@ =~= lit_result());
    }
    r
}

/// `error`
pub open spec fn lit_error() -> Seq<u8> {
    seq![0x65u8, 0x72u8, 0x72u8, 0x6fu8, 0x72u8]
}

/// The bytes of `error`.
pub fn lit_error_vec() -> (r: Vec<u8>)
    ensures
        r@ == lit_error(),
{
    let r: Vec<u8> = vec![0x65, 0x72, 0x72, 0x6f, 0x72];
    proof {
        assert(r@ =~= lit_error());
    }
    r
}

/// `code`
pub open spec fn lit_code() -> Seq<u8> {
    seq![0x63u8, 0x6fu8, 0x64u8, 0x65u8]
}

/// The bytes of `code`.
pub fn lit_code_vec() -> (r: Vec<u8>)
    ensures
        r@ == lit_code(),
{
    let r: Vec<u8> = vec![0x63, 0x6f, 0x64, 0x65];
    proof {
        assert(r@ =~= lit_code());
    }
    r
}

/// `message`
pub open spec fn lit_message() -> Seq<u8> {
    seq![0x6du8, 0x65u8, 0x73u8, 0x73u8, 0x61u8, 0x67u8, 0x65u8]
}

/// The bytes of `message`.
pub fn lit_message_vec() -> (r: Vec<u8>)
    ensures
        r@ == lit_message(),
{
    let r: Vec<u8> = vec![0x6d, 0x65, 0x73, 0x73, 0x61, 0x67, 0x65];
    proof {
        assert(r@ =~= lit_message());
    }
    r
}

/// `data`
pub open spec fn lit_data() -> Seq<u8> {
    seq![0x64u8, 0x61u8, 0x74u8, 0x61u8]
}

/// The bytes of `data`.
pub fn lit_data_vec() -> (r: Vec<u8>)
    ensures
        r@ == lit_data(),
{
    let r: Vec<u8> = vec![0x64, 0x61, 0x74, 0x61];
    proof {
        assert(r@ =~= lit_data());
    }
    r
}

/// `2.0`
pub open spec fn lit_version() -> Seq<u8> {
    seq![0x32u8, 0x2eu8, 0x30u8]
}

/// The bytes of `2.0`.
pub fn lit_version_vec() -> (r: Vec<u8>)
    ensures
        r@ == lit_version(),
{
    let r: Vec<u8> = vec![0x32, 0x2e, 0x30];
    proof {
        assert(r@ =~= lit_version());
    }
    r
}

/// `ping`
pub open spec fn lit_ping() -> Seq<u8> {
    seq![0x70u8, 0x69u8, 0x6eu8, 0x67u8]
}

/// The bytes of `ping`.
pub fn lit_ping_vec() -> (r: Vec<u8>)
    ensures
        r@ == lit_ping(),
{
    let r: Vec<u8> = vec![0x70, 0x69, 0x6e, 0x67];
    proof {
        assert(r@ =~= lit_ping());
    }
    r
}

/// `echo`
pub open spec fn lit_echo() -> Seq<u8> {
    seq![0x65u8, 0x63u8, 0x68u8, 0x6fu8]
}

/// The bytes of `echo`.
pub fn lit_echo_vec() -> (r: Vec<u8>)
    ensures
        r@ == lit_echo(),
{
    let r: Vec<u8> = vec![0x65, 0x63, 0x68, 0x6f];
    proof {
        assert(r@ =~= lit_echo());
    }
    r
}

/// `whoami`
pub open spec fn lit_whoami() -> Seq<u8> {
    seq![0x77u8, 0x68u8, 0x6fu8, 0x61u8, 0x6du8, 0x69u8]
}

/// The bytes of `whoami`.
pub fn lit_whoami_vec() -> (r: Vec<u8>)
    ensures
        r@ == lit_whoami(),
{
    let r: Vec<u8> = vec![0x77, 0x68, 0x6f, 0x61, 0x6d, 0x69];
    proof {
        assert(r@ =~= lit_whoami());
    }
    r
}

/// `execute`
pub open spec fn lit_execute() -> Seq<u8> {
    seq![0x65u8, 0x78u8, 0x65u8, 0x63u8, 0x75u8, 0x74u8, 0x65u8]
}

/// The bytes of `execute`.
pub fn lit_execute_vec() -> (r: Vec<u8>)
    ensures
        r@ == lit_execute(),
{
    let r: Vec<u8> = vec![0x65, 0x78, 0x65, 0x63, 0x75, 0x74, 0x65];
    proof {
        assert(r@ =~= lit_execute());
    }
    r
}

/// `pong`
pub open spec fn lit_pong() -> Seq<u8> {
    seq![0x70u8, 0x6fu8, 0x6eu8, 0x67u8]
}

/// The bytes of `pong`.
pub fn lit_pong_vec() -> (r: Vec<u8>)
    ensures
        r@ == lit_pong(),
{
    let r: Vec<u8> = vec![0x70, 0x6f, 0x6e, 0x67];
    proof {
        assert(r@ =~= lit_pong());
    }
    r
}

/// `user`
pub open spec fn lit_user() -> Seq<u8> {
    seq![0x75u8, 0x73u8, 0x65u8, 0x72u8]
}

/// The bytes of `user`.
pub fn lit_user_vec() -> (r: Vec<u8>)
    ensures
        r@ == lit_user(),
{
    let r: Vec<u8> = vec![0x75, 0x73, 0x65, 0x72];
    proof {
        assert(r@ =~= lit_user());
    }
    r
}

/// `uid`
pub open spec fn lit_uid() -> Seq<u8> {
    seq![0x75u8, 0x69u8, 0x64u8]
}

/// The bytes of `uid`.
pub fn lit_uid_vec() -> (r: Vec<u8>)
    ensures
        r@ == lit_uid(),
{
    let r: Vec<u8> = vec![0x75, 0x69, 0x64];
    proof {
        assert(r@ =~= lit_uid());
    }
    r
}

/// `command`
pub open spec fn lit_command() -> Seq<u8> {
    seq![0x63u8, 0x6fu8, 0x6du8, 0x6du8, 0x61u8, 0x6eu8, 0x64u8]
}

/// The bytes of `command`.
pub fn lit_command_vec() -> (r: Vec<u8>)
    ensures
        r@ == lit_command(),
{
    let r: Vec<u8> = vec![0x63, 0x6f, 0x6d, 0x6d, 0x61, 0x6e, 0x64];
    proof {
        assert(r@ =~= lit_command());
    }
    r
}

/// `args`
pub open spec fn lit_args() -> Seq<u8> {
    seq![0x61u8, 0x72u8, 0x67u8, 0x73u8]
}

/// The bytes of `args`.
pub fn lit_args_vec() -> (r: Vec<u8>)
    ensures
        r@ == lit_args(),
{
    let r: Vec<u8> = vec![0x61, 0x72, 0x67, 0x73];
    proof {
        assert(r@ =~= lit_args());
    }
    r
}

/// `stdout`
pub open spec fn lit_stdout() -> Seq<u8> {
    seq![0x73u8, 0x74u8, 0x64u8, 0x6fu8, 0x75u8, 0x74u8]
}

/// The bytes of `stdout`.
pub fn lit_stdout_vec() -> (r: Vec<u8>)
    ensures
        r@ == lit_stdout(),
{
    let r: Vec<u8> = vec![0x73, 0x74, 0x64, 0x6f, 0x75, 0x74];
    proof {
        assert(r@ =~= lit_stdout());
    }
    r
}

/// `stderr`
pub open spec fn lit_stderr() -> Seq<u8> {
    seq![0x73u8, 0x74u8, 0x64u8, 0x65u8, 0x72u8, 0x72u8]
}

/// The bytes of `stderr`.
pub fn lit_stderr_vec() -> (r: Vec<u8>)
    ensures
        r@ == lit_stderr(),
{
    let r: Vec<u8> = vec![0x73, 0x74, 0x64, 0x65, 0x72, 0x72];
    proof {
        assert(r@ =~= lit_stderr());
    }
    r
}

/// `exit_code`
pub open spec fn lit_exit_code() -> Seq<u8> {
    seq![0x65u8, 0x78u8, 0x69u8, 0x74u8, 0x5fu8, 0x63u8, 0x6fu8, 0x64u8, 0x65u8]
}

/// The bytes of `exit_code`.
pub fn lit_exit_code_vec() -> (r: Vec<u8>)
    ensures
        r@ == lit_exit_code(),
{
    let r: Vec<u8> = vec![0x65, 0x78, 0x69, 0x74, 0x5f, 0x63, 0x6f, 0x64, 0x65];
    proof {
        assert(r@ =~= lit_exit_code());
    }
    r
}

/// `Parse error`
pub open spec fn lit_msg_parse_error() -> Seq<u8> {
    seq![0x50u8, 0x61u8, 0x72u8, 0x73u8, 0x65u8, 0x20u8, 0x65u8, 0x72u8, 0x72u8, 0x6fu8, 0x72u8]
}

/// The bytes of `Parse error`.
pub fn lit_msg_parse_error_vec() -> (r: Vec<u8>)
    ensures
        r@ == lit_msg_parse_error(),
{
    let r: Vec<u8> = vec![0x50, 0x61, 0x72, 0x73, 0x65, 0x20, 0x65, 0x72, 0x72, 0x6f, 0x72];
    proof {
        assert(r@ =~= lit_msg_parse_error());
    }
    r
}

/// `Invalid request: missing or invalid jsonrpc field`
pub open spec fn lit_msg_bad_version() -> Seq<u8> {
    seq![0x49u8, 0x6eu8, 0x76u8, 0x61u8, 0x6cu8, 0x69u8, 0x64u8, 0x20u8, 0x72u8, 0x65u8, 0x71u8, 0x75u8, 0x65u8, 0x73u8, 0x74u8, 0x3au8, 0x20u8, 0x6du8, 0x69u8, 0x73u8, 0x73u8, 0x69u8, 0x6eu8, 0x67u8, 0x20u8, 0x6fu8, 0x72u8, 0x20u8, 0x69u8, 0x6eu8, 0x76u8, 0x61u8, 0x6cu8, 0x69u8, 0x64u8, 0x20u8, 0x6au8, 0x73u8, 0x6fu8, 0x6eu8, 0x72u8, 0x70u8, 0x63u8, 0x20u8, 0x66u8, 0x69u8, 0x65u8, 0x6cu8, 0x64u8]
}

/// The bytes of `Invalid request: missing or invalid jsonrpc field`.
pub fn lit_msg_bad_version_vec() -> (r: Vec<u8>)
    ensures
        r@ == lit_msg_bad_version(),
{
    let r: Vec<u8> = vec![0x49, 0x6e, 0x76, 0x61, 0x6c, 0x69, 0x64, 0x20, 0x72, 0x65, 0x71, 0x75, 0x65, 0x73, 0x74, 0x3a, 0x20, 0x6d, 0x69, 0x73, 0x73, 0x69, 0x6e, 0x67, 0x20, 0x6f, 0x72, 0x20, 0x69, 0x6e, 0x76, 0x61, 0x6c, 0x69, 0x64, 0x20, 0x6a, 0x73, 0x6f, 0x6e, 0x72, 0x70, 0x63, 0x20, 0x66, 0x69, 0x65, 0x6c, 0x64];
    proof {
        assert(r@ =~= lit_msg_bad_version());
    }
    r
}

/// `Invalid request: missing id field`
pub open spec fn lit_msg_missing_id() -> Seq<u8> {
    seq![0x49u8, 0x6eu8, 0x76u8, 0x61u8, 0x6cu8, 0x69u8, 0x64u8, 0x20u8, 0x72u8, 0x65u8, 0x71u8, 0x75u8, 0x65u8, 0x73u8, 0x74u8, 0x3au8, 0x20u8, 0x6du8, 0x69u8, 0x73u8, 0x73u8, 0x69u8, 0x6eu8, 0x67u8, 0x20u8, 0x69u8, 0x64u8, 0x20u8, 0x66u8, 0x69u8, 0x65u8, 0x6cu8, 0x64u8]
}

/// The bytes of `Invalid request: missing id field`.
pub fn lit_msg_missing_id_vec() -> (r: Vec<u8>)
    ensures
        r@ == lit_msg_missing_id(),
{
    let r: Vec<u8> = vec![0x49, 0x6e, 0x76, 0x61, 0x6c, 0x69, 0x64, 0x20, 0x72, 0x65, 0x71, 0x75, 0x65, 0x73, 0x74, 0x3a, 0x20, 0x6d, 0x69, 0x73, 0x73, 0x69, 0x6e, 0x67, 0x20, 0x69, 0x64, 0x20, 0x66, 0x69, 0x65, 0x6c, 0x64];
    proof {
        assert(r@ =~= lit_msg_missing_id());
    }
    r
}

/// `Invalid request: missing method field`
pub open spec fn lit_msg_missing_method() -> Seq<u8> {
    seq![0x49u8, 0x6eu8, 0x76u8, 0x61u8, 0x6cu8, 0x69u8, 0x64u8, 0x20u8, 0x72u8, 0x65u8, 0x71u8, 0x75u8, 0x65u8, 0x73u8, 0x74u8, 0x3au8, 0x20u8, 0x6du8, 0x69u8, 0x73u8, 0x73u8, 0x69u8, 0x6eu8, 0x67u8, 0x20u8, 0x6du8, 0x65u8, 0x74u8, 0x68u8, 0x6fu8, 0x64u8, 0x20u8, 0x66u8, 0x69u8, 0x65u8, 0x6cu8, 0x64u8]
}

/// The bytes of `Invalid request: missing method field`.
pub fn lit_msg_missing_method_vec() -> (r: Vec<u8>)
    ensures
        r@ == lit_msg_missing_method(),
{
    let r: Vec<u8> = vec![0x49, 0x6e, 0x76, 0x61, 0x6c, 0x69, 0x64, 0x20, 0x72, 0x65, 0x71, 0x75, 0x65, 0x73, 0x74, 0x3a, 0x20, 0x6d, 0x69, 0x73, 0x73, 0x69, 0x6e, 0x67, 0x20, 0x6d, 0x65, 0x74, 0x68, 0x6f, 0x64, 0x20, 0x66, 0x69, 0x65, 0x6c, 0x64];
    proof {
        assert(r@ =~= lit_msg_missing_method());
    }
    r
}

/// `Unknown method: `
pub open spec fn lit_msg_unknown_method() -> Seq<u8> {
    seq![0x55u8, 0x6eu8, 0x6bu8, 0x6eu8, 0x6fu8, 0x77u8, 0x6eu8, 0x20u8, 0x6du8, 0x65u8, 0x74u8, 0x68u8, 0x6fu8, 0x64u8, 0x3au8, 0x20u8]
}

/// The bytes of `Unknown method: `.
pub fn lit_msg_unknown_method_vec() -> (r: Vec<u8>)
    ensures
        r@ == lit_msg_unknown_method(),
{
    let r: Vec<u8> = vec![0x55, 0x6e, 0x6b, 0x6e, 0x6f, 0x77, 0x6e, 0x20, 0x6d, 0x65, 0x74, 0x68, 0x6f, 0x64, 0x3a, 0x20];
    proof {
        assert(r@ =~= lit_msg_unknown_method());
    }
    r
}

/// `Missing required param: "command"`
pub open spec fn lit_msg_missing_command() -> Seq<u8> {
    seq![0x4du8, 0x69u8, 0x73u8, 0x73u8, 0x69u8, 0x6eu8, 0x67u8, 0x20u8, 0x72u8, 0x65u8, 0x71u8, 0x75u8, 0x69u8, 0x72u8, 0x65u8, 0x64u8, 0x20u8, 0x70u8, 0x61u8, 0x72u8, 0x61u8, 0x6du8, 0x3au8, 0x20u8, 0x22u8, 0x63u8, 0x6fu8, 0x6du8, 0x6du8, 0x61u8, 0x6eu8, 0x64u8, 0x22u8]
}

/// The bytes of `Missing required param: "command"`.
pub fn lit_msg_missing_command_vec() -> (r: Vec<u8>)
    ensures
        r@ == lit_msg_missing_command(),
{
    let r: Vec<u8> = vec![0x4d, 0x69, 0x73, 0x73, 0x69, 0x6e, 0x67, 0x20, 0x72, 0x65, 0x71, 0x75, 0x69, 0x72, 0x65, 0x64, 0x20, 0x70, 0x61, 0x72, 0x61, 0x6d, 0x3a, 0x20, 0x22, 0x63, 0x6f, 0x6d, 0x6d, 0x61, 0x6e, 0x64, 0x22];
    proof {
        assert(r@ =~= lit_msg_missing_command());
    }
    r
}

} // verus!