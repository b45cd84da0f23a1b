use vstd::prelude::*;

verus! {

/// A registration conflicts with what is registered, or breaks a rule.
pub const JSON_RPC_REGISTRATION_CONFLICT: i64 = -32001;

/// The session a request was forwarded to went away.
pub const JSON_RPC_FORWARD_TARGET_GONE: i64 = -32002;

/// The session a request was forwarded to did not answer in time.
pub const JSON_RPC_FORWARD_TIMEOUT: i64 = -32003;

/// A session called a method that it registered itself.
pub const JSON_RPC_SELF_INVOCATION: i64 = -32004;

/// A contract does not match what is stored under its SHA, or is malformed.
pub const JSON_RPC_CONTRACT_MISMATCH: i64 = -32008;

/// No contract is stored under the SHA.
pub const JSON_RPC_UNKNOWN_CONTRACT: i64 = -32009;

/// A contract refers to a contract that is not stored.
pub const JSON_RPC_DANGLING_CONTRACT_REF: i64 = -32010;

/// Standard JSON-RPC error codes.
pub const JSON_RPC_PARSE_ERROR: i64 = -32700;

pub const JSON_RPC_INVALID_REQUEST: i64 = -32600;

pub const JSON_RPC_METHOD_NOT_FOUND: i64 = -32601;

pub const JSON_RPC_INVALID_PARAMS: i64 = -32602;

} // verus!
