//! JSON-RPC errors.
use vstd::prelude::*;
use vstd::string::*;

verus! {

/// The JSON-RPC code of an unknown method.
pub const METHOD_NOT_FOUND: i32 = -32601;

/// RPC error.
#[derive(Debug, Clone)]
pub struct RpcError {
    pub code: i32,
    pub message: String,
}

/// The error answered to a request for a method that is not registered.
pub fn method_not_found(method: &str) -> (e: RpcError)
    ensures
        e.code == METHOD_NOT_FOUND,
        e.message@ == "Method not found: "@ + method@,
{
    let mut message = String::new();
    message.push_str("Method not found: ");
    message.push_str(method);
    RpcError { code: METHOD_NOT_FOUND, message }
}

} // verus!
