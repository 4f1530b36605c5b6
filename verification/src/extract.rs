//! Body inspection: pull the JSON-RPC method name out of a buffered
//! request body without touching the bytes.

use vstd::prelude::*;

verus! {

/// Cap on request bodies buffered for method inspection: 10 MiB.
pub const MAX_BODY_SIZE: usize = 10 * 1024 * 1024;

/// The string `method` field of the JSON value the bytes parse to, if
/// they parse to an object carrying one.
pub uninterp spec fn json_method_field(bytes: Seq<u8>) -> Option<Seq<char>>;

/// Relies on serde_json's `from_slice`, `Value::get` and
/// `Value::as_str`: parsing is a function of the bytes alone, so the
/// extracted field is too.
#[verifier::external_body]
fn json_method(bytes: &Vec<u8>) -> (r: Option<String>)
    ensures
        r is Some <==> json_method_field(bytes@) is Some,
        r matches Some(m) ==> json_method_field(bytes@) == Some(m@),
{
    match serde_json::from_slice::<serde_json::Value>(bytes) {
        Ok(v) => v.get("method").and_then(|m| m.as_str()).map(|s| s.to_string()),
        Err(_) => None,
    }
}

/// Inspects a buffered request body for a JSON-RPC method name and
/// hands the bytes back untouched: the middleware is transparent to
/// the body it forwards.
pub fn extract_rpc_method(body: Vec<u8>) -> (r: (Option<String>, Vec<u8>))
    ensures
        r.1@ == body@,
        r.0 is Some <==> json_method_field(body@) is Some,
        r.0 matches Some(m) ==> json_method_field(body@) == Some(m@),
{
    let tag = json_method(&body);
    (tag, body)
}

} // verus!
