//! Probe construction and outcome classification for the health
//! monitor.

use vstd::prelude::*;
use vstd::string::StringExecFns;
use crate::digits::{spec_decimal, u64_to_string};
use crate::health::ProbeOutcome;

verus! {

/// Whether the bytes parse as JSON carrying a `result` field or no
/// `error` field: a successful JSON-RPC reply.
pub uninterp spec fn json_rpc_success(bytes: Seq<u8>) -> bool;

/// Relies on serde_json's `from_slice` and `Value::get`: parsing is a
/// function of the bytes alone, so the verdict is too.
#[verifier::external_body]
fn json_rpc_ok(bytes: &Vec<u8>) -> (r: bool)
    ensures
        r == json_rpc_success(bytes@),
{
    match serde_json::from_slice::<serde_json::Value>(bytes) {
        Ok(v) => v.get("result").is_some() || v.get("error").is_none(),
        Err(_) => false,
    }
}

/// What one probe's HTTP attempt came back with, as plain values.
pub enum ProbeObservation {
    TimedOut,
    TransportError(String),
    Responded { status: u16, body: Vec<u8> },
}

/// The JSON-RPC payload a probe posts: a call of the configured method
/// with id 1 and no params.
pub fn probe_payload(method: &String) -> (r: String)
    ensures
        r@ == "{\"jsonrpc\":\"2.0\",\"id\":1,\"method\":\""@ + method@ + "\",\"params\":[]}"@,
{
    let mut r = String::from_str("{\"jsonrpc\":\"2.0\",\"id\":1,\"method\":\"");
    r.append(method.as_str());
    r.append("\",\"params\":[]}");
    r
}

/// Classifies a probe attempt: success exactly for a 2xx response whose
/// body is a successful JSON-RPC reply; every failure carries its short
/// reason.
pub fn classify_probe(obs: ProbeObservation) -> (r: ProbeOutcome)
    ensures
        obs is TimedOut ==> (r matches ProbeOutcome::Failure(e) && e@ == "timeout"@),
        obs matches ProbeObservation::TransportError(t) ==> (r matches ProbeOutcome::Failure(e)
            && e@ == "transport: "@ + t@),
        obs matches ProbeObservation::Responded { status, body } ==> {
            if !(200 <= status < 300) {
                r matches ProbeOutcome::Failure(e) && e@ == "status "@ + spec_decimal(
                    status as nat,
                )
            } else if json_rpc_success(body@) {
                r is Success
            } else {
                r matches ProbeOutcome::Failure(e) && e@ == "rpc error: no result in response"@
            }
        },
{
    match obs {
        ProbeObservation::TimedOut => ProbeOutcome::Failure(String::from_str("timeout")),
        ProbeObservation::TransportError(t) => {
            let mut e = String::from_str("transport: ");
            e.append(t.as_str());
            ProbeOutcome::Failure(e)
        },
        ProbeObservation::Responded { status, body } => {
            if !(200 <= status && status < 300) {
                let mut e = String::from_str("status ");
                let digits = u64_to_string(status as u64);
                e.append(digits.as_str());
                ProbeOutcome::Failure(e)
            } else if json_rpc_ok(&body) {
                ProbeOutcome::Success
            } else {
                ProbeOutcome::Failure(String::from_str("rpc error: no result in response"))
            }
        },
    }
}

} // verus!
