//! The health endpoint's view of the pool: one entry per backend and
//! an overall verdict.

use vstd::prelude::*;
use vstd::string::StringExecFns;
use crate::config::Backend;
use crate::digits::{spec_decimal, u64_to_string};
use crate::health::{HealthRecord, HealthState, spec_initial_record};

verus! {

/// One backend's health, as reported to operators.
pub struct BackendHealth {
    pub label: String,
    pub healthy: bool,
    pub last_check: Option<String>,
    pub consecutive_failures: u32,
    pub consecutive_successes: u32,
    pub last_error: Option<String>,
}

/// The health endpoint's whole answer.
pub struct HealthResponse {
    pub overall_status: String,
    pub backends: Vec<BackendHealth>,
}

/// The record reported for a label: what the store holds, or the
/// initial optimistic record for a label it was not built with.
pub open spec fn spec_reported_record(h: HealthState, label: Seq<char>) -> HealthRecord {
    match h.spec_record_of(label) {
        Some(rec) => rec,
        None => spec_initial_record(),
    }
}

/// One reported entry matches one record.
pub open spec fn spec_entry_matches(b: BackendHealth, rec: HealthRecord) -> bool {
    &&& b.healthy == rec.healthy
    &&& b.consecutive_failures == rec.consecutive_failures
    &&& b.consecutive_successes == rec.consecutive_successes
    &&& b.last_error == rec.last_error
    &&& match rec.last_check_time {
        Some(t) => b.last_check matches Some(s) && s@ == spec_decimal(t as nat),
        None => b.last_check is None,
    }
}

/// Builds the health report: one entry per configured backend in pool
/// order, and `overall_status` reading `healthy` exactly when at least
/// one backend is healthy.
pub fn build_health_response(backends: &Vec<Backend>, h: &HealthState) -> (r: HealthResponse)
    requires
        h.wf(),
    ensures
        r.backends@.len() == backends@.len(),
        forall|i: int|
            0 <= i < backends@.len() ==> (#[trigger] r.backends@[i]).label@
                == backends@[i].label@ && spec_entry_matches(
                r.backends@[i],
                spec_reported_record(*h, backends@[i].label@),
            ),
        r.overall_status@ == "healthy"@ <==> exists|i: int|
            0 <= i < backends@.len() && spec_reported_record(*h, backends@[i].label@).healthy,
        r.overall_status@ == "healthy"@ || r.overall_status@ == "unhealthy"@,
{
    let n = backends.len();
    let mut out: Vec<BackendHealth> = Vec::new();
    let mut any_healthy = false;
    let mut i: usize = 0;
    while i < n
        invariant
            h.wf(),
            n == backends@.len(),
            i <= n,
            out@.len() == i,
            forall|k: int|
                0 <= k < i ==> (#[trigger] out@[k]).label@ == backends@[k].label@
                    && spec_entry_matches(
                    out@[k],
                    spec_reported_record(*h, backends@[k].label@),
                ),
            any_healthy <==> exists|k: int|
                0 <= k < i && spec_reported_record(*h, backends@[k].label@).healthy,
        decreases n - i,
    {
        let rec = match h.get_status(&backends[i].label) {
            Some(rec) => rec,
            None => HealthRecord::initial(),
        };
        if rec.healthy {
            any_healthy = true;
        }
        let last_check = match rec.last_check_time {
            Some(t) => Some(u64_to_string(t)),
            None => None,
        };
        let entry = BackendHealth {
            label: backends[i].label.clone(),
            healthy: rec.healthy,
            last_check,
            consecutive_failures: rec.consecutive_failures,
            consecutive_successes: rec.consecutive_successes,
            last_error: rec.last_error,
        };
        let ghost pre = out@;
        out.push(entry);
        proof {
            assert(out@[i as int].label@ == backends@[i as int].label@);
            assert(spec_entry_matches(
                out@[i as int],
                spec_reported_record(*h, backends@[i as int].label@),
            ));
            assert(forall|k: int| 0 <= k < i ==> out@[k] == pre[k]);
        }
        i = i + 1;
    }
    let overall_status = if any_healthy {
        String::from_str("healthy")
    } else {
        String::from_str("unhealthy")
    };
    proof {
        reveal_strlit("healthy");
        reveal_strlit("unhealthy");
        assert("healthy"@.len() != "unhealthy"@.len());
    }
    HealthResponse { overall_status, backends: out }
}

} // verus!
