//! Per-backend health records and the hysteresis rule that probe
//! outcomes drive them through.

use vstd::prelude::*;

verus! {

/// What one probe of a backend observed: success, or failure with a
/// short human-readable reason.
pub enum ProbeOutcome {
    Success,
    Failure(String),
}

/// Health bookkeeping for a single backend.
pub struct HealthRecord {
    pub healthy: bool,
    pub consecutive_failures: u32,
    pub consecutive_successes: u32,
    pub last_check_time: Option<u64>,
    pub last_error: Option<String>,
}

/// Increment that stops at the largest `u32` instead of wrapping.
pub open spec fn sat_inc(x: u32) -> u32 {
    if x < u32::MAX {
        (x + 1) as u32
    } else {
        x
    }
}

/// The record every backend starts from: assumed healthy, no probes seen.
pub open spec fn spec_initial_record() -> HealthRecord {
    HealthRecord {
        healthy: true,
        consecutive_failures: 0,
        consecutive_successes: 0,
        last_check_time: None,
        last_error: None,
    }
}

/// The hysteresis rule: how one probe outcome transforms a record, given
/// the failure threshold `f` and success threshold `s`.
///
/// A success zeroes the failure streak, extends the success streak, and
/// makes an unhealthy backend healthy once the streak reaches `s`.  A
/// failure does the symmetric thing with threshold `f`.  `healthy` never
/// changes mid-streak.
pub open spec fn spec_probe_step(
    rec: HealthRecord,
    outcome: ProbeOutcome,
    f: u32,
    s: u32,
    now: u64,
) -> HealthRecord {
    match outcome {
        ProbeOutcome::Success => {
            let streak = sat_inc(rec.consecutive_successes);
            HealthRecord {
                healthy: rec.healthy || streak >= s,
                consecutive_failures: 0,
                consecutive_successes: streak,
                last_check_time: Some(now),
                last_error: None,
            }
        },
        ProbeOutcome::Failure(err) => {
            let streak = sat_inc(rec.consecutive_failures);
            HealthRecord {
                healthy: rec.healthy && streak < f,
                consecutive_failures: streak,
                consecutive_successes: 0,
                last_check_time: Some(now),
                last_error: Some(err),
            }
        },
    }
}

/// The record after a whole sequence of probe outcomes, applied oldest
/// first.
pub open spec fn spec_probe_run(
    rec: HealthRecord,
    outcomes: Seq<ProbeOutcome>,
    f: u32,
    s: u32,
    now: u64,
) -> HealthRecord
    decreases outcomes.len(),
{
    if outcomes.len() == 0 {
        rec
    } else {
        spec_probe_step(spec_probe_run(rec, outcomes.drop_last(), f, s, now), outcomes.last(), f, s, now)
    }
}

/// After any single probe, exactly one of the two streak counters is
/// zero: the outcome zeroes the opposite counter and makes its own at
/// least one.
pub proof fn lemma_probe_zeroes_opposite(
    rec: HealthRecord,
    outcome: ProbeOutcome,
    f: u32,
    s: u32,
    now: u64,
)
    ensures
        (spec_probe_step(rec, outcome, f, s, now).consecutive_failures == 0) != (spec_probe_step(
            rec,
            outcome,
            f,
            s,
            now,
        ).consecutive_successes == 0),
{
}

/// Once a terminal state is reached, repeating the same outcome leaves
/// `healthy` where it is: a success cannot un-mark a healthy backend and
/// a failure cannot un-mark an unhealthy one.
pub proof fn lemma_probe_terminal_idempotent(
    rec: HealthRecord,
    outcome: ProbeOutcome,
    f: u32,
    s: u32,
    now: u64,
)
    ensures
        rec.healthy && outcome is Success ==> spec_probe_step(rec, outcome, f, s, now).healthy,
        !rec.healthy && outcome is Failure ==> !spec_probe_step(rec, outcome, f, s, now).healthy,
{
}

/// Consecutive failures against a healthy backend flip it to unhealthy
/// exactly when the failure streak reaches the threshold `f`, and not
/// one probe sooner.
pub proof fn lemma_failure_streak_flips_at_threshold(
    rec: HealthRecord,
    outcomes: Seq<ProbeOutcome>,
    f: u32,
    s: u32,
    now: u64,
)
    requires
        rec.healthy,
        rec.consecutive_failures < f,
        rec.consecutive_failures + outcomes.len() <= u32::MAX,
        forall|i: int| 0 <= i < outcomes.len() ==> outcomes[i] is Failure,
    ensures
        spec_probe_run(rec, outcomes, f, s, now).consecutive_failures
            == rec.consecutive_failures + outcomes.len(),
        spec_probe_run(rec, outcomes, f, s, now).healthy <==> rec.consecutive_failures
            + outcomes.len() < f,
    decreases outcomes.len(),
{
    if outcomes.len() > 0 {
        lemma_failure_streak_flips_at_threshold(rec, outcomes.drop_last(), f, s, now);
        assert(outcomes.last() is Failure);
    }
}

/// Consecutive successes against an unhealthy backend flip it back to
/// healthy exactly when the success streak reaches the threshold `s`,
/// and not one probe sooner.
pub proof fn lemma_success_streak_flips_at_threshold(
    rec: HealthRecord,
    outcomes: Seq<ProbeOutcome>,
    f: u32,
    s: u32,
    now: u64,
)
    requires
        !rec.healthy,
        rec.consecutive_successes < s,
        rec.consecutive_successes + outcomes.len() <= u32::MAX,
        forall|i: int| 0 <= i < outcomes.len() ==> outcomes[i] is Success,
    ensures
        spec_probe_run(rec, outcomes, f, s, now).consecutive_successes
            == rec.consecutive_successes + outcomes.len(),
        spec_probe_run(rec, outcomes, f, s, now).healthy <==> rec.consecutive_successes
            + outcomes.len() >= s,
    decreases outcomes.len(),
{
    if outcomes.len() > 0 {
        lemma_success_streak_flips_at_threshold(rec, outcomes.drop_last(), f, s, now);
        assert(outcomes.last() is Success);
    }
}

impl HealthRecord {
    /// The record a backend carries before any probe has run.
    pub fn initial() -> (r: HealthRecord)
        ensures
            r == spec_initial_record(),
    {
        HealthRecord {
            healthy: true,
            consecutive_failures: 0,
            consecutive_successes: 0,
            last_check_time: None,
            last_error: None,
        }
    }

    /// A field-for-field copy of the record.
    pub fn duplicate(&self) -> (r: HealthRecord)
        ensures
            r == *self,
    {
        HealthRecord {
            healthy: self.healthy,
            consecutive_failures: self.consecutive_failures,
            consecutive_successes: self.consecutive_successes,
            last_check_time: self.last_check_time,
            last_error: match &self.last_error {
                Some(e) => Some(e.clone()),
                None => None,
            },
        }
    }
}

/// Health records for the whole backend pool, keyed by backend label.
/// The key set is fixed at construction; probes only ever update the
/// record of a label that is already present.
pub struct HealthState {
    pub labels: Vec<String>,
    pub records: Vec<HealthRecord>,
    pub failure_threshold: u32,
    pub success_threshold: u32,
}

impl HealthState {
    /// Well-formedness: one record per label, distinct labels, and
    /// thresholds of at least one probe.
    pub open spec fn wf(&self) -> bool {
        &&& self.labels@.len() == self.records@.len()
        &&& forall|i: int, j: int|
            0 <= i < j < self.labels@.len() ==> self.labels@[i]@ != self.labels@[j]@
        &&& self.failure_threshold >= 1
        &&& self.success_threshold >= 1
    }

    /// Whether some slot carries this label.
    pub open spec fn has_label(&self, label: Seq<char>) -> bool {
        exists|i: int| 0 <= i < self.labels@.len() && self.labels@[i]@ == label
    }

    /// The slot that carries this label (meaningful only when present;
    /// unique under `wf`).
    pub open spec fn index_of(&self, label: Seq<char>) -> int {
        choose|i: int| 0 <= i < self.labels@.len() && self.labels@[i]@ == label
    }

    /// The record stored for a label, if any.
    pub open spec fn spec_record_of(&self, label: Seq<char>) -> Option<HealthRecord> {
        if self.has_label(label) {
            Some(self.records@[self.index_of(label)])
        } else {
            None
        }
    }

    /// Builds the store for a pool of labels, every backend assumed
    /// healthy until probed.
    pub fn new(labels: Vec<String>, failure_threshold: u32, success_threshold: u32) -> (r:
        HealthState)
        requires
            failure_threshold >= 1,
            success_threshold >= 1,
            forall|i: int, j: int| 0 <= i < j < labels@.len() ==> labels@[i]@ != labels@[j]@,
        ensures
            r.wf(),
            r.labels@ == labels@,
            r.records@.len() == labels@.len(),
            forall|i: int| 0 <= i < r.records@.len() ==> r.records@[i] == spec_initial_record(),
            r.failure_threshold == failure_threshold,
            r.success_threshold == success_threshold,
    {
        let mut records: Vec<HealthRecord> = Vec::new();
        let mut i: usize = 0;
        while i < labels.len()
            invariant
                i <= labels@.len(),
                records@.len() == i,
                forall|k: int| 0 <= k < i ==> records@[k] == spec_initial_record(),
            decreases labels@.len() - i,
        {
            records.push(HealthRecord::initial());
            i = i + 1;
        }
        HealthState { labels, records, failure_threshold, success_threshold }
    }

    /// Point-in-time copy of the record kept for `label`, or `None` for a
    /// label the store was not built with.
    pub fn get_status(&self, label: &String) -> (r: Option<HealthRecord>)
        requires
            self.wf(),
        ensures
            r == self.spec_record_of(label@),
    {
        let n = self.labels.len();
        let mut i: usize = 0;
        while i < n
            invariant
                self.wf(),
                n == self.labels@.len(),
                i <= n,
                forall|k: int| 0 <= k < i ==> self.labels@[k]@ != label@,
            decreases n - i,
        {
            if self.labels[i] == *label {
                proof {
                    assert(self.has_label(label@));
                    assert(self.index_of(label@) == i);
                }
                return Some(self.records[i].duplicate());
            }
            i = i + 1;
        }
        proof {
            assert(!self.has_label(label@));
        }
        None
    }

    /// Copies of every label with its current record, in pool order.
    pub fn get_all_statuses(&self) -> (r: Vec<(String, HealthRecord)>)
        requires
            self.wf(),
        ensures
            r@.len() == self.labels@.len(),
            forall|i: int|
                0 <= i < r@.len() ==> r@[i].0@ == self.labels@[i]@ && r@[i].1 == self.records@[i],
    {
        let mut out: Vec<(String, HealthRecord)> = Vec::new();
        let mut i: usize = 0;
        while i < self.labels.len()
            invariant
                self.wf(),
                i <= self.labels@.len(),
                out@.len() == i,
                forall|k: int|
                    0 <= k < i ==> (#[trigger] out@[k]).0@ == self.labels@[k]@ && out@[k].1
                        == self.records@[k],
            decreases self.labels@.len() - i,
        {
            let label = self.labels[i].clone();
            let record = self.records[i].duplicate();
            proof {
                assert(label@ == self.labels@[i as int]@);
                assert(record == self.records@[i as int]);
            }
            let ghost pre_out = out@;
            out.push((label, record));
            proof {
                assert(out@[i as int].0@ == self.labels@[i as int]@);
                assert(out@[i as int].1 == self.records@[i as int]);
                assert forall|k: int|
                    0 <= k < i + 1 implies out@[k].0@ == self.labels@[k]@ && out@[k].1
                    == self.records@[k] by {
                    if k < i {
                        assert(out@[k] == pre_out[k]);
                        assert(pre_out[k].0@ == self.labels@[k]@);
                        assert(pre_out[k].1 == self.records@[k]);
                    }
                }
            }
            i = i + 1;
        }
        out
    }

    /// Applies one probe outcome to the record of `label` under the
    /// hysteresis rule; a label the store was not built with is left
    /// unchanged.  After the update exactly one of the two streak
    /// counters is zero.
    pub fn apply_probe(&mut self, label: &String, outcome: ProbeOutcome, now: u64)
        requires
            old(self).wf(),
        ensures
            final(self).wf(),
            final(self).labels@ == old(self).labels@,
            final(self).failure_threshold == old(self).failure_threshold,
            final(self).success_threshold == old(self).success_threshold,
            old(self).has_label(label@) ==> final(self).records@ == old(self).records@.update(
                old(self).index_of(label@),
                spec_probe_step(
                    old(self).records@[old(self).index_of(label@)],
                    outcome,
                    old(self).failure_threshold,
                    old(self).success_threshold,
                    now,
                ),
            ),
            !old(self).has_label(label@) ==> final(self).records@ == old(self).records@,
    {
        let n = self.labels.len();
        let mut i: usize = 0;
        while i < n
            invariant
                self == old(self),
                self.wf(),
                n == self.labels@.len(),
                i <= n,
                forall|k: int| 0 <= k < i ==> self.labels@[k]@ != label@,
            decreases n - i,
        {
            if self.labels[i] == *label {
                proof {
                    assert(self.has_label(label@));
                    assert(self.index_of(label@) == i);
                }
                let rec = &self.records[i];
                let updated = match outcome {
                    ProbeOutcome::Success => {
                        let streak = if rec.consecutive_successes < u32::MAX {
                            rec.consecutive_successes + 1
                        } else {
                            rec.consecutive_successes
                        };
                        HealthRecord {
                            healthy: rec.healthy || streak >= self.success_threshold,
                            consecutive_failures: 0,
                            consecutive_successes: streak,
                            last_check_time: Some(now),
                            last_error: None,
                        }
                    },
                    ProbeOutcome::Failure(err) => {
                        let streak = if rec.consecutive_failures < u32::MAX {
                            rec.consecutive_failures + 1
                        } else {
                            rec.consecutive_failures
                        };
                        HealthRecord {
                            healthy: rec.healthy && streak < self.failure_threshold,
                            consecutive_failures: streak,
                            consecutive_successes: 0,
                            last_check_time: Some(now),
                            last_error: Some(err),
                        }
                    },
                };
                self.records[i] = updated;
                return ;
            }
            i = i + 1;
        }
        proof {
            assert(!self.has_label(label@));
        }
    }
}

} // verus!
