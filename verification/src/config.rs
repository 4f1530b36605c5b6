//! Validated proxy configuration: the backend pool, admission keys,
//! method routing overrides and health-check tuning.

use vstd::prelude::*;
use vstd::string::StringExecFns;

verus! {

/// One upstream JSON-RPC server.
#[derive(Debug, Clone)]
pub struct Backend {
    pub label: String,
    pub url: String,
    pub weight: u32,
}

/// Tuning of the background health monitor.
#[derive(Debug, Clone)]
pub struct HealthCheckConfig {
    pub interval_secs: u64,
    pub timeout_secs: u64,
    pub method: String,
    pub consecutive_failures_threshold: u32,
    pub consecutive_successes_threshold: u32,
}

impl Default for HealthCheckConfig {
    /// Probe every 30 s with a 5 s timeout, calling `getSlot`; three
    /// failures mark a backend down, two successes bring it back.
    fn default() -> (c: HealthCheckConfig)
        ensures
            c.interval_secs == 30,
            c.timeout_secs == 5,
            c.method@ == "getSlot"@,
            c.consecutive_failures_threshold == 3,
            c.consecutive_successes_threshold == 2,
    {
        HealthCheckConfig {
            interval_secs: 30,
            timeout_secs: 5,
            method: String::from_str("getSlot"),
            consecutive_failures_threshold: 3,
            consecutive_successes_threshold: 2,
        }
    }
}

/// Tuning of the request forwarder.
#[derive(Debug, Clone)]
pub struct ProxyConfig {
    pub timeout_secs: u64,
}

impl Default for ProxyConfig {
    /// Wait up to 30 s for an upstream response.
    fn default() -> (c: ProxyConfig)
        ensures
            c.timeout_secs == 30,
    {
        ProxyConfig { timeout_secs: 30 }
    }
}

/// The whole configuration, as read from the operator's file.
/// `method_routes` maps a JSON-RPC method name to the label of the
/// backend that must serve it.
#[derive(Debug, Clone)]
pub struct Config {
    pub port: u16,
    pub api_keys: Vec<String>,
    pub backends: Vec<Backend>,
    pub method_routes: Vec<(String, String)>,
    pub health_check: HealthCheckConfig,
    pub proxy: ProxyConfig,
}

/// Why a configuration was rejected.
#[derive(Debug, Clone)]
pub enum ConfigError {
    NoApiKeys,
    NoBackends,
    DuplicateLabel,
    InvalidWeight(String),
    EmptyLabel(String),
    TotalWeightTooLarge,
    ZeroProxyTimeout,
    ZeroThreshold,
    UnknownRouteLabel(String, String),
}

/// No two backends share a label.
pub open spec fn labels_unique(backends: Seq<Backend>) -> bool {
    forall|i: int, j: int|
        0 <= i < j < backends.len() ==> backends[i].label@ != backends[j].label@
}

/// Some backend carries this label.
pub open spec fn pool_has_label(backends: Seq<Backend>, label: Seq<char>) -> bool {
    exists|i: int| 0 <= i < backends.len() && backends[i].label@ == label
}

/// Sum of all backend weights, as an unbounded integer.
pub open spec fn weight_total(backends: Seq<Backend>) -> int
    decreases backends.len(),
{
    if backends.len() == 0 {
        0
    } else {
        weight_total(backends.drop_last()) + backends.last().weight
    }
}

/// What is wrong with a single backend entry, if anything: a zero
/// weight is reported before an empty label, as the loader always did.
pub open spec fn spec_backend_issue(b: Backend) -> Option<ConfigError> {
    if b.weight == 0 {
        Some(ConfigError::InvalidWeight(b.label))
    } else if b.label@.len() == 0 {
        Some(ConfigError::EmptyLabel(b.url))
    } else {
        None
    }
}

/// The first backend entry that is wrong, in pool order.
pub open spec fn spec_first_backend_issue(backends: Seq<Backend>) -> Option<ConfigError>
    decreases backends.len(),
{
    if backends.len() == 0 {
        None
    } else if spec_backend_issue(backends.first()) is Some {
        spec_backend_issue(backends.first())
    } else {
        spec_first_backend_issue(backends.drop_first())
    }
}

/// The first method route naming a label that no backend carries.
pub open spec fn spec_first_route_issue(
    routes: Seq<(String, String)>,
    backends: Seq<Backend>,
) -> Option<ConfigError>
    decreases routes.len(),
{
    if routes.len() == 0 {
        None
    } else if !pool_has_label(backends, routes.first().1@) {
        Some(ConfigError::UnknownRouteLabel(routes.first().0, routes.first().1))
    } else {
        spec_first_route_issue(routes.drop_first(), backends)
    }
}

/// The verdict on a configuration, with the checks in the order the
/// loader applies them.
pub open spec fn spec_validate(c: Config) -> Result<(), ConfigError> {
    if c.api_keys@.len() == 0 {
        Err(ConfigError::NoApiKeys)
    } else if c.backends@.len() == 0 {
        Err(ConfigError::NoBackends)
    } else if !labels_unique(c.backends@) {
        Err(ConfigError::DuplicateLabel)
    } else if spec_first_backend_issue(c.backends@) is Some {
        Err(spec_first_backend_issue(c.backends@).unwrap())
    } else if weight_total(c.backends@) > u32::MAX {
        Err(ConfigError::TotalWeightTooLarge)
    } else if c.proxy.timeout_secs == 0 {
        Err(ConfigError::ZeroProxyTimeout)
    } else if c.health_check.consecutive_failures_threshold == 0
        || c.health_check.consecutive_successes_threshold == 0 {
        Err(ConfigError::ZeroThreshold)
    } else if spec_first_route_issue(c.method_routes@, c.backends@) is Some {
        Err(spec_first_route_issue(c.method_routes@, c.backends@).unwrap())
    } else {
        Ok(())
    }
}

/// Everything `spec_validate` checks, as one predicate.
pub open spec fn spec_config_valid(c: Config) -> bool {
    &&& c.api_keys@.len() > 0
    &&& c.backends@.len() > 0
    &&& labels_unique(c.backends@)
    &&& forall|i: int|
        0 <= i < c.backends@.len() ==> c.backends@[i].weight > 0 && c.backends@[i].label@.len()
            > 0
    &&& weight_total(c.backends@) <= u32::MAX
    &&& c.proxy.timeout_secs > 0
    &&& c.health_check.consecutive_failures_threshold > 0
    &&& c.health_check.consecutive_successes_threshold > 0
    &&& forall|i: int|
        0 <= i < c.method_routes@.len() ==> pool_has_label(c.backends@, c.method_routes@[i].1@)
}

proof fn lemma_backend_issue_at(backends: Seq<Backend>, i: int)
    requires
        0 <= i < backends.len(),
        forall|k: int| 0 <= k < i ==> spec_backend_issue(backends[k]) is None,
        spec_backend_issue(backends[i]) is Some,
    ensures
        spec_first_backend_issue(backends) == spec_backend_issue(backends[i]),
    decreases i,
{
    if i == 0 {
    } else {
        lemma_backend_issue_at(backends.drop_first(), i - 1);
    }
}

proof fn lemma_backend_issue_none(backends: Seq<Backend>)
    requires
        forall|k: int| 0 <= k < backends.len() ==> spec_backend_issue(backends[k]) is None,
    ensures
        spec_first_backend_issue(backends) is None,
    decreases backends.len(),
{
    if backends.len() > 0 {
        lemma_backend_issue_none(backends.drop_first());
    }
}

proof fn lemma_route_issue_at(routes: Seq<(String, String)>, backends: Seq<Backend>, i: int)
    requires
        0 <= i < routes.len(),
        forall|k: int| 0 <= k < i ==> pool_has_label(backends, routes[k].1@),
        !pool_has_label(backends, routes[i].1@),
    ensures
        spec_first_route_issue(routes, backends) == Some(
            ConfigError::UnknownRouteLabel(routes[i].0, routes[i].1),
        ),
    decreases i,
{
    if i == 0 {
    } else {
        lemma_route_issue_at(routes.drop_first(), backends, i - 1);
    }
}

proof fn lemma_route_issue_none(routes: Seq<(String, String)>, backends: Seq<Backend>)
    requires
        forall|k: int| 0 <= k < routes.len() ==> pool_has_label(backends, routes[k].1@),
    ensures
        spec_first_route_issue(routes, backends) is None,
    decreases routes.len(),
{
    if routes.len() > 0 {
        lemma_route_issue_none(routes.drop_first(), backends);
    }
}

/// A prefix of the pool never outweighs the whole pool.
proof fn lemma_weight_total_prefix(backends: Seq<Backend>, n: int)
    requires
        0 <= n <= backends.len(),
        forall|i: int| 0 <= i < backends.len() ==> backends[i].weight >= 0,
    ensures
        weight_total(backends.subrange(0, n)) <= weight_total(backends),
    decreases backends.len(),
{
    if n == backends.len() {
        assert(backends.subrange(0, n) =~= backends);
    } else {
        lemma_weight_total_prefix(backends.drop_last(), n);
        assert(backends.drop_last().subrange(0, n) =~= backends.subrange(0, n));
    }
}

/// Checks a configuration exactly as the loader does, reporting the
/// first offence in loader order; accepts it exactly when
/// `spec_config_valid` holds.
#[verifier::loop_isolation(false)]
pub fn validate_config(c: &Config) -> (r: Result<(), ConfigError>)
    ensures
        r == spec_validate(*c),
        r is Ok <==> spec_config_valid(*c),
{
    let n = c.backends.len();
    if c.api_keys.len() == 0 {
        return Err(ConfigError::NoApiKeys);
    }
    if n == 0 {
        return Err(ConfigError::NoBackends);
    }
    // duplicate labels
    let mut i: usize = 0;
    while i < n
        invariant
            n == c.backends@.len(),
            i <= n,
            forall|a: int, b: int|
                0 <= a < i && a < b < n ==> c.backends@[a].label@ != c.backends@[b].label@,
        decreases n - i,
    {
        let mut j: usize = i + 1;
        while j < n
            invariant
                n == c.backends@.len(),
                i < n,
                i < j <= n,
                forall|b: int| i < b < j ==> c.backends@[i as int].label@ != c.backends@[b].label@,
            decreases n - j,
        {
            if c.backends[i].label == c.backends[j].label {
                proof {
                    assert(c.backends@[i as int].label@ == c.backends@[j as int].label@);
                    assert(!labels_unique(c.backends@));
                }
                return Err(ConfigError::DuplicateLabel);
            }
            j = j + 1;
        }
        i = i + 1;
    }
    assert(labels_unique(c.backends@));
    // per-backend checks
    let mut i: usize = 0;
    while i < n
        invariant
            n == c.backends@.len(),
            i <= n,
            forall|k: int| 0 <= k < i ==> spec_backend_issue(c.backends@[k]) is None,
        decreases n - i,
    {
        if c.backends[i].weight == 0 {
            proof {
                lemma_backend_issue_at(c.backends@, i as int);
            }
            return Err(ConfigError::InvalidWeight(c.backends[i].label.clone()));
        }
        if c.backends[i].label.as_str().is_empty() {
            proof {
                lemma_backend_issue_at(c.backends@, i as int);
            }
            return Err(ConfigError::EmptyLabel(c.backends[i].url.clone()));
        }
        i = i + 1;
    }
    proof {
        lemma_backend_issue_none(c.backends@);
    }
    // the weights must admit a u32 total for the weighted draw
    let mut total: u64 = 0;
    let mut i: usize = 0;
    while i < n
        invariant
            n == c.backends@.len(),
            i <= n,
            total == weight_total(c.backends@.subrange(0, i as int)),
            total <= u32::MAX,
        decreases n - i,
    {
        let w = c.backends[i].weight;
        proof {
            assert(c.backends@.subrange(0, i + 1).drop_last() =~= c.backends@.subrange(
                0,
                i as int,
            ));
            assert(c.backends@.subrange(0, i + 1).last() == c.backends@[i as int]);
        }
        if total + (w as u64) > (u32::MAX as u64) {
            proof {
                lemma_weight_total_prefix(c.backends@, i + 1);
            }
            return Err(ConfigError::TotalWeightTooLarge);
        }
        total = total + (w as u64);
        i = i + 1;
    }
    proof {
        assert(c.backends@.subrange(0, n as int) =~= c.backends@);
    }
    if c.proxy.timeout_secs == 0 {
        return Err(ConfigError::ZeroProxyTimeout);
    }
    if c.health_check.consecutive_failures_threshold == 0
        || c.health_check.consecutive_successes_threshold == 0 {
        return Err(ConfigError::ZeroThreshold);
    }
    // method routes must point at pool labels
    let m = c.method_routes.len();
    let mut i: usize = 0;
    while i < m
        invariant
            n == c.backends@.len(),
            m == c.method_routes@.len(),
            i <= m,
            forall|k: int| 0 <= k < i ==> pool_has_label(c.backends@, c.method_routes@[k].1@),
        decreases m - i,
    {
        let mut found = false;
        let mut j: usize = 0;
        while j < n
            invariant
                n == c.backends@.len(),
                m == c.method_routes@.len(),
                i < m,
                j <= n,
                found ==> pool_has_label(c.backends@, c.method_routes@[i as int].1@),
                !found ==> forall|b: int|
                    0 <= b < j ==> c.backends@[b].label@ != c.method_routes@[i as int].1@,
            decreases n - j,
        {
            if c.backends[j].label == c.method_routes[i].1 {
                found = true;
            }
            j = j + 1;
        }
        if !found {
            proof {
                lemma_route_issue_at(c.method_routes@, c.backends@, i as int);
            }
            return Err(
                ConfigError::UnknownRouteLabel(
                    c.method_routes[i].0.clone(),
                    c.method_routes[i].1.clone(),
                ),
            );
        }
        i = i + 1;
    }
    proof {
        lemma_route_issue_none(c.method_routes@, c.backends@);
    }
    Ok(())
}

impl ConfigError {
    /// The human-readable message the loader prints for this error.
    pub fn message(&self) -> (m: String)
        ensures
            *self is NoApiKeys ==> m@ == "At least one API key must be configured"@,
            *self is NoBackends ==> m@ == "At least one backend must be configured"@,
            *self is DuplicateLabel ==> m@ == "Duplicate backend labels found in configuration"@,
            self matches ConfigError::InvalidWeight(label) ==> m@ == "Backend '"@ + label@
                + "' has invalid weight 0"@,
            self matches ConfigError::EmptyLabel(url) ==> m@ == "Backend with URL '"@ + url@
                + "' has empty label"@,
            *self is TotalWeightTooLarge ==> m@ == "Total backend weight must fit in a u32"@,
            *self is ZeroProxyTimeout ==> m@ == "Proxy timeout_secs must be > 0"@,
            *self is ZeroThreshold ==> m@ == "Health check thresholds must be > 0"@,
            self matches ConfigError::UnknownRouteLabel(method, label) ==> m@ == "Method route '"@
                + method@ + "' references unknown backend label '"@ + label@ + "'"@,
    {
        match self {
            ConfigError::NoApiKeys => String::from_str("At least one API key must be configured"),
            ConfigError::NoBackends => String::from_str(
                "At least one backend must be configured",
            ),
            ConfigError::DuplicateLabel => String::from_str(
                "Duplicate backend labels found in configuration",
            ),
            ConfigError::InvalidWeight(label) => {
                let mut m = String::from_str("Backend '");
                m.append(label.as_str());
                m.append("' has invalid weight 0");
                m
            },
            ConfigError::EmptyLabel(url) => {
                let mut m = String::from_str("Backend with URL '");
                m.append(url.as_str());
                m.append("' has empty label");
                m
            },
            ConfigError::TotalWeightTooLarge => String::from_str(
                "Total backend weight must fit in a u32",
            ),
            ConfigError::ZeroProxyTimeout => String::from_str("Proxy timeout_secs must be > 0"),
            ConfigError::ZeroThreshold => String::from_str(
                "Health check thresholds must be > 0",
            ),
            ConfigError::UnknownRouteLabel(method, label) => {
                let mut m = String::from_str("Method route '");
                m.append(method.as_str());
                m.append("' references unknown backend label '");
                m.append(label.as_str());
                m.append("'");
                m
            },
        }
    }
}

/// Weight assumed for a backend whose configuration names none.
pub fn default_weight() -> (w: u32)
    ensures
        w == 1,
{
    1
}

} // verus!
