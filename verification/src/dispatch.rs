//! Backend selection: a per-method override when its target is healthy,
//! otherwise a weighted random draw over the healthy part of the pool.

use vstd::prelude::*;
use rand::Rng;
use crate::config::{Backend, Config, labels_unique, pool_has_label, weight_total};
use crate::health::HealthState;

verus! {

/// Immutable routing state shared by every request handler.
pub struct AppState {
    pub backends: Vec<Backend>,
    pub api_keys: Vec<String>,
    pub method_routes: Vec<(String, String)>,
    pub label_to_url: Vec<(String, String)>,
    pub proxy_timeout_secs: u64,
}

/// A label is treated as healthy when its record says so, and also when
/// the store has no record for it (fail-open before the first probe).
pub open spec fn is_healthy_label(h: HealthState, label: Seq<char>) -> bool {
    match h.spec_record_of(label) {
        Some(rec) => rec.healthy,
        None => true,
    }
}

/// First pair in an association list whose key reads `key`.
pub open spec fn spec_assoc(pairs: Seq<(String, String)>, key: Seq<char>) -> Option<
    (String, String),
>
    decreases pairs.len(),
{
    if pairs.len() == 0 {
        None
    } else if pairs.first().0@ == key {
        Some(pairs.first())
    } else {
        spec_assoc(pairs.drop_first(), key)
    }
}

/// Indices of the healthy backends among the first `n`, in pool order.
pub open spec fn spec_healthy_idxs(backends: Seq<Backend>, h: HealthState, n: int) -> Seq<usize>
    decreases n,
{
    if n <= 0 {
        Seq::empty()
    } else if is_healthy_label(h, backends[n - 1].label@) {
        spec_healthy_idxs(backends, h, n - 1).push((n - 1) as usize)
    } else {
        spec_healthy_idxs(backends, h, n - 1)
    }
}

/// Total weight of the first `k` listed backends.
pub open spec fn spec_prefix_weight(backends: Seq<Backend>, idxs: Seq<usize>, k: int) -> int
    decreases k,
{
    if k <= 0 {
        0
    } else {
        spec_prefix_weight(backends, idxs, k - 1) + backends[idxs[k - 1] as int].weight
    }
}

/// The weighted walk: subtract weights from `r` left to right and stop
/// at the first backend whose weight exceeds what is left.
pub open spec fn spec_pick_from(backends: Seq<Backend>, idxs: Seq<usize>, j: int, r: int) -> usize
    decreases idxs.len() - j,
{
    if j < 0 || j >= idxs.len() {
        0
    } else if r < backends[idxs[j] as int].weight {
        idxs[j]
    } else {
        spec_pick_from(backends, idxs, j + 1, r - backends[idxs[j] as int].weight)
    }
}

/// The backend index a draw of `r` selects.
pub open spec fn spec_pick(backends: Seq<Backend>, idxs: Seq<usize>, r: int) -> usize {
    spec_pick_from(backends, idxs, 0, r)
}

/// Prefix weights only read the entries before `k`.
proof fn lemma_psum_agree(backends: Seq<Backend>, s1: Seq<usize>, s2: Seq<usize>, k: int)
    requires
        forall|i: int| 0 <= i < k ==> s1[i] == s2[i],
    ensures
        spec_prefix_weight(backends, s1, k) == spec_prefix_weight(backends, s2, k),
    decreases k,
{
    if k > 0 {
        lemma_psum_agree(backends, s1, s2, k - 1);
    }
}

/// Prefix weights grow with the prefix.
proof fn lemma_psum_monotone(backends: Seq<Backend>, idxs: Seq<usize>, a: int, b: int)
    requires
        0 <= a <= b,
    ensures
        spec_prefix_weight(backends, idxs, a) <= spec_prefix_weight(backends, idxs, b),
    decreases b - a,
{
    if a < b {
        lemma_psum_monotone(backends, idxs, a, b - 1);
    }
}

/// The healthy indices are strictly increasing, in range, and exactly
/// the healthy labels of the pool prefix.
proof fn lemma_healthy_idxs_shape(backends: Seq<Backend>, h: HealthState, n: int)
    requires
        0 <= n <= backends.len(),
        n <= usize::MAX,
    ensures
        forall|k: int|
            0 <= k < spec_healthy_idxs(backends, h, n).len() ==> spec_healthy_idxs(
                backends,
                h,
                n,
            )[k] < n,
        forall|a: int, b: int|
            0 <= a < b < spec_healthy_idxs(backends, h, n).len() ==> spec_healthy_idxs(
                backends,
                h,
                n,
            )[a] < spec_healthy_idxs(backends, h, n)[b],
        forall|k: int|
            0 <= k < spec_healthy_idxs(backends, h, n).len() ==> is_healthy_label(
                h,
                backends[spec_healthy_idxs(backends, h, n)[k] as int].label@,
            ),
    decreases n,
{
    if n > 0 {
        lemma_healthy_idxs_shape(backends, h, n - 1);
        let prev = spec_healthy_idxs(backends, h, n - 1);
        let cur = spec_healthy_idxs(backends, h, n);
        if is_healthy_label(h, backends[n - 1].label@) {
            assert(cur == prev.push((n - 1) as usize));
            assert(forall|k: int| 0 <= k < prev.len() ==> cur[k] == prev[k]);
            assert(cur[cur.len() - 1] == (n - 1) as usize);
            assert forall|a: int, b: int| 0 <= a < b < cur.len() implies cur[a] < cur[b] by {
                if b == cur.len() - 1 {
                    assert(cur[a] == prev[a]);
                    assert(prev[a] < n - 1);
                }
            }
            assert forall|k: int| 0 <= k < cur.len() implies is_healthy_label(
                h,
                backends[cur[k] as int].label@,
            ) by {
                if k == cur.len() - 1 {
                    assert(cur[k] as int == n - 1);
                } else {
                    assert(cur[k] == prev[k]);
                }
            }
        } else {
            assert(cur == prev);
        }
    }
}

/// The healthy pool never outweighs the whole pool.
proof fn lemma_healthy_weight_le_total(backends: Seq<Backend>, h: HealthState, n: int)
    requires
        0 <= n <= backends.len(),
        n <= usize::MAX,
    ensures
        spec_prefix_weight(
            backends,
            spec_healthy_idxs(backends, h, n),
            spec_healthy_idxs(backends, h, n).len() as int,
        ) <= weight_total(backends.subrange(0, n)),
    decreases n,
{
    if n > 0 {
        lemma_healthy_weight_le_total(backends, h, n - 1);
        let prev = spec_healthy_idxs(backends, h, n - 1);
        let cur = spec_healthy_idxs(backends, h, n);
        assert(backends.subrange(0, n).drop_last() =~= backends.subrange(0, n - 1));
        assert(backends.subrange(0, n).last() == backends[n - 1]);
        if is_healthy_label(h, backends[n - 1].label@) {
            lemma_psum_agree(backends, cur, prev, prev.len() as int);
            assert(cur == prev.push((n - 1) as usize));
            let m = prev.len() as int;
            assert(cur.len() == m + 1);
            assert(cur[m] as int == n - 1);
            assert(spec_prefix_weight(backends, cur, m + 1) == spec_prefix_weight(backends, cur, m)
                + backends[cur[m] as int].weight);
        } else {
            assert(cur == prev);
        }
    } else {
        assert(backends.subrange(0, 0) =~= Seq::<Backend>::empty());
    }
}

/// A draw that lands in the `k`-th weight interval picks the `k`-th
/// listed backend.
proof fn lemma_pick_interval_from(
    backends: Seq<Backend>,
    idxs: Seq<usize>,
    j: int,
    k: int,
    r: int,
)
    requires
        0 <= j <= k < idxs.len(),
        spec_prefix_weight(backends, idxs, k) <= r < spec_prefix_weight(backends, idxs, k + 1),
    ensures
        spec_pick_from(backends, idxs, j, r - spec_prefix_weight(backends, idxs, j)) == idxs[k],
    decreases k - j,
{
    if j == k {
    } else {
        lemma_psum_monotone(backends, idxs, j + 1, k);
        lemma_pick_interval_from(backends, idxs, j + 1, k, r);
    }
}

/// Every draw below the total lands in some weight interval.
proof fn lemma_interval_exists(backends: Seq<Backend>, idxs: Seq<usize>, r: int, n: int)
    requires
        0 <= n <= idxs.len(),
        0 <= r < spec_prefix_weight(backends, idxs, n),
    ensures
        exists|k: int|
            0 <= k < n && #[trigger] spec_prefix_weight(backends, idxs, k) <= r
                < spec_prefix_weight(backends, idxs, k + 1),
    decreases n,
{
    if n > 0 {
        if r < spec_prefix_weight(backends, idxs, n - 1) {
            lemma_interval_exists(backends, idxs, r, n - 1);
        } else {
            assert(spec_prefix_weight(backends, idxs, n - 1) <= r < spec_prefix_weight(
                backends,
                idxs,
                n,
            ));
        }
    }
}

impl AppState {
    /// Well-formedness, established from a validated configuration:
    /// a non-empty pool of distinctly and non-emptily labelled backends
    /// with positive weights and a bounded total, the label-to-url list
    /// mirroring the pool, method routes aimed at pool labels, and at
    /// least one admission key.
    pub open spec fn wf(&self) -> bool {
        &&& self.backends@.len() > 0
        &&& self.backends@.len() <= usize::MAX
        &&& labels_unique(self.backends@)
        &&& forall|i: int|
            0 <= i < self.backends@.len() ==> self.backends@[i].weight >= 1
                && self.backends@[i].label@.len() > 0
        &&& weight_total(self.backends@) <= u32::MAX
        &&& self.label_to_url@.len() == self.backends@.len()
        &&& forall|i: int|
            0 <= i < self.backends@.len() ==> self.label_to_url@[i].0@
                == self.backends@[i].label@ && self.label_to_url@[i].1@
                == self.backends@[i].url@
        &&& forall|i: int|
            0 <= i < self.method_routes@.len() ==> pool_has_label(
                self.backends@,
                self.method_routes@[i].1@,
            )
        &&& self.api_keys@.len() > 0
    }

    /// The url paired with a label, if the label is in the pool.
    pub open spec fn spec_url_of(&self, label: Seq<char>) -> Option<Seq<char>> {
        match spec_assoc(self.label_to_url@, label) {
            Some(pair) => Some(pair.1@),
            None => None,
        }
    }

    /// Whether a request for method `m` is pinned to a healthy override
    /// backend: the route exists, its label resolves to a url, and the
    /// health store holds a record for it that says healthy.
    pub open spec fn spec_override_taken(&self, h: HealthState, m: Seq<char>) -> bool {
        match spec_assoc(self.method_routes@, m) {
            Some(route) => spec_assoc(self.label_to_url@, route.1@) is Some && (
            match h.spec_record_of(route.1@) {
                Some(rec) => rec.healthy,
                None => false,
            }),
            None => false,
        }
    }

    /// Same, lifted over the optional method tag.
    pub open spec fn spec_override_taken_opt(&self, h: HealthState, m: Option<Seq<char>>) -> bool {
        match m {
            Some(mm) => self.spec_override_taken(h, mm),
            None => false,
        }
    }

    /// The healthy indices of the whole pool.
    pub open spec fn spec_healthy(&self, h: HealthState) -> Seq<usize> {
        spec_healthy_idxs(self.backends@, h, self.backends@.len() as int)
    }

    /// Total weight of the healthy pool.
    pub open spec fn spec_healthy_weight(&self, h: HealthState) -> int {
        spec_prefix_weight(self.backends@, self.spec_healthy(h), self.spec_healthy(h).len() as int)
    }

    /// First match in an association list, by index.
    fn assoc_find(pairs: &Vec<(String, String)>, key: &String) -> (r: Option<usize>)
        ensures
            match r {
                Some(i) => 0 <= i < pairs@.len() && pairs@[i as int].0@ == key@ && spec_assoc(
                    pairs@,
                    key@,
                ) == Some(pairs@[i as int]),
                None => spec_assoc(pairs@, key@) is None,
            },
    {
        let n = pairs.len();
        let mut i: usize = 0;
        while i < n
            invariant
                n == pairs@.len(),
                i <= n,
                forall|k: int| 0 <= k < i ==> pairs@[k].0@ != key@,
            decreases n - i,
        {
            if pairs[i].0 == *key {
                proof {
                    lemma_assoc_at(pairs@, key@, i as int);
                }
                return Some(i);
            }
            i = i + 1;
        }
        proof {
            lemma_assoc_none(pairs@, key@);
        }
        None
    }

    /// Collects the indices of the healthy backends, in pool order.
    fn healthy_indices(&self, h: &HealthState) -> (r: Vec<usize>)
        requires
            h.wf(),
        ensures
            r@ == self.spec_healthy(*h),
    {
        let n = self.backends.len();
        let mut idxs: Vec<usize> = Vec::new();
        let mut i: usize = 0;
        while i < n
            invariant
                n == self.backends@.len(),
                i <= n,
                h.wf(),
                idxs@ == spec_healthy_idxs(self.backends@, *h, i as int),
            decreases n - i,
        {
            let healthy = match h.get_status(&self.backends[i].label) {
                Some(rec) => rec.healthy,
                None => true,
            };
            if healthy {
                idxs.push(i);
            }
            i = i + 1;
        }
        idxs
    }

    /// Sums the weights of the listed backends.
    fn weight_of_indices(&self, idxs: &Vec<usize>) -> (w: u32)
        requires
            forall|k: int| 0 <= k < idxs@.len() ==> idxs@[k] < self.backends@.len(),
            spec_prefix_weight(self.backends@, idxs@, idxs@.len() as int) <= u32::MAX,
        ensures
            w == spec_prefix_weight(self.backends@, idxs@, idxs@.len() as int),
    {
        let n = idxs.len();
        let mut total: u32 = 0;
        let mut j: usize = 0;
        while j < n
            invariant
                n == idxs@.len(),
                j <= n,
                forall|k: int| 0 <= k < n ==> idxs@[k] < self.backends@.len(),
                spec_prefix_weight(self.backends@, idxs@, n as int) <= u32::MAX,
                total == spec_prefix_weight(self.backends@, idxs@, j as int),
            decreases n - j,
        {
            proof {
                lemma_psum_monotone(self.backends@, idxs@, j + 1, n as int);
            }
            total = total + self.backends[idxs[j]].weight;
            j = j + 1;
        }
        total
    }

    /// Walks the listed backends subtracting weights from `draw` and
    /// returns the index of the backend whose interval the draw hit.
    fn pick_weighted(&self, idxs: &Vec<usize>, draw: u32) -> (sel: usize)
        requires
            idxs@.len() > 0,
            forall|k: int| 0 <= k < idxs@.len() ==> idxs@[k] < self.backends@.len(),
            draw < spec_prefix_weight(self.backends@, idxs@, idxs@.len() as int),
        ensures
            sel == spec_pick(self.backends@, idxs@, draw as int),
            sel < self.backends@.len(),
            exists|k: int| 0 <= k < idxs@.len() && idxs@[k] == sel,
    {
        let n = idxs.len();
        let mut rest: u32 = draw;
        let mut j: usize = 0;
        while j < n
            invariant
                n == idxs@.len(),
                j <= n,
                forall|k: int| 0 <= k < n ==> idxs@[k] < self.backends@.len(),
                draw < spec_prefix_weight(self.backends@, idxs@, n as int),
                spec_prefix_weight(self.backends@, idxs@, j as int) <= draw,
                rest == draw - spec_prefix_weight(self.backends@, idxs@, j as int),
                spec_pick_from(self.backends@, idxs@, j as int, rest as int) == spec_pick(
                    self.backends@,
                    idxs@,
                    draw as int,
                ),
            decreases n - j,
        {
            let w = self.backends[idxs[j]].weight;
            if rest < w {
                return idxs[j];
            }
            rest = rest - w;
            j = j + 1;
        }
        proof {
            assert(false);
        }
        idxs[0]
    }
}

/// View of an optional method tag.
pub open spec fn view_opt(m: Option<&String>) -> Option<Seq<char>> {
    match m {
        Some(s) => Some(s@),
        None => None,
    }
}

impl AppState {
    /// Builds the routing state and the health store from a validated
    /// configuration.
    pub fn from_config(c: Config) -> (r: (AppState, HealthState))
        requires
            crate::config::spec_config_valid(c),
        ensures
            r.0.wf(),
            r.1.wf(),
            r.0.backends@ == c.backends@,
            r.0.api_keys@ == c.api_keys@,
            r.0.method_routes@ == c.method_routes@,
            r.0.proxy_timeout_secs == c.proxy.timeout_secs,
            r.1.labels@.len() == c.backends@.len(),
            forall|i: int|
                0 <= i < c.backends@.len() ==> r.1.labels@[i]@ == c.backends@[i].label@,
            forall|i: int|
                0 <= i < r.1.records@.len() ==> r.1.records@[i]
                    == crate::health::spec_initial_record(),
            r.1.failure_threshold == c.health_check.consecutive_failures_threshold,
            r.1.success_threshold == c.health_check.consecutive_successes_threshold,
    {
        let n = c.backends.len();
        let mut label_to_url: Vec<(String, String)> = Vec::new();
        let mut labels: Vec<String> = Vec::new();
        let mut i: usize = 0;
        while i < n
            invariant
                n == c.backends@.len(),
                i <= n,
                label_to_url@.len() == i,
                labels@.len() == i,
                forall|k: int|
                    0 <= k < i ==> (#[trigger] label_to_url@[k]).0@ == c.backends@[k].label@
                        && label_to_url@[k].1@ == c.backends@[k].url@,
                forall|k: int| 0 <= k < i ==> (#[trigger] labels@[k])@ == c.backends@[k].label@,
            decreases n - i,
        {
            label_to_url.push((c.backends[i].label.clone(), c.backends[i].url.clone()));
            labels.push(c.backends[i].label.clone());
            i = i + 1;
        }
        let health = HealthState::new(
            labels,
            c.health_check.consecutive_failures_threshold,
            c.health_check.consecutive_successes_threshold,
        );
        let state = AppState {
            backends: c.backends,
            api_keys: c.api_keys,
            method_routes: c.method_routes,
            label_to_url,
            proxy_timeout_secs: c.proxy.timeout_secs,
        };
        (state, health)
    }

    /// The weighted random part of selection: `None` exactly when no
    /// backend is healthy, otherwise the index the draw picks.
    fn select_index_with(&self, h: &HealthState, draw: u32) -> (r: Option<usize>)
        requires
            self.wf(),
            h.wf(),
            self.spec_healthy_weight(*h) > 0 ==> draw < self.spec_healthy_weight(*h),
        ensures
            r is None <==> self.spec_healthy(*h).len() == 0,
            r matches Some(sel) ==> {
                &&& sel == spec_pick(self.backends@, self.spec_healthy(*h), draw as int)
                &&& sel < self.backends@.len()
                &&& is_healthy_label(*h, self.backends@[sel as int].label@)
            },
    {
        let idxs = self.healthy_indices(h);
        proof {
            lemma_healthy_idxs_shape(self.backends@, *h, self.backends@.len() as int);
        }
        if idxs.len() == 0 {
            return None;
        }
        proof {
            lemma_healthy_weight_le_total(self.backends@, *h, self.backends@.len() as int);
            assert(self.backends@.subrange(0, self.backends@.len() as int) =~= self.backends@);
            assert(spec_prefix_weight(self.backends@, idxs@, 0) == 0);
            assert(spec_prefix_weight(self.backends@, idxs@, 1) == self.backends@[idxs@[0] as int].weight);
            lemma_psum_monotone(self.backends@, idxs@, 1, idxs@.len() as int);
        }
        let total = self.weight_of_indices(&idxs);
        let sel = self.pick_weighted(&idxs, draw);
        proof {
            let k = choose|k: int| 0 <= k < idxs@.len() && idxs@[k] == sel;
            assert(is_healthy_label(*h, self.backends@[idxs@[k] as int].label@));
        }
        Some(sel)
    }

    /// The url the pool pairs with the label of backend `i` is exactly
    /// that backend's url.
    proof fn lemma_url_of_index(&self, i: int)
        requires
            self.wf(),
            0 <= i < self.backends@.len(),
        ensures
            spec_assoc(self.label_to_url@, self.backends@[i].label@) == Some(
                self.label_to_url@[i],
            ),
            self.spec_url_of(self.backends@[i].label@) == Some(self.backends@[i].url@),
    {
        assert forall|k: int| 0 <= k < i implies self.label_to_url@[k].0@
            != self.backends@[i].label@ by {
            assert(self.backends@[k].label@ != self.backends@[i].label@);
        }
        lemma_assoc_at(self.label_to_url@, self.backends@[i].label@, i);
    }

    /// Selects a backend for an optional method tag and a given draw.
    ///
    /// A healthy override wins; otherwise the draw walks the healthy
    /// pool by weight; `None` comes back exactly when no override is
    /// taken and nothing is healthy.  Whatever comes back is healthy in
    /// `h` and paired with the url configured for its label.
    pub fn select_backend_with(
        &self,
        h: &HealthState,
        rpc_method: Option<&String>,
        draw: u32,
    ) -> (r: Option<(String, String)>)
        requires
            self.wf(),
            h.wf(),
            self.spec_healthy_weight(*h) > 0 ==> draw < self.spec_healthy_weight(*h),
        ensures
            r is None <==> !self.spec_override_taken_opt(*h, view_opt(rpc_method))
                && self.spec_healthy(*h).len() == 0,
            self.spec_override_taken_opt(*h, view_opt(rpc_method)) ==> (r matches Some(p)
                && p.0@ == spec_assoc(
                self.method_routes@,
                view_opt(rpc_method).unwrap(),
            ).unwrap().1@),
            !self.spec_override_taken_opt(*h, view_opt(rpc_method)) && self.spec_healthy(
                *h,
            ).len() > 0 ==> (r matches Some(p) && {
                let sel = spec_pick(self.backends@, self.spec_healthy(*h), draw as int) as int;
                p.0@ == self.backends@[sel].label@ && p.1@ == self.backends@[sel].url@
            }),
            r matches Some(p) ==> is_healthy_label(*h, p.0@) && self.spec_url_of(p.0@) == Some(
                p.1@,
            ),
    {
        if let Some(m) = rpc_method {
            if let Some(ri) = Self::assoc_find(&self.method_routes, m) {
                let label = &self.method_routes[ri].1;
                if let Some(ui) = Self::assoc_find(&self.label_to_url, label) {
                    if let Some(rec) = h.get_status(label) {
                        if rec.healthy {
                            return Some(
                                (self.label_to_url[ui].0.clone(), self.label_to_url[ui].1.clone()),
                            );
                        }
                    }
                }
            }
        }
        match self.select_index_with(h, draw) {
            Some(sel) => {
                proof {
                    self.lemma_url_of_index(sel as int);
                }
                Some((self.backends[sel].label.clone(), self.backends[sel].url.clone()))
            },
            None => None,
        }
    }

    /// Selects a backend for an optional method tag, drawing at random.
    ///
    /// Same contract as `select_backend_with`, except that the draw is
    /// the random one made inside, so the weighted branch promises only
    /// health and url consistency, not which healthy backend came out.
    pub fn select_backend(&self, h: &HealthState, rpc_method: Option<&String>) -> (r: Option<
        (String, String),
    >)
        requires
            self.wf(),
            h.wf(),
        ensures
            r is None <==> !self.spec_override_taken_opt(*h, view_opt(rpc_method))
                && self.spec_healthy(*h).len() == 0,
            self.spec_override_taken_opt(*h, view_opt(rpc_method)) ==> (r matches Some(p)
                && p.0@ == spec_assoc(
                self.method_routes@,
                view_opt(rpc_method).unwrap(),
            ).unwrap().1@),
            r matches Some(p) ==> is_healthy_label(*h, p.0@) && self.spec_url_of(p.0@) == Some(
                p.1@,
            ),
    {
        let idxs = self.healthy_indices(h);
        let draw: u32 = if idxs.len() > 0 {
            proof {
                lemma_healthy_idxs_shape(self.backends@, *h, self.backends@.len() as int);
                lemma_healthy_weight_le_total(self.backends@, *h, self.backends@.len() as int);
                assert(self.backends@.subrange(0, self.backends@.len() as int)
                    =~= self.backends@);
                assert(spec_prefix_weight(self.backends@, idxs@, 0) == 0);
            assert(spec_prefix_weight(self.backends@, idxs@, 1) == self.backends@[idxs@[0] as int].weight);
                lemma_psum_monotone(self.backends@, idxs@, 1, idxs@.len() as int);
            }
            let total = self.weight_of_indices(&idxs);
            random_below(total)
        } else {
            0
        };
        self.select_backend_with(h, rpc_method, draw)
    }
}

/// Under a uniform draw over the healthy pool's total weight, the
/// number of draws that select the healthy backend at position `k` is
/// exactly that backend's weight: selection frequency is proportional
/// to weight.
pub proof fn lemma_weighted_selection_share(state: &AppState, h: HealthState, k: int)
    requires
        state.wf(),
        h.wf(),
        0 <= k < state.spec_healthy(h).len(),
    ensures
        ({
            let idxs = state.spec_healthy(h);
            let total = state.spec_healthy_weight(h);
            let hits = Set::new(
                |r: int| 0 <= r < total && spec_pick(state.backends@, idxs, r) == idxs[k],
            );
            hits.finite() && hits.len() == state.backends@[idxs[k] as int].weight
        }),
{
    let backends = state.backends@;
    let idxs = state.spec_healthy(h);
    let total = state.spec_healthy_weight(h);
    let hits = Set::new(|r: int| 0 <= r < total && spec_pick(backends, idxs, r) == idxs[k]);
    let lo = spec_prefix_weight(backends, idxs, k);
    let hi = spec_prefix_weight(backends, idxs, k + 1);
    lemma_healthy_idxs_shape(backends, h, backends.len() as int);
    lemma_psum_monotone(backends, idxs, 0, k);
    lemma_psum_monotone(backends, idxs, k + 1, idxs.len() as int);
    assert forall|r: int| hits.contains(r) implies vstd::set_lib::set_int_range(
        lo,
        hi,
    ).contains(r) by {
        lemma_interval_exists(backends, idxs, r, idxs.len() as int);
        let k2 = choose|k2: int|
            0 <= k2 < idxs.len() && #[trigger] spec_prefix_weight(backends, idxs, k2) <= r
                < spec_prefix_weight(backends, idxs, k2 + 1);
        lemma_pick_interval_from(backends, idxs, 0, k2, r);
        assert(idxs[k2] == idxs[k]);
        if k2 < k {
            assert(idxs[k2] < idxs[k]);
        } else if k < k2 {
            assert(idxs[k] < idxs[k2]);
        }
        assert(k2 == k);
    }
    assert forall|r: int| vstd::set_lib::set_int_range(lo, hi).contains(r) implies hits.contains(
        r,
    ) by {
        lemma_pick_interval_from(backends, idxs, 0, k, r);
    }
    assert(hits =~= vstd::set_lib::set_int_range(lo, hi));
    vstd::set_lib::lemma_int_range(lo, hi);
}

/// `spec_assoc` finds the first matching pair.
proof fn lemma_assoc_at(pairs: Seq<(String, String)>, key: Seq<char>, i: int)
    requires
        0 <= i < pairs.len(),
        forall|k: int| 0 <= k < i ==> pairs[k].0@ != key,
        pairs[i].0@ == key,
    ensures
        spec_assoc(pairs, key) == Some(pairs[i]),
    decreases i,
{
    if i > 0 {
        lemma_assoc_at(pairs.drop_first(), key, i - 1);
    }
}

/// `spec_assoc` finds nothing when no key matches.
proof fn lemma_assoc_none(pairs: Seq<(String, String)>, key: Seq<char>)
    requires
        forall|k: int| 0 <= k < pairs.len() ==> pairs[k].0@ != key,
    ensures
        spec_assoc(pairs, key) is None,
    decreases pairs.len(),
{
    if pairs.len() > 0 {
        lemma_assoc_none(pairs.drop_first(), key);
    }
}

/// Relies on rand's `Rng::gen_range` over `0..n`: a uniform draw
/// strictly below `n` (the range is non-empty, so the call returns).
#[verifier::external_body]
fn random_below(n: u32) -> (r: u32)
    requires
        n >= 1,
    ensures
        r < n,
{
    rand::thread_rng().gen_range(0..n)
}

} // verus!
