//! The request path: admission check, backend selection, rewriting of
//! the outbound request target, and the error replies of the proxy.

use vstd::prelude::*;
use vstd::slice::slice_to_vec;
use vstd::string::{StrSliceExecFns, StringExecFns};
use vstd::utf8::encode_utf8;
use crate::digits::{spec_decimal, u64_to_string};
use crate::dispatch::{AppState, is_healthy_label, view_opt};
use crate::health::HealthState;

verus! {

/// The JSON-RPC method tag a request carries once the body has been
/// inspected.
#[derive(Clone)]
pub struct RpcMethod(pub String);

/// The label of the backend a response came from, for logging.
#[derive(Clone)]
pub struct SelectedBackend(pub String);

/// The query parameters the proxy cares about.
pub struct Params {
    pub api_key: Option<String>,
}

/// The literal query fragment the proxy strips: `?api-key=`.
pub open spec fn api_key_marker() -> Seq<u8> {
    seq![63u8, 97u8, 112u8, 105u8, 45u8, 107u8, 101u8, 121u8, 61u8]
}

/// The marker occurs in `s` at position `i`.
pub open spec fn occurs_at(s: Seq<u8>, i: int) -> bool {
    0 <= i && i + api_key_marker().len() <= s.len() && s.subrange(
        i,
        i + api_key_marker().len(),
    ) == api_key_marker()
}

/// The marker occurs somewhere in `s`.
pub open spec fn has_marker(s: Seq<u8>) -> bool {
    exists|i: int| occurs_at(s, i)
}

/// `i` is the leftmost occurrence of the marker in `s`.
pub open spec fn is_first_marker(s: Seq<u8>, i: int) -> bool {
    occurs_at(s, i) && forall|j: int| 0 <= j < i ==> !occurs_at(s, j)
}

/// The path-and-query with everything from the first `?api-key=` on cut
/// off; unchanged when the marker does not occur.
pub open spec fn spec_strip(s: Seq<u8>) -> Seq<u8> {
    if exists|i: int| is_first_marker(s, i) {
        s.subrange(0, choose|i: int| is_first_marker(s, i))
    } else {
        s
    }
}

/// The url with every trailing `/` removed.
pub open spec fn spec_trim_slashes(s: Seq<u8>) -> Seq<u8>
    decreases s.len(),
{
    if s.len() > 0 && s.last() == 47u8 {
        spec_trim_slashes(s.drop_last())
    } else {
        s
    }
}

/// The outbound request target: the bare backend url for root requests,
/// otherwise the backend url joined with the cleaned path without
/// doubling the slash between them.
pub open spec fn spec_build_uri(url: Seq<u8>, cleaned: Seq<u8>) -> Seq<u8> {
    if cleaned == seq![47u8] {
        spec_trim_slashes(url)
    } else if url.len() > 0 && url.last() == 47u8 && cleaned.len() > 0 && cleaned.first()
        == 47u8 {
        url + cleaned.drop_first()
    } else {
        url + cleaned
    }
}

/// The marker bytes as a vector.
fn marker_bytes() -> (v: Vec<u8>)
    ensures
        v@ == api_key_marker(),
{
    let mut v: Vec<u8> = Vec::new();
    v.push(63u8);
    v.push(97u8);
    v.push(112u8);
    v.push(105u8);
    v.push(45u8);
    v.push(107u8);
    v.push(101u8);
    v.push(121u8);
    v.push(61u8);
    proof {
        assert(v@ =~= api_key_marker());
    }
    v
}

/// Finds the leftmost occurrence of `?api-key=`.
fn find_marker(s: &Vec<u8>) -> (r: Option<usize>)
    ensures
        match r {
            Some(i) => is_first_marker(s@, i as int),
            None => !has_marker(s@),
        },
{
    let mk = marker_bytes();
    let n = s.len();
    if n < 9 {
        proof {
            assert forall|i: int| !occurs_at(s@, i) by {
                assert(api_key_marker().len() == 9);
            }
        }
        return None;
    }
    let mut i: usize = 0;
    while i <= n - 9
        invariant
            n == s@.len(),
            9 <= n,
            mk@ == api_key_marker(),
            i <= n - 9 + 1,
            forall|j: int| 0 <= j < i ==> !occurs_at(s@, j),
        decreases n - i,
    {
        let mut j: usize = 0;
        while j < 9 && s[i + j] == mk[j]
            invariant
                n == s@.len(),
                mk@ == api_key_marker(),
                i + 9 <= n,
                j <= 9,
                forall|t: int| 0 <= t < j ==> s@[i + t] == api_key_marker()[t],
            decreases 9 - j,
        {
            j = j + 1;
        }
        if j == 9 {
            proof {
                assert(s@.subrange(i as int, i + 9) =~= api_key_marker());
                assert(occurs_at(s@, i as int));
            }
            return Some(i);
        }
        proof {
            assert(!occurs_at(s@, i as int)) by {
                if occurs_at(s@, i as int) {
                    assert(s@.subrange(i as int, i + 9)[j as int] == api_key_marker()[j as int]);
                }
            }
        }
        i = i + 1;
    }
    proof {
        assert forall|j: int| !occurs_at(s@, j) by {
            assert(api_key_marker().len() == 9);
        }
    }
    None
}

/// A leftmost occurrence is unique.
proof fn lemma_first_marker_unique(s: Seq<u8>, a: int, b: int)
    requires
        is_first_marker(s, a),
        is_first_marker(s, b),
    ensures
        a == b,
{
    if a < b {
        assert(!occurs_at(s, a));
    } else if b < a {
        assert(!occurs_at(s, b));
    }
}

/// An occurrence inside a slice of `s` is an occurrence in `s`.
proof fn lemma_occurs_in_subrange(s: Seq<u8>, lo: int, hi: int, i: int)
    requires
        0 <= lo <= hi <= s.len(),
        occurs_at(s.subrange(lo, hi), i),
    ensures
        occurs_at(s, lo + i),
{
    let w = api_key_marker().len() as int;
    assert(s.subrange(lo, hi).subrange(i, i + w) =~= s.subrange(lo + i, lo + i + w));
}

/// Wherever the marker occurs, it occurs a leftmost time.
proof fn lemma_first_marker_exists(s: Seq<u8>, i: int)
    requires
        occurs_at(s, i),
    ensures
        exists|f: int| is_first_marker(s, f),
    decreases i,
{
    if forall|j: int| 0 <= j < i ==> !occurs_at(s, j) {
        assert(is_first_marker(s, i));
    } else {
        let j = choose|j: int| 0 <= j < i && occurs_at(s, j);
        lemma_first_marker_exists(s, j);
    }
}

/// What stripping leaves: a marker-free prefix of the input.
pub proof fn lemma_strip_properties(s: Seq<u8>)
    ensures
        !has_marker(spec_strip(s)),
        spec_strip(s) == s.subrange(0, spec_strip(s).len() as int),
        spec_strip(s).len() <= s.len(),
{
    if exists|i: int| is_first_marker(s, i) {
        let f = choose|i: int| is_first_marker(s, i);
        let out = s.subrange(0, f);
        assert forall|j: int| !occurs_at(out, j) by {
            if occurs_at(out, j) {
                lemma_occurs_in_subrange(s, 0, f, j);
                assert(api_key_marker().len() == 9);
                assert(!occurs_at(s, j));
            }
        }
        assert(out == s.subrange(0, out.len() as int));
    } else {
        if has_marker(s) {
            let i = choose|i: int| occurs_at(s, i);
            lemma_first_marker_exists(s, i);
        }
        assert(spec_strip(s) == s);
        assert(s == s.subrange(0, s.len() as int)) by {
            assert(s =~= s.subrange(0, s.len() as int));
        }
    }
}

/// Removes everything from the first `?api-key=` on.
pub fn strip_api_key(path: &Vec<u8>) -> (r: Vec<u8>)
    ensures
        r@ == spec_strip(path@),
{
    match find_marker(path) {
        Some(pos) => {
            let mut out: Vec<u8> = Vec::new();
            let mut j: usize = 0;
            while j < pos
                invariant
                    pos <= path@.len(),
                    j <= pos,
                    out@ == path@.subrange(0, j as int),
                decreases pos - j,
            {
                out.push(path[j]);
                proof {
                    assert(out@ =~= path@.subrange(0, j + 1));
                }
                j = j + 1;
            }
            proof {
                let f = choose|i: int| is_first_marker(path@, i);
                lemma_first_marker_unique(path@, f, pos as int);
            }
            out
        },
        None => {
            proof {
                if exists|i: int| is_first_marker(path@, i) {
                    let f = choose|i: int| is_first_marker(path@, i);
                    assert(occurs_at(path@, f));
                }
            }
            slice_to_vec(path.as_slice())
        },
    }
}

/// Joins the backend url and the cleaned path as the forwarder does.
pub fn build_upstream_uri(url: &[u8], cleaned: &Vec<u8>) -> (r: Vec<u8>)
    ensures
        r@ == spec_build_uri(url@, cleaned@),
{
    if cleaned.len() == 1 && cleaned[0] == 47u8 {
        proof {
            assert(cleaned@ =~= seq![47u8]);
        }
        let mut out = slice_to_vec(url);
        while out.len() > 0 && out[out.len() - 1] == 47u8
            invariant
                spec_trim_slashes(out@) == spec_trim_slashes(url@),
            decreases out@.len(),
        {
            let ghost pre = out@;
            out.pop();
            proof {
                assert(out@ =~= pre.drop_last());
            }
        }
        proof {
            assert(spec_trim_slashes(out@) == out@);
        }
        out
    } else {
        proof {
            assert(cleaned@ != seq![47u8]) by {
                if cleaned@ =~= seq![47u8] {
                    assert(cleaned@.len() == 1 && cleaned@[0] == 47u8);
                }
            }
        }
        let skip_first = url.len() > 0 && url[url.len() - 1] == 47u8 && cleaned.len() > 0
            && cleaned[0] == 47u8;
        let mut out = slice_to_vec(url);
        let start: usize = if skip_first {
            1
        } else {
            0
        };
        let mut j: usize = start;
        while j < cleaned.len()
            invariant
                start <= j <= cleaned@.len(),
                out@ == url@ + cleaned@.subrange(start as int, j as int),
            decreases cleaned@.len() - j,
        {
            out.push(cleaned[j]);
            proof {
                assert(out@ =~= url@ + cleaned@.subrange(start as int, j + 1));
            }
            j = j + 1;
        }
        proof {
            if skip_first {
                assert(cleaned@.subrange(1, cleaned@.len() as int) =~= cleaned@.drop_first());
            } else {
                assert(cleaned@.subrange(0, cleaned@.len() as int) =~= cleaned@);
            }
            assert(out@ == spec_build_uri(url@, cleaned@));
        }
        out
    }
}

/// The marker contains no `/`.
proof fn lemma_marker_has_no_slash()
    ensures
        forall|t: int| 0 <= t < api_key_marker().len() ==> api_key_marker()[t] != 47u8,
{
    assert(api_key_marker().len() == 9);
    assert(api_key_marker()[0] == 63u8);
    assert(api_key_marker()[1] == 97u8);
    assert(api_key_marker()[2] == 112u8);
    assert(api_key_marker()[3] == 105u8);
    assert(api_key_marker()[4] == 45u8);
    assert(api_key_marker()[5] == 107u8);
    assert(api_key_marker()[6] == 101u8);
    assert(api_key_marker()[7] == 121u8);
    assert(api_key_marker()[8] == 61u8);
}

/// Trimming trailing slashes leaves a prefix.
proof fn lemma_trim_is_prefix(s: Seq<u8>)
    ensures
        spec_trim_slashes(s).len() <= s.len(),
        spec_trim_slashes(s) == s.subrange(0, spec_trim_slashes(s).len() as int),
    decreases s.len(),
{
    if s.len() > 0 && s.last() == 47u8 {
        lemma_trim_is_prefix(s.drop_last());
        let t = spec_trim_slashes(s);
        assert(s.drop_last().subrange(0, t.len() as int) =~= s.subrange(0, t.len() as int));
    } else {
        assert(s =~= s.subrange(0, s.len() as int));
    }
}

/// Concatenation keeps both parts marker-free when the boundary is
/// guarded by a `/` on either side.
proof fn lemma_concat_no_marker(a: Seq<u8>, b: Seq<u8>)
    requires
        !has_marker(a),
        !has_marker(b),
        b.len() > 0 ==> ((a.len() > 0 && a.last() == 47u8) || b.first() == 47u8),
    ensures
        !has_marker(a + b),
{
    let w = api_key_marker().len() as int;
    lemma_marker_has_no_slash();
    assert forall|i: int| !occurs_at(a + b, i) by {
        if occurs_at(a + b, i) {
            if i + w <= a.len() {
                assert((a + b).subrange(i, i + w) =~= a.subrange(i, i + w));
                assert(occurs_at(a, i));
            } else if i >= a.len() {
                assert((a + b).subrange(i, i + w) =~= b.subrange(
                    i - a.len(),
                    i - a.len() + w,
                ));
                assert(occurs_at(b, i - a.len()));
            } else {
                // the window spans the boundary, so it contains the
                // guarding slash
                assert(b.len() > 0);
                if a.len() > 0 && a.last() == 47u8 {
                    let t = a.len() - 1 - i;
                    assert((a + b).subrange(i, i + w)[t] == (a + b)[a.len() - 1]);
                    assert(api_key_marker()[t] == 47u8);
                } else {
                    let t = a.len() - i;
                    assert((a + b).subrange(i, i + w)[t] == (a + b)[a.len() as int]);
                    assert(api_key_marker()[t] == 47u8);
                }
            }
        }
    }
}

/// The outbound request target never carries the client's `?api-key=`
/// fragment: stripping is not undone by the url join, for any backend
/// url that is itself free of the marker and any origin-form path.
pub proof fn lemma_outbound_uri_has_no_api_key(url: Seq<u8>, path: Seq<u8>)
    requires
        !has_marker(url),
        path.len() > 0 ==> path.first() == 47u8,
    ensures
        !has_marker(spec_build_uri(url, spec_strip(path))),
{
    lemma_strip_properties(path);
    let cleaned = spec_strip(path);
    let w = api_key_marker().len() as int;
    if cleaned == seq![47u8] {
        lemma_trim_is_prefix(url);
        let t = spec_trim_slashes(url);
        assert forall|i: int| !occurs_at(t, i) by {
            if occurs_at(t, i) {
                lemma_occurs_in_subrange(url, 0, t.len() as int, i);
            }
        }
    } else if url.len() > 0 && url.last() == 47u8 && cleaned.len() > 0 && cleaned.first()
        == 47u8 {
        let b = cleaned.drop_first();
        assert forall|i: int| !occurs_at(b, i) by {
            if occurs_at(b, i) {
                assert(b =~= cleaned.subrange(1, cleaned.len() as int));
                lemma_occurs_in_subrange(cleaned, 1, cleaned.len() as int, i);
            }
        }
        lemma_concat_no_marker(url, b);
    } else {
        if cleaned.len() > 0 {
            assert(cleaned[0] == path[0]);
        }
        lemma_concat_no_marker(url, cleaned);
    }
}

/// Whether some configured key reads `key`.
pub open spec fn spec_key_known(keys: Seq<String>, key: Seq<char>) -> bool {
    exists|i: int| 0 <= i < keys.len() && keys[i]@ == key
}

/// Whether the request carries a configured api key.
pub open spec fn spec_authorized(keys: Seq<String>, api_key: Option<String>) -> bool {
    match api_key {
        Some(k) => spec_key_known(keys, k@),
        None => false,
    }
}

/// Membership test against the configured key set.
fn key_is_valid(keys: &Vec<String>, key: &String) -> (r: bool)
    ensures
        r == spec_key_known(keys@, key@),
{
    let n = keys.len();
    let mut i: usize = 0;
    while i < n
        invariant
            n == keys@.len(),
            i <= n,
            forall|k: int| 0 <= k < i ==> keys@[k]@ != key@,
        decreases n - i,
    {
        if keys[i] == *key {
            return true;
        }
        i = i + 1;
    }
    false
}

/// What the forwarder decides to do with a request, before any network
/// traffic happens.
pub enum ProxyPlan {
    Unauthorized,
    NoHealthyBackends,
    Forward { label: String, uri: Vec<u8> },
}

/// Decides a request: admission by api key, then backend selection,
/// then the outbound target rewrite with the `?api-key=` fragment
/// stripped.
pub fn plan_proxy(
    state: &AppState,
    h: &HealthState,
    params: &Params,
    rpc_method: Option<&String>,
    path_and_query: &Vec<u8>,
) -> (p: ProxyPlan)
    requires
        state.wf(),
        h.wf(),
    ensures
        p is Unauthorized <==> !spec_authorized(state.api_keys@, params.api_key),
        p is NoHealthyBackends <==> spec_authorized(state.api_keys@, params.api_key)
            && !state.spec_override_taken_opt(*h, view_opt(rpc_method)) && state.spec_healthy(
            *h,
        ).len() == 0,
        spec_authorized(state.api_keys@, params.api_key) && state.spec_override_taken_opt(
            *h,
            view_opt(rpc_method),
        ) ==> (p matches ProxyPlan::Forward { label, uri } && label@ == crate::dispatch::spec_assoc(
            state.method_routes@,
            view_opt(rpc_method).unwrap(),
        ).unwrap().1@),
        p matches ProxyPlan::Forward { label, uri } ==> {
            &&& spec_authorized(state.api_keys@, params.api_key)
            &&& is_healthy_label(*h, label@)
            &&& state.spec_url_of(label@) is Some
            &&& uri@ == spec_build_uri(
                encode_utf8(state.spec_url_of(label@).unwrap()),
                spec_strip(path_and_query@),
            )
        },
{
    let authorized = match &params.api_key {
        Some(k) => key_is_valid(&state.api_keys, k),
        None => false,
    };
    if !authorized {
        return ProxyPlan::Unauthorized;
    }
    match state.select_backend(h, rpc_method) {
        None => ProxyPlan::NoHealthyBackends,
        Some((label, url)) => {
            let cleaned = strip_api_key(path_and_query);
            let url_bytes = url.as_str().as_bytes_vec();
            let uri = build_upstream_uri(url_bytes.as_slice(), &cleaned);
            ProxyPlan::Forward { label, uri }
        },
    }
}

/// The value the outbound `Host` header gets: the host, with the port
/// appended after a colon when one is explicit.
pub fn host_header_value(host: &String, port: Option<u16>) -> (r: String)
    ensures
        match port {
            Some(p) => r@ == host@ + ":"@ + spec_decimal(p as nat),
            None => r@ == host@,
        },
{
    match port {
        Some(p) => {
            let mut r = host.clone();
            r.append(":");
            let digits = u64_to_string(p as u64);
            r.append(digits.as_str());
            r
        },
        None => host.clone(),
    }
}

/// A status line and body the proxy answers with itself.
pub struct HttpReply {
    pub status: u16,
    pub body: String,
}

/// The reply to a request without a configured api key.
pub fn unauthorized_reply() -> (r: HttpReply)
    ensures
        r.status == 401,
        r.body@ == "Unauthorized"@,
{
    HttpReply { status: 401, body: String::from_str("Unauthorized") }
}

/// The reply when no backend can take the request.
pub fn no_backends_reply() -> (r: HttpReply)
    ensures
        r.status == 503,
        r.body@ == "No healthy backends available"@,
{
    HttpReply { status: 503, body: String::from_str("No healthy backends available") }
}

/// The reply when the upstream call failed in transport.
pub fn proxy_error_reply(err: &String) -> (r: HttpReply)
    ensures
        r.status == 502,
        r.body@ == "Proxy error: "@ + err@,
{
    let mut body = String::from_str("Proxy error: ");
    body.append(err.as_str());
    HttpReply { status: 502, body }
}

/// The reply when the upstream call ran into the proxy timeout.
pub fn timeout_reply(timeout_secs: u64) -> (r: HttpReply)
    ensures
        r.status == 504,
        r.body@ == "Upstream request timed out after "@ + spec_decimal(timeout_secs as nat)
            + "s"@,
{
    let mut body = String::from_str("Upstream request timed out after ");
    let secs = u64_to_string(timeout_secs);
    body.append(secs.as_str());
    body.append("s");
    HttpReply { status: 504, body }
}

} // verus!
