//! The reverse proxy's routing rules: the route key taken from a `Host`
//! header, the hop-by-hop headers dropped in both directions, the upstream
//! target URL, and the routing table from normalized domains to upstreams.

use vstd::prelude::*;

verus! {

use vstd::string::StrSliceExecFns;
use vstd::string::StringExecFns;
use crate::addr::{scan_to, scan_char};
use crate::config::ProxyConfig;
use crate::domain::{normalize_spec, normalize_domain};
use crate::strutil::string_copy;
use crate::table::DomainMap;

/// The route key inside an already-normalized host text `t` (lowercased,
/// trimmed, trailing dots stripped): the bracket contents of an IPv6
/// literal `[..]`, the name before a single `:port`, or the whole text.
/// A text with two or more colons and no brackets is kept whole (a bare
/// IPv6 address has no port to strip).
pub open spec fn route_key(t: Seq<char>) -> Seq<char> {
    if t.len() == 0 {
        t
    } else if t[0] == '[' && scan_to(t, 1, t.len() as int, ']') < t.len() {
        t.subrange(1, scan_to(t, 1, t.len() as int, ']'))
    } else {
        let k = scan_to(t, 0, t.len() as int, ':');
        if 1 <= k < t.len() && scan_to(t, k + 1, t.len() as int, ':') == t.len() {
            t.subrange(0, k)
        } else {
            t
        }
    }
}

/// The route key of a raw `Host` header value: normalize (trim, strip
/// trailing dots, lowercase), then strip an optional `:port` or the
/// brackets of an IPv6 literal.
pub open spec fn normalize_host_spec(s: Seq<char>) -> Seq<char> {
    route_key(normalize_spec(s))
}

/// The route key taken from a raw `Host` header value, as `as_str` of the
/// `http` crate's header value hands it over.
pub fn normalize_host(raw: &str) -> (r: String)
    ensures
        r@ == normalize_host_spec(raw@),
{
    let t = normalize_domain(raw);
    let n = t.as_str().unicode_len();
    if n == 0 {
        return t;
    }
    if t.as_str().get_char(0) == '[' {
        let rb = scan_char(t.as_str(), 1, n, ']');
        if rb < n {
            let mut out = String::new();
            let mut i: usize = 1;
            while i < rb
                invariant
                    1 <= i <= rb < n == t@.len(),
                    out@ =~= t@.subrange(1, i as int),
                decreases rb - i,
            {
                out.push(t.as_str().get_char(i));
                assert(out@ =~= t@.subrange(1, i + 1 as int));
                i += 1;
            }
            return out;
        }
    }
    let first_colon = scan_char(t.as_str(), 0, n, ':');
    if first_colon >= 1 && first_colon < n {
        let second = scan_char(t.as_str(), first_colon + 1, n, ':');
        if second == n {
            let mut out = String::new();
            let mut i: usize = 0;
            while i < first_colon
                invariant
                    0 <= i <= first_colon < n == t@.len(),
                    out@ =~= t@.subrange(0, i as int),
                decreases first_colon - i,
            {
                out.push(t.as_str().get_char(i));
                assert(out@ =~= t@.subrange(0, i + 1 as int));
                i += 1;
            }
            return out;
        }
    }
    t
}

/// The hop-by-hop header names, exactly: `connection`, `proxy-connection`,
/// `keep-alive`, `te`, `trailer`, `upgrade`, `transfer-encoding`.
pub open spec fn is_hop_by_hop_spec(name: Seq<char>) -> bool {
    ||| name == "connection"@
    ||| name == "proxy-connection"@
    ||| name == "keep-alive"@
    ||| name == "te"@
    ||| name == "trailer"@
    ||| name == "upgrade"@
    ||| name == "transfer-encoding"@
}

/// Whether a header (as its lowercase name text) is hop-by-hop and thus
/// dropped in both directions.
pub fn is_hop_by_hop(name: &str) -> (r: bool)
    ensures
        r == is_hop_by_hop_spec(name@),
{
    ||| crate::strutil::str_eq(name, "connection")
    ||| crate::strutil::str_eq(name, "proxy-connection")
    ||| crate::strutil::str_eq(name, "keep-alive")
    ||| crate::strutil::str_eq(name, "te")
    ||| crate::strutil::str_eq(name, "trailer")
    ||| crate::strutil::str_eq(name, "upgrade")
    ||| crate::strutil::str_eq(name, "transfer-encoding")
}

/// A request header goes to the upstream iff it is neither the `Host`
/// header (the client's host must not leak upstream) nor hop-by-hop.
pub fn should_forward_request_header(name: &str) -> (r: bool)
    ensures
        r == (name@ != "host"@ && !is_hop_by_hop_spec(name@)),
{
    !crate::strutil::str_eq(name, "host") && !is_hop_by_hop(name)
}

/// A response header goes back to the client iff it is not hop-by-hop.
pub fn should_forward_response_header(name: &str) -> (r: bool)
    ensures
        r == !is_hop_by_hop_spec(name@),
{
    !is_hop_by_hop(name)
}

/// End of `s` truncated below `j` while the last character is `/`.
pub open spec fn scan_slash_hi(s: Seq<char>, j: int) -> int
    decreases j when j >= 0
{
    if j > 0 && s[j - 1] == '/' {
        scan_slash_hi(s, j - 1)
    } else {
        j
    }
}

/// The base URL with its trailing slashes removed.
pub open spec fn strip_trailing_slashes(s: Seq<char>) -> Seq<char> {
    s.subrange(0, scan_slash_hi(s, s.len() as int))
}

proof fn lemma_scan_slash_hi_props(s: Seq<char>, j: int)
    requires
        0 <= j <= s.len(),
    ensures
        0 <= scan_slash_hi(s, j) <= j,
        scan_slash_hi(s, j) > 0 ==> s[scan_slash_hi(s, j) - 1] != '/',
    decreases j,
{
    if j > 0 && s[j - 1] == '/' {
        lemma_scan_slash_hi_props(s, j - 1);
    }
}

/// The upstream target URL: the base with trailing slashes trimmed,
/// then the request's path-and-query.
pub fn build_target_url(base_url: &str, path_and_query: &str) -> (r: String)
    ensures
        r@ == strip_trailing_slashes(base_url@) + path_and_query@,
{
    let n = base_url.unicode_len();
    let mut hi: usize = n;
    while hi > 0 && base_url.get_char(hi - 1) == '/'
        invariant
            0 <= hi <= n == base_url@.len(),
            scan_slash_hi(base_url@, n as int) == scan_slash_hi(base_url@, hi as int),
        decreases hi,
    {
        hi -= 1;
    }
    let mut out = String::new();
    let mut i: usize = 0;
    while i < hi
        invariant
            0 <= i <= hi <= n == base_url@.len(),
            scan_slash_hi(base_url@, n as int) == hi,
            out@ =~= base_url@.subrange(0, i as int),
        decreases hi - i,
    {
        out.push(base_url.get_char(i));
        assert(out@ =~= base_url@.subrange(0, i + 1 as int));
        i += 1;
    }
    out.append(path_and_query);
    out
}

/// Between the trimmed base and the path there is at most one `/`: when
/// the path starts with a single slash, the joint holds exactly one.
pub proof fn lemma_build_target_url_single_slash(base: Seq<char>, pq: Seq<char>)
    requires
        pq.len() > 0,
        pq[0] == '/',
        pq.len() > 1 ==> pq[1] != '/',
    ensures
        ({
            let b = strip_trailing_slashes(base);
            let r = b + pq;
            &&& r[b.len() as int] == '/'
            &&& b.len() > 0 ==> r[b.len() - 1] != '/'
            &&& b.len() + 1 < r.len() ==> r[b.len() + 1 as int] != '/'
        }),
{
    lemma_scan_slash_hi_props(base, base.len() as int);
}

/// One route of the proxy: where requests for a domain go.
pub struct ProxyRoute {
    pub upstream_host_port: String,
    pub base_url: String,
}

/// The routing table: normalized domain to route, in configuration order.
/// Requires the domains to be distinct, which `AppConfig::from_raw`
/// guarantees.
pub fn build_routes(proxies: &Vec<ProxyConfig>) -> (r: DomainMap<ProxyRoute>)
    requires
        forall|i: int, j: int|
            0 <= i < j < proxies@.len() ==> proxies@[i].domain@ != proxies@[j].domain@,
    ensures
        r.wf(),
        r.spec_entries().len() == proxies@.len(),
        forall|i: int|
            0 <= i < proxies@.len() ==> {
                &&& (#[trigger] r.spec_entries()[i]).0@ == proxies@[i].domain@
                &&& r.spec_entries()[i].1.upstream_host_port@ == proxies@[i].upstream_host_port@
                &&& r.spec_entries()[i].1.base_url@ == "http://"@
                    + proxies@[i].upstream_host_port@
            },
{
    let mut routes: DomainMap<ProxyRoute> = DomainMap::new();
    let n = proxies.len();
    let mut i: usize = 0;
    while i < n
        invariant
            0 <= i <= n == proxies@.len(),
            forall|t1: int, t2: int|
                0 <= t1 < t2 < proxies@.len() ==> proxies@[t1].domain@ != proxies@[t2].domain@,
            routes.wf(),
            routes.spec_entries().len() == i,
            forall|t: int|
                0 <= t < i ==> {
                    &&& (#[trigger] routes.spec_entries()[t]).0@ == proxies@[t].domain@
                    &&& routes.spec_entries()[t].1.upstream_host_port@
                        == proxies@[t].upstream_host_port@
                    &&& routes.spec_entries()[t].1.base_url@ == "http://"@
                        + proxies@[t].upstream_host_port@
                },
        decreases n - i,
    {
        let p = &proxies[i];
        let route = ProxyRoute {
            upstream_host_port: string_copy(p.upstream_host_port.as_str()),
            base_url: p.base_url(),
        };
        let ghost ents = routes.spec_entries();
        if routes.contains_key(p.domain.as_str()) {
            proof {
                crate::table::lemma_seq_get_some_is_key(ents, p.domain@);
                let t = choose|t: int| 0 <= t < ents.len() && ents[t].0@ == p.domain@;
                assert(proxies@[t].domain@ == proxies@[i as int].domain@);
                assert(false);
            }
        }
        let inserted = routes.insert(string_copy(p.domain.as_str()), route);
        assert(inserted);
        proof {
            assert forall|t: int| 0 <= t < i + 1 implies {
                &&& (#[trigger] routes.spec_entries()[t]).0@ == proxies@[t].domain@
                &&& routes.spec_entries()[t].1.upstream_host_port@
                    == proxies@[t].upstream_host_port@
                &&& routes.spec_entries()[t].1.base_url@ == "http://"@
                    + proxies@[t].upstream_host_port@
            } by {
                if t < i as int {
                    assert(routes.spec_entries()[t] == ents[t]);
                }
            }
        }
        i += 1;
    }
    routes
}

/// The route for a raw `Host` header value: the table entry under the
/// normalized host, if any. A request whose host is not configured gets
/// none, and is answered with a bad-gateway status by the server around
/// this crate.
pub fn select_route<'a>(routes: &'a DomainMap<ProxyRoute>, host: &str) -> (r: Option<
    &'a ProxyRoute,
>)
    ensures
        r is Some <==> routes.spec_contains(normalize_host_spec(host@)),
        r matches Some(v) ==> routes.spec_get(normalize_host_spec(host@)) == Some(*v),
{
    let key = normalize_host(host);
    routes.get(key.as_str())
}

} // verus!
