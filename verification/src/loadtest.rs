//! The load harness: where to send load, and the summary of the latencies.

use crate::number::decimal;
use crate::sort::{ascending, sorted, Ranked};
use crate::text::{owned, str_eq};
use crate::types::upstream::{authority_of, authority_text};
use vstd::prelude::*;
use vstd::string::*;

verus! {

// ---------------------------------------------------------------------------
// The target
// ---------------------------------------------------------------------------

/// The parts of a URI.
#[derive(Debug, PartialEq, Eq)]
pub struct UriParts {
    pub scheme: Option<String>,
    pub host: Option<String>,
    pub port: Option<u16>,
    pub path_and_query: Option<String>,
}

/// What the parts of a URI are.
pub struct UriView {
    pub scheme: Option<Seq<char>>,
    pub host: Option<Seq<char>>,
    pub port: Option<u16>,
    pub path_and_query: Option<Seq<char>>,
}

/// The text of an optional string.
pub open spec fn opt_text(s: Option<String>) -> Option<Seq<char>> {
    match s {
        Some(t) => Some(t@),
        None => None,
    }
}

/// The views of a parsed URI.
pub open spec fn uri_view(r: Result<UriParts, String>) -> Result<UriView, Seq<char>> {
    match r {
        Ok(p) => Ok(
            UriView {
                scheme: opt_text(p.scheme),
                host: opt_text(p.host),
                port: p.port,
                path_and_query: opt_text(p.path_and_query),
            },
        ),
        Err(e) => Err(e@),
    }
}

/// The parts of a URI, or the text of the parse error.
pub uninterp spec fn uri_parts(text: Seq<char>) -> Result<UriView, Seq<char>>;

/// `http::Uri`'s parser and its accessors `scheme_str`, `host`, `port_u16`
/// and `path_and_query`.
#[verifier::external_body]
fn parse_uri(text: &str) -> (r: Result<UriParts, String>)
    ensures
        uri_view(r) == uri_parts(text@),
{
    let uri = text.parse::<http::Uri>().map_err(|e| e.to_string())?;
    Ok(UriParts {
        scheme: uri.scheme_str().map(|s| s.to_string()),
        host: uri.host().map(|s| s.to_string()),
        port: uri.port_u16(),
        path_and_query: uri.path_and_query().map(|p| p.as_str().to_string()),
    })
}

/// Where to send load.
#[derive(Debug, PartialEq, Eq)]
pub struct Target {
    /// `host:port` to connect to.
    pub addr: String,
    pub host: String,
    pub path: String,
    pub tls: bool,
}

/// Why a target cannot be used.
#[derive(Debug, PartialEq, Eq)]
pub enum TargetError {
    /// It is not a URL; the text says why.
    Url(String),
    /// It has no host.
    NoHost,
}

/// Whether a target is that of the parts of a URL: HTTPS goes to port 443 and
/// everything else to port 80 unless a port is given, and the path is `/`
/// where there is none.
pub open spec fn is_target(t: Target, u: UriView) -> bool {
    let port = match u.port {
        Some(p) => p,
        None => if u.scheme == Some("https"@) {
            443u16
        } else {
            80u16
        },
    };
    &&& u.host == Some(t.host@)
    &&& t.tls == (u.scheme == Some("https"@))
    &&& t.addr@ == authority_text(t.host@, port)
    &&& t.path@ == match u.path_and_query {
        Some(p) => p,
        None => "/"@,
    }
}

/// Whether a result is the target of a parsed URL.
pub open spec fn is_target_of(r: Result<Target, TargetError>, parsed: Result<UriView, Seq<char>>) -> bool {
    match parsed {
        Err(e) => r matches Err(TargetError::Url(m)) && m@ == e,
        Ok(u) => match u.host {
            None => r matches Err(TargetError::NoHost),
            Some(_) => r matches Ok(t) && is_target(t, u),
        },
    }
}

/// The target of a parsed URL.
pub fn target_from(parsed: Result<UriParts, String>) -> (r: Result<Target, TargetError>)
    ensures
        is_target_of(r, uri_view(parsed)),
{
    let parts = match parsed {
        Ok(p) => p,
        Err(e) => return Err(TargetError::Url(e)),
    };
    let tls = match &parts.scheme {
        Some(s) => str_eq(s.as_str(), "https"),
        None => false,
    };
    let host = match parts.host {
        Some(h) => h,
        None => return Err(TargetError::NoHost),
    };
    let port: u16 = match parts.port {
        Some(p) => p,
        None => if tls {
            443
        } else {
            80
        },
    };
    let path = match parts.path_and_query {
        Some(p) => p,
        None => owned("/"),
    };
    Ok(Target { addr: authority_of(host.as_str(), port), host, path, tls })
}

/// Parses the URL to send load to.
pub fn parse_target(target: &str) -> (r: Result<Target, TargetError>)
    ensures
        is_target_of(r, uri_parts(target@)),
{
    target_from(parse_uri(target))
}

// ---------------------------------------------------------------------------
// The summary
// ---------------------------------------------------------------------------

/// Latencies of a run, in nanoseconds.
#[derive(Debug, Clone, Copy, PartialEq, Eq, Structural)]
pub struct Summary {
    pub total: usize,
    pub p50: u64,
    pub p90: u64,
    pub p99: u64,
    pub max: u64,
}

/// The rank, from zero, of a percentile among `n` sorted values: the nearest
/// to that part of the way from the first to the last, the later one of two
/// equally near.
pub open spec fn percentile_rank(n: int, percent: int) -> int {
    ((n - 1) * percent * 2 + 100) / 200
}

/// A percentile of sorted values, 0 where there are none.
pub open spec fn percentile(values: Seq<u64>, percent: int) -> u64 {
    if values.len() == 0 {
        0
    } else {
        values[percentile_rank(values.len() as int, percent)]
    }
}

/// Whether a summary is that of latencies, which `order` lists in ascending
/// order.
pub open spec fn summarizes(s: Summary, latencies: Seq<u64>, order: Seq<u64>) -> bool {
    &&& ascending(order)
    &&& order.to_multiset() == latencies.to_multiset()
    &&& s.total == latencies.len()
    &&& s.p50 == percentile(order, 50)
    &&& s.p90 == percentile(order, 90)
    &&& s.p99 == percentile(order, 99)
    &&& s.max == percentile(order, 100)
}

proof fn lemma_rank_in_range(n: int, percent: int)
    requires
        n > 0,
        0 <= percent <= 100,
    ensures
        0 <= percentile_rank(n, percent) < n,
        percentile_rank(n, 100) == n - 1,
{
    let m = (n - 1) * percent;
    assert(0 <= m <= (n - 1) * 100) by (nonlinear_arith)
        requires
            n > 0,
            0 <= percent <= 100,
            m == (n - 1) * percent,
    ;
}

fn percentile_of(order: &Vec<u64>, percent: u8) -> (r: u64)
    requires
        percent <= 100,
    ensures
        r == percentile(order@, percent as int),
{
    if order.len() == 0 {
        return 0;
    }
    let n: u128 = order.len() as u128;
    proof {
        lemma_rank_in_range(order@.len() as int, percent as int);
        assert((n - 1) * percent <= 0xffff_ffff_ffff_ffff * 100) by (nonlinear_arith)
            requires
                1 <= n <= 0xffff_ffff_ffff_ffff,
                percent <= 100,
        ;
    }
    let rank: u128 = ((n - 1) * percent as u128 * 2 + 100) / 200;
    order[rank as usize]
}

/// Summarizes the latencies of a run.
pub fn summarize(latencies: &[u64]) -> (r: Summary)
    ensures
        exists|order: Seq<u64>| #[trigger] summarizes(r, latencies@, order),
{
    let order = sorted(latencies);
    let s = Summary {
        total: latencies.len(),
        p50: percentile_of(&order, 50),
        p90: percentile_of(&order, 90),
        p99: percentile_of(&order, 99),
        max: percentile_of(&order, 100),
    };
    assert(summarizes(s, latencies@, order@));
    s
}

/// The percentiles of a run ascend, and the largest is the last of the
/// latencies in order: no latency is above it.
pub proof fn law_percentiles_ascend(s: Summary, latencies: Seq<u64>, order: Seq<u64>)
    requires
        summarizes(s, latencies, order),
    ensures
        s.p50 <= s.p90 <= s.p99 <= s.max,
        forall|i: int| 0 <= i < latencies.len() ==> (#[trigger] latencies[i]) <= s.max,
{
    vstd::seq_lib::to_multiset_len(latencies);
    vstd::seq_lib::to_multiset_len(order);
    if order.len() > 0 {
        let n = order.len() as int;
        lemma_rank_in_range(n, 50);
        lemma_rank_in_range(n, 90);
        lemma_rank_in_range(n, 99);
        lemma_rank_in_range(n, 100);
        let a = percentile_rank(n, 50);
        let b = percentile_rank(n, 90);
        let c = percentile_rank(n, 99);
        assert(a <= b <= c <= n - 1);
        assert(order[a].rank_le(order[b]));
        assert(order[b].rank_le(order[c]));
        assert(order[c].rank_le(order[n - 1]));
        assert forall|i: int| 0 <= i < latencies.len() implies (#[trigger] latencies[i])
            <= s.max by {
            let v = latencies[i];
            assert(latencies.contains(v));
            vstd::seq_lib::to_multiset_contains(latencies, v);
            vstd::seq_lib::to_multiset_contains(order, v);
            let k = choose|k: int| 0 <= k < order.len() && order[k] == v;
            assert(order[k].rank_le(order[n - 1]));
        }
    }
}

/// What one worker of a load run measured.
#[derive(Debug)]
pub struct WorkerResult {
    pub latencies: Vec<u64>,
    pub errors: u64,
}

/// The latencies of the first `n` workers, one after another.
pub open spec fn all_latencies(workers: Seq<WorkerResult>, n: nat) -> Seq<u64>
    decreases n,
{
    if n == 0 {
        Seq::empty()
    } else {
        all_latencies(workers, (n - 1) as nat) + workers[n - 1].latencies@
    }
}

/// The errors of the first `n` workers.
pub open spec fn all_errors(workers: Seq<WorkerResult>, n: nat) -> nat
    decreases n,
{
    if n == 0 {
        0
    } else {
        all_errors(workers, (n - 1) as nat) + workers[n - 1].errors as nat
    }
}

/// Puts the results of all workers together.
pub fn collect(workers: &Vec<WorkerResult>) -> (r: (Vec<u64>, u128))
    ensures
        r.0@ == all_latencies(workers@, workers@.len()),
        r.1 == all_errors(workers@, workers@.len()),
{
    let mut latencies: Vec<u64> = Vec::new();
    let mut errors: u128 = 0;
    let mut i: usize = 0;
    while i < workers.len()
        invariant
            i <= workers@.len(),
            latencies@ == all_latencies(workers@, i as nat),
            errors == all_errors(workers@, i as nat),
            errors <= i * 0xffff_ffff_ffff_ffff,
        decreases workers@.len() - i,
    {
        let w = &workers[i];
        let ghost done = latencies@;
        let mut k: usize = 0;
        while k < w.latencies.len()
            invariant
                k <= w.latencies@.len(),
                latencies@ =~= done + w.latencies@.take(k as int),
            decreases w.latencies@.len() - k,
        {
            latencies.push(w.latencies[k]);
            k += 1;
        }
        assert(w.latencies@.take(k as int) =~= w.latencies@);
        assert(i * 0xffff_ffff_ffff_ffff + 0xffff_ffff_ffff_ffff
            <= 0x1_0000_0000_0000_0000 * 0xffff_ffff_ffff_ffff) by (nonlinear_arith)
            requires
                0 <= i <= 0xffff_ffff_ffff_ffff,
        ;
        errors = errors + w.errors as u128;
        i += 1;
    }
    (latencies, errors)
}

// ---------------------------------------------------------------------------
// Laws
// ---------------------------------------------------------------------------

/// A percentile is the value whose place is nearest to that part of the way
/// from the first value to the last, and the later one of two that are equally
/// near. Without values it is 0.
pub proof fn law_percentiles_are_near(values: Seq<u64>, percent: int, r: int)
    requires
        0 <= percent <= 100,
        values.len() > 0,
        -50 < 100 * r - percent * (values.len() - 1) <= 50,
    ensures
        0 <= r < values.len(),
        percentile(values, percent) == values[r],
        percentile(Seq::empty(), percent) == 0,
{
    let n = values.len() as int;
    lemma_rank_in_range(n, percent);
    let m = (n - 1) * percent;
    assert(m == percent * (n - 1)) by (nonlinear_arith)
        requires
            m == (n - 1) * percent,
    ;
    assert(percentile_rank(n, percent) == (m * 2 + 100) / 200);
    assert(r == (m * 2 + 100) / 200);
}

/// A summary counts the latencies and gives their median, their 90th and 99th
/// percentile and the largest of them, all taken from the latencies in
/// ascending order.
pub proof fn law_summaries(s: Summary, latencies: Seq<u64>, order: Seq<u64>, i: int, j: int)
    requires
        summarizes(s, latencies, order),
    ensures
        0 <= i <= j < order.len() ==> order[i] <= order[j],
        order.to_multiset() == latencies.to_multiset(),
        s.total == latencies.len(),
        s.p50 == percentile(order, 50),
        s.p90 == percentile(order, 90),
        s.p99 == percentile(order, 99),
        order.len() > 0 ==> s.max == order.last(),
        latencies.len() == 0 ==> s.p50 == 0 && s.p90 == 0 && s.p99 == 0 && s.max == 0,
{
    vstd::seq_lib::to_multiset_len(latencies);
    vstd::seq_lib::to_multiset_len(order);
    if order.len() > 0 {
        lemma_rank_in_range(order.len() as int, 100);
    }
    if 0 <= i <= j < order.len() {
        assert(order[i].rank_le(order[j]));
    }
}

/// Load goes to the host of the URL, at its port or at the port of its scheme,
/// over TLS exactly for `https`, and asks for its path and query or for `/`. A
/// URL without a host is refused, and so is a text that is no URL.
pub proof fn law_targets(
    r: Result<Target, TargetError>,
    parsed: Result<UriView, Seq<char>>,
)
    requires
        is_target_of(r, parsed),
    ensures
        parsed is Err ==> r is Err && r->Err_0 is Url && r->Err_0->Url_0@ == parsed->Err_0,
        parsed is Ok && parsed->Ok_0.host is None ==> r is Err && r->Err_0 is NoHost,
        parsed is Ok && parsed->Ok_0.host is Some ==> {
            let u = parsed->Ok_0;
            let t = r->Ok_0;
            let host = u.host->0;
            &&& r is Ok
            &&& t.host@ == host
            &&& t.tls <==> u.scheme == Some("https"@)
            &&& u.port is Some ==> t.addr@ == host + ":"@ + decimal(u.port->0 as nat)
            &&& u.port is None && t.tls ==> t.addr@ == host + ":"@ + decimal(443)
            &&& u.port is None && !t.tls ==> t.addr@ == host + ":"@ + decimal(80)
            &&& u.path_and_query is Some ==> t.path@ == u.path_and_query->0
            &&& u.path_and_query is None ==> t.path@ == seq!['/']
        },
{
    reveal_strlit("/");
    assert("/"@ =~= seq!['/']);
}

/// The parts of a URL are read as they are.
pub proof fn law_parts_of_urls(p: UriParts, e: String)
    ensures
        uri_view(Err(e)) == Err::<UriView, Seq<char>>(e@),
        uri_view(Ok(p)) is Ok,
        p.scheme is Some ==> uri_view(Ok(p))->Ok_0.scheme == Some(p.scheme->0@),
        p.scheme is None ==> uri_view(Ok(p))->Ok_0.scheme is None,
        p.host is Some ==> uri_view(Ok(p))->Ok_0.host == Some(p.host->0@),
        p.host is None ==> uri_view(Ok(p))->Ok_0.host is None,
        uri_view(Ok(p))->Ok_0.port == p.port,
        p.path_and_query is Some ==> uri_view(Ok(p))->Ok_0.path_and_query == Some(
            p.path_and_query->0@,
        ),
        p.path_and_query is None ==> uri_view(Ok(p))->Ok_0.path_and_query is None,
{
}

proof fn lemma_workers_before(workers: Seq<WorkerResult>, w: WorkerResult, n: nat)
    requires
        n <= workers.len(),
    ensures
        all_latencies(workers.push(w), n) == all_latencies(workers, n),
        all_errors(workers.push(w), n) == all_errors(workers, n),
    decreases n,
{
    if n > 0 {
        lemma_workers_before(workers, w, (n - 1) as nat);
    }
}

/// A further worker adds its latencies behind the others and its errors to
/// theirs; without workers there are none of either.
pub proof fn law_workers_add_up(workers: Seq<WorkerResult>, w: WorkerResult)
    ensures
        all_latencies(Seq::empty(), 0) == Seq::<u64>::empty(),
        all_errors(Seq::empty(), 0) == 0,
        all_latencies(workers.push(w), workers.len() + 1) == all_latencies(workers, workers.len())
            + w.latencies@,
        all_errors(workers.push(w), workers.len() + 1) == all_errors(workers, workers.len())
            + w.errors,
{
    lemma_workers_before(workers, w, workers.len());
}

}
