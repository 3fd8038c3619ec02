//! Semantic validation of the dynamic config, run before any swap so a bad
//! config is rejected wholesale and the running snapshot is kept.

use crate::number::decimal;
use crate::problem::{
    first_problem, law_first_problem_is_first, lemma_all_fine, lemma_first_problem_stays,
    lemma_no_first_problem, reports,
};
use crate::router::snapshot::routes_to;
use crate::text::{join2, join3, owned};
use crate::types::upstream::{authority_of, authority_text};
use crate::types::{
    CertEntry, DynamicConfig, GfeError, ListenProtocol, Listener, Route, RouteAction, UpstreamPool,
};
use crate::upstream::pool::{last_with_id, PoolSet};
use vstd::hash_map::StringHashMap;
use vstd::prelude::*;
use vstd::string::*;

verus! {

// ---------------------------------------------------------------------------
// The rules
// ---------------------------------------------------------------------------

/// Whether one of the first `n` listeners has the given id.
pub open spec fn listener_named(listeners: Seq<Listener>, n: int, id: Seq<char>) -> bool {
    exists|j: int| 0 <= j < n && (#[trigger] listeners[j]).id.0@ == id
}

/// Whether one of the first `n` pools has the given id.
pub open spec fn pool_named(pools: Seq<UpstreamPool>, n: int, id: Seq<char>) -> bool {
    exists|j: int| 0 <= j < n && (#[trigger] pools[j]).id.0@ == id
}

/// Whether one of the first `n` routes has the given id.
pub open spec fn route_named(routes: Seq<Route>, n: int, id: Seq<char>) -> bool {
    exists|j: int| 0 <= j < n && (#[trigger] routes[j]).id.0@ == id
}

/// What is wrong with listener `i`: its id is taken.
pub open spec fn listener_problem(listeners: Seq<Listener>, i: int) -> Option<Seq<char>> {
    if listener_named(listeners, i, listeners[i].id.0@) {
        Some("duplicate listener id: "@ + listeners[i].id.0@)
    } else {
        None
    }
}

/// What is wrong with backend `k` of a pool: no host or no port.
pub open spec fn upstream_problem(pool: UpstreamPool, k: int) -> Option<Seq<char>> {
    let u = pool.upstreams@[k];
    if u.host@.len() == 0 || u.port == 0 {
        Some(
            "pool "@ + pool.id.0@ + " has an invalid upstream "@ + authority_text(u.host@, u.port),
        )
    } else {
        None
    }
}

/// What is wrong with pool `i`: its id is taken, it has no backends, or one
/// of them is invalid.
pub open spec fn pool_problem(pools: Seq<UpstreamPool>, i: int) -> Option<Seq<char>> {
    let p = pools[i];
    if pool_named(pools, i, p.id.0@) {
        Some("duplicate pool id: "@ + p.id.0@)
    } else if p.upstreams@.len() == 0 {
        Some("pool "@ + p.id.0@ + " has no upstreams"@)
    } else {
        first_problem(|k: int| upstream_problem(p, k), p.upstreams@.len())
    }
}

/// What is wrong with route `i`: its id is taken, its listener or its pool
/// does not exist, or it has no host.
pub open spec fn route_problem(cfg: DynamicConfig, i: int) -> Option<Seq<char>> {
    let r = cfg.routes@[i];
    if route_named(cfg.routes@, i, r.id.0@) {
        Some("duplicate route id: "@ + r.id.0@)
    } else if !listener_named(cfg.listeners@, cfg.listeners@.len() as int, r.listener.0@) {
        Some("route "@ + r.id.0@ + " references unknown listener "@ + r.listener.0@)
    } else if r.action is Forward && !pool_named(
        cfg.pools@,
        cfg.pools@.len() as int,
        r.action->Forward_0@,
    ) {
        Some("route "@ + r.id.0@ + " forwards to unknown pool "@ + r.action->Forward_0@)
    } else if r.host@.len() == 0 {
        Some("route "@ + r.id.0@ + " has empty host"@)
    } else {
        None
    }
}

/// The number of default certificates among the first `n`.
pub open spec fn default_certs(certificates: Seq<CertEntry>, n: nat) -> nat
    decreases n,
{
    if n == 0 {
        0
    } else {
        default_certs(certificates, (n - 1) as nat) + if certificates[n - 1].default {
            1nat
        } else {
            0
        }
    }
}

/// Whether a listener terminates TLS.
pub open spec fn some_https(listeners: Seq<Listener>, n: int) -> bool {
    exists|i: int| 0 <= i < n && (#[trigger] listeners[i]).protocol == ListenProtocol::Https
}

/// What is wrong with the certificates: two defaults, or none at all for an
/// https listener.
pub open spec fn certificate_problem(cfg: DynamicConfig) -> Option<Seq<char>> {
    if default_certs(cfg.certificates@, cfg.certificates@.len()) > 1 {
        Some("more than one default certificate"@)
    } else if some_https(cfg.listeners@, cfg.listeners@.len() as int) && cfg.certificates@.len()
        == 0 {
        Some("an https listener is configured but no certificates are provided"@)
    } else {
        None
    }
}

/// The first problem of a configuration: listeners, then pools, then routes,
/// then certificates.
pub open spec fn config_problem(cfg: DynamicConfig) -> Option<Seq<char>> {
    match first_problem(|i: int| listener_problem(cfg.listeners@, i), cfg.listeners@.len()) {
        Some(m) => Some(m),
        None => match first_problem(|i: int| pool_problem(cfg.pools@, i), cfg.pools@.len()) {
            Some(m) => Some(m),
            None => match first_problem(|i: int| route_problem(cfg, i), cfg.routes@.len()) {
                Some(m) => Some(m),
                None => certificate_problem(cfg),
            },
        },
    }
}

// ---------------------------------------------------------------------------
// Checking
// ---------------------------------------------------------------------------

fn check_listeners(listeners: &Vec<Listener>, ids: &mut StringHashMap<usize>) -> (r: Option<
    String,
>)
    requires
        old(ids)@ == Map::<Seq<char>, usize>::empty(),
    ensures
        reports(
            r,
            first_problem(|i: int| listener_problem(listeners@, i), listeners@.len()),
        ),
        r is None ==> forall|id: Seq<char>| #[trigger]
            final(ids)@.contains_key(id) <==> listener_named(
                listeners@,
                listeners@.len() as int,
                id,
            ),
{
    let ghost f = |i: int| listener_problem(listeners@, i);
    let mut i: usize = 0;
    while i < listeners.len()
        invariant
            i <= listeners@.len(),
            f == (|i: int| listener_problem(listeners@, i)),
            first_problem(f, i as nat) is None,
            forall|id: Seq<char>| #[trigger]
                ids@.contains_key(id) <==> listener_named(listeners@, i as int, id),
        decreases listeners@.len() - i,
    {
        let id = &listeners[i].id.0;
        assert(f(i as int) == listener_problem(listeners@, i as int));
        if ids.contains_key(id.as_str()) {
            proof {
                assert(first_problem(f, (i + 1) as nat) is Some);
                lemma_first_problem_stays(f, listeners@.len(), (i + 1) as nat);
            }
            return Some(join2("duplicate listener id: ", id.as_str()));
        }
        let ghost before = ids@;
        ids.insert(id.clone(), i);
        proof {
            assert forall|k: Seq<char>| #[trigger]
                ids@.contains_key(k) <==> listener_named(listeners@, i + 1, k) by {
                if k == id@ {
                    assert(listeners@[i as int].id.0@ == k);
                } else {
                    assert(before.contains_key(k) <==> listener_named(listeners@, i as int, k));
                    if listener_named(listeners@, i + 1, k) {
                        let j = choose|j: int|
                            0 <= j < i + 1 && (#[trigger] listeners@[j]).id.0@ == k;
                        assert(listener_named(listeners@, i as int, k));
                    }
                }
            }
        }
        i += 1;
    }
    None
}

fn check_upstreams(pool: &UpstreamPool) -> (r: Option<String>)
    ensures
        reports(
            r,
            first_problem(|k: int| upstream_problem(*pool, k), pool.upstreams@.len()),
        ),
{
    let ghost f = |k: int| upstream_problem(*pool, k);
    let mut k: usize = 0;
    while k < pool.upstreams.len()
        invariant
            k <= pool.upstreams@.len(),
            f == (|k: int| upstream_problem(*pool, k)),
            first_problem(f, k as nat) is None,
        decreases pool.upstreams@.len() - k,
    {
        let u = &pool.upstreams[k];
        assert(f(k as int) == upstream_problem(*pool, k as int));
        let host = crate::text::chars_of(u.host.as_str());
        if host.len() == 0 || u.port == 0 {
            proof {
                assert(first_problem(f, (k + 1) as nat) is Some);
                lemma_first_problem_stays(f, pool.upstreams@.len(), (k + 1) as nat);
            }
            let mut out = join3("pool ", pool.id.0.as_str(), " has an invalid upstream ");
            out.append(authority_of(u.host.as_str(), u.port).as_str());
            return Some(out);
        }
        k += 1;
    }
    None
}

fn check_pools(pools: &Vec<UpstreamPool>, ids: &mut StringHashMap<usize>) -> (r: Option<String>)
    requires
        old(ids)@ == Map::<Seq<char>, usize>::empty(),
    ensures
        reports(r, first_problem(|i: int| pool_problem(pools@, i), pools@.len())),
        r is None ==> forall|id: Seq<char>| #[trigger]
            final(ids)@.contains_key(id) <==> pool_named(pools@, pools@.len() as int, id),
{
    let ghost f = |i: int| pool_problem(pools@, i);
    let mut i: usize = 0;
    while i < pools.len()
        invariant
            i <= pools@.len(),
            f == (|i: int| pool_problem(pools@, i)),
            first_problem(f, i as nat) is None,
            forall|id: Seq<char>| #[trigger]
                ids@.contains_key(id) <==> pool_named(pools@, i as int, id),
        decreases pools@.len() - i,
    {
        let p = &pools[i];
        let ghost key = p.id.0@;
        assert(f(i as int) == pool_problem(pools@, i as int));
        let found = if ids.contains_key(p.id.0.as_str()) {
            Some(join2("duplicate pool id: ", p.id.0.as_str()))
        } else if p.upstreams.len() == 0 {
            Some(join3("pool ", p.id.0.as_str(), " has no upstreams"))
        } else {
            check_upstreams(p)
        };
        match found {
            Some(m) => {
                proof {
                    assert(first_problem(f, (i + 1) as nat) is Some);
                    lemma_first_problem_stays(f, pools@.len(), (i + 1) as nat);
                }
                return Some(m);
            },
            None => {},
        }
        let ghost before = ids@;
        ids.insert(p.id.0.clone(), i);
        proof {
            assert forall|k: Seq<char>| #[trigger]
                ids@.contains_key(k) <==> pool_named(pools@, i + 1, k) by {
                if k == key {
                    assert(pools@[i as int].id.0@ == k);
                } else {
                    assert(before.contains_key(k) <==> pool_named(pools@, i as int, k));
                    if pool_named(pools@, i + 1, k) {
                        let j = choose|j: int| 0 <= j < i + 1 && (#[trigger] pools@[j]).id.0@ == k;
                        assert(pool_named(pools@, i as int, k));
                    }
                }
            }
        }
        i += 1;
    }
    None
}

fn check_routes(
    cfg: &DynamicConfig,
    listener_ids: &StringHashMap<usize>,
    pool_ids: &StringHashMap<usize>,
) -> (r: Option<String>)
    requires
        forall|id: Seq<char>| #[trigger]
            listener_ids@.contains_key(id) <==> listener_named(
                cfg.listeners@,
                cfg.listeners@.len() as int,
                id,
            ),
        forall|id: Seq<char>| #[trigger]
            pool_ids@.contains_key(id) <==> pool_named(cfg.pools@, cfg.pools@.len() as int, id),
    ensures
        reports(r, first_problem(|i: int| route_problem(*cfg, i), cfg.routes@.len())),
{
    let ghost f = |i: int| route_problem(*cfg, i);
    let mut ids: StringHashMap<usize> = StringHashMap::new();
    let mut i: usize = 0;
    while i < cfg.routes.len()
        invariant
            i <= cfg.routes@.len(),
            f == (|i: int| route_problem(*cfg, i)),
            first_problem(f, i as nat) is None,
            forall|id: Seq<char>| #[trigger]
                listener_ids@.contains_key(id) <==> listener_named(
                    cfg.listeners@,
                    cfg.listeners@.len() as int,
                    id,
                ),
            forall|id: Seq<char>| #[trigger]
                pool_ids@.contains_key(id) <==> pool_named(
                    cfg.pools@,
                    cfg.pools@.len() as int,
                    id,
                ),
            forall|id: Seq<char>| #[trigger]
                ids@.contains_key(id) <==> route_named(cfg.routes@, i as int, id),
        decreases cfg.routes@.len() - i,
    {
        let r = &cfg.routes[i];
        let ghost key = r.id.0@;
        assert(f(i as int) == route_problem(*cfg, i as int));
        let unknown_pool = match &r.action {
            RouteAction::Forward(pool) => if pool_ids.contains_key(pool.as_str()) {
                None
            } else {
                Some(pool)
            },
            _ => None,
        };
        let host = crate::text::chars_of(r.host.as_str());
        let found = if ids.contains_key(r.id.0.as_str()) {
            Some(join2("duplicate route id: ", r.id.0.as_str()))
        } else if !listener_ids.contains_key(r.listener.0.as_str()) {
            let mut out = join3("route ", r.id.0.as_str(), " references unknown listener ");
            out.append(r.listener.0.as_str());
            Some(out)
        } else {
            match unknown_pool {
                Some(pool) => {
                    let mut out = join3("route ", r.id.0.as_str(), " forwards to unknown pool ");
                    out.append(pool.as_str());
                    Some(out)
                },
                None => if host.len() == 0 {
                    Some(join3("route ", r.id.0.as_str(), " has empty host"))
                } else {
                    None
                },
            }
        };
        match found {
            Some(m) => {
                proof {
                    assert(first_problem(f, (i + 1) as nat) is Some);
                    lemma_first_problem_stays(f, cfg.routes@.len(), (i + 1) as nat);
                }
                return Some(m);
            },
            None => {},
        }
        let ghost before = ids@;
        ids.insert(r.id.0.clone(), i);
        proof {
            assert forall|k: Seq<char>| #[trigger]
                ids@.contains_key(k) <==> route_named(cfg.routes@, i + 1, k) by {
                if k == key {
                    assert(cfg.routes@[i as int].id.0@ == k);
                } else {
                    assert(before.contains_key(k) <==> route_named(cfg.routes@, i as int, k));
                    if route_named(cfg.routes@, i + 1, k) {
                        let j = choose|j: int|
                            0 <= j < i + 1 && (#[trigger] cfg.routes@[j]).id.0@ == k;
                        assert(route_named(cfg.routes@, i as int, k));
                    }
                }
            }
        }
        i += 1;
    }
    None
}

fn check_certificates(cfg: &DynamicConfig) -> (r: Option<String>)
    ensures
        reports(r, certificate_problem(*cfg)),
{
    let mut defaults: usize = 0;
    let mut i: usize = 0;
    while i < cfg.certificates.len()
        invariant
            i <= cfg.certificates@.len(),
            defaults == default_certs(cfg.certificates@, i as nat),
            defaults <= i,
        decreases cfg.certificates@.len() - i,
    {
        if cfg.certificates[i].default {
            defaults += 1;
        }
        i += 1;
    }
    if defaults > 1 {
        return Some(owned("more than one default certificate"));
    }
    let mut has_https = false;
    let mut k: usize = 0;
    while k < cfg.listeners.len()
        invariant
            k <= cfg.listeners@.len(),
            has_https == some_https(cfg.listeners@, k as int),
        decreases cfg.listeners@.len() - k,
    {
        if cfg.listeners[k].is_tls() {
            assert(cfg.listeners@[k as int].protocol == ListenProtocol::Https);
            has_https = true;
        }
        proof {
            if some_https(cfg.listeners@, k + 1) {
                let j = choose|j: int|
                    0 <= j < k + 1 && (#[trigger] cfg.listeners@[j]).protocol
                        == ListenProtocol::Https;
                if j < k {
                    assert(some_https(cfg.listeners@, k as int));
                }
            }
        }
        k += 1;
    }
    if has_https && cfg.certificates.len() == 0 {
        return Some(owned("an https listener is configured but no certificates are provided"));
    }
    None
}

/// Validate the dynamic config. Returns the first error found.
pub fn validate(cfg: &DynamicConfig) -> (r: Result<(), GfeError>)
    ensures
        match r {
            Ok(_) => config_problem(*cfg) is None,
            Err(e) => e matches GfeError::Validation(m) && config_problem(*cfg) == Some(m@),
        },
{
    let mut listener_ids: StringHashMap<usize> = StringHashMap::new();
    match check_listeners(&cfg.listeners, &mut listener_ids) {
        Some(m) => return Err(GfeError::Validation(m)),
        None => {},
    }
    let mut pool_ids: StringHashMap<usize> = StringHashMap::new();
    match check_pools(&cfg.pools, &mut pool_ids) {
        Some(m) => return Err(GfeError::Validation(m)),
        None => {},
    }
    match check_routes(cfg, &listener_ids, &pool_ids) {
        Some(m) => return Err(GfeError::Validation(m)),
        None => {},
    }
    match check_certificates(cfg) {
        Some(m) => Err(GfeError::Validation(m)),
        None => Ok(()),
    }
}

// ---------------------------------------------------------------------------
// Laws of valid configurations
// ---------------------------------------------------------------------------

/// A valid configuration has distinct listener ids, distinct pool ids with
/// usable backends, and routes whose references resolve.
pub proof fn law_valid_config_resolves(cfg: DynamicConfig)
    requires
        config_problem(cfg) is None,
    ensures
        forall|i: int, j: int|
            0 <= i < j < cfg.listeners@.len() ==> (#[trigger] cfg.listeners@[i]).id.0@ != (
            #[trigger] cfg.listeners@[j]).id.0@,
        forall|i: int, j: int|
            0 <= i < j < cfg.pools@.len() ==> (#[trigger] cfg.pools@[i]).id.0@ != (
            #[trigger] cfg.pools@[j]).id.0@,
        forall|i: int, j: int|
            0 <= i < j < cfg.routes@.len() ==> (#[trigger] cfg.routes@[i]).id.0@ != (
            #[trigger] cfg.routes@[j]).id.0@,
        forall|i: int|
            0 <= i < cfg.pools@.len() ==> (#[trigger] cfg.pools@[i]).upstreams@.len() > 0,
        forall|i: int, k: int|
            0 <= i < cfg.pools@.len() && 0 <= k < cfg.pools@[i].upstreams@.len() ==> (
            #[trigger] cfg.pools@[i].upstreams@[k]).host@.len() > 0
                && cfg.pools@[i].upstreams@[k].port != 0,
        forall|i: int|
            0 <= i < cfg.routes@.len() ==> {
                let r = #[trigger] cfg.routes@[i];
                &&& listener_named(cfg.listeners@, cfg.listeners@.len() as int, r.listener.0@)
                &&& r.action is Forward ==> pool_named(
                    cfg.pools@,
                    cfg.pools@.len() as int,
                    r.action->Forward_0@,
                )
                &&& r.host@.len() > 0
            },
        default_certs(cfg.certificates@, cfg.certificates@.len()) <= 1,
        some_https(cfg.listeners@, cfg.listeners@.len() as int) ==> cfg.certificates@.len() > 0,
{
    let lf = |i: int| listener_problem(cfg.listeners@, i);
    let pf = |i: int| pool_problem(cfg.pools@, i);
    let rf = |i: int| route_problem(cfg, i);
    assert forall|i: int, j: int| 0 <= i < j < cfg.listeners@.len() implies (
    #[trigger] cfg.listeners@[i]).id.0@ != (#[trigger] cfg.listeners@[j]).id.0@ by {
        lemma_no_first_problem(lf, cfg.listeners@.len(), j);
    }
    assert forall|i: int, j: int| 0 <= i < j < cfg.pools@.len() implies (
    #[trigger] cfg.pools@[i]).id.0@ != (#[trigger] cfg.pools@[j]).id.0@ by {
        lemma_no_first_problem(pf, cfg.pools@.len(), j);
    }
    assert forall|i: int, j: int| 0 <= i < j < cfg.routes@.len() implies (
    #[trigger] cfg.routes@[i]).id.0@ != (#[trigger] cfg.routes@[j]).id.0@ by {
        lemma_no_first_problem(rf, cfg.routes@.len(), j);
    }
    assert forall|i: int| 0 <= i < cfg.pools@.len() implies (
    #[trigger] cfg.pools@[i]).upstreams@.len() > 0 by {
        lemma_no_first_problem(pf, cfg.pools@.len(), i);
    }
    assert forall|i: int, k: int|
        0 <= i < cfg.pools@.len() && 0 <= k < cfg.pools@[i].upstreams@.len() implies (
    #[trigger] cfg.pools@[i].upstreams@[k]).host@.len() > 0 && cfg.pools@[i].upstreams@[k].port
        != 0 by {
        lemma_no_first_problem(pf, cfg.pools@.len(), i);
        let p = cfg.pools@[i];
        let uf = |k: int| upstream_problem(p, k);
        lemma_no_first_problem(uf, p.upstreams@.len(), k);
    }
    assert forall|i: int| 0 <= i < cfg.routes@.len() implies {
        let r = #[trigger] cfg.routes@[i];
        &&& listener_named(cfg.listeners@, cfg.listeners@.len() as int, r.listener.0@)
        &&& r.action is Forward ==> pool_named(
            cfg.pools@,
            cfg.pools@.len() as int,
            r.action->Forward_0@,
        )
        &&& r.host@.len() > 0
    } by {
        lemma_no_first_problem(rf, cfg.routes@.len(), i);
    }
}

proof fn lemma_named_pool_has_place(pools: Seq<UpstreamPool>, id: Seq<char>)
    requires
        pool_named(pools, pools.len() as int, id),
    ensures
        last_with_id(pools, id) is Some,
    decreases pools.len(),
{
    let j = choose|j: int| 0 <= j < pools.len() && (#[trigger] pools[j]).id.0@ == id;
    if pools.last().id.0@ != id {
        let before = pools.drop_last();
        assert(before[j].id.0@ == id);
        lemma_named_pool_has_place(before, id);
    }
}

/// With a valid configuration a request that is routed to a pool finds it: a
/// forwarding route never leads to a missing pool.
pub proof fn law_routed_pool_exists(
    cfg: DynamicConfig,
    pools: PoolSet,
    listener: Seq<char>,
    host: Seq<char>,
    path: Seq<char>,
    i: int,
)
    requires
        config_problem(cfg) is None,
        pools.built_from(cfg.pools@),
        routes_to(cfg.routes@, listener, host, path, i),
        cfg.routes@[i].action is Forward,
    ensures
        pools.has(cfg.routes@[i].action->Forward_0@),
{
    law_valid_config_resolves(cfg);
    let id = cfg.routes@[i].action->Forward_0@;
    assert(cfg.routes@[i].host@.len() > 0);
    lemma_named_pool_has_place(cfg.pools@, id);
    assert(pools.has(id) == (last_with_id(cfg.pools@, id) is Some));
}

/// Whether a configuration keeps the rules: ids are not used twice, every pool
/// has backends and every backend a host and a port, every route has a host and
/// names a listener and a pool that exist, at most one certificate is the
/// default, and https listeners have certificates to serve.
pub open spec fn keeps_the_rules(cfg: DynamicConfig) -> bool {
    &&& forall|i: int, j: int|
        0 <= i < j < cfg.listeners@.len() ==> (#[trigger] cfg.listeners@[i]).id.0@ != (
        #[trigger] cfg.listeners@[j]).id.0@
    &&& forall|i: int, j: int|
        0 <= i < j < cfg.pools@.len() ==> (#[trigger] cfg.pools@[i]).id.0@ != (
        #[trigger] cfg.pools@[j]).id.0@
    &&& forall|i: int, j: int|
        0 <= i < j < cfg.routes@.len() ==> (#[trigger] cfg.routes@[i]).id.0@ != (
        #[trigger] cfg.routes@[j]).id.0@
    &&& forall|i: int|
        0 <= i < cfg.pools@.len() ==> (#[trigger] cfg.pools@[i]).upstreams@.len() > 0
    &&& forall|i: int, k: int|
        0 <= i < cfg.pools@.len() && 0 <= k < cfg.pools@[i].upstreams@.len() ==> (
        #[trigger] cfg.pools@[i].upstreams@[k]).host@.len() > 0
            && cfg.pools@[i].upstreams@[k].port > 0
    &&& forall|i: int|
        0 <= i < cfg.routes@.len() ==> exists|k: int|
            0 <= k < cfg.listeners@.len() && (#[trigger] cfg.listeners@[k]).id.0@ == (
            #[trigger] cfg.routes@[i]).listener.0@
    &&& forall|i: int|
        0 <= i < cfg.routes@.len() && (#[trigger] cfg.routes@[i]).action is Forward ==> exists|
            k: int,
        |
            0 <= k < cfg.pools@.len() && (#[trigger] cfg.pools@[k]).id.0@
                == cfg.routes@[i].action->Forward_0@
    &&& forall|i: int| 0 <= i < cfg.routes@.len() ==> (#[trigger] cfg.routes@[i]).host@.len() > 0
    &&& forall|i: int, j: int|
        0 <= i < j < cfg.certificates@.len() ==> !((#[trigger] cfg.certificates@[i]).default && (
        #[trigger] cfg.certificates@[j]).default)
    &&& (exists|i: int|
        0 <= i < cfg.listeners@.len() && (#[trigger] cfg.listeners@[i]).protocol
            == ListenProtocol::Https) ==> cfg.certificates@.len() > 0
}

proof fn lemma_defaults(certificates: Seq<CertEntry>, n: nat)
    requires
        n <= certificates.len(),
    ensures
        default_certs(certificates, n) == 0 <==> forall|i: int|
            0 <= i < n ==> !(#[trigger] certificates[i]).default,
        default_certs(certificates, n) <= 1 <==> forall|i: int, j: int|
            0 <= i < j < n ==> !((#[trigger] certificates[i]).default && (
            #[trigger] certificates[j]).default),
    decreases n,
{
    if n > 0 {
        let m = (n - 1) as nat;
        lemma_defaults(certificates, m);
        let last = certificates[m as int];
        if forall|i: int, j: int|
            0 <= i < j < n ==> !((#[trigger] certificates[i]).default && (
            #[trigger] certificates[j]).default) {
            if last.default {
                assert forall|i: int| 0 <= i < m implies !(#[trigger] certificates[i]).default by {
                    assert(!(certificates[i].default && certificates[m as int].default));
                }
            }
        }
    }
}

/// A configuration is accepted exactly when it keeps the rules.
pub proof fn law_accepted_iff_rules_are_kept(cfg: DynamicConfig)
    ensures
        config_problem(cfg) is None <==> keeps_the_rules(cfg),
{
    lemma_defaults(cfg.certificates@, cfg.certificates@.len());
    if config_problem(cfg) is None {
        law_valid_config_resolves(cfg);
    }
    if keeps_the_rules(cfg) {
        let lf = |i: int| listener_problem(cfg.listeners@, i);
        let pf = |i: int| pool_problem(cfg.pools@, i);
        let rf = |i: int| route_problem(cfg, i);
        assert forall|i: int| 0 <= i < cfg.listeners@.len() implies (#[trigger] lf(i)) is None by {}
        lemma_all_fine(lf, cfg.listeners@.len());
        assert forall|i: int| 0 <= i < cfg.pools@.len() implies (#[trigger] pf(i)) is None by {
            lemma_pool_is_fine(cfg.pools@, i);
        }
        lemma_all_fine(pf, cfg.pools@.len());
        assert forall|i: int| 0 <= i < cfg.routes@.len() implies (#[trigger] rf(i)) is None by {
            let r = cfg.routes@[i];
        }
        lemma_all_fine(rf, cfg.routes@.len());
    }
}

proof fn lemma_pool_is_fine(pools: Seq<UpstreamPool>, i: int)
    requires
        0 <= i < pools.len(),
        forall|j: int| 0 <= j < i ==> (#[trigger] pools[j]).id.0@ != pools[i].id.0@,
        pools[i].upstreams@.len() > 0,
        forall|k: int|
            0 <= k < pools[i].upstreams@.len() ==> (#[trigger] pools[i].upstreams@[k]).host@.len()
                > 0 && pools[i].upstreams@[k].port > 0,
    ensures
        pool_problem(pools, i) is None,
{
    let p = pools[i];
    let uf = |k: int| upstream_problem(p, k);
    assert forall|k: int| 0 <= k < p.upstreams@.len() implies (#[trigger] uf(k)) is None by {
        assert(pools[i].upstreams@[k].host@.len() > 0);
    }
    lemma_all_fine(uf, p.upstreams@.len());
}

/// The first listener whose id is taken is what a configuration is refused for,
/// whatever else is wrong with it.
pub proof fn law_taken_listener_id_is_named(cfg: DynamicConfig, i: int, j: int)
    requires
        0 <= j < i < cfg.listeners@.len(),
        cfg.listeners@[j].id.0@ == cfg.listeners@[i].id.0@,
        forall|a: int, b: int|
            0 <= a < b < i ==> (#[trigger] cfg.listeners@[a]).id.0@ != (
            #[trigger] cfg.listeners@[b]).id.0@,
    ensures
        config_problem(cfg) == Some("duplicate listener id: "@ + cfg.listeners@[i].id.0@),
{
    let lf = |k: int| listener_problem(cfg.listeners@, k);
    assert forall|k: int| 0 <= k < i implies (#[trigger] lf(k)) is None by {}
    assert(lf(i) is Some);
    law_first_problem_is_first(lf, cfg.listeners@.len(), i);
}

/// With the listeners in order, the first pool with a problem is what a
/// configuration is refused for: its id is taken, it has no backends, or one of
/// them, the first such, lacks a host or a port.
pub proof fn law_bad_pool_is_named(cfg: DynamicConfig, i: int, k: int)
    requires
        forall|a: int, b: int|
            0 <= a < b < cfg.listeners@.len() ==> (#[trigger] cfg.listeners@[a]).id.0@ != (
            #[trigger] cfg.listeners@[b]).id.0@,
        0 <= i < cfg.pools@.len(),
        forall|a: int, b: int|
            0 <= a < b < i ==> (#[trigger] cfg.pools@[a]).id.0@ != (
            #[trigger] cfg.pools@[b]).id.0@,
        forall|a: int| 0 <= a < i ==> (#[trigger] cfg.pools@[a]).upstreams@.len() > 0,
        forall|a: int, b: int|
            0 <= a < i && 0 <= b < cfg.pools@[a].upstreams@.len() ==> (
            #[trigger] cfg.pools@[a].upstreams@[b]).host@.len() > 0
                && cfg.pools@[a].upstreams@[b].port > 0,
    ensures
        ({
            let p = cfg.pools@[i];
            let taken = exists|j: int| 0 <= j < i && (#[trigger] cfg.pools@[j]).id.0@ == p.id.0@;
            &&& taken ==> config_problem(cfg) == Some("duplicate pool id: "@ + p.id.0@)
            &&& !taken && p.upstreams@.len() == 0 ==> config_problem(cfg) == Some(
                "pool "@ + p.id.0@ + " has no upstreams"@,
            )
            &&& !taken && 0 <= k < p.upstreams@.len() && (p.upstreams@[k].host@.len() == 0
                || p.upstreams@[k].port == 0) && (forall|b: int|
                0 <= b < k ==> (#[trigger] p.upstreams@[b]).host@.len() > 0 && p.upstreams@[b].port
                    > 0) ==> config_problem(cfg) == Some(
                "pool "@ + p.id.0@ + " has an invalid upstream "@ + (p.upstreams@[k].host@ + ":"@
                    + decimal(p.upstreams@[k].port as nat)),
            )
        }),
{
    let lf = |a: int| listener_problem(cfg.listeners@, a);
    let pf = |a: int| pool_problem(cfg.pools@, a);
    assert forall|a: int| 0 <= a < cfg.listeners@.len() implies (#[trigger] lf(a)) is None by {}
    lemma_all_fine(lf, cfg.listeners@.len());
    assert forall|a: int| 0 <= a < i implies (#[trigger] pf(a)) is None by {
        lemma_pool_is_fine(cfg.pools@, a);
    }
    let p = cfg.pools@[i];
    let uf = |b: int| upstream_problem(p, b);
    if 0 <= k < p.upstreams@.len() && (p.upstreams@[k].host@.len() == 0 || p.upstreams@[k].port
        == 0) && (forall|b: int|
        0 <= b < k ==> (#[trigger] p.upstreams@[b]).host@.len() > 0 && p.upstreams@[b].port > 0) {
        assert forall|b: int| 0 <= b < k implies (#[trigger] uf(b)) is None by {
            assert(p.upstreams@[b].host@.len() > 0);
        }
        assert(uf(k) is Some);
        law_first_problem_is_first(uf, p.upstreams@.len(), k);
    }
    if pf(i) is Some {
        law_first_problem_is_first(pf, cfg.pools@.len(), i);
    }
}

/// With listeners and pools in order, the first route with a problem is what a
/// configuration is refused for: its id is taken, its listener is unknown, its
/// pool is unknown, or it has no host.
pub proof fn law_bad_route_is_named(cfg: DynamicConfig, good: DynamicConfig, i: int)
    requires
        keeps_the_rules(good),
        good.listeners@ == cfg.listeners@,
        good.pools@ == cfg.pools@,
        0 <= i < cfg.routes@.len(),
        good.routes@ == cfg.routes@.take(i),
    ensures
        ({
            let r = cfg.routes@[i];
            let taken = exists|j: int| 0 <= j < i && (#[trigger] cfg.routes@[j]).id.0@ == r.id.0@;
            let listens = exists|j: int|
                0 <= j < cfg.listeners@.len() && (#[trigger] cfg.listeners@[j]).id.0@
                    == r.listener.0@;
            let pooled = r.action is Forward ==> exists|j: int|
                0 <= j < cfg.pools@.len() && (#[trigger] cfg.pools@[j]).id.0@
                    == r.action->Forward_0@;
            &&& taken ==> config_problem(cfg) == Some("duplicate route id: "@ + r.id.0@)
            &&& !taken && !listens ==> config_problem(cfg) == Some(
                "route "@ + r.id.0@ + " references unknown listener "@ + r.listener.0@,
            )
            &&& !taken && listens && !pooled ==> config_problem(cfg) == Some(
                "route "@ + r.id.0@ + " forwards to unknown pool "@ + r.action->Forward_0@,
            )
            &&& !taken && listens && pooled && r.host@.len() == 0 ==> config_problem(cfg) == Some(
                "route "@ + r.id.0@ + " has empty host"@,
            )
        }),
{
    let lf = |a: int| listener_problem(cfg.listeners@, a);
    let pf = |a: int| pool_problem(cfg.pools@, a);
    let rf = |a: int| route_problem(cfg, a);
    assert forall|a: int| 0 <= a < cfg.listeners@.len() implies (#[trigger] lf(a)) is None by {}
    lemma_all_fine(lf, cfg.listeners@.len());
    assert forall|a: int| 0 <= a < cfg.pools@.len() implies (#[trigger] pf(a)) is None by {
        lemma_pool_is_fine(cfg.pools@, a);
    }
    lemma_all_fine(pf, cfg.pools@.len());
    assert forall|a: int| 0 <= a < i implies (#[trigger] rf(a)) is None by {
        assert(good.routes@[a] == cfg.routes@[a]);
        assert forall|b: int| 0 <= b < a implies (#[trigger] cfg.routes@[b]).id.0@
            != cfg.routes@[a].id.0@ by {
            assert(good.routes@[b] == cfg.routes@[b]);
        }
    }
    if rf(i) is Some {
        law_first_problem_is_first(rf, cfg.routes@.len(), i);
    }
}

/// With listeners, pools and routes in order, two default certificates are what
/// a configuration is refused for, and otherwise an https listener without any
/// certificate.
pub proof fn law_bad_certificates_are_named(cfg: DynamicConfig, good: DynamicConfig)
    requires
        keeps_the_rules(good),
        good.listeners@ == cfg.listeners@,
        good.pools@ == cfg.pools@,
        good.routes@ == cfg.routes@,
    ensures
        ({
            let two = exists|i: int, j: int|
                0 <= i < j < cfg.certificates@.len() && (#[trigger] cfg.certificates@[i]).default
                    && (#[trigger] cfg.certificates@[j]).default;
            let https = exists|i: int|
                0 <= i < cfg.listeners@.len() && (#[trigger] cfg.listeners@[i]).protocol
                    == ListenProtocol::Https;
            &&& two ==> config_problem(cfg) == Some("more than one default certificate"@)
            &&& https && cfg.certificates@.len() == 0 ==> config_problem(cfg) == Some(
                "an https listener is configured but no certificates are provided"@,
            )
        }),
{
    lemma_defaults(cfg.certificates@, cfg.certificates@.len());
    let lf = |a: int| listener_problem(cfg.listeners@, a);
    let pf = |a: int| pool_problem(cfg.pools@, a);
    let rf = |a: int| route_problem(cfg, a);
    assert forall|a: int| 0 <= a < cfg.listeners@.len() implies (#[trigger] lf(a)) is None by {}
    lemma_all_fine(lf, cfg.listeners@.len());
    assert forall|a: int| 0 <= a < cfg.pools@.len() implies (#[trigger] pf(a)) is None by {
        lemma_pool_is_fine(cfg.pools@, a);
    }
    lemma_all_fine(pf, cfg.pools@.len());
    assert forall|a: int| 0 <= a < cfg.routes@.len() implies (#[trigger] rf(a)) is None by {
        let r = cfg.routes@[a];
    }
    lemma_all_fine(rf, cfg.routes@.len());
}

}
