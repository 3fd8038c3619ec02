//! Compile a validated dynamic config into snapshots and put them in place.
//! In-flight requests finish on the old snapshots.

use super::validator::{config_problem, law_valid_config_resolves, validate};
use crate::health::checker::{
    at_address, law_mentioned_backends, mentioned, pool_mentions,
};
use crate::proxy::ProxyShared;
use crate::router::RouteTable;
use crate::tls::cert_store::{bindings_of, default_of, expiries_of, expiry_view, store_problem};
use crate::tls::{CertFiles, CertStore};
use crate::types::{DynamicConfig, GfeError, UpstreamPool};
use crate::upstream::health_map::listed;
use crate::upstream::pool::{last_with_id, law_all_backends_are_listed, PoolSet};
use vstd::prelude::*;

verus! {

/// What an applied configuration holds, for metrics and logs.
#[derive(Debug)]
pub struct ApplyReport {
    pub routes: usize,
    pub pools: usize,
    /// The number of certificate bindings.
    pub certs: usize,
    /// `(sni-name, not_after_unix)` pairs.
    pub expiries: Vec<(String, i64)>,
}

/// Whether the shared state is that of a configuration, and otherwise as
/// before.
pub open spec fn is_applied(
    before: ProxyShared,
    after: ProxyShared,
    cfg: DynamicConfig,
    files: Seq<CertFiles>,
) -> bool {
    let certs = cfg.certificates@;
    let store = after.resolver.store();
    &&& after.routes.routes() == cfg.routes@
    &&& after.pools.built_from(cfg.pools@)
    &&& store.bindings() == bindings_of(certs, files, certs.len())
    &&& store.default_key() == default_of(certs, files, certs.len())
    &&& store.expiry_list() == expiries_of(certs, files, certs.len())
    &&& after.resolver.misses() == before.resolver.misses()
    &&& after.health.recorded() == before.health.recorded().restrict(
        Set::new(|k: (Seq<char>, u16)| mentioned(cfg.pools@, k.0, k.1)),
    )
    &&& after.health.optimistic() == before.health.optimistic()
    &&& after.challenges == before.challenges
    &&& after.limits == before.limits
    &&& after.timeouts == before.timeouts
    &&& after.tls == before.tls
    &&& after.draining == before.draining
}

/// Whether a report tells what the shared state holds after applying a
/// configuration.
pub open spec fn reports_on(rep: ApplyReport, after: ProxyShared, cfg: DynamicConfig) -> bool {
    &&& rep.routes == cfg.routes@.len()
    &&& rep.pools == after.pools.listing().len()
    &&& rep.certs == after.resolver.store().binding_count()
    &&& expiry_view(rep.expiries@) == after.resolver.store().expiry_list()
}

proof fn lemma_last_of_distinct(pools: Seq<UpstreamPool>, i: int)
    requires
        0 <= i < pools.len(),
        forall|a: int, b: int|
            0 <= a < b < pools.len() ==> (#[trigger] pools[a]).id.0@ != (#[trigger] pools[b]).id.0@,
    ensures
        last_with_id(pools, pools[i].id.0@) == Some(i),
    decreases pools.len(),
{
    if i < pools.len() - 1 {
        let before = pools.drop_last();
        assert(pools[i].id.0@ != pools[pools.len() - 1].id.0@);
        assert forall|a: int, b: int| 0 <= a < b < before.len() implies (
        #[trigger] before[a]).id.0@ != (#[trigger] before[b]).id.0@ by {
            assert(before[a] == pools[a] && before[b] == pools[b]);
        }
        lemma_last_of_distinct(before, i);
    }
}

proof fn lemma_last_in_range(pools: Seq<UpstreamPool>, id: Seq<char>)
    ensures
        match last_with_id(pools, id) {
            Some(i) => 0 <= i < pools.len(),
            None => true,
        },
    decreases pools.len(),
{
    if pools.len() > 0 && pools.last().id.0@ != id {
        lemma_last_in_range(pools.drop_last(), id);
    }
}

/// The backends of the pools built from a valid configuration are those that
/// the configuration mentions.
proof fn lemma_backends_are_mentioned(
    cfg: DynamicConfig,
    set: PoolSet,
    backends: Seq<(String, u16)>,
    host: Seq<char>,
    port: u16,
)
    requires
        config_problem(cfg) is None,
        set.built_from(cfg.pools@),
        crate::upstream::pool::addresses(backends) == crate::upstream::pool::backends_of(
            set.listing(),
        ),
    ensures
        listed(backends, host, port) == mentioned(cfg.pools@, host, port),
{
    law_valid_config_resolves(cfg);
    law_all_backends_are_listed(set.listing(), backends, host, port);
    let pools = cfg.pools@;
    if listed(backends, host, port) {
        let (i, k) = choose|i: int, k: int|
            0 <= i < set.listing().len() && 0 <= k < set.listing()[i].upstreams@.len() && (
            #[trigger] set.listing()[i].upstreams@[k]).host@ == host
                && set.listing()[i].upstreams@[k].port == port;
        let p = set.listing()[i];
        let id = p.id.0@;
        assert(set.has(id));
        assert(set.pool(id) == p);
        lemma_last_in_range(pools, id);
        let c = last_with_id(pools, id)->0;
        assert(p.made_from(pools[c]));
        assert(at_address(pools[c].upstreams@[k], host, port));
        assert(pool_mentions(pools[c], host, port));
    }
    if mentioned(pools, host, port) {
        let c = choose|c: int| 0 <= c < pools.len() && pool_mentions(#[trigger] pools[c], host, port);
        let k = choose|k: int|
            0 <= k < pools[c].upstreams@.len() && at_address(
                #[trigger] pools[c].upstreams@[k],
                host,
                port,
            );
        let id = pools[c].id.0@;
        lemma_last_of_distinct(pools, c);
        assert(set.has(id) == (last_with_id(pools, id) is Some));
        let i = set.places()[id] as int;
        assert(set.listing()[i].made_from(pools[c]));
        assert(set.listing()[i].upstreams@[k].host@ == host);
    }
}

/// Validate and apply a dynamic config to the running shared state.
///
/// Order is: build everything first (cert store, route table, pool set), then
/// put each in place. If any build step fails, nothing is replaced and the
/// old snapshots remain live.
pub fn apply(shared: &mut ProxyShared, cfg: &DynamicConfig, files: &[CertFiles]) -> (r: Result<
    ApplyReport,
    GfeError,
>)
    requires
        files@.len() == cfg.certificates@.len(),
    ensures
        match r {
            Ok(rep) => {
                &&& config_problem(*cfg) is None
                &&& store_problem(cfg.certificates@, files@) is None
                &&& is_applied(*old(shared), *final(shared), *cfg, files@)
                &&& reports_on(rep, *final(shared), *cfg)
            },
            Err(e) => {
                &&& *final(shared) == *old(shared)
                &&& match config_problem(*cfg) {
                    Some(m) => e matches GfeError::Validation(t) && t@ == m,
                    None => store_problem(cfg.certificates@, files@) == Some(e.message_spec()),
                }
            },
        },
{
    match validate(cfg) {
        Ok(_) => {},
        Err(e) => return Err(e),
    }
    // Build new snapshots (may fail on cert load: keep old state).
    let cert_store = match CertStore::build(cfg.certificates.as_slice(), files) {
        Ok(s) => s,
        Err(e) => return Err(e),
    };
    let route_table = RouteTable::compile(cfg);
    let pool_set = PoolSet::build(cfg.pools.as_slice());
    let backends = pool_set.all_backends();
    let expiries = copy_expiries(cert_store.expiries());
    let certs = cert_store.len();
    let routes = route_table.route_count();
    let pools = pool_set.len();
    proof {
        assert forall|host: Seq<char>, port: u16|
            listed(backends@, host, port) == mentioned(cfg.pools@, host, port) by {
            lemma_backends_are_mentioned(*cfg, pool_set, backends@, host, port);
        }
        assert(Set::new(|k: (Seq<char>, u16)| listed(backends@, k.0, k.1)) =~= Set::new(
            |k: (Seq<char>, u16)| mentioned(cfg.pools@, k.0, k.1),
        ));
    }
    shared.resolver.swap(cert_store);
    shared.routes = route_table;
    shared.pools = pool_set;
    // Prune health entries for backends no longer present.
    shared.health.retain(backends.as_slice());
    Ok(ApplyReport { routes, pools, certs, expiries })
}

fn copy_expiries(from: &Vec<(String, i64)>) -> (r: Vec<(String, i64)>)
    ensures
        expiry_view(r@) == expiry_view(from@),
{
    let mut out: Vec<(String, i64)> = Vec::new();
    let mut i: usize = 0;
    while i < from.len()
        invariant
            i <= from@.len(),
            out@.len() == i,
            forall|j: int|
                0 <= j < i ==> (#[trigger] out@[j]).0@ == from@[j].0@ && out@[j].1 == from@[j].1,
        decreases from@.len() - i,
    {
        out.push((from[i].0.clone(), from[i].1));
        i += 1;
    }
    assert(expiry_view(out@) =~= expiry_view(from@));
    out
}

/// The routes, pools and certificates after applying a configuration depend on
/// that configuration and its files alone, and not on the state before.
pub proof fn law_snapshots_follow_config(
    a: ProxyShared,
    b: ProxyShared,
    after_a: ProxyShared,
    after_b: ProxyShared,
    cfg: DynamicConfig,
    files: Seq<CertFiles>,
)
    requires
        is_applied(a, after_a, cfg, files),
        is_applied(b, after_b, cfg, files),
    ensures
        after_a.routes.routes() == after_b.routes.routes(),
        after_a.resolver.store().bindings() == after_b.resolver.store().bindings(),
        after_a.resolver.store().default_key() == after_b.resolver.store().default_key(),
        after_a.resolver.store().expiry_list() == after_b.resolver.store().expiry_list(),
        forall|id: Seq<char>| #[trigger] after_a.pools.has(id) == after_b.pools.has(id),
{
    assert forall|id: Seq<char>| #[trigger] after_a.pools.has(id) == after_b.pools.has(id) by {
        assert(after_b.pools.has(id) == (last_with_id(cfg.pools@, id) is Some));
    }
}

/// Applying a configuration puts its routes, its pools and its certificates in
/// place. What is known of a backend is kept exactly where the configuration
/// still has a backend at that address, and everything else stays as it was.
pub proof fn law_applied_state(
    before: ProxyShared,
    after: ProxyShared,
    cfg: DynamicConfig,
    files: Seq<CertFiles>,
    host: Seq<char>,
    port: u16,
)
    requires
        is_applied(before, after, cfg, files),
    ensures
        after.routes.routes() == cfg.routes@,
        after.pools.built_from(cfg.pools@),
        after.resolver.store().bindings() == bindings_of(
            cfg.certificates@,
            files,
            cfg.certificates@.len(),
        ),
        after.resolver.store().default_key() == default_of(
            cfg.certificates@,
            files,
            cfg.certificates@.len(),
        ),
        after.resolver.store().expiry_list() == expiries_of(
            cfg.certificates@,
            files,
            cfg.certificates@.len(),
        ),
        after.resolver.misses() == before.resolver.misses(),
        after.health.recorded().contains_key((host, port)) <==> before.health.recorded().contains_key(
            (host, port),
        ) && exists|i: int, k: int|
            0 <= i < cfg.pools@.len() && 0 <= k < cfg.pools@[i].upstreams@.len() && (
            #[trigger] cfg.pools@[i].upstreams@[k]).host@ == host
                && cfg.pools@[i].upstreams@[k].port == port,
        after.health.recorded().contains_key((host, port)) ==> after.health.recorded()[(host, port)]
            == before.health.recorded()[(host, port)],
        after.health.optimistic() == before.health.optimistic(),
        after.challenges == before.challenges,
        after.limits == before.limits,
        after.timeouts == before.timeouts,
        after.tls == before.tls,
        after.draining == before.draining,
{
    law_mentioned_backends(cfg.pools@, host, port);
}

/// A report counts the routes of the configuration, the pools and the
/// certificate bindings, and lists the expiries of the certificates.
pub proof fn law_reports(rep: ApplyReport, after: ProxyShared, cfg: DynamicConfig, i: int)
    requires
        reports_on(rep, after, cfg),
    ensures
        rep.routes == cfg.routes@.len(),
        rep.pools == after.pools.listing().len(),
        rep.certs == after.resolver.store().binding_count(),
        rep.expiries@.len() == after.resolver.store().expiry_list().len(),
        0 <= i < rep.expiries@.len() ==> rep.expiries@[i].0@
            == after.resolver.store().expiry_list()[i].0 && rep.expiries@[i].1
            == after.resolver.store().expiry_list()[i].1,
{
    assert(expiry_view(rep.expiries@).len() == rep.expiries@.len());
}

}
