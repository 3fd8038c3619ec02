//! The health checker: reconciles a set of probe loops against the configured
//! pools, deduplicating by `(host, port)`, and records committed transitions
//! in the health map.

use super::probe::ProbeResult;
use super::state_machine::{health_step, BackendHealth};
use crate::metrics::BackendLabels;
use crate::text::{owned, str_eq, texts};
use crate::types::upstream::{authority_of, authority_text};
use crate::types::{HealthCheckConfig, HealthStatus, Upstream, UpstreamPool};
use crate::upstream::health_map::{is_listed, listed};
use crate::upstream::HealthMap;
use vstd::prelude::*;

verus! {

// ---------------------------------------------------------------------------
// What is to be probed
// ---------------------------------------------------------------------------

/// Whether backend `u` has the given address.
pub open spec fn at_address(u: Upstream, host: Seq<char>, port: u16) -> bool {
    u.host@ == host && u.port == port
}

/// Whether a pool has a backend with the given address.
pub open spec fn pool_mentions(pool: UpstreamPool, host: Seq<char>, port: u16) -> bool {
    exists|k: int|
        0 <= k < pool.upstreams@.len() && at_address(#[trigger] pool.upstreams@[k], host, port)
}

/// Whether some pool has a backend with the given address.
pub open spec fn mentioned(pools: Seq<UpstreamPool>, host: Seq<char>, port: u16) -> bool {
    exists|i: int| 0 <= i < pools.len() && pool_mentions(#[trigger] pools[i], host, port)
}

/// The health check of a pool: its own, or the defaults.
pub open spec fn check_of(pool: UpstreamPool, defaults: HealthCheckConfig) -> HealthCheckConfig {
    match pool.health_check {
        Some(c) => c,
        None => defaults,
    }
}

/// The health check of an address: that of the first pool that mentions it.
pub open spec fn first_check(
    pools: Seq<UpstreamPool>,
    defaults: HealthCheckConfig,
    host: Seq<char>,
    port: u16,
) -> Option<HealthCheckConfig>
    decreases pools.len(),
{
    if pools.len() == 0 {
        None
    } else {
        match first_check(pools.drop_last(), defaults, host, port) {
            Some(c) => Some(c),
            None => if pool_mentions(pools.last(), host, port) {
                Some(check_of(pools.last(), defaults))
            } else {
                None
            },
        }
    }
}

/// How often the first `n` backends of a pool have the given address: the
/// pool id once for each.
pub open spec fn mentions_in(pool: UpstreamPool, n: nat, host: Seq<char>, port: u16) -> Seq<
    Seq<char>,
>
    decreases n,
{
    if n == 0 {
        Seq::empty()
    } else {
        let before = mentions_in(pool, (n - 1) as nat, host, port);
        if at_address(pool.upstreams@[n - 1], host, port) {
            before.push(pool.id.0@)
        } else {
            before
        }
    }
}

/// The ids of the pools that mention an address, once for each mention.
pub open spec fn pools_of(pools: Seq<UpstreamPool>, host: Seq<char>, port: u16) -> Seq<Seq<char>>
    decreases pools.len(),
{
    if pools.len() == 0 {
        Seq::empty()
    } else {
        pools_of(pools.drop_last(), host, port) + mentions_in(
            pools.last(),
            pools.last().upstreams@.len(),
            host,
            port,
        )
    }
}

/// A backend to probe, how, and the pools it serves.
#[derive(Debug)]
pub struct ProbeJob {
    pub host: String,
    pub port: u16,
    pub check: HealthCheckConfig,
    pub pools: Vec<String>,
}

/// The probe loops to end and to begin.
pub struct ReconcilePlan {
    pub stop: Vec<(String, u16)>,
    pub start: Vec<ProbeJob>,
}

impl ProbeJob {
    /// Whether the job probes an address as the first `n` backends of pool
    /// `last` and all of the pools before it ask for.
    pub open spec fn follows(
        self,
        before: Seq<UpstreamPool>,
        last: UpstreamPool,
        n: nat,
        defaults: HealthCheckConfig,
    ) -> bool {
        let host = self.host@;
        let port = self.port;
        &&& texts(self.pools@) == pools_of(before, host, port) + mentions_in(last, n, host, port)
        &&& match first_check(before, defaults, host, port) {
            Some(c) => self.check == c,
            None => mentions_in(last, n, host, port).len() > 0 && self.check == check_of(
                last,
                defaults,
            ),
        }
    }

    /// Whether the job is the one a configuration asks for.
    pub open spec fn serves(self, pools: Seq<UpstreamPool>, defaults: HealthCheckConfig) -> bool {
        &&& first_check(pools, defaults, self.host@, self.port) == Some(self.check)
        &&& texts(self.pools@) == pools_of(pools, self.host@, self.port)
    }
}

/// The place of the job with the given address.
pub open spec fn has_job(jobs: Seq<ProbeJob>, host: Seq<char>, port: u16) -> bool {
    exists|j: int|
        0 <= j < jobs.len() && (#[trigger] jobs[j]).host@ == host && jobs[j].port == port
}

/// No address has two jobs.
pub open spec fn distinct_jobs(jobs: Seq<ProbeJob>) -> bool {
    forall|a: int, b: int|
        0 <= a < b < jobs.len() ==> !((#[trigger] jobs[a]).host@ == (#[trigger] jobs[b]).host@
            && jobs[a].port == jobs[b].port)
}

fn find_job(jobs: &Vec<ProbeJob>, host: &str, port: u16) -> (r: Option<usize>)
    ensures
        match r {
            Some(j) => j < jobs@.len() && jobs@[j as int].host@ == host@ && jobs@[j as int].port
                == port,
            None => !has_job(jobs@, host@, port),
        },
{
    let mut j: usize = 0;
    while j < jobs.len()
        invariant
            j <= jobs@.len(),
            forall|a: int|
                0 <= a < j ==> !((#[trigger] jobs@[a]).host@ == host@ && jobs@[a].port == port),
        decreases jobs@.len() - j,
    {
        if jobs[j].port == port && str_eq(jobs[j].host.as_str(), host) {
            return Some(j);
        }
        j += 1;
    }
    None
}

proof fn lemma_mentions_in(pool: UpstreamPool, n: nat, host: Seq<char>, port: u16)
    requires
        n <= pool.upstreams@.len(),
    ensures
        mentions_in(pool, n, host, port).len() > 0 <==> exists|k: int|
            0 <= k < n && at_address(#[trigger] pool.upstreams@[k], host, port),
    decreases n,
{
    if n > 0 {
        lemma_mentions_in(pool, (n - 1) as nat, host, port);
    }
}

proof fn lemma_first_check(
    pools: Seq<UpstreamPool>,
    defaults: HealthCheckConfig,
    host: Seq<char>,
    port: u16,
)
    ensures
        first_check(pools, defaults, host, port) is Some <==> mentioned(pools, host, port),
        first_check(pools, defaults, host, port) is None <==> pools_of(pools, host, port).len()
            == 0,
    decreases pools.len(),
{
    if pools.len() > 0 {
        let before = pools.drop_last();
        lemma_first_check(before, defaults, host, port);
        lemma_mentions_in(pools.last(), pools.last().upstreams@.len(), host, port);
        if mentioned(before, host, port) {
            let i = choose|i: int|
                0 <= i < before.len() && pool_mentions(#[trigger] before[i], host, port);
            assert(pools[i] == before[i]);
        }
        if pool_mentions(pools.last(), host, port) {
            assert(pools[pools.len() - 1] == pools.last());
        }
        if mentioned(pools, host, port) {
            let i = choose|i: int|
                0 <= i < pools.len() && pool_mentions(#[trigger] pools[i], host, port);
            if i < before.len() {
                assert(before[i] == pools[i]);
            }
        }
    }
}

/// The jobs hold exactly what the pools before, and the first `n` backends of
/// the pool `last`, ask for.
spec fn jobs_hold(
    jobs: Seq<ProbeJob>,
    before: Seq<UpstreamPool>,
    last: UpstreamPool,
    n: nat,
    defaults: HealthCheckConfig,
) -> bool {
    &&& distinct_jobs(jobs)
    &&& forall|j: int| 0 <= j < jobs.len() ==> (#[trigger] jobs[j]).follows(before, last, n, defaults)
    &&& forall|host: Seq<char>, port: u16| #[trigger]
        has_job(jobs, host, port) <==> pools_of(before, host, port).len() + mentions_in(
            last,
            n,
            host,
            port,
        ).len() > 0
}

/// The probe jobs a configuration asks for: one for each address, with the
/// health check of the first pool that mentions it.
pub fn desired_jobs(pools: &[UpstreamPool], defaults: &HealthCheckConfig) -> (r: Vec<ProbeJob>)
    ensures
        distinct_jobs(r@),
        forall|j: int| 0 <= j < r@.len() ==> (#[trigger] r@[j]).serves(pools@, *defaults),
        forall|host: Seq<char>, port: u16| #[trigger]
            has_job(r@, host, port) <==> mentioned(pools@, host, port),
{
    let mut jobs: Vec<ProbeJob> = Vec::new();
    let mut i: usize = 0;
    while i < pools.len()
        invariant
            i <= pools@.len(),
            distinct_jobs(jobs@),
            forall|j: int|
                0 <= j < jobs@.len() ==> (#[trigger] jobs@[j]).serves(
                    pools@.take(i as int),
                    *defaults,
                ),
            forall|host: Seq<char>, port: u16| #[trigger]
                has_job(jobs@, host, port) <==> pools_of(
                    pools@.take(i as int),
                    host,
                    port,
                ).len() > 0,
        decreases pools@.len() - i,
    {
        let p = &pools[i];
        let ghost before = pools@.take(i as int);
        let check = match &p.health_check {
            Some(c) => c.clone(),
            None => defaults.clone(),
        };
        proof {
            assert forall|j: int| 0 <= j < jobs@.len() implies (#[trigger] jobs@[j]).follows(
                before,
                *p,
                0,
                *defaults,
            ) by {
                assert(jobs@[j].serves(before, *defaults));
                assert(texts(jobs@[j].pools@) =~= pools_of(before, jobs@[j].host@, jobs@[j].port)
                    + mentions_in(*p, 0, jobs@[j].host@, jobs@[j].port));
            }
        }
        let mut k: usize = 0;
        while k < p.upstreams.len()
            invariant
                k <= p.upstreams@.len(),
                check == check_of(*p, *defaults),
                jobs_hold(jobs@, before, *p, k as nat, *defaults),
            decreases p.upstreams@.len() - k,
        {
            let u = &p.upstreams[k];
            let ghost was = jobs@;
            let ghost addr = (u.host@, u.port);
            proof {
                lemma_first_check(before, *defaults, u.host@, u.port);
            }
            match find_job(&jobs, u.host.as_str(), u.port) {
                Some(j) => {
                    jobs[j].pools.push(p.id.0.clone());
                    proof {
                        let ghost mine = jobs@[j as int];
                        assert(was[j as int].follows(before, *p, k as nat, *defaults));
                        assert(texts(mine.pools@) =~= texts(was[j as int].pools@).push(p.id.0@));
                        assert(texts(mine.pools@) =~= pools_of(before, u.host@, u.port)
                            + mentions_in(*p, (k + 1) as nat, u.host@, u.port));
                        assert forall|a: int| 0 <= a < jobs@.len() implies (
                        #[trigger] jobs@[a]).follows(before, *p, (k + 1) as nat, *defaults) by {
                            if a != j {
                                assert(jobs@[a] == was[a]);
                                assert(was[a].follows(before, *p, k as nat, *defaults));
                                assert(!(was[a].host@ == was[j as int].host@ && was[a].port
                                    == was[j as int].port));
                            }
                        }
                        assert forall|host: Seq<char>, port: u16| #[trigger]
                            has_job(jobs@, host, port) <==> pools_of(before, host, port).len()
                                + mentions_in(*p, (k + 1) as nat, host, port).len() > 0 by {
                            lemma_same_addresses(was, jobs@, host, port);
                            if (host, port) == addr {
                                assert(jobs@[j as int].host@ == host);
                            }
                        }
                    }
                },
                None => {
                    let mut ids: Vec<String> = Vec::new();
                    ids.push(p.id.0.clone());
                    jobs.push(
                        ProbeJob {
                            host: u.host.clone(),
                            port: u.port,
                            check: check.clone(),
                            pools: ids,
                        },
                    );
                    proof {
                        assert(!has_job(was, u.host@, u.port));
                        assert(pools_of(before, u.host@, u.port) =~= Seq::empty());
                        assert(mentions_in(*p, k as nat, u.host@, u.port) =~= Seq::empty());
                        let mine = jobs@[was.len() as int];
                        assert(texts(mine.pools@) =~= seq![p.id.0@]);
                        assert(texts(mine.pools@) =~= pools_of(before, u.host@, u.port)
                            + mentions_in(*p, (k + 1) as nat, u.host@, u.port));
                        assert forall|a: int| 0 <= a < jobs@.len() implies (
                        #[trigger] jobs@[a]).follows(before, *p, (k + 1) as nat, *defaults) by {
                            if a < was.len() {
                                assert(jobs@[a] == was[a]);
                                assert(was[a].follows(before, *p, k as nat, *defaults));
                            }
                        }
                        assert forall|host: Seq<char>, port: u16| #[trigger]
                            has_job(jobs@, host, port) <==> pools_of(before, host, port).len()
                                + mentions_in(*p, (k + 1) as nat, host, port).len() > 0 by {
                            if (host, port) == addr {
                                assert(jobs@[was.len() as int].host@ == host);
                            }
                            if has_job(was, host, port) {
                                let a = choose|a: int|
                                    0 <= a < was.len() && (#[trigger] was[a]).host@ == host
                                        && was[a].port == port;
                                assert(jobs@[a].host@ == host);
                            }
                            if has_job(jobs@, host, port) {
                                let a = choose|a: int|
                                    0 <= a < jobs@.len() && (#[trigger] jobs@[a]).host@ == host
                                        && jobs@[a].port == port;
                                if a < was.len() {
                                    assert(was[a].host@ == host);
                                }
                            }
                        }
                    }
                },
            }
            k += 1;
        }
        proof {
            let now = pools@.take(i + 1);
            assert(now.drop_last() =~= before);
            assert forall|j: int| 0 <= j < jobs@.len() implies (#[trigger] jobs@[j]).serves(
                now,
                *defaults,
            ) by {
                assert(jobs@[j].follows(before, *p, k as nat, *defaults));
                lemma_mentions_in(*p, k as nat, jobs@[j].host@, jobs@[j].port);
            }
        }
        i += 1;
    }
    proof {
        assert(pools@.take(i as int) =~= pools@);
        assert forall|host: Seq<char>, port: u16| #[trigger]
            has_job(jobs@, host, port) <==> mentioned(pools@, host, port) by {
            lemma_first_check(pools@, *defaults, host, port);
        }
    }
    jobs
}

proof fn lemma_same_addresses(a: Seq<ProbeJob>, b: Seq<ProbeJob>, host: Seq<char>, port: u16)
    requires
        a.len() == b.len(),
        forall|j: int|
            0 <= j < a.len() ==> (#[trigger] a[j]).host@ == (#[trigger] b[j]).host@ && a[j].port
                == b[j].port,
    ensures
        has_job(a, host, port) == has_job(b, host, port),
{
    if has_job(a, host, port) {
        let j = choose|j: int|
            0 <= j < a.len() && (#[trigger] a[j]).host@ == host && a[j].port == port;
        assert(b[j].host@ == host);
    }
    if has_job(b, host, port) {
        let j = choose|j: int|
            0 <= j < b.len() && (#[trigger] b[j]).host@ == host && b[j].port == port;
        assert(a[j].host@ == host);
    }
}

// ---------------------------------------------------------------------------
// Reconciliation
// ---------------------------------------------------------------------------

/// Supervises per-backend probe loops: which addresses are being probed.
pub struct HealthChecker {
    running: Vec<(String, u16)>,
}

/// No address is listed twice.
pub open spec fn distinct_addresses(keys: Seq<(String, u16)>) -> bool {
    forall|a: int, b: int|
        0 <= a < b < keys.len() ==> !((#[trigger] keys[a]).0@ == (#[trigger] keys[b]).0@
            && keys[a].1 == keys[b].1)
}

impl HealthChecker {
    /// The addresses being probed.
    pub closed spec fn running(self) -> Seq<(String, u16)> {
        self.running@
    }

    /// The validity of a checker: one loop for each address.
    pub open spec fn wf(self) -> bool {
        distinct_addresses(self.running())
    }

    /// A checker without probe loops.
    pub fn new() -> (r: Self)
        ensures
            r.wf(),
            r.running().len() == 0,
    {
        HealthChecker { running: Vec::new() }
    }

    /// Decide which probe loops to begin for the backends in `pools`, and
    /// which to end for backends no longer present. Deduplicates by
    /// `(host, port)`; the first pool's health-check config wins for a shared
    /// backend.
    pub fn reconcile(&mut self, pools: &[UpstreamPool], defaults: &HealthCheckConfig) -> (r:
        ReconcilePlan)
        requires
            old(self).wf(),
        ensures
            final(self).wf(),
            forall|host: Seq<char>, port: u16| #[trigger]
                listed(final(self).running(), host, port) <==> mentioned(pools@, host, port),
            forall|host: Seq<char>, port: u16| #[trigger]
                listed(r.stop@, host, port) <==> listed(old(self).running(), host, port)
                    && !mentioned(pools@, host, port),
            distinct_addresses(r.stop@),
            forall|host: Seq<char>, port: u16| #[trigger]
                has_job(r.start@, host, port) <==> mentioned(pools@, host, port) && !listed(
                    old(self).running(),
                    host,
                    port,
                ),
            distinct_jobs(r.start@),
            forall|j: int|
                0 <= j < r.start@.len() ==> (#[trigger] r.start@[j]).serves(pools@, *defaults),
    {
        let mut desired = desired_jobs(pools, defaults);
        let ghost wanted = desired@;
        let ghost was = self.running@;
        let mut stop: Vec<(String, u16)> = Vec::new();
        let mut keep: Vec<(String, u16)> = Vec::new();
        let mut i: usize = 0;
        while i < self.running.len()
            invariant
                i <= self.running@.len(),
                self.running@ == was,
                distinct_addresses(was),
                desired@ == wanted,
                forall|host: Seq<char>, port: u16| #[trigger]
                    has_job(wanted, host, port) <==> mentioned(pools@, host, port),
                distinct_addresses(keep@),
                distinct_addresses(stop@),
                forall|host: Seq<char>, port: u16| #[trigger]
                    listed(keep@, host, port) <==> listed(was.take(i as int), host, port)
                        && mentioned(pools@, host, port),
                forall|host: Seq<char>, port: u16| #[trigger]
                    listed(stop@, host, port) <==> listed(was.take(i as int), host, port)
                        && !mentioned(pools@, host, port),
            decreases self.running@.len() - i,
        {
            let key = &self.running[i];
            let ghost host = key.0@;
            let ghost port = key.1;
            proof {
                assert(was.take(i + 1) =~= was.take(i as int).push(*key));
                assert(!listed(was.take(i as int), host, port)) by {
                    if listed(was.take(i as int), host, port) {
                        let a = choose|a: int|
                            0 <= a < i && (#[trigger] was.take(i as int)[a]).0@ == host
                                && was.take(i as int)[a].1 == port;
                        assert(was[a].0@ == was[i as int].0@);
                    }
                }
                assert forall|h: Seq<char>, p: u16| #[trigger]
                    listed(was.take(i + 1), h, p) <==> listed(was.take(i as int), h, p) || (h, p)
                        == (host, port) by {
                    lemma_listed_push(was.take(i as int), *key, h, p);
                }
            }
            let wanted_key = match find_job(&desired, key.0.as_str(), key.1) {
                Some(_) => true,
                None => false,
            };
            let copy = (key.0.clone(), key.1);
            assert(wanted_key == mentioned(pools@, host, port)) by {
                assert(has_job(wanted, host, port) <==> mentioned(pools@, host, port));
            }
            if wanted_key {
                let ghost k0 = keep@;
                proof {
                    lemma_fresh_stays_distinct(k0, copy);
                }
                keep.push(copy);
                proof {
                    assert forall|h: Seq<char>, p: u16| #[trigger]
                        listed(keep@, h, p) <==> listed(was.take(i + 1), h, p) && mentioned(
                            pools@,
                            h,
                            p,
                        ) by {
                        lemma_listed_push(k0, copy, h, p);
                    }
                }
            } else {
                let ghost s0 = stop@;
                proof {
                    lemma_fresh_stays_distinct(s0, copy);
                }
                stop.push(copy);
                proof {
                    assert forall|h: Seq<char>, p: u16| #[trigger]
                        listed(stop@, h, p) <==> listed(was.take(i + 1), h, p) && !mentioned(
                            pools@,
                            h,
                            p,
                        ) by {
                        lemma_listed_push(s0, copy, h, p);
                    }
                }
            }
            i += 1;
        }
        assert(was.take(i as int) =~= was);
        let mut start: Vec<ProbeJob> = Vec::new();
        let mut n: usize = desired.len();
        while n > 0
            invariant
                n == desired@.len(),
                n <= wanted.len(),
                desired@ =~= wanted.take(n as int),
                self.running@ == was,
                distinct_jobs(wanted),
                distinct_jobs(start@),
                forall|host: Seq<char>, port: u16| #[trigger]
                    has_job(wanted, host, port) <==> mentioned(pools@, host, port),
                forall|j: int|
                    0 <= j < wanted.len() ==> (#[trigger] wanted[j]).serves(pools@, *defaults),
                forall|j: int|
                    0 <= j < start@.len() ==> (#[trigger] start@[j]).serves(pools@, *defaults),
                forall|host: Seq<char>, port: u16| #[trigger]
                    has_job(start@, host, port) <==> has_job(wanted.skip(n as int), host, port)
                        && !listed(was, host, port),
                distinct_addresses(keep@),
                forall|host: Seq<char>, port: u16| #[trigger]
                    listed(keep@, host, port) <==> (listed(was, host, port) && mentioned(
                        pools@,
                        host,
                        port,
                    )) || has_job(start@, host, port),
            decreases n,
        {
            let ghost rest = wanted.skip(n as int);
            let job = desired.pop().unwrap();
            n = n - 1;
            let ghost host = job.host@;
            let ghost port = job.port;
            proof {
                assert(job == wanted[n as int]);
                assert(wanted.skip(n as int) =~= seq![job] + rest);
                assert(!has_job(rest, host, port)) by {
                    if has_job(rest, host, port) {
                        let a = choose|a: int|
                            0 <= a < rest.len() && (#[trigger] rest[a]).host@ == host
                                && rest[a].port == port;
                        assert(wanted[n + 1 + a] == rest[a]);
                        assert(wanted[n as int].host@ == wanted[n + 1 + a].host@);
                    }
                }
                assert(has_job(wanted, host, port)) by {
                    assert(wanted[n as int].host@ == host);
                }
                assert forall|h: Seq<char>, p: u16| #[trigger]
                    has_job(wanted.skip(n as int), h, p) <==> has_job(rest, h, p) || (h, p) == (
                    host,
                    port,
                ) by {
                    lemma_has_job_front(rest, job, h, p);
                }
            }
            if !is_listed(self.running.as_slice(), job.host.as_str(), job.port) {
                let copy = (job.host.clone(), job.port);
                let ghost k0 = keep@;
                let ghost s0 = start@;
                proof {
                    assert(!has_job(s0, host, port));
                    assert(!listed(k0, host, port));
                    lemma_fresh_stays_distinct(k0, copy);
                }
                keep.push(copy);
                start.push(job);
                proof {
                    assert forall|h: Seq<char>, p: u16| #[trigger]
                        has_job(start@, h, p) <==> has_job(wanted.skip(n as int), h, p)
                            && !listed(was, h, p) by {
                        lemma_has_job_push(s0, job, h, p);
                    }
                    assert forall|h: Seq<char>, p: u16| #[trigger]
                        listed(keep@, h, p) <==> (listed(was, h, p) && mentioned(pools@, h, p))
                            || has_job(start@, h, p) by {
                        lemma_listed_push(k0, copy, h, p);
                        lemma_has_job_push(s0, job, h, p);
                    }
                    assert forall|a: int, b: int| 0 <= a < b < start@.len() implies !((
                    #[trigger] start@[a]).host@ == (#[trigger] start@[b]).host@ && start@[a].port
                        == start@[b].port) by {
                        if b == s0.len() && start@[a].host@ == host && start@[a].port == port {
                            assert(s0[a].host@ == host);
                        }
                    }
                }
            }
        }
        proof {
            assert(wanted.skip(0) =~= wanted);
        }
        self.running = keep;
        ReconcilePlan { stop, start }
    }

    /// End all probe loops: the addresses whose loops are to be ended.
    pub fn stop_all(&mut self) -> (r: Vec<(String, u16)>)
        ensures
            r@ == old(self).running(),
            final(self).running().len() == 0,
            final(self).wf(),
    {
        let mut out: Vec<(String, u16)> = Vec::new();
        std::mem::swap(&mut out, &mut self.running);
        out
    }

    /// Number of running probe loops.
    pub fn active_probes(&self) -> (r: usize)
        ensures
            r == self.running().len(),
    {
        self.running.len()
    }
}

proof fn lemma_listed_push(
    keys: Seq<(String, u16)>,
    key: (String, u16),
    host: Seq<char>,
    port: u16,
)
    ensures
        listed(keys.push(key), host, port) <==> listed(keys, host, port) || (host, port) == (
            key.0@,
            key.1,
        ),
{
    let now = keys.push(key);
    if listed(keys, host, port) {
        let a = choose|a: int|
            0 <= a < keys.len() && (#[trigger] keys[a]).0@ == host && keys[a].1 == port;
        assert(now[a].0@ == host);
    }
    if (host, port) == (key.0@, key.1) {
        assert(now[keys.len() as int].0@ == host);
    }
    if listed(now, host, port) {
        let a = choose|a: int|
            0 <= a < now.len() && (#[trigger] now[a]).0@ == host && now[a].1 == port;
        if a < keys.len() {
            assert(keys[a].0@ == host);
        }
    }
}

proof fn lemma_fresh_stays_distinct(keys: Seq<(String, u16)>, key: (String, u16))
    requires
        distinct_addresses(keys),
        !listed(keys, key.0@, key.1),
    ensures
        distinct_addresses(keys.push(key)),
{
    let now = keys.push(key);
    assert forall|a: int, b: int| 0 <= a < b < now.len() implies !((#[trigger] now[a]).0@ == (
    #[trigger] now[b]).0@ && now[a].1 == now[b].1) by {
        assert(now[a] == keys[a]);
        if b < keys.len() {
            assert(now[b] == keys[b]);
        } else if keys[a].0@ == key.0@ && keys[a].1 == key.1 {
            assert(listed(keys, key.0@, key.1));
        }
    }
}

proof fn lemma_has_job_push(jobs: Seq<ProbeJob>, job: ProbeJob, host: Seq<char>, port: u16)
    ensures
        has_job(jobs.push(job), host, port) <==> has_job(jobs, host, port) || (host, port) == (
            job.host@,
            job.port,
        ),
{
    let now = jobs.push(job);
    if has_job(jobs, host, port) {
        let a = choose|a: int|
            0 <= a < jobs.len() && (#[trigger] jobs[a]).host@ == host && jobs[a].port == port;
        assert(now[a].host@ == host);
    }
    if (host, port) == (job.host@, job.port) {
        assert(now[jobs.len() as int].host@ == host);
    }
    if has_job(now, host, port) {
        let a = choose|a: int|
            0 <= a < now.len() && (#[trigger] now[a]).host@ == host && now[a].port == port;
        if a < jobs.len() {
            assert(jobs[a].host@ == host);
        }
    }
}

proof fn lemma_has_job_front(jobs: Seq<ProbeJob>, job: ProbeJob, host: Seq<char>, port: u16)
    ensures
        has_job(seq![job] + jobs, host, port) <==> has_job(jobs, host, port) || (host, port) == (
            job.host@,
            job.port,
        ),
{
    let now = seq![job] + jobs;
    if has_job(jobs, host, port) {
        let a = choose|a: int|
            0 <= a < jobs.len() && (#[trigger] jobs[a]).host@ == host && jobs[a].port == port;
        assert(now[a + 1].host@ == host);
    }
    if (host, port) == (job.host@, job.port) {
        assert(now[0].host@ == host);
    }
    if has_job(now, host, port) {
        let a = choose|a: int|
            0 <= a < now.len() && (#[trigger] now[a]).host@ == host && now[a].port == port;
        if a > 0 {
            assert(jobs[a - 1].host@ == host);
        }
    }
}

/// Reconciling again with the same pools changes nothing.
pub proof fn law_reconcile_is_idempotent(
    running: Seq<(String, u16)>,
    pools: Seq<UpstreamPool>,
    plan: ReconcilePlan,
)
    requires
        forall|host: Seq<char>, port: u16| #[trigger]
            listed(running, host, port) <==> mentioned(pools, host, port),
        forall|host: Seq<char>, port: u16| #[trigger]
            listed(plan.stop@, host, port) <==> listed(running, host, port) && !mentioned(
                pools,
                host,
                port,
            ),
        forall|host: Seq<char>, port: u16| #[trigger]
            has_job(plan.start@, host, port) <==> mentioned(pools, host, port) && !listed(
                running,
                host,
                port,
            ),
    ensures
        plan.stop@.len() == 0,
        plan.start@.len() == 0,
{
    if plan.stop@.len() > 0 {
        let k = plan.stop@[0];
        assert(listed(plan.stop@, k.0@, k.1));
    }
    if plan.start@.len() > 0 {
        let j = plan.start@[0];
        assert(has_job(plan.start@, j.host@, j.port));
    }
}

// ---------------------------------------------------------------------------
// One probe loop
// ---------------------------------------------------------------------------

/// A committed transition and what to publish of it.
#[derive(Debug)]
pub struct StatusChange {
    pub status: HealthStatus,
    /// `host:port` of the backend.
    pub backend: String,
    /// 1 when the backend is healthy, else 0.
    pub healthy: i64,
    /// 1 when the backend is draining, else 0.
    pub draining: i64,
    /// The labels to publish under, one for each mention in a pool.
    pub labels: Vec<BackendLabels>,
}

/// Whether these are the labels of a backend in the given pools.
pub open spec fn are_labels(
    labels: Seq<BackendLabels>,
    pools: Seq<String>,
    backend: Seq<char>,
) -> bool {
    &&& labels.len() == pools.len()
    &&& forall|i: int|
        0 <= i < labels.len() ==> (#[trigger] labels[i]).pool@ == pools[i]@ && labels[i].backend@
            == backend
}

fn labels_of(pools: &Vec<String>, backend: &str) -> (r: Vec<BackendLabels>)
    ensures
        are_labels(r@, pools@, backend@),
{
    let mut out: Vec<BackendLabels> = Vec::new();
    let mut i: usize = 0;
    while i < pools.len()
        invariant
            i <= pools@.len(),
            out@.len() == i,
            forall|k: int|
                0 <= k < i ==> (#[trigger] out@[k]).pool@ == pools@[k]@ && out@[k].backend@
                    == backend@,
        decreases pools@.len() - i,
    {
        out.push(BackendLabels { pool: pools[i].clone(), backend: owned(backend) });
        i += 1;
    }
    out
}

/// The state of one probe loop.
pub struct ProbeLoop {
    pub job: ProbeJob,
    pub health: BackendHealth,
}

impl ProbeLoop {
    /// A loop that has seen no probe outcome.
    pub fn new(job: ProbeJob) -> (r: Self)
        ensures
            r.job == job,
            r.health.state().status == HealthStatus::Unknown,
            r.health.state().successes == 0,
            r.health.state().failures == 0,
    {
        ProbeLoop { job, health: BackendHealth::default() }
    }

    /// Takes one probe outcome. On a committed transition the health map
    /// learns the new status, and the change to publish is returned.
    pub fn observe(&mut self, outcome: ProbeResult, map: &mut HealthMap) -> (r: Option<
        StatusChange,
    >)
        ensures
            final(self).job == old(self).job,
            final(self).health.state() == health_step(
                old(self).health.state(),
                outcome,
                old(self).job.check.healthy_threshold,
                old(self).job.check.unhealthy_threshold,
            ),
            final(map).optimistic() == old(map).optimistic(),
            ({
                let before = old(self).health.state().status;
                let now = final(self).health.state().status;
                let job = old(self).job;
                match r {
                    Some(c) => {
                        &&& now != before
                        &&& c.status == now
                        &&& c.backend@ == authority_text(job.host@, job.port)
                        &&& are_labels(c.labels@, job.pools@, c.backend@)
                        &&& c.healthy == if now == HealthStatus::Healthy {
                            1int
                        } else {
                            0
                        }
                        &&& c.draining == if now == HealthStatus::Draining {
                            1int
                        } else {
                            0
                        }
                        &&& final(map).recorded() == old(map).recorded().insert(
                            (job.host@, job.port),
                            now,
                        )
                    },
                    None => now == before && *final(map) == *old(map),
                }
            }),
    {
        match self.health.record(
            outcome,
            self.job.check.healthy_threshold,
            self.job.check.unhealthy_threshold,
        ) {
            Some(status) => {
                map.set(self.job.host.as_str(), self.job.port, status);
                let healthy: i64 = match status {
                    HealthStatus::Healthy => 1,
                    _ => 0,
                };
                let draining: i64 = match status {
                    HealthStatus::Draining => 1,
                    _ => 0,
                };
                let backend = authority_of(self.job.host.as_str(), self.job.port);
                let labels = labels_of(&self.job.pools, backend.as_str());
                Some(StatusChange { status, backend, healthy, draining, labels })
            },
            None => None,
        }
    }
}

// ---------------------------------------------------------------------------
// Laws of probe jobs
// ---------------------------------------------------------------------------

/// An address is mentioned exactly when some pool has a backend with that host
/// and that port.
pub proof fn law_mentioned_backends(pools: Seq<UpstreamPool>, host: Seq<char>, port: u16)
    ensures
        mentioned(pools, host, port) <==> exists|i: int, k: int|
            0 <= i < pools.len() && 0 <= k < pools[i].upstreams@.len() && (
            #[trigger] pools[i].upstreams@[k]).host@ == host && pools[i].upstreams@[k].port == port,
{
    if mentioned(pools, host, port) {
        let i = choose|i: int| 0 <= i < pools.len() && pool_mentions(#[trigger] pools[i], host, port);
        let k = choose|k: int|
            0 <= k < pools[i].upstreams@.len() && at_address(
                #[trigger] pools[i].upstreams@[k],
                host,
                port,
            );
        assert(pools[i].upstreams@[k].host@ == host);
    }
    if exists|i: int, k: int|
        0 <= i < pools.len() && 0 <= k < pools[i].upstreams@.len() && (
        #[trigger] pools[i].upstreams@[k]).host@ == host && pools[i].upstreams@[k].port == port {
        let (i, k) = choose|i: int, k: int|
            0 <= i < pools.len() && 0 <= k < pools[i].upstreams@.len() && (
            #[trigger] pools[i].upstreams@[k]).host@ == host && pools[i].upstreams@[k].port == port;
        assert(at_address(pools[i].upstreams@[k], host, port));
        assert(pool_mentions(pools[i], host, port));
    }
}

/// A shared backend is checked as the first pool that has it asks for: by the
/// check of that pool, or by the defaults where the pool has none.
pub proof fn law_first_pool_decides(
    pools: Seq<UpstreamPool>,
    defaults: HealthCheckConfig,
    host: Seq<char>,
    port: u16,
    i: int,
    k: int,
)
    requires
        0 <= i < pools.len(),
        0 <= k < pools[i].upstreams@.len(),
        pools[i].upstreams@[k].host@ == host,
        pools[i].upstreams@[k].port == port,
        forall|a: int, b: int|
            0 <= a < i && 0 <= b < pools[a].upstreams@.len() ==> !((
            #[trigger] pools[a].upstreams@[b]).host@ == host && pools[a].upstreams@[b].port == port),
    ensures
        pools[i].health_check is Some ==> first_check(pools, defaults, host, port)
            == pools[i].health_check,
        pools[i].health_check is None ==> first_check(pools, defaults, host, port) == Some(defaults),
    decreases pools.len(),
{
    let before = pools.drop_last();
    if i < before.len() {
        assert forall|a: int, b: int| 0 <= a < i && 0 <= b < before[a].upstreams@.len() implies !((
        #[trigger] before[a].upstreams@[b]).host@ == host && before[a].upstreams@[b].port
            == port) by {
            assert(pools[a].upstreams@[b] == before[a].upstreams@[b]);
        }
        law_first_pool_decides(before, defaults, host, port, i, k);
    } else {
        assert(at_address(pools[i].upstreams@[k], host, port));
        assert(pool_mentions(pools.last(), host, port));
        lemma_first_check(before, defaults, host, port);
        law_mentioned_backends(before, host, port);
        if mentioned(before, host, port) {
            let (a, b) = choose|a: int, b: int|
                0 <= a < before.len() && 0 <= b < before[a].upstreams@.len() && (
                #[trigger] before[a].upstreams@[b]).host@ == host && before[a].upstreams@[b].port
                    == port;
            assert(pools[a].upstreams@[b] == before[a].upstreams@[b]);
        }
    }
}

proof fn lemma_mentions_are_backends(
    pool: UpstreamPool,
    n: nat,
    host: Seq<char>,
    port: u16,
    f: spec_fn(Upstream) -> bool,
)
    requires
        n <= pool.upstreams@.len(),
        forall|u: Upstream| #[trigger] f(u) <==> u.host@ == host && u.port == port,
    ensures
        mentions_in(pool, n, host, port).len() == pool.upstreams@.take(n as int).filter(f).len(),
        forall|i: int|
            0 <= i < mentions_in(pool, n, host, port).len() ==> #[trigger] mentions_in(
                pool,
                n,
                host,
                port,
            )[i] == pool.id.0@,
    decreases n,
{
    reveal(Seq::filter);
    let first = pool.upstreams@.take(n as int);
    if n > 0 {
        let m = (n - 1) as nat;
        lemma_mentions_are_backends(pool, m, host, port, f);
        assert(first.drop_last() =~= pool.upstreams@.take(m as int));
        let before = mentions_in(pool, m, host, port);
        let now = mentions_in(pool, n, host, port);
        assert(f(first.last()) <==> at_address(pool.upstreams@[n - 1], host, port));
        assert forall|i: int| 0 <= i < now.len() implies #[trigger] now[i] == pool.id.0@ by {
            if i < before.len() {
                assert(now[i] == before[i]);
            }
        }
    }
}

/// A job names a pool once for each backend of the pool at its address, the
/// pools in the order of the configuration.
pub proof fn law_jobs_name_their_pools(
    pools: Seq<UpstreamPool>,
    pool: UpstreamPool,
    host: Seq<char>,
    port: u16,
)
    ensures
        pools_of(Seq::empty(), host, port) == Seq::<Seq<char>>::empty(),
        pools_of(pools.push(pool), host, port) == pools_of(pools, host, port) + Seq::new(
            pool.upstreams@.filter(|u: Upstream| u.host@ == host && u.port == port).len(),
            |i: int| pool.id.0@,
        ),
{
    let f = |u: Upstream| u.host@ == host && u.port == port;
    let all = pools.push(pool);
    assert(all.drop_last() =~= pools);
    assert(all.last() == pool);
    lemma_mentions_are_backends(pool, pool.upstreams@.len(), host, port, f);
    assert(pool.upstreams@.take(pool.upstreams@.len() as int) =~= pool.upstreams@);
    let mine = mentions_in(pool, pool.upstreams@.len(), host, port);
    assert(mine =~= Seq::new(pool.upstreams@.filter(f).len(), |i: int| pool.id.0@));
}

/// A job that a configuration asks for has the check that the address is given
/// there and names the pools that have the address.
pub proof fn law_jobs_serve(
    job: ProbeJob,
    pools: Seq<UpstreamPool>,
    defaults: HealthCheckConfig,
    k: int,
)
    requires
        job.serves(pools, defaults),
    ensures
        first_check(pools, defaults, job.host@, job.port) == Some(job.check),
        job.pools@.len() == pools_of(pools, job.host@, job.port).len(),
        0 <= k < job.pools@.len() ==> job.pools@[k]@ == pools_of(pools, job.host@, job.port)[k],
        exists|i: int, b: int|
            0 <= i < pools.len() && 0 <= b < pools[i].upstreams@.len() && (
            #[trigger] pools[i].upstreams@[b]).host@ == job.host@ && pools[i].upstreams@[b].port
                == job.port,
{
    lemma_first_check(pools, defaults, job.host@, job.port);
    law_mentioned_backends(pools, job.host@, job.port);
    assert(texts(job.pools@).len() == job.pools@.len());
}

/// Jobs have the addresses in their list and no others, each once.
pub proof fn law_job_addresses(
    jobs: Seq<ProbeJob>,
    job: ProbeJob,
    host: Seq<char>,
    port: u16,
    a: int,
    b: int,
)
    ensures
        !has_job(Seq::empty(), host, port),
        has_job(jobs.push(job), host, port) <==> has_job(jobs, host, port) || job.host@ == host
            && job.port == port,
        distinct_jobs(jobs) && 0 <= a < b < jobs.len() ==> jobs[a].host@ != jobs[b].host@
            || jobs[a].port != jobs[b].port,
{
    lemma_has_job_push(jobs, job, host, port);
}

/// No address in a list of distinct ones stands there twice.
pub proof fn law_distinct_addresses(keys: Seq<(String, u16)>, a: int, b: int)
    ensures
        distinct_addresses(keys) && 0 <= a < b < keys.len() ==> keys[a].0@ != keys[b].0@
            || keys[a].1 != keys[b].1,
{
}

/// A change is published once for each pool of the job, under that pool and the
/// address of the backend.
pub proof fn law_labels_of_a_change(
    labels: Seq<BackendLabels>,
    pools: Seq<String>,
    backend: Seq<char>,
    i: int,
)
    requires
        are_labels(labels, pools, backend),
    ensures
        labels.len() == pools.len(),
        0 <= i < labels.len() ==> labels[i].pool@ == pools[i]@ && labels[i].backend@ == backend,
{
}

}
