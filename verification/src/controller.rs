//! The control-plane orchestrator: ties together config load and apply, the
//! health checker, the last-known-good cache, and hot reload.

use crate::config::applier::{is_applied, reports_on, ApplyReport};
use crate::config::validator::{
    config_problem, keeps_the_rules, law_accepted_iff_rules_are_kept,
};
use crate::config::{apply, validate};
use crate::health::checker::{
    distinct_addresses, distinct_jobs, has_job, law_mentioned_backends, mentioned,
};
use crate::health::{HealthChecker, ReconcilePlan};
use crate::proxy::ProxyShared;
use crate::tls::cert_store::store_problem;
use crate::tls::CertFiles;
use crate::types::{DynamicConfig, GfeError, HealthCheckConfig};
use crate::upstream::health_map::listed;
use vstd::prelude::*;

verus! {

/// Whether `r` is a configuration if it is valid, and its problem otherwise.
pub open spec fn is_checked(
    candidate: Result<DynamicConfig, GfeError>,
    r: Result<DynamicConfig, GfeError>,
) -> bool {
    match candidate {
        Err(e) => r == Err::<DynamicConfig, GfeError>(e),
        Ok(c) => match config_problem(c) {
            None => r == Ok::<DynamicConfig, GfeError>(c),
            Some(m) => r matches Err(GfeError::Validation(t)) && t@ == m,
        },
    }
}

/// The configuration to start from: the loaded one, or the cached one where
/// loading failed and there is a cache.
pub open spec fn initial_candidate(
    loaded: Result<DynamicConfig, GfeError>,
    cached: Option<Result<DynamicConfig, GfeError>>,
) -> Result<DynamicConfig, GfeError> {
    match loaded {
        Ok(c) => Ok(c),
        Err(e) => match cached {
            Some(r) => r,
            None => Err(e),
        },
    }
}

/// The configuration to start from, checked: the loaded one, or the cached
/// one where loading failed and there is a cache. `cached` is only looked at
/// when loading failed.
pub fn load_initial(
    loaded: Result<DynamicConfig, GfeError>,
    cached: Option<Result<DynamicConfig, GfeError>>,
) -> (r: Result<DynamicConfig, GfeError>)
    ensures
        is_checked(initial_candidate(loaded, cached), r),
{
    let cfg = match loaded {
        Ok(c) => c,
        Err(e) => match cached {
            Some(Ok(c)) => c,
            Some(Err(e)) => return Err(e),
            None => return Err(e),
        },
    };
    match validate(&cfg) {
        Ok(_) => Ok(cfg),
        Err(e) => Err(e),
    }
}

/// Orchestrates control-plane lifecycle for one node.
pub struct Controller {
    pub checker: HealthChecker,
    pub defaults: HealthCheckConfig,
}

/// What came of a configuration.
pub enum Reload {
    /// It is live; the probe loops follow the plan.
    Applied { report: ApplyReport, probes: ReconcilePlan },
    /// It was refused and the current one stays.
    Kept(GfeError),
}

/// Whether the probe loops are those of a configuration, and the plan leads
/// from the loops before to them.
pub open spec fn probes_follow(
    before: HealthChecker,
    after: HealthChecker,
    plan: ReconcilePlan,
    cfg: DynamicConfig,
    defaults: HealthCheckConfig,
) -> bool {
    &&& forall|host: Seq<char>, port: u16| #[trigger]
        listed(after.running(), host, port) <==> mentioned(cfg.pools@, host, port)
    &&& forall|host: Seq<char>, port: u16| #[trigger]
        listed(plan.stop@, host, port) <==> listed(before.running(), host, port) && !mentioned(
            cfg.pools@,
            host,
            port,
        )
    &&& forall|host: Seq<char>, port: u16| #[trigger]
        has_job(plan.start@, host, port) <==> mentioned(cfg.pools@, host, port) && !listed(
            before.running(),
            host,
            port,
        )
    &&& forall|j: int|
        0 <= j < plan.start@.len() ==> (#[trigger] plan.start@[j]).serves(cfg.pools@, defaults)
    &&& distinct_addresses(plan.stop@)
    &&& distinct_jobs(plan.start@)
}

impl Controller {
    /// A controller without probe loops.
    pub fn new(defaults: HealthCheckConfig) -> (r: Self)
        ensures
            r.checker.wf(),
            r.checker.running().len() == 0,
            r.defaults == defaults,
    {
        Controller { checker: HealthChecker::new(), defaults }
    }

    /// Applies the initial configuration and plans its health probes. One that
    /// is refused changes nothing.
    pub fn start(&mut self, shared: &mut ProxyShared, cfg: &DynamicConfig, files: &[CertFiles]) -> (r:
        Result<(ApplyReport, ReconcilePlan), GfeError>)
        requires
            old(self).checker.wf(),
            files@.len() == cfg.certificates@.len(),
        ensures
            final(self).checker.wf(),
            final(self).defaults == old(self).defaults,
            match r {
                Ok((report, probes)) => {
                    &&& config_problem(*cfg) is None
                    &&& store_problem(cfg.certificates@, files@) is None
                    &&& is_applied(*old(shared), *final(shared), *cfg, files@)
                    &&& reports_on(report, *final(shared), *cfg)
                    &&& probes_follow(
                        old(self).checker,
                        final(self).checker,
                        probes,
                        *cfg,
                        old(self).defaults,
                    )
                },
                Err(e) => {
                    &&& *final(shared) == *old(shared)
                    &&& *final(self) == *old(self)
                    &&& match config_problem(*cfg) {
                        Some(m) => e matches GfeError::Validation(t) && t@ == m,
                        None => store_problem(cfg.certificates@, files@) == Some(
                            e.message_spec(),
                        ),
                    }
                },
            },
    {
        match apply(shared, cfg, files) {
            Ok(report) => {
                let probes = self.checker.reconcile(cfg.pools.as_slice(), &self.defaults);
                Ok((report, probes))
            },
            Err(e) => Err(e),
        }
    }

    /// Applies a reloaded configuration. One that failed to load, or that is
    /// refused, changes nothing.
    pub fn reload(
        &mut self,
        shared: &mut ProxyShared,
        loaded: &Result<DynamicConfig, GfeError>,
        files: &[CertFiles],
    ) -> (r: Reload)
        requires
            old(self).checker.wf(),
            loaded is Ok ==> files@.len() == loaded->Ok_0.certificates@.len(),
        ensures
            final(self).checker.wf(),
            final(self).defaults == old(self).defaults,
            match r {
                Reload::Applied { report, probes } => {
                    &&& *loaded matches Ok(cfg)
                    &&& config_problem(cfg) is None
                    &&& store_problem(cfg.certificates@, files@) is None
                    &&& is_applied(*old(shared), *final(shared), cfg, files@)
                    &&& reports_on(report, *final(shared), cfg)
                    &&& probes_follow(
                        old(self).checker,
                        final(self).checker,
                        probes,
                        cfg,
                        old(self).defaults,
                    )
                },
                Reload::Kept(e) => {
                    &&& *final(shared) == *old(shared)
                    &&& *final(self) == *old(self)
                    &&& match *loaded {
                        Err(l) => e == l,
                        Ok(cfg) => match config_problem(cfg) {
                            Some(m) => e matches GfeError::Validation(t) && t@ == m,
                            None => store_problem(cfg.certificates@, files@) == Some(
                                e.message_spec(),
                            ),
                        },
                    }
                },
            },
    {
        match loaded {
            Err(e) => Reload::Kept(e.clone()),
            Ok(cfg) => match self.start(shared, cfg, files) {
                Ok((report, probes)) => Reload::Applied { report, probes },
                Err(e) => Reload::Kept(e),
            },
        }
    }

    /// Stop all health probes: the addresses whose loops are to be ended.
    pub fn shutdown(&mut self) -> (r: Vec<(String, u16)>)
        ensures
            r@ == old(self).checker.running(),
            final(self).checker.running().len() == 0,
            final(self).checker.wf(),
            final(self).defaults == old(self).defaults,
    {
        self.checker.stop_all()
    }
}

/// A node starts from the loaded configuration where there is one, valid or
/// not; the cache stands in only where loading failed. Whatever it starts from
/// is valid.
pub proof fn law_initial_configuration(
    loaded: Result<DynamicConfig, GfeError>,
    cached: Option<Result<DynamicConfig, GfeError>>,
    r: Result<DynamicConfig, GfeError>,
)
    requires
        is_checked(initial_candidate(loaded, cached), r),
    ensures
        r is Ok ==> keeps_the_rules(r->Ok_0),
        loaded is Ok && keeps_the_rules(loaded->Ok_0) ==> r == Ok::<DynamicConfig, GfeError>(
            loaded->Ok_0,
        ),
        loaded is Ok && !keeps_the_rules(loaded->Ok_0) ==> r is Err && r->Err_0 is Validation,
        loaded is Err && cached is None ==> r == Err::<DynamicConfig, GfeError>(loaded->Err_0),
        loaded is Err && cached is Some && cached->0 is Err ==> r == Err::<DynamicConfig, GfeError>(
            cached->0->Err_0,
        ),
        loaded is Err && cached is Some && cached->0 is Ok && keeps_the_rules(cached->0->Ok_0)
            ==> r == Ok::<DynamicConfig, GfeError>(cached->0->Ok_0),
        loaded is Err && cached is Some && cached->0 is Ok && !keeps_the_rules(cached->0->Ok_0)
            ==> r is Err && r->Err_0 is Validation,
{
    if loaded is Ok {
        law_accepted_iff_rules_are_kept(loaded->Ok_0);
    }
    if cached is Some && cached->0 is Ok {
        law_accepted_iff_rules_are_kept(cached->0->Ok_0);
    }
}

/// After a reload exactly the backends of the configuration are probed. The
/// loops of those that are gone are ended, and only those; one begins for each
/// that is new, and for no other.
pub proof fn law_probes_follow_config(
    before: HealthChecker,
    after: HealthChecker,
    plan: ReconcilePlan,
    cfg: DynamicConfig,
    defaults: HealthCheckConfig,
    host: Seq<char>,
    port: u16,
)
    requires
        probes_follow(before, after, plan, cfg, defaults),
    ensures
        ({
            let wanted = exists|i: int, k: int|
                0 <= i < cfg.pools@.len() && 0 <= k < cfg.pools@[i].upstreams@.len() && (
                #[trigger] cfg.pools@[i].upstreams@[k]).host@ == host
                    && cfg.pools@[i].upstreams@[k].port == port;
            let ran = exists|i: int|
                0 <= i < before.running().len() && (#[trigger] before.running()[i]).0@ == host
                    && before.running()[i].1 == port;
            let runs = exists|i: int|
                0 <= i < after.running().len() && (#[trigger] after.running()[i]).0@ == host
                    && after.running()[i].1 == port;
            let ends = exists|i: int|
                0 <= i < plan.stop@.len() && (#[trigger] plan.stop@[i]).0@ == host
                    && plan.stop@[i].1 == port;
            let begins = exists|i: int|
                0 <= i < plan.start@.len() && (#[trigger] plan.start@[i]).host@ == host
                    && plan.start@[i].port == port;
            &&& runs <==> wanted
            &&& ends <==> ran && !wanted
            &&& begins <==> wanted && !ran
        }),
{
    law_mentioned_backends(cfg.pools@, host, port);
    assert(listed(after.running(), host, port) <==> mentioned(cfg.pools@, host, port));
    assert(listed(plan.stop@, host, port) <==> listed(before.running(), host, port) && !mentioned(
        cfg.pools@,
        host,
        port,
    ));
    assert(has_job(plan.start@, host, port) <==> mentioned(cfg.pools@, host, port) && !listed(
        before.running(),
        host,
        port,
    ));
}

}
