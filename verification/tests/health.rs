use gfe::health::ProbeResult::{Drain, Fail, Pass};
use gfe::health::{
    make_probe, AnyProbe, BackendHealth, HealthChecker, Probe, ProbeLoop, ProbeReply, TcpProbe,
};
use gfe::types::{
    Duration, HealthCheckConfig, HealthStatus, LbPolicy, PoolId, ProbeType, Scheme, Upstream,
    UpstreamPool,
};
use gfe::upstream::HealthMap;

fn check(healthy: u32, unhealthy: u32) -> HealthCheckConfig {
    HealthCheckConfig {
        probe_type: ProbeType::Http,
        interval: Duration::from_millis(30),
        timeout: Duration::from_millis(300),
        healthy_threshold: healthy,
        unhealthy_threshold: unhealthy,
        path: "/healthz".into(),
        expected_status: 200,
        drain_status: Some(503),
    }
}

fn pool(id: &str, backends: &[(&str, u16)], check: Option<HealthCheckConfig>) -> UpstreamPool {
    UpstreamPool {
        id: PoolId(id.into()),
        scheme: Scheme::Http,
        lb_policy: LbPolicy::RoundRobin,
        upstreams: backends
            .iter()
            .map(|(h, p)| Upstream { host: (*h).into(), port: *p, weight: 1 })
            .collect(),
        health_check: check,
    }
}

#[test]
fn transitions_after_thresholds() {
    let mut bh = BackendHealth::default();
    assert_eq!(bh.status(), HealthStatus::Unknown);
    assert_eq!(bh.record(Pass, 2, 3), None);
    assert_eq!(bh.record(Pass, 2, 3), Some(HealthStatus::Healthy));
    assert_eq!(bh.record(Fail, 2, 3), None);
    assert_eq!(bh.record(Fail, 2, 3), None);
    assert_eq!(bh.record(Fail, 2, 3), Some(HealthStatus::Unhealthy));
}

#[test]
fn unknown_to_unhealthy() {
    let mut bh = BackendHealth::default();
    assert_eq!(bh.record(Fail, 2, 2), None);
    assert_eq!(bh.record(Fail, 2, 2), Some(HealthStatus::Unhealthy));
}

#[test]
fn success_resets_failures() {
    let mut bh = BackendHealth::default();
    bh.record(Fail, 2, 3);
    bh.record(Fail, 2, 3);
    bh.record(Pass, 2, 3); // resets failure run
    assert_eq!(bh.record(Fail, 2, 3), None);
}

#[test]
fn drain_takes_effect_immediately() {
    let mut bh = BackendHealth::default();
    bh.record(Pass, 1, 1); // → Healthy
    assert_eq!(bh.record(Drain, 2, 3), Some(HealthStatus::Draining));
    // Idempotent while draining.
    assert_eq!(bh.record(Drain, 2, 3), None);
    // Recovery back to Healthy after threshold passes.
    assert_eq!(bh.record(Pass, 1, 3), Some(HealthStatus::Healthy));
}

#[test]
fn thresholds_of_zero_need_one_outcome() {
    let mut bh = BackendHealth::default();
    assert_eq!(bh.status(), HealthStatus::Unknown);
    assert_eq!(bh.record(Pass, 0, 0), Some(HealthStatus::Healthy));
    assert_eq!(bh.record(Fail, 0, 0), Some(HealthStatus::Unhealthy));
    assert_eq!(bh.clone().status(), HealthStatus::Unhealthy);
}

#[test]
fn probes_judge_replies() {
    let tcp = TcpProbe;
    assert_eq!(tcp.judge(ProbeReply::Connected), Pass);
    assert_eq!(tcp.judge(ProbeReply::Nothing), Fail);
    assert!(tcp.request("h").is_none());

    let http = make_probe(&check(1, 1));
    assert_eq!(http.judge(ProbeReply::Status(200)), Pass);
    assert_eq!(http.judge(ProbeReply::Status(503)), Drain);
    assert_eq!(http.judge(ProbeReply::Status(500)), Fail);
    assert_eq!(http.judge(ProbeReply::Connected), Fail);
    assert_eq!(http.judge(ProbeReply::Nothing), Fail);
    let q = http.request("10.0.0.1").unwrap();
    assert_eq!((q.tls, q.path.as_str(), q.host.as_str()), (false, "/healthz", "10.0.0.1"));
    assert_eq!(q.user_agent, "gfe-health/0.1");
}

#[test]
fn probe_type_selects_the_probe() {
    let mut cfg = check(1, 1);
    cfg.probe_type = ProbeType::Https;
    assert!(make_probe(&cfg).request("h").unwrap().tls);
    cfg.probe_type = ProbeType::Tcp;
    assert_eq!(make_probe(&cfg), AnyProbe::Tcp(TcpProbe));
}

#[test]
fn reconcile_starts_and_stops_probes() {
    let mut c = HealthChecker::new();
    let defaults = HealthCheckConfig::default();
    let own = check(4, 5);
    let pools = [
        pool("one", &[("a", 1), ("b", 1), ("a", 1)], Some(check(4, 5))),
        pool("two", &[("a", 1), ("c", 1)], None),
    ];
    let plan = c.reconcile(&pools, &defaults);
    assert!(plan.stop.is_empty());
    assert_eq!(plan.start.len(), 3);
    assert_eq!(c.active_probes(), 3);
    let job = |host: &str| plan.start.iter().find(|j| j.host == host).unwrap();
    // The first pool's health check wins for a shared backend.
    assert_eq!(job("a").check, own);
    assert_eq!(job("a").pools, vec!["one", "one", "two"]);
    assert_eq!(job("c").check, defaults);
    assert_eq!(job("c").pools, vec!["two"]);

    // The same pools again change nothing.
    let again = c.reconcile(&pools, &defaults);
    assert!(again.stop.is_empty() && again.start.is_empty());

    let plan = c.reconcile(&[pool("two", &[("c", 1), ("d", 1)], None)], &defaults);
    let mut stop = plan.stop.clone();
    stop.sort();
    assert_eq!(stop, vec![("a".to_string(), 1), ("b".to_string(), 1)]);
    assert_eq!(plan.start.len(), 1);
    assert_eq!(plan.start[0].host, "d");
    assert_eq!(c.active_probes(), 2);
    assert_eq!(c.stop_all().len(), 2);
    assert_eq!(c.active_probes(), 0);
}

#[test]
fn probe_loop_publishes_transitions() {
    let mut c = HealthChecker::new();
    let mut plan = c.reconcile(&[pool("p", &[("a", 7)], Some(check(2, 1)))], &HealthCheckConfig::default());
    let mut l = ProbeLoop::new(plan.start.pop().unwrap());
    let mut map = HealthMap::new(false);
    assert!(l.observe(Pass, &mut map).is_none());
    assert!(map.is_empty());
    let change = l.observe(Pass, &mut map).unwrap();
    assert_eq!(change.status, HealthStatus::Healthy);
    assert_eq!((change.backend.as_str(), change.healthy, change.draining), ("a:7", 1, 0));
    assert_eq!(change.labels.len(), 1);
    assert_eq!(change.labels[0].pool, "p");
    assert_eq!(change.labels[0].backend, "a:7");
    assert!(map.is_selectable("a", 7));
    let change = l.observe(Drain, &mut map).unwrap();
    assert_eq!((change.healthy, change.draining), (0, 1));
    assert_eq!(map.get("a", 7), HealthStatus::Draining);
    let change = l.observe(Fail, &mut map).unwrap();
    assert_eq!((change.healthy, change.draining), (0, 0));
    assert!(!map.is_selectable("a", 7));
}
