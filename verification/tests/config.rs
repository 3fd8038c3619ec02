use gfe::config::loader::{file_result, serialize_error, FileStep};
use gfe::config::watcher::{touches_config, Debouncer, WatchAction, WatchEvent};
use gfe::config::{apply, validate};
use gfe::controller::{load_initial, Controller, Reload};
use gfe::proxy::ProxyShared;
use gfe::router::RouteTable;
use gfe::tls::{CertFiles, CertStore, ChallengeStore, SniResolver};
use gfe::types::{
    CertEntry, DynamicConfig, GfeError, HealthCheckConfig, HealthStatus, IpAddr, LimitsConfig,
    ListenProtocol, Listener, ListenerId, PoolId, Route, RouteAction, RouteId, Scheme,
    TimeoutsConfig, TlsConfig, Upstream, UpstreamPool,
};
use gfe::upstream::{HealthMap, PoolSet};

fn listener() -> Listener {
    Listener {
        id: ListenerId("https".into()),
        address: IpAddr::V4(0),
        port: 443,
        protocol: ListenProtocol::Http, // http to avoid cert requirement
    }
}

fn pool(id: &str) -> UpstreamPool {
    UpstreamPool {
        id: PoolId(id.into()),
        scheme: Scheme::Http,
        lb_policy: Default::default(),
        upstreams: vec![Upstream {
            host: "10.0.0.1".into(),
            port: 80,
            weight: 1,
        }],
        health_check: None,
    }
}

fn route(id: &str, pool: &str) -> Route {
    Route {
        id: RouteId(id.into()),
        listener: ListenerId("https".into()),
        host: "a.example.org".into(),
        path_prefix: "/".into(),
        action: RouteAction::Forward(pool.into()),
    }
}

fn cert(default: bool) -> CertEntry {
    CertEntry {
        sni: vec![],
        default,
        cert_file: "/c.pem".into(),
        key_file: "/k.pem".into(),
    }
}

fn base() -> DynamicConfig {
    DynamicConfig {
        listeners: vec![listener()],
        pools: vec![pool("p")],
        routes: vec![route("r", "p")],
        ..Default::default()
    }
}

fn shared() -> ProxyShared {
    ProxyShared {
        routes: RouteTable::default(),
        pools: PoolSet::default(),
        resolver: SniResolver::new(CertStore::default()),
        challenges: ChallengeStore::new(),
        health: HealthMap::new(true),
        limits: LimitsConfig::default(),
        timeouts: TimeoutsConfig::default(),
        tls: TlsConfig::default(),
        draining: false,
    }
}

fn temp_cert() -> CertFiles {
    let cert = rcgen::generate_simple_self_signed(vec!["example.org".into()]).unwrap();
    CertFiles {
        cert: Ok(cert.cert.pem().into_bytes()),
        key: Ok(cert.key_pair.serialize_pem().into_bytes()),
    }
}

fn problem(cfg: &DynamicConfig) -> String {
    validate(cfg).unwrap_err().message()
}

#[test]
fn valid_config_passes() {
    let cfg = DynamicConfig {
        listeners: vec![listener()],
        pools: vec![pool("p")],
        routes: vec![route("r", "p")],
        ..Default::default()
    };
    assert!(validate(&cfg).is_ok());
}

#[test]
fn dangling_pool_ref_fails() {
    let cfg = DynamicConfig {
        listeners: vec![listener()],
        pools: vec![pool("p")],
        routes: vec![route("r", "missing")],
        ..Default::default()
    };
    assert!(validate(&cfg).is_err());
}

#[test]
fn https_without_certs_fails() {
    let mut l = listener();
    l.protocol = ListenProtocol::Https;
    let cfg = DynamicConfig {
        listeners: vec![l],
        ..Default::default()
    };
    assert!(validate(&cfg).is_err());
}

#[test]
fn two_defaults_fail() {
    let mk = || CertEntry {
        sni: vec![],
        default: true,
        cert_file: "/c.pem".into(),
        key_file: "/k.pem".into(),
    };
    let cfg = DynamicConfig {
        certificates: vec![mk(), mk()],
        ..Default::default()
    };
    assert!(validate(&cfg).is_err());
}

#[test]
fn each_problem_has_its_message() {
    let mut cfg = base();
    cfg.listeners.push(listener());
    assert_eq!(problem(&cfg), "validation error: duplicate listener id: https");

    let mut cfg = base();
    cfg.pools.push(pool("p"));
    assert_eq!(problem(&cfg), "validation error: duplicate pool id: p");

    let mut cfg = base();
    cfg.pools[0].upstreams.clear();
    assert_eq!(problem(&cfg), "validation error: pool p has no upstreams");

    let mut cfg = base();
    cfg.pools[0].upstreams[0].port = 0;
    assert_eq!(
        problem(&cfg),
        "validation error: pool p has an invalid upstream 10.0.0.1:0"
    );

    let mut cfg = base();
    cfg.pools[0].upstreams[0].host = String::new();
    assert_eq!(problem(&cfg), "validation error: pool p has an invalid upstream :80");

    let mut cfg = base();
    cfg.routes.push(route("r", "p"));
    assert_eq!(problem(&cfg), "validation error: duplicate route id: r");

    let mut cfg = base();
    cfg.routes[0].listener = ListenerId("nope".into());
    assert_eq!(
        problem(&cfg),
        "validation error: route r references unknown listener nope"
    );

    let mut cfg = base();
    cfg.routes[0].action = RouteAction::Forward("q".into());
    assert_eq!(problem(&cfg), "validation error: route r forwards to unknown pool q");

    let mut cfg = base();
    cfg.routes[0].host = String::new();
    assert_eq!(problem(&cfg), "validation error: route r has empty host");

    let mut cfg = base();
    cfg.certificates = vec![cert(true), cert(true)];
    assert_eq!(problem(&cfg), "validation error: more than one default certificate");

    let mut cfg = base();
    cfg.listeners[0].protocol = ListenProtocol::Https;
    assert_eq!(
        problem(&cfg),
        "validation error: an https listener is configured but no certificates are provided"
    );
}

#[test]
fn first_problem_is_reported() {
    let mut cfg = base();
    cfg.pools[0].upstreams.clear();
    cfg.routes[0].host = String::new();
    assert_eq!(problem(&cfg), "validation error: pool p has no upstreams");
}

#[test]
fn apply_swaps_snapshots() {
    let cfg = DynamicConfig {
        certificates: vec![cert(true)],
        listeners: vec![Listener {
            id: ListenerId("https".into()),
            address: IpAddr::V4(0),
            port: 443,
            protocol: ListenProtocol::Https,
        }],
        routes: vec![Route {
            id: RouteId("r".into()),
            listener: ListenerId("https".into()),
            host: "example.org".into(),
            path_prefix: "/".into(),
            action: RouteAction::Forward("p".into()),
        }],
        pools: vec![pool("p")],
    };
    let mut s = shared();
    let report = apply(&mut s, &cfg, &[temp_cert()]).unwrap();
    assert_eq!(s.routes.route_count(), 1);
    assert_eq!(s.pools.len(), 1);
    assert!(s.resolver.current().resolve(None).is_some());
    assert_eq!((report.routes, report.pools, report.certs), (1, 1, 1));
    assert_eq!(report.expiries.len(), 1);
    assert_eq!(report.expiries[0].0, "<default>");
}

#[test]
fn refused_config_changes_nothing() {
    let mut s = shared();
    apply(&mut s, &base(), &[]).unwrap();
    s.health.set("10.0.0.1", 80, HealthStatus::Unhealthy);

    let mut bad = base();
    bad.routes[0].host = String::new();
    assert!(apply(&mut s, &bad, &[]).is_err());

    let mut bad = base();
    bad.pools = vec![pool("other")];
    bad.routes.clear();
    bad.certificates = vec![cert(true)];
    let files = CertFiles { cert: Err("gone".into()), key: Ok(vec![]) };
    let e = apply(&mut s, &bad, &[files]).unwrap_err();
    assert_eq!(e.message(), "certificate error: reading /c.pem: gone");

    assert_eq!(s.routes.route_count(), 1);
    assert!(s.pools.get(&PoolId("p".into())).is_some());
    assert_eq!(s.health.get("10.0.0.1", 80), HealthStatus::Unhealthy);
}

#[test]
fn apply_prunes_health_of_removed_backends() {
    let mut s = shared();
    s.health.set("10.0.0.1", 80, HealthStatus::Unhealthy);
    s.health.set("10.0.0.9", 80, HealthStatus::Unhealthy);
    apply(&mut s, &base(), &[]).unwrap();
    assert_eq!(s.health.len(), 1);
    assert_eq!(s.health.get("10.0.0.1", 80), HealthStatus::Unhealthy);
}

#[test]
fn reload_applies_or_keeps() {
    let mut s = shared();
    let mut c = Controller::new(HealthCheckConfig::default());
    match c.reload(&mut s, &Ok(base()), &[]) {
        Reload::Applied { report, probes } => {
            assert_eq!(report.routes, 1);
            assert_eq!(probes.start.len(), 1);
        }
        Reload::Kept(_) => panic!("refused"),
    }
    match c.reload(&mut s, &Err(GfeError::Config("gone".into())), &[]) {
        Reload::Kept(e) => assert_eq!(e, GfeError::Config("gone".into())),
        Reload::Applied { .. } => panic!("applied"),
    }
    let mut bad = base();
    bad.pools.clear();
    match c.reload(&mut s, &Ok(bad), &[]) {
        Reload::Kept(e) => assert_eq!(
            e.message(),
            "validation error: route r forwards to unknown pool p"
        ),
        Reload::Applied { .. } => panic!("applied"),
    }
    assert_eq!(s.routes.route_count(), 1);
    assert_eq!(c.checker.active_probes(), 1);
    assert_eq!(c.shutdown(), vec![("10.0.0.1".to_string(), 80)]);
}

#[test]
fn initial_config_falls_back_to_the_cache() {
    let gone = || GfeError::Config("gone".into());
    assert!(load_initial(Ok(base()), None).is_ok());
    assert!(load_initial(Err(gone()), Some(Ok(base()))).is_ok());
    assert_eq!(load_initial(Err(gone()), None).unwrap_err(), gone());
    assert_eq!(
        load_initial(Err(gone()), Some(Err(GfeError::Config("worse".into())))).unwrap_err(),
        GfeError::Config("worse".into())
    );
    let mut bad = base();
    bad.pools.clear();
    assert!(load_initial(Err(gone()), Some(Ok(bad))).is_err());
}

#[test]
fn file_steps_name_the_file() {
    let r: Result<u8, String> = Err("gone".into());
    assert_eq!(
        file_result(FileStep::Reading, "/a.json", r.clone()).unwrap_err().message(),
        "configuration error: reading /a.json: gone"
    );
    let cases = [
        (FileStep::Parsing, "parsing /a: gone"),
        (FileStep::ReadingCache, "reading cache /a: gone"),
        (FileStep::ParsingCache, "parsing cache /a: gone"),
        (FileStep::WritingCache, "writing cache /a: gone"),
        (FileStep::RenamingCache, "renaming cache /a: gone"),
    ];
    for (step, text) in cases {
        let e = file_result(step, "/a", r.clone()).unwrap_err();
        assert_eq!(e, GfeError::Config(text.into()));
    }
    assert_eq!(file_result(FileStep::Reading, "/a", Ok(5u8)).unwrap(), 5);
    assert_eq!(serialize_error("e"), GfeError::Config("serializing cache: e".into()));
}

#[test]
fn only_the_config_file_triggers() {
    let name = |s: &str| Some(s.to_string());
    let target = name("dynamic.json");
    assert!(touches_config(&vec![name("x"), name("dynamic.json")], &target));
    assert!(!touches_config(&vec![name("cache.json")], &target));
    assert!(!touches_config(&vec![], &target));
    assert!(!touches_config(&vec![None], &target));
    assert!(touches_config(&vec![None], &None));
}

#[test]
fn bursts_reload_once() {
    let mut d = Debouncer::new();
    let events = [
        (WatchEvent::Quiet, WatchAction::Wait),
        (WatchEvent::Change, WatchAction::WaitWindow),
        (WatchEvent::Change, WatchAction::WaitWindow),
        (WatchEvent::Quiet, WatchAction::Reload),
        (WatchEvent::Quiet, WatchAction::Wait),
        (WatchEvent::Change, WatchAction::WaitWindow),
        (WatchEvent::Closed, WatchAction::Stop),
        (WatchEvent::Change, WatchAction::Stop),
    ];
    for (event, action) in events {
        assert_eq!(d.on_event(event), action);
    }
}
