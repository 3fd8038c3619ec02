use gfe::loadtest::{
    collect, parse_target, summarize, target_from, TargetError, UriParts, WorkerResult,
};
use gfe::trace::trace_config;
use gfe::types::{
    DynamicConfig, FixedAction, IpAddr, LbPolicy, ListenProtocol, Listener, ListenerId, PoolId,
    RedirectAction, Route, RouteAction, RouteId, Scheme, Upstream, UpstreamPool,
};

fn listener(id: &str, protocol: ListenProtocol) -> Listener {
    Listener { id: ListenerId(id.into()), address: IpAddr::V4(0), port: 1, protocol }
}

fn route(id: &str, listener: &str, host: &str, action: RouteAction) -> Route {
    Route {
        id: RouteId(id.into()),
        listener: ListenerId(listener.into()),
        host: host.into(),
        path_prefix: "/".into(),
        action,
    }
}

fn redirect(scheme: &str) -> RouteAction {
    RouteAction::Redirect(RedirectAction { scheme: scheme.into(), status: 308 })
}

fn pool(policy: LbPolicy, weights: &[u32]) -> UpstreamPool {
    UpstreamPool {
        id: PoolId("p".into()),
        scheme: Scheme::Https,
        lb_policy: policy,
        upstreams: weights
            .iter()
            .enumerate()
            .map(|(i, w)| Upstream { host: format!("b{i}"), port: 80, weight: *w })
            .collect(),
        health_check: None,
    }
}

#[test]
fn traces_redirect_into_pool() {
    let cfg = DynamicConfig {
        listeners: vec![
            listener("http", ListenProtocol::Http),
            listener("https", ListenProtocol::Https),
        ],
        routes: vec![
            route("up", "http", "*", redirect("https")),
            route("web", "https", "a.org", RouteAction::Forward("p".into())),
        ],
        pools: vec![pool(LbPolicy::RoundRobin, &[1, 1])],
        ..Default::default()
    };
    assert_eq!(
        trace_config(&cfg, "a.org", "/x", Some("http")),
        vec![
            "trace  host=a.org  path=/x",
            "",
            "▶ http://a.org/x",
            "  └─ listener \"http\" → route \"up\"",
            "     └─ redirect 308 → https://a.org/x",
            "        └─ listener \"https\" → route \"web\"",
            "           └─ forward → pool \"p\"  (scheme=https, policy=round_robin, 2 backends)",
            "              ├─ b0:80",
            "              └─ b1:80",
            "                 ↳ round-robin across healthy backends (weighted by weight)",
            "",
            "note: health is shown as configured intent (all backends assumed up);",
            "      query a live node's /metrics for actual backend health.",
        ]
    );
}

#[test]
fn traces_stop_at_loops_and_unknown_ends() {
    let cfg = DynamicConfig {
        listeners: vec![
            listener("a", ListenProtocol::Http),
            listener("b", ListenProtocol::Http),
        ],
        routes: vec![
            route("ra", "a", "*", redirect("http")),
            route("rb", "b", "x.org", redirect("ftp")),
            route("rc", "b", "y.org", redirect("https")),
            route(
                "rd",
                "b",
                "z.org",
                RouteAction::Fixed(FixedAction { status: 204, body: String::new() }),
            ),
        ],
        ..Default::default()
    };
    let lines = trace_config(&cfg, "x.org", "/", Some("a"));
    assert!(lines.contains(&"        └─ (redirect loop: listener \"a\" already on this path)".to_string()));
    assert!(lines.contains(&"              (ftp:// is external — not traced further)".to_string()));
    let lines = trace_config(&cfg, "y.org", "/", Some("b"));
    assert!(lines.contains(&"        (no https listener configured to receive this)".to_string()));
    let lines = trace_config(&cfg, "z.org", "/", Some("b"));
    assert!(lines.contains(&"     └─ respond 204 (fixed, no upstream)".to_string()));
    let lines = trace_config(&cfg, "q.org", "/", Some("b"));
    assert!(lines.contains(&"  └─ listener \"b\": no route matched → 404".to_string()));
    assert_eq!(
        trace_config(&cfg, "q.org", "/", Some("zzz")),
        vec!["trace  host=q.org  path=/", "", "(no matching entry listener)"]
    );
}

#[test]
fn traces_stop_after_too_many_hops() {
    let n = 12;
    let cfg = DynamicConfig {
        listeners: (0..n)
            .map(|i| {
                let p = if i % 2 == 0 { ListenProtocol::Http } else { ListenProtocol::Https };
                listener(&format!("l{i}"), p)
            })
            .collect(),
        routes: (0..n)
            .map(|i| {
                let id = format!("l{i}");
                let to = if i % 2 == 0 { "https" } else { "http" };
                route(&format!("r{i}"), &id, if i < 2 { "*" } else { "none.org" }, redirect(to))
            })
            .collect(),
        ..Default::default()
    };
    let lines = trace_config(&cfg, "h.org", "/", Some("l0"));
    assert!(lines.iter().any(|l| l.contains("already on this path")));
    let chain = DynamicConfig {
        listeners: (0..9).map(|i| listener(&format!("l{i}"), ListenProtocol::Http)).collect(),
        routes: (0..9)
            .map(|i| route(&format!("r{i}"), &format!("l{i}"), "*", redirect("http")))
            .collect(),
        ..Default::default()
    };
    // Keep the tree small: only the last hops branch.
    let mut small = chain;
    small.listeners.truncate(3);
    small.routes.truncate(3);
    let lines = trace_config(&small, "h.org", "/", Some("l0"));
    assert!(lines.iter().all(|l| !l.contains("too many redirect hops")));
}

#[test]
fn traces_mark_the_ring_hash_backend_and_weights() {
    let mut cfg = DynamicConfig {
        listeners: vec![listener("http", ListenProtocol::Http)],
        routes: vec![route("web", "http", "*", RouteAction::Forward("p".into()))],
        pools: vec![pool(LbPolicy::RingHash, &[1, 2])],
        ..Default::default()
    };
    let lines = trace_config(&cfg, "a.org", "/", None);
    let marks = lines.iter().filter(|l| l.contains("◀ selected for this host (ring-hash)")).count();
    assert_eq!(marks, 1);
    assert!(lines.iter().any(|l| l.contains("├─ b0:80  (weight 1)")));
    assert!(lines.iter().any(|l| l.contains("└─ b1:80  (weight 2)")));
    cfg.pools = vec![pool(LbPolicy::LeastRequest, &[1])];
    let lines = trace_config(&cfg, "a.org", "/", None);
    assert!(lines.iter().any(|l| l.ends_with("policy=least_request, 1 backend)")));
    cfg.pools.clear();
    let lines = trace_config(&cfg, "a.org", "/", None);
    assert!(lines.contains(&"     └─ forward → pool \"p\"  NOT FOUND → 502".to_string()));
}

#[test]
fn traces_mark_backends_without_weight_in_turn() {
    let mut cfg = DynamicConfig {
        listeners: vec![
            listener("one", ListenProtocol::Http),
            listener("two", ListenProtocol::Https),
            listener("three", ListenProtocol::Https),
        ],
        routes: vec![
            route("r1", "one", "*", redirect("https")),
            route("r2", "two", "*", RouteAction::Forward("p".into())),
            route("r3", "three", "*", RouteAction::Forward("p".into())),
        ],
        pools: vec![pool(LbPolicy::RingHash, &[0, 0, 0])],
        ..Default::default()
    };
    let marked = |cfg: &DynamicConfig, only: Option<&str>| -> Vec<usize> {
        trace_config(cfg, "a.org", "/", only)
            .iter()
            .filter(|l| l.contains("◀ selected for this host (ring-hash)"))
            .map(|l| (0..3).find(|i| l.contains(&format!("b{i}:80"))).unwrap())
            .collect()
    };
    // The redirect leads to both https listeners, which are also entries.
    assert_eq!(marked(&cfg, None), vec![0, 1, 2, 0]);
    assert_eq!(marked(&cfg, Some("one")), vec![0, 1]);
    assert_eq!(marked(&cfg, Some("three")), vec![0]);
    // A backend with a weight keeps the mark.
    cfg.pools = vec![pool(LbPolicy::RingHash, &[0, 1, 0])];
    assert_eq!(marked(&cfg, None), vec![1, 1, 1, 1]);
}

#[test]
fn targets_are_parsed() {
    let t = parse_target("https://Host.example.org/path?q").unwrap();
    assert_eq!(t.addr, "Host.example.org:443");
    assert_eq!((t.host.as_str(), t.path.as_str(), t.tls), ("Host.example.org", "/path?q", true));
    let t = parse_target("http://h:8080").unwrap();
    assert_eq!((t.addr.as_str(), t.path.as_str(), t.tls), ("h:8080", "/", false));
    assert_eq!(parse_target("/only/path"), Err(TargetError::NoHost));
    assert!(matches!(parse_target("ht tp://x"), Err(TargetError::Url(_))));
    let parts = UriParts { scheme: None, host: Some("h".into()), port: None, path_and_query: None };
    assert_eq!(target_from(Ok(parts)).unwrap().addr, "h:80");
    assert_eq!(target_from(Err("e".into())), Err(TargetError::Url("e".into())));
}

#[test]
fn latencies_are_summarized() {
    let lat: Vec<u64> = (1..=101).rev().collect();
    let s = summarize(&lat);
    assert_eq!((s.total, s.p50, s.p90, s.p99, s.max), (101, 51, 91, 100, 101));
    let s = summarize(&[]);
    assert_eq!((s.total, s.p50, s.max), (0, 0, 0));
    // Halfway ranks go up, as rounding does.
    let s = summarize(&[10, 20, 30, 40, 50, 60]);
    assert_eq!((s.p50, s.p90, s.p99, s.max), (40, 60, 60, 60));
}

#[test]
fn workers_are_collected() {
    let (lat, errors) = collect(&vec![
        WorkerResult { latencies: vec![3, 1], errors: 2 },
        WorkerResult { latencies: vec![], errors: 1 },
        WorkerResult { latencies: vec![2], errors: 0 },
    ]);
    assert_eq!(lat, vec![3, 1, 2]);
    assert_eq!(errors, 3);
}
