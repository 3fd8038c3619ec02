use gfe::config::apply;
use gfe::metrics::{control_catalogue, latency_buckets, probe_buckets, proxy_catalogue, MetricKind};
use gfe::ops;
use gfe::proxy::acceptor::{enter_both, leave_both, limit_label, stops_accepting, Gate};
use gfe::proxy::connection::{accepted_label, after_handshake, plain_context, Handshake};
use gfe::proxy::drain::{drain_step, DrainController, DrainStep};
use gfe::proxy::forward::{
    begin_forward, build_upstream_uri, map_upstream_response, prepare_headers, record_upstream,
    upstream_duration_labels, Conclusion, ForwardStep, Forwarding, UpstreamOutcome,
};
use gfe::proxy::headers::{
    append_forwarded_for, body_is_empty, is_idempotent, set_header, strip_hop_by_hop,
};
use gfe::proxy::replies::{fixed_response, redirect_response, send_reply, synthetic};
use gfe::proxy::service::{
    duration_labels, extract_host, handle_request, request_id, request_id_with, request_labels,
    RequestPlan, RoutedAnswer,
};
use gfe::proxy::{ConnCtx, ProxyShared, RequestHead};
use gfe::router::RouteTable;
use gfe::tls::{CertStore, ChallengeStore, SniResolver};
use gfe::types::{
    DynamicConfig, FixedAction, HealthStatus, IpAddr, LimitsConfig, ListenProtocol, Listener,
    ListenerId, PoolId, RedirectAction, Route, RouteAction, RouteId, Scheme, TimeoutsConfig,
    TlsConfig, Upstream, UpstreamPool,
};
use gfe::upstream::{HealthMap, PoolSet};
use http::header::{HeaderMap, HeaderName, HeaderValue};

fn listener() -> Listener {
    Listener {
        id: ListenerId("http".into()),
        address: IpAddr::V4(0x7f00_0001),
        port: 0,
        protocol: ListenProtocol::Http,
    }
}

fn shared() -> ProxyShared {
    ProxyShared {
        routes: RouteTable::default(),
        pools: PoolSet::default(),
        resolver: SniResolver::new(CertStore::default()),
        challenges: ChallengeStore::new(),
        health: HealthMap::new(true),
        limits: LimitsConfig::default(),
        timeouts: TimeoutsConfig::default(),
        tls: TlsConfig::default(),
        draining: false,
    }
}

fn headers(list: &[(&str, &str)]) -> HeaderMap<HeaderValue> {
    let mut h = HeaderMap::new();
    for (n, v) in list {
        h.append(
            HeaderName::from_bytes(n.as_bytes()).unwrap(),
            HeaderValue::from_str(v).unwrap(),
        );
    }
    h
}

fn head(method: &str, uri: &str, list: &[(&str, &str)]) -> RequestHead {
    let uri: http::Uri = uri.parse().unwrap();
    RequestHead {
        method: method.into(),
        uri_host: uri.host().map(|h| h.to_string()),
        path: uri.path().to_string(),
        path_and_query: uri.path_and_query().map(|p| p.as_str().to_string()),
        headers: headers(list),
    }
}

fn ctx(is_tls: bool) -> ConnCtx {
    ConnCtx {
        listener_id: ListenerId("http".into()),
        is_tls,
        client_ip: IpAddr::V4(0x7f00_0001),
        client: "127.0.0.1".into(),
        sni: None,
    }
}

fn route(host: &str, action: RouteAction) -> Route {
    Route {
        id: RouteId("r".into()),
        listener: ListenerId("http".into()),
        host: host.into(),
        path_prefix: "/".into(),
        action,
    }
}

fn pool(backends: &[&str]) -> UpstreamPool {
    UpstreamPool {
        id: PoolId("pool".into()),
        scheme: Scheme::Http,
        lb_policy: Default::default(),
        upstreams: backends
            .iter()
            .map(|b| Upstream { host: (*b).into(), port: 8080, weight: 1 })
            .collect(),
        health_check: None,
    }
}

fn routed(host: &str, action: RouteAction) -> ProxyShared {
    let cfg = DynamicConfig {
        listeners: vec![listener()],
        routes: vec![route(host, action)],
        pools: vec![pool(&["10.0.0.1", "10.0.0.2"])],
        ..Default::default()
    };
    let mut s = shared();
    apply(&mut s, &cfg, &[]).unwrap();
    s
}

fn get<'a>(h: &'a HeaderMap<HeaderValue>, name: &str) -> Option<&'a str> {
    h.get(name).map(|v| v.to_str().unwrap())
}

fn reply_of(plan: &RequestPlan) -> &gfe::proxy::replies::Reply {
    match plan {
        RequestPlan::Challenge(r) => r,
        RequestPlan::Unrouted(r) => r,
        RequestPlan::Routed { answer: RoutedAnswer::Answer(r), .. } => r,
        _ => panic!("forwarded"),
    }
}

#[test]
fn synthetic_has_status_and_id() {
    let resp = synthetic(404, "no route", "abc123");
    assert_eq!(resp.status, 404);
    assert_eq!(resp.headers["x-request-id"], "abc123");
    let text = resp.body;
    assert!(text.contains("404 no route"));
    assert!(text.contains("abc123"));
    assert_eq!(text, "404 no route\nrequest-id: abc123\n");
    assert_eq!(resp.headers["content-type"], "text/plain; charset=utf-8");
}

#[test]
fn replies_keep_valid_statuses() {
    let r = redirect_response("https", 301, "h", "/p?q", "id");
    assert_eq!(r.status, 301);
    assert_eq!(r.headers["location"], "https://h/p?q");
    assert_eq!(r.body, "");
    assert_eq!(redirect_response("https", 99, "h", "/", "id").status, 308);
    assert_eq!(redirect_response("https", 1000, "h", "/", "id").status, 308);
    assert_eq!(fixed_response(204, "", "id").status, 204);
    assert_eq!(fixed_response(7, "x", "id").status, 200);
    // A value that is no header value is left out.
    let r = redirect_response("https", 301, "h\n", "/", "id");
    assert!(r.headers.get("location").is_none());
    assert_eq!(r.headers["x-request-id"], "id");
}

#[test]
fn hsts_goes_on_https_replies_only() {
    let r = send_reply(fixed_response(200, "x", "id"), true, "max-age=1");
    assert_eq!(r.headers["strict-transport-security"], "max-age=1");
    let r = send_reply(fixed_response(200, "x", "id"), false, "max-age=1");
    assert!(r.headers.get("strict-transport-security").is_none());
    let r = send_reply(fixed_response(200, "x", "id"), true, "");
    assert!(r.headers.get("strict-transport-security").is_none());
}

#[test]
fn host_from_authority() {
    let r = head("GET", "http://API.example.org/x", &[]);
    assert_eq!(extract_host(&r.uri_host, &r.headers, &None), "api.example.org");
}

#[test]
fn host_from_header_then_sni() {
    let r = head("GET", "/path", &[("host", "Host.Example.org:443")]);
    assert_eq!(extract_host(&r.uri_host, &r.headers, &None), "host.example.org");
    let r2 = head("GET", "/path", &[]);
    assert_eq!(
        extract_host(&r2.uri_host, &r2.headers, &Some("sni.example.org".into())),
        "sni.example.org"
    );
    assert_eq!(extract_host(&r2.uri_host, &r2.headers, &None), "");
}

#[test]
fn request_id_kept_or_generated() {
    let r = head("GET", "/", &[]);
    let gen = request_id(&r.headers);
    assert_eq!(gen.len(), 32);
    let r2 = head("GET", "/", &[("x-request-id", "client-123")]);
    assert_eq!(request_id(&r2.headers), "client-123");
}

#[test]
fn request_ids_out_of_bounds_are_replaced() {
    let long = "x".repeat(129);
    let h = headers(&[("x-request-id", &long)]);
    assert_eq!(
        request_id_with(&h, 1, 0xff),
        "000000000000000100000000000000ff"
    );
    let edge = "x".repeat(128);
    let h = headers(&[("x-request-id", &edge)]);
    assert_eq!(request_id_with(&h, 1, 2), edge);
    let h = headers(&[("x-request-id", "")]);
    assert_eq!(request_id_with(&h, 0, 0).len(), 32);
}

#[test]
fn hop_by_hop_headers_are_stripped() {
    let mut h = headers(&[
        ("Connection", "keep-alive, X-Private ,bad name"),
        ("Keep-Alive", "timeout=5"),
        ("Transfer-Encoding", "chunked"),
        ("TE", "trailers"),
        ("Upgrade", "websocket"),
        ("X-Private", "1"),
        ("Accept", "a"),
        ("Accept", "b"),
        ("X-Other", "2"),
    ]);
    strip_hop_by_hop(&mut h);
    let mut names: Vec<&str> = h.keys().map(|n| n.as_str()).collect();
    names.sort();
    assert_eq!(names, vec!["accept", "x-other"]);
    assert_eq!(h.get_all("accept").iter().count(), 2);
    let once = h.clone();
    strip_hop_by_hop(&mut h);
    assert_eq!(h, once);
}

#[test]
fn forwarded_for_is_appended() {
    let mut h = headers(&[]);
    append_forwarded_for(&mut h, "10.1.1.1");
    assert_eq!(get(&h, "x-forwarded-for"), Some("10.1.1.1"));
    append_forwarded_for(&mut h, "10.2.2.2");
    assert_eq!(get(&h, "x-forwarded-for"), Some("10.1.1.1, 10.2.2.2"));
    set_header(&mut h, "x-forwarded-for", "bad\u{7f}");
    assert_eq!(get(&h, "x-forwarded-for"), Some("10.1.1.1, 10.2.2.2"));
}

#[test]
fn bodies_and_methods() {
    for m in ["GET", "HEAD", "OPTIONS", "TRACE", "DELETE"] {
        assert!(is_idempotent(m));
    }
    for m in ["POST", "PUT", "PATCH", "get", ""] {
        assert!(!is_idempotent(m));
    }
    assert!(body_is_empty(&headers(&[])));
    assert!(body_is_empty(&headers(&[("content-length", "0")])));
    assert!(!body_is_empty(&headers(&[("content-length", "1")])));
    assert!(!body_is_empty(&headers(&[("transfer-encoding", "chunked")])));
    assert!(!body_is_empty(&headers(&[("content-length", "x")])));
}

fn forwarding(method: &str, list: &[(&str, &str)]) -> Forwarding {
    begin_forward(
        &ctx(false),
        head(method, "/p?q=1", list),
        "a.example.org",
        "id-1",
        "max-age=1",
    )
}

#[test]
fn only_a_retryable_request_goes_without_its_body() {
    assert!(!forwarding("GET", &[]).carries_body());
    assert!(!forwarding("DELETE", &[("content-length", "0")]).carries_body());
    assert!(forwarding("POST", &[]).carries_body());
    assert!(forwarding("GET", &[("content-length", "3")]).carries_body());
    assert!(forwarding("GET", &[("transfer-encoding", "chunked")]).carries_body());
}

#[test]
fn upstream_request_carries_forwarding_headers() {
    let f = forwarding("GET", &[("host", "a.example.org"), ("connection", "close"), ("accept", "x")]);
    assert_eq!(get(&f.headers, "x-forwarded-for"), Some("127.0.0.1"));
    assert_eq!(get(&f.headers, "x-forwarded-proto"), Some("http"));
    assert_eq!(get(&f.headers, "x-forwarded-host"), Some("a.example.org"));
    assert_eq!(
        get(&f.headers, "forwarded"),
        Some("for=127.0.0.1;host=a.example.org;proto=http")
    );
    assert_eq!(get(&f.headers, "x-request-id"), Some("id-1"));
    assert_eq!(get(&f.headers, "accept"), Some("x"));
    assert_eq!(get(&f.headers, "connection"), None);
    assert_eq!(f.path_and_query, "/p?q=1");
    let kept = forwarding("GET", &[("x-request-id", "mine")]);
    assert_eq!(get(&kept.headers, "x-request-id"), Some("mine"));
}

#[test]
fn only_bodyless_idempotent_requests_are_retryable() {
    assert!(forwarding("GET", &[]).retryable);
    assert!(forwarding("DELETE", &[("content-length", "0")]).retryable);
    assert!(!forwarding("POST", &[]).retryable);
    assert!(!forwarding("GET", &[("content-length", "3")]).retryable);
    // A chunked body counts although its header is not forwarded.
    assert!(!forwarding("GET", &[("transfer-encoding", "chunked")]).retryable);
}

#[test]
fn failures_are_retried_once() {
    let mut set = PoolSet::build(&[pool(&["10.0.0.1", "10.0.0.2"])]);
    let p = set.get_mut(&PoolId("pool".into())).unwrap();
    let h = HealthMap::new(true);
    let mut f = forwarding("GET", &[]);
    let mut backends = Vec::new();
    for last in [false, true] {
        match f.next_attempt(p, &h) {
            ForwardStep::Send(a) => {
                assert_eq!(a.uri, format!("http://{}/p?q=1", a.backend));
                assert_eq!(get(&a.headers, "host"), Some(a.backend.as_str()));
                backends.push(a.backend);
                p.release(a.guard);
            }
            _ => panic!("answered"),
        }
        match f.conclude(UpstreamOutcome::Failed) {
            Conclusion::Retry => assert!(!last),
            Conclusion::Answer(r) => {
                assert!(last);
                assert_eq!(r.status, 502);
                assert!(r.body.contains("upstream error"));
            }
            Conclusion::Respond => panic!("responded"),
        }
    }
    assert_eq!(backends, vec!["10.0.0.1:8080", "10.0.0.2:8080"]);
    match f.next_attempt(p, &h) {
        ForwardStep::Exhausted(r) => assert_eq!(r.status, 502),
        _ => panic!("not exhausted"),
    }
}

#[test]
fn responses_timeouts_and_bodies_are_not_retried() {
    let mut set = PoolSet::build(&[pool(&["10.0.0.1"])]);
    let p = set.get_mut(&PoolId("pool".into())).unwrap();
    let h = HealthMap::new(true);
    let mut f = forwarding("POST", &[("content-length", "3")]);
    assert!(matches!(f.next_attempt(p, &h), ForwardStep::Send(_)));
    assert!(matches!(f.conclude(UpstreamOutcome::Failed), Conclusion::Answer(_)));
    let mut g = forwarding("GET", &[]);
    assert!(matches!(g.next_attempt(p, &h), ForwardStep::Send(_)));
    assert!(matches!(g.conclude(UpstreamOutcome::Responded(500)), Conclusion::Respond));
    match g.conclude(UpstreamOutcome::TimedOut) {
        Conclusion::Answer(r) => assert_eq!((r.status, r.body.contains("upstream timeout")), (504, true)),
        _ => panic!("not answered"),
    }
}

#[test]
fn no_healthy_upstream_is_answered() {
    let mut set = PoolSet::build(&[pool(&["10.0.0.1"])]);
    let p = set.get_mut(&PoolId("pool".into())).unwrap();
    let mut h = HealthMap::new(true);
    h.set("10.0.0.1", 8080, HealthStatus::Draining);
    let mut f = forwarding("GET", &[]);
    match f.next_attempt(p, &h) {
        ForwardStep::Unavailable(r) => {
            assert_eq!(r.status, 503);
            assert!(r.body.contains("503 no healthy upstream"));
        }
        _ => panic!("not unavailable"),
    }
}

#[test]
fn upstream_labels_and_uris() {
    let set = PoolSet::build(&[pool(&["10.0.0.1"])]);
    let p = set.get(&PoolId("pool".into())).unwrap();
    let l = record_upstream(p, "10.0.0.1:8080", UpstreamOutcome::Responded(204));
    assert_eq!((l.pool.as_str(), l.backend.as_str(), l.status.as_str()), ("pool", "10.0.0.1:8080", "204"));
    assert_eq!(record_upstream(p, "b", UpstreamOutcome::Failed).status, "502");
    assert_eq!(record_upstream(p, "b", UpstreamOutcome::TimedOut).status, "504");
    assert_eq!(upstream_duration_labels(p, "b").pool, "pool");
    assert_eq!(build_upstream_uri(Scheme::Https, "h:1", "/x"), "https://h:1/x");
}

#[test]
fn upstream_responses_are_mapped() {
    let mut h = headers(&[("connection", "close"), ("content-type", "a/b")]);
    map_upstream_response(&mut h, true, "max-age=9");
    assert_eq!(get(&h, "connection"), None);
    assert_eq!(get(&h, "content-type"), Some("a/b"));
    assert_eq!(get(&h, "strict-transport-security"), Some("max-age=9"));
    let mut h = headers(&[]);
    map_upstream_response(&mut h, false, "max-age=9");
    assert!(h.is_empty());
}

/// As many headers as a map takes.
fn crowded() -> HeaderMap<HeaderValue> {
    let mut h: HeaderMap<HeaderValue> = HeaderMap::new();
    let mut i: usize = 0;
    while h
        .try_insert(
            HeaderName::from_bytes(format!("h-{i}").as_bytes()).unwrap(),
            HeaderValue::from_static("v"),
        )
        .is_ok()
    {
        i += 1;
    }
    h
}

#[test]
fn crowded_headers_stay_as_they_are() {
    let full = crowded();
    let mut h = full.clone();
    map_upstream_response(&mut h, true, "max-age=9");
    assert_eq!(get(&h, "strict-transport-security"), None);
    assert!(h == full);

    let mut reply = fixed_response(204, "x", "id");
    reply.headers = full.clone();
    let sent = send_reply(reply, true, "max-age=9");
    assert_eq!((sent.status, sent.body.as_str()), (204, "x"));
    assert!(sent.headers == full);

    let mut h = full.clone();
    prepare_headers(&mut h, "1.2.3.4", "a.example.org", "http", "id");
    assert_eq!(get(&h, "x-forwarded-for"), None);
    assert!(h == full);
}

#[test]
fn unmatched_host_returns_404() {
    let s = routed("a.example.org", RouteAction::Forward("pool".into()));
    let req = head("GET", "/", &[("host", "unknown.example.org")]);
    let plan = handle_request(&s, &ctx(false), &req, "id");
    assert!(matches!(plan, RequestPlan::Unrouted(_)));
    assert_eq!(reply_of(&plan).status, 404);
    let l = request_labels(&ListenerId("http".into()), &plan, 404);
    assert_eq!((l.host.as_str(), l.route.as_str(), l.status.as_str()), ("none", "none", "404"));
}

#[test]
fn matched_host_is_forwarded() {
    let s = routed(" A.example.org ", RouteAction::Forward("pool".into()));
    let req = head("GET", "/", &[("host", "a.example.org")]);
    let plan = handle_request(&s, &ctx(false), &req, "id");
    match &plan {
        RequestPlan::Routed { route, host_pattern, answer: RoutedAnswer::Forward(p) } => {
            assert_eq!(route, "r");
            assert_eq!(host_pattern, "A.example.org");
            assert_eq!(p, &PoolId("pool".into()));
        }
        _ => panic!("not forwarded"),
    }
    let l = duration_labels(&ListenerId("http".into()), &plan);
    assert_eq!((l.listener.as_str(), l.host.as_str(), l.route.as_str()), ("http", "A.example.org", "r"));
}

#[test]
fn missing_pool_is_a_bad_gateway() {
    let mut s = routed("*", RouteAction::Forward("pool".into()));
    s.pools = PoolSet::default();
    let plan = handle_request(&s, &ctx(false), &head("GET", "/", &[]), "id");
    assert_eq!(reply_of(&plan).status, 502);
    assert!(reply_of(&plan).body.contains("pool not found"));
}

#[test]
fn http_redirect_action() {
    let s = routed(
        "*",
        RouteAction::Redirect(RedirectAction { scheme: "https".into(), status: 308 }),
    );
    let req = head("GET", "/path", &[("host", "a.example.org")]);
    let plan = handle_request(&s, &ctx(false), &req, "id");
    let resp = reply_of(&plan);
    assert_eq!(resp.status, 308);
    assert_eq!(
        resp.headers.get("location").unwrap(),
        "https://a.example.org/path"
    );
}

#[test]
fn fixed_action_is_answered() {
    let mut s = routed(
        "*",
        RouteAction::Fixed(FixedAction { status: 418, body: "tea".into() }),
    );
    s.tls.hsts = "max-age=7".into();
    let plan = handle_request(&s, &ctx(true), &head("GET", "/", &[]), "id");
    let resp = reply_of(&plan);
    assert_eq!((resp.status, resp.body.as_str()), (418, "tea"));
    assert_eq!(resp.headers["x-request-id"], "id");
    assert_eq!(resp.headers["strict-transport-security"], "max-age=7");
}

#[test]
fn serves_acme_http01_challenge() {
    let mut s = routed(
        "*",
        RouteAction::Redirect(RedirectAction { scheme: "https".into(), status: 308 }),
    );
    // Register a pending ACME challenge.
    s.challenges.set("tok-abc", "tok-abc.keyauthz");
    let list = [("host", "any.example.org")];

    // The challenge is served (not redirected), even though the catch-all
    // route would otherwise redirect to https.
    let req = head("GET", "/.well-known/acme-challenge/tok-abc", &list);
    let plan = handle_request(&s, &ctx(false), &req, "id");
    assert_eq!(reply_of(&plan).status, 200);
    assert!(reply_of(&plan).body.contains("tok-abc.keyauthz"));

    // Unknown token → 404.
    let req = head("GET", "/.well-known/acme-challenge/nope", &list);
    let plan = handle_request(&s, &ctx(false), &req, "id");
    assert_eq!(reply_of(&plan).status, 404);

    // Over TLS the path is routed like any other.
    let req = head("GET", "/.well-known/acme-challenge/tok-abc", &list);
    let plan = handle_request(&s, &ctx(true), &req, "id");
    assert_eq!(reply_of(&plan).status, 308);
}

#[test]
fn gates_bound_connections() {
    let mut global = Gate::new(2);
    let mut one = Gate::new(1);
    let mut two = Gate::new(5);
    assert!(enter_both(&mut global, &mut one));
    // The listener is full; the node keeps its place.
    assert!(!enter_both(&mut global, &mut one));
    assert!(enter_both(&mut global, &mut two));
    assert!(!enter_both(&mut global, &mut two));
    leave_both(&mut global, &mut one);
    assert!(enter_both(&mut global, &mut one));
    assert_eq!(limit_label().reason, "limit");
    assert!(stops_accepting(None));
    assert!(stops_accepting(Some(true)));
    assert!(!stops_accepting(Some(false)));
}

#[test]
fn handshakes_lead_to_connections() {
    let l = listener();
    let ip = IpAddr::V4(1);
    let p = after_handshake(&l, ip, "0.0.0.1", Handshake::Done(Some("s".into())));
    let c = p.serve.unwrap();
    assert!(c.is_tls);
    assert_eq!((c.client.as_str(), c.sni.as_deref()), ("0.0.0.1", Some("s")));
    assert_eq!(p.handshake.unwrap().result, "ok");
    let p = after_handshake(&l, ip, "0.0.0.1", Handshake::Failed);
    assert!(p.serve.is_none() && p.rejected.is_none());
    assert_eq!(p.handshake.unwrap().result, "failed");
    let p = after_handshake(&l, ip, "0.0.0.1", Handshake::TimedOut);
    assert!(p.serve.is_none() && p.handshake.is_none());
    assert_eq!(p.rejected.unwrap().reason, "handshake_timeout");
    assert!(!plain_context(&l, ip, "0.0.0.1").is_tls);
    assert_eq!(accepted_label(&l).listener, "http");
}

#[test]
fn draining_fails_readiness_and_ends() {
    let mut s = shared();
    let mut d = DrainController::default();
    assert!(!d.signal());
    d.trigger(&mut s);
    assert!(d.signal() && s.draining);
    assert_eq!(drain_step(0, false), DrainStep::Done);
    assert_eq!(drain_step(-1, true), DrainStep::Done);
    assert_eq!(drain_step(3, false), DrainStep::Wait);
    assert_eq!(drain_step(3, true), DrainStep::GiveUp);
    assert_eq!(ops::handle("/readyz", true, s.draining, "").status, 503);
    assert_eq!(ops::handle("/healthz", true, s.draining, "").status, 200);
}

#[test]
fn ops_paths() {
    assert_eq!(ops::handle("/healthz", false, false, "").body, "ok\n");
    assert_eq!(ops::handle("/readyz", true, false, "").body, "ready\n");
    assert_eq!(ops::handle("/readyz", false, false, "").body, "not ready\n");
    let m = ops::handle("/metrics", true, false, "text");
    assert_eq!((m.status, m.body.as_str()), (200, "text"));
    assert_eq!(
        m.content_type.as_deref(),
        Some("application/openmetrics-text; version=1.0.0; charset=utf-8")
    );
    assert_eq!(ops::handle("/x", true, false, "").status, 404);
}

#[test]
fn metric_catalogues() {
    let proxy = proxy_catalogue();
    let control = control_catalogue();
    assert_eq!((proxy.len(), control.len()), (15, 8));
    let mut names: Vec<&str> = proxy.iter().chain(control.iter()).map(|m| m.name).collect();
    assert!(names.contains(&"gfe_no_route"));
    assert!(names.contains(&"gfe_backend_health_status"));
    assert!(names.iter().all(|n| n.starts_with("gfe_")));
    names.sort();
    names.dedup();
    assert_eq!(names.len(), 23);
    assert_eq!(proxy[1].kind, MetricKind::Gauge);
    assert_eq!(latency_buckets().len(), 11);
    assert_eq!(latency_buckets()[10], 30_000);
    assert_eq!(probe_buckets(), vec![1, 5, 10, 50, 100, 500, 1000, 2000]);
}
