use gfe::router::{host_matches, path_prefix_matches, RouteTable};
use gfe::types::{
    DynamicConfig, IpAddr, ListenProtocol, Listener, ListenerId, Route, RouteAction, RouteId,
};

fn listener(id: &str) -> Listener {
    Listener {
        id: ListenerId(id.into()),
        address: IpAddr::V4(0),
        port: 443,
        protocol: ListenProtocol::Https,
    }
}

fn route(id: &str, listener: &str, host: &str, path: &str, pool: &str) -> Route {
    Route {
        id: RouteId(id.into()),
        listener: ListenerId(listener.into()),
        host: host.into(),
        path_prefix: path.into(),
        action: RouteAction::Forward(pool.into()),
    }
}

fn table(routes: Vec<Route>) -> RouteTable {
    let cfg = DynamicConfig {
        listeners: vec![listener("https")],
        routes,
        ..Default::default()
    };
    RouteTable::compile(&cfg)
}

fn pool_for(t: &RouteTable, host: &str, path: &str) -> Option<String> {
    t.match_request(&ListenerId("https".into()), host, path)
        .map(|m| match &m.action {
            RouteAction::Forward(p) => p.clone(),
            _ => unreachable!(),
        })
}

#[test]
fn wildcard_host_single_label() {
    assert!(host_matches("*.example.org", "api.example.org"));
    assert!(!host_matches("*.example.org", "example.org"));
    assert!(!host_matches("*.example.org", "a.b.example.org"));
}

#[test]
fn wildcard_needs_a_whole_label() {
    assert!(!host_matches("*.example.org", "apiexample.org"));
    assert!(!host_matches("*.example.org", ".example.org"));
}

#[test]
fn any_and_exact_host() {
    assert!(host_matches("*", "anything.org"));
    assert!(host_matches("API.example.org", "api.example.org"));
    assert!(!host_matches("api.example.org", "other.example.org"));
}

#[test]
fn path_boundaries() {
    assert!(path_prefix_matches("/", "/anything"));
    assert!(path_prefix_matches("/api", "/api"));
    assert!(path_prefix_matches("/api", "/api/v1"));
    assert!(!path_prefix_matches("/api", "/apix"));
    assert!(path_prefix_matches("/api/", "/api/v1"));
}

#[test]
fn nested_prefixes_match_the_same_path() {
    assert!(path_prefix_matches("/a", "/a/b/c"));
    assert!(path_prefix_matches("/a/b", "/a/b/c"));
    assert!(path_prefix_matches("", "/a/b/c"));
    assert!(!path_prefix_matches("/a/x", "/a/b/c"));
}

#[test]
fn exact_beats_wildcard() {
    let t = table(vec![
        route("wild", "https", "*.example.org", "/", "wild-pool"),
        route("exact", "https", "api.example.org", "/", "exact-pool"),
    ]);
    let m = t
        .match_request(&ListenerId("https".into()), "api.example.org", "/x")
        .unwrap();
    assert_eq!(m.action, RouteAction::Forward("exact-pool".into()));
}

#[test]
fn longest_path_prefix_wins() {
    let t = table(vec![
        route("root", "https", "a.example.org", "/", "root-pool"),
        route("api", "https", "a.example.org", "/api/", "api-pool"),
    ]);
    let m = t
        .match_request(&ListenerId("https".into()), "a.example.org", "/api/users")
        .unwrap();
    assert_eq!(m.action, RouteAction::Forward("api-pool".into()));
    let m2 = t
        .match_request(&ListenerId("https".into()), "a.example.org", "/other")
        .unwrap();
    assert_eq!(m2.action, RouteAction::Forward("root-pool".into()));
}

#[test]
fn no_match_returns_none() {
    let t = table(vec![route("r", "https", "a.example.org", "/", "p")]);
    assert!(t
        .match_request(&ListenerId("https".into()), "other.org", "/")
        .is_none());
    assert!(t
        .match_request(&ListenerId("http".into()), "a.example.org", "/")
        .is_none());
}

#[test]
fn any_host_catch_all() {
    let t = table(vec![route("any", "https", "*", "/", "default-pool")]);
    let m = t
        .match_request(&ListenerId("https".into()), "whatever.org", "/x")
        .unwrap();
    assert_eq!(m.action, RouteAction::Forward("default-pool".into()));
}

#[test]
fn host_tiers_fall_through_when_no_path_matches() {
    let t = table(vec![
        route("any", "https", "*", "/", "any"),
        route("wild", "https", "*.example.org", "/w", "wild"),
        route("exact", "https", "a.example.org", "/e", "exact"),
    ]);
    assert_eq!(pool_for(&t, "a.example.org", "/e/1").as_deref(), Some("exact"));
    assert_eq!(pool_for(&t, "a.example.org", "/w/1").as_deref(), Some("wild"));
    assert_eq!(pool_for(&t, "a.example.org", "/x").as_deref(), Some("any"));
    assert_eq!(t.route_count(), 3);
}

#[test]
fn first_of_equal_routes_wins() {
    let t = table(vec![
        route("one", "https", "a.example.org", "/api", "one"),
        route("two", "https", " A.Example.org ", "/api", "two"),
    ]);
    let m = t
        .match_request(&ListenerId("https".into()), "a.example.org", "/api")
        .unwrap();
    assert_eq!(m.id, RouteId("one".into()));
}

#[test]
fn request_host_case_is_ignored_and_pattern_is_trimmed() {
    let t = table(vec![route("r", "https", " API.Example.org ", "/", "p")]);
    let m = t
        .match_request(&ListenerId("https".into()), "api.EXAMPLE.org", "/")
        .unwrap();
    assert_eq!(m.host, "API.Example.org");
    assert_eq!(RouteTable::default().route_count(), 0);
}
