use gfe::number::{decimal_string, hex16, read_u64, NumberError};
use gfe::text::{split_chars, to_lower, trim_str};
use gfe::types::config::{
    default_expected_status, default_health_path, default_healthy_threshold, default_metrics_addr,
    default_probe_type, default_reload_debounce, default_unhealthy_threshold,
};
use gfe::types::duration::{deserialize_duration, parse_duration, serialize_duration};
use gfe::types::route::{default_path_prefix, default_redirect_status};
use gfe::types::upstream::default_weight;
use gfe::types::{
    DynamicConfig, Duration, GfeError, HealthCheckConfig, HealthStatus, IpAddr, LbPolicy,
    LimitsConfig, ListenProtocol, Listener, ListenerId, MinVersion, ProbeType, Scheme, SocketAddr,
    TimeoutsConfig, TlsConfig, Upstream, UpstreamConfig,
};

#[test]
fn parses_units() {
    assert_eq!(parse_duration("5s").unwrap(), Duration::from_secs(5));
    assert_eq!(parse_duration("250ms").unwrap(), Duration::from_millis(250));
    assert_eq!(parse_duration("10us").unwrap(), Duration::from_micros(10));
}

#[test]
fn rejects_unknown() {
    assert!(parse_duration("5").is_err());
    assert!(parse_duration("5m").is_err());
}

#[test]
fn duration_texts_round_trip() {
    for text in ["0us", "10us", "250ms", "5s", "90s"] {
        let d = parse_duration(text).unwrap();
        let again = parse_duration(&serialize_duration(&d)).unwrap();
        assert_eq!(d, again);
    }
    assert_eq!(
        deserialize_duration("3s".to_string()).unwrap(),
        Duration::from_secs(3)
    );
    assert!(deserialize_duration("soon".to_string()).is_err());
}

#[test]
fn durations_are_compared_by_length() {
    assert_eq!(Duration::from_millis(1500), Duration::from_micros(1_500_000));
    assert_eq!(Duration::from_millis(1500).as_micros(), 1_500_000);
    assert_ne!(Duration::from_secs(1), Duration::from_millis(999));
}

#[test]
fn health_selectable() {
    assert!(HealthStatus::Healthy.is_selectable());
    assert!(!HealthStatus::Draining.is_selectable());
    assert!(!HealthStatus::Unhealthy.is_selectable());
    assert!(!HealthStatus::Unknown.is_selectable());
}

#[test]
fn error_messages() {
    let cases = [
        (GfeError::Config("x".into()), "configuration error: x"),
        (GfeError::Validation("x".into()), "validation error: x"),
        (GfeError::Io("x".into()), "I/O error: x"),
        (GfeError::Tls("x".into()), "TLS error: x"),
        (
            GfeError::NoRoute { host: "h".into(), path: "/p".into() },
            "no route matched host=h path=/p",
        ),
        (GfeError::PoolNotFound("p".into()), "upstream pool not found: p"),
        (
            GfeError::NoHealthyUpstream("p".into()),
            "no healthy upstream in pool p",
        ),
        (GfeError::Certificate("x".into()), "certificate error: x"),
    ];
    for (e, text) in cases {
        assert_eq!(e.message(), text);
        assert_eq!(e.clone(), e);
    }
}

#[test]
fn authority_joins_host_and_port() {
    let u = Upstream { host: "10.0.0.1".into(), port: 8443, weight: default_weight() };
    assert_eq!(u.authority(), "10.0.0.1:8443");
    assert_eq!(u.weight, 1);
}

#[test]
fn listener_is_tls() {
    let mut l = Listener {
        id: ListenerId("https".into()),
        address: IpAddr::V4(0),
        port: 443,
        protocol: ListenProtocol::Https,
    };
    assert!(l.is_tls());
    l.protocol = ListenProtocol::Http;
    assert!(!l.is_tls());
}

#[test]
fn defaults_are_those_documented() {
    assert_eq!(default_path_prefix(), "/");
    assert_eq!(default_redirect_status(), 308);
    assert_eq!(
        default_metrics_addr(),
        SocketAddr { ip: IpAddr::V4(0x7f00_0001), port: 9101 }
    );
    assert_eq!(default_reload_debounce(), Duration::from_millis(250));
    assert_eq!(MinVersion::default(), MinVersion::Tls12);
    assert_eq!(Scheme::default(), Scheme::Http);
    assert_eq!(LbPolicy::default(), LbPolicy::RoundRobin);
    assert_eq!(HealthStatus::default(), HealthStatus::Unknown);
    assert_eq!(TlsConfig::default().hsts, "");
    let limits = LimitsConfig::default();
    assert_eq!(limits.max_connections, 100_000);
    assert_eq!(limits.max_connections_listener, 50_000);
    assert_eq!(limits.max_header_bytes, 65_536);
    assert_eq!(limits.max_h2_concurrent_streams, 256);
    assert_eq!(limits.max_upstream_connections, 20_000);
    let t = TimeoutsConfig::default();
    assert_eq!(t.tls_handshake, Duration::from_secs(10));
    assert_eq!(t.upstream_connect, Duration::from_secs(3));
    assert_eq!(t.request_total, Duration::from_secs(60));
    assert_eq!(t.client_idle, Duration::from_secs(75));
    assert_eq!(t.drain_deadline, Duration::from_secs(30));
    let h = HealthCheckConfig::default();
    assert_eq!(h.probe_type, default_probe_type());
    assert_eq!(h.probe_type, ProbeType::Http);
    assert_eq!(h.healthy_threshold, default_healthy_threshold());
    assert_eq!(h.unhealthy_threshold, default_unhealthy_threshold());
    assert_eq!(h.path, default_health_path());
    assert_eq!(h.expected_status, default_expected_status());
    assert_eq!(UpstreamConfig::default().idle_per_host, None);
    assert_eq!(DynamicConfig::default().routes.len(), 0);
}

#[test]
fn numbers_are_written_and_read() {
    assert_eq!(decimal_string(0), "0");
    assert_eq!(decimal_string(65535), "65535");
    assert_eq!(hex16(0), "0000000000000000");
    assert_eq!(hex16(0xdead_beef), "00000000deadbeef");
    let read = |s: &str| read_u64(&s.chars().collect::<Vec<char>>());
    assert_eq!(read("42"), Ok(42));
    assert_eq!(read("+42"), Ok(42));
    assert_eq!(read(""), Err(NumberError::Empty));
    assert_eq!(read("4x"), Err(NumberError::InvalidDigit));
    assert_eq!(read("-1"), Err(NumberError::InvalidDigit));
    assert_eq!(read("18446744073709551615"), Ok(u64::MAX));
    assert_eq!(read("18446744073709551616"), Err(NumberError::TooLarge));
}

#[test]
fn text_operations() {
    assert_eq!(to_lower("API.Example.ORG"), "api.example.org");
    assert_eq!(trim_str(" \ta b\u{3000}"), "a b");
    let pieces = split_chars(&['a', ',', ',', 'b'], ',');
    assert_eq!(pieces, vec![vec!['a'], vec![], vec!['b']]);
}

#[test]
fn duration_errors_say_what_is_wrong() {
    let text = |s: &str| parse_duration(s).unwrap_err();
    assert_eq!(text("5m"), "unknown duration format: 5m");
    assert_eq!(text(" 5 "), "unknown duration format: 5");
    assert_eq!(text("s"), "cannot parse integer from empty string");
    assert_eq!(text("xs"), "invalid digit found in string");
    assert_eq!(text("-1ms"), "invalid digit found in string");
    assert_eq!(text("18446744073709551616us"), "number too large to fit in target type");
    assert_eq!(parse_duration(" 7 ms ").unwrap(), Duration::from_millis(7));
    let long = Duration { secs: u64::MAX / 1000, nanos: 1_000_000 };
    assert_eq!(parse_duration(&serialize_duration(&long)).unwrap(), long);
}

#[test]
fn client_certificates_need_their_key() {
    let cfg = |cert: Option<&str>, key: Option<&str>| UpstreamConfig {
        idle_per_host: Some(4),
        client_cert_file: cert.map(|c| c.to_string()),
        client_key_file: key.map(|k| k.to_string()),
        extra_ca_file: None,
    };
    assert!(cfg(None, None).check().is_ok());
    assert!(cfg(Some("c"), Some("k")).check().is_ok());
    assert!(cfg(None, Some("k")).check().is_ok());
    assert_eq!(
        cfg(Some("c"), None).check().unwrap_err().message(),
        "configuration error: client_key_file is required if client_cert_file is set"
    );
    assert_eq!(cfg(None, None).idle_bound(), 4);
    assert_eq!(UpstreamConfig::default().idle_bound(), 32);
}
