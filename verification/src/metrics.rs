//! The metrics of the node: their names, kinds, buckets and labels.

use vstd::prelude::*;
use vstd::string::*;

verus! {

/// `listener` label for per-listener connection metrics.
#[derive(Debug, PartialEq, Eq, Hash)]
pub struct ListenerLabel {
    pub listener: String,
}

/// `reason` label for rejected connections.
#[derive(Debug, PartialEq, Eq, Hash)]
pub struct RejectLabel {
    pub reason: String,
}

/// `result` label for TLS handshakes.
#[derive(Debug, PartialEq, Eq, Hash)]
pub struct TlsResultLabel {
    pub result: String,
}

/// Labels for completed requests. `host` is the matched route's configured
/// host *pattern* (bounded by config), never the raw client `Host` header.
#[derive(Debug, PartialEq, Eq, Hash)]
pub struct RequestLabels {
    pub listener: String,
    pub host: String,
    pub route: String,
    pub status: String,
}

/// Labels for the request-latency histogram (no `status`, to keep the number
/// of histogram series bounded).
#[derive(Debug, PartialEq, Eq, Hash)]
pub struct RequestDurationLabels {
    pub listener: String,
    pub host: String,
    pub route: String,
}

/// Labels for upstream requests.
#[derive(Debug, PartialEq, Eq, Hash)]
pub struct UpstreamLabels {
    pub pool: String,
    pub backend: String,
    pub status: String,
}

/// Labels for the upstream-latency histogram (per pool and backend).
#[derive(Debug, PartialEq, Eq, Hash)]
pub struct UpstreamDurationLabels {
    pub pool: String,
    pub backend: String,
}

/// `pool` and `backend` labels for per-backend gauges.
#[derive(Debug, PartialEq, Eq, Hash)]
pub struct BackendLabels {
    pub pool: String,
    pub backend: String,
}

/// `sni` label for per-certificate expiry.
#[derive(Debug, PartialEq, Eq, Hash)]
pub struct SniLabel {
    pub sni: String,
}

/// The kind of a metric.
#[derive(Debug, Clone, Copy, PartialEq, Eq, Structural)]
pub enum MetricKind {
    /// A count that only grows.
    Counter,
    /// A value that is set.
    Gauge,
    /// A distribution over the latency buckets.
    Latency,
    /// A distribution over the probe buckets.
    ProbeTime,
}

/// One registered metric.
#[derive(Debug, Clone, Copy)]
pub struct MetricSpec {
    pub name: &'static str,
    pub help: &'static str,
    pub kind: MetricKind,
    /// Whether there is one series for each label set.
    pub labelled: bool,
}

/// What a metric is registered as.
pub open spec fn metric_view(m: MetricSpec) -> (Seq<char>, Seq<char>, MetricKind, bool) {
    (m.name@, m.help@, m.kind, m.labelled)
}

/// Whether a list of metrics is the given one.
pub open spec fn is_catalogue(
    r: Seq<MetricSpec>,
    want: Seq<(Seq<char>, Seq<char>, MetricKind, bool)>,
) -> bool {
    r.len() == want.len() && forall|i: int|
        0 <= i < r.len() ==> metric_view(#[trigger] r[i]) == want[i]
}

fn metric(
    name: &'static str,
    help: &'static str,
    kind: MetricKind,
    labelled: bool,
) -> (r: MetricSpec)
    ensures
        metric_view(r) == (name@, help@, kind, labelled),
{
    MetricSpec { name, help, kind, labelled }
}

/// The data-plane (proxy) metrics, in order of registration.
pub open spec fn proxy_metrics() -> Seq<(Seq<char>, Seq<char>, MetricKind, bool)> {
    seq![
        (
            "gfe_connections_accepted"@,
            "Client connections accepted"@,
            MetricKind::Counter,
            true,
        ),
        (
            "gfe_connections_active"@,
            "Currently open client connections"@,
            MetricKind::Gauge,
            false,
        ),
        (
            "gfe_connections_rejected"@,
            "Connections rejected (limit, handshake_timeout)"@,
            MetricKind::Counter,
            true,
        ),
        ("gfe_tls_handshakes"@, "TLS handshakes by result"@, MetricKind::Counter, true),
        (
            "gfe_tls_handshake_duration_seconds"@,
            "TLS handshake latency"@,
            MetricKind::Latency,
            false,
        ),
        (
            "gfe_tls_sni_no_cert"@,
            "Handshakes with no matching certificate"@,
            MetricKind::Counter,
            false,
        ),
        ("gfe_requests"@, "Requests by route and status"@, MetricKind::Counter, true),
        (
            "gfe_request_duration_seconds"@,
            "End-to-end request latency"@,
            MetricKind::Latency,
            true,
        ),
        ("gfe_no_route"@, "Requests matching no route"@, MetricKind::Counter, false),
        (
            "gfe_no_healthy_upstream"@,
            "Requests with no healthy upstream"@,
            MetricKind::Counter,
            false,
        ),
        (
            "gfe_upstream_requests"@,
            "Upstream requests by pool/backend/status"@,
            MetricKind::Counter,
            true,
        ),
        (
            "gfe_upstream_request_duration_seconds"@,
            "Upstream round-trip latency"@,
            MetricKind::Latency,
            true,
        ),
        (
            "gfe_upstream_connect_errors"@,
            "Failures opening an upstream connection"@,
            MetricKind::Counter,
            false,
        ),
        ("gfe_bytes_in"@, "Client-side bytes received"@, MetricKind::Counter, false),
        ("gfe_bytes_out"@, "Client-side bytes sent"@, MetricKind::Counter, false),
    ]
}

/// The data-plane (proxy) metrics, in order of registration.
pub fn proxy_catalogue() -> (r: Vec<MetricSpec>)
    ensures
        is_catalogue(r@, proxy_metrics()),
{
    let mut m: Vec<MetricSpec> = Vec::new();
    m.push(
        metric(
            "gfe_connections_accepted",
            "Client connections accepted",
            MetricKind::Counter,
            true,
        ),
    );
    m.push(
        metric(
            "gfe_connections_active",
            "Currently open client connections",
            MetricKind::Gauge,
            false,
        ),
    );
    m.push(
        metric(
            "gfe_connections_rejected",
            "Connections rejected (limit, handshake_timeout)",
            MetricKind::Counter,
            true,
        ),
    );
    m.push(metric("gfe_tls_handshakes", "TLS handshakes by result", MetricKind::Counter, true));
    m.push(
        metric(
            "gfe_tls_handshake_duration_seconds",
            "TLS handshake latency",
            MetricKind::Latency,
            false,
        ),
    );
    m.push(
        metric(
            "gfe_tls_sni_no_cert",
            "Handshakes with no matching certificate",
            MetricKind::Counter,
            false,
        ),
    );
    m.push(metric("gfe_requests", "Requests by route and status", MetricKind::Counter, true));
    m.push(
        metric(
            "gfe_request_duration_seconds",
            "End-to-end request latency",
            MetricKind::Latency,
            true,
        ),
    );
    m.push(metric("gfe_no_route", "Requests matching no route", MetricKind::Counter, false));
    m.push(
        metric(
            "gfe_no_healthy_upstream",
            "Requests with no healthy upstream",
            MetricKind::Counter,
            false,
        ),
    );
    m.push(
        metric(
            "gfe_upstream_requests",
            "Upstream requests by pool/backend/status",
            MetricKind::Counter,
            true,
        ),
    );
    m.push(
        metric(
            "gfe_upstream_request_duration_seconds",
            "Upstream round-trip latency",
            MetricKind::Latency,
            true,
        ),
    );
    m.push(
        metric(
            "gfe_upstream_connect_errors",
            "Failures opening an upstream connection",
            MetricKind::Counter,
            false,
        ),
    );
    m.push(metric("gfe_bytes_in", "Client-side bytes received", MetricKind::Counter, false));
    m.push(metric("gfe_bytes_out", "Client-side bytes sent", MetricKind::Counter, false));
    m
}

/// The control-plane metrics, in order of registration.
pub open spec fn control_metrics() -> Seq<(Seq<char>, Seq<char>, MetricKind, bool)> {
    seq![
        (
            "gfe_backend_health_status"@,
            "1=HEALTHY, 0=otherwise, per backend"@,
            MetricKind::Gauge,
            true,
        ),
        (
            "gfe_backend_draining"@,
            "1 if backend is in lame-duck DRAINING"@,
            MetricKind::Gauge,
            true,
        ),
        (
            "gfe_health_check_duration_seconds"@,
            "Health probe round-trip time"@,
            MetricKind::ProbeTime,
            false,
        ),
        (
            "gfe_config_last_reload_timestamp"@,
            "Unix time of last successful dynamic-config reload"@,
            MetricKind::Gauge,
            false,
        ),
        (
            "gfe_config_reload_errors"@,
            "Failed reloads (old snapshot kept)"@,
            MetricKind::Counter,
            false,
        ),
        (
            "gfe_cert_expiry_timestamp"@,
            "Certificate not-after Unix time per SNI"@,
            MetricKind::Gauge,
            true,
        ),
        ("gfe_active_routes"@, "Routes in the current snapshot"@, MetricKind::Gauge, false),
        ("gfe_active_pools"@, "Pools in the current snapshot"@, MetricKind::Gauge, false),
    ]
}

/// The control-plane metrics, in order of registration.
pub fn control_catalogue() -> (r: Vec<MetricSpec>)
    ensures
        is_catalogue(r@, control_metrics()),
{
    let mut m: Vec<MetricSpec> = Vec::new();
    m.push(
        metric(
            "gfe_backend_health_status",
            "1=HEALTHY, 0=otherwise, per backend",
            MetricKind::Gauge,
            true,
        ),
    );
    m.push(
        metric(
            "gfe_backend_draining",
            "1 if backend is in lame-duck DRAINING",
            MetricKind::Gauge,
            true,
        ),
    );
    m.push(
        metric(
            "gfe_health_check_duration_seconds",
            "Health probe round-trip time",
            MetricKind::ProbeTime,
            false,
        ),
    );
    m.push(
        metric(
            "gfe_config_last_reload_timestamp",
            "Unix time of last successful dynamic-config reload",
            MetricKind::Gauge,
            false,
        ),
    );
    m.push(
        metric(
            "gfe_config_reload_errors",
            "Failed reloads (old snapshot kept)",
            MetricKind::Counter,
            false,
        ),
    );
    m.push(
        metric(
            "gfe_cert_expiry_timestamp",
            "Certificate not-after Unix time per SNI",
            MetricKind::Gauge,
            true,
        ),
    );
    m.push(
        metric("gfe_active_routes", "Routes in the current snapshot", MetricKind::Gauge, false),
    );
    m.push(metric("gfe_active_pools", "Pools in the current snapshot", MetricKind::Gauge, false));
    m
}

/// The upper bounds of the latency buckets, in milliseconds: 1ms to 30s.
pub open spec fn latency_bounds() -> Seq<u64> {
    seq![1u64, 5, 10, 25, 50, 100, 250, 500, 1000, 5000, 30000]
}

/// The upper bounds of the latency buckets, in milliseconds: 1ms to 30s,
/// exponential-ish.
pub fn latency_buckets() -> (r: Vec<u64>)
    ensures
        r@ == latency_bounds(),
{
    let r: Vec<u64> = vec![1, 5, 10, 25, 50, 100, 250, 500, 1000, 5000, 30000];
    assert(r@ =~= latency_bounds());
    r
}

/// The upper bounds of the probe buckets, in milliseconds: 1ms to 2s.
pub open spec fn probe_bounds() -> Seq<u64> {
    seq![1u64, 5, 10, 50, 100, 500, 1000, 2000]
}

/// The upper bounds of the probe buckets, in milliseconds: 1ms to 2s.
pub fn probe_buckets() -> (r: Vec<u64>)
    ensures
        r@ == probe_bounds(),
{
    let r: Vec<u64> = vec![1, 5, 10, 50, 100, 500, 1000, 2000];
    assert(r@ =~= probe_bounds());
    r
}

/// Bucket bounds ascend.
pub proof fn law_buckets_ascend(i: int, j: int)
    ensures
        0 <= i < j < latency_bounds().len() ==> latency_bounds()[i] < latency_bounds()[j],
        0 <= i < j < probe_bounds().len() ==> probe_bounds()[i] < probe_bounds()[j],
{
}

/// Every metric of the node has the prefix of the node, and a distribution over
/// buckets is what measures seconds.
pub proof fn law_metric_names(i: int)
    ensures
        proxy_metrics().len() == 15,
        control_metrics().len() == 8,
        0 <= i < 15 ==> "gfe_"@.is_prefix_of(proxy_metrics()[i].0),
        0 <= i < 8 ==> "gfe_"@.is_prefix_of(control_metrics()[i].0),
        0 <= i < 15 ==> (proxy_metrics()[i].2 == MetricKind::Latency <==> "_seconds"@.is_suffix_of(
            proxy_metrics()[i].0,
        )),
        0 <= i < 8 ==> (control_metrics()[i].2 == MetricKind::ProbeTime <==> "_seconds"@.is_suffix_of(
            control_metrics()[i].0,
        )),
{
    reveal_strlit("gfe_");
    reveal_strlit("_seconds");
    reveal_strlit("gfe_connections_accepted");
    reveal_strlit("gfe_connections_active");
    reveal_strlit("gfe_connections_rejected");
    reveal_strlit("gfe_tls_handshakes");
    reveal_strlit("gfe_tls_handshake_duration_seconds");
    reveal_strlit("gfe_tls_sni_no_cert");
    reveal_strlit("gfe_requests");
    reveal_strlit("gfe_request_duration_seconds");
    reveal_strlit("gfe_no_route");
    reveal_strlit("gfe_no_healthy_upstream");
    reveal_strlit("gfe_upstream_requests");
    reveal_strlit("gfe_upstream_request_duration_seconds");
    reveal_strlit("gfe_upstream_connect_errors");
    reveal_strlit("gfe_bytes_in");
    reveal_strlit("gfe_bytes_out");
    reveal_strlit("gfe_backend_health_status");
    reveal_strlit("gfe_backend_draining");
    reveal_strlit("gfe_health_check_duration_seconds");
    reveal_strlit("gfe_config_last_reload_timestamp");
    reveal_strlit("gfe_config_reload_errors");
    reveal_strlit("gfe_cert_expiry_timestamp");
    reveal_strlit("gfe_active_routes");
    reveal_strlit("gfe_active_pools");
    if 0 <= i < 15 {
        let name = proxy_metrics()[i].0;
        assert(name.subrange(0, 4) =~= "gfe_"@);
        if proxy_metrics()[i].2 == MetricKind::Latency {
            assert(name.subrange(name.len() - 8, name.len() as int) =~= "_seconds"@);
        } else if "_seconds"@.is_suffix_of(name) {
            assert(name[name.len() - 8] == '_' && name[name.len() - 2] == 'd' && name[name.len() - 3]
                == 'n') by {
                let tail = name.subrange(name.len() - 8, name.len() as int);
                assert(tail[0] == '_' && tail[6] == 'd' && tail[5] == 'n');
            }
        }
    }
    if 0 <= i < 8 {
        let name = control_metrics()[i].0;
        assert(name.subrange(0, 4) =~= "gfe_"@);
        if control_metrics()[i].2 == MetricKind::ProbeTime {
            assert(name.subrange(name.len() - 8, name.len() as int) =~= "_seconds"@);
        } else if "_seconds"@.is_suffix_of(name) {
            assert(name[name.len() - 8] == '_' && name[name.len() - 2] == 'd' && name[name.len() - 3]
                == 'n') by {
                let tail = name.subrange(name.len() - 8, name.len() as int);
                assert(tail[0] == '_' && tail[6] == 'd' && tail[5] == 'n');
            }
        }
    }
}

/// A registered metric has its own name, help, kind and labels.
pub proof fn law_catalogues(
    r: Seq<MetricSpec>,
    want: Seq<(Seq<char>, Seq<char>, MetricKind, bool)>,
    i: int,
)
    requires
        is_catalogue(r, want),
    ensures
        r.len() == want.len(),
        0 <= i < r.len() ==> r[i].name@ == want[i].0 && r[i].help@ == want[i].1 && r[i].kind
            == want[i].2 && r[i].labelled == want[i].3,
{
    if 0 <= i < r.len() {
        assert(metric_view(r[i]) == want[i]);
    }
}

/// Latency buckets reach from one millisecond to half a minute, probe buckets
/// from one millisecond to two seconds.
pub proof fn law_bucket_ranges()
    ensures
        latency_bounds() == seq![1u64, 5, 10, 25, 50, 100, 250, 500, 1_000, 5_000, 30_000],
        probe_bounds() == seq![1u64, 5, 10, 50, 100, 500, 1_000, 2_000],
{
}

/// What is open, healthy, draining, live or dated is set as a gauge; what
/// measures no time and is none of these is counted. Metrics of a listener, a
/// route, a backend or a certificate have a series for each label set.
pub proof fn law_metric_kinds(i: int)
    ensures
        0 <= i < 15 ==> (proxy_metrics()[i].2 == MetricKind::Gauge <==> proxy_metrics()[i].0
            == "gfe_connections_active"@),
        0 <= i < 8 ==> (control_metrics()[i].2 == MetricKind::Counter <==> control_metrics()[i].0
            == "gfe_config_reload_errors"@),
        0 <= i < 15 ==> (proxy_metrics()[i].3 <==> i == 0 || i == 2 || i == 3 || i == 6 || i == 7
            || i == 10 || i == 11),
        0 <= i < 8 ==> (control_metrics()[i].3 <==> i == 0 || i == 1 || i == 5),
        0 <= i < 15 ==> proxy_metrics()[i].2 != MetricKind::ProbeTime,
        0 <= i < 8 ==> control_metrics()[i].2 != MetricKind::Latency,
{
    reveal_strlit("gfe_connections_accepted");
    reveal_strlit("gfe_connections_active");
    reveal_strlit("gfe_connections_rejected");
    reveal_strlit("gfe_tls_handshakes");
    reveal_strlit("gfe_tls_handshake_duration_seconds");
    reveal_strlit("gfe_tls_sni_no_cert");
    reveal_strlit("gfe_requests");
    reveal_strlit("gfe_request_duration_seconds");
    reveal_strlit("gfe_no_route");
    reveal_strlit("gfe_no_healthy_upstream");
    reveal_strlit("gfe_upstream_requests");
    reveal_strlit("gfe_upstream_request_duration_seconds");
    reveal_strlit("gfe_upstream_connect_errors");
    reveal_strlit("gfe_bytes_in");
    reveal_strlit("gfe_bytes_out");
    reveal_strlit("gfe_backend_health_status");
    reveal_strlit("gfe_backend_draining");
    reveal_strlit("gfe_health_check_duration_seconds");
    reveal_strlit("gfe_config_last_reload_timestamp");
    reveal_strlit("gfe_config_reload_errors");
    reveal_strlit("gfe_cert_expiry_timestamp");
    reveal_strlit("gfe_active_routes");
    reveal_strlit("gfe_active_pools");
    if 0 <= i < 15 && proxy_metrics()[i].0 == "gfe_connections_active"@ {
        assert(proxy_metrics()[i].0.len() == 22);
    }
    if 0 <= i < 8 && control_metrics()[i].0 == "gfe_config_reload_errors"@ {
        assert(control_metrics()[i].0.len() == 24);
    }
}

}
