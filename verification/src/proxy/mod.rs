//! The proxy data plane: request decisions, header hygiene and forwarding.

pub mod acceptor;
pub mod connection;
pub mod drain;
pub mod forward;
pub mod headers;
pub mod replies;
pub mod service;

use crate::router::RouteTable;
use crate::tls::{ChallengeStore, SniResolver};
use crate::types::{IpAddr, LimitsConfig, ListenerId, TimeoutsConfig, TlsConfig};
use crate::upstream::{HealthMap, PoolSet};
use http::header::{HeaderMap, HeaderValue};
use vstd::prelude::*;

verus! {

/// Shared state read by the data plane and replaced by the control plane.
pub struct ProxyShared {
    /// Compiled route table, replaced on reload.
    pub routes: RouteTable,
    /// Upstream pool set, replaced on reload.
    pub pools: PoolSet,
    /// SNI certificate resolver (holds its own replaceable cert store).
    pub resolver: SniResolver,
    /// ACME http-01 challenge store, served on the plaintext HTTP listener.
    pub challenges: ChallengeStore,
    /// Shared backend health, read on each upstream selection.
    pub health: HealthMap,
    pub limits: LimitsConfig,
    pub timeouts: TimeoutsConfig,
    pub tls: TlsConfig,
    /// Set when the node is draining (fails `/readyz`).
    pub draining: bool,
}

/// Per-connection context passed to request handling.
pub struct ConnCtx {
    pub listener_id: ListenerId,
    pub is_tls: bool,
    pub client_ip: IpAddr,
    /// The client address as text.
    pub client: String,
    pub sni: Option<String>,
}

/// The head of a client request.
pub struct RequestHead {
    pub method: String,
    /// The host of the request URI (h2 and absolute-form).
    pub uri_host: Option<String>,
    pub path: String,
    pub path_and_query: Option<String>,
    pub headers: HeaderMap<HeaderValue>,
}

/// The path and query of a request, `/` where it has none.
pub open spec fn target_of(path_and_query: Option<String>) -> Seq<char> {
    match path_and_query {
        Some(p) => p@,
        None => "/"@,
    }
}

/// The scheme of a connection.
pub open spec fn proto_of(is_tls: bool) -> Seq<char> {
    if is_tls {
        "https"@
    } else {
        "http"@
    }
}

/// The scheme of a connection.
pub fn proto(is_tls: bool) -> (r: &'static str)
    ensures
        r@ == proto_of(is_tls),
        is_tls ==> r@ == "https"@,
        !is_tls ==> r@ == "http"@,
{
    if is_tls {
        "https"
    } else {
        "http"
    }
}

/// The scheme of a TLS connection is `https`, that of any other `http`, and the
/// two differ by the last letter alone.
pub proof fn law_schemes(is_tls: bool)
    ensures
        proto_of(true) == "https"@,
        proto_of(false) == "http"@,
        proto_of(true) == proto_of(false).push('s'),
        proto_of(is_tls).len() == if is_tls {
            5nat
        } else {
            4nat
        },
{
    reveal_strlit("https");
    reveal_strlit("http");
    assert("https"@ =~= "http"@.push('s'));
}

/// A request without a path is for `/`; any other is for its own path and
/// query.
pub proof fn law_targets(p: String)
    ensures
        target_of(Some(p)) == p@,
        target_of(None) == seq!['/'],
{
    reveal_strlit("/");
    assert("/"@ =~= seq!['/']);
}

}
