//! Health probes: TCP connect, HTTP GET, HTTPS GET.

use crate::text::owned;
use crate::types::{HealthCheckConfig, ProbeType};
use vstd::prelude::*;

verus! {

/// Outcome of a single probe.
#[derive(Debug, Clone, Copy, PartialEq, Eq, Structural)]
pub enum ProbeResult {
    /// Backend responded as expected.
    Pass,
    /// Backend signalled lame-duck drain (configured `drain_status`).
    Drain,
    /// Backend failed the probe.
    Fail,
}

/// What came back from a backend within the probe timeout.
#[derive(Debug, Clone, Copy, PartialEq, Eq, Structural)]
pub enum ProbeReply {
    /// The connection was established.
    Connected,
    /// An HTTP response with this status arrived.
    Status(u16),
    /// Nothing usable arrived in time.
    Nothing,
}

/// The request a probe sends once it is connected.
#[derive(Debug, PartialEq, Eq)]
pub struct ProbeRequest {
    /// Whether the connection is wrapped in TLS.
    pub tls: bool,
    pub path: String,
    pub host: String,
    pub user_agent: String,
}

/// A health probe against a backend.
pub trait Probe {
    /// The verdict on a reply.
    spec fn verdict(&self, reply: ProbeReply) -> ProbeResult;

    /// Whether the probe sends a request, and over TLS, to which path.
    spec fn asks(&self) -> Option<(bool, Seq<char>)>;

    /// The verdict on a reply.
    fn judge(&self, reply: ProbeReply) -> (r: ProbeResult)
        ensures
            r == self.verdict(reply),
    ;

    /// The request to send to a backend after connecting, if any.
    fn request(&self, host: &str) -> (r: Option<ProbeRequest>)
        ensures
            match r {
                Some(q) => {
                    &&& self.asks() == Some((q.tls, q.path@))
                    &&& q.host@ == host@
                    &&& q.user_agent@ == "gfe-health/0.1"@
                },
                None => self.asks() is None,
            },
    ;
}

/// TCP connect probe: success is an established connection.
#[derive(Debug, Clone, Copy, PartialEq, Eq, Structural)]
pub struct TcpProbe;

impl Probe for TcpProbe {
    open spec fn verdict(&self, reply: ProbeReply) -> ProbeResult {
        if reply is Nothing {
            ProbeResult::Fail
        } else {
            ProbeResult::Pass
        }
    }

    open spec fn asks(&self) -> Option<(bool, Seq<char>)> {
        None
    }

    fn judge(&self, reply: ProbeReply) -> (r: ProbeResult) {
        match reply {
            ProbeReply::Nothing => ProbeResult::Fail,
            _ => ProbeResult::Pass,
        }
    }

    fn request(&self, host: &str) -> (r: Option<ProbeRequest>) {
        None
    }
}

/// HTTP(S) GET probe: `Pass` when status equals `expected`, `Drain` when it
/// equals the configured `drain` status, else `Fail`.
#[derive(Debug, PartialEq, Eq)]
pub struct HttpProbe {
    pub path: String,
    pub expected: u16,
    pub drain: Option<u16>,
    pub tls: bool,
}

impl Probe for HttpProbe {
    open spec fn verdict(&self, reply: ProbeReply) -> ProbeResult {
        match reply {
            ProbeReply::Status(status) => if status == self.expected {
                ProbeResult::Pass
            } else if self.drain == Some(status) {
                ProbeResult::Drain
            } else {
                ProbeResult::Fail
            },
            _ => ProbeResult::Fail,
        }
    }

    open spec fn asks(&self) -> Option<(bool, Seq<char>)> {
        Some((self.tls, self.path@))
    }

    fn judge(&self, reply: ProbeReply) -> (r: ProbeResult) {
        match reply {
            ProbeReply::Status(status) => {
                if status == self.expected {
                    return ProbeResult::Pass;
                }
                match self.drain {
                    Some(d) => if d == status {
                        ProbeResult::Drain
                    } else {
                        ProbeResult::Fail
                    },
                    None => ProbeResult::Fail,
                }
            },
            _ => ProbeResult::Fail,
        }
    }

    fn request(&self, host: &str) -> (r: Option<ProbeRequest>) {
        Some(
            ProbeRequest {
                tls: self.tls,
                path: self.path.clone(),
                host: owned(host),
                user_agent: owned("gfe-health/0.1"),
            },
        )
    }
}

/// One of the probes.
#[derive(Debug, PartialEq, Eq)]
pub enum AnyProbe {
    Tcp(TcpProbe),
    Http(HttpProbe),
}

impl Probe for AnyProbe {
    open spec fn verdict(&self, reply: ProbeReply) -> ProbeResult {
        match self {
            AnyProbe::Tcp(p) => p.verdict(reply),
            AnyProbe::Http(p) => p.verdict(reply),
        }
    }

    open spec fn asks(&self) -> Option<(bool, Seq<char>)> {
        match self {
            AnyProbe::Tcp(p) => p.asks(),
            AnyProbe::Http(p) => p.asks(),
        }
    }

    fn judge(&self, reply: ProbeReply) -> (r: ProbeResult) {
        match self {
            AnyProbe::Tcp(p) => p.judge(reply),
            AnyProbe::Http(p) => p.judge(reply),
        }
    }

    fn request(&self, host: &str) -> (r: Option<ProbeRequest>) {
        match self {
            AnyProbe::Tcp(p) => p.request(host),
            AnyProbe::Http(p) => p.request(host),
        }
    }
}

/// Build a probe from a health-check config.
pub fn make_probe(cfg: &HealthCheckConfig) -> (r: AnyProbe)
    ensures
        match cfg.probe_type {
            ProbeType::Tcp => r is Tcp,
            ProbeType::Http => r == AnyProbe::Http(
                HttpProbe {
                    path: cfg.path,
                    expected: cfg.expected_status,
                    drain: cfg.drain_status,
                    tls: false,
                },
            ),
            ProbeType::Https => r == AnyProbe::Http(
                HttpProbe {
                    path: cfg.path,
                    expected: cfg.expected_status,
                    drain: cfg.drain_status,
                    tls: true,
                },
            ),
        },
{
    match cfg.probe_type {
        ProbeType::Tcp => AnyProbe::Tcp(TcpProbe),
        ProbeType::Http => AnyProbe::Http(
            HttpProbe {
                path: cfg.path.clone(),
                expected: cfg.expected_status,
                drain: cfg.drain_status,
                tls: false,
            },
        ),
        ProbeType::Https => AnyProbe::Http(
            HttpProbe {
                path: cfg.path.clone(),
                expected: cfg.expected_status,
                drain: cfg.drain_status,
                tls: true,
            },
        ),
    }
}

// ---------------------------------------------------------------------------
// Laws
// ---------------------------------------------------------------------------

/// An HTTP probe passes exactly on a response with the expected status, sees a
/// drain signal exactly on a response with another status that is the drain
/// status, and fails on everything else.
pub proof fn law_http_verdict(p: HttpProbe, reply: ProbeReply)
    ensures
        p.verdict(reply) == ProbeResult::Pass <==> reply == ProbeReply::Status(p.expected),
        p.verdict(reply) == ProbeResult::Drain <==> (reply matches ProbeReply::Status(s) && s
            != p.expected && p.drain == Some(s)),
        p.verdict(reply) == ProbeResult::Fail <==> !(reply matches ProbeReply::Status(s) && (s
            == p.expected || p.drain == Some(s))),
{
}

/// A TCP probe passes exactly when something answered, never sees a drain
/// signal, and fails on silence.
pub proof fn law_tcp_verdict(p: TcpProbe, reply: ProbeReply)
    ensures
        p.verdict(reply) == ProbeResult::Fail <==> reply == ProbeReply::Nothing,
        p.verdict(reply) != ProbeResult::Drain,
{
}

/// A probe of either kind judges and asks as that kind does: a TCP probe sends
/// nothing, and an HTTP probe asks for its path, over TLS exactly where it is
/// an HTTPS probe.
pub proof fn law_any_probe(p: AnyProbe, reply: ProbeReply)
    ensures
        p matches AnyProbe::Http(h) ==> (p.verdict(reply) == ProbeResult::Pass <==> reply
            == ProbeReply::Status(h.expected)) && (p.verdict(reply) == ProbeResult::Drain <==> (
        reply matches ProbeReply::Status(s) && s != h.expected && h.drain == Some(s))) && p.asks()
            == Some((h.tls, h.path@)),
        p is Tcp ==> (p.verdict(reply) == ProbeResult::Fail <==> reply == ProbeReply::Nothing)
            && p.verdict(reply) != ProbeResult::Drain && p.asks() is None,
{
}

}
