//! The start of a connection: the TLS handshake and the connection context.

use super::ConnCtx;
use crate::metrics::{ListenerLabel, RejectLabel, TlsResultLabel};
use crate::text::owned;
use crate::types::{IpAddr, Listener};
use vstd::prelude::*;
use vstd::string::*;

verus! {

/// How a TLS handshake ended.
pub enum Handshake {
    /// Established, with the server name the client asked for.
    Done(Option<String>),
    /// Refused or broken.
    Failed,
    /// Not finished in time.
    TimedOut,
}

/// What follows the acceptance of a connection.
pub struct ConnectionPlan {
    /// The context to serve requests in, if any are to be served.
    pub serve: Option<ConnCtx>,
    /// The handshake result to count.
    pub handshake: Option<TlsResultLabel>,
    /// The rejection to count.
    pub rejected: Option<RejectLabel>,
}

/// Whether a context belongs to a connection.
pub open spec fn is_context(
    c: ConnCtx,
    listener: Listener,
    is_tls: bool,
    client_ip: IpAddr,
    client: Seq<char>,
    sni: Option<String>,
) -> bool {
    &&& c.listener_id == listener.id
    &&& c.is_tls == is_tls
    &&& c.client_ip == client_ip
    &&& c.client@ == client
    &&& c.sni == sni
}

/// What follows a TLS handshake: an established connection is served, a
/// failed handshake is counted, and a slow one is counted as a rejection.
pub fn after_handshake(
    listener: &Listener,
    client_ip: IpAddr,
    client: &str,
    outcome: Handshake,
) -> (r: ConnectionPlan)
    ensures
        match outcome {
            Handshake::Done(sni) => {
                &&& r.serve matches Some(c) && is_context(
                    c,
                    *listener,
                    true,
                    client_ip,
                    client@,
                    sni,
                )
                &&& r.handshake matches Some(h) && h.result@ == "ok"@
                &&& r.rejected is None
            },
            Handshake::Failed => {
                &&& r.serve is None
                &&& r.handshake matches Some(h) && h.result@ == "failed"@
                &&& r.rejected is None
            },
            Handshake::TimedOut => {
                &&& r.serve is None
                &&& r.handshake is None
                &&& r.rejected matches Some(x) && x.reason@ == "handshake_timeout"@
            },
        },
{
    match outcome {
        Handshake::Done(sni) => ConnectionPlan {
            serve: Some(
                ConnCtx {
                    listener_id: listener.id.clone(),
                    is_tls: true,
                    client_ip,
                    client: owned(client),
                    sni,
                },
            ),
            handshake: Some(TlsResultLabel { result: owned("ok") }),
            rejected: None,
        },
        Handshake::Failed => ConnectionPlan {
            serve: None,
            handshake: Some(TlsResultLabel { result: owned("failed") }),
            rejected: None,
        },
        Handshake::TimedOut => ConnectionPlan {
            serve: None,
            handshake: None,
            rejected: Some(RejectLabel { reason: owned("handshake_timeout") }),
        },
    }
}

/// The context of a plaintext connection.
pub fn plain_context(listener: &Listener, client_ip: IpAddr, client: &str) -> (r: ConnCtx)
    ensures
        is_context(r, *listener, false, client_ip, client@, None),
{
    ConnCtx {
        listener_id: listener.id.clone(),
        is_tls: false,
        client_ip,
        client: owned(client),
        sni: None,
    }
}

/// The label an accepted connection is counted under.
pub fn accepted_label(listener: &Listener) -> (r: ListenerLabel)
    ensures
        r.listener@ == listener.id.0@,
{
    ListenerLabel { listener: listener.id.0.clone() }
}

/// A context holds the listener, the client and the server name of its own
/// connection, and whether it is a TLS connection.
pub proof fn law_contexts(
    c: ConnCtx,
    listener: Listener,
    is_tls: bool,
    client_ip: IpAddr,
    client: Seq<char>,
    sni: Option<String>,
)
    requires
        is_context(c, listener, is_tls, client_ip, client, sni),
    ensures
        c.listener_id == listener.id,
        c.is_tls == is_tls,
        c.client_ip == client_ip,
        c.client@ == client,
        c.sni == sni,
{
}

}
