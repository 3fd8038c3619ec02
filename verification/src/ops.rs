//! The operations HTTP server: `/healthz`, `/readyz`, `/metrics`.

use crate::text::{join2, owned, str_eq};
use vstd::prelude::*;
use vstd::string::*;

verus! {

/// An answer of the operations server.
#[derive(Debug, PartialEq, Eq)]
pub struct OpsReply {
    pub status: u16,
    pub content_type: Option<String>,
    pub body: String,
}

/// What an answer of the operations server says.
pub open spec fn ops_view(r: OpsReply) -> (u16, Option<Seq<char>>, Seq<char>) {
    (
        r.status,
        match r.content_type {
            Some(t) => Some(t@),
            None => None,
        },
        r.body@,
    )
}

/// The answer to a path: liveness, readiness (which fails while draining),
/// the metrics, or 404.
pub open spec fn ops_answer(
    path: Seq<char>,
    ready: bool,
    draining: bool,
    metrics: Seq<char>,
) -> (u16, Option<Seq<char>>, Seq<char>) {
    if path == "/healthz"@ {
        (200, None, "ok"@ + "\n"@)
    } else if path == "/readyz"@ {
        if ready && !draining {
            (200, None, "ready"@ + "\n"@)
        } else {
            (503, None, "not ready"@ + "\n"@)
        }
    } else if path == "/metrics"@ {
        (
            200,
            Some("application/openmetrics-text; version=1.0.0; charset=utf-8"@),
            metrics,
        )
    } else {
        (404, None, "not found"@ + "\n"@)
    }
}

fn text(status: u16, body: &str) -> (r: OpsReply)
    ensures
        ops_view(r) == (status, None::<Seq<char>>, body@ + "\n"@),
{
    OpsReply { status, content_type: None, body: join2(body, "\n") }
}

/// Answers a request to the operations server. `metrics` is the exposition
/// text.
pub fn handle(path: &str, ready: bool, draining: bool, metrics: &str) -> (r: OpsReply)
    ensures
        ops_view(r) == ops_answer(path@, ready, draining, metrics@),
{
    if str_eq(path, "/healthz") {
        text(200, "ok")
    } else if str_eq(path, "/readyz") {
        if ready && !draining {
            text(200, "ready")
        } else {
            text(503, "not ready")
        }
    } else if str_eq(path, "/metrics") {
        OpsReply {
            status: 200,
            content_type: Some(
                owned("application/openmetrics-text; version=1.0.0; charset=utf-8"),
            ),
            body: owned(metrics),
        }
    } else {
        text(404, "not found")
    }
}

/// A draining node is alive but not ready.
pub proof fn law_draining_fails_readiness(ready: bool, metrics: Seq<char>)
    ensures
        ops_answer("/readyz"@, ready, true, metrics).0 == 503,
        ops_answer("/healthz"@, ready, true, metrics).0 == 200,
{
    reveal_strlit("/readyz");
    reveal_strlit("/healthz");
    assert("/readyz"@.len() != "/healthz"@.len());
}

/// The operations server answers three paths. `/healthz` is always well,
/// `/readyz` is so exactly where the node is ready and not draining, `/metrics`
/// gives the metrics as they are, and any other path is not found.
pub proof fn law_ops_paths(path: Seq<char>, ready: bool, draining: bool, metrics: Seq<char>)
    ensures
        ops_answer("/healthz"@, ready, draining, metrics) == (200u16, None::<Seq<char>>, "ok\n"@),
        ops_answer("/readyz"@, ready, draining, metrics) == if ready && !draining {
            (200u16, None::<Seq<char>>, "ready\n"@)
        } else {
            (503u16, None::<Seq<char>>, "not ready\n"@)
        },
        ops_answer("/metrics"@, ready, draining, metrics) == (
            200u16,
            Some("application/openmetrics-text; version=1.0.0; charset=utf-8"@),
            metrics,
        ),
        path != "/healthz"@ && path != "/readyz"@ && path != "/metrics"@ ==> ops_answer(
            path,
            ready,
            draining,
            metrics,
        ) == (404u16, None::<Seq<char>>, "not found\n"@),
{
    reveal_strlit("/readyz");
    reveal_strlit("/healthz");
    reveal_strlit("/metrics");
    assert("/readyz"@.len() == 7 && "/healthz"@.len() == 8);
    assert("/healthz"@[1] == 'h' && "/metrics"@[1] == 'm' && "/readyz"@[1] == 'r');
    reveal_strlit("ok");
    reveal_strlit("ready");
    reveal_strlit("not ready");
    reveal_strlit("not found");
    reveal_strlit("\n");
    reveal_strlit("ok\n");
    reveal_strlit("ready\n");
    reveal_strlit("not ready\n");
    reveal_strlit("not found\n");
    assert("ok\n"@ =~= "ok"@ + "\n"@);
    assert("ready\n"@ =~= "ready"@ + "\n"@);
    assert("not ready\n"@ =~= "not ready"@ + "\n"@);
    assert("not found\n"@ =~= "not found"@ + "\n"@);
}

/// An answer says its own status, type and body.
pub proof fn law_ops_replies_say_what_they_hold(r: OpsReply)
    ensures
        ops_view(r).0 == r.status,
        r.content_type is None <==> ops_view(r).1 is None,
        r.content_type is Some ==> ops_view(r).1 == Some(r.content_type->0@),
        ops_view(r).2 == r.body@,
{
}

}
