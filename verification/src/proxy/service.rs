//! Per-request handling: route match, then action (forward, redirect, fixed).

use super::headers::{
    get_text, header_text, header_values, is_plain, law_readable_values, lemma_known_names,
    lemma_plain_parts, lemma_plain_reads, plain_bytes,
};
use super::replies::{
    fixed_reply, fixed_response, law_redirects, law_sending_adds_hsts_alone,
    lemma_replies_are_roomy, redirect_reply, redirect_response, send_reply, sent_reply, synthetic,
    synthetic_reply, Reply,
};
use super::{target_of, ConnCtx, ProxyShared, RequestHead};
use crate::metrics::{RequestDurationLabels, RequestLabels};
use crate::number::{decimal, decimal_string, hex, hex16, law_hex_tells_apart};
use crate::random::random_u64;
use crate::router::snapshot::{law_route_is_unique, route_applies, routes_to};
use crate::text::{
    before, chars_of, find_char, has_prefix, law_before_is_the_front, lower, owned, string_of,
    to_lower, trim,
};
use crate::tls::acme::ACME_CHALLENGE_PREFIX;
use crate::types::{ListenerId, PoolId, RouteAction};
use http::header::{HeaderMap, HeaderValue};
use vstd::prelude::*;
use vstd::slice::slice_subrange;
use vstd::string::*;

verus! {

// ---------------------------------------------------------------------------
// Host and request id
// ---------------------------------------------------------------------------

/// The request host: that of the URI, else that of the `Host` header without
/// its port, else the server name of the TLS handshake.
pub open spec fn request_host(
    uri_host: Option<Seq<char>>,
    h: Map<Seq<char>, Seq<Seq<u8>>>,
    sni: Option<Seq<char>>,
) -> Seq<char> {
    match uri_host {
        Some(u) => lower(u),
        None => match header_text(h, "host"@) {
            Some(t) => lower(before(t, ':')),
            None => match sni {
                Some(s) => s,
                None => Seq::empty(),
            },
        },
    }
}

/// The text of an optional string.
pub open spec fn text_of(s: Option<String>) -> Option<Seq<char>> {
    match s {
        Some(t) => Some(t@),
        None => None,
    }
}

/// Extract the request host: prefer the URI authority (h2 and absolute-form),
/// then the `Host` header (h1), then the SNI.
pub fn extract_host(
    uri_host: &Option<String>,
    headers: &HeaderMap<HeaderValue>,
    sni: &Option<String>,
) -> (r: String)
    ensures
        r@ == request_host(text_of(*uri_host), header_values(*headers), text_of(*sni)),
{
    match uri_host {
        Some(u) => return to_lower(u.as_str()),
        None => {},
    }
    proof {
        lemma_known_names();
        super::headers::lemma_name("host"@);
    }
    match get_text(headers, "host") {
        Some(t) => {
            let n = find_char(t.as_slice(), ':');
            let name = string_of(slice_subrange(t.as_slice(), 0, n));
            assert(name@ =~= before(t@, ':'));
            return to_lower(name.as_str());
        },
        None => {},
    }
    match sni {
        Some(s) => s.clone(),
        None => {
            let empty = String::new();
            assert(empty@ =~= Seq::empty());
            empty
        },
    }
}

/// The request id a client supplies: readable, not empty and at most 128
/// characters long.
pub open spec fn client_request_id(h: Map<Seq<char>, Seq<Seq<u8>>>) -> Option<Seq<char>> {
    match header_text(h, "x-request-id"@) {
        Some(t) => if 0 < t.len() <= 128 {
            Some(t)
        } else {
            None
        },
        None => None,
    }
}

/// A generated request id: two numbers in hexadecimal.
pub open spec fn generated_id(a: u64, b: u64) -> Seq<char> {
    hex(a as nat, 16) + hex(b as nat, 16)
}

/// Take a client-supplied `X-Request-Id` if valid, else one made of the two
/// numbers.
pub fn request_id_with(headers: &HeaderMap<HeaderValue>, a: u64, b: u64) -> (r: String)
    ensures
        r@ == match client_request_id(header_values(*headers)) {
            Some(t) => t,
            None => generated_id(a, b),
        },
{
    proof {
        lemma_known_names();
        super::headers::lemma_name("x-request-id"@);
    }
    match get_text(headers, "x-request-id") {
        Some(t) => {
            if 0 < t.len() && t.len() <= 128 {
                return string_of(t.as_slice());
            }
        },
        None => {},
    }
    let mut out = hex16(a);
    out.append(hex16(b).as_str());
    out
}

/// Take a client-supplied `X-Request-Id` if valid, else generate one.
pub fn request_id(headers: &HeaderMap<HeaderValue>) -> (r: String)
    ensures
        match client_request_id(header_values(*headers)) {
            Some(t) => r@ == t,
            None => exists|a: u64, b: u64| r@ == #[trigger] generated_id(a, b),
        },
{
    let a = random_u64();
    let b = random_u64();
    request_id_with(headers, a, b)
}

/// A generated request id has 32 characters.
pub proof fn law_generated_id_length(a: u64, b: u64)
    ensures
        generated_id(a, b).len() == 32,
{
    lemma_hex_len(a as nat, 16);
    lemma_hex_len(b as nat, 16);
}

proof fn lemma_hex_len(n: nat, width: nat)
    ensures
        hex(n, width).len() == width,
    decreases width,
{
    if width > 0 {
        lemma_hex_len(n / 16, (width - 1) as nat);
    }
}

// ---------------------------------------------------------------------------
// The decision
// ---------------------------------------------------------------------------

/// What a routed request gets.
pub enum RoutedAnswer {
    /// An answer of the proxy itself.
    Answer(Reply),
    /// The response of a backend of this pool.
    Forward(PoolId),
}

/// What is to be done with a request.
pub enum RequestPlan {
    /// An ACME challenge request. It is not counted as a request.
    Challenge(Reply),
    /// No route matched.
    Unrouted(Reply),
    /// A route matched.
    Routed {
        route: String,
        /// The host pattern of the route.
        host_pattern: String,
        answer: RoutedAnswer,
    },
}

/// Whether a request asks for an ACME challenge: on a plaintext listener,
/// under the challenge path.
pub open spec fn is_challenge(is_tls: bool, path: Seq<char>) -> bool {
    !is_tls && ACME_CHALLENGE_PREFIX@.is_prefix_of(path)
}

/// Whether an answer is what the action of a route asks for.
pub open spec fn carries_out(
    answer: RoutedAnswer,
    action: RouteAction,
    shared: ProxyShared,
    is_tls: bool,
    host: Seq<char>,
    target: Seq<char>,
    request_id: Seq<char>,
) -> bool {
    let hsts = shared.tls.hsts@;
    match action {
        RouteAction::Forward(pool) => if shared.pools.has(pool@) {
            answer matches RoutedAnswer::Forward(id) && id.0@ == pool@
        } else {
            answer matches RoutedAnswer::Answer(r) && r@ == sent_reply(
                synthetic_reply(502, "pool not found"@, request_id),
                is_tls,
                hsts,
            )
        },
        RouteAction::Redirect(rd) => answer matches RoutedAnswer::Answer(r) && r@ == sent_reply(
            redirect_reply(rd.scheme@, rd.status, host, target, request_id),
            is_tls,
            hsts,
        ),
        RouteAction::Fixed(f) => answer matches RoutedAnswer::Answer(r) && r@ == sent_reply(
            fixed_reply(f.status, f.body@, request_id),
            is_tls,
            hsts,
        ),
    }
}

/// Whether a plan is the right one for a request.
pub open spec fn plans(
    plan: RequestPlan,
    shared: ProxyShared,
    ctx: ConnCtx,
    req: RequestHead,
    request_id: Seq<char>,
) -> bool {
    let host = request_host(text_of(req.uri_host), header_values(req.headers), text_of(ctx.sni));
    let routes = shared.routes.routes();
    let listener = ctx.listener_id.0@;
    if is_challenge(ctx.is_tls, req.path@) {
        plan matches RequestPlan::Challenge(r) && r@ == match shared.challenges.answer(req.path@) {
            Some(key) => fixed_reply(200, key, request_id),
            None => synthetic_reply(404, "unknown acme challenge"@, request_id),
        }
    } else {
        match plan {
            RequestPlan::Challenge(_) => false,
            RequestPlan::Unrouted(r) => {
                &&& forall|i: int| !route_applies(routes, listener, host, req.path@, i)
                &&& r@ == sent_reply(
                    synthetic_reply(404, "no route"@, request_id),
                    ctx.is_tls,
                    shared.tls.hsts@,
                )
            },
            RequestPlan::Routed { route, host_pattern, answer } => exists|i: int|
                {
                    &&& #[trigger] routes_to(routes, listener, host, req.path@, i)
                    &&& route@ == routes[i].id.0@
                    &&& host_pattern@ == trim(routes[i].host@)
                    &&& carries_out(
                        answer,
                        routes[i].action,
                        shared,
                        ctx.is_tls,
                        host,
                        target_of(req.path_and_query),
                        request_id,
                    )
                },
        }
    }
}

/// Decide what to do with one client request. Failures become synthetic
/// responses so the connection stays healthy.
pub fn handle_request(shared: &ProxyShared, ctx: &ConnCtx, req: &RequestHead, request_id: &str) -> (r:
    RequestPlan)
    requires
        shared.pools.wf(),
    ensures
        plans(r, *shared, *ctx, *req, request_id@),
{
    let path = chars_of(req.path.as_str());
    let prefix = chars_of(ACME_CHALLENGE_PREFIX);
    // ACME http-01 challenge: served on the plaintext HTTP listener before
    // routing, so a cert can be issued for a host that has no cert yet.
    if !ctx.is_tls && has_prefix(path.as_slice(), prefix.as_slice()) {
        let reply = match shared.challenges.resolve_path(req.path.as_str()) {
            Some(key) => fixed_response(200, key.as_str(), request_id),
            None => synthetic(404, "unknown acme challenge", request_id),
        };
        return RequestPlan::Challenge(reply);
    }
    let host = extract_host(&req.uri_host, &req.headers, &ctx.sni);
    let hsts = shared.tls.hsts.as_str();
    let matched = match shared.routes.match_request(
        &ctx.listener_id,
        host.as_str(),
        req.path.as_str(),
    ) {
        Some(c) => c,
        None => {
            proof {
                lemma_replies_are_roomy(
                    404,
                    "no route"@,
                    Seq::empty(),
                    Seq::empty(),
                    request_id@,
                );
            }
            let reply = synthetic(404, "no route", request_id);
            return RequestPlan::Unrouted(send_reply(reply, ctx.is_tls, hsts));
        },
    };
    let ghost i = choose|i: int|
        routes_to(shared.routes.routes(), ctx.listener_id.0@, host@, req.path@, i)
            && matched.stands_for(shared.routes.routes()[i]);
    let answer = match &matched.action {
        RouteAction::Forward(pool) => {
            let id = PoolId(pool.clone());
            match shared.pools.get(&id) {
                Some(_) => RoutedAnswer::Forward(id),
                None => {
                    proof {
                        lemma_replies_are_roomy(
                            502,
                            "pool not found"@,
                            Seq::empty(),
                            Seq::empty(),
                            request_id@,
                        );
                    }
                    let reply = synthetic(502, "pool not found", request_id);
                    RoutedAnswer::Answer(send_reply(reply, ctx.is_tls, hsts))
                },
            }
        },
        RouteAction::Redirect(rd) => {
            let target = match &req.path_and_query {
                Some(p) => p.clone(),
                None => owned("/"),
            };
            proof {
                lemma_replies_are_roomy(rd.status, rd.scheme@, host@, target@, request_id@);
            }
            let reply = redirect_response(
                rd.scheme.as_str(),
                rd.status,
                host.as_str(),
                target.as_str(),
                request_id,
            );
            RoutedAnswer::Answer(send_reply(reply, ctx.is_tls, hsts))
        },
        RouteAction::Fixed(f) => {
            proof {
                lemma_replies_are_roomy(
                    f.status,
                    f.body@,
                    Seq::empty(),
                    Seq::empty(),
                    request_id@,
                );
            }
            let reply = fixed_response(f.status, f.body.as_str(), request_id);
            RoutedAnswer::Answer(send_reply(reply, ctx.is_tls, hsts))
        },
    };
    let plan = RequestPlan::Routed {
        route: matched.id.0.clone(),
        host_pattern: matched.host.clone(),
        answer,
    };
    proof {
        assert(routes_to(shared.routes.routes(), ctx.listener_id.0@, host@, req.path@, i));
    }
    plan
}

// ---------------------------------------------------------------------------
// Metrics and access log
// ---------------------------------------------------------------------------

/// The route label of a plan, `none` without a route.
pub open spec fn route_label(plan: RequestPlan) -> Seq<char> {
    match plan {
        RequestPlan::Routed { route, host_pattern, answer } => route@,
        _ => "none"@,
    }
}

/// The host label of a plan: the host pattern of the route, `none` without a
/// route.
pub open spec fn host_label(plan: RequestPlan) -> Seq<char> {
    match plan {
        RequestPlan::Routed { route, host_pattern, answer } => host_pattern@,
        _ => "none"@,
    }
}

/// The labels a finished request is counted under.
pub fn request_labels(listener: &ListenerId, plan: &RequestPlan, status: u16) -> (r: RequestLabels)
    ensures
        r.listener@ == listener.0@,
        r.host@ == host_label(*plan),
        r.route@ == route_label(*plan),
        r.status@ == decimal(status as nat),
{
    let d = duration_labels(listener, plan);
    RequestLabels {
        listener: d.listener,
        host: d.host,
        route: d.route,
        status: decimal_string(status as u128),
    }
}

/// The labels the duration of a request is observed under.
pub fn duration_labels(listener: &ListenerId, plan: &RequestPlan) -> (r: RequestDurationLabels)
    ensures
        r.listener@ == listener.0@,
        r.host@ == host_label(*plan),
        r.route@ == route_label(*plan),
{
    match plan {
        RequestPlan::Routed { route, host_pattern, answer } => RequestDurationLabels {
            listener: listener.0.clone(),
            host: host_pattern.clone(),
            route: route.clone(),
        },
        _ => RequestDurationLabels {
            listener: listener.0.clone(),
            host: owned("none"),
            route: owned("none"),
        },
    }
}

/// The labels of a request come from the configuration, never from the
/// client: a host label is `none` or the host pattern of a configured route.
pub proof fn law_labels_are_bounded(
    plan: RequestPlan,
    shared: ProxyShared,
    ctx: ConnCtx,
    req: RequestHead,
    request_id: Seq<char>,
)
    requires
        plans(plan, shared, ctx, req, request_id),
    ensures
        host_label(plan) == "none"@ || exists|i: int|
            0 <= i < shared.routes.routes().len() && host_label(plan) == trim(
                (#[trigger] shared.routes.routes()[i]).host@,
            ),
        route_label(plan) == "none"@ || exists|i: int|
            0 <= i < shared.routes.routes().len() && route_label(plan) == (
            #[trigger] shared.routes.routes()[i]).id.0@,
{
    if plan is Routed {
        let host = request_host(
            text_of(req.uri_host),
            header_values(req.headers),
            text_of(ctx.sni),
        );
        let i = choose|i: int|
            {
                &&& #[trigger] routes_to(
                    shared.routes.routes(),
                    ctx.listener_id.0@,
                    host,
                    req.path@,
                    i,
                )
                &&& plan->route@ == shared.routes.routes()[i].id.0@
                &&& plan->host_pattern@ == trim(shared.routes.routes()[i].host@)
                &&& carries_out(
                    plan->answer,
                    shared.routes.routes()[i].action,
                    shared,
                    ctx.is_tls,
                    host,
                    target_of(req.path_and_query),
                    request_id,
                )
            };
        assert(shared.routes.routes()[i].id.0@ == route_label(plan));
    }
}

/// A request that no route applies to is answered with 404, and only such a
/// request goes without a route.
pub proof fn law_unrouted_iff_no_route(
    plan: RequestPlan,
    shared: ProxyShared,
    ctx: ConnCtx,
    req: RequestHead,
    request_id: Seq<char>,
)
    requires
        plans(plan, shared, ctx, req, request_id),
        !is_challenge(ctx.is_tls, req.path@),
    ensures
        plan is Unrouted <==> forall|i: int|
            !route_applies(
                shared.routes.routes(),
                ctx.listener_id.0@,
                request_host(text_of(req.uri_host), header_values(req.headers), text_of(ctx.sni)),
                req.path@,
                i,
            ),
        plan is Unrouted ==> plan->Unrouted_0.status == 404,
{
}

// ---------------------------------------------------------------------------
// Laws of requests
// ---------------------------------------------------------------------------

/// The host of the request URI is the request host, in small letters, whatever
/// the headers and the handshake say.
pub proof fn law_uri_host_comes_first(
    u: Seq<char>,
    h: Map<Seq<char>, Seq<Seq<u8>>>,
    sni: Option<Seq<char>>,
)
    ensures
        request_host(Some(u), h, sni) == lower(u),
{
}

/// Without a host in the URI, the request host is that of the `Host` header, in
/// small letters and without the port, whatever the handshake says.
pub proof fn law_host_header_comes_second(
    h: Map<Seq<char>, Seq<Seq<u8>>>,
    sni: Option<Seq<char>>,
    name: Seq<char>,
    port: Seq<char>,
)
    requires
        h.contains_key("host"@),
        is_plain(name),
        is_plain(port),
        !name.contains(':'),
        h["host"@][0] == plain_bytes(name) || h["host"@][0] == plain_bytes(name.push(':') + port),
    ensures
        request_host(None, h, sni) == lower(name),
{
    let full = name.push(':') + port;
    assert(is_plain(full)) by {
        assert(is_plain(seq![':']));
        lemma_plain_parts(name, seq![':']);
        assert(name.push(':') =~= name + seq![':']);
        lemma_plain_parts(name.push(':'), port);
    }
    lemma_plain_reads(name);
    lemma_plain_reads(full);
    law_before_is_the_front(name, ':', port);
}

/// With neither, the request host is the server name of the handshake as the
/// client sent it, and empty without one.
pub proof fn law_server_name_comes_last(
    h: Map<Seq<char>, Seq<Seq<u8>>>,
    sni: Option<Seq<char>>,
)
    requires
        !h.contains_key("host"@),
    ensures
        sni is Some ==> request_host(None, h, sni) == sni->0,
        sni is None ==> request_host(None, h, sni).len() == 0,
{
}

/// The id that a client sends is taken as it is where it has 1 to 128 printable
/// characters. No id is taken from a request that sends none, an empty one, one
/// that is too long or one with a byte that is no visible character.
pub proof fn law_client_ids(h: Map<Seq<char>, Seq<Seq<u8>>>, id: Seq<char>, i: int)
    ensures
        !h.contains_key("x-request-id"@) ==> client_request_id(h) is None,
        h.contains_key("x-request-id"@) && is_plain(id) && h["x-request-id"@][0] == plain_bytes(id)
            ==> client_request_id(h) == if 1 <= id.len() <= 128 {
            Some(id)
        } else {
            None
        },
        h.contains_key("x-request-id"@) && 0 <= i < h["x-request-id"@][0].len() && (
        h["x-request-id"@][0][i] > 126 || h["x-request-id"@][0][i] < 32 && h["x-request-id"@][0][i]
            != 9) ==> client_request_id(h) is None,
{
    if is_plain(id) {
        lemma_plain_reads(id);
    }
    if h.contains_key("x-request-id"@) {
        law_readable_values(h["x-request-id"@][0]);
    }
}

/// A generated id has 32 small hexadecimal digits, and other numbers give
/// another id.
pub proof fn law_generated_ids_tell_apart(a: u64, b: u64, c: u64, d: u64, i: int)
    ensures
        generated_id(a, b).len() == 32,
        0 <= i < 32 ==> '0' <= generated_id(a, b)[i] <= '9' || 'a' <= generated_id(a, b)[i] <= 'f',
        generated_id(a, b) == generated_id(c, d) ==> a == c && b == d,
{
    law_generated_id_length(a, b);
    let power = vstd::arithmetic::power::pow(16, 16);
    assert(power == 0x1_0000_0000_0000_0000) by {
        reveal(vstd::arithmetic::power::pow);
        reveal_with_fuel(vstd::arithmetic::power::pow, 17);
    }
    law_hex_tells_apart(a as nat, c as nat, 16, i);
    law_hex_tells_apart(b as nat, d as nat, 16, i - 16);
    law_hex_tells_apart(c as nat, a as nat, 16, i);
    law_hex_tells_apart(d as nat, b as nat, 16, i - 16);
    let x = generated_id(a, b);
    let y = generated_id(c, d);
    if x == y {
        assert(x.take(16) =~= hex(a as nat, 16));
        assert(y.take(16) =~= hex(c as nat, 16));
        assert(x.skip(16) =~= hex(b as nat, 16));
        assert(y.skip(16) =~= hex(d as nat, 16));
    }
}

/// On a plaintext connection a path under `/.well-known/acme-challenge/` asks
/// for a challenge: it is answered with the key authorization of its token, or
/// with 404 where the token is unknown. It is never routed.
pub proof fn law_challenges_are_answered(
    plan: RequestPlan,
    shared: ProxyShared,
    ctx: ConnCtx,
    req: RequestHead,
    request_id: Seq<char>,
    token: Seq<char>,
)
    requires
        plans(plan, shared, ctx, req, request_id),
        !ctx.is_tls,
        req.path@ == "/.well-known/acme-challenge/"@ + token,
    ensures
        plan is Challenge,
        ({
            let r = plan->Challenge_0;
            if shared.challenges.challenges().contains_key(token) {
                r.status == 200 && r.body@ == shared.challenges.challenges()[token]
            } else {
                r.status == 404
            }
        }),
{
    let prefix = "/.well-known/acme-challenge/"@;
    assert(req.path@.skip(prefix.len() as int) =~= token);
    assert(prefix.is_prefix_of(req.path@));
}

/// A request on a TLS connection asks for no challenge, and neither does one
/// whose path does not begin with the challenge path.
pub proof fn law_other_requests_are_no_challenges(
    plan: RequestPlan,
    shared: ProxyShared,
    ctx: ConnCtx,
    req: RequestHead,
    request_id: Seq<char>,
)
    requires
        plans(plan, shared, ctx, req, request_id),
        ctx.is_tls || !"/.well-known/acme-challenge/"@.is_prefix_of(req.path@),
    ensures
        !(plan is Challenge),
{
}

/// A request that route `i` has is answered as the action of that route asks:
/// it is forwarded to the pool of the route, or answered with 502 where there
/// is no such pool; it is redirected to the scheme of the route at the same
/// host, path and query; or it gets the fixed status and body. The labels of
/// the plan are the id and the host pattern of the route.
pub proof fn law_actions_are_carried_out(
    plan: RequestPlan,
    shared: ProxyShared,
    ctx: ConnCtx,
    req: RequestHead,
    request_id: Seq<char>,
    i: int,
)
    requires
        plans(plan, shared, ctx, req, request_id),
        ctx.is_tls || !"/.well-known/acme-challenge/"@.is_prefix_of(req.path@),
        routes_to(
            shared.routes.routes(),
            ctx.listener_id.0@,
            request_host(text_of(req.uri_host), header_values(req.headers), text_of(ctx.sni)),
            req.path@,
            i,
        ),
    ensures
        ({
            let route = shared.routes.routes()[i];
            let host = request_host(
                text_of(req.uri_host),
                header_values(req.headers),
                text_of(ctx.sni),
            );
            let target = match req.path_and_query {
                Some(p) => p@,
                None => "/"@,
            };
            &&& plan is Routed
            &&& plan->route@ == route.id.0@
            &&& plan->host_pattern@ == trim(route.host@)
            &&& match route.action {
                RouteAction::Forward(pool) => if shared.pools.has(pool@) {
                    plan->answer is Forward && plan->answer->Forward_0.0@ == pool@
                } else {
                    plan->answer is Answer && plan->answer->Answer_0.status == 502
                },
                RouteAction::Redirect(rd) => {
                    let to = rd.scheme@ + "://"@ + host + target;
                    &&& plan->answer is Answer
                    &&& plan->answer->Answer_0.status == if 100 <= rd.status <= 999 {
                        rd.status
                    } else {
                        308
                    }
                    &&& is_plain(to) ==> header_values(
                        plan->answer->Answer_0.headers,
                    ).contains_key("location"@) && header_values(
                        plan->answer->Answer_0.headers,
                    )["location"@] == seq![plain_bytes(to)]
                },
                RouteAction::Fixed(f) => {
                    &&& plan->answer is Answer
                    &&& plan->answer->Answer_0.status == if 100 <= f.status <= 999 {
                        f.status
                    } else {
                        200
                    }
                    &&& plan->answer->Answer_0.body@ == f.body@
                },
            }
        }),
{
    let routes = shared.routes.routes();
    let listener = ctx.listener_id.0@;
    let host = request_host(text_of(req.uri_host), header_values(req.headers), text_of(ctx.sni));
    let target = target_of(req.path_and_query);
    assert(route_applies(routes, listener, host, req.path@, i));
    let j = choose|j: int|
        {
            &&& #[trigger] routes_to(routes, listener, host, req.path@, j)
            &&& plan->route@ == routes[j].id.0@
            &&& plan->host_pattern@ == trim(routes[j].host@)
            &&& carries_out(
                plan->answer,
                routes[j].action,
                shared,
                ctx.is_tls,
                host,
                target,
                request_id,
            )
        };
    law_route_is_unique(routes, listener, host, req.path@, i, j);
    if let RouteAction::Redirect(rd) = routes[i].action {
        law_redirects(rd.scheme@, rd.status, host, target, request_id);
        let r = redirect_reply(rd.scheme@, rd.status, host, target, request_id);
        law_sending_adds_hsts_alone(r, ctx.is_tls, shared.tls.hsts@, "location"@);
        reveal_strlit("location");
        reveal_strlit("strict-transport-security");
        assert("location"@.len() == 8 && "strict-transport-security"@.len() == 25);
    }
}

/// A request without a route is counted under `none`; any other under the id
/// and the host pattern of its route.
pub proof fn law_labels(plan: RequestPlan)
    ensures
        plan is Routed ==> route_label(plan) == plan->route@ && host_label(plan)
            == plan->host_pattern@,
        !(plan is Routed) ==> route_label(plan) == "none"@ && host_label(plan) == "none"@,
{
}

/// An optional string is read as its text.
pub proof fn law_optional_texts(s: String)
    ensures
        text_of(Some(s)) == Some(s@),
        text_of(None) is None,
{
}

/// What the proxy answers itself says the status, the reason and the id of the
/// request: `no route` where no route applies, `pool not found` where the pool
/// of the route is missing, and `unknown acme challenge` for a token that is
/// not registered. The first two carry HSTS as any other response does, which
/// an answer to a challenge, always on a plaintext connection, does not.
pub proof fn law_reasons_of_refusals(
    plan: RequestPlan,
    shared: ProxyShared,
    ctx: ConnCtx,
    req: RequestHead,
    request_id: Seq<char>,
)
    requires
        plans(plan, shared, ctx, req, request_id),
    ensures
        plan is Unrouted ==> {
            let r = plan->Unrouted_0;
            &&& r.status == 404
            &&& r.body@ == "404 no route\nrequest-id: "@ + request_id + "\n"@
            &&& header_values(r.headers) == sent_reply(
                synthetic_reply(404, "no route"@, request_id),
                ctx.is_tls,
                shared.tls.hsts@,
            ).headers
        },
        plan is Challenge && plan->Challenge_0.status != 200 ==> {
            let r = plan->Challenge_0;
            &&& r.status == 404
            &&& r.body@ == "404 unknown acme challenge\nrequest-id: "@ + request_id + "\n"@
            &&& !header_values(r.headers).contains_key("strict-transport-security"@)
        },
        plan is Routed && plan->answer is Answer && plan->answer->Answer_0.status == 502 && (exists|
            i: int,
        |
            {
                &&& #[trigger] routes_to(
                    shared.routes.routes(),
                    ctx.listener_id.0@,
                    request_host(
                        text_of(req.uri_host),
                        header_values(req.headers),
                        text_of(ctx.sni),
                    ),
                    req.path@,
                    i,
                )
                &&& shared.routes.routes()[i].action is Forward
            }) ==> plan->answer->Answer_0.body@ == "502 pool not found\nrequest-id: "@ + request_id
            + "\n"@,
{
    let routes = shared.routes.routes();
    let listener = ctx.listener_id.0@;
    let host = request_host(text_of(req.uri_host), header_values(req.headers), text_of(ctx.sni));
    reveal_with_fuel(decimal, 4);
    assert(decimal(404) =~= seq!['4', '0', '4']);
    assert(decimal(502) =~= seq!['5', '0', '2']);
    reveal_strlit(" ");
    reveal_strlit("\nrequest-id: ");
    reveal_strlit("no route");
    reveal_strlit("404 no route\nrequest-id: ");
    reveal_strlit("unknown acme challenge");
    reveal_strlit("404 unknown acme challenge\nrequest-id: ");
    reveal_strlit("pool not found");
    reveal_strlit("502 pool not found\nrequest-id: ");
    assert("404 no route\nrequest-id: "@ =~= decimal(404) + " "@ + "no route"@
        + "\nrequest-id: "@);
    assert("404 unknown acme challenge\nrequest-id: "@ =~= decimal(404) + " "@
        + "unknown acme challenge"@ + "\nrequest-id: "@);
    assert("502 pool not found\nrequest-id: "@ =~= decimal(502) + " "@ + "pool not found"@
        + "\nrequest-id: "@);
    reveal_strlit("x-request-id");
    reveal_strlit("content-type");
    reveal_strlit("strict-transport-security");
    assert("x-request-id"@.len() == 12 && "content-type"@.len() == 12
        && "strict-transport-security"@.len() == 25);
    if plan is Routed && exists|i: int|
        {
            &&& #[trigger] routes_to(routes, listener, host, req.path@, i)
            &&& routes[i].action is Forward
        } {
        let i = choose|i: int|
            {
                &&& #[trigger] routes_to(routes, listener, host, req.path@, i)
                &&& routes[i].action is Forward
            };
        let j = choose|j: int|
            {
                &&& #[trigger] routes_to(routes, listener, host, req.path@, j)
                &&& plan->route@ == routes[j].id.0@
                &&& plan->host_pattern@ == trim(routes[j].host@)
                &&& carries_out(
                    plan->answer,
                    routes[j].action,
                    shared,
                    ctx.is_tls,
                    host,
                    target_of(req.path_and_query),
                    request_id,
                )
            };
        law_route_is_unique(routes, listener, host, req.path@, i, j);
    }
}

}
