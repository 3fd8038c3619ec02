//! Request and response forwarding: the headers sent upstream, the attempts
//! and retries, and the mapping of the upstream response back.

use super::headers::{
    append_forwarded_for, body_is_empty, bodyless, connection_names, forwarded_for, has_room,
    header_values, headers_copy, hop_by_hop, idempotent, is_idempotent, is_plain, is_present,
    law_forwarded_for_grows, lemma_known_names, lemma_plain, lemma_plain_parts, lemma_room,
    plain_bytes, set_header, strip_hop_by_hop, with_header, without_hop_by_hop,
};
use super::replies::{
    add_hsts, lemma_replies_are_roomy, send_reply, sent_reply, synthetic, synthetic_reply, with_hsts,
    Reply,
};
use super::{proto, proto_of, target_of, ConnCtx, RequestHead};
use crate::metrics::{UpstreamDurationLabels, UpstreamLabels};
use crate::number::{decimal, decimal_string};
use crate::text::{join3, owned};
use crate::types::upstream::authority_text;
use crate::types::Scheme;
use crate::upstream::policy::{hash64, hash_of, HashInput};
use crate::upstream::{HealthMap, InflightGuard, Pool, Selection};
use http::header::{HeaderMap, HeaderValue};
use vstd::prelude::*;
use vstd::string::*;

verus! {

// ---------------------------------------------------------------------------
// The request sent upstream
// ---------------------------------------------------------------------------

/// The `Forwarded` header value.
pub open spec fn forwarded_value(client: Seq<char>, host: Seq<char>, proto: Seq<char>) -> Seq<char> {
    "for="@ + client + ";host="@ + host + ";proto="@ + proto
}

/// The headers sent upstream: no hop-by-hop headers, the forwarding headers,
/// and a request id.
pub open spec fn forwarded_headers(
    h: Map<Seq<char>, Seq<Seq<u8>>>,
    client: Seq<char>,
    host: Seq<char>,
    proto: Seq<char>,
    request_id: Seq<char>,
) -> Map<Seq<char>, Seq<Seq<u8>>> {
    let h1 = without_hop_by_hop(h);
    let h2 = with_header(h1, "x-forwarded-for"@, forwarded_for(h1, client));
    let h3 = with_header(h2, "x-forwarded-proto"@, proto);
    let h4 = with_header(h3, "x-forwarded-host"@, host);
    let h5 = with_header(h4, "forwarded"@, forwarded_value(client, host, proto));
    if h5.contains_key("x-request-id"@) {
        h5
    } else {
        with_header(h5, "x-request-id"@, request_id)
    }
}

/// Whether none of the headers concerns only one hop.
pub open spec fn crosses_no_hop(h: Map<Seq<char>, Seq<Seq<u8>>>) -> bool {
    forall|n: Seq<char>| #[trigger] hop_by_hop().contains(n) ==> !h.contains_key(n)
}

/// Whether a header is the same in two maps.
pub open spec fn same_header(
    a: Map<Seq<char>, Seq<Seq<u8>>>,
    b: Map<Seq<char>, Seq<Seq<u8>>>,
    name: Seq<char>,
) -> bool {
    &&& a.contains_key(name) == b.contains_key(name)
    &&& a.contains_key(name) ==> a[name] == b[name]
}

/// Whether every header of `f` is as it is without the hop-by-hop headers or
/// as it is sent upstream: what a map that is too full for some of the
/// forwarding headers can come to.
pub open spec fn partly_forwarded(
    h: Map<Seq<char>, Seq<Seq<u8>>>,
    client: Seq<char>,
    host: Seq<char>,
    proto: Seq<char>,
    request_id: Seq<char>,
    f: Map<Seq<char>, Seq<Seq<u8>>>,
) -> bool {
    forall|name: Seq<char>|
        {
            ||| #[trigger] same_header(f, without_hop_by_hop(h), name)
            ||| same_header(f, forwarded_headers(h, client, host, proto, request_id), name)
        }
}

/// Rewrites the headers of a client request for the upstream request. Where
/// the map is too full for some of the forwarding headers, the hop-by-hop
/// headers are gone all the same and the others stay.
pub fn prepare_headers(
    headers: &mut HeaderMap<HeaderValue>,
    client: &str,
    host: &str,
    proto: &str,
    request_id: &str,
)
    ensures
        has_room(header_values(*old(headers)), 5) ==> header_values(*final(headers))
            == forwarded_headers(
            header_values(*old(headers)),
            client@,
            host@,
            proto@,
            request_id@,
        ),
        partly_forwarded(
            header_values(*old(headers)),
            client@,
            host@,
            proto@,
            request_id@,
            header_values(*final(headers)),
        ),
        crosses_no_hop(header_values(*final(headers))),
{
    let ghost h0 = header_values(*headers);
    proof {
        lemma_known_names();
        assert forall|n: Seq<char>| #[trigger] hop_by_hop().contains(n) implies n
            != "x-forwarded-for"@ && n != "x-forwarded-proto"@ && n != "x-forwarded-host"@ && n
            != "forwarded"@ && n != "x-request-id"@ by {
            lemma_hop_names_are_not_added(n);
        }
    }
    strip_hop_by_hop(headers);
    let ghost h1 = header_values(*headers);
    proof {
        if has_room(h0, 5) {
            assert(h1.dom().subset_of(h0.dom()));
            vstd::set_lib::lemma_len_subset(h1.dom(), h0.dom());
            lemma_room(h1, "x-forwarded-for"@, forwarded_for(h1, client@), 4);
        }
    }
    append_forwarded_for(headers, client);
    let ghost h2 = header_values(*headers);
    proof {
        if has_room(h0, 5) {
            lemma_room(h2, "x-forwarded-proto"@, proto@, 3);
        }
    }
    set_header(headers, "x-forwarded-proto", proto);
    let ghost h3 = header_values(*headers);
    proof {
        if has_room(h0, 5) {
            lemma_room(h3, "x-forwarded-host"@, host@, 2);
        }
    }
    set_header(headers, "x-forwarded-host", host);
    let ghost h4 = header_values(*headers);
    let mut value = join3("for=", client, ";host=");
    value.append(host);
    value.append(";proto=");
    value.append(proto);
    proof {
        if has_room(h0, 5) {
            lemma_room(h4, "forwarded"@, value@, 1);
        }
    }
    set_header(headers, "forwarded", value.as_str());
    if !is_present(headers, "x-request-id") {
        set_header(headers, "x-request-id", request_id);
    }
    proof {
        lemma_added_names_differ();
        let full = forwarded_headers(h0, client@, host@, proto@, request_id@);
        let f = header_values(*headers);
        assert forall|name: Seq<char>|
            #[trigger] same_header(f, h1, name) || same_header(f, full, name) by {}
    }
}

proof fn lemma_added_names_differ()
    ensures
        "x-forwarded-for"@ != "x-forwarded-proto"@,
        "x-forwarded-for"@ != "x-forwarded-host"@,
        "x-forwarded-for"@ != "forwarded"@,
        "x-forwarded-for"@ != "x-request-id"@,
        "x-forwarded-proto"@ != "x-forwarded-host"@,
        "x-forwarded-proto"@ != "forwarded"@,
        "x-forwarded-proto"@ != "x-request-id"@,
        "x-forwarded-host"@ != "forwarded"@,
        "x-forwarded-host"@ != "x-request-id"@,
        "forwarded"@ != "x-request-id"@,
{
    reveal_strlit("x-forwarded-for");
    reveal_strlit("x-forwarded-proto");
    reveal_strlit("x-forwarded-host");
    reveal_strlit("forwarded");
    reveal_strlit("x-request-id");
    assert("x-forwarded-for"@.len() == 15 && "x-forwarded-proto"@.len() == 17
        && "x-forwarded-host"@.len() == 16 && "forwarded"@.len() == 9 && "x-request-id"@.len()
        == 12);
}

/// No hop-by-hop header is sent upstream, and the client's other headers are
/// kept unless a forwarding header replaces them.
pub proof fn law_forwarded_headers(
    h: Map<Seq<char>, Seq<Seq<u8>>>,
    client: Seq<char>,
    host: Seq<char>,
    proto: Seq<char>,
    request_id: Seq<char>,
    name: Seq<char>,
)
    ensures
        ({
            let f = forwarded_headers(h, client, host, proto, request_id);
            let added = seq![
                "x-forwarded-for"@,
                "x-forwarded-proto"@,
                "x-forwarded-host"@,
                "forwarded"@,
                "x-request-id"@,
            ];
            &&& hop_by_hop().contains(name) ==> !f.contains_key(name)
            &&& !added.contains(name) && !hop_by_hop().contains(name) && !connection_names(h, name)
                && h.contains_key(name) ==> f.contains_key(name) && f[name] == h[name]
            &&& !added.contains(name) && f.contains_key(name) ==> h.contains_key(name)
        }),
{
    let added = seq![
        "x-forwarded-for"@,
        "x-forwarded-proto"@,
        "x-forwarded-host"@,
        "forwarded"@,
        "x-request-id"@,
    ];
    assert forall|i: int| 0 <= i < 5 implies added.contains(#[trigger] added[i]) by {}
    assert(added[0] == "x-forwarded-for"@ && added[1] == "x-forwarded-proto"@ && added[2]
        == "x-forwarded-host"@ && added[3] == "forwarded"@ && added[4] == "x-request-id"@);
    if hop_by_hop().contains(name) {
        lemma_hop_names_are_not_added(name);
    }
}

/// Also where the headers are too many for some of the forwarding headers, the
/// client's other headers are kept and no header but those is added.
pub proof fn law_full_headers_keep_the_rest(
    h: Map<Seq<char>, Seq<Seq<u8>>>,
    client: Seq<char>,
    host: Seq<char>,
    proto: Seq<char>,
    request_id: Seq<char>,
    f: Map<Seq<char>, Seq<Seq<u8>>>,
    name: Seq<char>,
)
    requires
        partly_forwarded(h, client, host, proto, request_id, f),
    ensures
        ({
            let added = seq![
                "x-forwarded-for"@,
                "x-forwarded-proto"@,
                "x-forwarded-host"@,
                "forwarded"@,
                "x-request-id"@,
            ];
            &&& hop_by_hop().contains(name) ==> !f.contains_key(name)
            &&& !added.contains(name) && !hop_by_hop().contains(name) && !connection_names(h, name)
                && h.contains_key(name) ==> f.contains_key(name) && f[name] == h[name]
            &&& !added.contains(name) && f.contains_key(name) ==> h.contains_key(name)
        }),
{
    law_forwarded_headers(h, client, host, proto, request_id, name);
    assert(same_header(f, without_hop_by_hop(h), name) || same_header(
        f,
        forwarded_headers(h, client, host, proto, request_id),
        name,
    ));
}

proof fn lemma_hop_names_are_not_added(name: Seq<char>)
    requires
        hop_by_hop().contains(name),
    ensures
        name != "x-forwarded-for"@,
        name != "x-forwarded-proto"@,
        name != "x-forwarded-host"@,
        name != "forwarded"@,
        name != "x-request-id"@,
        name != "strict-transport-security"@,
{
    reveal_strlit("strict-transport-security");
    assert("strict-transport-security"@[0] == 's');
    reveal_strlit("x-forwarded-for");
    reveal_strlit("x-forwarded-proto");
    reveal_strlit("x-forwarded-host");
    reveal_strlit("forwarded");
    reveal_strlit("x-request-id");
    reveal_strlit("connection");
    reveal_strlit("proxy-connection");
    reveal_strlit("keep-alive");
    reveal_strlit("proxy-authenticate");
    reveal_strlit("proxy-authorization");
    reveal_strlit("te");
    reveal_strlit("trailer");
    reveal_strlit("transfer-encoding");
    reveal_strlit("upgrade");
    let i = choose|i: int| 0 <= i < hop_by_hop().len() && hop_by_hop()[i] == name;
    assert(name[0] == 'c' || name[0] == 'p' || name[0] == 'k' || name[0] == 't' || name[0] == 'u');
    assert("x-forwarded-for"@[0] == 'x' && "x-forwarded-proto"@[0] == 'x'
        && "x-forwarded-host"@[0] == 'x' && "forwarded"@[0] == 'f' && "x-request-id"@[0] == 'x');
}

/// A request on its way to a backend.
pub struct Forwarding {
    pub method: String,
    pub path_and_query: String,
    pub headers: HeaderMap<HeaderValue>,
    /// Whether a failure before any response may be retried.
    pub retryable: bool,
    /// The attempts made so far.
    pub attempts: u8,
    /// The key for consistent hashing: that of the client address.
    pub hash_key: u64,
    pub request_id: String,
    pub is_tls: bool,
    pub hsts: String,
}

/// The number of attempts a request may take.
pub open spec fn max_attempts(retryable: bool) -> int {
    if retryable {
        2
    } else {
        1
    }
}

/// Starts forwarding a request. Bodyless idempotent requests may be retried
/// once; everything else is attempted exactly once.
pub fn begin_forward(
    ctx: &ConnCtx,
    req: RequestHead,
    host: &str,
    request_id: &str,
    hsts: &str,
) -> (r: Forwarding)
    ensures
        r.method@ == req.method@,
        r.path_and_query@ == target_of(req.path_and_query),
        r.retryable == (idempotent(req.method@) && bodyless(header_values(req.headers))),
        r.attempts == 0,
        r.hash_key == hash_of(ctx.client_ip.writes()),
        r.request_id@ == request_id@,
        r.is_tls == ctx.is_tls,
        r.hsts@ == hsts@,
        has_room(header_values(req.headers), 5) ==> header_values(r.headers) == forwarded_headers(
            header_values(req.headers),
            ctx.client@,
            host@,
            proto_of(ctx.is_tls),
            request_id@,
        ),
        partly_forwarded(
            header_values(req.headers),
            ctx.client@,
            host@,
            proto_of(ctx.is_tls),
            request_id@,
            header_values(r.headers),
        ),
        crosses_no_hop(header_values(r.headers)),
        has_room(header_values(req.headers), 5) ==> {
            &&& header_values(r.headers).contains_key("x-forwarded-proto"@)
            &&& header_values(r.headers)["x-forwarded-proto"@] == seq![
                plain_bytes(
                    if ctx.is_tls {
                        "https"@
                    } else {
                        "http"@
                    },
                ),
            ]
        },
{
    proof {
        if has_room(header_values(req.headers), 5) {
            law_forwarded_scheme(
                header_values(req.headers),
                ctx.client@,
                host@,
                ctx.is_tls,
                request_id@,
            );
        }
    }
    let retryable = is_idempotent(req.method.as_str()) && body_is_empty(&req.headers);
    let mut headers = req.headers;
    prepare_headers(&mut headers, ctx.client.as_str(), host, proto(ctx.is_tls), request_id);
    let path_and_query = match req.path_and_query {
        Some(p) => p,
        None => owned("/"),
    };
    Forwarding {
        method: req.method,
        path_and_query,
        headers,
        retryable,
        attempts: 0,
        hash_key: hash64(ctx.client_ip),
        request_id: owned(request_id),
        is_tls: ctx.is_tls,
        hsts: owned(hsts),
    }
}

/// One attempt: where to send the request and with which headers.
pub struct Attempt {
    /// `host:port` of the backend.
    pub backend: String,
    /// The URI of the upstream request.
    pub uri: String,
    pub headers: HeaderMap<HeaderValue>,
    pub guard: InflightGuard,
}

/// What to do next with a request.
pub enum ForwardStep {
    /// Make an attempt.
    Send(Attempt),
    /// Answer the client: the pool has no healthy backend.
    Unavailable(Reply),
    /// Answer the client: no attempt is left.
    Exhausted(Reply),
}

/// The scheme of the upstream leg.
pub open spec fn scheme_text(scheme: Scheme) -> Seq<char> {
    match scheme {
        Scheme::Http => "http"@,
        Scheme::Https => "https"@,
    }
}

/// The URI of a request to a backend.
pub open spec fn upstream_uri(scheme: Scheme, authority: Seq<char>, target: Seq<char>) -> Seq<char> {
    scheme_text(scheme) + "://"@ + authority + target
}

/// The URI of a request to a backend: `scheme://authority` with the path and
/// query of the request.
pub fn build_upstream_uri(scheme: Scheme, authority: &str, path_and_query: &str) -> (r: String)
    ensures
        r@ == upstream_uri(scheme, authority@, path_and_query@),
{
    let name = match scheme {
        Scheme::Http => "http",
        Scheme::Https => "https",
    };
    let mut out = join3(name, "://", authority);
    out.append(path_and_query);
    out
}

/// What the proxy answers itself while forwarding.
pub open spec fn failure_reply(f: Forwarding, status: u16, message: Seq<char>) -> super::replies::ReplyView {
    sent_reply(synthetic_reply(status, message, f.request_id@), f.is_tls, f.hsts@)
}

impl Forwarding {
    /// What stays the same during forwarding.
    pub open spec fn same_request(self, other: Forwarding) -> bool {
        &&& self.method == other.method
        &&& self.path_and_query == other.path_and_query
        &&& self.headers == other.headers
        &&& self.retryable == other.retryable
        &&& self.hash_key == other.hash_key
        &&& self.request_id == other.request_id
        &&& self.is_tls == other.is_tls
        &&& self.hsts == other.hsts
    }

    /// Whether `a` is the attempt at a selected backend: the upstream URI, and
    /// the prepared headers with the backend as `Host`, or without a change
    /// where they are too many to take it.
    pub open spec fn attempts_at(self, pool: Pool, sel: Selection, a: Attempt) -> bool {
        let authority = authority_text(sel.upstream.host@, sel.upstream.port);
        &&& a.backend@ == authority
        &&& a.uri@ == upstream_uri(pool.scheme, authority, self.path_and_query@)
        &&& a.guard == sel.guard
        &&& has_room(header_values(self.headers), 1) ==> header_values(a.headers) == with_header(
            header_values(self.headers),
            "host"@,
            authority,
        )
        &&& header_values(a.headers) == header_values(self.headers) || header_values(a.headers)
            == with_header(header_values(self.headers), "host"@, authority)
    }

    fn answer(&self, status: u16, message: &str) -> (r: Reply)
        ensures
            r@ == failure_reply(*self, status, message@),
    {
        proof {
            lemma_replies_are_roomy(
                status,
                message@,
                Seq::empty(),
                Seq::empty(),
                self.request_id@,
            );
        }
        let r = synthetic(status, message, self.request_id.as_str());
        send_reply(r, self.is_tls, self.hsts.as_str())
    }

    /// The next step: an attempt at a freshly selected backend, or the answer
    /// when there is no healthy backend or no attempt left.
    pub fn next_attempt(&mut self, pool: &mut Pool, health: &HealthMap) -> (r: ForwardStep)
        requires
            old(pool).wf(),
        ensures
            final(pool).wf(),
            final(self).same_request(*old(self)),
            old(self).attempts >= max_attempts(old(self).retryable) ==> {
                &&& r matches ForwardStep::Exhausted(a) && a@ == failure_reply(
                    *old(self),
                    502,
                    "upstream error"@,
                )
                &&& *final(pool) == *old(pool)
                &&& final(self).attempts == old(self).attempts
            },
            old(self).attempts < max_attempts(old(self).retryable) ==> exists|
                draw: u64,
                sel: Option<Selection>,
            |
                {
                    &&& #[trigger] old(pool).selects(
                        *final(pool),
                        *health,
                        Some(old(self).hash_key),
                        draw,
                        sel,
                    )
                    &&& match sel {
                        None => {
                            &&& r matches ForwardStep::Unavailable(a) && a@ == failure_reply(
                                *old(self),
                                503,
                                "no healthy upstream"@,
                            )
                            &&& final(self).attempts == old(self).attempts
                        },
                        Some(s) => {
                            &&& r matches ForwardStep::Send(a) && old(self).attempts_at(
                                *old(pool),
                                s,
                                a,
                            )
                            &&& final(self).attempts == old(self).attempts + 1
                        },
                    }
                },
    {
        let max: u8 = if self.retryable {
            2
        } else {
            1
        };
        if self.attempts >= max {
            return ForwardStep::Exhausted(self.answer(502, "upstream error"));
        }
        let scheme = pool.scheme;
        let sel = pool.select(health, Some(self.hash_key));
        match sel {
            None => {
                let reply = self.answer(503, "no healthy upstream");
                ForwardStep::Unavailable(reply)
            },
            Some(s) => {
                self.attempts = self.attempts + 1;
                let backend = s.upstream.authority();
                let uri = build_upstream_uri(
                    scheme,
                    backend.as_str(),
                    self.path_and_query.as_str(),
                );
                let mut headers = headers_copy(&self.headers);
                proof {
                    lemma_known_names();
                }
                set_header(&mut headers, "host", backend.as_str());
                let a = Attempt { backend, uri, headers, guard: s.guard };
                ForwardStep::Send(a)
            },
        }
    }

    /// Whether an attempt carries the client's body. A request that may be
    /// retried has none and is sent with an empty one; any other is attempted
    /// once, and its body is streamed on that attempt.
    pub fn carries_body(&self) -> (r: bool)
        ensures
            r == !self.retryable,
    {
        !self.retryable
    }

    /// What an upstream outcome leads to.
    pub fn conclude(&self, outcome: UpstreamOutcome) -> (r: Conclusion)
        ensures
            match verdict(self.retryable, self.attempts as int, outcome) {
                Verdict::Respond => r is Respond,
                Verdict::Retry => r is Retry,
                Verdict::BadGateway => r matches Conclusion::Answer(a) && a@ == failure_reply(
                    *self,
                    502,
                    "upstream error"@,
                ),
                Verdict::GatewayTimeout => r matches Conclusion::Answer(a) && a@ == failure_reply(
                    *self,
                    504,
                    "upstream timeout"@,
                ),
            },
    {
        match outcome {
            UpstreamOutcome::Responded(_) => Conclusion::Respond,
            UpstreamOutcome::Failed => {
                let max: u8 = if self.retryable {
                    2
                } else {
                    1
                };
                if self.attempts < max {
                    Conclusion::Retry
                } else {
                    Conclusion::Answer(self.answer(502, "upstream error"))
                }
            },
            UpstreamOutcome::TimedOut => {
                Conclusion::Answer(self.answer(504, "upstream timeout"))
            },
        }
    }
}

// ---------------------------------------------------------------------------
// Outcomes and retries
// ---------------------------------------------------------------------------

/// What came of one attempt.
#[derive(Debug, Clone, Copy, PartialEq, Eq, Structural)]
pub enum UpstreamOutcome {
    /// A response with this status began to arrive.
    Responded(u16),
    /// The attempt failed before any response.
    Failed,
    /// The total request timeout elapsed.
    TimedOut,
}

/// What an upstream outcome leads to.
pub enum Conclusion {
    /// Hand the upstream response to the client.
    Respond,
    /// Try another backend.
    Retry,
    /// Answer the client.
    Answer(Reply),
}

/// What an upstream outcome leads to.
pub enum Verdict {
    Respond,
    Retry,
    BadGateway,
    GatewayTimeout,
}

/// What an outcome leads to after `made` attempts: a response goes to the
/// client, a failure is retried while an attempt is left, and a timeout is
/// not retried.
pub open spec fn verdict(retryable: bool, made: int, outcome: UpstreamOutcome) -> Verdict {
    match outcome {
        UpstreamOutcome::Responded(_) => Verdict::Respond,
        UpstreamOutcome::Failed => if made < max_attempts(retryable) {
            Verdict::Retry
        } else {
            Verdict::BadGateway
        },
        UpstreamOutcome::TimedOut => Verdict::GatewayTimeout,
    }
}

/// The number of attempts made after `made` of them, when the attempts still
/// to come end as listed.
pub open spec fn attempts_made(retryable: bool, made: int, outcomes: Seq<UpstreamOutcome>) -> int
    decreases outcomes.len(),
{
    if made >= max_attempts(retryable) || outcomes.len() == 0 {
        made
    } else if verdict(retryable, made + 1, outcomes[0]) is Retry {
        attempts_made(retryable, made + 1, outcomes.skip(1))
    } else {
        made + 1
    }
}

/// A request that is not both bodyless and idempotent is attempted once at
/// most; one that is, twice at most. A response or a timeout ends it.
pub proof fn law_attempts_are_bounded(retryable: bool, outcomes: Seq<UpstreamOutcome>)
    ensures
        attempts_made(retryable, 0, outcomes) <= max_attempts(retryable),
        outcomes.len() > 0 && !(outcomes[0] is Failed) ==> attempts_made(retryable, 0, outcomes)
            == 1,
        outcomes.len() > 1 && retryable && outcomes[0] is Failed ==> attempts_made(
            retryable,
            0,
            outcomes,
        ) == 2,
{
    reveal_with_fuel(attempts_made, 4);
}

/// A body that goes upstream is sent once, however the attempts end: a request
/// that carries one is attempted once at most.
pub proof fn law_body_is_sent_once(f: Forwarding, outcomes: Seq<UpstreamOutcome>)
    requires
        !f.retryable,
    ensures
        attempts_made(f.retryable, 0, outcomes) <= 1,
{
    law_attempts_are_bounded(f.retryable, outcomes);
}

/// Nothing is retried once a response has arrived, nor after a timeout.
pub proof fn law_no_retry_after_response(retryable: bool, made: int, outcome: UpstreamOutcome)
    ensures
        verdict(retryable, made, outcome) is Retry ==> outcome is Failed && made < max_attempts(
            retryable,
        ),
        made >= 1 && verdict(retryable, made, outcome) is Retry ==> retryable,
{
}

/// The status an attempt is recorded under.
pub open spec fn recorded_status(outcome: UpstreamOutcome) -> u16 {
    match outcome {
        UpstreamOutcome::Responded(status) => status,
        UpstreamOutcome::Failed => 502,
        UpstreamOutcome::TimedOut => 504,
    }
}

/// The labels an attempt is counted under.
pub fn record_upstream(pool: &Pool, backend: &str, outcome: UpstreamOutcome) -> (r: UpstreamLabels)
    ensures
        r.pool@ == pool.id.0@,
        r.backend@ == backend@,
        r.status@ == decimal(recorded_status(outcome) as nat),
{
    let status: u16 = match outcome {
        UpstreamOutcome::Responded(s) => s,
        UpstreamOutcome::Failed => 502,
        UpstreamOutcome::TimedOut => 504,
    };
    UpstreamLabels {
        pool: pool.id.0.clone(),
        backend: owned(backend),
        status: decimal_string(status as u128),
    }
}

/// The labels the duration of an attempt is observed under.
pub fn upstream_duration_labels(pool: &Pool, backend: &str) -> (r: UpstreamDurationLabels)
    ensures
        r.pool@ == pool.id.0@,
        r.backend@ == backend@,
{
    UpstreamDurationLabels { pool: pool.id.0.clone(), backend: owned(backend) }
}

/// The headers of an upstream response as they go to the client.
pub open spec fn response_headers(
    h: Map<Seq<char>, Seq<Seq<u8>>>,
    is_tls: bool,
    hsts: Seq<char>,
) -> Map<Seq<char>, Seq<Seq<u8>>> {
    with_hsts(without_hop_by_hop(h), is_tls, hsts)
}

/// Rewrites the headers of an upstream response for the client. Where they are
/// too many to take HSTS, the hop-by-hop headers are gone all the same.
pub fn map_upstream_response(headers: &mut HeaderMap<HeaderValue>, is_tls: bool, hsts: &str)
    ensures
        has_room(header_values(*old(headers)), 1) ==> header_values(*final(headers))
            == response_headers(header_values(*old(headers)), is_tls, hsts@),
        header_values(*final(headers)) == without_hop_by_hop(header_values(*old(headers)))
            || header_values(*final(headers)) == response_headers(
            header_values(*old(headers)),
            is_tls,
            hsts@,
        ),
        crosses_no_hop(header_values(*final(headers))),
{
    let ghost h0 = header_values(*headers);
    strip_hop_by_hop(headers);
    proof {
        let h1 = header_values(*headers);
        if has_room(h0, 1) {
            assert(h1.dom().subset_of(h0.dom()));
            vstd::set_lib::lemma_len_subset(h1.dom(), h0.dom());
        }
    }
    proof {
        assert forall|n: Seq<char>| #[trigger] hop_by_hop().contains(n) implies n
            != "strict-transport-security"@ by {
            lemma_hop_names_are_not_added(n);
        }
    }
    add_hsts(headers, is_tls, hsts);
}

// ---------------------------------------------------------------------------
// Laws of forwarding
// ---------------------------------------------------------------------------

proof fn lemma_scheme_is_plain(is_tls: bool)
    ensures
        is_plain(proto_of(is_tls)),
{
    reveal_strlit("https");
    reveal_strlit("http");
}

/// The backend is told the scheme of the client's connection: a TLS connection
/// is `https` and any other `http`, whatever the client sent under that name.
pub proof fn law_forwarded_scheme(
    h: Map<Seq<char>, Seq<Seq<u8>>>,
    client: Seq<char>,
    host: Seq<char>,
    is_tls: bool,
    request_id: Seq<char>,
)
    ensures
        ({
            let f = forwarded_headers(h, client, host, proto_of(is_tls), request_id);
            &&& f.contains_key("x-forwarded-proto"@)
            &&& is_tls ==> f["x-forwarded-proto"@] == seq![plain_bytes("https"@)]
            &&& !is_tls ==> f["x-forwarded-proto"@] == seq![plain_bytes("http"@)]
        }),
{
    lemma_added_names_differ();
    lemma_scheme_is_plain(is_tls);
    lemma_plain(proto_of(is_tls));
}

/// The headers that tell the backend of the client. The address of the client,
/// the host that it asked for and the scheme of its connection stand each in a
/// header of their own and together in `Forwarded`, which ends in
/// `;proto=https` for a TLS connection and in `;proto=http` for any other.
pub proof fn law_backend_learns_of_the_client(
    h: Map<Seq<char>, Seq<Seq<u8>>>,
    client: Seq<char>,
    host: Seq<char>,
    is_tls: bool,
    request_id: Seq<char>,
)
    requires
        is_plain(client),
        is_plain(host),
    ensures
        ({
            let f = forwarded_headers(h, client, host, proto_of(is_tls), request_id);
            let told = "for="@ + client + ";host="@ + host;
            &&& f.contains_key("x-forwarded-host"@)
            &&& f["x-forwarded-host"@] == seq![plain_bytes(host)]
            &&& f.contains_key("forwarded"@)
            &&& is_tls ==> f["forwarded"@] == seq![plain_bytes(told + ";proto=https"@)]
            &&& !is_tls ==> f["forwarded"@] == seq![plain_bytes(told + ";proto=http"@)]
        }),
{
    lemma_added_names_differ();
    reveal_strlit("https");
    reveal_strlit("http");
    reveal_strlit(";proto=");
    reveal_strlit(";proto=https");
    reveal_strlit(";proto=http");
    reveal_strlit("for=");
    reveal_strlit(";host=");
    let told = "for="@ + client + ";host="@ + host;
    let value = forwarded_value(client, host, proto_of(is_tls));
    if is_tls {
        assert(value =~= told + ";proto=https"@);
    } else {
        assert(value =~= told + ";proto=http"@);
    }
    assert(is_plain("for="@) && is_plain(";host="@) && is_plain(";proto="@));
    lemma_scheme_is_plain(is_tls);
    lemma_plain_parts("for="@, client);
    lemma_plain_parts("for="@ + client, ";host="@);
    lemma_plain_parts("for="@ + client + ";host="@, host);
    lemma_plain_parts(told, ";proto="@);
    lemma_plain_parts(told + ";proto="@, proto_of(is_tls));
    lemma_plain(value);
    lemma_plain(host);
}

/// The address of the client closes the chain of addresses that the request
/// came with, which is kept in front of it; a request without one gets the
/// address alone.
pub proof fn law_chain_ends_with_the_client(
    h: Map<Seq<char>, Seq<Seq<u8>>>,
    chain: Seq<char>,
    client: Seq<char>,
    host: Seq<char>,
    proto: Seq<char>,
    request_id: Seq<char>,
)
    requires
        is_plain(client),
        is_plain(chain),
        without_hop_by_hop(h).contains_key("x-forwarded-for"@) ==> h["x-forwarded-for"@][0]
            == plain_bytes(chain),
    ensures
        ({
            let f = forwarded_headers(h, client, host, proto, request_id);
            &&& f.contains_key("x-forwarded-for"@)
            &&& f["x-forwarded-for"@] == if without_hop_by_hop(h).contains_key("x-forwarded-for"@) {
                seq![plain_bytes(chain + ", "@ + client)]
            } else {
                seq![plain_bytes(client)]
            }
        }),
{
    lemma_added_names_differ();
    law_forwarded_for_grows(without_hop_by_hop(h), chain, client);
    reveal_strlit(", ");
    assert(is_plain(", "@));
    lemma_plain_parts(chain, ", "@);
    lemma_plain_parts(chain + ", "@, client);
    lemma_plain(chain + ", "@ + client);
    lemma_plain(client);
}

/// A request id that the client sent goes on as it is; a request without one
/// gets the id that the proxy gave it.
pub proof fn law_request_id_goes_upstream(
    h: Map<Seq<char>, Seq<Seq<u8>>>,
    client: Seq<char>,
    host: Seq<char>,
    proto: Seq<char>,
    request_id: Seq<char>,
)
    requires
        is_plain(request_id),
    ensures
        ({
            let f = forwarded_headers(h, client, host, proto, request_id);
            &&& f.contains_key("x-request-id"@)
            &&& f["x-request-id"@] == if without_hop_by_hop(h).contains_key("x-request-id"@) {
                h["x-request-id"@]
            } else {
                seq![plain_bytes(request_id)]
            }
        }),
{
    lemma_added_names_differ();
    lemma_plain(request_id);
}

/// A request that may be retried has two attempts, any other has one. A failure
/// before the last of them is retried, one on the last is a bad gateway; a
/// response ends the request at once, and so does a timeout.
pub proof fn law_outcomes(retryable: bool, made: int, status: u16)
    ensures
        max_attempts(true) == 2,
        max_attempts(false) == 1,
        verdict(retryable, made, UpstreamOutcome::Responded(status)) is Respond,
        verdict(retryable, made, UpstreamOutcome::TimedOut) is GatewayTimeout,
        verdict(true, 1, UpstreamOutcome::Failed) is Retry,
        made >= 2 ==> verdict(true, made, UpstreamOutcome::Failed) is BadGateway,
        made >= 1 ==> verdict(false, made, UpstreamOutcome::Failed) is BadGateway,
{
}

/// What a failed request is answered says the status, the reason and the id of
/// the request, and carries HSTS as any other response.
pub proof fn law_failures_are_answered(f: Forwarding, status: u16, message: Seq<char>)
    ensures
        ({
            let r = failure_reply(f, status, message);
            &&& r.status == status
            &&& r.body == decimal(status as nat) + " "@ + message + "\nrequest-id: "@ + f.request_id@
                + "\n"@
            &&& is_plain(f.request_id@) ==> r.headers.contains_key("x-request-id"@)
                && r.headers["x-request-id"@] == seq![plain_bytes(f.request_id@)]
            &&& r.headers.contains_key("strict-transport-security"@) ==> f.is_tls && f.hsts@.len()
                > 0
            &&& f.is_tls && f.hsts@.len() > 0 && is_plain(f.hsts@) ==> r.headers.contains_key(
                "strict-transport-security"@,
            ) && r.headers["strict-transport-security"@] == seq![plain_bytes(f.hsts@)]
        }),
{
    if is_plain(f.request_id@) {
        lemma_plain(f.request_id@);
    }
    if is_plain(f.hsts@) {
        lemma_plain(f.hsts@);
    }
    reveal_strlit("x-request-id");
    reveal_strlit("strict-transport-security");
    reveal_strlit("content-type");
    assert("x-request-id"@.len() == 12 && "strict-transport-security"@.len() == 25
        && "content-type"@.len() == 12);
    assert("x-request-id"@[0] == 'x' && "content-type"@[0] == 'c');
}

/// An attempt goes to the selected backend over the scheme of the pool, asks it
/// for the path and query of the request, and names it as the host.
pub proof fn law_attempts_go_to_the_backend(
    f: Forwarding,
    pool: Pool,
    sel: Selection,
    a: Attempt,
    name: Seq<char>,
)
    requires
        f.attempts_at(pool, sel, a),
    ensures
        ({
            let backend = sel.upstream.host@ + ":"@ + decimal(sel.upstream.port as nat);
            &&& a.backend@ == backend
            &&& pool.scheme is Http ==> a.uri@ == "http://"@ + backend + f.path_and_query@
            &&& pool.scheme is Https ==> a.uri@ == "https://"@ + backend + f.path_and_query@
            &&& a.guard == sel.guard
            &&& has_room(header_values(f.headers), 1) && is_plain(backend) ==> header_values(
                a.headers,
            ).contains_key("host"@) && header_values(a.headers)["host"@] == seq![
                plain_bytes(backend),
            ]
            &&& name != "host"@ ==> same_header(
                header_values(a.headers),
                header_values(f.headers),
                name,
            )
        }),
{
    let backend = sel.upstream.host@ + ":"@ + decimal(sel.upstream.port as nat);
    reveal_strlit("http");
    reveal_strlit("https");
    reveal_strlit("://");
    reveal_strlit("http://");
    reveal_strlit("https://");
    assert("http://"@ =~= "http"@ + "://"@);
    assert("https://"@ =~= "https"@ + "://"@);
    if is_plain(backend) {
        lemma_plain(backend);
    }
}

/// Between attempts nothing of the request changes but the count of them.
pub proof fn law_attempts_leave_the_request(a: Forwarding, b: Forwarding)
    ensures
        a.same_request(b) <==> a == (Forwarding { attempts: a.attempts, ..b }),
{
}

/// An attempt is counted under the status of its response, a failed one as a
/// bad gateway and one that timed out as a gateway timeout.
pub proof fn law_recorded_statuses(status: u16)
    ensures
        recorded_status(UpstreamOutcome::Responded(status)) == status,
        recorded_status(UpstreamOutcome::Failed) == 502,
        recorded_status(UpstreamOutcome::TimedOut) == 504,
{
}

/// The headers of an upstream response reach the client as they are, but for
/// those of one hop; HSTS is added on TLS connections where it is configured,
/// and never on others.
pub proof fn law_responses_reach_the_client(
    h: Map<Seq<char>, Seq<Seq<u8>>>,
    is_tls: bool,
    hsts: Seq<char>,
    name: Seq<char>,
)
    ensures
        ({
            let r = response_headers(h, is_tls, hsts);
            &&& name != "strict-transport-security"@ ==> same_header(
                r,
                without_hop_by_hop(h),
                name,
            )
            &&& !is_tls || hsts.len() == 0 ==> r == without_hop_by_hop(h)
            &&& is_tls && hsts.len() > 0 && is_plain(hsts) ==> r.contains_key(
                "strict-transport-security"@,
            ) && r["strict-transport-security"@] == seq![plain_bytes(hsts)]
        }),
{
    if is_plain(hsts) {
        lemma_plain(hsts);
    }
}

/// The URI of an upstream request has the scheme of the pool, the backend and
/// the path and query of the request.
pub proof fn law_upstream_uris(authority: Seq<char>, target: Seq<char>)
    ensures
        upstream_uri(Scheme::Http, authority, target) == "http://"@ + authority + target,
        upstream_uri(Scheme::Https, authority, target) == "https://"@ + authority + target,
{
    reveal_strlit("http");
    reveal_strlit("https");
    reveal_strlit("://");
    reveal_strlit("http://");
    reveal_strlit("https://");
    assert("http://"@ =~= "http"@ + "://"@);
    assert("https://"@ =~= "https"@ + "://"@);
}

/// Headers that cross no hop have none of the nine that concern one.
pub proof fn law_nothing_crosses_a_hop(h: Map<Seq<char>, Seq<Seq<u8>>>)
    requires
        crosses_no_hop(h),
    ensures
        !h.contains_key("connection"@),
        !h.contains_key("proxy-connection"@),
        !h.contains_key("keep-alive"@),
        !h.contains_key("proxy-authenticate"@),
        !h.contains_key("proxy-authorization"@),
        !h.contains_key("te"@),
        !h.contains_key("trailer"@),
        !h.contains_key("transfer-encoding"@),
        !h.contains_key("upgrade"@),
{
    let hops = hop_by_hop();
    assert forall|i: int| 0 <= i < 9 implies hops.contains(#[trigger] hops[i]) by {}
    assert(hops[0] == "connection"@ && hops[1] == "proxy-connection"@ && hops[2] == "keep-alive"@
        && hops[3] == "proxy-authenticate"@ && hops[4] == "proxy-authorization"@ && hops[5]
        == "te"@ && hops[6] == "trailer"@ && hops[7] == "transfer-encoding"@ && hops[8]
        == "upgrade"@);
}

}
