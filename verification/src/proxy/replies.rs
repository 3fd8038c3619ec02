//! Responses the proxy makes itself: synthetic errors, redirects and fixed
//! answers.

use super::headers::{
    has_room, header_values, headers_new, is_header_value, is_plain, lemma_known_names, lemma_plain,
    lemma_room, plain_bytes, set_header, with_header,
};
use crate::number::{decimal, decimal_string};
use crate::text::{join3, owned};
use http::header::{HeaderMap, HeaderValue};
use vstd::prelude::*;
use vstd::string::*;

verus! {

/// A response that the proxy makes itself.
pub struct Reply {
    pub status: u16,
    pub headers: HeaderMap<HeaderValue>,
    pub body: String,
}

/// What a reply says.
pub struct ReplyView {
    pub status: u16,
    pub headers: Map<Seq<char>, Seq<Seq<u8>>>,
    pub body: Seq<char>,
}

impl View for Reply {
    type V = ReplyView;

    open spec fn view(&self) -> ReplyView {
        ReplyView {
            status: self.status,
            headers: header_values(self.headers),
            body: self.body@,
        }
    }
}

/// No headers.
pub open spec fn no_headers() -> Map<Seq<char>, Seq<Seq<u8>>> {
    Map::empty()
}

/// The body of a synthetic response.
pub open spec fn synthetic_body(status: u16, message: Seq<char>, request_id: Seq<char>) -> Seq<
    char,
> {
    decimal(status as nat) + " "@ + message + "\nrequest-id: "@ + request_id + "\n"@
}

/// A compact `text/plain` response carrying a request id for correlation.
pub open spec fn synthetic_reply(status: u16, message: Seq<char>, request_id: Seq<char>) -> ReplyView {
    ReplyView {
        status,
        headers: with_header(
            with_header(no_headers(), "content-type"@, "text/plain; charset=utf-8"@),
            "x-request-id"@,
            request_id,
        ),
        body: synthetic_body(status, message, request_id),
    }
}

/// A compact `text/plain` response carrying a request id for correlation.
pub fn synthetic(status: u16, message: &str, request_id: &str) -> (r: Reply)
    ensures
        r@ == synthetic_reply(status, message@, request_id@),
{
    let mut body = decimal_string(status as u128);
    body.append(" ");
    body.append(message);
    body.append("\nrequest-id: ");
    body.append(request_id);
    body.append("\n");
    let mut headers = headers_new();
    proof {
        lemma_known_names();
        lemma_room(
            header_values(headers),
            "content-type"@,
            "text/plain; charset=utf-8"@,
            1,
        );
    }
    set_header(&mut headers, "content-type", "text/plain; charset=utf-8");
    set_header(&mut headers, "x-request-id", request_id);
    Reply { status, headers, body }
}

/// Whether a number is an HTTP status code.
pub open spec fn is_status(status: u16) -> bool {
    100 <= status < 1000
}

/// A status code, or another one where it is not valid.
pub open spec fn status_or(status: u16, otherwise: u16) -> u16 {
    if is_status(status) {
        status
    } else {
        otherwise
    }
}

/// A redirect to the same host and path under another scheme.
pub open spec fn redirect_reply(
    scheme: Seq<char>,
    status: u16,
    host: Seq<char>,
    path_and_query: Seq<char>,
    request_id: Seq<char>,
) -> ReplyView {
    ReplyView {
        status: status_or(status, 308),
        headers: with_header(
            with_header(no_headers(), "location"@, scheme + "://"@ + host + path_and_query),
            "x-request-id"@,
            request_id,
        ),
        body: Seq::empty(),
    }
}

/// Build a redirect response (e.g. HTTP to HTTPS). A status that is not a
/// valid code becomes 308.
pub fn redirect_response(
    scheme: &str,
    status: u16,
    host: &str,
    path_and_query: &str,
    request_id: &str,
) -> (r: Reply)
    ensures
        r@ == redirect_reply(scheme@, status, host@, path_and_query@, request_id@),
{
    let mut location = join3(scheme, "://", host);
    location.append(path_and_query);
    let code: u16 = if 100 <= status && status < 1000 {
        status
    } else {
        308
    };
    let mut headers = headers_new();
    proof {
        lemma_known_names();
        lemma_room(header_values(headers), "location"@, location@, 1);
    }
    set_header(&mut headers, "location", location.as_str());
    set_header(&mut headers, "x-request-id", request_id);
    let body = String::new();
    assert(body@ =~= Seq::empty());
    Reply { status: code, headers, body }
}

/// A fixed answer.
pub open spec fn fixed_reply(status: u16, body: Seq<char>, request_id: Seq<char>) -> ReplyView {
    ReplyView {
        status: status_or(status, 200),
        headers: with_header(no_headers(), "x-request-id"@, request_id),
        body,
    }
}

/// Build a fixed-status response with an optional body. A status that is not
/// a valid code becomes 200.
pub fn fixed_response(status: u16, body: &str, request_id: &str) -> (r: Reply)
    ensures
        r@ == fixed_reply(status, body@, request_id@),
{
    let code: u16 = if 100 <= status && status < 1000 {
        status
    } else {
        200
    };
    let mut headers = headers_new();
    proof {
        lemma_known_names();
    }
    set_header(&mut headers, "x-request-id", request_id);
    Reply { status: code, headers, body: owned(body) }
}

/// The headers of a response to the client: HSTS is added on HTTPS
/// connections if it is configured.
pub open spec fn with_hsts(
    h: Map<Seq<char>, Seq<Seq<u8>>>,
    is_tls: bool,
    hsts: Seq<char>,
) -> Map<Seq<char>, Seq<Seq<u8>>> {
    if is_tls && hsts.len() > 0 {
        with_header(h, "strict-transport-security"@, hsts)
    } else {
        h
    }
}

/// Adds HSTS to a response on an HTTPS connection if it is configured.
pub fn add_hsts(headers: &mut HeaderMap<HeaderValue>, is_tls: bool, hsts: &str)
    ensures
        has_room(header_values(*old(headers)), 1) ==> header_values(*final(headers)) == with_hsts(
            header_values(*old(headers)),
            is_tls,
            hsts@,
        ),
        header_values(*final(headers)) == header_values(*old(headers)) || header_values(
            *final(headers),
        ) == with_hsts(header_values(*old(headers)), is_tls, hsts@),
{
    proof {
        lemma_known_names();
    }
    let text = crate::text::chars_of(hsts);
    if is_tls && text.len() > 0 {
        set_header(headers, "strict-transport-security", hsts);
    }
}

/// A reply as it is sent on a connection.
pub open spec fn sent_reply(r: ReplyView, is_tls: bool, hsts: Seq<char>) -> ReplyView {
    ReplyView { status: r.status, headers: with_hsts(r.headers, is_tls, hsts), body: r.body }
}

/// Whether the headers of a reply leave room for another one.
pub open spec fn roomy(r: ReplyView) -> bool {
    has_room(r.headers, 1)
}

/// The replies of the proxy leave room for another header.
pub proof fn lemma_replies_are_roomy(
    status: u16,
    a: Seq<char>,
    b: Seq<char>,
    c: Seq<char>,
    request_id: Seq<char>,
)
    ensures
        roomy(synthetic_reply(status, a, request_id)),
        roomy(redirect_reply(a, status, b, c, request_id)),
        roomy(fixed_reply(status, a, request_id)),
{
    let e = no_headers();
    lemma_room(e, "content-type"@, "text/plain; charset=utf-8"@, 2);
    lemma_room(
        with_header(e, "content-type"@, "text/plain; charset=utf-8"@),
        "x-request-id"@,
        request_id,
        1,
    );
    lemma_room(e, "location"@, a + "://"@ + b + c, 2);
    lemma_room(with_header(e, "location"@, a + "://"@ + b + c), "x-request-id"@, request_id, 1);
    lemma_room(e, "x-request-id"@, request_id, 1);
}

/// The reply as it is sent on a connection. One whose headers are too many to
/// take another is sent as it is.
pub fn send_reply(r: Reply, is_tls: bool, hsts: &str) -> (s: Reply)
    ensures
        roomy(r@) ==> s@ == sent_reply(r@, is_tls, hsts@),
        s@ == r@ || s@ == sent_reply(r@, is_tls, hsts@),
{
    let mut out = r;
    add_hsts(&mut out.headers, is_tls, hsts);
    out
}

/// A well-formed request id is echoed on every reply the proxy makes.
pub proof fn law_replies_carry_request_id(
    status: u16,
    a: Seq<char>,
    b: Seq<char>,
    c: Seq<char>,
    request_id: Seq<char>,
    is_tls: bool,
    hsts: Seq<char>,
)
    requires
        is_header_value(request_id),
    ensures
        ({
            let id = seq![vstd::utf8::encode_utf8(request_id)];
            let s = sent_reply(synthetic_reply(status, a, request_id), is_tls, hsts);
            let d = sent_reply(redirect_reply(a, status, b, c, request_id), is_tls, hsts);
            let f = sent_reply(fixed_reply(status, a, request_id), is_tls, hsts);
            &&& s.headers.contains_key("x-request-id"@) && s.headers["x-request-id"@] == id
            &&& d.headers.contains_key("x-request-id"@) && d.headers["x-request-id"@] == id
            &&& f.headers.contains_key("x-request-id"@) && f.headers["x-request-id"@] == id
        }),
{
    reveal_strlit("x-request-id");
    reveal_strlit("strict-transport-security");
    assert("x-request-id"@.len() != "strict-transport-security"@.len());
}

/// Every reply has a status code that HTTP allows, whatever the configuration
/// says.
pub proof fn law_reply_status_is_valid(
    scheme: Seq<char>,
    status: u16,
    host: Seq<char>,
    path_and_query: Seq<char>,
    body: Seq<char>,
    request_id: Seq<char>,
)
    ensures
        is_status(redirect_reply(scheme, status, host, path_and_query, request_id).status),
        is_status(fixed_reply(status, body, request_id).status),
{
}

// ---------------------------------------------------------------------------
// Laws of replies
// ---------------------------------------------------------------------------

/// An answer of the proxy's own says its status and its reason on the first
/// line and the id of the request on the second, as plain text.
pub proof fn law_synthetic_replies(status: u16, message: Seq<char>, request_id: Seq<char>)
    ensures
        ({
            let r = synthetic_reply(status, message, request_id);
            &&& r.status == status
            &&& r.body == decimal(status as nat) + " "@ + message + "\nrequest-id: "@ + request_id
                + "\n"@
            &&& r.headers.contains_key("content-type"@)
            &&& r.headers["content-type"@] == seq![plain_bytes("text/plain; charset=utf-8"@)]
            &&& r.headers.dom().subset_of(set!["content-type"@, "x-request-id"@])
        }),
{
    reveal_strlit("text/plain; charset=utf-8");
    assert(is_plain("text/plain; charset=utf-8"@));
    lemma_plain("text/plain; charset=utf-8"@);
    reveal_strlit("x-request-id");
    reveal_strlit("content-type");
    assert("x-request-id"@[0] == 'x' && "content-type"@[0] == 'c');
}

/// A redirect keeps the host and the target and sends the client to the given
/// scheme. It has the given status where that is a status code, else 308, and
/// no body.
pub proof fn law_redirects(
    scheme: Seq<char>,
    status: u16,
    host: Seq<char>,
    target: Seq<char>,
    request_id: Seq<char>,
)
    ensures
        ({
            let r = redirect_reply(scheme, status, host, target, request_id);
            &&& 100 <= status <= 999 ==> r.status == status
            &&& status < 100 || status > 999 ==> r.status == 308
            &&& r.body.len() == 0
            &&& is_plain(scheme + "://"@ + host + target) ==> r.headers.contains_key("location"@)
                && r.headers["location"@] == seq![plain_bytes(scheme + "://"@ + host + target)]
            &&& r.headers.dom().subset_of(set!["location"@, "x-request-id"@])
        }),
{
    if is_plain(scheme + "://"@ + host + target) {
        lemma_plain(scheme + "://"@ + host + target);
    }
    reveal_strlit("x-request-id");
    reveal_strlit("location");
    assert("x-request-id"@.len() == 12 && "location"@.len() == 8);
}

/// A fixed answer has the given body, and the given status where that is a
/// status code, else 200.
pub proof fn law_fixed_answers(status: u16, body: Seq<char>, request_id: Seq<char>)
    ensures
        ({
            let r = fixed_reply(status, body, request_id);
            &&& 100 <= status <= 999 ==> r.status == status
            &&& status < 100 || status > 999 ==> r.status == 200
            &&& r.body == body
            &&& r.headers.dom().subset_of(set!["x-request-id"@])
        }),
{
}

/// On a TLS connection the configured HSTS value is added to what is sent, on
/// any other connection and without a value nothing is; status, body and the
/// other headers stay as they are.
pub proof fn law_sending_adds_hsts_alone(
    r: ReplyView,
    is_tls: bool,
    hsts: Seq<char>,
    name: Seq<char>,
)
    ensures
        ({
            let s = sent_reply(r, is_tls, hsts);
            &&& s.status == r.status
            &&& s.body == r.body
            &&& name != "strict-transport-security"@ ==> s.headers.contains_key(name)
                == r.headers.contains_key(name) && s.headers[name] == r.headers[name]
            &&& !is_tls || hsts.len() == 0 ==> s.headers == r.headers
            &&& is_tls && hsts.len() > 0 && is_plain(hsts) ==> s.headers.contains_key(
                "strict-transport-security"@,
            ) && s.headers["strict-transport-security"@] == seq![plain_bytes(hsts)]
        }),
{
    if is_plain(hsts) {
        lemma_plain(hsts);
    }
}

/// A reply says its own status, its own headers and its own body.
pub proof fn law_replies_say_what_they_hold(r: Reply)
    ensures
        r@.status == r.status,
        r@.headers == header_values(r.headers),
        r@.body == r.body@,
{
}

/// There is room for another header in every reply with fewer of them than
/// there are in any real message.
pub proof fn law_small_replies_are_roomy(r: ReplyView)
    requires
        r.headers.dom().finite(),
        r.headers.len() <= 6553,
    ensures
        roomy(r),
{
}

}
