//! Header hygiene: hop-by-hop removal, forwarding headers, and the checks on
//! names and values.

use crate::number::{law_zeros_read_as_zero, read_u64, read_unsigned};
use crate::text::{
    is_space, join3, law_split_at_separator, law_split_without_separator, law_trim_finds_the_text,
    lemma_lower_idempotent, lower, owned, split, split_chars, str_eq, string_of, trim, trim_chars,
};
use http::header::{HeaderMap, HeaderName, HeaderValue};
use vstd::prelude::*;
use vstd::string::*;
use vstd::utf8::*;

verus! {

// ---------------------------------------------------------------------------
// The outside header map
// ---------------------------------------------------------------------------

/// `http::header::HeaderMap`, a multimap from header names to values.
#[verifier::external_type_specification]
#[verifier::external_body]
#[verifier::reject_recursive_types(T)]
pub struct ExHeaderMap<T>(HeaderMap<T>);

/// `http::header::HeaderValue`.
#[verifier::external_type_specification]
#[verifier::external_body]
pub struct ExHeaderValue(HeaderValue);

/// The values of each header name, in order. Names are in lower case.
pub uninterp spec fn header_values(h: HeaderMap<HeaderValue>) -> Map<Seq<char>, Seq<Seq<u8>>>;

/// The number of names up to which a header map surely takes another one.
pub const HEADER_ROOM: usize = 6553;

/// Whether a header map surely takes `n` more names.
pub open spec fn has_room(h: Map<Seq<char>, Seq<Seq<u8>>>, n: nat) -> bool {
    h.dom().finite() && h.len() + n <= HEADER_ROOM + 1
}

/// A character of a header name.
pub open spec fn token_char(c: char) -> bool {
    ||| 'a' <= c <= 'z'
    ||| 'A' <= c <= 'Z'
    ||| '0' <= c <= '9'
    ||| c == '!'
    ||| '#' <= c <= '\''
    ||| c == '*'
    ||| c == '+'
    ||| c == '-'
    ||| c == '.'
    ||| '^' <= c <= '`'
    ||| c == '|'
    ||| c == '~'
}

/// A character of a header name in lower case.
pub open spec fn lower_token_char(c: char) -> bool {
    token_char(c) && !('A' <= c <= 'Z')
}

/// Whether a text is a header name, in any case.
pub open spec fn is_token(s: Seq<char>) -> bool {
    0 < s.len() <= 65535 && forall|i: int| 0 <= i < s.len() ==> token_char(#[trigger] s[i])
}

/// Whether a text is a header name in lower case.
pub open spec fn is_header_name(s: Seq<char>) -> bool {
    0 < s.len() <= 65535 && forall|i: int| 0 <= i < s.len() ==> lower_token_char(#[trigger] s[i])
}

/// A byte of a header value.
pub open spec fn value_byte(b: u8) -> bool {
    (b >= 32 && b != 127) || b == 9
}

/// Whether a text can be a header value.
pub open spec fn is_header_value(s: Seq<char>) -> bool {
    forall|i: int| 0 <= i < encode_utf8(s).len() ==> value_byte(#[trigger] encode_utf8(s)[i])
}

/// `HeaderMap::new`: a map without headers.
#[verifier::external_body]
pub(crate) fn headers_new() -> (r: HeaderMap<HeaderValue>)
    ensures
        (header_values(r) == Map::<Seq<char>, Seq<Seq<u8>>>::empty()),
{
    HeaderMap::new()
}

/// `HeaderMap::clone`: a map with the same headers.
#[verifier::external_body]
pub(crate) fn headers_copy(h: &HeaderMap<HeaderValue>) -> (r: HeaderMap<HeaderValue>)
    ensures
        header_values(r) == header_values(*h),
{
    h.clone()
}

/// `HeaderMap::get`: the first value of a header, if there is one; the case
/// of the name does not matter.
#[verifier::external_body]
fn header_get(h: &HeaderMap<HeaderValue>, name: &str) -> (r: Option<Vec<u8>>)
    ensures
        match r {
            Some(v) => header_values(*h).contains_key(lower(name@)) && header_values(
                *h,
            )[lower(name@)].len() > 0 && v@ == header_values(*h)[lower(name@)][0],
            None => !header_values(*h).contains_key(lower(name@)),
        },
{
    h.get(name).map(|v| v.as_bytes().to_vec())
}

/// `HeaderMap::contains_key`: whether there is a header of the name, in any
/// case.
#[verifier::external_body]
fn header_has(h: &HeaderMap<HeaderValue>, name: &str) -> (r: bool)
    ensures
        r == header_values(*h).contains_key(lower(name@)),
{
    h.contains_key(name)
}

/// `HeaderMap::remove`: removes all values of a header; the case of the name
/// does not matter.
#[verifier::external_body]
fn header_remove(h: &mut HeaderMap<HeaderValue>, name: &str)
    ensures
        header_values(*final(h)) == header_values(*old(h)).remove(lower(name@)),
{
    h.remove(name);
}

/// `HeaderName::from_bytes`, `HeaderValue::from_str` and
/// `HeaderMap::try_insert`: the header has this one value afterwards, unless
/// the name or the value is not well-formed or the map is full. A map of at
/// most `HEADER_ROOM` names is never full.
#[verifier::external_body]
fn header_set(h: &mut HeaderMap<HeaderValue>, name: &str, value: &str) -> (r: bool)
    ensures
        header_values(*final(h)) == if r {
            header_values(*old(h)).insert(lower(name@), seq![encode_utf8(value@)])
        } else {
            header_values(*old(h))
        },
        r ==> is_token(name@) && is_header_value(value@),
        is_token(name@) && is_header_value(value@) && has_room(header_values(*old(h)), 1) ==> r,
{
    match (HeaderName::from_bytes(name.as_bytes()), HeaderValue::from_str(value)) {
        (Ok(n), Ok(v)) => h.try_insert(n, v).is_ok(),
        _ => false,
    }
}

/// `HeaderName::from_bytes`: the lower-case form of a text that is a header
/// name.
#[verifier::external_body]
fn header_name(s: &str) -> (r: Option<String>)
    ensures
        match r {
            Some(n) => is_token(s@) && n@ == lower(s@),
            None => !is_token(s@),
        },
{
    HeaderName::from_bytes(s.as_bytes()).ok().map(|n| n.as_str().to_string())
}

// ---------------------------------------------------------------------------
// Reading values
// ---------------------------------------------------------------------------

/// A byte of a value that can be read as text.
pub open spec fn visible_byte(b: u8) -> bool {
    (32 <= b < 127) || b == 9
}

/// A value read as text, if it can be.
pub open spec fn value_text(bytes: Seq<u8>) -> Option<Seq<char>> {
    if forall|i: int| 0 <= i < bytes.len() ==> visible_byte(#[trigger] bytes[i]) {
        Some(Seq::new(bytes.len(), |i: int| bytes[i] as char))
    } else {
        None
    }
}

/// The text of the first value of a header, if it has one that can be read.
pub open spec fn header_text(h: Map<Seq<char>, Seq<Seq<u8>>>, name: Seq<char>) -> Option<
    Seq<char>,
> {
    if h.contains_key(name) {
        value_text(h[name][0])
    } else {
        None
    }
}

/// A value read as text, if it can be.
pub fn read_value(bytes: &Vec<u8>) -> (r: Option<Vec<char>>)
    ensures
        match r {
            Some(t) => value_text(bytes@) == Some(t@),
            None => value_text(bytes@) is None,
        },
{
    let mut out: Vec<char> = Vec::new();
    let mut i: usize = 0;
    while i < bytes.len()
        invariant
            i <= bytes@.len(),
            forall|j: int| 0 <= j < i ==> visible_byte(#[trigger] bytes@[j]),
            out@ =~= Seq::new(i as nat, |j: int| bytes@[j] as char),
        decreases bytes@.len() - i,
    {
        let b: u8 = bytes[i];
        if !((32 <= b && b < 127) || b == 9) {
            return None;
        }
        out.push(b as char);
        i += 1;
    }
    Some(out)
}

/// The text of the first value of a header, if it has one that can be read.
pub fn get_text(h: &HeaderMap<HeaderValue>, name: &str) -> (r: Option<Vec<char>>)
    requires
        lower(name@) == name@,
    ensures
        match r {
            Some(t) => header_text(header_values(*h), name@) == Some(t@),
            None => header_text(header_values(*h), name@) is None,
        },
{
    match header_get(h, name) {
        Some(v) => read_value(&v),
        None => None,
    }
}

/// Whether there is a header of the given name.
pub fn is_present(h: &HeaderMap<HeaderValue>, name: &str) -> (r: bool)
    requires
        is_header_name(name@),
    ensures
        r == header_values(*h).contains_key(name@),
{
    proof {
        lemma_name(name@);
    }
    header_has(h, name)
}

// ---------------------------------------------------------------------------
// Writing values
// ---------------------------------------------------------------------------

/// The headers after setting one; a value that is not well-formed sets nothing.
pub open spec fn with_header(
    h: Map<Seq<char>, Seq<Seq<u8>>>,
    name: Seq<char>,
    value: Seq<char>,
) -> Map<Seq<char>, Seq<Seq<u8>>> {
    if is_header_value(value) {
        h.insert(name, seq![encode_utf8(value)])
    } else {
        h
    }
}

/// Setting a header keeps room for the others.
pub proof fn lemma_room(
    h: Map<Seq<char>, Seq<Seq<u8>>>,
    name: Seq<char>,
    value: Seq<char>,
    n: nat,
)
    requires
        has_room(h, n + 1),
    ensures
        has_room(with_header(h, name, value), n),
{
    if is_header_value(value) {
        let g = h.insert(name, seq![encode_utf8(value)]);
        assert(g.dom() =~= h.dom().insert(name));
    }
}

/// A header name in lower case is a header name.
pub proof fn lemma_name(s: Seq<char>)
    requires
        is_header_name(s),
    ensures
        is_token(s),
        lower(s) == s,
{
    assert forall|i: int| 0 <= i < s.len() implies token_char(#[trigger] s[i]) by {
        assert(lower_token_char(s[i]));
    }
    assert forall|i: int| 0 <= i < s.len() implies lower(s)[i] == s[i] by {
        assert(lower_token_char(s[i]));
    }
    assert(lower(s) =~= s);
}

/// Sets a header to one value, unless the value is not well-formed.
pub fn set_header(headers: &mut HeaderMap<HeaderValue>, name: &str, value: &str)
    requires
        is_header_name(name@),
    ensures
        has_room(header_values(*old(headers)), 1) ==> header_values(*final(headers))
            == with_header(header_values(*old(headers)), name@, value@),
        header_values(*final(headers)) == header_values(*old(headers)) || header_values(
            *final(headers),
        ) == with_header(header_values(*old(headers)), name@, value@),
{
    proof {
        lemma_name(name@);
    }
    let _set = header_set(headers, name, value);
}

/// The header names that the proxy uses are well-formed.
pub proof fn lemma_known_names()
    ensures
        is_header_name("x-forwarded-for"@),
        is_header_name("x-forwarded-proto"@),
        is_header_name("x-forwarded-host"@),
        is_header_name("forwarded"@),
        is_header_name("x-request-id"@),
        is_header_name("strict-transport-security"@),
        is_header_name("content-type"@),
        is_header_name("location"@),
        is_header_name("host"@),
        is_header_name("content-length"@),
        is_header_name("connection"@),
        is_header_name("proxy-connection"@),
        is_header_name("keep-alive"@),
        is_header_name("proxy-authenticate"@),
        is_header_name("proxy-authorization"@),
        is_header_name("te"@),
        is_header_name("trailer"@),
        is_header_name("transfer-encoding"@),
        is_header_name("upgrade"@),
{
    assert(is_header_name("x-forwarded-for"@)) by {
        reveal_strlit("x-forwarded-for");
    }
    assert(is_header_name("x-forwarded-proto"@)) by {
        reveal_strlit("x-forwarded-proto");
    }
    assert(is_header_name("x-forwarded-host"@)) by {
        reveal_strlit("x-forwarded-host");
    }
    assert(is_header_name("forwarded"@)) by {
        reveal_strlit("forwarded");
    }
    assert(is_header_name("x-request-id"@)) by {
        reveal_strlit("x-request-id");
    }
    assert(is_header_name("strict-transport-security"@)) by {
        reveal_strlit("strict-transport-security");
    }
    assert(is_header_name("content-type"@)) by {
        reveal_strlit("content-type");
    }
    assert(is_header_name("location"@)) by {
        reveal_strlit("location");
    }
    assert(is_header_name("host"@)) by {
        reveal_strlit("host");
    }
    assert(is_header_name("content-length"@)) by {
        reveal_strlit("content-length");
    }
    assert(is_header_name("connection"@)) by {
        reveal_strlit("connection");
    }
    assert(is_header_name("proxy-connection"@)) by {
        reveal_strlit("proxy-connection");
    }
    assert(is_header_name("keep-alive"@)) by {
        reveal_strlit("keep-alive");
    }
    assert(is_header_name("proxy-authenticate"@)) by {
        reveal_strlit("proxy-authenticate");
    }
    assert(is_header_name("proxy-authorization"@)) by {
        reveal_strlit("proxy-authorization");
    }
    assert(is_header_name("te"@)) by {
        reveal_strlit("te");
    }
    assert(is_header_name("trailer"@)) by {
        reveal_strlit("trailer");
    }
    assert(is_header_name("transfer-encoding"@)) by {
        reveal_strlit("transfer-encoding");
    }
    assert(is_header_name("upgrade"@)) by {
        reveal_strlit("upgrade");
    }
}

// ---------------------------------------------------------------------------
// Hop-by-hop headers
// ---------------------------------------------------------------------------

/// Headers that must not be forwarded across a proxy hop.
pub open spec fn hop_by_hop() -> Seq<Seq<char>> {
    seq![
        "connection"@,
        "proxy-connection"@,
        "keep-alive"@,
        "proxy-authenticate"@,
        "proxy-authorization"@,
        "te"@,
        "trailer"@,
        "transfer-encoding"@,
        "upgrade"@,
    ]
}

/// Whether one of the first `n` parts of a list, without surrounding white
/// space, is a header name.
pub open spec fn part_names(parts: Seq<Seq<char>>, n: int, name: Seq<char>) -> bool {
    exists|j: int|
        0 <= j < n && is_token(trim(#[trigger] parts[j])) && lower(trim(parts[j])) == name
}

/// Whether the `Connection` header names a header.
pub open spec fn connection_names(h: Map<Seq<char>, Seq<Seq<u8>>>, name: Seq<char>) -> bool {
    match header_text(h, "connection"@) {
        Some(text) => part_names(split(text, ','), split(text, ',').len() as int, name),
        None => false,
    }
}

/// Whether one of the first `n` strings is the given text.
spec fn among(strings: Seq<String>, n: int, name: Seq<char>) -> bool {
    exists|k: int| 0 <= k < n && (#[trigger] strings[k])@ == name
}

/// Whether one of the first `n` hop-by-hop names is the given text.
spec fn hop_among(n: int, name: Seq<char>) -> bool {
    exists|k: int| 0 <= k < n && #[trigger] hop_by_hop()[k] == name
}

/// The headers without those that concern only one hop.
pub open spec fn without_hop_by_hop(h: Map<Seq<char>, Seq<Seq<u8>>>) -> Map<
    Seq<char>,
    Seq<Seq<u8>>,
> {
    h.restrict(
        Set::new(|n: Seq<char>| !hop_by_hop().contains(n) && !connection_names(h, n)),
    )
}

/// The names of the hop-by-hop headers.
fn hop_names() -> (r: Vec<&'static str>)
    ensures
        r@.len() == hop_by_hop().len(),
        forall|i: int| 0 <= i < r@.len() ==> (#[trigger] r@[i])@ == hop_by_hop()[i],
{
    let mut out: Vec<&'static str> = Vec::new();
    out.push("connection");
    out.push("proxy-connection");
    out.push("keep-alive");
    out.push("proxy-authenticate");
    out.push("proxy-authorization");
    out.push("te");
    out.push("trailer");
    out.push("transfer-encoding");
    out.push("upgrade");
    out
}

/// Removes the headers that concern only one hop, including those that the
/// `Connection` header names.
pub fn strip_hop_by_hop(headers: &mut HeaderMap<HeaderValue>)
    ensures
        header_values(*final(headers)) == without_hop_by_hop(header_values(*old(headers))),
{
    let ghost h0 = header_values(*headers);
    proof {
        lemma_known_names();
        lemma_name("connection"@);
    }
    let named = connection_tokens(headers);
    let hops = hop_names();
    let mut k: usize = 0;
    while k < hops.len()
        invariant
            k <= hops@.len(),
            hops@.len() == hop_by_hop().len(),
            forall|i: int| 0 <= i < hops@.len() ==> (#[trigger] hops@[i])@ == hop_by_hop()[i],
            forall|n: Seq<char>| #[trigger]
                header_values(*headers).contains_key(n) <==> h0.contains_key(n) && !hop_among(
                    k as int,
                    n,
                ),
            forall|n: Seq<char>| #[trigger]
                header_values(*headers).contains_key(n) ==> header_values(*headers)[n] == h0[n],
        decreases hops@.len() - k,
    {
        proof {
            lemma_known_names();
            lemma_name(hop_by_hop()[k as int]);
        }
        let ghost before = header_values(*headers);
        header_remove(headers, hops[k]);
        proof {
            assert forall|n: Seq<char>| #[trigger]
                header_values(*headers).contains_key(n) <==> h0.contains_key(n) && !hop_among(
                    k + 1,
                    n,
                ) by {
                if n == hop_by_hop()[k as int] {
                    assert(hop_among(k + 1, n));
                } else {
                    assert(header_values(*headers).contains_key(n) == before.contains_key(n));
                    if hop_among(k + 1, n) {
                        let j = choose|j: int| 0 <= j < k + 1 && #[trigger] hop_by_hop()[j] == n;
                        assert(hop_among(k as int, n));
                    }
                    if hop_among(k as int, n) {
                        let j = choose|j: int| 0 <= j < k && #[trigger] hop_by_hop()[j] == n;
                        assert(hop_among(k + 1, n));
                    }
                }
            }
        }
        k += 1;
    }
    let ghost h1 = header_values(*headers);
    let mut m: usize = 0;
    while m < named.len()
        invariant
            m <= named@.len(),
            forall|j: int| 0 <= j < named@.len() ==> lower((#[trigger] named@[j])@) == named@[j]@,
            forall|n: Seq<char>| #[trigger]
                header_values(*headers).contains_key(n) <==> h1.contains_key(n) && !among(
                    named@,
                    m as int,
                    n,
                ),
            forall|n: Seq<char>| #[trigger]
                header_values(*headers).contains_key(n) ==> header_values(*headers)[n] == h1[n],
        decreases named@.len() - m,
    {
        let ghost before = header_values(*headers);
        header_remove(headers, named[m].as_str());
        proof {
            assert forall|n: Seq<char>| #[trigger]
                header_values(*headers).contains_key(n) <==> h1.contains_key(n) && !among(
                    named@,
                    m + 1,
                    n,
                ) by {
                lemma_among_next(named@, m as int, n);
                if n != named@[m as int]@ {
                    assert(header_values(*headers).contains_key(n) == before.contains_key(n));
                }
            }
        }
        m += 1;
    }
    proof {
        let end = header_values(*headers);
        let want = without_hop_by_hop(h0);
        assert forall|n: Seq<char>| #[trigger] end.contains_key(n) <==> want.contains_key(n) by {
            assert(hop_among(hop_by_hop().len() as int, n) <==> hop_by_hop().contains(n)) by {
                if hop_by_hop().contains(n) {
                    let j = choose|j: int|
                        0 <= j < hop_by_hop().len() && hop_by_hop()[j] == n;
                    assert(hop_by_hop()[j] == n);
                }
            }
            assert(among(named@, named@.len() as int, n) == connection_names(h0, n));
        }
        assert forall|n: Seq<char>| #[trigger] end.contains_key(n) implies end[n] == want[n] by {
            assert(h1.contains_key(n));
        }
        assert(end =~= want);
    }
}

proof fn lemma_among_next(strings: Seq<String>, n: int, name: Seq<char>)
    requires
        0 <= n < strings.len(),
    ensures
        among(strings, n + 1, name) <==> among(strings, n, name) || strings[n]@ == name,
{
    if among(strings, n, name) {
        let k = choose|k: int| 0 <= k < n && (#[trigger] strings[k])@ == name;
        assert(strings[k]@ == name);
    }
    if among(strings, n + 1, name) {
        let k = choose|k: int| 0 <= k < n + 1 && (#[trigger] strings[k])@ == name;
        if k < n {
            assert(among(strings, n, name));
        }
    }
}

proof fn lemma_part_names_next(parts: Seq<Seq<char>>, n: int, name: Seq<char>)
    requires
        0 <= n < parts.len(),
    ensures
        part_names(parts, n + 1, name) <==> part_names(parts, n, name) || (is_token(
            trim(parts[n]),
        ) && lower(trim(parts[n])) == name),
{
    if part_names(parts, n, name) {
        let j = choose|j: int|
            0 <= j < n && is_token(trim(#[trigger] parts[j])) && lower(trim(parts[j])) == name;
        assert(is_token(trim(parts[j])));
    }
    if part_names(parts, n + 1, name) {
        let j = choose|j: int|
            0 <= j < n + 1 && is_token(trim(#[trigger] parts[j])) && lower(trim(parts[j])) == name;
        if j < n {
            assert(part_names(parts, n, name));
        }
    }
}

/// The header names listed in the `Connection` header, in lower case.
fn connection_tokens(headers: &HeaderMap<HeaderValue>) -> (r: Vec<String>)
    ensures
        forall|n: Seq<char>| #[trigger]
            among(r@, r@.len() as int, n) <==> connection_names(header_values(*headers), n),
        forall|j: int| 0 <= j < r@.len() ==> lower((#[trigger] r@[j])@) == r@[j]@,
{
    proof {
        lemma_known_names();
        lemma_name("connection"@);
    }
    let mut named: Vec<String> = Vec::new();
    let text = match get_text(headers, "connection") {
        Some(text) => text,
        None => {
            return named;
        },
    };
    let pieces = split_chars(text.as_slice(), ',');
    let ghost parts = split(text@, ',');
    assert(parts.len() == pieces@.len());
    let mut i: usize = 0;
    while i < pieces.len()
        invariant
            i <= pieces@.len(),
            parts == pieces@.map_values(|v: Vec<char>| v@),
            forall|n: Seq<char>| #[trigger]
                among(named@, named@.len() as int, n) <==> part_names(parts, i as int, n),
            forall|j: int| 0 <= j < named@.len() ==> lower((#[trigger] named@[j])@) == named@[j]@,
        decreases pieces@.len() - i,
    {
        let piece = string_of(trim_chars(pieces[i].as_slice()));
        let ghost before = named@;
        assert(parts[i as int] == pieces@[i as int]@);
        let found = header_name(piece.as_str());
        match found {
            Some(n) => {
                proof {
                    lemma_lower_idempotent(piece@);
                }
                named.push(n);
            },
            None => {},
        }
        proof {
            assert forall|n: Seq<char>| #[trigger]
                among(named@, named@.len() as int, n) <==> part_names(parts, i + 1, n) by {
                lemma_part_names_next(parts, i as int, n);
                assert(among(before, before.len() as int, n) <==> part_names(parts, i as int, n));
                if found is Some {
                    lemma_among_next(named@, before.len() as int, n);
                    assert(among(named@, before.len() as int, n) == among(
                        before,
                        before.len() as int,
                        n,
                    )) by {
                        if among(before, before.len() as int, n) {
                            let k = choose|k: int|
                                0 <= k < before.len() && (#[trigger] before[k])@ == n;
                            assert(named@[k]@ == n);
                        }
                        if among(named@, before.len() as int, n) {
                            let k = choose|k: int|
                                0 <= k < before.len() && (#[trigger] named@[k])@ == n;
                            assert(before[k]@ == n);
                        }
                    }
                }
            }
        }
        i += 1;
    }
    named
}

/// Hop-by-hop headers never cross the proxy, nor does a header that the
/// `Connection` header names; every other header is kept with its values.
pub proof fn law_hop_by_hop_is_removed(h: Map<Seq<char>, Seq<Seq<u8>>>, name: Seq<char>)
    ensures
        hop_by_hop().contains(name) || connection_names(h, name) ==> !without_hop_by_hop(
            h,
        ).contains_key(name),
        !hop_by_hop().contains(name) && !connection_names(h, name) && h.contains_key(name)
            ==> without_hop_by_hop(h).contains_key(name) && without_hop_by_hop(h)[name] == h[name],
{
}

/// Removing hop-by-hop headers twice is removing them once.
pub proof fn law_strip_is_idempotent(h: Map<Seq<char>, Seq<Seq<u8>>>)
    ensures
        without_hop_by_hop(without_hop_by_hop(h)) == without_hop_by_hop(h),
{
    let once = without_hop_by_hop(h);
    assert(hop_by_hop()[0] == "connection"@);
    assert(hop_by_hop().contains("connection"@));
    assert(without_hop_by_hop(once) =~= once);
}

// ---------------------------------------------------------------------------
// Forwarding headers
// ---------------------------------------------------------------------------

/// The `X-Forwarded-For` value: the client is added to the chain so far.
pub open spec fn forwarded_for(h: Map<Seq<char>, Seq<Seq<u8>>>, client: Seq<char>) -> Seq<char> {
    match header_text(h, "x-forwarded-for"@) {
        Some(existing) => existing + ", "@ + client,
        None => client,
    }
}

/// Adds the client to `X-Forwarded-For`.
pub fn append_forwarded_for(headers: &mut HeaderMap<HeaderValue>, client_ip: &str)
    ensures
        has_room(header_values(*old(headers)), 1) ==> header_values(*final(headers))
            == with_header(
            header_values(*old(headers)),
            "x-forwarded-for"@,
            forwarded_for(header_values(*old(headers)), client_ip@),
        ),
        header_values(*final(headers)) == header_values(*old(headers)) || header_values(
            *final(headers),
        ) == with_header(
            header_values(*old(headers)),
            "x-forwarded-for"@,
            forwarded_for(header_values(*old(headers)), client_ip@),
        ),
{
    proof {
        lemma_known_names();
        lemma_name("x-forwarded-for"@);
    }
    let new = match get_text(headers, "x-forwarded-for") {
        Some(existing) => {
            let text = string_of(existing.as_slice());
            join3(text.as_str(), ", ", client_ip)
        },
        None => owned(client_ip),
    };
    set_header(headers, "x-forwarded-for", new.as_str());
}

/// Methods that are safe to retry on a pre-response failure.
pub open spec fn idempotent(method: Seq<char>) -> bool {
    ||| method == "GET"@
    ||| method == "HEAD"@
    ||| method == "OPTIONS"@
    ||| method == "TRACE"@
    ||| method == "DELETE"@
}

/// Idempotent methods that are safe to retry on a pre-response failure.
pub fn is_idempotent(method: &str) -> (r: bool)
    ensures
        r == idempotent(method@),
{
    str_eq(method, "GET") || str_eq(method, "HEAD") || str_eq(method, "OPTIONS") || str_eq(
        method,
        "TRACE",
    ) || str_eq(method, "DELETE")
}

/// Whether the headers say that there is no body: a content length of zero,
/// or neither a content length nor a transfer encoding.
pub open spec fn bodyless(h: Map<Seq<char>, Seq<Seq<u8>>>) -> bool {
    ||| match header_text(h, "content-length"@) {
        Some(t) => read_unsigned(t, u64::MAX as nat) == Ok::<nat, crate::number::NumberError>(0),
        None => false,
    }
    ||| !h.contains_key("content-length"@) && !h.contains_key("transfer-encoding"@)
}

/// Whether the request carries no body (so it is trivially safe to retry).
pub fn body_is_empty(headers: &HeaderMap<HeaderValue>) -> (r: bool)
    ensures
        r == bodyless(header_values(*headers)),
{
    proof {
        lemma_known_names();
        lemma_name("content-length"@);
        lemma_name("transfer-encoding"@);
    }
    let zero = match get_text(headers, "content-length") {
        Some(t) => match read_u64(t.as_slice()) {
            Ok(n) => n == 0,
            Err(_) => false,
        },
        None => false,
    };
    zero || (!header_has(headers, "content-length") && !header_has(headers, "transfer-encoding"))
}

// ---------------------------------------------------------------------------
// Laws of headers
// ---------------------------------------------------------------------------

/// Whether a text is made of printable ASCII characters.
pub open spec fn is_plain(s: Seq<char>) -> bool {
    forall|i: int| 0 <= i < s.len() ==> ' ' <= (#[trigger] s[i]) <= '~'
}

/// The bytes of a text of ASCII characters, one for each.
pub open spec fn plain_bytes(s: Seq<char>) -> Seq<u8> {
    Seq::new(s.len(), |i: int| s[i] as u8)
}

/// Printable ASCII text is a header value, and its bytes are its characters.
pub proof fn lemma_plain(s: Seq<char>)
    requires
        is_plain(s),
    ensures
        encode_utf8(s) == plain_bytes(s),
        is_header_value(s),
    decreases s.len(),
{
    if s.len() > 0 {
        let rest = s.drop_first();
        assert forall|i: int| 0 <= i < rest.len() implies ' ' <= (#[trigger] rest[i]) <= '~' by {
            assert(rest[i] == s[i + 1]);
        }
        lemma_plain(rest);
        assert(' ' <= s[0] <= '~');
        let c = s[0] as u32;
        assert(c & 0x7f == c) by (bit_vector)
            requires
                c <= 0x7e,
        ;
        assert(encode_utf8(s) =~= seq![s[0] as u8] + encode_utf8(rest));
        assert(encode_utf8(s) =~= plain_bytes(s));
        assert forall|i: int| 0 <= i < encode_utf8(s).len() implies value_byte(
            #[trigger] encode_utf8(s)[i],
        ) by {
            assert(' ' <= s[i] <= '~');
        }
    } else {
        assert(encode_utf8(s) =~= plain_bytes(s));
    }
}

/// Printable ASCII texts put together are printable ASCII text.
pub proof fn lemma_plain_parts(a: Seq<char>, b: Seq<char>)
    requires
        is_plain(a),
        is_plain(b),
    ensures
        is_plain(a + b),
{
    assert forall|i: int| 0 <= i < (a + b).len() implies ' ' <= (#[trigger] (a + b)[i]) <= '~' by {
        if i < a.len() {
            assert((a + b)[i] == a[i]);
        } else {
            assert((a + b)[i] == b[i - a.len()]);
        }
    }
}

/// A header that is set to printable text has that text as its only value
/// afterwards, and no other header changes. A text with a control character
/// other than the tab sets nothing.
pub proof fn law_set_header_sets_one(
    h: Map<Seq<char>, Seq<Seq<u8>>>,
    name: Seq<char>,
    value: Seq<char>,
    other: Seq<char>,
    i: int,
)
    ensures
        is_plain(value) ==> with_header(h, name, value).contains_key(name) && with_header(
            h,
            name,
            value,
        )[name] == seq![plain_bytes(value)],
        other != name ==> with_header(h, name, value).contains_key(other) == h.contains_key(other)
            && with_header(h, name, value)[other] == h[other],
        0 <= i < encode_utf8(value).len() && (encode_utf8(value)[i] < 32 && encode_utf8(value)[i]
            != 9 || encode_utf8(value)[i] == 127) ==> with_header(h, name, value) == h,
        !(exists|k: int|
            0 <= k < encode_utf8(value).len() && ((#[trigger] encode_utf8(value)[k]) < 32
                && encode_utf8(value)[k] != 9 || encode_utf8(value)[k] == 127)) ==> with_header(
            h,
            name,
            value,
        ) == h.insert(name, seq![encode_utf8(value)]),
{
    if is_plain(value) {
        lemma_plain(value);
    }
    if 0 <= i < encode_utf8(value).len() && (encode_utf8(value)[i] < 32 && encode_utf8(value)[i]
        != 9 || encode_utf8(value)[i] == 127) {
        assert(!value_byte(encode_utf8(value)[i]));
    }
    if !is_header_value(value) {
        let k = choose|k: int|
            0 <= k < encode_utf8(value).len() && !value_byte(#[trigger] encode_utf8(value)[k]);
        assert(encode_utf8(value)[k] < 32 && encode_utf8(value)[k] != 9 || encode_utf8(value)[k]
            == 127);
    }
}

/// There is room in every map of so many headers as any client sends.
pub proof fn law_usual_maps_have_room(h: Map<Seq<char>, Seq<Seq<u8>>>, n: nat)
    requires
        h.dom().finite(),
        h.len() + n <= 6554,
    ensures
        has_room(h, n),
{
}

/// A value is readable exactly when all of its bytes are printable ASCII or
/// tabs, and then it reads as those characters.
pub proof fn law_readable_values(bytes: Seq<u8>)
    ensures
        value_text(bytes) is Some <==> forall|i: int|
            0 <= i < bytes.len() ==> (#[trigger] bytes[i]) == 9 || 32 <= bytes[i] <= 126,
        value_text(bytes) matches Some(t) ==> t.len() == bytes.len() && forall|i: int|
            0 <= i < t.len() ==> (#[trigger] t[i]) as int == bytes[i] as int,
{
    if forall|i: int| 0 <= i < bytes.len() ==> (#[trigger] bytes[i]) == 9 || 32 <= bytes[i] <= 126 {
        assert forall|i: int| 0 <= i < bytes.len() implies visible_byte(#[trigger] bytes[i]) by {}
    }
    if value_text(bytes) is Some {
        assert forall|i: int| 0 <= i < bytes.len() implies (#[trigger] bytes[i]) == 9 || 32
            <= bytes[i] <= 126 by {
            assert(visible_byte(bytes[i]));
        }
        let t = value_text(bytes)->0;
        assert forall|i: int| 0 <= i < t.len() implies (#[trigger] t[i]) as int
            == bytes[i] as int by {
            assert(visible_byte(bytes[i]));
        }
    }
}

/// The text of a printable value is read back.
pub proof fn lemma_plain_reads(s: Seq<char>)
    requires
        is_plain(s),
    ensures
        value_text(plain_bytes(s)) == Some(s),
{
    let b = plain_bytes(s);
    assert forall|i: int| 0 <= i < b.len() implies visible_byte(#[trigger] b[i]) by {
        assert(' ' <= s[i] <= '~');
    }
    assert(value_text(b)->0 =~= s) by {
        assert forall|i: int| 0 <= i < s.len() implies (b[i] as char) == s[i] by {
            assert(' ' <= s[i] <= '~');
        }
    }
}

/// The headers of one hop: these nine never cross the proxy. A header that is
/// none of them is kept with all of its values, unless a part of the
/// `Connection` list is its name.
pub proof fn law_nine_headers_never_cross(h: Map<Seq<char>, Seq<Seq<u8>>>, name: Seq<char>)
    ensures
        ({
            let kept = without_hop_by_hop(h);
            let nine = name == "connection"@ || name == "proxy-connection"@ || name
                == "keep-alive"@ || name == "proxy-authenticate"@ || name
                == "proxy-authorization"@ || name == "te"@ || name == "trailer"@ || name
                == "transfer-encoding"@ || name == "upgrade"@;
            &&& nine ==> !kept.contains_key(name)
            &&& kept.contains_key(name) ==> h.contains_key(name) && kept[name] == h[name]
            &&& !nine && h.contains_key(name) && !kept.contains_key(name) ==> {
                &&& h.contains_key("connection"@)
                &&& value_text(h["connection"@][0]) matches Some(t)
                &&& exists|j: int|
                    0 <= j < split(t, ',').len() && lower(trim(#[trigger] split(t, ',')[j])) == name
            }
        }),
{
    let hops = hop_by_hop();
    assert(hops[0] == "connection"@ && hops[1] == "proxy-connection"@ && hops[2] == "keep-alive"@
        && hops[3] == "proxy-authenticate"@ && hops[4] == "proxy-authorization"@ && hops[5]
        == "te"@ && hops[6] == "trailer"@ && hops[7] == "transfer-encoding"@ && hops[8]
        == "upgrade"@);
    if hops.contains(name) {
        let j = choose|j: int| 0 <= j < hops.len() && hops[j] == name;
        assert(0 <= j < 9);
    }
    if h.contains_key(name) && !without_hop_by_hop(h).contains_key(name) && !hops.contains(name) {
        let t = header_text(h, "connection"@)->0;
        let parts = split(t, ',');
        let j = choose|j: int|
            0 <= j < parts.len() && is_token(trim(#[trigger] parts[j])) && lower(trim(parts[j]))
                == name;
        assert(lower(trim(split(t, ',')[j])) == name);
    }
}

/// A header whose name stands in the `Connection` list, alone or between
/// commas, in any case and with spaces around it, does not cross the proxy.
pub proof fn law_connection_list_is_removed(
    h: Map<Seq<char>, Seq<Seq<u8>>>,
    pre: Seq<char>,
    left: Seq<char>,
    token: Seq<char>,
    right: Seq<char>,
    post: Seq<char>,
)
    requires
        ({
            let text = pre + (left + token + right) + post;
            &&& h.contains_key("connection"@)
            &&& is_plain(text)
            &&& h["connection"@][0] == plain_bytes(text)
        }),
        pre.len() == 0 || pre.last() == ',',
        post.len() == 0 || post[0] == ',',
        forall|i: int| 0 <= i < left.len() ==> (#[trigger] left[i]) == ' ',
        forall|i: int| 0 <= i < right.len() ==> (#[trigger] right[i]) == ' ',
        0 < token.len() <= 65535,
        forall|i: int|
            0 <= i < token.len() ==> 'a' <= (#[trigger] token[i]) <= 'z' || 'A' <= token[i] <= 'Z'
                || '0' <= token[i] <= '9' || token[i] == '-',
    ensures
        !without_hop_by_hop(h).contains_key(lower(token)),
{
    let seg = left + token + right;
    let text = pre + seg + post;
    lemma_plain_reads(text);
    assert forall|i: int| 0 <= i < token.len() implies token_char(#[trigger] token[i]) by {
        assert('a' <= token[i] <= 'z' || 'A' <= token[i] <= 'Z' || '0' <= token[i] <= '9'
            || token[i] == '-');
    }
    assert(token_char(token[0]) && token_char(token.last()));
    assert(!seg.contains(',')) by {
        assert forall|i: int| 0 <= i < seg.len() implies seg[i] != ',' by {
            if i < left.len() {
                assert(seg[i] == left[i]);
            } else if i < left.len() + token.len() {
                assert(seg[i] == token[i - left.len()]);
                assert(token_char(token[i - left.len()]));
            } else {
                assert(seg[i] == right[i - left.len() - token.len()]);
            }
        }
    }
    assert forall|i: int| 0 <= i < left.len() implies is_space(#[trigger] left[i]) by {
        assert(left[i] == ' ');
    }
    assert forall|i: int| 0 <= i < right.len() implies is_space(#[trigger] right[i]) by {
        assert(right[i] == ' ');
    }
    assert(!is_space(token[0]) && !is_space(token.last()));
    law_trim_finds_the_text(left, token, right);
    law_split_without_separator(seg, ',');
    // The part of the list from the segment on.
    let tail = seg + post;
    let tail_parts = split(tail, ',');
    if post.len() > 0 {
        let more = post.skip(1);
        assert(tail =~= seg.push(',') + more);
        law_split_at_separator(seg, more, ',');
        assert(tail_parts[0] == seg);
    } else {
        assert(tail =~= seg);
    }
    assert(tail_parts[0] == seg);
    let parts = split(text, ',');
    let at: int = if pre.len() > 0 {
        let first = pre.drop_last();
        assert(text =~= first.push(',') + tail);
        law_split_at_separator(first, tail, ',');
        split(first, ',').len() as int
    } else {
        assert(text =~= tail);
        0
    };
    assert(parts[at] == seg);
    assert(is_token(trim(parts[at])));
    assert(part_names(parts, parts.len() as int, lower(token)));
    assert(header_text(h, "connection"@) == Some(text));
    assert(connection_names(h, lower(token)));
}

/// The client address is added behind the chain so far, and is the whole chain
/// where there is none that can be read.
pub proof fn law_forwarded_for_grows(
    h: Map<Seq<char>, Seq<Seq<u8>>>,
    chain: Seq<char>,
    client: Seq<char>,
)
    ensures
        h.contains_key("x-forwarded-for"@) && is_plain(chain) && h["x-forwarded-for"@][0]
            == plain_bytes(chain) ==> forwarded_for(h, client) == chain + ", "@ + client,
        !h.contains_key("x-forwarded-for"@) ==> forwarded_for(h, client) == client,
{
    if is_plain(chain) {
        lemma_plain_reads(chain);
    }
}

/// Only the five methods without effects of their own count as safe to retry.
pub proof fn law_idempotent_methods(method: Seq<char>)
    ensures
        idempotent(method) <==> seq!["GET"@, "HEAD"@, "OPTIONS"@, "TRACE"@, "DELETE"@].contains(
            method,
        ),
        method == "POST"@ || method == "PUT"@ || method == "PATCH"@ || method == "CONNECT"@
            ==> !idempotent(method),
{
    let all = seq!["GET"@, "HEAD"@, "OPTIONS"@, "TRACE"@, "DELETE"@];
    assert(all[0] == "GET"@ && all[1] == "HEAD"@ && all[2] == "OPTIONS"@ && all[3] == "TRACE"@
        && all[4] == "DELETE"@);
    if all.contains(method) {
        let i = choose|i: int| 0 <= i < all.len() && all[i] == method;
        assert(0 <= i < 5);
    }
    reveal_strlit("GET");
    reveal_strlit("HEAD");
    reveal_strlit("OPTIONS");
    reveal_strlit("TRACE");
    reveal_strlit("DELETE");
    reveal_strlit("POST");
    reveal_strlit("PUT");
    reveal_strlit("PATCH");
    reveal_strlit("CONNECT");
    assert("PUT"@[0] == 'P' && "POST"@[0] == 'P' && "PATCH"@[0] == 'P' && "CONNECT"@[0] == 'C');
    assert("GET"@[0] == 'G' && "HEAD"@[0] == 'H' && "OPTIONS"@[0] == 'O' && "TRACE"@[0] == 'T'
        && "DELETE"@[0] == 'D');
}

/// A request has no body where its headers announce none: neither a length nor
/// an encoding, or a length of zeros. One with an encoding and no length has
/// one, and so has one with a length in which another digit stands.
pub proof fn law_bodies_are_announced(
    h: Map<Seq<char>, Seq<Seq<u8>>>,
    digits: Seq<char>,
)
    ensures
        !h.contains_key("content-length"@) ==> (bodyless(h) <==> !h.contains_key(
            "transfer-encoding"@,
        )),
        h.contains_key("content-length"@) && digits.len() > 0 && (forall|i: int|
            0 <= i < digits.len() ==> '0' <= (#[trigger] digits[i]) <= '9')
            && h["content-length"@][0] == plain_bytes(digits) ==> (bodyless(h) <==> forall|i: int|
            0 <= i < digits.len() ==> (#[trigger] digits[i]) == '0'),
{
    if h.contains_key("content-length"@) && digits.len() > 0 && (forall|i: int|
        0 <= i < digits.len() ==> '0' <= (#[trigger] digits[i]) <= '9') && h["content-length"@][0]
        == plain_bytes(digits) {
        assert(is_plain(digits)) by {
            assert forall|i: int| 0 <= i < digits.len() implies ' ' <= (#[trigger] digits[i])
                <= '~' by {}
        }
        lemma_plain_reads(digits);
        law_zeros_read_as_zero(digits, u64::MAX as nat);
    }
}

/// The text of a header is that of its first value, where it has one that can
/// be read.
pub proof fn law_header_texts(h: Map<Seq<char>, Seq<Seq<u8>>>, name: Seq<char>, text: Seq<char>)
    ensures
        !h.contains_key(name) ==> header_text(h, name) is None,
        h.contains_key(name) ==> header_text(h, name) == value_text(h[name][0]),
        h.contains_key(name) && is_plain(text) && h[name][0] == plain_bytes(text) ==> header_text(
            h,
            name,
        ) == Some(text),
{
    if is_plain(text) {
        lemma_plain_reads(text);
    }
}

/// The characters of header names are letters, digits and the signs that HTTP
/// allows, and a name has at least one of them.
pub proof fn law_header_names(s: Seq<char>, c: char, i: int)
    ensures
        token_char(c) <==> 'a' <= c <= 'z' || 'A' <= c <= 'Z' || '0' <= c <= '9'
            || "!#$%&'*+-.^_`|~"@.contains(c),
        !is_token(Seq::empty()),
        0 <= i < s.len() && !token_char(s[i]) ==> !is_token(s),
        0 < s.len() <= 65535 && (forall|k: int| 0 <= k < s.len() ==> token_char(#[trigger] s[k]))
            ==> is_token(s),
{
    reveal_strlit("!#$%&'*+-.^_`|~");
    let signs = "!#$%&'*+-.^_`|~"@;
    assert(signs[0] == '!' && signs[1] == '#' && signs[2] == '$' && signs[3] == '%' && signs[4]
        == '&' && signs[5] == '\'' && signs[6] == '*' && signs[7] == '+' && signs[8] == '-'
        && signs[9] == '.' && signs[10] == '^' && signs[11] == '_' && signs[12] == '`' && signs[13]
        == '|' && signs[14] == '~');
    if signs.contains(c) {
        let k = choose|k: int| 0 <= k < signs.len() && signs[k] == c;
        assert(0 <= k < 15);
    }
}

}
