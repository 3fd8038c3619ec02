//! Host and path matching primitives.

use crate::text::{
    chars_eq, chars_of, find_char, first_at, has_prefix, lemma_first_at, lemma_first_at_is, lower, str_eq,
    to_lower,
};
use vstd::prelude::*;
use vstd::slice::slice_subrange;

verus! {

/// Whether `host` is one non-empty label, a dot, and then `suffix`.
pub open spec fn one_label_above(host: Seq<char>, suffix: Seq<char>) -> bool {
    exists|label: Seq<char>|
        label.len() > 0 && !label.contains('.') && host == #[trigger] (label + "."@) + suffix
}

/// Whether a host pattern is a wildcard of the form `*.suffix`.
pub open spec fn is_wildcard(pattern: Seq<char>) -> bool {
    "*."@.is_prefix_of(pattern)
}

/// Whether a host pattern matches a request host.
pub open spec fn host_match(pattern: Seq<char>, host: Seq<char>) -> bool {
    if pattern == "*"@ {
        true
    } else if is_wildcard(pattern) {
        one_label_above(host, pattern.skip(2))
    } else {
        lower(pattern) == lower(host)
    }
}

/// Whether a path prefix matches a request path on segment boundaries.
pub open spec fn path_match(prefix: Seq<char>, path: Seq<char>) -> bool {
    ||| prefix.len() == 0
    ||| prefix == "/"@
    ||| {
        &&& prefix.is_prefix_of(path)
        &&& path.len() == prefix.len() || path[prefix.len() as int] == '/' || prefix.last() == '/'
    }
}

/// The suffix a wildcard must carry to match `host` is what follows the first
/// dot, and the label before that dot must not be empty.
pub proof fn lemma_one_label_above(host: Seq<char>, suffix: Seq<char>)
    ensures
        one_label_above(host, suffix) <==> 0 < first_at(host, '.') < host.len() && host.skip(
            first_at(host, '.') as int + 1,
        ) == suffix,
{
    reveal_strlit(".");
    lemma_first_at(host, '.');
    let d = first_at(host, '.') as int;
    if 0 < d < host.len() && host.skip(d + 1) == suffix {
        let label = host.take(d);
        assert(!label.contains('.'));
        assert(host =~= (label + "."@) + suffix);
    }
    if one_label_above(host, suffix) {
        let label = choose|label: Seq<char>|
            label.len() > 0 && !label.contains('.') && host == #[trigger] (label + "."@) + suffix;
        assert forall|j: int| 0 <= j < label.len() implies host[j] != '.' by {
            assert(label.contains(label[j]));
        }
        lemma_first_at_is(host, '.', label.len());
        assert(host.skip(d + 1) =~= suffix);
    }
}

/// Match a request host against a route host pattern.
///
/// Patterns:
/// - `*` matches any host.
/// - `*.example.org` matches a single extra label: `api.example.org` matches,
///   `example.org` and `a.b.example.org` do not.
/// - anything else is an exact (case-insensitive) match.
pub fn host_matches(pattern: &str, host: &str) -> (r: bool)
    ensures
        r == host_match(pattern@, host@),
{
    if str_eq(pattern, "*") {
        return true;
    }
    let p = chars_of(pattern);
    let h = chars_of(host);
    let star = chars_of("*.");
    if has_prefix(p.as_slice(), star.as_slice()) {
        proof {
            reveal_strlit("*.");
            lemma_one_label_above(host@, pattern@.skip(2));
            lemma_first_at(host@, '.');
        }
        let d = find_char(h.as_slice(), '.');
        if d == 0 || d == h.len() {
            return false;
        }
        let rest = slice_subrange(h.as_slice(), d + 1, h.len());
        let suffix = slice_subrange(p.as_slice(), 2, p.len());
        assert(rest@ =~= host@.skip(d + 1));
        assert(suffix@ =~= pattern@.skip(2));
        chars_eq(rest, suffix)
    } else {
        let a = to_lower(pattern);
        let b = to_lower(host);
        str_eq(a.as_str(), b.as_str())
    }
}

/// Returns `true` if `prefix` is a path prefix of `path`, respecting path
/// segment boundaries: `/api` matches `/api` and `/api/x` but not `/apix`.
/// A prefix ending in `/` matches purely as a string prefix.
pub fn path_prefix_matches(prefix: &str, path: &str) -> (r: bool)
    ensures
        r == path_match(prefix@, path@),
{
    let p = chars_of(prefix);
    if p.len() == 0 || str_eq(prefix, "/") {
        return true;
    }
    let s = chars_of(path);
    if has_prefix(s.as_slice(), p.as_slice()) {
        s.len() == p.len() || s[p.len()] == '/' || p[p.len() - 1] == '/'
    } else {
        false
    }
}

/// Prefixes that both match one path are nested: the shorter is a prefix of
/// the longer, unless one of them matches every path.
pub proof fn law_matching_prefixes_are_nested(a: Seq<char>, b: Seq<char>, path: Seq<char>)
    requires
        path_match(a, path),
        path_match(b, path),
        a.len() <= b.len(),
        a != "/"@,
        b != "/"@,
    ensures
        a.is_prefix_of(b),
{
    if a.len() > 0 {
        assert(path.subrange(0, b.len() as int).subrange(0, a.len() as int) =~= path.subrange(
            0,
            a.len() as int,
        ));
    } else {
        assert(a =~= b.subrange(0, 0));
    }
}

/// A wildcard stands for exactly one label: it matches a host that is one
/// non-empty label without a dot, a dot and the rest of the pattern, and no
/// other host, so not the bare domain.
pub proof fn law_wildcard_is_one_label(suffix: Seq<char>, label: Seq<char>, host: Seq<char>)
    ensures
        label.len() > 0 && !label.contains('.') ==> host_match(
            "*."@ + suffix,
            label + "."@ + suffix,
        ),
        !host_match("*."@ + suffix, suffix),
        host_match("*."@ + suffix, host) ==> {
            let n = host.len() - suffix.len() - 1;
            &&& n > 0
            &&& host[n] == '.'
            &&& host.skip(n + 1) == suffix
            &&& forall|i: int| 0 <= i < n ==> host[i] != '.'
        },
{
    reveal_strlit("*.");
    reveal_strlit("*");
    reveal_strlit(".");
    let p = "*."@ + suffix;
    assert(p.subrange(0, 2) =~= "*."@);
    assert(p.skip(2) =~= suffix);
    assert(p != "*"@) by {
        assert(p.len() >= 2);
    }
    if label.len() > 0 && !label.contains('.') {
        assert(one_label_above((label + "."@) + suffix, suffix));
    }
    if one_label_above(host, suffix) {
        let l = choose|l: Seq<char>|
            l.len() > 0 && !l.contains('.') && host == #[trigger] (l + "."@) + suffix;
        assert(host.skip(l.len() as int + 1) =~= suffix);
        assert forall|i: int| 0 <= i < l.len() implies host[i] != '.' by {
            assert(l.contains(l[i]));
        }
    }
    if one_label_above(suffix, suffix) {
        let l = choose|l: Seq<char>|
            l.len() > 0 && !l.contains('.') && suffix == #[trigger] (l + "."@) + suffix;
        assert(((l + "."@) + suffix).len() > suffix.len());
    }
}

/// The pattern `*` matches every host; a pattern that is no wildcard matches
/// the hosts that differ from it in case only.
pub proof fn law_plain_patterns(pattern: Seq<char>, host: Seq<char>)
    ensures
        host_match(seq!['*'], host),
        (pattern.len() == 0 || pattern[0] != '*') ==> (host_match(pattern, host) <==> lower(pattern)
            == lower(host)),
{
    reveal_strlit("*.");
    reveal_strlit("*");
    assert(seq!['*'] =~= "*"@);
    if pattern.len() == 0 || pattern[0] != '*' {
        if "*."@.is_prefix_of(pattern) {
            assert(pattern.subrange(0, 2)[0] == '*');
        }
    }
}

/// A prefix matches the path that is that prefix and every path below it; a
/// longer path matches only where a segment ends. The empty prefix and `/`
/// match every path.
pub proof fn law_prefixes_end_at_segments(prefix: Seq<char>, rest: Seq<char>, path: Seq<char>)
    ensures
        path_match(prefix, prefix),
        path_match(prefix, prefix.push('/') + rest),
        path_match(prefix.push('/'), prefix.push('/') + rest),
        path_match(Seq::empty(), path),
        path_match(seq!['/'], path),
        prefix.len() > 0 && rest.len() > 0 && prefix.last() != '/' && rest[0] != '/' ==> !path_match(
            prefix,
            prefix + rest,
        ),
        path_match(prefix, path) && prefix.len() > 0 && prefix != seq!['/'] ==> prefix.len()
            <= path.len() && path.take(prefix.len() as int) == prefix,
{
    reveal_strlit("/");
    assert(seq!['/'] =~= "/"@);
    let a = prefix.push('/') + rest;
    let b = prefix + rest;
    assert(prefix.subrange(0, prefix.len() as int) =~= prefix);
    assert(a.subrange(0, prefix.len() as int) =~= prefix);
    assert(a.subrange(0, prefix.len() as int + 1) =~= prefix.push('/'));
    if prefix.len() > 0 && rest.len() > 0 && prefix.last() != '/' && rest[0] != '/' {
        assert(b[prefix.len() as int] == rest[0]);
        assert(prefix != "/"@) by {
            assert(prefix.last() != "/"@.last());
        }
    }
    if path_match(prefix, path) && prefix.len() > 0 && prefix != seq!['/'] {
        assert(path.take(prefix.len() as int) =~= path.subrange(0, prefix.len() as int));
    }
}

}
