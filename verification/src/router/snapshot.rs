//! The compiled, immutable routing snapshot built from a [`DynamicConfig`].

use super::matcher::{
    host_match, is_wildcard, law_plain_patterns, law_wildcard_is_one_label, lemma_one_label_above,
    path_match, path_prefix_matches,
};
use crate::text::{
    byte_len, chars_of, find_char, first_at, has_prefix, join2, lemma_lower_idempotent, len_bytes,
    lower, str_eq, string_of, to_lower, trim, trim_str,
};
use crate::types::{DynamicConfig, ListenerId, Route, RouteAction, RouteId};
use vstd::hash_map::StringHashMap;
use vstd::prelude::*;
use vstd::slice::slice_subrange;

verus! {

// ---------------------------------------------------------------------------
// The routing rule
// ---------------------------------------------------------------------------

/// The host pattern of a route as the table keeps it: trimmed and lower case.
pub open spec fn pattern_of(route: Route) -> Seq<char> {
    lower(trim(route.host@))
}

/// How specific the match of a host pattern is: 0 for an exact host, 1 for a
/// wildcard, 2 for the catch-all, `None` where the pattern does not match.
pub open spec fn host_rank(pattern: Seq<char>, host: Seq<char>) -> Option<int> {
    if pattern == "*"@ {
        Some(2)
    } else if is_wildcard(pattern) {
        if host_match(pattern, host) {
            Some(1)
        } else {
            None
        }
    } else if pattern == host {
        Some(0)
    } else {
        None
    }
}

/// Whether route `i` of a configuration matches a request.
pub open spec fn route_applies(
    routes: Seq<Route>,
    listener: Seq<char>,
    host: Seq<char>,
    path: Seq<char>,
    i: int,
) -> bool {
    &&& 0 <= i < routes.len()
    &&& routes[i].listener.0@ == listener
    &&& host_rank(pattern_of(routes[i]), lower(host)) is Some
    &&& path_match(routes[i].path_prefix@, path)
}

/// Whether route `i` has a longer path prefix than route `j`, or an equally
/// long one and an earlier place in the configuration.
pub open spec fn path_before(routes: Seq<Route>, i: int, j: int) -> bool {
    let a = byte_len(routes[i].path_prefix@);
    let b = byte_len(routes[j].path_prefix@);
    a > b || (a == b && i < j)
}

/// Whether route `i` takes precedence over route `j` for a request host: the
/// more specific host match first, then the longer path prefix, then the
/// order of the configuration.
pub open spec fn takes_precedence(routes: Seq<Route>, host: Seq<char>, i: int, j: int) -> bool {
    let a = host_rank(pattern_of(routes[i]), lower(host))->0;
    let b = host_rank(pattern_of(routes[j]), lower(host))->0;
    a < b || (a == b && path_before(routes, i, j))
}

/// Whether route `i` is the one a request is routed by.
pub open spec fn routes_to(
    routes: Seq<Route>,
    listener: Seq<char>,
    host: Seq<char>,
    path: Seq<char>,
    i: int,
) -> bool {
    &&& route_applies(routes, listener, host, path, i)
    &&& forall|j: int|
        #![trigger route_applies(routes, listener, host, path, j)]
        j != i && route_applies(routes, listener, host, path, j) ==> takes_precedence(
            routes,
            host,
            i,
            j,
        )
}

/// A request is routed by at most one route.
pub proof fn law_route_is_unique(
    routes: Seq<Route>,
    listener: Seq<char>,
    host: Seq<char>,
    path: Seq<char>,
    i: int,
    j: int,
)
    requires
        routes_to(routes, listener, host, path, i),
        routes_to(routes, listener, host, path, j),
    ensures
        i == j,
{
}

proof fn lemma_best_of(
    routes: Seq<Route>,
    listener: Seq<char>,
    host: Seq<char>,
    path: Seq<char>,
    n: int,
) -> (b: int)
    requires
        n <= routes.len(),
        exists|j: int| 0 <= j < n && #[trigger] route_applies(routes, listener, host, path, j),
    ensures
        route_applies(routes, listener, host, path, b),
        forall|j: int|
            #![trigger route_applies(routes, listener, host, path, j)]
            0 <= j < n && j != b && route_applies(routes, listener, host, path, j)
                ==> takes_precedence(routes, host, b, j),
    decreases n,
{
    let last = n - 1;
    if exists|j: int| 0 <= j < last && #[trigger] route_applies(routes, listener, host, path, j) {
        let a = lemma_best_of(routes, listener, host, path, last);
        if route_applies(routes, listener, host, path, last) && takes_precedence(
            routes,
            host,
            last,
            a,
        ) {
            last
        } else {
            a
        }
    } else {
        last
    }
}

/// A request that some route applies to is routed by one of them.
pub proof fn law_some_route_wins(
    routes: Seq<Route>,
    listener: Seq<char>,
    host: Seq<char>,
    path: Seq<char>,
    j: int,
)
    requires
        route_applies(routes, listener, host, path, j),
    ensures
        exists|i: int| #[trigger] routes_to(routes, listener, host, path, i),
{
    let b = lemma_best_of(routes, listener, host, path, routes.len() as int);
    assert(routes_to(routes, listener, host, path, b));
}

/// An exact host beats a wildcard host, and a wildcard host beats the
/// catch-all, whatever the paths and whatever the order of the configuration.
pub proof fn law_specific_host_wins(
    routes: Seq<Route>,
    listener: Seq<char>,
    host: Seq<char>,
    path: Seq<char>,
    i: int,
    j: int,
)
    requires
        routes_to(routes, listener, host, path, i),
        route_applies(routes, listener, host, path, j),
    ensures
        host_rank(pattern_of(routes[i]), lower(host))->0 <= host_rank(
            pattern_of(routes[j]),
            lower(host),
        )->0,
{
}

/// Among the routes of one host pattern the longest matching prefix wins.
pub proof fn law_longest_prefix_wins(
    routes: Seq<Route>,
    listener: Seq<char>,
    host: Seq<char>,
    path: Seq<char>,
    i: int,
    j: int,
)
    requires
        routes_to(routes, listener, host, path, i),
        route_applies(routes, listener, host, path, j),
        pattern_of(routes[i]) == pattern_of(routes[j]),
    ensures
        byte_len(routes[j].path_prefix@) <= byte_len(routes[i].path_prefix@),
{
}

/// The case of the request host does not matter.
pub proof fn law_host_case_is_ignored(
    routes: Seq<Route>,
    listener: Seq<char>,
    host: Seq<char>,
    other: Seq<char>,
    path: Seq<char>,
    i: int,
)
    requires
        lower(host) == lower(other),
    ensures
        routes_to(routes, listener, host, path, i) == routes_to(routes, listener, other, path, i),
{
    assert forall|j: int|
        route_applies(routes, listener, host, path, j) == route_applies(
            routes,
            listener,
            other,
            path,
            j,
        ) by {}
    if routes_to(routes, listener, host, path, i) {
        assert forall|j: int| j != i && route_applies(routes, listener, other, path, j) implies
            takes_precedence(routes, other, i, j) by {
            assert(route_applies(routes, listener, host, path, j));
        }
    }
    if routes_to(routes, listener, other, path, i) {
        assert forall|j: int| j != i && route_applies(routes, listener, host, path, j) implies
            takes_precedence(routes, host, i, j) by {
            assert(route_applies(routes, listener, other, path, j));
        }
    }
}

// ---------------------------------------------------------------------------
// Compiled routes
// ---------------------------------------------------------------------------

/// A single compiled route entry within a host bucket.
#[derive(Debug, PartialEq, Eq)]
pub struct CompiledRoute {
    pub id: RouteId,
    /// The configured host pattern (exact, `*.suffix`, or `*`). Bounded by
    /// config, so it is safe to use as a metric label (unlike the raw `Host`).
    pub host: String,
    pub path_prefix: String,
    pub action: RouteAction,
}

impl CompiledRoute {
    /// Whether this entry was compiled from the given route.
    pub open spec fn stands_for(self, route: Route) -> bool {
        &&& self.id == route.id
        &&& self.host@ == trim(route.host@)
        &&& self.path_prefix == route.path_prefix
        &&& self.action == route.action
    }

    fn compile(route: &Route) -> (r: Self)
        ensures
            r.stands_for(*route),
    {
        CompiledRoute {
            id: route.id.clone(),
            host: trim_str(route.host.as_str()),
            path_prefix: route.path_prefix.clone(),
            action: route.action.clone(),
        }
    }
}

impl Clone for CompiledRoute {
    fn clone(&self) -> (r: Self)
        ensures
            r == *self,
    {
        CompiledRoute {
            id: self.id.clone(),
            host: self.host.clone(),
            path_prefix: self.path_prefix.clone(),
            action: self.action.clone(),
        }
    }
}

/// Whether route `i` is among the first `n` and belongs to a listener and a
/// host pattern.
spec fn in_bucket(
    all: Seq<Route>,
    n: int,
    listener: Seq<char>,
    pattern: Seq<char>,
    i: int,
) -> bool {
    0 <= i < n && all[i].listener.0@ == listener && pattern_of(all[i]) == pattern
}

/// Routes for one host pattern, ordered so the longest path prefix wins.
struct HostRoutes {
    routes: Vec<CompiledRoute>,
    /// The place in the configuration of each of `routes`.
    origin: Ghost<Seq<int>>,
}

impl HostRoutes {
    /// The entries are exactly the first `n` routes of the bucket, in order.
    spec fn holds(
        self,
        all: Seq<Route>,
        n: int,
        listener: Seq<char>,
        pattern: Seq<char>,
    ) -> bool {
        &&& self.origin@.len() == self.routes@.len()
        &&& forall|k: int|
            0 <= k < self.routes@.len() ==> {
                &&& in_bucket(all, n, listener, pattern, #[trigger] self.origin@[k])
                &&& self.routes@[k].stands_for(all[self.origin@[k]])
            }
        &&& forall|i: int|
            #[trigger] in_bucket(all, n, listener, pattern, i) ==> self.origin@.contains(i)
        &&& forall|j: int, k: int|
            0 <= j < k < self.routes@.len() ==> path_before(
                all,
                #[trigger] self.origin@[j],
                #[trigger] self.origin@[k],
            )
    }

    fn new() -> (r: Self)
        ensures
            r.routes@.len() == 0,
            r.origin@.len() == 0,
    {
        HostRoutes { routes: Vec::new(), origin: Ghost(Seq::empty()) }
    }

    /// Adds route `n` at its place.
    fn insert(
        &mut self,
        route: &Route,
        all: Ghost<Seq<Route>>,
        n: Ghost<int>,
        listener: Ghost<Seq<char>>,
        pattern: Ghost<Seq<char>>,
    )
        requires
            old(self).holds(all@, n@, listener@, pattern@),
            0 <= n@ < all@.len(),
            all@[n@] == *route,
            route.listener.0@ == listener@,
            pattern_of(*route) == pattern@,
        ensures
            final(self).holds(all@, n@ + 1, listener@, pattern@),
    {
        let len: usize = len_bytes(route.path_prefix.as_str());
        let mut at: usize = 0;
        while at < self.routes.len() && len_bytes(
            self.routes[at].path_prefix.as_str(),
        ) >= len
            invariant
                at <= self.routes@.len(),
                len == byte_len(route.path_prefix@),
                *self == *old(self),
                self.holds(all@, n@, listener@, pattern@),
                forall|k: int|
                    0 <= k < at ==> byte_len(all@[#[trigger] self.origin@[k]].path_prefix@) >= len,
            decreases self.routes@.len() - at,
        {
            assert(self.routes@[at as int].stands_for(all@[self.origin@[at as int]]));
            at += 1;
        }
        let ghost was = self.origin@;
        proof {
            if at < self.routes@.len() {
                assert(self.routes@[at as int].stands_for(all@[was[at as int]]));
                assert forall|k: int| at <= k < was.len() implies byte_len(
                    all@[#[trigger] was[k]].path_prefix@,
                ) < len by {
                    if k > at {
                        assert(path_before(all@, was[at as int], was[k]));
                    }
                }
            }
        }
        let compiled = CompiledRoute::compile(route);
        self.routes.insert(at, compiled);
        self.origin = Ghost(was.insert(at as int, n@));
        proof {
            assert forall|i: int| #[trigger]
                in_bucket(all@, n@ + 1, listener@, pattern@, i) implies self.origin@.contains(i) by {
                if i == n@ {
                    assert(self.origin@[at as int] == n@);
                } else {
                    assert(in_bucket(all@, n@, listener@, pattern@, i));
                    let k = choose|k: int| 0 <= k < was.len() && was[k] == i;
                    if k < at {
                        assert(self.origin@[k] == i);
                    } else {
                        assert(self.origin@[k + 1] == i);
                    }
                }
            }
            assert forall|k: int| 0 <= k < self.routes@.len() implies {
                &&& in_bucket(all@, n@ + 1, listener@, pattern@, #[trigger] self.origin@[k])
                &&& self.routes@[k].stands_for(all@[self.origin@[k]])
            } by {
                if k < at {
                    assert(self.origin@[k] == was[k]);
                } else if k > at {
                    assert(self.origin@[k] == was[k - 1]);
                }
            }
            assert forall|j: int, k: int| 0 <= j < k < self.routes@.len() implies path_before(
                all@,
                #[trigger] self.origin@[j],
                #[trigger] self.origin@[k],
            ) by {
                let a = if j < at {
                    j
                } else {
                    j - 1
                };
                let b = if k < at {
                    k
                } else {
                    k - 1
                };
                if j == at {
                    assert(self.origin@[k] == was[b]);
                } else if k == at {
                    assert(self.origin@[j] == was[a]);
                } else {
                    assert(self.origin@[j] == was[a]);
                    assert(self.origin@[k] == was[b]);
                }
            }
        }
    }

    /// The first entry whose prefix matches the path.
    fn match_path(&self, path: &str) -> (r: Option<usize>)
        ensures
            match r {
                Some(k) => {
                    &&& k < self.routes@.len()
                    &&& path_match(self.routes@[k as int].path_prefix@, path@)
                    &&& forall|j: int|
                        0 <= j < k ==> !path_match(
                            (#[trigger] self.routes@[j]).path_prefix@,
                            path@,
                        )
                },
                None => forall|j: int|
                    0 <= j < self.routes@.len() ==> !path_match(
                        (#[trigger] self.routes@[j]).path_prefix@,
                        path@,
                    ),
            },
    {
        let mut k: usize = 0;
        while k < self.routes.len()
            invariant
                k <= self.routes@.len(),
                forall|j: int|
                    0 <= j < k ==> !path_match((#[trigger] self.routes@[j]).path_prefix@, path@),
            decreases self.routes@.len() - k,
        {
            if path_prefix_matches(self.routes[k].path_prefix.as_str(), path) {
                return Some(k);
            }
            k += 1;
        }
        None
    }
}

/// Routes for one listener, in buckets by host pattern.
struct ListenerRoutes {
    /// The bucket of each host pattern.
    hosts: StringHashMap<usize>,
    buckets: Vec<HostRoutes>,
}

impl ListenerRoutes {
    /// The buckets hold exactly the first `n` routes of the listener.
    spec fn holds(self, all: Seq<Route>, n: int, listener: Seq<char>) -> bool {
        &&& forall|p: Seq<char>| #[trigger]
            self.hosts@.contains_key(p) ==> {
                &&& self.hosts@[p] < self.buckets@.len()
                &&& self.buckets@[self.hosts@[p] as int].holds(all, n, listener, p)
            }
        &&& forall|p: Seq<char>, q: Seq<char>|
            self.hosts@.contains_key(p) && self.hosts@.contains_key(q) && #[trigger] self.hosts@[p]
                == #[trigger] self.hosts@[q] ==> p == q
        &&& forall|i: int|
            0 <= i < n && (#[trigger] all[i]).listener.0@ == listener ==> self.hosts@.contains_key(
                pattern_of(all[i]),
            )
    }

    fn new() -> (r: Self)
        ensures
            r.hosts@ == Map::<Seq<char>, usize>::empty(),
            r.buckets@.len() == 0,
    {
        ListenerRoutes { hosts: StringHashMap::new(), buckets: Vec::new() }
    }

    /// Files route `n` under its host pattern.
    fn insert_route(
        &mut self,
        route: &Route,
        all: Ghost<Seq<Route>>,
        n: Ghost<int>,
        listener: Ghost<Seq<char>>,
    )
        requires
            old(self).holds(all@, n@, listener@),
            0 <= n@ < all@.len(),
            all@[n@] == *route,
            route.listener.0@ == listener@,
        ensures
            final(self).holds(all@, n@ + 1, listener@),
    {
        let trimmed = trim_str(route.host.as_str());
        let pattern = to_lower(trimmed.as_str());
        let ghost key = pattern@;
        let found = match self.hosts.get(pattern.as_str()) {
            Some(i) => Some(*i),
            None => None,
        };
        let at: usize = match found {
            Some(i) => i,
            None => {
                let i: usize = self.buckets.len();
                self.buckets.push(HostRoutes::new());
                self.hosts.insert(pattern, i);
                proof {
                    assert(self.buckets@[i as int].holds(all@, n@, listener@, key)) by {
                        assert forall|k: int| !in_bucket(all@, n@, listener@, key, k) by {
                            if in_bucket(all@, n@, listener@, key, k) {
                                assert(old(self).hosts@.contains_key(pattern_of(all@[k])));
                            }
                        }
                    }
                }
                i
            },
        };
        assert(self.holds(all@, n@, listener@));
        let ghost mid = *self;
        self.buckets[at].insert(route, all, n, listener, Ghost(key));
        proof {
            assert forall|p: Seq<char>| #[trigger] self.hosts@.contains_key(p) implies {
                &&& self.hosts@[p] < self.buckets@.len()
                &&& self.buckets@[self.hosts@[p] as int].holds(all@, n@ + 1, listener@, p)
            } by {
                if p != key {
                    assert(mid.hosts@[p] != mid.hosts@[key]);
                    lemma_bucket_kept(
                        self.buckets@[self.hosts@[p] as int],
                        all@,
                        n@,
                        listener@,
                        p,
                    );
                }
            }
        }
    }

    /// Match one bucket, if there is one.
    fn match_bucket(&self, pattern: &str, path: &str) -> (r: Option<(usize, usize)>)
        requires
            forall|p: Seq<char>| #[trigger]
                self.hosts@.contains_key(p) ==> self.hosts@[p] < self.buckets@.len(),
        ensures
            match r {
                Some((b, k)) => {
                    &&& self.hosts@.contains_key(pattern@)
                    &&& b == self.hosts@[pattern@]
                    &&& k < self.buckets@[b as int].routes@.len()
                    &&& path_match(self.buckets@[b as int].routes@[k as int].path_prefix@, path@)
                    &&& forall|j: int|
                        0 <= j < k ==> !path_match(
                            (#[trigger] self.buckets@[b as int].routes@[j]).path_prefix@,
                            path@,
                        )
                },
                None => self.hosts@.contains_key(pattern@) ==> forall|j: int|
                    0 <= j < self.buckets@[self.hosts@[pattern@] as int].routes@.len()
                        ==> !path_match(
                        (#[trigger] self.buckets@[self.hosts@[pattern@] as int].routes@[j]).path_prefix@,
                        path@,
                    ),
            },
    {
        match self.hosts.get(pattern) {
            Some(b) => match self.buckets[*b].match_path(path) {
                Some(k) => Some((*b, k)),
                None => None,
            },
            None => None,
        }
    }

    /// The entry the request is routed by: bucket and place in the bucket.
    fn match_request(
        &self,
        host: &str,
        path: &str,
        all: Ghost<Seq<Route>>,
        listener: Ghost<Seq<char>>,
    ) -> (r: Option<(usize, usize)>)
        requires
            self.holds(all@, all@.len() as int, listener@),
        ensures
            match r {
                Some((b, k)) => {
                    &&& b < self.buckets@.len()
                    &&& k < self.buckets@[b as int].routes@.len()
                    &&& exists|i: int|
                        routes_to(all@, listener@, host@, path@, i)
                            && self.buckets@[b as int].routes@[k as int].stands_for(all@[i])
                },
                None => forall|i: int| !route_applies(all@, listener@, host@, path@, i),
            },
    {
        let ghost n = all@.len() as int;
        let host_lc = to_lower(host);
        let h = chars_of(host_lc.as_str());
        let star_dot = chars_of("*.");
        let exact = !str_eq(host_lc.as_str(), "*") && !has_prefix(
            h.as_slice(),
            star_dot.as_slice(),
        );
        if exact {
            match self.match_bucket(host_lc.as_str(), path) {
                Some((b, k)) => {
                    proof {
                        self.lemma_found(all@, listener@, host@, path@, host_lc@, k as int);
                    }
                    return Some((b, k));
                },
                None => {},
            }
        }
        proof {
            self.lemma_missed(all@, listener@, host@, path@, host_lc@);
            assert forall|i: int| route_applies(all@, listener@, host@, path@, i) implies host_rank(
                pattern_of(all@[i]),
                host_lc@,
            )->0 >= 1 by {
                if host_rank(pattern_of(all@[i]), host_lc@)->0 == 0 {
                    assert(pattern_of(all@[i]) == host_lc@);
                }
            }
        }
        let d = find_char(h.as_slice(), '.');
        let ghost mut wild = Seq::<char>::empty();
        if d > 0 && d < h.len() {
            let rest = slice_subrange(h.as_slice(), d + 1, h.len());
            assert(rest@ =~= h@.skip(d + 1));
            let suffix = string_of(rest);
            let key = join2("*.", suffix.as_str());
            proof {
                reveal_strlit("*.");
                reveal_strlit("*");
                wild = key@;
                assert(is_wildcard(key@)) by {
                    assert(key@.subrange(0, 2) =~= "*."@);
                }
                assert(key@.skip(2) =~= suffix@);
                lemma_one_label_above(host_lc@, suffix@);
                assert(key@ != "*"@);
                assert(host_rank(key@, host_lc@) == Some(1int));
            }
            match self.match_bucket(key.as_str(), path) {
                Some((b, k)) => {
                    proof {
                        assert forall|j: int| #[trigger]
                            route_applies(all@, listener@, host@, path@, j) && host_rank(
                                pattern_of(all@[j]),
                                host_lc@,
                            )->0 <= 1 implies pattern_of(all@[j]) == key@ by {
                            lemma_wildcard_pattern(pattern_of(all@[j]), host_lc@);
                        }
                        self.lemma_found(all@, listener@, host@, path@, key@, k as int);
                    }
                    return Some((b, k));
                },
                None => {
                    proof {
                        self.lemma_missed(all@, listener@, host@, path@, key@);
                    }
                },
            }
        }
        proof {
            assert forall|i: int| route_applies(all@, listener@, host@, path@, i) implies host_rank(
                pattern_of(all@[i]),
                host_lc@,
            )->0 == 2 by {
                if host_rank(pattern_of(all@[i]), host_lc@)->0 == 1 {
                    lemma_wildcard_pattern(pattern_of(all@[i]), host_lc@);
                }
            }
        }
        match self.match_bucket("*", path) {
            Some((b, k)) => {
                proof {
                    self.lemma_found(all@, listener@, host@, path@, "*"@, k as int);
                }
                Some((b, k))
            },
            None => {
                proof {
                    self.lemma_missed(all@, listener@, host@, path@, "*"@);
                }
                None
            },
        }
    }

    /// The first matching entry of a bucket is the route of the request, if
    /// no route outside the bucket ranks as high for the host.
    proof fn lemma_found(
        self,
        all: Seq<Route>,
        listener: Seq<char>,
        host: Seq<char>,
        path: Seq<char>,
        pattern: Seq<char>,
        k: int,
    )
        requires
            self.holds(all, all.len() as int, listener),
            self.hosts@.contains_key(pattern),
            host_rank(pattern, lower(host)) is Some,
            forall|j: int| #[trigger]
                route_applies(all, listener, host, path, j) ==> pattern_of(all[j]) == pattern
                    || host_rank(pattern_of(all[j]), lower(host))->0 > host_rank(
                    pattern,
                    lower(host),
                )->0,
            0 <= k < self.buckets@[self.hosts@[pattern] as int].routes@.len(),
            path_match(
                self.buckets@[self.hosts@[pattern] as int].routes@[k].path_prefix@,
                path,
            ),
            forall|j: int|
                0 <= j < k ==> !path_match(
                    (#[trigger] self.buckets@[self.hosts@[pattern] as int].routes@[j]).path_prefix@,
                    path,
                ),
        ensures
            exists|i: int|
                routes_to(all, listener, host, path, i)
                    && self.buckets@[self.hosts@[pattern] as int].routes@[k].stands_for(all[i]),
    {
        let bucket = self.buckets@[self.hosts@[pattern] as int];
        let n = all.len() as int;
        assert(bucket.holds(all, n, listener, pattern));
        let i = bucket.origin@[k];
        assert(in_bucket(all, n, listener, pattern, i));
        assert(bucket.routes@[k].stands_for(all[i]));
        assert(route_applies(all, listener, host, path, i));
        assert forall|j: int| j != i && #[trigger]
            route_applies(all, listener, host, path, j) implies takes_precedence(
            all,
            host,
            i,
            j,
        ) by {
            if pattern_of(all[j]) == pattern {
                assert(in_bucket(all, n, listener, pattern, j));
                let m = choose|m: int| 0 <= m < bucket.origin@.len() && bucket.origin@[m] == j;
                assert(bucket.routes@[m].stands_for(all[bucket.origin@[m]]));
                if m < k {
                    assert(!path_match(bucket.routes@[m].path_prefix@, path));
                } else {
                    assert(path_before(all, bucket.origin@[k], bucket.origin@[m]));
                }
            }
        }
        assert(routes_to(all, listener, host, path, i));
    }

    /// A bucket without a matching entry holds no applicable route.
    proof fn lemma_missed(
        self,
        all: Seq<Route>,
        listener: Seq<char>,
        host: Seq<char>,
        path: Seq<char>,
        pattern: Seq<char>,
    )
        requires
            self.holds(all, all.len() as int, listener),
        ensures
            (self.hosts@.contains_key(pattern) ==> forall|j: int|
                0 <= j < self.buckets@[self.hosts@[pattern] as int].routes@.len() ==> !path_match(
                    (#[trigger] self.buckets@[self.hosts@[pattern] as int].routes@[j]).path_prefix@,
                    path,
                )) ==> forall|i: int|
                route_applies(all, listener, host, path, i) ==> pattern_of(all[i]) != pattern,
    {
        assert forall|i: int|
            route_applies(all, listener, host, path, i) && pattern_of(all[i])
                == pattern implies self.hosts@.contains_key(pattern) && exists|j: int|
            0 <= j < self.buckets@[self.hosts@[pattern] as int].routes@.len() && path_match(
                (#[trigger] self.buckets@[self.hosts@[pattern] as int].routes@[j]).path_prefix@,
                path,
            ) by {
            assert(self.hosts@.contains_key(pattern_of(all[i])));
            let bucket = self.buckets@[self.hosts@[pattern] as int];
            assert(bucket.holds(all, all.len() as int, listener, pattern));
            assert(in_bucket(all, all.len() as int, listener, pattern, i));
            let m = choose|m: int| 0 <= m < bucket.origin@.len() && bucket.origin@[m] == i;
            assert(bucket.routes@[m].stands_for(all[bucket.origin@[m]]));
        }
    }
}

/// Only one wildcard pattern matches a host.
proof fn lemma_wildcard_pattern(pattern: Seq<char>, host: Seq<char>)
    requires
        host_rank(pattern, host) == Some(1int),
    ensures
        0 < first_at(host, '.') < host.len(),
        pattern == "*."@ + host.skip(first_at(host, '.') as int + 1),
{
    reveal_strlit("*.");
    lemma_one_label_above(host, pattern.skip(2));
    assert(pattern =~= pattern.subrange(0, 2) + pattern.skip(2));
}

/// A route outside the bucket leaves the bucket as it is.
proof fn lemma_bucket_kept(
    bucket: HostRoutes,
    all: Seq<Route>,
    n: int,
    listener: Seq<char>,
    pattern: Seq<char>,
)
    requires
        bucket.holds(all, n, listener, pattern),
        0 <= n,
        all[n].listener.0@ != listener || pattern_of(all[n]) != pattern,
    ensures
        bucket.holds(all, n + 1, listener, pattern),
{
    assert forall|i: int| #[trigger]
        in_bucket(all, n + 1, listener, pattern, i) implies bucket.origin@.contains(i) by {
        assert(in_bucket(all, n, listener, pattern, i));
    }
}

/// An immutable routing table compiled from the dynamic config. The data
/// plane reads it while the control plane publishes a freshly compiled one.
pub struct RouteTable {
    /// The table of each listener.
    listeners: StringHashMap<usize>,
    tables: Vec<ListenerRoutes>,
    route_count: usize,
    /// The routes the table was compiled from.
    source: Ghost<Seq<Route>>,
}

/// The listener tables hold exactly the first `n` routes.
spec fn tables_hold(
    listeners: Map<Seq<char>, usize>,
    tables: Seq<ListenerRoutes>,
    all: Seq<Route>,
    n: int,
) -> bool {
    &&& forall|l: Seq<char>| #[trigger]
        listeners.contains_key(l) ==> {
            &&& listeners[l] < tables.len()
            &&& tables[listeners[l] as int].holds(all, n, l)
        }
    &&& forall|l: Seq<char>, m: Seq<char>|
        listeners.contains_key(l) && listeners.contains_key(m) && #[trigger] listeners[l]
            == #[trigger] listeners[m] ==> l == m
    &&& forall|i: int|
        0 <= i < n ==> listeners.contains_key((#[trigger] all[i]).listener.0@)
}

impl RouteTable {
    #[verifier::type_invariant]
    spec fn inv(self) -> bool {
        &&& tables_hold(self.listeners@, self.tables@, self.source@, self.source@.len() as int)
        &&& self.route_count == self.source@.len()
    }

    /// The routes the table was compiled from, in the order of the configuration.
    pub closed spec fn routes(self) -> Seq<Route> {
        self.source@
    }

    /// Compile a route table from the dynamic config.
    pub fn compile(config: &DynamicConfig) -> (r: Self)
        ensures
            r.routes() == config.routes@,
    {
        let ghost all = config.routes@;
        let mut listeners: StringHashMap<usize> = StringHashMap::new();
        let mut tables: Vec<ListenerRoutes> = Vec::new();
        let mut n: usize = 0;
        while n < config.routes.len()
            invariant
                n <= config.routes@.len(),
                all == config.routes@,
                tables_hold(listeners@, tables@, all, n as int),
            decreases config.routes@.len() - n,
        {
            let route = &config.routes[n];
            let ghost key = route.listener.0@;
            let found = match listeners.get(route.listener.0.as_str()) {
                Some(i) => Some(*i),
                None => None,
            };
            let at: usize = match found {
                Some(i) => i,
                None => {
                    let i: usize = tables.len();
                    tables.push(ListenerRoutes::new());
                    listeners.insert(route.listener.0.clone(), i);
                    i
                },
            };
            assert(tables_hold(listeners@, tables@, all, n as int));
            let ghost mid = tables@;
            tables[at].insert_route(route, Ghost(all), Ghost(n as int), Ghost(key));
            proof {
                assert forall|l: Seq<char>| #[trigger] listeners@.contains_key(l) implies {
                    &&& listeners@[l] < tables@.len()
                    &&& tables@[listeners@[l] as int].holds(all, n + 1, l)
                } by {
                    if l != key {
                        assert(listeners@[l] != listeners@[key]);
                        let t = mid[listeners@[l] as int];
                        assert(t.holds(all, n as int, l));
                        assert forall|p: Seq<char>| #[trigger] t.hosts@.contains_key(p) implies {
                            &&& t.hosts@[p] < t.buckets@.len()
                            &&& t.buckets@[t.hosts@[p] as int].holds(all, n + 1, l, p)
                        } by {
                            lemma_bucket_kept(
                                t.buckets@[t.hosts@[p] as int],
                                all,
                                n as int,
                                l,
                                p,
                            );
                        }
                    }
                }
            }
            n += 1;
        }
        RouteTable { listeners, tables, route_count: config.routes.len(), source: Ghost(all) }
    }

    /// Match a request to a route. Returns the most specific compiled route,
    /// or `None` if nothing matches.
    pub fn match_request(&self, listener: &ListenerId, host: &str, path: &str) -> (r: Option<
        &CompiledRoute,
    >)
        ensures
            match r {
                Some(c) => exists|i: int|
                    {
                        &&& #[trigger] routes_to(self.routes(), listener.0@, host@, path@, i)
                        &&& c.stands_for(self.routes()[i])
                        &&& c.id == self.routes()[i].id
                        &&& c.host@ == trim(self.routes()[i].host@)
                        &&& c.path_prefix == self.routes()[i].path_prefix
                        &&& c.action == self.routes()[i].action
                    },
                None => forall|i: int|
                    !route_applies(self.routes(), listener.0@, host@, path@, i),
            },
    {
        proof {
            use_type_invariant(self);
        }
        match self.listeners.get(listener.0.as_str()) {
            Some(t) => {
                let table = &self.tables[*t];
                match table.match_request(
                    host,
                    path,
                    Ghost(self.source@),
                    Ghost(listener.0@),
                ) {
                    Some((b, k)) => {
                        let c = &table.buckets[b].routes[k];
                        proof {
                            let i = choose|i: int|
                                routes_to(self.source@, listener.0@, host@, path@, i)
                                    && c.stands_for(self.source@[i]);
                            assert(routes_to(self.routes(), listener.0@, host@, path@, i));
                        }
                        Some(c)
                    },
                    None => None,
                }
            },
            None => None,
        }
    }

    /// The number of routes the table was compiled from.
    pub fn route_count(&self) -> (r: usize)
        ensures
            r == self.routes().len(),
    {
        proof {
            use_type_invariant(self);
        }
        self.route_count
    }
}

impl Default for RouteTable {
    fn default() -> (r: Self)
        ensures
            r.routes() == Seq::<Route>::empty(),
    {
        RouteTable {
            listeners: StringHashMap::new(),
            tables: Vec::new(),
            route_count: 0,
            source: Ghost(Seq::empty()),
        }
    }
}

// ---------------------------------------------------------------------------
// What requests are routed by
// ---------------------------------------------------------------------------

/// A route applies only to requests of its listener, whose host its pattern
/// stands for and whose path its prefix covers. A wildcard `*.s` stands for
/// the hosts that are one non-empty label without a dot, a dot and `s`, so
/// never for `s` itself.
pub proof fn law_applicable_route_fits(
    routes: Seq<Route>,
    listener: Seq<char>,
    host: Seq<char>,
    path: Seq<char>,
    i: int,
    suffix: Seq<char>,
)
    requires
        route_applies(routes, listener, host, path, i),
    ensures
        0 <= i < routes.len(),
        routes[i].listener.0@ == listener,
        host_match(lower(trim(routes[i].host@)), lower(host)),
        ({
            let pattern = lower(trim(routes[i].host@));
            let name = lower(host);
            &&& pattern == "*."@ + suffix ==> {
                let n = name.len() - suffix.len() - 1;
                &&& name != suffix
                &&& n > 0
                &&& name[n] == '.'
                &&& name.skip(n + 1) == suffix
                &&& forall|k: int| 0 <= k < n ==> name[k] != '.'
            }
            &&& (pattern.len() == 0 || pattern[0] != '*') ==> pattern == name
        }),
        path_match(routes[i].path_prefix@, path),
{
    let pattern = lower(trim(routes[i].host@));
    let name = lower(host);
    lemma_lower_idempotent(host);
    lemma_lower_idempotent(trim(routes[i].host@));
    law_plain_patterns(pattern, name);
    if pattern == "*."@ + suffix {
        law_wildcard_is_one_label(suffix, name, name);
    }
}

/// A route whose listener, host pattern and path prefix all fit a request
/// applies to it: an exact host in any case, a wildcard for one label, the
/// catch-all for every host.
pub proof fn law_fitting_route_applies(
    routes: Seq<Route>,
    host: Seq<char>,
    path: Seq<char>,
    i: int,
    label: Seq<char>,
    suffix: Seq<char>,
)
    requires
        0 <= i < routes.len(),
        path_match(routes[i].path_prefix@, path),
        ({
            let pattern = lower(trim(routes[i].host@));
            ||| pattern == seq!['*']
            ||| pattern == "*."@ + suffix && label.len() > 0 && !label.contains('.') && lower(host)
                == label + "."@ + suffix
            ||| (pattern.len() == 0 || pattern[0] != '*') && pattern == lower(host)
        }),
    ensures
        route_applies(routes, routes[i].listener.0@, host, path, i),
{
    let pattern = lower(trim(routes[i].host@));
    reveal_strlit("*");
    reveal_strlit("*.");
    assert(seq!['*'] =~= "*"@);
    if pattern == "*."@ + suffix && label.len() > 0 && !label.contains('.') && lower(host) == label
        + "."@ + suffix {
        law_wildcard_is_one_label(suffix, label, host);
        assert(pattern.subrange(0, 2) =~= "*."@);
        assert(pattern.len() >= 2);
    } else if pattern != seq!['*'] {
        if "*."@.is_prefix_of(pattern) {
            assert(pattern.subrange(0, 2)[0] == '*');
        }
    }
}

/// The route of a request is the most specific one that applies: where an
/// exact host applies it has that host, and where anything but the catch-all
/// applies it is not the catch-all.
pub proof fn law_precedence_of_hosts(
    routes: Seq<Route>,
    listener: Seq<char>,
    host: Seq<char>,
    path: Seq<char>,
    i: int,
    j: int,
)
    requires
        routes_to(routes, listener, host, path, i),
        route_applies(routes, listener, host, path, j),
    ensures
        ({
            let won = lower(trim(routes[i].host@));
            let other = lower(trim(routes[j].host@));
            &&& (other.len() == 0 || other[0] != '*') ==> won == lower(host) && (won.len() == 0
                || won[0] != '*')
            &&& other != seq!['*'] ==> won != seq!['*']
        }),
{
    reveal_strlit("*");
    reveal_strlit("*.");
    assert(seq!['*'] =~= "*"@);
    let won = lower(trim(routes[i].host@));
    let other = lower(trim(routes[j].host@));
    if other.len() == 0 || other[0] != '*' {
        if "*."@.is_prefix_of(other) {
            assert(other.subrange(0, 2)[0] == '*');
        }
        assert(host_rank(other, lower(host)) == Some(0int));
        assert(won == lower(host));
        assert(other == lower(host));
    }
}

/// Among the applicable routes of one host pattern the one with the longest
/// path prefix, in bytes, is taken, and of equally long ones the first in the
/// configuration.
pub proof fn law_precedence_of_paths(
    routes: Seq<Route>,
    listener: Seq<char>,
    host: Seq<char>,
    path: Seq<char>,
    i: int,
    j: int,
)
    requires
        routes_to(routes, listener, host, path, i),
        route_applies(routes, listener, host, path, j),
        lower(trim(routes[i].host@)) == lower(trim(routes[j].host@)),
    ensures
        ({
            let won = vstd::utf8::encode_utf8(routes[i].path_prefix@).len();
            let other = vstd::utf8::encode_utf8(routes[j].path_prefix@).len();
            other < won || (other == won && i <= j)
        }),
{
}

}
