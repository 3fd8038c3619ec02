//! Offline routing-decision tracer.
//!
//! Renders, as a tree, the *journey* a request would take: which listener and
//! route it matches, any redirect it follows (e.g. http to https) into the
//! next listener, and finally the upstream pool and the backend it would be
//! sent to.

use crate::number::{decimal, decimal_string};
use crate::router::snapshot::{law_route_is_unique, route_applies, routes_to, RouteTable};
use crate::text::{join2, join3, owned, str_eq, texts};
use crate::types::upstream::authority_text;
use crate::types::{
    DynamicConfig, HealthStatus, LbPolicy, ListenProtocol, Listener, ListenerId, PoolId, Route,
    RouteAction, Scheme, Upstream,
};
use crate::upstream::policy::{
    hash64, hash_of, law_ring_finds_healthy, ring_choice, text_writes,
};
use crate::upstream::pool::{
    healthy_upto, law_ring_hash_draws_nothing, lemma_healthy_upto, wrapping_add_one, Pool, PoolSet,
    Selection,
};
use crate::upstream::HealthMap;
use vstd::prelude::*;
use vstd::string::*;

verus! {

/// Guard against redirect loops and pathological chains.
pub const MAX_HOPS: usize = 8;

/// What a trace runs on.
pub struct TraceCtx<'a> {
    pub table: &'a RouteTable,
    pub health: &'a HealthMap,
    pub listeners: &'a Vec<Listener>,
    pub host: &'a str,
    pub path: &'a str,
}

/// The route a request takes at a listener.
pub open spec fn route_taken(
    routes: Seq<Route>,
    listener: Seq<char>,
    host: Seq<char>,
    path: Seq<char>,
) -> Option<Route> {
    if exists|i: int| routes_to(routes, listener, host, path, i) {
        Some(routes[choose|i: int| routes_to(routes, listener, host, path, i)])
    } else {
        None
    }
}

// ---------------------------------------------------------------------------
// Labels
// ---------------------------------------------------------------------------

/// The scheme of a listener.
pub open spec fn listener_scheme(p: ListenProtocol) -> Seq<char> {
    match p {
        ListenProtocol::Http => "http"@,
        ListenProtocol::Https => "https"@,
    }
}

/// The scheme of a listener.
pub fn scheme_of(p: ListenProtocol) -> (r: &'static str)
    ensures
        r@ == listener_scheme(p),
{
    match p {
        ListenProtocol::Http => "http",
        ListenProtocol::Https => "https",
    }
}

/// The listener protocol of a scheme, if it has one.
pub open spec fn scheme_protocol(scheme: Seq<char>) -> Option<ListenProtocol> {
    if scheme == "http"@ {
        Some(ListenProtocol::Http)
    } else if scheme == "https"@ {
        Some(ListenProtocol::Https)
    } else {
        None
    }
}

/// The listener protocol of a scheme, if it has one.
pub fn proto_of(scheme: &str) -> (r: Option<ListenProtocol>)
    ensures
        r == scheme_protocol(scheme@),
{
    if str_eq(scheme, "http") {
        Some(ListenProtocol::Http)
    } else if str_eq(scheme, "https") {
        Some(ListenProtocol::Https)
    } else {
        None
    }
}

/// The label of an upstream scheme.
pub open spec fn scheme_name(s: Scheme) -> Seq<char> {
    match s {
        Scheme::Http => "http"@,
        Scheme::Https => "https"@,
    }
}

/// The label of an upstream scheme.
pub fn scheme_label(s: Scheme) -> (r: &'static str)
    ensures
        r@ == scheme_name(s),
{
    match s {
        Scheme::Http => "http",
        Scheme::Https => "https",
    }
}

/// The label of a policy.
pub open spec fn policy_name(p: LbPolicy) -> Seq<char> {
    match p {
        LbPolicy::RoundRobin => "round_robin"@,
        LbPolicy::LeastRequest => "least_request"@,
        LbPolicy::RingHash => "ring_hash"@,
    }
}

/// The label of a policy.
pub fn policy_label(p: LbPolicy) -> (r: &'static str)
    ensures
        r@ == policy_name(p),
{
    match p {
        LbPolicy::RoundRobin => "round_robin",
        LbPolicy::LeastRequest => "least_request",
        LbPolicy::RingHash => "ring_hash",
    }
}

/// How a policy selects.
pub open spec fn policy_note(p: LbPolicy) -> Seq<char> {
    match p {
        LbPolicy::RoundRobin => "round-robin across healthy backends (weighted by weight)"@,
        LbPolicy::LeastRequest => "least-request: the backend with fewest in-flight wins"@,
        LbPolicy::RingHash => "ring-hash: same host/key sticks to the marked backend"@,
    }
}

fn note_of(p: LbPolicy) -> (r: &'static str)
    ensures
        r@ == policy_note(p),
{
    match p {
        LbPolicy::RoundRobin => "round-robin across healthy backends (weighted by weight)",
        LbPolicy::LeastRequest => "least-request: the backend with fewest in-flight wins",
        LbPolicy::RingHash => "ring-hash: same host/key sticks to the marked backend",
    }
}

// ---------------------------------------------------------------------------
// A pool
// ---------------------------------------------------------------------------

/// Whether a backend has a weight other than one.
pub open spec fn weights_matter(upstreams: Seq<Upstream>) -> bool {
    exists|i: int| 0 <= i < upstreams.len() && (#[trigger] upstreams[i]).weight != 1
}

/// What a trace tells of a pool.
pub struct PoolShape {
    pub scheme: Scheme,
    pub policy: LbPolicy,
    pub upstreams: Seq<Upstream>,
    pub ring: Seq<(u64, usize)>,
}

/// What a trace tells of a pool.
pub open spec fn shape_of(pool: Pool) -> PoolShape {
    PoolShape {
        scheme: pool.scheme,
        policy: pool.policy,
        upstreams: pool.upstreams@,
        ring: pool.ring(),
    }
}

/// What a trace tells of the pools, by id.
pub open spec fn shapes_of(pools: PoolSet) -> Map<Seq<char>, PoolShape> {
    Map::new(|id: Seq<char>| pools.has(id), |id: Seq<char>| shape_of(pools.pool(id)))
}

/// The round-robin counters of the pools, by id.
pub open spec fn turns_of(pools: PoolSet) -> Map<Seq<char>, usize> {
    Map::new(|id: Seq<char>| pools.has(id), |id: Seq<char>| pools.pool(id).counter())
}

/// Whether pools have changed in nothing but their round-robin counters.
pub open spec fn only_turned(before: PoolSet, after: PoolSet) -> bool {
    &&& after.places() == before.places()
    &&& after.listing().len() == before.listing().len()
    &&& forall|i: int|
        0 <= i < before.listing().len() ==> {
            &&& (#[trigger] after.listing()[i]).same_config(before.listing()[i])
            &&& after.listing()[i].inflight() == before.listing()[i].inflight()
        }
}

/// The backend that is marked, and the round-robin counter afterwards. With
/// ring hash it is the one the host is hashed to. Where no healthy backend owns
/// a ring point the healthy ones take turns.
pub open spec fn marked(pool: PoolShape, health: HealthMap, host: Seq<char>, turn: usize) -> (
    Option<Seq<char>>,
    usize,
) {
    let ups = pool.upstreams;
    let healthy = healthy_upto(ups, health, ups.len());
    if pool.policy == LbPolicy::RingHash && healthy.len() > 0 {
        let key = hash_of(text_writes(host));
        let (i, next) = match ring_choice(pool.ring, key, |i: usize| healthy.contains(i)) {
            Some(i) => (i, turn),
            None => (healthy[turn as int % healthy.len() as int], wrapping_add_one(turn)),
        };
        (Some(authority_text(ups[i as int].host@, ups[i as int].port)), next)
    } else {
        (None, turn)
    }
}

/// The line of backend `i`.
pub open spec fn backend_line(
    upstreams: Seq<Upstream>,
    mark: Option<Seq<char>>,
    prefix: Seq<char>,
    i: int,
) -> Seq<char> {
    let u = upstreams[i];
    let authority = authority_text(u.host@, u.port);
    prefix + (if i + 1 == upstreams.len() {
        "└─"@
    } else {
        "├─"@
    }) + " "@ + authority + (if weights_matter(upstreams) {
        "  (weight "@ + decimal(u.weight as nat) + ")"@
    } else {
        Seq::empty()
    }) + (if mark == Some(authority) {
        "   ◀ selected for this host (ring-hash)"@
    } else {
        Seq::empty()
    })
}

/// The line of a pool.
pub open spec fn pool_line(pool: PoolShape, id: Seq<char>, prefix: Seq<char>) -> Seq<char> {
    prefix + "└─ forward → pool \""@ + id + "\"  (scheme="@ + scheme_name(pool.scheme)
        + ", policy="@ + policy_name(pool.policy) + ", "@ + decimal(pool.upstreams.len())
        + " backend"@ + (if pool.upstreams.len() == 1 {
        ""@
    } else {
        "s"@
    }) + ")"@
}

/// What a part of a trace comes to: its lines, and the round-robin counters of
/// the pools after it.
pub struct Told {
    pub lines: Seq<Seq<char>>,
    pub turns: Map<Seq<char>, usize>,
}

/// The trace of forwarding to a pool.
pub open spec fn forward_told(
    pools: Map<Seq<char>, PoolShape>,
    health: HealthMap,
    host: Seq<char>,
    prefix: Seq<char>,
    id: Seq<char>,
    turns: Map<Seq<char>, usize>,
) -> Told {
    if pools.contains_key(id) {
        let pool = pools[id];
        let bp = prefix + "   "@;
        let ups = pool.upstreams;
        let (mark, turn) = marked(pool, health, host, turns[id]);
        Told {
            lines: seq![pool_line(pool, id, prefix)] + Seq::new(
                ups.len(),
                |i: int| backend_line(ups, mark, bp, i),
            ) + seq![bp + "   ↳ "@ + policy_note(pool.policy)],
            turns: turns.insert(id, turn),
        }
    } else {
        Told {
            lines: seq![prefix + "└─ forward → pool \""@ + id + "\"  NOT FOUND → 502"@],
            turns,
        }
    }
}

fn any_weight(upstreams: &Vec<Upstream>) -> (r: bool)
    ensures
        r == weights_matter(upstreams@),
{
    let mut i: usize = 0;
    while i < upstreams.len()
        invariant
            i <= upstreams@.len(),
            forall|j: int| 0 <= j < i ==> (#[trigger] upstreams@[j]).weight == 1,
        decreases upstreams@.len() - i,
    {
        if upstreams[i].weight != 1 {
            return true;
        }
        i += 1;
    }
    false
}

/// Selects in the pool and gives the backend to mark.
fn mark_backend(pools: &mut PoolSet, health: &HealthMap, host: &str, id: &PoolId) -> (r: Option<
    String,
>)
    requires
        old(pools).wf(),
        old(pools).has(id.0@),
    ensures
        final(pools).wf(),
        only_turned(*old(pools), *final(pools)),
        ({
            let (mark, turn) = marked(
                shapes_of(*old(pools))[id.0@],
                *health,
                host@,
                turns_of(*old(pools))[id.0@],
            );
            &&& mark == match r {
                Some(a) => Some(a@),
                None => None,
            }
            &&& turns_of(*final(pools)) == turns_of(*old(pools)).insert(id.0@, turn)
        }),
{
    let ghost before = *pools;
    let ghost was = before.pool(id.0@);
    let ghost at = before.places()[id.0@] as int;
    let key = hash64(host);
    proof {
        assert(before.places().contains_key(id.0@));
        assert(before.listing()[at].wf());
    }
    let r = match pools.get_mut(id) {
        None => None,
        Some(p) => match p.policy {
            LbPolicy::RingHash => {
                let _count: usize = p.upstreams.len();
                proof {
                    lemma_healthy_upto(was.upstreams@, *health, was.upstreams@.len());
                    law_ring_hash_draws_nothing(was, was.healthy(*health), key, 0);
                }
                match p.select_with(health, Some(key), 0) {
                    Some(sel) => Some(sel.upstream.authority()),
                    None => None,
                }
            },
            _ => None,
        },
    };
    proof {
        assert(before.listing()[at].id.0@ == id.0@);
        assert forall|i: int| 0 <= i < before.listing().len() implies {
            &&& (#[trigger] pools.listing()[i]).same_config(before.listing()[i])
            &&& pools.listing()[i].inflight() == before.listing()[i].inflight()
            &&& pools.listing()[i].wf()
        } by {
            assert(before.listing()[i].wf());
        }
        assert(pools.wf()) by {
            assert forall|k: Seq<char>| #[trigger] pools.places().contains_key(k) implies {
                &&& pools.places()[k] < pools.listing().len()
                &&& pools.listing()[pools.places()[k] as int].id.0@ == k
            } by {
                assert(before.places().contains_key(k));
                assert(before.listing()[before.places()[k] as int].id.0@ == k);
            }
            assert forall|i: int| 0 <= i < pools.listing().len() implies {
                &&& (#[trigger] pools.listing()[i]).wf()
                &&& pools.places().contains_key(pools.listing()[i].id.0@)
                &&& pools.places()[pools.listing()[i].id.0@] == i
            } by {
                assert(before.places()[before.listing()[i].id.0@] == i);
            }
        }
        let turn = marked(
            shapes_of(before)[id.0@],
            *health,
            host@,
            turns_of(before)[id.0@],
        ).1;
        assert forall|k: Seq<char>| #[trigger] before.has(k) && k != id.0@ implies pools.pool(k)
            == before.pool(k) by {
            assert(before.listing()[before.places()[k] as int].id.0@ == k);
        }
        assert(turns_of(*pools) =~= turns_of(before).insert(id.0@, turn));
    }
    r
}

/// Pools that have only turned are told of as before.
proof fn lemma_same_shapes(before: PoolSet, after: PoolSet)
    requires
        before.wf(),
        only_turned(before, after),
    ensures
        shapes_of(after) == shapes_of(before),
{
    assert forall|id: Seq<char>| #[trigger] before.has(id) implies shape_of(after.pool(id))
        == shape_of(before.pool(id)) by {
        assert(before.places().contains_key(id));
        let i = before.places()[id] as int;
        assert(after.listing()[i].same_config(before.listing()[i]));
    }
    assert(shapes_of(after) =~= shapes_of(before));
}

fn write_backend(
    upstreams: &Vec<Upstream>,
    weighted: bool,
    mark: &Option<String>,
    prefix: &str,
    i: usize,
) -> (r: String)
    requires
        i < upstreams@.len(),
        weighted == weights_matter(upstreams@),
    ensures
        r@ == backend_line(
            upstreams@,
            match *mark {
                Some(m) => Some(m@),
                None => None,
            },
            prefix@,
            i as int,
        ),
{
    let u = &upstreams[i];
    let authority = u.authority();
    let branch = if i == upstreams.len() - 1 {
        "└─"
    } else {
        "├─"
    };
    let mut out = join3(prefix, branch, " ");
    out.append(authority.as_str());
    let weight = if weighted {
        join3("  (weight ", decimal_string(u.weight as u128).as_str(), ")")
    } else {
        let none = String::new();
        assert(none@ =~= Seq::empty());
        none
    };
    out.append(weight.as_str());
    let hit = match mark {
        Some(m) => str_eq(m.as_str(), authority.as_str()),
        None => false,
    };
    let tail = if hit {
        owned("   ◀ selected for this host (ring-hash)")
    } else {
        let none = String::new();
        assert(none@ =~= Seq::empty());
        none
    };
    out.append(tail.as_str());
    out
}

/// Renders forwarding to a pool. With ring hash this selects in the pool.
pub fn render_forward(
    pools: &mut PoolSet,
    health: &HealthMap,
    host: &str,
    prefix: &str,
    pool_id: &str,
    out: &mut Vec<String>,
)
    requires
        old(pools).wf(),
    ensures
        final(pools).wf(),
        only_turned(*old(pools), *final(pools)),
        ({
            let told = forward_told(
                shapes_of(*old(pools)),
                *health,
                host@,
                prefix@,
                pool_id@,
                turns_of(*old(pools)),
            );
            &&& texts(final(out)@) == texts(old(out)@) + told.lines
            &&& turns_of(*final(pools)) == told.turns
        }),
{
    let ghost before = texts(out@);
    let ghost first = *pools;
    let ghost told = forward_told(
        shapes_of(first),
        *health,
        host@,
        prefix@,
        pool_id@,
        turns_of(first),
    );
    let id = PoolId(owned(pool_id));
    if pools.get(&id).is_none() {
        let mut line = join3(prefix, "└─ forward → pool \"", pool_id);
        line.append("\"  NOT FOUND → 502");
        push_line(out, line);
        assert(texts(out@) =~= before + told.lines);
        return;
    }
    let mark = mark_backend(pools, health, host, &id);
    proof {
        lemma_same_shapes(first, *pools);
    }
    let pool = match pools.get(&id) {
        Some(p) => p,
        None => return,
    };
    let ghost shape = shapes_of(first)[pool_id@];
    assert(shape == shape_of(*pool));
    let mut head = join3(prefix, "└─ forward → pool \"", pool_id);
    head.append("\"  (scheme=");
    head.append(scheme_label(pool.scheme));
    head.append(", policy=");
    head.append(policy_label(pool.policy));
    head.append(", ");
    head.append(decimal_string(pool.upstreams.len() as u128).as_str());
    head.append(" backend");
    head.append(
        if pool.upstreams.len() == 1 {
            ""
        } else {
            "s"
        },
    );
    head.append(")");
    assert(head@ =~= pool_line(shape, pool_id@, prefix@));
    push_line(out, head);
    let bp = join2(prefix, "   ");
    let weighted = any_weight(&pool.upstreams);
    let ghost ups = pool.upstreams@;
    let ghost m = marked(shape, *health, host@, turns_of(first)[pool_id@]).0;
    let ghost lines = Seq::new(ups.len(), |i: int| backend_line(ups, m, bp@, i));
    let ghost start = texts(out@);
    let mut i: usize = 0;
    assert(start + lines.take(0) =~= start);
    while i < pool.upstreams.len()
        invariant
            i <= pool.upstreams@.len(),
            ups == pool.upstreams@,
            weighted == weights_matter(ups),
            m == (match mark {
                Some(x) => Some(x@),
                None => None,
            }),
            lines == Seq::new(ups.len(), |i: int| backend_line(ups, m, bp@, i)),
            texts(out@) == start + lines.take(i as int),
        decreases pool.upstreams@.len() - i,
    {
        let line = write_backend(&pool.upstreams, weighted, &mark, bp.as_str(), i);
        push_line(out, line);
        assert(lines.take(i + 1) =~= lines.take(i as int).push(lines[i as int]));
        assert(texts(out@) =~= start + lines.take(i + 1));
        i += 1;
    }
    assert(lines.take(i as int) =~= lines);
    push_line(out, join3(bp.as_str(), "   ↳ ", note_of(pool.policy)));
    assert(texts(out@) =~= before + told.lines);
}

/// Appends a line.
fn push_line(out: &mut Vec<String>, line: String)
    ensures
        texts(final(out)@) == texts(old(out)@).push(line@),
{
    let ghost before = out@;
    out.push(line);
    assert(texts(out@) =~= texts(before).push(line@));
}

// ---------------------------------------------------------------------------
// A journey
// ---------------------------------------------------------------------------

/// What a trace runs on.
pub struct Journey {
    pub routes: Seq<Route>,
    pub pools: Map<Seq<char>, PoolShape>,
    pub health: HealthMap,
    pub listeners: Seq<Listener>,
    pub host: Seq<char>,
    pub path: Seq<char>,
}

impl<'a> TraceCtx<'a> {
    /// What the trace runs on, with the given pools.
    pub open spec fn journey(self, pools: PoolSet) -> Journey {
        Journey {
            routes: self.table.routes(),
            pools: shapes_of(pools),
            health: *self.health,
            listeners: self.listeners@,
            host: self.host@,
            path: self.path@,
        }
    }
}

/// The trace of one listener hop and of what follows it, with the given
/// round-robin counters before it.
pub open spec fn hop_told(
    j: Journey,
    turns: Map<Seq<char>, usize>,
    prefix: Seq<char>,
    listener: Seq<char>,
    hop: int,
    visited: Seq<Seq<char>>,
) -> Told
    decreases MAX_HOPS - hop, 2int, 0int,
{
    match route_taken(j.routes, listener, j.host, j.path) {
        None => Told {
            lines: seq![prefix + "└─ listener \""@ + listener + "\": no route matched → 404"@],
            turns,
        },
        Some(route) => {
            let child = prefix + "   "@;
            let head = seq![
                prefix + "└─ listener \""@ + listener + "\" → route \""@ + route.id.0@ + "\""@,
            ];
            match route.action {
                RouteAction::Forward(pool) => {
                    let told = forward_told(j.pools, j.health, j.host, child, pool@, turns);
                    Told { lines: head + told.lines, turns: told.turns }
                },
                RouteAction::Fixed(f) => Told {
                    lines: head + seq![
                        child + "└─ respond "@ + decimal(f.status as nat)
                            + " (fixed, no upstream)"@,
                    ],
                    turns,
                },
                RouteAction::Redirect(rd) => {
                    let told = redirect_told(j, turns, child, rd.scheme@, hop, visited);
                    Told {
                        lines: head + seq![
                            child + "└─ redirect "@ + decimal(rd.status as nat) + " → "@
                                + rd.scheme@ + "://"@ + j.host + j.path,
                        ] + told.lines,
                        turns: told.turns,
                    }
                },
            }
        },
    }
}

/// The trace of following a redirect.
pub open spec fn redirect_told(
    j: Journey,
    turns: Map<Seq<char>, usize>,
    prefix: Seq<char>,
    scheme: Seq<char>,
    hop: int,
    visited: Seq<Seq<char>>,
) -> Told
    decreases MAX_HOPS - hop, 1int, 0int,
{
    let gchild = prefix + "   "@;
    if hop + 1 >= MAX_HOPS {
        Told { lines: seq![gchild + "(stopped: too many redirect hops)"@], turns }
    } else {
        match scheme_protocol(scheme) {
            None => Told {
                lines: seq![gchild + "("@ + scheme + ":// is external — not traced further)"@],
                turns,
            },
            Some(p) => if some_listener(j.listeners, p, j.listeners.len() as int) {
                targets_told(j, turns, gchild, p, hop, visited, j.listeners.len())
            } else {
                Told {
                    lines: seq![gchild + "(no "@ + scheme + " listener configured to receive this)"@],
                    turns,
                }
            },
        }
    }
}

/// Whether one of the first `n` listeners has the given protocol.
pub open spec fn some_listener(listeners: Seq<Listener>, p: ListenProtocol, n: int) -> bool {
    exists|i: int| 0 <= i < n && (#[trigger] listeners[i]).protocol == p
}

/// The trace of the first `n` listeners that a redirect may lead to, one after
/// another.
pub open spec fn targets_told(
    j: Journey,
    turns: Map<Seq<char>, usize>,
    gchild: Seq<char>,
    p: ListenProtocol,
    hop: int,
    visited: Seq<Seq<char>>,
    n: nat,
) -> Told
    decreases MAX_HOPS - hop, 0int, n,
{
    if n == 0 || hop + 1 >= MAX_HOPS {
        Told { lines: Seq::empty(), turns }
    } else {
        let l = j.listeners[n - 1];
        let before = targets_told(j, turns, gchild, p, hop, visited, (n - 1) as nat);
        if l.protocol != p {
            before
        } else if visited.contains(l.id.0@) {
            Told {
                lines: before.lines + seq![
                    gchild + "└─ (redirect loop: listener \""@ + l.id.0@
                        + "\" already on this path)"@,
                ],
                turns: before.turns,
            }
        } else {
            let told = hop_told(
                j,
                before.turns,
                gchild,
                l.id.0@,
                hop + 1,
                visited.push(l.id.0@),
            );
            Told { lines: before.lines + told.lines, turns: told.turns }
        }
    }
}

fn was_visited(visited: &Vec<String>, id: &str) -> (r: bool)
    ensures
        r == texts(visited@).contains(id@),
{
    let mut i: usize = 0;
    while i < visited.len()
        invariant
            i <= visited@.len(),
            forall|k: int| 0 <= k < i ==> (#[trigger] visited@[k])@ != id@,
        decreases visited@.len() - i,
    {
        if str_eq(visited[i].as_str(), id) {
            assert(texts(visited@)[i as int] == id@);
            return true;
        }
        i += 1;
    }
    proof {
        if texts(visited@).contains(id@) {
            let k = choose|k: int| 0 <= k < texts(visited@).len() && texts(visited@)[k] == id@;
            assert(visited@[k]@ == id@);
        }
    }
    false
}

fn has_listener(listeners: &Vec<Listener>, p: ListenProtocol) -> (r: bool)
    ensures
        r == some_listener(listeners@, p, listeners@.len() as int),
{
    let mut i: usize = 0;
    while i < listeners.len()
        invariant
            i <= listeners@.len(),
            forall|k: int| 0 <= k < i ==> (#[trigger] listeners@[k]).protocol != p,
        decreases listeners@.len() - i,
    {
        if listeners[i].protocol == p {
            return true;
        }
        i += 1;
    }
    false
}

/// Render one listener hop and recurse through any redirect it issues.
pub fn render(
    ctx: &TraceCtx,
    pools: &mut PoolSet,
    prefix: &str,
    listener_id: &str,
    hop: usize,
    visited: &mut Vec<String>,
    out: &mut Vec<String>,
)
    requires
        old(pools).wf(),
        hop < MAX_HOPS,
    ensures
        texts(final(visited)@) == texts(old(visited)@),
        final(pools).wf(),
        only_turned(*old(pools), *final(pools)),
        ({
            let told = hop_told(
                ctx.journey(*old(pools)),
                turns_of(*old(pools)),
                prefix@,
                listener_id@,
                hop as int,
                texts(old(visited)@),
            );
            &&& texts(final(out)@) == texts(old(out)@) + told.lines
            &&& turns_of(*final(pools)) == told.turns
        }),
    decreases MAX_HOPS - hop, 2int, 0int,
{
    let ghost before = texts(out@);
    let ghost j = ctx.journey(*pools);
    let ghost seen = texts(visited@);
    let ghost told = hop_told(j, turns_of(*pools), prefix@, listener_id@, hop as int, seen);
    let id = ListenerId(owned(listener_id));
    let route = match ctx.table.match_request(&id, ctx.host, ctx.path) {
        Some(r) => r,
        None => {
            proof {
                assert forall|i: int| !routes_to(j.routes, listener_id@, j.host, j.path, i) by {
                    assert(!route_applies(
                        ctx.table.routes(),
                        id.0@,
                        ctx.host@,
                        ctx.path@,
                        i,
                    ));
                }
            }
            let mut line = join3(prefix, "└─ listener \"", listener_id);
            line.append("\": no route matched → 404");
            push_line(out, line);
            assert(texts(out@) =~= before + told.lines);
            return;
        },
    };
    let ghost taken = route_taken(j.routes, listener_id@, j.host, j.path)->0;
    proof {
        let i = choose|i: int|
            routes_to(j.routes, listener_id@, j.host, j.path, i) && route.stands_for(j.routes[i]);
        let k = choose|k: int| routes_to(j.routes, listener_id@, j.host, j.path, k);
        law_route_is_unique(j.routes, listener_id@, j.host, j.path, i, k);
        assert(route.stands_for(taken));
    }
    let mut line = join3(prefix, "└─ listener \"", listener_id);
    line.append("\" → route \"");
    line.append(route.id.0.as_str());
    line.append("\"");
    push_line(out, line);
    let child = join2(prefix, "   ");
    match &route.action {
        RouteAction::Forward(pool) => {
            render_forward(pools, ctx.health, ctx.host, child.as_str(), pool.as_str(), out);
        },
        RouteAction::Fixed(f) => {
            let mut line = join3(
                child.as_str(),
                "└─ respond ",
                decimal_string(f.status as u128).as_str(),
            );
            line.append(" (fixed, no upstream)");
            push_line(out, line);
        },
        RouteAction::Redirect(rd) => {
            let mut line = join3(
                child.as_str(),
                "└─ redirect ",
                decimal_string(rd.status as u128).as_str(),
            );
            line.append(" → ");
            line.append(rd.scheme.as_str());
            line.append("://");
            line.append(ctx.host);
            line.append(ctx.path);
            push_line(out, line);
            render_redirect(ctx, pools, child.as_str(), rd.scheme.as_str(), hop, visited, out);
        },
    }
    assert(texts(out@) =~= before + told.lines);
}

/// Render what follows a redirect.
pub fn render_redirect(
    ctx: &TraceCtx,
    pools: &mut PoolSet,
    prefix: &str,
    scheme: &str,
    hop: usize,
    visited: &mut Vec<String>,
    out: &mut Vec<String>,
)
    requires
        old(pools).wf(),
        hop < MAX_HOPS,
    ensures
        texts(final(visited)@) == texts(old(visited)@),
        final(pools).wf(),
        only_turned(*old(pools), *final(pools)),
        ({
            let told = redirect_told(
                ctx.journey(*old(pools)),
                turns_of(*old(pools)),
                prefix@,
                scheme@,
                hop as int,
                texts(old(visited)@),
            );
            &&& texts(final(out)@) == texts(old(out)@) + told.lines
            &&& turns_of(*final(pools)) == told.turns
        }),
    decreases MAX_HOPS - hop, 1int, 0int,
{
    let ghost before = texts(out@);
    let ghost first = *pools;
    let ghost j = ctx.journey(first);
    let ghost turns = turns_of(first);
    let ghost seen = texts(visited@);
    let ghost told = redirect_told(j, turns, prefix@, scheme@, hop as int, seen);
    let gchild = join2(prefix, "   ");
    if hop + 1 >= MAX_HOPS {
        push_line(out, join2(gchild.as_str(), "(stopped: too many redirect hops)"));
        assert(texts(out@) =~= before + told.lines);
        return;
    }
    let p = match proto_of(scheme) {
        Some(p) => p,
        None => {
            let mut line = join3(gchild.as_str(), "(", scheme);
            line.append(":// is external — not traced further)");
            push_line(out, line);
            assert(texts(out@) =~= before + told.lines);
            return;
        },
    };
    if !has_listener(ctx.listeners, p) {
        let mut line = join3(gchild.as_str(), "(no ", scheme);
        line.append(" listener configured to receive this)");
        push_line(out, line);
        assert(texts(out@) =~= before + told.lines);
        return;
    }
    let mut n: usize = 0;
    assert(before + targets_told(j, turns, gchild@, p, hop as int, seen, 0).lines =~= before);
    while n < ctx.listeners.len()
        invariant
            n <= ctx.listeners@.len(),
            first.wf(),
            pools.wf(),
            only_turned(first, *pools),
            hop + 1 < MAX_HOPS,
            j == ctx.journey(first),
            texts(visited@) == seen,
            texts(out@) == before + targets_told(
                j,
                turns,
                gchild@,
                p,
                hop as int,
                seen,
                n as nat,
            ).lines,
            turns_of(*pools) == targets_told(
                j,
                turns,
                gchild@,
                p,
                hop as int,
                seen,
                n as nat,
            ).turns,
        decreases ctx.listeners@.len() - n,
    {
        let l = &ctx.listeners[n];
        if l.protocol == p {
            if was_visited(visited, l.id.0.as_str()) {
                let mut line = join3(
                    gchild.as_str(),
                    "└─ (redirect loop: listener \"",
                    l.id.0.as_str(),
                );
                line.append("\" already on this path)");
                push_line(out, line);
            } else {
                push_line(visited, l.id.0.clone());
                proof {
                    lemma_same_shapes(first, *pools);
                }
                render(ctx, pools, gchild.as_str(), l.id.0.as_str(), hop + 1, visited, out);
                let ghost with_it = visited@;
                assert(texts(with_it).len() == with_it.len());
                let _gone = visited.pop();
                assert(texts(visited@) =~= texts(with_it).drop_last());
                assert(texts(visited@) =~= seen);
            }
        }
        assert(texts(out@) =~= before + targets_told(
            j,
            turns,
            gchild@,
            p,
            hop as int,
            seen,
            (n + 1) as nat,
        ).lines);
        n += 1;
    }
    assert(texts(out@) =~= before + told.lines);
}

// ---------------------------------------------------------------------------
// The whole trace
// ---------------------------------------------------------------------------

/// The listener a trace is restricted to.
pub open spec fn asked(only: Option<&str>) -> Option<Seq<char>> {
    match only {
        Some(s) => Some(s@),
        None => None,
    }
}

/// Whether a trace starts at a listener.
pub open spec fn is_entry(l: Listener, only: Option<Seq<char>>) -> bool {
    match only {
        Some(id) => l.id.0@ == id,
        None => true,
    }
}

/// The trace of the journeys that start at the first `n` listeners, one after
/// another.
pub open spec fn entries_told(
    j: Journey,
    turns: Map<Seq<char>, usize>,
    only: Option<Seq<char>>,
    n: nat,
) -> Told
    decreases n,
{
    if n == 0 {
        Told { lines: Seq::empty(), turns }
    } else {
        let l = j.listeners[n - 1];
        let before = entries_told(j, turns, only, (n - 1) as nat);
        if is_entry(l, only) {
            let told = hop_told(j, before.turns, "  "@, l.id.0@, 0, seq![l.id.0@]);
            Told {
                lines: before.lines + seq![
                    Seq::<char>::empty(),
                    "▶ "@ + listener_scheme(l.protocol) + "://"@ + j.host + j.path,
                ] + told.lines,
                turns: told.turns,
            }
        } else {
            before
        }
    }
}

/// Whether one of the first `n` listeners starts a trace.
pub open spec fn some_entry(listeners: Seq<Listener>, only: Option<Seq<char>>, n: int) -> bool {
    exists|i: int| 0 <= i < n && is_entry(#[trigger] listeners[i], only)
}

/// The whole trace, with the given round-robin counters before it.
pub open spec fn trace_told(
    j: Journey,
    turns: Map<Seq<char>, usize>,
    only: Option<Seq<char>>,
) -> Told {
    let head = seq!["trace  host="@ + j.host + "  path="@ + j.path];
    let entries = entries_told(j, turns, only, j.listeners.len());
    if some_entry(j.listeners, only, j.listeners.len() as int) {
        Told {
            lines: head + entries.lines + seq![
                Seq::<char>::empty(),
                "note: health is shown as configured intent (all backends assumed up);"@,
                "      query a live node's /metrics for actual backend health."@,
            ],
            turns: entries.turns,
        }
    } else {
        Told { lines: head + seq![Seq::<char>::empty(), "(no matching entry listener)"@], turns }
    }
}

fn blank() -> (r: String)
    ensures
        r@ == Seq::<char>::empty(),
{
    let s = String::new();
    assert(s@ =~= Seq::empty());
    s
}

/// Traces a request through every listener, or through one of them.
pub fn trace(ctx: &TraceCtx, pools: &mut PoolSet, only: Option<&str>) -> (r: Vec<String>)
    requires
        old(pools).wf(),
    ensures
        final(pools).wf(),
        only_turned(*old(pools), *final(pools)),
        ({
            let told = trace_told(
                ctx.journey(*old(pools)),
                turns_of(*old(pools)),
                asked(only),
            );
            &&& texts(r@) == told.lines
            &&& turns_of(*final(pools)) == told.turns
        }),
{
    let ghost first = *pools;
    let ghost j = ctx.journey(first);
    let ghost turns = turns_of(first);
    let ghost want = asked(only);
    let mut out: Vec<String> = Vec::new();
    let mut line = join3("trace  host=", ctx.host, "  path=");
    line.append(ctx.path);
    assert(texts(out@) =~= Seq::empty());
    push_line(&mut out, line);
    let ghost head = texts(out@);
    let mut found = false;
    let mut n: usize = 0;
    assert(head + entries_told(j, turns, want, 0).lines =~= head);
    while n < ctx.listeners.len()
        invariant
            n <= ctx.listeners@.len(),
            first.wf(),
            pools.wf(),
            only_turned(first, *pools),
            j == ctx.journey(first),
            want == asked(only),
            found == some_entry(j.listeners, want, n as int),
            !found ==> entries_told(j, turns, want, n as nat) == (Told { lines: Seq::empty(), turns }),
            texts(out@) == head + entries_told(j, turns, want, n as nat).lines,
            turns_of(*pools) == entries_told(j, turns, want, n as nat).turns,
        decreases ctx.listeners@.len() - n,
    {
        let l = &ctx.listeners[n];
        let entry = match only {
            Some(id) => str_eq(l.id.0.as_str(), id),
            None => true,
        };
        proof {
            if some_entry(j.listeners, want, n + 1) {
                let i = choose|i: int| 0 <= i < n + 1 && is_entry(#[trigger] j.listeners[i], want);
                if i < n {
                    assert(some_entry(j.listeners, want, n as int));
                }
            }
            if some_entry(j.listeners, want, n as int) {
                let i = choose|i: int| 0 <= i < n && is_entry(#[trigger] j.listeners[i], want);
                assert(some_entry(j.listeners, want, n + 1));
            }
        }
        if entry {
            assert(is_entry(j.listeners[n as int], want));
            found = true;
            push_line(&mut out, blank());
            let mut line = join3("▶ ", scheme_of(l.protocol), "://");
            line.append(ctx.host);
            line.append(ctx.path);
            push_line(&mut out, line);
            let mut visited: Vec<String> = Vec::new();
            assert(texts(visited@) =~= Seq::empty());
            push_line(&mut visited, l.id.0.clone());
            assert(texts(visited@) =~= seq![l.id.0@]);
            proof {
                lemma_same_shapes(first, *pools);
            }
            render(ctx, pools, "  ", l.id.0.as_str(), 0, &mut visited, &mut out);
        }
        assert(texts(out@) =~= head + entries_told(j, turns, want, (n + 1) as nat).lines);
        n += 1;
    }
    if found {
        push_line(&mut out, blank());
        push_line(
            &mut out,
            owned("note: health is shown as configured intent (all backends assumed up);"),
        );
        push_line(
            &mut out,
            owned("      query a live node's /metrics for actual backend health."),
        );
    } else {
        push_line(&mut out, blank());
        push_line(&mut out, owned("(no matching entry listener)"));
    }
    assert(texts(out@) =~= trace_told(j, turns, want).lines);
    out
}

/// Traces a request through a configuration. Health is optimistic: the trace
/// shows configured intent, not live health.
pub fn trace_config(cfg: &DynamicConfig, host: &str, path: &str, only: Option<&str>) -> (r: Vec<
    String,
>)
    ensures
        exists|j: Journey, pools: PoolSet|
            {
                &&& texts(r@) == (#[trigger] trace_told(j, turns_of(pools), asked(only))).lines
                &&& j.routes == cfg.routes@
                &&& pools.built_from(cfg.pools@)
                &&& j.pools == shapes_of(pools)
                &&& j.health.optimistic()
                &&& j.health.recorded() == Map::<(Seq<char>, u16), HealthStatus>::empty()
                &&& j.listeners == cfg.listeners@
                &&& j.host == host@
                &&& j.path == path@
            },
{
    let table = RouteTable::compile(cfg);
    let mut pools = PoolSet::build(cfg.pools.as_slice());
    let health = HealthMap::new(true);
    let ctx = TraceCtx { table: &table, health: &health, listeners: &cfg.listeners, host, path };
    let ghost fresh = pools;
    let r = trace(&ctx, &mut pools, only);
    proof {
        let j = ctx.journey(fresh);
        assert(texts(r@) == trace_told(j, turns_of(fresh), asked(only)).lines);
        assert(j.health.recorded() == Map::<(Seq<char>, u16), HealthStatus>::empty());
    }
    r
}

/// The trace shows the route that the proxy takes: the first line of a
/// listener hop names the route that the request is routed by, and says 404 if
/// no route applies.
pub proof fn law_trace_follows_routing(
    j: Journey,
    turns: Map<Seq<char>, usize>,
    prefix: Seq<char>,
    listener: Seq<char>,
    hop: int,
    visited: Seq<Seq<char>>,
    i: int,
)
    ensures
        ({
            let told = hop_told(j, turns, prefix, listener, hop, visited);
            &&& routes_to(j.routes, listener, j.host, j.path, i) ==> told.lines[0] == prefix
                + "└─ listener \""@ + listener + "\" → route \""@ + j.routes[i].id.0@ + "\""@
            &&& (forall|k: int| !route_applies(j.routes, listener, j.host, j.path, k))
                ==> told.lines == seq![
                prefix + "└─ listener \""@ + listener + "\": no route matched → 404"@,
            ] && told.turns == turns
        }),
{
    if routes_to(j.routes, listener, j.host, j.path, i) {
        let c = choose|c: int| routes_to(j.routes, listener, j.host, j.path, c);
        law_route_is_unique(j.routes, listener, j.host, j.path, i, c);
    }
}

/// The mark rests on the host alone as long as some healthy backend owns a
/// ring point: it is the same whenever the trace comes to the pool.
pub proof fn law_mark_is_sticky(
    pool: PoolShape,
    health: HealthMap,
    host: Seq<char>,
    turn: usize,
    later: usize,
    k: int,
)
    requires
        0 <= k < pool.ring.len(),
        healthy_upto(pool.upstreams, health, pool.upstreams.len()).contains(pool.ring[k].1),
    ensures
        marked(pool, health, host, turn).0 == marked(pool, health, host, later).0,
        marked(pool, health, host, turn).1 == turn,
{
    let healthy = healthy_upto(pool.upstreams, health, pool.upstreams.len());
    law_ring_finds_healthy(
        pool.ring,
        hash_of(text_writes(host)),
        |i: usize| healthy.contains(i),
    );
}

// ---------------------------------------------------------------------------
// Laws of traces
// ---------------------------------------------------------------------------

/// Schemes and protocols stand for each other; any other scheme is external.
pub proof fn law_schemes_and_protocols(p: ListenProtocol, scheme: Seq<char>)
    ensures
        listener_scheme(ListenProtocol::Http) == "http"@,
        listener_scheme(ListenProtocol::Https) == "https"@,
        scheme_protocol(listener_scheme(p)) == Some(p),
        scheme_protocol(scheme) is None <==> scheme != "http"@ && scheme != "https"@,
        scheme_protocol(scheme) is Some ==> listener_scheme(scheme_protocol(scheme)->0) == scheme,
        scheme_name(Scheme::Http) == "http"@,
        scheme_name(Scheme::Https) == "https"@,
{
    reveal_strlit("http");
    reveal_strlit("https");
    assert("http"@.len() != "https"@.len());
}

/// Each policy goes by its own name and is explained by its own note.
pub proof fn law_policies_are_told_apart()
    ensures
        policy_name(LbPolicy::RoundRobin) == "round_robin"@,
        policy_name(LbPolicy::LeastRequest) == "least_request"@,
        policy_name(LbPolicy::RingHash) == "ring_hash"@,
        policy_note(LbPolicy::RoundRobin)
            == "round-robin across healthy backends (weighted by weight)"@,
        policy_note(LbPolicy::LeastRequest)
            == "least-request: the backend with fewest in-flight wins"@,
        policy_note(LbPolicy::RingHash)
            == "ring-hash: same host/key sticks to the marked backend"@,
{
}

/// With ring hash the marked backend is the one that the pool selects for the
/// hash of the host, and the trace takes the turn that the selection takes. With
/// any other policy nothing is marked and no turn is taken.
pub proof fn law_mark_is_the_selection(
    pool: Pool,
    after: Pool,
    health: HealthMap,
    host: Seq<char>,
    draw: u64,
    r: Option<Selection>,
)
    requires
        pool.wf(),
        pool.upstreams@.len() <= usize::MAX,
        pool.selects(after, health, Some(hash_of(text_writes(host))), draw, r),
    ensures
        ({
            let m = marked(shape_of(pool), health, host, pool.counter());
            &&& pool.policy != LbPolicy::RingHash ==> m.0 is None && m.1 == pool.counter()
            &&& pool.policy == LbPolicy::RingHash ==> m.1 == after.counter()
            &&& pool.policy == LbPolicy::RingHash && r is None ==> m.0 is None
            &&& pool.policy == LbPolicy::RingHash && r is Some ==> m.0 == Some(
                r->0.upstream.host@ + ":"@ + decimal(r->0.upstream.port as nat),
            )
        }),
{
    lemma_healthy_upto(pool.upstreams@, health, pool.upstreams@.len());
    if pool.policy == LbPolicy::RingHash {
        law_ring_hash_draws_nothing(
            pool,
            pool.healthy(health),
            hash_of(text_writes(host)),
            draw,
        );
    }
}

/// The line of a backend has its address behind a branch, which closes for the
/// last one; then its weight, where some weight is not one; and at the end the
/// mark, exactly where it is the marked one.
pub proof fn law_backend_lines(
    upstreams: Seq<Upstream>,
    mark: Option<Seq<char>>,
    prefix: Seq<char>,
    i: int,
    w: int,
)
    requires
        0 <= i < upstreams.len(),
    ensures
        ({
            let u = upstreams[i];
            let address = u.host@ + ":"@ + decimal(u.port as nat);
            let start = if i == upstreams.len() - 1 {
                prefix + "└─ "@ + address
            } else {
                prefix + "├─ "@ + address
            };
            let end = if mark == Some(address) {
                "   ◀ selected for this host (ring-hash)"@
            } else {
                Seq::empty()
            };
            &&& (forall|k: int| 0 <= k < upstreams.len() ==> (#[trigger] upstreams[k]).weight == 1)
                ==> backend_line(upstreams, mark, prefix, i) == start + end
            &&& 0 <= w < upstreams.len() && upstreams[w].weight != 1 ==> backend_line(
                upstreams,
                mark,
                prefix,
                i,
            ) == start + "  (weight "@ + decimal(u.weight as nat) + ")"@ + end
        }),
{
    reveal_strlit("└─");
    reveal_strlit("├─");
    reveal_strlit("└─ ");
    reveal_strlit("├─ ");
    reveal_strlit(" ");
    assert("└─ "@ =~= "└─"@ + " "@);
    assert("├─ "@ =~= "├─"@ + " "@);
    let u = upstreams[i];
    let address = u.host@ + ":"@ + decimal(u.port as nat);
    let last = i == upstreams.len() - 1;
    let start = if last {
        prefix + "└─ "@ + address
    } else {
        prefix + "├─ "@ + address
    };
    let end = if mark == Some(address) {
        "   ◀ selected for this host (ring-hash)"@
    } else {
        Seq::empty()
    };
    let line = backend_line(upstreams, mark, prefix, i);
    if weights_matter(upstreams) {
        assert(line =~= start + "  (weight "@ + decimal(u.weight as nat) + ")"@ + end);
    } else {
        assert(line =~= start + end);
        if 0 <= w < upstreams.len() {
            assert(upstreams[w].weight == 1);
        }
    }
}

/// The line of a pool names it, its scheme and its policy, and counts its
/// backends.
pub proof fn law_pool_lines(pool: PoolShape, id: Seq<char>, prefix: Seq<char>)
    ensures
        ({
            let start = prefix + "└─ forward → pool \""@ + id + "\"  (scheme="@ + scheme_name(
                pool.scheme,
            ) + ", policy="@ + policy_name(pool.policy) + ", "@;
            &&& pool.upstreams.len() == 1 ==> pool_line(pool, id, prefix) == start
                + "1 backend)"@
            &&& pool.upstreams.len() != 1 ==> pool_line(pool, id, prefix) == start + decimal(
                pool.upstreams.len(),
            ) + " backends)"@
        }),
{
    reveal_strlit("1 backend)");
    reveal_strlit(" backends)");
    reveal_strlit(" backend");
    reveal_strlit("s");
    reveal_strlit("");
    reveal_strlit(")");
    let start = prefix + "└─ forward → pool \""@ + id + "\"  (scheme="@ + scheme_name(pool.scheme)
        + ", policy="@ + policy_name(pool.policy) + ", "@;
    if pool.upstreams.len() == 1 {
        assert(decimal(1) =~= seq!['1']);
        assert(pool_line(pool, id, prefix) =~= start + "1 backend)"@);
    } else {
        assert(pool_line(pool, id, prefix) =~= start + decimal(pool.upstreams.len())
            + " backends)"@);
    }
}

/// Forwarding to a pool is told in one line for the pool, one for each of its
/// backends in their order, and one for its policy. The turn of no other pool
/// changes. A pool that does not exist is told in one line.
pub proof fn law_forwarding_is_told(
    pools: Map<Seq<char>, PoolShape>,
    health: HealthMap,
    host: Seq<char>,
    prefix: Seq<char>,
    id: Seq<char>,
    turns: Map<Seq<char>, usize>,
    i: int,
    other: Seq<char>,
)
    ensures
        ({
            let told = forward_told(pools, health, host, prefix, id, turns);
            let pool = pools[id];
            let n = pool.upstreams.len() as int;
            let inner = prefix + "   "@;
            &&& !pools.contains_key(id) ==> told.turns == turns && told.lines == seq![
                prefix + "└─ forward → pool \""@ + id + "\"  NOT FOUND → 502"@,
            ]
            &&& pools.contains_key(id) ==> {
                &&& told.lines.len() == n + 2
                &&& told.lines[0] == pool_line(pool, id, prefix)
                &&& 0 <= i < n ==> told.lines[i + 1] == backend_line(
                    pool.upstreams,
                    marked(pool, health, host, turns[id]).0,
                    inner,
                    i,
                )
                &&& told.lines[n + 1] == inner + "   ↳ "@ + policy_note(pool.policy)
                &&& told.turns[id] == marked(pool, health, host, turns[id]).1
                &&& other != id ==> told.turns.contains_key(other) == turns.contains_key(other)
                    && told.turns[other] == turns[other]
            }
        }),
{
}

/// A hop tells what the route of the request does: the forwarding, the fixed
/// answer, or the redirect and what follows it.
pub proof fn law_hops_tell_the_action(
    j: Journey,
    turns: Map<Seq<char>, usize>,
    prefix: Seq<char>,
    listener: Seq<char>,
    hop: int,
    visited: Seq<Seq<char>>,
    i: int,
)
    requires
        routes_to(j.routes, listener, j.host, j.path, i),
    ensures
        ({
            let told = hop_told(j, turns, prefix, listener, hop, visited);
            let inner = prefix + "   "@;
            match j.routes[i].action {
                RouteAction::Forward(pool) => {
                    let rest = forward_told(j.pools, j.health, j.host, inner, pool@, turns);
                    &&& told.lines.skip(1) == rest.lines
                    &&& told.turns == rest.turns
                },
                RouteAction::Fixed(f) => {
                    &&& told.lines.skip(1) == seq![
                        inner + "└─ respond "@ + decimal(f.status as nat)
                            + " (fixed, no upstream)"@,
                    ]
                    &&& told.turns == turns
                },
                RouteAction::Redirect(rd) => {
                    let rest = redirect_told(j, turns, inner, rd.scheme@, hop, visited);
                    &&& told.lines.skip(1) == seq![
                        inner + "└─ redirect "@ + decimal(rd.status as nat) + " → "@ + rd.scheme@
                            + "://"@ + j.host + j.path,
                    ] + rest.lines
                    &&& told.turns == rest.turns
                },
            }
        }),
{
    let c = choose|c: int| routes_to(j.routes, listener, j.host, j.path, c);
    law_route_is_unique(j.routes, listener, j.host, j.path, i, c);
    let told = hop_told(j, turns, prefix, listener, hop, visited);
    let inner = prefix + "   "@;
    match j.routes[i].action {
        RouteAction::Forward(pool) => {
            let rest = forward_told(j.pools, j.health, j.host, inner, pool@, turns);
            assert(told.lines.skip(1) =~= rest.lines);
        },
        RouteAction::Fixed(f) => {
            assert(told.lines.skip(1) =~= seq![
                inner + "└─ respond "@ + decimal(f.status as nat) + " (fixed, no upstream)"@,
            ]);
        },
        RouteAction::Redirect(rd) => {
            let rest = redirect_told(j, turns, inner, rd.scheme@, hop, visited);
            assert(told.lines.skip(1) =~= seq![
                inner + "└─ redirect "@ + decimal(rd.status as nat) + " → "@ + rd.scheme@ + "://"@
                    + j.host + j.path,
            ] + rest.lines);
        },
    }
}

/// A redirect is followed through eight hops at most, to the listeners of its
/// scheme alone, and not at all where the scheme is external or has no
/// listener.
pub proof fn law_redirects_are_followed(
    j: Journey,
    turns: Map<Seq<char>, usize>,
    prefix: Seq<char>,
    scheme: Seq<char>,
    hop: int,
    visited: Seq<Seq<char>>,
    i: int,
)
    ensures
        ({
            let told = redirect_told(j, turns, prefix, scheme, hop, visited);
            let inner = prefix + "   "@;
            let p = if scheme == "https"@ {
                ListenProtocol::Https
            } else {
                ListenProtocol::Http
            };
            let external = scheme != "http"@ && scheme != "https"@;
            &&& hop >= 7 ==> told.lines == seq![inner + "(stopped: too many redirect hops)"@]
                && told.turns == turns
            &&& hop < 7 && external ==> told.lines == seq![
                inner + "("@ + scheme + ":// is external — not traced further)"@,
            ] && told.turns == turns
            &&& hop < 7 && !external && (forall|k: int|
                0 <= k < j.listeners.len() ==> (#[trigger] j.listeners[k]).protocol != p)
                ==> told.lines == seq![
                inner + "(no "@ + scheme + " listener configured to receive this)"@,
            ] && told.turns == turns
            &&& hop < 7 && !external && 0 <= i < j.listeners.len() && j.listeners[i].protocol == p
                ==> told == targets_told(j, turns, inner, p, hop, visited, j.listeners.len())
        }),
{
    reveal_strlit("http");
    reveal_strlit("https");
    assert("http"@.len() != "https"@.len());
}

/// The listeners that a redirect may lead to are told in their order. One of
/// another protocol is passed over, one that the journey has come through is a
/// loop, and any other is a hop further on.
pub proof fn law_targets_are_told_in_order(
    j: Journey,
    turns: Map<Seq<char>, usize>,
    gchild: Seq<char>,
    p: ListenProtocol,
    hop: int,
    visited: Seq<Seq<char>>,
    n: nat,
)
    requires
        n < j.listeners.len(),
        hop < 7,
    ensures
        ({
            let none = targets_told(j, turns, gchild, p, hop, visited, 0);
            let before = targets_told(j, turns, gchild, p, hop, visited, n);
            let told = targets_told(j, turns, gchild, p, hop, visited, n + 1);
            let l = j.listeners[n as int];
            let id = l.id.0@;
            let next = hop_told(j, before.turns, gchild, id, hop + 1, visited.push(id));
            &&& none.lines.len() == 0 && none.turns == turns
            &&& l.protocol != p ==> told == before
            &&& l.protocol == p && visited.contains(id) ==> told.turns == before.turns
                && told.lines == before.lines.push(
                gchild + "└─ (redirect loop: listener \""@ + id + "\" already on this path)"@,
            )
            &&& l.protocol == p && !visited.contains(id) ==> told.turns == next.turns && told.lines
                == before.lines + next.lines
        }),
{
    let before = targets_told(j, turns, gchild, p, hop, visited, n);
    let id = j.listeners[n as int].id.0@;
    let loops = gchild + "└─ (redirect loop: listener \""@ + id + "\" already on this path)"@;
    assert(before.lines + seq![loops] =~= before.lines.push(loops));
}

/// A trace starts at every listener in order, or at those with the id asked
/// for; each journey is headed by the URL of the request at that listener.
pub proof fn law_entries_are_told_in_order(
    j: Journey,
    turns: Map<Seq<char>, usize>,
    only: Option<Seq<char>>,
    n: nat,
)
    requires
        n < j.listeners.len(),
    ensures
        ({
            let none = entries_told(j, turns, only, 0);
            let before = entries_told(j, turns, only, n);
            let told = entries_told(j, turns, only, n + 1);
            let l = j.listeners[n as int];
            let id = l.id.0@;
            let journey = hop_told(j, before.turns, "  "@, id, 0, seq![id]);
            &&& none.lines.len() == 0 && none.turns == turns
            &&& only is Some && only->0 != id ==> told == before
            &&& only is None || only->0 == id ==> {
                &&& told.turns == journey.turns
                &&& told.lines == before.lines.push(Seq::empty()).push(
                    "▶ "@ + listener_scheme(l.protocol) + "://"@ + j.host + j.path,
                ) + journey.lines
            }
        }),
{
    let before = entries_told(j, turns, only, n);
    let l = j.listeners[n as int];
    let url = "▶ "@ + listener_scheme(l.protocol) + "://"@ + j.host + j.path;
    let journey = hop_told(j, before.turns, "  "@, l.id.0@, 0, seq![l.id.0@]);
    assert(before.lines + seq![Seq::<char>::empty(), url] + journey.lines =~= before.lines.push(
        Seq::empty(),
    ).push(url) + journey.lines);
}

/// A trace begins with the request. It ends with a note on health where some
/// listener starts a journey, and says so where none does.
pub proof fn law_whole_trace(
    j: Journey,
    turns: Map<Seq<char>, usize>,
    only: Option<Seq<char>>,
    i: int,
)
    ensures
        ({
            let told = trace_told(j, turns, only);
            let entries = entries_told(j, turns, only, j.listeners.len());
            let head = "trace  host="@ + j.host + "  path="@ + j.path;
            &&& told.lines[0] == head
            &&& 0 <= i < j.listeners.len() && (only is None || j.listeners[i].id.0@ == only->0)
                ==> told.turns == entries.turns && told.lines == seq![head] + entries.lines + seq![
                Seq::<char>::empty(),
                "note: health is shown as configured intent (all backends assumed up);"@,
                "      query a live node's /metrics for actual backend health."@,
            ]
            &&& (forall|k: int|
                0 <= k < j.listeners.len() ==> only is Some && (#[trigger] j.listeners[k]).id.0@
                    != only->0) ==> told.turns == turns && told.lines == seq![
                head,
                Seq::<char>::empty(),
                "(no matching entry listener)"@,
            ]
        }),
{
    let told = trace_told(j, turns, only);
    let head = "trace  host="@ + j.host + "  path="@ + j.path;
    if 0 <= i < j.listeners.len() && (only is None || j.listeners[i].id.0@ == only->0) {
        assert(is_entry(j.listeners[i], only));
    }
    if forall|k: int|
        0 <= k < j.listeners.len() ==> only is Some && (#[trigger] j.listeners[k]).id.0@
            != only->0 {
        assert(!some_entry(j.listeners, only, j.listeners.len() as int));
        assert(told.lines =~= seq![
            head,
            Seq::<char>::empty(),
            "(no matching entry listener)"@,
        ]);
    }
}

/// A trace changes nothing of the pools but their round-robin counters.
pub proof fn law_traces_only_turn(before: PoolSet, after: PoolSet, i: int, id: Seq<char>)
    requires
        only_turned(before, after),
    ensures
        after.has(id) == before.has(id),
        after.listing().len() == before.listing().len(),
        0 <= i < before.listing().len() ==> {
            let a = after.listing()[i];
            let b = before.listing()[i];
            &&& a.id == b.id
            &&& a.scheme == b.scheme
            &&& a.policy == b.policy
            &&& a.upstreams@ == b.upstreams@
            &&& a.ring() == b.ring()
            &&& a.inflight() == b.inflight()
        },
{
    if 0 <= i < before.listing().len() {
        assert(after.listing()[i].same_config(before.listing()[i]));
    }
}

/// What is told of a pool is its scheme, its policy, its backends and its ring.
pub proof fn law_shapes(pools: PoolSet, id: Seq<char>)
    ensures
        shapes_of(pools).contains_key(id) <==> pools.has(id),
        turns_of(pools).contains_key(id) <==> pools.has(id),
        pools.has(id) ==> {
            let s = shapes_of(pools)[id];
            let p = pools.pool(id);
            &&& s.scheme == p.scheme
            &&& s.policy == p.policy
            &&& s.upstreams == p.upstreams@
            &&& s.ring == p.ring()
            &&& turns_of(pools)[id] == p.counter()
        },
{
}

/// A trace is restricted to the listener that is asked for, and to none where
/// no one is.
pub proof fn law_asked_listener(s: &str)
    ensures
        asked(Some(s)) == Some(s@),
        asked(None) is None,
{
}

}
