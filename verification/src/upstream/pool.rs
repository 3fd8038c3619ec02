//! Upstream pools: the set of pools compiled from the dynamic config, with
//! per-pool selection over the healthy set.

use super::health_map::{listed, HealthMap};
use super::policy::{
    build_ring, decides, is_node, is_ring, law_candidate_owns_its_weight, law_draws_follow_weight,
    law_ring_finds_healthy, lemma_choice_decides, lemma_points_ascend, lemma_ring_nodes, node_point,
    owns_draw, ring_choice, ring_pick, round_le, weight_sum, weighted_pick,
};
use crate::number::decimal;
use crate::random::random_u64;
use crate::text::texts;
use crate::types::upstream::authority_text;
use crate::types::{LbPolicy, PoolId, Scheme, Upstream, UpstreamPool};
use vstd::hash_map::StringHashMap;
use vstd::multiset::*;
use vstd::prelude::*;
use vstd::seq_lib::*;

verus! {

/// A request in flight on a backend. Hand it back with [`Pool::release`] when
/// the request is done (for `least_request`).
pub struct InflightGuard {
    slot: Option<usize>,
}

impl InflightGuard {
    /// The backend whose in-flight count the guard stands for, if it counts.
    pub closed spec fn slot(self) -> Option<usize> {
        self.slot
    }
}

/// The result of selecting a backend: the chosen upstream plus an in-flight
/// guard the caller holds for the request's duration.
pub struct Selection {
    pub upstream: Upstream,
    pub guard: InflightGuard,
}

/// A single pool with its selection state.
pub struct Pool {
    pub id: PoolId,
    pub scheme: Scheme,
    pub policy: LbPolicy,
    pub upstreams: Vec<Upstream>,
    pub state: PoolState,
}

/// The selection state of a pool.
pub struct PoolState {
    counter: usize,
    /// In-flight request counts, aligned with `upstreams` (least_request).
    inflight: Vec<usize>,
    /// Consistent-hash ring (only built for `ring_hash`).
    ring: Vec<(u64, usize)>,
    /// `true` when all upstream weights are equal, which lets `round_robin`
    /// use the counter instead of a weighted random draw.
    uniform_weights: bool,
}

// ---------------------------------------------------------------------------
// Models
// ---------------------------------------------------------------------------

/// The `host:port` texts of a list of backends.
pub open spec fn authorities_of(upstreams: Seq<Upstream>) -> Seq<Seq<char>> {
    upstreams.map_values(|u: Upstream| authority_text(u.host@, u.port))
}

/// The weights of a list of backends.
pub open spec fn weights_of(upstreams: Seq<Upstream>) -> Seq<u32> {
    upstreams.map_values(|u: Upstream| u.weight)
}

/// Whether all backends have the same weight.
pub open spec fn same_weights(upstreams: Seq<Upstream>) -> bool {
    forall|i: int, j: int|
        0 <= i < upstreams.len() && 0 <= j < upstreams.len() ==> (#[trigger] upstreams[i]).weight
            == (#[trigger] upstreams[j]).weight
}

/// The indices, in order, of those of the first `n` backends that may receive
/// requests.
pub open spec fn healthy_upto(upstreams: Seq<Upstream>, health: HealthMap, n: nat) -> Seq<usize>
    decreases n,
{
    if n == 0 {
        Seq::empty()
    } else {
        let i = n - 1;
        let before = healthy_upto(upstreams, health, i as nat);
        if health.selectable(upstreams[i].host@, upstreams[i].port) {
            before.push(i as usize)
        } else {
            before
        }
    }
}

/// The backends with their weights.
pub open spec fn candidates_of(upstreams: Seq<Upstream>, healthy: Seq<usize>) -> Seq<
    (usize, u32),
> {
    healthy.map_values(|i: usize| (i, upstreams[i as int].weight))
}

/// The candidate a weighted draw selects.
pub open spec fn weighted_choice(candidates: Seq<(usize, u32)>, r: int) -> usize {
    if exists|k: int| #[trigger] owns_draw(candidates, k, r) {
        candidates[choose|k: int| #[trigger] owns_draw(candidates, k, r)].0
    } else if candidates.len() > 0 {
        candidates.last().0
    } else {
        0
    }
}

/// The weight `least_request` reckons with.
pub open spec fn effective_weight(u: Upstream) -> int {
    if u.weight == 0 {
        1
    } else {
        u.weight as int
    }
}

impl Pool {
    /// The round-robin counter.
    pub closed spec fn counter(self) -> usize {
        self.state.counter
    }

    /// The in-flight request counts of the backends.
    pub closed spec fn inflight(self) -> Seq<usize> {
        self.state.inflight@
    }

    /// The consistent-hash ring.
    pub closed spec fn ring(self) -> Seq<(u64, usize)> {
        self.state.ring@
    }

    /// Whether all backends weigh the same.
    pub closed spec fn uniform(self) -> bool {
        self.state.uniform_weights
    }

    /// The validity of a pool.
    pub open spec fn wf(self) -> bool {
        &&& self.inflight().len() == self.upstreams@.len()
        &&& self.uniform() == same_weights(self.upstreams@)
        &&& self.policy == LbPolicy::RingHash ==> is_ring(
            self.ring(),
            authorities_of(self.upstreams@),
            weights_of(self.upstreams@),
        )
    }

    /// Whether the pool is freshly made from its configuration.
    pub open spec fn made_from(self, p: UpstreamPool) -> bool {
        &&& self.wf()
        &&& self.id == p.id
        &&& self.scheme == p.scheme
        &&& self.policy == p.lb_policy
        &&& self.upstreams@ == p.upstreams@
        &&& self.counter() == 0
        &&& forall|i: int| 0 <= i < self.inflight().len() ==> self.inflight()[i] == 0
    }

    /// Whether two states belong to the same configured pool.
    pub open spec fn same_config(self, other: Pool) -> bool {
        &&& self.id == other.id
        &&& self.scheme == other.scheme
        &&& self.policy == other.policy
        &&& self.upstreams@ == other.upstreams@
        &&& self.ring() == other.ring()
        &&& self.uniform() == other.uniform()
    }

    /// The indices of the backends that may receive requests.
    pub open spec fn healthy(self, health: HealthMap) -> Seq<usize> {
        healthy_upto(self.upstreams@, health, self.upstreams@.len())
    }

    /// The total weight of the healthy backends.
    pub open spec fn healthy_weight(self, healthy: Seq<usize>) -> int {
        weight_sum(candidates_of(self.upstreams@, healthy), healthy.len() as int)
    }

    /// Round robin: the backend selected and the counter afterwards. Backends
    /// of equal weight, or of no weight at all, take turns by the counter;
    /// otherwise `draw` selects in proportion to the weights.
    pub open spec fn round_robin_pick(self, healthy: Seq<usize>, draw: u64) -> (usize, usize) {
        let total = self.healthy_weight(healthy);
        if self.uniform() || total == 0 {
            (
                healthy[self.counter() as int % healthy.len() as int],
                wrapping_add_one(self.counter()),
            )
        } else {
            (
                weighted_choice(
                    candidates_of(self.upstreams@, healthy),
                    draw as int % total,
                ),
                self.counter(),
            )
        }
    }

    /// Whether backend `i` has fewer requests in flight for its weight than
    /// backend `j`, comparing `(in-flight + 1) / weight`.
    pub open spec fn lighter(self, i: usize, j: usize) -> bool {
        (self.inflight()[i as int] + 1) * effective_weight(self.upstreams@[j as int]) < (
        self.inflight()[j as int] + 1) * effective_weight(self.upstreams@[i as int])
    }

    /// Whether no healthy backend is lighter than `i`.
    pub open spec fn lightest(self, healthy: Seq<usize>, i: usize) -> bool {
        forall|k: int| 0 <= k < healthy.len() ==> !self.lighter(#[trigger] healthy[k], i)
    }

    /// The healthy backends that share the lightest load.
    pub open spec fn ties(self, healthy: Seq<usize>) -> Seq<usize> {
        healthy.filter(|i: usize| self.lightest(healthy, i))
    }

    /// Weighted least request: the backend selected and the counter
    /// afterwards. Backends with the same load take turns by the counter.
    pub open spec fn least_request_pick(self, healthy: Seq<usize>) -> (usize, usize) {
        let ties = self.ties(healthy);
        (
            ties[self.counter() as int % ties.len() as int],
            if ties.len() > 1 {
                wrapping_add_one(self.counter())
            } else {
                self.counter()
            },
        )
    }

    /// The backend selected for a request and the counter afterwards.
    pub open spec fn pick(self, healthy: Seq<usize>, hash_key: Option<u64>, draw: u64) -> (
        usize,
        usize,
    ) {
        match self.policy {
            LbPolicy::RoundRobin => self.round_robin_pick(healthy, draw),
            LbPolicy::LeastRequest => self.least_request_pick(healthy),
            LbPolicy::RingHash => {
                let key = match hash_key {
                    Some(k) => k,
                    None => 0,
                };
                match ring_choice(self.ring(), key, |i: usize| healthy.contains(i)) {
                    Some(i) => (i, self.counter()),
                    None => self.round_robin_pick(healthy, draw),
                }
            },
        }
    }

    /// What a selection does: `draw` is the random number a weighted round
    /// robin uses.
    pub open spec fn selects(
        self,
        after: Pool,
        health: HealthMap,
        hash_key: Option<u64>,
        draw: u64,
        r: Option<Selection>,
    ) -> bool {
        let healthy = self.healthy(health);
        let (i, counter) = self.pick(healthy, hash_key, draw);
        match r {
            None => healthy.len() == 0 && after == self,
            Some(sel) => {
                &&& healthy.len() > 0
                &&& i < self.upstreams@.len()
                &&& sel.upstream == self.upstreams@[i as int]
                &&& after.same_config(self)
                &&& after.counter() == counter
                &&& if self.policy == LbPolicy::LeastRequest {
                    &&& sel.guard.slot() == Some(i)
                    &&& after.inflight() == self.inflight().update(
                        i as int,
                        wrapping_add_one(self.inflight()[i as int]),
                    )
                } else {
                    &&& sel.guard.slot() is None
                    &&& after.inflight() == self.inflight()
                }
            },
        }
    }

    /// What handing a guard back does: the count of its backend goes down by
    /// one, if it is not zero.
    pub open spec fn releases(self, after: Pool, slot: Option<usize>) -> bool {
        &&& after.same_config(self)
        &&& after.counter() == self.counter()
        &&& after.inflight() == match slot {
            Some(i) => if i < self.inflight().len() && self.inflight()[i as int] > 0 {
                self.inflight().update(i as int, (self.inflight()[i as int] - 1) as usize)
            } else {
                self.inflight()
            },
            None => self.inflight(),
        }
    }
}

/// The successor of a counter that wraps around.
pub open spec fn wrapping_add_one(n: usize) -> usize {
    if n == usize::MAX {
        0
    } else {
        (n + 1) as usize
    }
}

fn next(n: usize) -> (r: usize)
    ensures
        r == wrapping_add_one(n),
{
    if n == usize::MAX {
        0
    } else {
        n + 1
    }
}

/// The healthy backends are existing, selectable ones, each once, and all of them.
pub proof fn lemma_healthy_upto(upstreams: Seq<Upstream>, health: HealthMap, n: nat)
    requires
        n <= upstreams.len() <= usize::MAX,
    ensures
        healthy_upto(upstreams, health, n).len() <= n,
        forall|k: int|
            0 <= k < healthy_upto(upstreams, health, n).len() ==> {
                let i = #[trigger] healthy_upto(upstreams, health, n)[k];
                i < n && health.selectable(upstreams[i as int].host@, upstreams[i as int].port)
            },
        forall|i: usize|
            i < n && health.selectable(upstreams[i as int].host@, upstreams[i as int].port)
                ==> #[trigger] healthy_upto(upstreams, health, n).contains(i),
        forall|j: int, k: int|
            0 <= j < k < healthy_upto(upstreams, health, n).len() ==> #[trigger] healthy_upto(
                upstreams,
                health,
                n,
            )[j] < #[trigger] healthy_upto(upstreams, health, n)[k],
    decreases n,
{
    if n > 0 {
        let m = (n - 1) as nat;
        lemma_healthy_upto(upstreams, health, m);
        let before = healthy_upto(upstreams, health, m);
        let now = healthy_upto(upstreams, health, n);
        assert forall|i: usize|
            i < n && health.selectable(
                upstreams[i as int].host@,
                upstreams[i as int].port,
            ) implies #[trigger] now.contains(i) by {
            if i < m {
                assert(before.contains(i));
                let k = choose|k: int| 0 <= k < before.len() && before[k] == i;
                assert(now[k] == i);
            } else {
                assert(now[before.len() as int] == i);
            }
        }
    }
}

/// `lighter` is transitive where it is not strict.
proof fn lemma_lighter_transitive(xa: int, wa: int, xb: int, wb: int, xc: int, wc: int)
    by (nonlinear_arith)
    requires
        wa > 0,
        wb > 0,
        wc > 0,
        xa * wb <= xb * wa,
        xb * wc <= xc * wb,
    ensures
        xa * wc <= xc * wa,
{
    assert(xa * wb * wc <= xb * wa * wc);
    assert(xb * wc * wa <= xc * wb * wa);
    assert((xa * wc) * wb <= (xc * wa) * wb);
}

// ---------------------------------------------------------------------------
// Selection
// ---------------------------------------------------------------------------

impl Pool {
    /// A fresh pool of a configuration.
    pub fn new(p: &UpstreamPool) -> (r: Pool)
        ensures
            r.made_from(*p),
    {
        let n: usize = p.upstreams.len();
        let mut inflight: Vec<usize> = Vec::new();
        let mut upstreams: Vec<Upstream> = Vec::new();
        let mut authorities: Vec<String> = Vec::new();
        let mut weights: Vec<u32> = Vec::new();
        let mut uniform_weights = true;
        let mut i: usize = 0;
        while i < n
            invariant
                n == p.upstreams@.len(),
                i <= n,
                inflight@.len() == i,
                forall|j: int| 0 <= j < i ==> inflight@[j] == 0,
                upstreams@ =~= p.upstreams@.take(i as int),
                texts(authorities@) =~= authorities_of(p.upstreams@.take(i as int)),
                weights@ =~= weights_of(p.upstreams@.take(i as int)),
                uniform_weights == (forall|j: int|
                    0 <= j < i ==> (#[trigger] p.upstreams@[j]).weight == p.upstreams@[0].weight),
            decreases n - i,
        {
            let u = &p.upstreams[i];
            inflight.push(0);
            upstreams.push(u.clone());
            let ghost named = authorities@;
            authorities.push(u.authority());
            proof {
                let name = authority_text(u.host@, u.port);
                assert(texts(authorities@) =~= texts(named).push(name));
                assert(authorities_of(p.upstreams@.take(i + 1)) =~= authorities_of(
                    p.upstreams@.take(i as int),
                ).push(name));
            }
            weights.push(u.weight);
            if u.weight != p.upstreams[0].weight {
                uniform_weights = false;
            }
            i += 1;
        }
        assert(p.upstreams@.take(n as int) =~= p.upstreams@);
        let ring = match p.lb_policy {
            LbPolicy::RingHash => build_ring(authorities.as_slice(), weights.as_slice()),
            _ => Vec::new(),
        };
        proof {
            if uniform_weights {
                assert forall|j: int, k: int| 0 <= j < n && 0 <= k < n implies (
                #[trigger] p.upstreams@[j]).weight == (#[trigger] p.upstreams@[k]).weight by {}
            }
        }
        Pool {
            id: p.id.clone(),
            scheme: p.scheme,
            policy: p.lb_policy,
            upstreams,
            state: PoolState { counter: 0, inflight, ring, uniform_weights },
        }
    }

    /// The next turn among the given backends, and the counter after it.
    fn turn(&self, turns: &Vec<usize>) -> (r: (usize, usize))
        requires
            turns@.len() > 0,
        ensures
            r.0 == turns@[self.counter() as int % turns@.len() as int],
            r.1 == wrapping_add_one(self.counter()),
    {
        let n: usize = self.state.counter;
        (turns[n % turns.len()], next(n))
    }

    /// Round-robin over the healthy set: the backend and the counter
    /// afterwards. Uniform weights use the counter; others a weighted random
    /// draw.
    pub fn round_robin(&self, healthy: &Vec<usize>, draw: u64) -> (r: (usize, usize))
        requires
            self.wf(),
            healthy@.len() > 0,
            forall|k: int|
                0 <= k < healthy@.len() ==> #[trigger] healthy@[k] < self.upstreams@.len(),
        ensures
            r == self.round_robin_pick(healthy@, draw),
            healthy@.contains(r.0),
    {
        proof {
            let c = self.counter() as int;
            let l = healthy@.len() as int;
            assert(0 <= c % l < l);
            assert(healthy@.contains(healthy@[c % l]));
        }
        if self.state.uniform_weights {
            return self.turn(healthy);
        }
        let ghost spec_c = candidates_of(self.upstreams@, healthy@);
        let mut candidates: Vec<(usize, u32)> = Vec::new();
        let mut total: u128 = 0;
        let mut k: usize = 0;
        while k < healthy.len()
            invariant
                k <= healthy@.len(),
                spec_c == candidates_of(self.upstreams@, healthy@),
                forall|j: int|
                    0 <= j < healthy@.len() ==> #[trigger] healthy@[j] < self.upstreams@.len(),
                candidates@ =~= spec_c.take(k as int),
                total == weight_sum(spec_c, k as int),
                total <= k * 0xffff_ffff,
            decreases healthy@.len() - k,
        {
            assert(k * 0xffff_ffff <= 0xffff_ffff_ffff_ffff * 0xffff_ffff) by (nonlinear_arith)
                requires
                    0 <= k <= 0xffff_ffff_ffff_ffff,
            ;
            let i: usize = healthy[k];
            let w: u32 = self.upstreams[i].weight;
            candidates.push((i, w));
            total = total + w as u128;
            k += 1;
        }
        assert(spec_c.take(k as int) =~= spec_c);
        if total == 0 {
            return self.turn(healthy);
        }
        proof {
            vstd::arithmetic::div_mod::lemma_mod_decreases(draw as nat, total as nat);
        }
        let r: u64 = (draw as u128 % total) as u64;
        let idx = weighted_pick(candidates.as_slice(), r);
        proof {
            assert(r as int == draw as int % total as int);
            assert(r < weight_sum(spec_c, spec_c.len() as int));
            let j = choose|j: int| #[trigger] owns_draw(spec_c, j, r as int);
            assert(healthy@[j] == spec_c[j].0);
            assert(healthy@.contains(idx));
        }
        (idx, self.state.counter)
    }

    /// Whether backend `i` is lighter than backend `j`.
    fn is_lighter(&self, i: usize, j: usize) -> (r: bool)
        requires
            self.wf(),
            i < self.upstreams@.len(),
            j < self.upstreams@.len(),
        ensures
            r == self.lighter(i, j),
    {
        let xi: u128 = self.state.inflight[i] as u128 + 1;
        let xj: u128 = self.state.inflight[j] as u128 + 1;
        let wi: u128 = if self.upstreams[i].weight == 0 {
            1
        } else {
            self.upstreams[i].weight as u128
        };
        let wj: u128 = if self.upstreams[j].weight == 0 {
            1
        } else {
            self.upstreams[j].weight as u128
        };
        assert(xi * wj <= 0x1_0000_0000_0000_0000 * 0xffff_ffff) by (nonlinear_arith)
            requires
                0 <= xi <= 0x1_0000_0000_0000_0000,
                0 <= wj <= 0xffff_ffff,
        ;
        assert(xj * wi <= 0x1_0000_0000_0000_0000 * 0xffff_ffff) by (nonlinear_arith)
            requires
                0 <= xj <= 0x1_0000_0000_0000_0000,
                0 <= wi <= 0xffff_ffff,
        ;
        xi * wj < xj * wi
    }

    /// `lighter` orders the backends.
    proof fn lemma_lightest(self, healthy: Seq<usize>, b: usize, i: usize)
        requires
            self.wf(),
            b < self.upstreams@.len(),
            i < self.upstreams@.len(),
            forall|k: int|
                0 <= k < healthy.len() ==> #[trigger] healthy[k] < self.upstreams@.len(),
            healthy.contains(b),
            self.lightest(healthy, b),
        ensures
            self.lightest(healthy, i) == !self.lighter(b, i),
    {
        if !self.lighter(b, i) {
            assert forall|k: int| 0 <= k < healthy.len() implies !self.lighter(
                #[trigger] healthy[k],
                i,
            ) by {
                let c = healthy[k];
                assert(!self.lighter(c, b));
                lemma_lighter_transitive(
                    self.inflight()[i as int] + 1,
                    effective_weight(self.upstreams@[i as int]),
                    self.inflight()[b as int] + 1,
                    effective_weight(self.upstreams@[b as int]),
                    self.inflight()[c as int] + 1,
                    effective_weight(self.upstreams@[c as int]),
                );
            }
        }
    }

    /// Weighted least-request: minimize (in-flight + 1) / weight, with a
    /// round-robin tie-break. Returns the backend and the counter afterwards.
    pub fn least_request(&self, healthy: &Vec<usize>) -> (r: (usize, usize))
        requires
            self.wf(),
            healthy@.len() > 0,
            forall|k: int|
                0 <= k < healthy@.len() ==> #[trigger] healthy@[k] < self.upstreams@.len(),
        ensures
            r == self.least_request_pick(healthy@),
            healthy@.contains(r.0),
            self.lightest(healthy@, r.0),
    {
        let mut best: usize = healthy[0];
        let mut k: usize = 1;
        assert(healthy@.contains(healthy@[0]));
        while k < healthy.len()
            invariant
                1 <= k <= healthy@.len(),
                self.wf(),
                forall|j: int|
                    0 <= j < healthy@.len() ==> #[trigger] healthy@[j] < self.upstreams@.len(),
                best < self.upstreams@.len(),
                healthy@.contains(best),
                forall|j: int| 0 <= j < k ==> !self.lighter(#[trigger] healthy@[j], best),
            decreases healthy@.len() - k,
        {
            let i: usize = healthy[k];
            if self.is_lighter(i, best) {
                proof {
                    assert(healthy@.contains(healthy@[k as int]));
                    assert forall|j: int| 0 <= j < k + 1 implies !self.lighter(
                        #[trigger] healthy@[j],
                        i,
                    ) by {
                        if j < k {
                            let c = healthy@[j];
                            lemma_lighter_transitive(
                                self.inflight()[i as int] + 1,
                                effective_weight(self.upstreams@[i as int]),
                                self.inflight()[best as int] + 1,
                                effective_weight(self.upstreams@[best as int]),
                                self.inflight()[c as int] + 1,
                                effective_weight(self.upstreams@[c as int]),
                            );
                        }
                    }
                }
                best = i;
            }
            k += 1;
        }
        let ghost f = |i: usize| self.lightest(healthy@, i);
        let mut ties: Vec<usize> = Vec::new();
        let mut m: usize = 0;
        proof {
            reveal(Seq::filter);
            assert(healthy@.take(0).filter(f) =~= Seq::empty());
        }
        while m < healthy.len()
            invariant
                m <= healthy@.len(),
                self.wf(),
                f == (|i: usize| self.lightest(healthy@, i)),
                forall|j: int|
                    0 <= j < healthy@.len() ==> #[trigger] healthy@[j] < self.upstreams@.len(),
                best < self.upstreams@.len(),
                healthy@.contains(best),
                self.lightest(healthy@, best),
                ties@ == healthy@.take(m as int).filter(f),
            decreases healthy@.len() - m,
        {
            let i: usize = healthy[m];
            proof {
                self.lemma_lightest(healthy@, best, i);
                assert(healthy@.take(m + 1).drop_last() =~= healthy@.take(m as int));
                reveal(Seq::filter);
            }
            if !self.is_lighter(best, i) {
                ties.push(i);
            }
            m += 1;
        }
        proof {
            assert(healthy@.take(m as int) =~= healthy@);
            assert(f(best));
            broadcast use vstd::seq_lib::group_filter_ensures;
            assert(ties@.contains(best));
            let c = self.counter() as int;
            let l = ties@.len() as int;
            assert(0 <= c % l < l);
            assert(f(ties@[c % l]));
            assert(ties@.contains(ties@[c % l]));
            healthy@.lemma_filter_contains_rev(f, ties@[c % l]);
        }
        if ties.len() > 1 {
            self.turn(&ties)
        } else {
            let only: usize = ties[0];
            assert(self.counter() as int % 1 == 0);
            (only, self.state.counter)
        }
    }

    /// The indices of the backends that may receive requests.
    pub fn healthy_indices(&self, health: &HealthMap) -> (r: Vec<usize>)
        ensures
            r@ == self.healthy(*health),
    {
        let mut out: Vec<usize> = Vec::new();
        let mut i: usize = 0;
        while i < self.upstreams.len()
            invariant
                i <= self.upstreams@.len(),
                out@ == healthy_upto(self.upstreams@, *health, i as nat),
            decreases self.upstreams@.len() - i,
        {
            let u = &self.upstreams[i];
            if health.is_selectable(u.host.as_str(), u.port) {
                out.push(i);
            }
            i += 1;
        }
        out
    }

    /// The backend for a request and the counter afterwards, with a given
    /// random draw.
    pub fn choose_backend(&self, healthy: &Vec<usize>, hash_key: Option<u64>, draw: u64) -> (r: (
        usize,
        usize,
    ))
        requires
            self.wf(),
            healthy@.len() > 0,
            forall|k: int|
                0 <= k < healthy@.len() ==> #[trigger] healthy@[k] < self.upstreams@.len(),
        ensures
            r == self.pick(healthy@, hash_key, draw),
            healthy@.contains(r.0),
    {
        match self.policy {
            LbPolicy::RoundRobin => self.round_robin(healthy, draw),
            LbPolicy::LeastRequest => self.least_request(healthy),
            LbPolicy::RingHash => {
                let key: u64 = match hash_key {
                    Some(k) => k,
                    None => 0,
                };
                let mut up: Vec<bool> = Vec::new();
                let mut i: usize = 0;
                while i < self.upstreams.len()
                    invariant
                        i <= self.upstreams@.len(),
                        up@.len() == i,
                        forall|j: int| 0 <= j < i ==> up@[j] == false,
                    decreases self.upstreams@.len() - i,
                {
                    up.push(false);
                    i += 1;
                }
                let mut k: usize = 0;
                while k < healthy.len()
                    invariant
                        k <= healthy@.len(),
                        up@.len() == self.upstreams@.len(),
                        forall|j: int|
                            0 <= j < healthy@.len() ==> #[trigger] healthy@[j]
                                < self.upstreams@.len(),
                        forall|j: usize|
                            j < up@.len() ==> #[trigger] up@[j as int] == healthy@.take(
                                k as int,
                            ).contains(j),
                    decreases healthy@.len() - k,
                {
                    let i: usize = healthy[k];
                    let ghost was = up@;
                    up.set(i, true);
                    proof {
                        assert(healthy@.take(k + 1) =~= healthy@.take(k as int).push(i));
                        assert forall|j: usize| j < up@.len() implies #[trigger] up@[j as int]
                            == healthy@.take(k + 1).contains(j) by {
                            let a = healthy@.take(k as int);
                            let b = healthy@.take(k + 1);
                            if b.contains(j) && j != i {
                                let m = choose|m: int| 0 <= m < b.len() && b[m] == j;
                                assert(a[m] == j);
                            }
                            if a.contains(j) {
                                let m = choose|m: int| 0 <= m < a.len() && a[m] == j;
                                assert(b[m] == j);
                            }
                            if j == i {
                                assert(b[k as int] == i);
                            }
                            assert(was[j as int] == a.contains(j));
                        }
                    }
                    k += 1;
                }
                assert(healthy@.take(k as int) =~= healthy@);
                let ghost ok = |i: usize| healthy@.contains(i);
                let flags = up.as_slice();
                let f = |i: usize| -> (b: bool)
                    ensures
                        b == (i < flags@.len() && flags@[i as int]),
                    {
                        i < flags.len() && flags[i]
                    };
                proof {
                    assert forall|i: usize, b: bool| #[trigger]
                        call_ensures(f, (i,), b) implies b == ok(i) by {
                        if i < up@.len() {
                            assert(up@[i as int] == healthy@.contains(i));
                        } else if healthy@.contains(i) {
                            let m = choose|m: int| 0 <= m < healthy@.len() && healthy@[m] == i;
                        }
                    }
                    law_ring_finds_healthy(self.ring(), key, ok);
                    lemma_points_ascend(self.ring());
                }
                match ring_pick(self.state.ring.as_slice(), key, f) {
                    Some(i) => (i, self.state.counter),
                    None => self.round_robin(healthy, draw),
                }
            },
        }
    }

    /// Select one healthy upstream with a given random draw, or `None` if the
    /// pool has none.
    pub fn select_with(&mut self, health: &HealthMap, hash_key: Option<u64>, draw: u64) -> (r:
        Option<Selection>)
        requires
            old(self).wf(),
        ensures
            final(self).wf(),
            old(self).selects(*final(self), *health, hash_key, draw, r),
    {
        let healthy = self.healthy_indices(health);
        let n: usize = self.upstreams.len();
        proof {
            lemma_healthy_upto(self.upstreams@, *health, self.upstreams@.len());
        }
        if healthy.len() == 0 {
            return None;
        }
        let (idx, counter) = self.choose_backend(&healthy, hash_key, draw);
        self.state.counter = counter;
        let guard = match self.policy {
            LbPolicy::LeastRequest => {
                let n: usize = self.state.inflight[idx];
                self.state.inflight.set(idx, next(n));
                InflightGuard { slot: Some(idx) }
            },
            _ => InflightGuard { slot: None },
        };
        Some(Selection { upstream: self.upstreams[idx].clone(), guard })
    }

    /// Select one healthy upstream, or `None` if the pool has none.
    pub fn select(&mut self, health: &HealthMap, hash_key: Option<u64>) -> (r: Option<Selection>)
        requires
            old(self).wf(),
        ensures
            final(self).wf(),
            exists|draw: u64|
                #[trigger] old(self).selects(*final(self), *health, hash_key, draw, r),
    {
        let draw = random_u64();
        self.select_with(health, hash_key, draw)
    }

    /// Ends a request: its backend has one fewer in flight.
    pub fn release(&mut self, guard: InflightGuard)
        requires
            old(self).wf(),
        ensures
            final(self).wf(),
            old(self).releases(*final(self), guard.slot()),
    {
        match guard.slot {
            Some(i) => {
                if i < self.state.inflight.len() && self.state.inflight[i] > 0 {
                    let n: usize = self.state.inflight[i];
                    self.state.inflight.set(i, n - 1);
                }
            },
            None => {},
        }
    }
}

// ---------------------------------------------------------------------------
// Laws of selection
// ---------------------------------------------------------------------------

/// A selected backend may receive requests, whatever the policy, the key and
/// the draw; and a pool with such a backend always selects one.
pub proof fn law_selected_backend_is_healthy(
    pool: Pool,
    after: Pool,
    health: HealthMap,
    hash_key: Option<u64>,
    draw: u64,
    r: Option<Selection>,
)
    requires
        pool.wf(),
        pool.upstreams@.len() <= usize::MAX,
        pool.selects(after, health, hash_key, draw, r),
    ensures
        r is None <==> forall|i: int|
            0 <= i < pool.upstreams@.len() ==> !health.selectable(
                (#[trigger] pool.upstreams@[i]).host@,
                pool.upstreams@[i].port,
            ),
        r is Some ==> health.selectable(r->0.upstream.host@, r->0.upstream.port),
{
    let ups = pool.upstreams@;
    lemma_healthy_upto(ups, health, ups.len());
    let healthy = pool.healthy(health);
    if healthy.len() > 0 {
        let i0 = healthy[0];
        assert(health.selectable(ups[i0 as int].host@, ups[i0 as int].port));
        lemma_pick_is_healthy(pool, healthy, hash_key, draw);
        let i = pool.pick(healthy, hash_key, draw).0;
        let k = choose|k: int| 0 <= k < healthy.len() && healthy[k] == i;
    } else {
        assert forall|i: int| 0 <= i < ups.len() implies !health.selectable(
            (#[trigger] ups[i]).host@,
            ups[i].port,
        ) by {
            if health.selectable(ups[i].host@, ups[i].port) {
                assert(healthy.contains(i as usize));
            }
        }
    }
}

proof fn lemma_pick_is_healthy(
    pool: Pool,
    healthy: Seq<usize>,
    hash_key: Option<u64>,
    draw: u64,
)
    requires
        pool.wf(),
        healthy.len() > 0,
        forall|k: int| 0 <= k < healthy.len() ==> #[trigger] healthy[k] < pool.upstreams@.len(),
    ensures
        healthy.contains(pool.pick(healthy, hash_key, draw).0),
{
    lemma_round_robin_is_healthy(pool, healthy, draw);
    match pool.policy {
        LbPolicy::RoundRobin => {},
        LbPolicy::LeastRequest => {
            lemma_ties(pool, healthy);
            let ties = pool.ties(healthy);
            let c = pool.counter() as int;
            let l = ties.len() as int;
            assert(0 <= c % l < l);
            assert(healthy.contains(ties[c % l]));
        },
        LbPolicy::RingHash => {
            let key = match hash_key {
                Some(k) => k,
                None => 0,
            };
            law_ring_finds_healthy(pool.ring(), key, |i: usize| healthy.contains(i));
        },
    }
}

proof fn lemma_round_robin_is_healthy(pool: Pool, healthy: Seq<usize>, draw: u64)
    requires
        healthy.len() > 0,
    ensures
        healthy.contains(pool.round_robin_pick(healthy, draw).0),
{
    let c = pool.counter() as int;
    let l = healthy.len() as int;
    assert(0 <= c % l < l);
    assert(healthy.contains(healthy[c % l]));
    let cands = candidates_of(pool.upstreams@, healthy);
    let total = pool.healthy_weight(healthy);
    let r = draw as int % total;
    if exists|k: int| #[trigger] owns_draw(cands, k, r) {
        let k = choose|k: int| #[trigger] owns_draw(cands, k, r);
        assert(cands[k].0 == healthy[k]);
        assert(healthy.contains(healthy[k]));
    } else {
        assert(cands.last().0 == healthy[l - 1]);
        assert(healthy.contains(healthy[l - 1]));
    }
}

/// There is always a lightest backend.
proof fn lemma_ties(pool: Pool, healthy: Seq<usize>)
    requires
        pool.wf(),
        healthy.len() > 0,
        forall|k: int| 0 <= k < healthy.len() ==> #[trigger] healthy[k] < pool.upstreams@.len(),
    ensures
        pool.ties(healthy).len() > 0,
        forall|k: int|
            0 <= k < pool.ties(healthy).len() ==> healthy.contains(
                #[trigger] pool.ties(healthy)[k],
            ) && pool.lightest(healthy, pool.ties(healthy)[k]),
{
    let f = |i: usize| pool.lightest(healthy, i);
    let b = lemma_some_lightest(pool, healthy, healthy.len() as int);
    assert(f(healthy[b]));
    assert(healthy.contains(healthy[b]));
    broadcast use vstd::seq_lib::group_filter_ensures;
    assert(pool.ties(healthy) == healthy.filter(f));
    assert(healthy.filter(f).contains(healthy[b]));
    assert forall|k: int| 0 <= k < pool.ties(healthy).len() implies healthy.contains(
        #[trigger] pool.ties(healthy)[k],
    ) && pool.lightest(healthy, pool.ties(healthy)[k]) by {
        let e = healthy.filter(f)[k];
        assert(f(e));
        assert(healthy.filter(f).contains(e));
        healthy.lemma_filter_contains_rev(f, e);
    }
}

proof fn lemma_some_lightest(pool: Pool, healthy: Seq<usize>, n: int) -> (b: int)
    requires
        pool.wf(),
        0 < n <= healthy.len(),
        forall|k: int| 0 <= k < healthy.len() ==> #[trigger] healthy[k] < pool.upstreams@.len(),
    ensures
        0 <= b < n,
        forall|k: int| 0 <= k < n ==> !pool.lighter(#[trigger] healthy[k], healthy[b]),
    decreases n,
{
    if n == 1 {
        0
    } else {
        let a = lemma_some_lightest(pool, healthy, n - 1);
        let i = healthy[n - 1];
        let best = healthy[a];
        if pool.lighter(i, best) {
            assert forall|k: int| 0 <= k < n implies !pool.lighter(#[trigger] healthy[k], i) by {
                if k < n - 1 {
                    let c = healthy[k];
                    assert(!pool.lighter(c, best));
                    lemma_lighter_transitive(
                        pool.inflight()[i as int] + 1,
                        effective_weight(pool.upstreams@[i as int]),
                        pool.inflight()[best as int] + 1,
                        effective_weight(pool.upstreams@[best as int]),
                        pool.inflight()[c as int] + 1,
                        effective_weight(pool.upstreams@[c as int]),
                    );
                }
            }
            n - 1
        } else {
            a
        }
    }
}

/// Least request selects a backend with the smallest load for its weight.
pub proof fn law_least_request_is_least(pool: Pool, healthy: Seq<usize>, k: int)
    requires
        pool.wf(),
        forall|j: int| 0 <= j < healthy.len() ==> #[trigger] healthy[j] < pool.upstreams@.len(),
        0 <= k < healthy.len(),
    ensures
        !pool.lighter(healthy[k], pool.least_request_pick(healthy).0),
{
    lemma_ties(pool, healthy);
    let ties = pool.ties(healthy);
    let c = pool.counter() as int;
    let l = ties.len() as int;
    assert(0 <= c % l < l);
    assert(pool.lightest(healthy, ties[c % l]));
}

proof fn lemma_turns_differ(counter: int, n: int, a: int, b: int)
    requires
        0 <= counter,
        0 <= a < b < n,
    ensures
        (counter + a) % n != (counter + b) % n,
{
    vstd::arithmetic::div_mod::lemma_fundamental_div_mod(counter + a, n);
    vstd::arithmetic::div_mod::lemma_fundamental_div_mod(counter + b, n);
    let qa = (counter + a) / n;
    let qb = (counter + b) / n;
    if (counter + a) % n == (counter + b) % n {
        assert(n * qb - n * qa == b - a);
        assert(n * (qb - qa) == n * qb - n * qa) by (nonlinear_arith);
        assert(false) by (nonlinear_arith)
            requires
                n * (qb - qa) == b - a,
                0 < b - a < n,
        ;
    }
}

/// Whether a pool goes through the given states while it makes the given
/// selections.
pub open spec fn serves(
    states: Seq<Pool>,
    health: HealthMap,
    keys: Seq<Option<u64>>,
    draws: Seq<u64>,
    picks: Seq<Option<Selection>>,
) -> bool {
    &&& states.len() == picks.len() + 1
    &&& forall|k: int|
        0 <= k < picks.len() ==> states[k].selects(
            states[k + 1],
            health,
            keys[k],
            draws[k],
            #[trigger] picks[k],
        )
}

proof fn lemma_counter_advances(
    states: Seq<Pool>,
    health: HealthMap,
    keys: Seq<Option<u64>>,
    draws: Seq<u64>,
    picks: Seq<Option<Selection>>,
    k: int,
)
    requires
        serves(states, health, keys, draws, picks),
        states[0].policy == LbPolicy::RoundRobin,
        states[0].uniform(),
        states[0].healthy(health).len() > 0,
        states[0].counter() + picks.len() <= usize::MAX,
        0 <= k <= picks.len(),
    ensures
        states[k].same_config(states[0]),
        states[k].counter() == states[0].counter() + k,
    decreases k,
{
    if k > 0 {
        lemma_counter_advances(states, health, keys, draws, picks, k - 1);
        let before = states[k - 1];
        assert(before.healthy(health) == states[0].healthy(health));
        assert(before.selects(states[k], health, keys[k - 1], draws[k - 1], picks[k - 1]));
    }
}

/// Round robin over backends of equal weight is even: in as many selections
/// as there are healthy backends no backend comes up twice, unless the counter
/// wraps around on the way.
pub proof fn law_round_robin_is_even(
    states: Seq<Pool>,
    health: HealthMap,
    keys: Seq<Option<u64>>,
    draws: Seq<u64>,
    picks: Seq<Option<Selection>>,
    a: int,
    b: int,
)
    requires
        serves(states, health, keys, draws, picks),
        states[0].upstreams@.len() <= usize::MAX,
        states[0].policy == LbPolicy::RoundRobin,
        states[0].uniform(),
        states[0].counter() + picks.len() <= usize::MAX,
        0 <= a < b < picks.len() <= states[0].healthy(health).len(),
    ensures
        states[a].pick(states[a].healthy(health), keys[a], draws[a]).0 != states[b].pick(
            states[b].healthy(health),
            keys[b],
            draws[b],
        ).0,
{
    let healthy = states[0].healthy(health);
    let n = healthy.len() as int;
    let c = states[0].counter() as int;
    lemma_counter_advances(states, health, keys, draws, picks, a);
    lemma_counter_advances(states, health, keys, draws, picks, b);
    lemma_healthy_upto(states[0].upstreams@, health, states[0].upstreams@.len());
    lemma_turns_differ(c, n, a, b);
    assert(0 <= (c + a) % n < n);
    assert(0 <= (c + b) % n < n);
    assert(states[a].healthy(health) == healthy);
    assert(states[b].healthy(health) == healthy);
}

/// With at least two healthy backends of equal weight two selections in a row
/// differ, unless the counter wraps around between them.
pub proof fn law_round_robin_alternates(
    pool: Pool,
    then: Pool,
    health: HealthMap,
    hash_key: Option<u64>,
    draw: u64,
    r: Option<Selection>,
)
    requires
        pool.wf(),
        pool.upstreams@.len() <= usize::MAX,
        pool.policy == LbPolicy::RoundRobin,
        pool.uniform(),
        pool.counter() < usize::MAX,
        pool.healthy(health).len() > 1,
        pool.selects(then, health, hash_key, draw, r),
    ensures
        pool.pick(pool.healthy(health), hash_key, draw).0 != then.pick(
            then.healthy(health),
            hash_key,
            draw,
        ).0,
{
    let healthy = pool.healthy(health);
    let n = healthy.len() as int;
    let c = pool.counter() as int;
    lemma_healthy_upto(pool.upstreams@, health, pool.upstreams@.len());
    lemma_turns_differ(c, n, 0, 1);
    assert(0 <= c % n < n);
    assert(0 <= (c + 1) % n < n);
    assert(then.healthy(health) == healthy);
}

/// With ring hash a key keeps its backend whatever else the pool has served,
/// as long as some healthy backend owns a ring point.
pub proof fn law_ring_hash_is_sticky(
    pool: Pool,
    later: Pool,
    health: HealthMap,
    key: u64,
    draw: u64,
    later_draw: u64,
    k: int,
)
    requires
        pool.wf(),
        pool.policy == LbPolicy::RingHash,
        later.same_config(pool),
        0 <= k < pool.ring().len(),
        pool.healthy(health).contains(pool.ring()[k].1),
    ensures
        pool.pick(pool.healthy(health), Some(key), draw).0 == later.pick(
            later.healthy(health),
            Some(key),
            later_draw,
        ).0,
{
    let healthy = pool.healthy(health);
    assert(later.healthy(health) == healthy);
    law_ring_finds_healthy(pool.ring(), key, |i: usize| healthy.contains(i));
}

proof fn lemma_no_weight(candidates: Seq<(usize, u32)>, n: int)
    requires
        0 <= n <= candidates.len(),
        forall|k: int| 0 <= k < n ==> (#[trigger] candidates[k]).1 == 0,
    ensures
        weight_sum(candidates, n) == 0,
    decreases n,
{
    if n > 0 {
        lemma_no_weight(candidates, n - 1);
    }
}

/// With ring hash the choice rests on the key and the counter, not on a draw:
/// where no healthy backend owns a ring point none of them has a weight, and
/// they take turns.
pub proof fn law_ring_hash_draws_nothing(
    pool: Pool,
    healthy: Seq<usize>,
    key: u64,
    draw: u64,
)
    requires
        pool.wf(),
        pool.policy == LbPolicy::RingHash,
        pool.upstreams@.len() <= usize::MAX,
        forall|k: int| 0 <= k < healthy.len() ==> #[trigger] healthy[k] < pool.upstreams@.len(),
    ensures
        pool.pick(healthy, Some(key), draw) == match ring_choice(
            pool.ring(),
            key,
            |i: usize| healthy.contains(i),
        ) {
            Some(i) => (i, pool.counter()),
            None => (
                healthy[pool.counter() as int % healthy.len() as int],
                wrapping_add_one(pool.counter()),
            ),
        },
{
    let ok = |i: usize| healthy.contains(i);
    let ring = pool.ring();
    law_ring_finds_healthy(ring, key, ok);
    if ring_choice(ring, key, ok) is None {
        let names = authorities_of(pool.upstreams@);
        let weights = weights_of(pool.upstreams@);
        let cands = candidates_of(pool.upstreams@, healthy);
        assert forall|k: int| 0 <= k < cands.len() implies (#[trigger] cands[k]).1 == 0 by {
            let i = healthy[k];
            if cands[k].1 > 0 {
                let e = (node_point(names[i as int], 0), i);
                assert(weights[i as int] == cands[k].1);
                assert(is_node(names, weights, i as int, 0));
                lemma_ring_nodes(ring, names, weights, e);
                let m = choose|m: int| 0 <= m < ring.len() && ring[m] == e;
                assert(!ok(ring[m].1));
                assert(healthy.contains(i));
            }
        }
        lemma_no_weight(cands, healthy.len() as int);
    }
}

/// Handing back the guard of a selection restores the in-flight counts.
pub proof fn law_release_undoes_selection(
    pool: Pool,
    busy: Pool,
    done: Pool,
    health: HealthMap,
    hash_key: Option<u64>,
    draw: u64,
    r: Option<Selection>,
)
    requires
        pool.wf(),
        pool.selects(busy, health, hash_key, draw, r),
        r is Some,
        busy.releases(done, r->0.guard.slot()),
        forall|i: int|
            0 <= i < pool.inflight().len() ==> #[trigger] pool.inflight()[i] < usize::MAX,
    ensures
        done.inflight() == pool.inflight(),
        done.same_config(pool),
{
    assert(done.inflight() =~= pool.inflight());
}

// ---------------------------------------------------------------------------
// Pool sets
// ---------------------------------------------------------------------------

/// A set of pools, replaced as a whole on config reload.
pub struct PoolSet {
    index: StringHashMap<usize>,
    pools: Vec<Pool>,
}

/// The last pool of a configuration with the given id.
pub open spec fn last_with_id(pools: Seq<UpstreamPool>, id: Seq<char>) -> Option<int>
    decreases pools.len(),
{
    if pools.len() == 0 {
        None
    } else if pools.last().id.0@ == id {
        Some(pools.len() - 1)
    } else {
        last_with_id(pools.drop_last(), id)
    }
}

/// The addresses of a list of pools, one pool after another.
pub open spec fn backends_of(pools: Seq<Pool>) -> Seq<(Seq<char>, u16)>
    decreases pools.len(),
{
    if pools.len() == 0 {
        Seq::empty()
    } else {
        backends_of(pools.drop_last()) + pools.last().upstreams@.map_values(
            |u: Upstream| (u.host@, u.port),
        )
    }
}

/// The addresses of a list of backends.
pub open spec fn addresses(backends: Seq<(String, u16)>) -> Seq<(Seq<char>, u16)> {
    backends.map_values(|b: (String, u16)| (b.0@, b.1))
}

impl PoolSet {
    /// The pools, each once.
    pub closed spec fn listing(self) -> Seq<Pool> {
        self.pools@
    }

    /// The place of each pool id in the listing.
    pub closed spec fn places(self) -> Map<Seq<char>, usize> {
        self.index@
    }

    /// The validity of a pool set: every id has a place of its own, and the
    /// pool there has that id.
    pub open spec fn wf(self) -> bool {
        &&& forall|id: Seq<char>| #[trigger]
            self.places().contains_key(id) ==> {
                &&& self.places()[id] < self.listing().len()
                &&& self.listing()[self.places()[id] as int].id.0@ == id
            }
        &&& forall|i: int|
            0 <= i < self.listing().len() ==> {
                &&& (#[trigger] self.listing()[i]).wf()
                &&& self.places().contains_key(self.listing()[i].id.0@)
                &&& self.places()[self.listing()[i].id.0@] == i
            }
    }

    /// Whether the set has a pool of the given id.
    pub open spec fn has(self, id: Seq<char>) -> bool {
        self.places().contains_key(id)
    }

    /// The pool of the given id.
    pub open spec fn pool(self, id: Seq<char>) -> Pool {
        self.listing()[self.places()[id] as int]
    }

    /// Whether the set is freshly built from a configuration: one pool for
    /// each id, made from the last entry with that id.
    pub open spec fn built_from(self, pools: Seq<UpstreamPool>) -> bool {
        &&& self.wf()
        &&& forall|id: Seq<char>| #[trigger]
            self.has(id) == (last_with_id(pools, id) is Some)
        &&& forall|id: Seq<char>| #[trigger]
            self.has(id) ==> self.pool(id).made_from(pools[last_with_id(pools, id)->0])
    }

    /// Build a pool set from the dynamic config's pools.
    pub fn build(pools: &[UpstreamPool]) -> (r: Self)
        ensures
            r.built_from(pools@),
    {
        let mut set = PoolSet { index: StringHashMap::new(), pools: Vec::new() };
        let mut i: usize = 0;
        while i < pools.len()
            invariant
                i <= pools@.len(),
                set.built_from(pools@.take(i as int)),
            decreases pools@.len() - i,
        {
            let p = &pools[i];
            let ghost was = set;
            let ghost key = p.id.0@;
            let ghost before = pools@.take(i as int);
            let ghost now = pools@.take(i + 1);
            proof {
                assert(now.drop_last() =~= before);
                assert forall|id: Seq<char>| last_with_id(before, id) is Some implies 0
                    <= #[trigger] last_with_id(before, id)->0 < i by {
                    lemma_last_with_id(before, id);
                }
            }
            let fresh = Pool::new(p);
            let found = match set.index.get(p.id.0.as_str()) {
                Some(at) => Some(*at),
                None => None,
            };
            match found {
                Some(at) => {
                    set.pools.set(at, fresh);
                    proof {
                        assert forall|id: Seq<char>| #[trigger] set.has(id) implies set.pool(
                            id,
                        ).made_from(now[last_with_id(now, id)->0]) by {
                            assert(was.has(id));
                            if id != key {
                                assert(was.pool(id).id.0@ == id);
                                assert(set.pool(id) == was.pool(id));
                            }
                        }
                    }
                },
                None => {
                    let at: usize = set.pools.len();
                    set.pools.push(fresh);
                    set.index.insert(p.id.0.clone(), at);
                    proof {
                        assert forall|id: Seq<char>| #[trigger] set.has(id) implies set.pool(
                            id,
                        ).made_from(now[last_with_id(now, id)->0]) by {
                            if id != key {
                                assert(was.has(id));
                                assert(set.pool(id) == was.pool(id));
                            }
                        }
                    }
                },
            }
            proof {
                assert forall|id: Seq<char>| #[trigger] set.has(id) == (last_with_id(
                    now,
                    id,
                ) is Some) by {
                    assert(was.has(id) == (last_with_id(before, id) is Some));
                }
            }
            i += 1;
        }
        assert(pools@.take(i as int) =~= pools@);
        set
    }

    /// The pool of the given id.
    pub fn get(&self, id: &PoolId) -> (r: Option<&Pool>)
        requires
            self.wf(),
        ensures
            match r {
                Some(p) => self.has(id.0@) && *p == self.pool(id.0@),
                None => !self.has(id.0@),
            },
    {
        match self.index.get(id.0.as_str()) {
            Some(at) => Some(&self.pools[*at]),
            None => None,
        }
    }

    /// The pool of the given id, to select from.
    pub fn get_mut(&mut self, id: &PoolId) -> (r: Option<&mut Pool>)
        requires
            old(self).wf(),
        ensures
            match r {
                Some(p) => {
                    &&& old(self).has(id.0@)
                    &&& *p == old(self).pool(id.0@)
                    &&& final(self).places() == old(self).places()
                    &&& final(self).listing() == old(self).listing().update(
                        old(self).places()[id.0@] as int,
                        *final(p),
                    )
                },
                None => !old(self).has(id.0@) && *final(self) == *old(self),
            },
    {
        let found = match self.index.get(id.0.as_str()) {
            Some(at) => Some(*at),
            None => None,
        };
        match found {
            Some(at) => Some(&mut self.pools[at]),
            None => None,
        }
    }

    /// All `(host, port)` backends across every pool, used to seed and prune
    /// the health map on reload.
    pub fn all_backends(&self) -> (r: Vec<(String, u16)>)
        ensures
            addresses(r@) == backends_of(self.listing()),
    {
        let mut out: Vec<(String, u16)> = Vec::new();
        let mut i: usize = 0;
        assert(addresses(out@) =~= Seq::empty());
        while i < self.pools.len()
            invariant
                i <= self.pools@.len(),
                addresses(out@) == backends_of(self.pools@.take(i as int)),
            decreases self.pools@.len() - i,
        {
            let p = &self.pools[i];
            let ghost done = addresses(out@);
            let ghost mine = p.upstreams@.map_values(|u: Upstream| (u.host@, u.port));
            let mut k: usize = 0;
            while k < p.upstreams.len()
                invariant
                    k <= p.upstreams@.len(),
                    mine == p.upstreams@.map_values(|u: Upstream| (u.host@, u.port)),
                    addresses(out@) =~= done + mine.take(k as int),
                decreases p.upstreams@.len() - k,
            {
                let u = &p.upstreams[k];
                let ghost so_far = out@;
                out.push((u.host.clone(), u.port));
                assert(addresses(out@) =~= addresses(so_far).push((u.host@, u.port)));
                k += 1;
            }
            assert(mine.take(k as int) =~= mine);
            assert(self.pools@.take(i + 1).drop_last() =~= self.pools@.take(i as int));
            i += 1;
        }
        assert(self.pools@.take(i as int) =~= self.pools@);
        out
    }

    /// The number of pools.
    pub fn len(&self) -> (r: usize)
        ensures
            r == self.listing().len(),
    {
        self.pools.len()
    }

    /// Whether there are no pools.
    pub fn is_empty(&self) -> (r: bool)
        ensures
            r == (self.listing().len() == 0),
    {
        self.pools.len() == 0
    }
}

impl Default for PoolSet {
    fn default() -> (r: Self)
        ensures
            r.wf(),
            r.listing().len() == 0,
            r.built_from(Seq::<UpstreamPool>::empty()),
    {
        PoolSet { index: StringHashMap::new(), pools: Vec::new() }
    }
}

proof fn lemma_last_with_id(pools: Seq<UpstreamPool>, id: Seq<char>)
    ensures
        match last_with_id(pools, id) {
            Some(i) => 0 <= i < pools.len() && pools[i].id.0@ == id,
            None => true,
        },
    decreases pools.len(),
{
    if pools.len() > 0 && pools.last().id.0@ != id {
        lemma_last_with_id(pools.drop_last(), id);
    }
}

/// The listed backends of a pool set are exactly those of its pools.
pub proof fn law_all_backends_are_listed(
    pools: Seq<Pool>,
    backends: Seq<(String, u16)>,
    host: Seq<char>,
    port: u16,
)
    requires
        addresses(backends) == backends_of(pools),
    ensures
        listed(backends, host, port) <==> exists|i: int, k: int|
            0 <= i < pools.len() && 0 <= k < pools[i].upstreams@.len() && (
            #[trigger] pools[i].upstreams@[k]).host@ == host && pools[i].upstreams@[k].port == port,
{
    let all = backends_of(pools);
    lemma_backends_of(pools, host, port);
    if listed(backends, host, port) {
        let i = choose|i: int|
            0 <= i < backends.len() && (#[trigger] backends[i]).0@ == host && backends[i].1 == port;
        assert(all[i] == addresses(backends)[i]);
        assert(all.contains((host, port)));
    }
    if all.contains((host, port)) {
        let i = choose|i: int| 0 <= i < all.len() && all[i] == (host, port);
        assert(addresses(backends)[i] == (host, port));
        assert(backends[i].0@ == host);
    }
}

proof fn lemma_backends_of(pools: Seq<Pool>, host: Seq<char>, port: u16)
    ensures
        backends_of(pools).contains((host, port)) <==> exists|i: int, k: int|
            0 <= i < pools.len() && 0 <= k < pools[i].upstreams@.len() && (
            #[trigger] pools[i].upstreams@[k]).host@ == host && pools[i].upstreams@[k].port == port,
    decreases pools.len(),
{
    if pools.len() > 0 {
        let before = pools.drop_last();
        lemma_backends_of(before, host, port);
        let a = backends_of(before);
        let b = pools.last().upstreams@.map_values(|u: Upstream| (u.host@, u.port));
        let all = backends_of(pools);
        let n = pools.len() - 1;
        if all.contains((host, port)) {
            let m = choose|m: int| 0 <= m < all.len() && all[m] == (host, port);
            if m < a.len() {
                assert(a[m] == (host, port));
                let (i, k) = choose|i: int, k: int|
                    0 <= i < before.len() && 0 <= k < before[i].upstreams@.len() && (
                    #[trigger] before[i].upstreams@[k]).host@ == host
                        && before[i].upstreams@[k].port == port;
                assert(pools[i].upstreams@[k].host@ == host);
            } else {
                let k = m - a.len();
                assert(b[k] == (host, port));
                assert(pools[n].upstreams@[k].host@ == host);
            }
        }
        if exists|i: int, k: int|
            0 <= i < pools.len() && 0 <= k < pools[i].upstreams@.len() && (
            #[trigger] pools[i].upstreams@[k]).host@ == host && pools[i].upstreams@[k].port
                == port {
            let (i, k) = choose|i: int, k: int|
                0 <= i < pools.len() && 0 <= k < pools[i].upstreams@.len() && (
                #[trigger] pools[i].upstreams@[k]).host@ == host && pools[i].upstreams@[k].port
                    == port;
            if i < n {
                assert(before[i].upstreams@[k].host@ == host);
                let m = choose|m: int| 0 <= m < a.len() && a[m] == (host, port);
                assert(all[m] == (host, port));
            } else {
                assert(b[k] == (host, port));
                assert(all[a.len() + k] == (host, port));
            }
        }
    }
}

/// The ids of a list of configured pools.
pub open spec fn ids_of(pools: Seq<UpstreamPool>) -> Set<Seq<char>> {
    pools.map_values(|p: UpstreamPool| p.id.0@).to_set()
}

proof fn lemma_last_with_id_is_some(pools: Seq<UpstreamPool>, id: Seq<char>)
    ensures
        last_with_id(pools, id) is Some <==> ids_of(pools).contains(id),
    decreases pools.len(),
{
    let names = pools.map_values(|p: UpstreamPool| p.id.0@);
    if pools.len() > 0 {
        let before = pools.drop_last();
        let fewer = before.map_values(|p: UpstreamPool| p.id.0@);
        lemma_last_with_id_is_some(before, id);
        assert(names =~= fewer.push(pools.last().id.0@));
        if names.contains(id) && pools.last().id.0@ != id {
            let i = choose|i: int| 0 <= i < names.len() && names[i] == id;
            assert(fewer[i] == id);
        }
        if fewer.contains(id) {
            let i = choose|i: int| 0 <= i < fewer.len() && fewer[i] == id;
            assert(names[i] == id);
        }
        if pools.last().id.0@ == id {
            assert(names[pools.len() - 1] == id);
        }
    }
}

/// A pool set has one pool for each id of its configuration.
pub proof fn law_one_pool_for_each_id(set: PoolSet, pools: Seq<UpstreamPool>)
    requires
        set.built_from(pools),
    ensures
        set.listing().len() == ids_of(pools).len(),
{
    let names = set.listing().map_values(|p: Pool| p.id.0@);
    assert(names.no_duplicates()) by {
        assert forall|i: int, j: int| 0 <= i < names.len() && 0 <= j < names.len() && i
            != j implies names[i] != names[j] by {
            assert(set.places()[set.listing()[i].id.0@] == i);
            assert(set.places()[set.listing()[j].id.0@] == j);
        }
    }
    names.unique_seq_to_set();
    assert forall|id: Seq<char>| names.to_set().contains(id) == ids_of(pools).contains(id) by {
        lemma_last_with_id_is_some(pools, id);
        assert(set.has(id) == (last_with_id(pools, id) is Some));
        if names.contains(id) {
            let i = choose|i: int| 0 <= i < names.len() && names[i] == id;
            assert(set.listing()[i].id.0@ == id);
        }
        if set.has(id) {
            assert(names[set.places()[id] as int] == id);
        }
    }
    assert(names.to_set() =~= ids_of(pools));
}

/// The addresses of a list of backends of one pool.
pub open spec fn pool_addresses(upstreams: Seq<Upstream>) -> Seq<(Seq<char>, u16)> {
    upstreams.map_values(|u: Upstream| (u.host@, u.port))
}

/// The entries of a configuration that count: the last one of each id.
pub open spec fn counting(pools: Seq<UpstreamPool>) -> Set<int> {
    Set::new(|i: int| 0 <= i < pools.len() && last_with_id(pools, pools[i].id.0@) == Some(i))
}

/// The addresses of those of the first `n` entries that are in `live`.
pub open spec fn addresses_in(pools: Seq<UpstreamPool>, live: Set<int>, n: nat) -> Multiset<
    (Seq<char>, u16),
>
    decreases n,
{
    if n == 0 {
        Multiset::empty()
    } else {
        let before = addresses_in(pools, live, (n - 1) as nat);
        if live.contains(n - 1) {
            before.add(pool_addresses(pools[n - 1].upstreams@).to_multiset())
        } else {
            before
        }
    }
}

proof fn lemma_addresses_without(pools: Seq<UpstreamPool>, live: Set<int>, n: nat, i: int)
    requires
        live.contains(i),
        0 <= i,
    ensures
        addresses_in(pools, live, n) == if i < n {
            addresses_in(pools, live.remove(i), n).add(
                pool_addresses(pools[i].upstreams@).to_multiset(),
            )
        } else {
            addresses_in(pools, live.remove(i), n)
        },
    decreases n,
{
    if n > 0 {
        lemma_addresses_without(pools, live, (n - 1) as nat, i);
        assert(addresses_in(pools, live, n) =~= if i < n {
            addresses_in(pools, live.remove(i), n).add(
                pool_addresses(pools[i].upstreams@).to_multiset(),
            )
        } else {
            addresses_in(pools, live.remove(i), n)
        });
    }
}

proof fn lemma_addresses_of_none(pools: Seq<UpstreamPool>, live: Set<int>, n: nat)
    requires
        forall|i: int| !live.contains(i),
    ensures
        addresses_in(pools, live, n) == Multiset::<(Seq<char>, u16)>::empty(),
    decreases n,
{
    if n > 0 {
        lemma_addresses_of_none(pools, live, (n - 1) as nat);
    }
}

/// The place of a listed pool in the configuration.
spec fn origin(pools: Seq<UpstreamPool>, p: Pool) -> int {
    last_with_id(pools, p.id.0@)->0
}

proof fn lemma_addresses_of_listing(
    listing: Seq<Pool>,
    pools: Seq<UpstreamPool>,
    live: Set<int>,
)
    requires
        forall|l: int|
            0 <= l < listing.len() ==> {
                let i = origin(pools, #[trigger] listing[l]);
                &&& 0 <= i < pools.len()
                &&& live.contains(i)
                &&& listing[l].upstreams@ == pools[i].upstreams@
            },
        forall|l: int, m: int|
            0 <= l < m < listing.len() ==> origin(pools, #[trigger] listing[l]) != origin(
                pools,
                #[trigger] listing[m],
            ),
        forall|i: int| #[trigger]
            live.contains(i) ==> exists|l: int|
                0 <= l < listing.len() && origin(pools, #[trigger] listing[l]) == i,
    ensures
        backends_of(listing).to_multiset() == addresses_in(pools, live, pools.len()),
    decreases listing.len(),
{
    let all = backends_of(listing);
    if listing.len() == 0 {
        lemma_addresses_of_none(pools, live, pools.len());
        to_multiset_len(all);
        lemma_multiset_empty_len(all.to_multiset());
    } else {
        let before = listing.drop_last();
        let last = listing.last();
        let n = listing.len() - 1;
        let i = origin(pools, listing[n]);
        let rest = live.remove(i);
        assert forall|l: int| 0 <= l < before.len() implies {
            let i = origin(pools, #[trigger] before[l]);
            &&& 0 <= i < pools.len()
            &&& rest.contains(i)
            &&& before[l].upstreams@ == pools[i].upstreams@
        } by {
            assert(before[l] == listing[l]);
            assert(origin(pools, listing[l]) != origin(pools, listing[n]));
        }
        assert forall|l: int, m: int| 0 <= l < m < before.len() implies origin(
            pools,
            #[trigger] before[l],
        ) != origin(pools, #[trigger] before[m]) by {
            assert(origin(pools, listing[l]) != origin(pools, listing[m]));
        }
        assert forall|k: int| #[trigger] rest.contains(k) implies exists|l: int|
            0 <= l < before.len() && origin(pools, #[trigger] before[l]) == k by {
            assert(live.contains(k));
            let l = choose|l: int|
                0 <= l < listing.len() && origin(pools, #[trigger] listing[l]) == k;
            assert(before[l] == listing[l]);
        }
        lemma_addresses_of_listing(before, pools, rest);
        lemma_addresses_without(pools, live, pools.len(), i);
        let mine = pool_addresses(last.upstreams@);
        assert(all =~= backends_of(before) + mine);
        lemma_multiset_commutative(backends_of(before), mine);
    }
}

/// The listed backends of a pool set are those of its configuration, each as
/// often as the entries that count have it; of entries with one id the last
/// counts.
pub proof fn law_all_backends_count(
    set: PoolSet,
    pools: Seq<UpstreamPool>,
    backends: Seq<(String, u16)>,
)
    requires
        set.built_from(pools),
        addresses(backends) == backends_of(set.listing()),
    ensures
        addresses(backends).to_multiset() == addresses_in(pools, counting(pools), pools.len()),
{
    let listing = set.listing();
    let live = counting(pools);
    assert forall|l: int| 0 <= l < listing.len() implies {
        let i = origin(pools, #[trigger] listing[l]);
        &&& 0 <= i < pools.len()
        &&& live.contains(i)
        &&& listing[l].upstreams@ == pools[i].upstreams@
        &&& pools[i].id.0@ == listing[l].id.0@
    } by {
        let id = listing[l].id.0@;
        assert(set.has(id));
        lemma_last_with_id(pools, id);
        assert(set.pool(id) == listing[l]);
    }
    assert forall|l: int, m: int| 0 <= l < m < listing.len() implies origin(
        pools,
        #[trigger] listing[l],
    ) != origin(pools, #[trigger] listing[m]) by {
        assert(set.places()[listing[l].id.0@] == l);
        assert(set.places()[listing[m].id.0@] == m);
    }
    assert forall|i: int| #[trigger] live.contains(i) implies exists|l: int|
        0 <= l < listing.len() && origin(pools, #[trigger] listing[l]) == i by {
        let id = pools[i].id.0@;
        assert(set.has(id) == (last_with_id(pools, id) is Some));
        let l = set.places()[id] as int;
        assert(listing[l].id.0@ == id);
    }
    lemma_addresses_of_listing(listing, pools, live);
}

// ---------------------------------------------------------------------------
// What a selection comes to
// ---------------------------------------------------------------------------

/// Whether `up` lists, in ascending order, the backends that may receive
/// requests.
pub open spec fn lists_healthy(pool: Pool, health: HealthMap, up: Seq<usize>) -> bool {
    &&& forall|a: int, b: int| 0 <= a < b < up.len() ==> (#[trigger] up[a]) < (#[trigger] up[b])
    &&& forall|i: usize| #[trigger]
        up.contains(i) <==> i < pool.upstreams@.len() && health.selectable(
            pool.upstreams@[i as int].host@,
            pool.upstreams@[i as int].port,
        )
}

/// The weight of the first `k` of some backends together.
pub open spec fn share_before(upstreams: Seq<Upstream>, up: Seq<usize>, k: int) -> int {
    up.take(k).fold_left(0int, |t: int, i: usize| t + upstreams[i as int].weight)
}

proof fn lemma_same_ascending(a: Seq<usize>, b: Seq<usize>)
    requires
        forall|i: int, j: int| 0 <= i < j < a.len() ==> (#[trigger] a[i]) < (#[trigger] a[j]),
        forall|i: int, j: int| 0 <= i < j < b.len() ==> (#[trigger] b[i]) < (#[trigger] b[j]),
        forall|x: usize| #[trigger] a.contains(x) <==> b.contains(x),
    ensures
        a == b,
    decreases a.len(),
{
    if a.len() == 0 {
        if b.len() > 0 {
            assert(b.contains(b[0]));
            assert(a.contains(b[0]));
        }
        assert(a =~= b);
    } else {
        assert(a.contains(a[0]));
        assert(b.contains(a[0]));
        let x = a.last();
        assert(a.contains(x));
        assert(b.contains(x));
        let y = b.last();
        assert(b.contains(y));
        assert(a.contains(y));
        let p = choose|p: int| 0 <= p < b.len() && b[p] == x;
        let q = choose|q: int| 0 <= q < a.len() && a[q] == y;
        if p < b.len() - 1 {
            assert(b[p] < b[b.len() - 1]);
        }
        if q < a.len() - 1 {
            assert(a[q] < a[a.len() - 1]);
        }
        assert(x == y);
        let c = a.drop_last();
        let d = b.drop_last();
        assert forall|z: usize| #[trigger] c.contains(z) <==> d.contains(z) by {
            if c.contains(z) {
                let i = choose|i: int| 0 <= i < c.len() && c[i] == z;
                assert(a[i] == z);
                assert(a[i] < a[a.len() - 1]);
                assert(a.contains(z));
                assert(b.contains(z));
                let j = choose|j: int| 0 <= j < b.len() && b[j] == z;
                assert(d[j] == z);
            }
            if d.contains(z) {
                let i = choose|i: int| 0 <= i < d.len() && d[i] == z;
                assert(b[i] == z);
                assert(b[i] < b[b.len() - 1]);
                assert(b.contains(z));
                assert(a.contains(z));
                let j = choose|j: int| 0 <= j < a.len() && a[j] == z;
                assert(c[j] == z);
            }
        }
        lemma_same_ascending(c, d);
        assert(a =~= c.push(x));
        assert(b =~= d.push(y));
    }
}

proof fn lemma_lists_healthy(pool: Pool, health: HealthMap, up: Seq<usize>)
    requires
        lists_healthy(pool, health, up),
        pool.upstreams@.len() <= usize::MAX,
    ensures
        pool.healthy(health) == up,
        forall|k: int| 0 <= k < up.len() ==> (#[trigger] up[k]) < pool.upstreams@.len(),
{
    let ups = pool.upstreams@;
    let mine = pool.healthy(health);
    lemma_healthy_upto(ups, health, ups.len());
    assert forall|i: usize| #[trigger] mine.contains(i) <==> up.contains(i) by {
        if mine.contains(i) {
            let k = choose|k: int| 0 <= k < mine.len() && mine[k] == i;
            assert(mine[k] < ups.len());
        }
    }
    lemma_same_ascending(mine, up);
    assert forall|k: int| 0 <= k < up.len() implies (#[trigger] up[k]) < ups.len() by {
        assert(up.contains(up[k]));
    }
}

proof fn lemma_share_is_weight(pool: Pool, up: Seq<usize>, k: int)
    requires
        0 <= k <= up.len(),
    ensures
        share_before(pool.upstreams@, up, k) == weight_sum(candidates_of(pool.upstreams@, up), k),
        k < up.len() ==> share_before(pool.upstreams@, up, k + 1) == share_before(
            pool.upstreams@,
            up,
            k,
        ) + pool.upstreams@[up[k] as int].weight,
    decreases k,
{
    let ups = pool.upstreams@;
    if k > 0 {
        lemma_share_is_weight(pool, up, k - 1);
        assert(up.take(k).drop_last() =~= up.take(k - 1));
    }
    if k < up.len() {
        assert(up.take(k + 1).drop_last() =~= up.take(k));
    }
}

/// Round robin over backends of different weights: the draw, taken modulo the
/// weight of all healthy backends, falls to the backend whose share of the
/// weight it lies in. Only the healthy backends count, however many are down,
/// and nothing but the weights decides.
pub proof fn law_round_robin_follows_weights(
    pool: Pool,
    after: Pool,
    health: HealthMap,
    hash_key: Option<u64>,
    draw: u64,
    sel: Selection,
    up: Seq<usize>,
    k: int,
    a: int,
    b: int,
)
    requires
        pool.wf(),
        pool.upstreams@.len() <= usize::MAX,
        pool.policy == LbPolicy::RoundRobin,
        0 <= a < pool.upstreams@.len(),
        0 <= b < pool.upstreams@.len(),
        pool.upstreams@[a].weight != pool.upstreams@[b].weight,
        lists_healthy(pool, health, up),
        pool.selects(after, health, hash_key, draw, Some(sel)),
        0 <= k < up.len(),
        ({
            let total = share_before(pool.upstreams@, up, up.len() as int);
            &&& total > 0
            &&& share_before(pool.upstreams@, up, k) <= draw as int % total < share_before(
                pool.upstreams@,
                up,
                k + 1,
            )
        }),
    ensures
        sel.upstream == pool.upstreams@[up[k] as int],
        after.counter() == pool.counter(),
{
    let ups = pool.upstreams@;
    lemma_lists_healthy(pool, health, up);
    lemma_share_is_weight(pool, up, up.len() as int);
    lemma_share_is_weight(pool, up, k);
    lemma_share_is_weight(pool, up, k + 1);
    let cands = candidates_of(ups, up);
    let total = share_before(ups, up, up.len() as int);
    let r = draw as int % total;
    assert(!pool.uniform());
    assert(owns_draw(cands, k, r));
    let c = choose|c: int| #[trigger] owns_draw(cands, c, r);
    law_draws_follow_weight(cands, r, c, k);
}

/// Over as many draws as the healthy backends weigh together, each of them is
/// selected exactly as often as its weight says.
pub proof fn law_round_robin_shares(pool: Pool, hash_key: Option<u64>, up: Seq<usize>, k: int, a: int, b: int)
    requires
        pool.wf(),
        pool.policy == LbPolicy::RoundRobin,
        0 <= a < pool.upstreams@.len(),
        0 <= b < pool.upstreams@.len(),
        pool.upstreams@[a].weight != pool.upstreams@[b].weight,
        forall|i: int, j: int| 0 <= i < j < up.len() ==> (#[trigger] up[i]) < (#[trigger] up[j]),
        0 <= k < up.len(),
        0 < share_before(pool.upstreams@, up, up.len() as int) <= u64::MAX,
    ensures
        ({
            let total = share_before(pool.upstreams@, up, up.len() as int);
            let won = Set::new(
                |d: int| 0 <= d < total && pool.pick(up, hash_key, d as u64).0 == up[k],
            );
            &&& won.finite()
            &&& won.len() == pool.upstreams@[up[k] as int].weight
        }),
{
    let ups = pool.upstreams@;
    let total = share_before(ups, up, up.len() as int);
    let cands = candidates_of(ups, up);
    let won = Set::new(|d: int| 0 <= d < total && pool.pick(up, hash_key, d as u64).0 == up[k]);
    assert(!pool.uniform());
    lemma_share_is_weight(pool, up, up.len() as int);
    law_candidate_owns_its_weight(cands, k);
    let mine = Set::new(|r: int| owns_draw(cands, k, r));
    assert forall|d: int| won.contains(d) <==> mine.contains(d) by {
        if 0 <= d < total {
            vstd::arithmetic::div_mod::lemma_small_mod(d as nat, total as nat);
            assert((d as u64) as int % total == d);
            law_draws_follow_weight(cands, d, k, k);
            let c = choose|c: int| #[trigger] owns_draw(cands, c, d);
            law_draws_follow_weight(cands, d, c, k);
            assert(pool.pick(up, hash_key, d as u64).0 == cands[c].0);
            assert(cands[c].0 == up[c]);
            if c != k {
                if c < k {
                    assert(up[c] < up[k]);
                } else {
                    assert(up[k] < up[c]);
                }
            }
        }
    }
    assert(won =~= mine);
}

/// Round robin over backends of one weight, or over healthy backends without
/// weight: they take turns, one after another, whatever is drawn.
pub proof fn law_round_robin_takes_turns(
    pool: Pool,
    after: Pool,
    health: HealthMap,
    hash_key: Option<u64>,
    draw: u64,
    sel: Selection,
    up: Seq<usize>,
)
    requires
        pool.wf(),
        pool.upstreams@.len() <= usize::MAX,
        pool.policy == LbPolicy::RoundRobin,
        lists_healthy(pool, health, up),
        pool.selects(after, health, hash_key, draw, Some(sel)),
        (forall|i: int|
            0 <= i < pool.upstreams@.len() ==> (#[trigger] pool.upstreams@[i]).weight
                == pool.upstreams@[0].weight) || share_before(
            pool.upstreams@,
            up,
            up.len() as int,
        ) == 0,
    ensures
        up.len() > 0,
        sel.upstream == pool.upstreams@[up[pool.counter() as int % up.len() as int] as int],
        pool.counter() < usize::MAX ==> after.counter() == pool.counter() + 1,
        pool.counter() == usize::MAX ==> after.counter() == 0,
{
    lemma_lists_healthy(pool, health, up);
    lemma_share_is_weight(pool, up, up.len() as int);
    if forall|i: int|
        0 <= i < pool.upstreams@.len() ==> (#[trigger] pool.upstreams@[i]).weight
            == pool.upstreams@[0].weight {
        assert(same_weights(pool.upstreams@));
    }
}

/// Least request: a backend is selected for which no healthy one has fewer
/// requests in flight, one more counted, for its weight; a weight of 0 counts
/// as 1. That backend has one more request in flight then, and no other has.
pub proof fn law_least_request_balances(
    pool: Pool,
    after: Pool,
    health: HealthMap,
    hash_key: Option<u64>,
    draw: u64,
    sel: Selection,
    j: usize,
)
    requires
        pool.wf(),
        pool.upstreams@.len() <= usize::MAX,
        pool.policy == LbPolicy::LeastRequest,
        pool.selects(after, health, hash_key, draw, Some(sel)),
        j < pool.upstreams@.len(),
    ensures
        sel.guard.slot() matches Some(i) && {
            let mine = pool.upstreams@[i as int];
            let other = pool.upstreams@[j as int];
            let w = if mine.weight == 0 {
                1int
            } else {
                mine.weight as int
            };
            let v = if other.weight == 0 {
                1int
            } else {
                other.weight as int
            };
            &&& i < pool.upstreams@.len()
            &&& sel.upstream == mine
            &&& health.selectable(other.host@, other.port) ==> (pool.inflight()[i as int] + 1) * v
                <= (pool.inflight()[j as int] + 1) * w
            &&& j != i ==> after.inflight()[j as int] == pool.inflight()[j as int]
            &&& pool.inflight()[i as int] < usize::MAX ==> after.inflight()[i as int]
                == pool.inflight()[i as int] + 1
        },
{
    let ups = pool.upstreams@;
    lemma_healthy_upto(ups, health, ups.len());
    let healthy = pool.healthy(health);
    if health.selectable(ups[j as int].host@, ups[j as int].port) {
        assert(healthy.contains(j));
        let k = choose|k: int| 0 <= k < healthy.len() && healthy[k] == j;
        law_least_request_is_least(pool, healthy, k);
    }
}

/// Least request: equally loaded backends take turns by the counter.
pub proof fn law_least_request_ties_take_turns(
    pool: Pool,
    after: Pool,
    health: HealthMap,
    hash_key: Option<u64>,
    draw: u64,
    sel: Selection,
    tied: Seq<usize>,
)
    requires
        pool.wf(),
        pool.upstreams@.len() <= usize::MAX,
        pool.policy == LbPolicy::LeastRequest,
        pool.selects(after, health, hash_key, draw, Some(sel)),
        lists_healthy(pool, health, tied),
        forall|a: int, b: int|
            0 <= a < tied.len() && 0 <= b < tied.len() ==> pool.inflight()[#[trigger] tied[a] as int]
                == pool.inflight()[#[trigger] tied[b] as int] && pool.upstreams@[tied[a] as int].weight
                == pool.upstreams@[tied[b] as int].weight,
    ensures
        tied.len() > 0,
        sel.upstream == pool.upstreams@[tied[pool.counter() as int % tied.len() as int] as int],
        tied.len() > 1 && pool.counter() < usize::MAX ==> after.counter() == pool.counter() + 1,
{
    lemma_lists_healthy(pool, health, tied);
    let f = |i: usize| pool.lightest(tied, i);
    assert forall|k: int| 0 <= k < tied.len() implies f(#[trigger] tied[k]) by {
        assert forall|m: int| 0 <= m < tied.len() implies !pool.lighter(
            #[trigger] tied[m],
            tied[k],
        ) by {
            assert(pool.inflight()[tied[m] as int] == pool.inflight()[tied[k] as int]);
        }
    }
    lemma_filter_keeps_all(tied, f);
    assert(pool.ties(tied) == tied);
}

proof fn lemma_filter_keeps_all(s: Seq<usize>, f: spec_fn(usize) -> bool)
    requires
        forall|k: int| 0 <= k < s.len() ==> f(#[trigger] s[k]),
    ensures
        s.filter(f) == s,
    decreases s.len(),
{
    reveal(Seq::filter);
    if s.len() > 0 {
        let t = s.drop_last();
        assert forall|k: int| 0 <= k < t.len() implies f(#[trigger] t[k]) by {
            assert(f(s[k]));
        }
        lemma_filter_keeps_all(t, f);
        assert(f(s[s.len() - 1]));
        assert(s =~= t.push(s.last()));
    }
    assert(s.filter(f) =~= s);
}

/// Ring hash: the key goes to the healthy backend that owns the next point of
/// the ring at or after it, going round.
pub proof fn law_ring_hash_goes_to_the_next_point(
    pool: Pool,
    after: Pool,
    health: HealthMap,
    key: u64,
    draw: u64,
    sel: Selection,
    m: int,
)
    requires
        pool.wf(),
        pool.upstreams@.len() <= usize::MAX,
        pool.policy == LbPolicy::RingHash,
        pool.selects(after, health, Some(key), draw, Some(sel)),
        0 <= m < pool.ring().len(),
        pool.ring()[m].1 < pool.upstreams@.len(),
        ({
            let u = pool.upstreams@[pool.ring()[m].1 as int];
            health.selectable(u.host@, u.port)
        }),
    ensures
        exists|n: int|
            0 <= n < pool.ring().len() && {
                let e = #[trigger] pool.ring()[n];
                let f = pool.ring()[m];
                &&& e.1 < pool.upstreams@.len()
                &&& sel.upstream == pool.upstreams@[e.1 as int]
                &&& health.selectable(sel.upstream.host@, sel.upstream.port)
                &&& if e.0 >= key {
                    f.0 >= key ==> e.0 <= f.0
                } else {
                    f.0 < key && e.0 <= f.0
                }
            },
{
    let ups = pool.upstreams@;
    let ring = pool.ring();
    lemma_healthy_upto(ups, health, ups.len());
    let healthy = pool.healthy(health);
    let ok = |i: usize| healthy.contains(i);
    let f = ring[m];
    assert(healthy.contains(f.1));
    lemma_choice_decides(ring, key, ok);
    assert(ring.contains(f));
    assert(ring_choice(ring, key, ok) is Some);
    let i = ring_choice(ring, key, ok)->0;
    let e = choose|e: (u64, usize)| #[trigger] decides(ring, key, ok, e) && e.1 == i;
    let n = choose|n: int| 0 <= n < ring.len() && ring[n] == e;
    assert(ok(f.1));
    assert(round_le(key, e, f));
    assert(ok(e.1));
    let q = choose|q: int| 0 <= q < healthy.len() && healthy[q] == e.1;
    assert(ring[n].1 == i);
}

/// A selection changes the counter and the in-flight counts and nothing else,
/// and none at all where nothing is selected. Only least request counts
/// requests in flight.
pub proof fn law_selection_keeps_the_pool(
    pool: Pool,
    after: Pool,
    health: HealthMap,
    hash_key: Option<u64>,
    draw: u64,
    r: Option<Selection>,
)
    requires
        pool.wf(),
        pool.selects(after, health, hash_key, draw, r),
    ensures
        after.id == pool.id,
        after.scheme == pool.scheme,
        after.policy == pool.policy,
        after.upstreams@ == pool.upstreams@,
        after.ring() == pool.ring(),
        after.inflight().len() == pool.inflight().len(),
        r is None ==> after == pool,
        pool.policy != LbPolicy::LeastRequest ==> after.inflight() == pool.inflight() && (r
            matches Some(sel) ==> sel.guard.slot() is None),
{
}

/// A built set has exactly the ids of its configuration, and for each a pool
/// made from the last entry with that id: its scheme, its policy and its
/// backends, with nothing in flight and the first turn to come.
pub proof fn law_built_pools_follow_config(
    set: PoolSet,
    pools: Seq<UpstreamPool>,
    i: int,
    id: Seq<char>,
)
    requires
        set.built_from(pools),
        0 <= i < pools.len(),
        forall|j: int| i < j < pools.len() ==> (#[trigger] pools[j]).id.0@ != pools[i].id.0@,
    ensures
        set.has(id) <==> exists|j: int| 0 <= j < pools.len() && (#[trigger] pools[j]).id.0@ == id,
        set.has(pools[i].id.0@),
        ({
            let p = set.pool(pools[i].id.0@);
            &&& p.wf()
            &&& p.id == pools[i].id
            &&& p.scheme == pools[i].scheme
            &&& p.policy == pools[i].lb_policy
            &&& p.upstreams@ == pools[i].upstreams@
            &&& p.counter() == 0
            &&& p.inflight().len() == p.upstreams@.len()
            &&& forall|k: int| 0 <= k < p.inflight().len() ==> p.inflight()[k] == 0
        }),
{
    let mine = pools[i].id.0@;
    lemma_last_with_id_is_some(pools, id);
    lemma_last_is(pools, i);
    let names = pools.map_values(|p: UpstreamPool| p.id.0@);
    assert(set.has(id) == (last_with_id(pools, id) is Some));
    assert(set.has(mine) == (last_with_id(pools, mine) is Some));
    if names.contains(id) {
        let j = choose|j: int| 0 <= j < names.len() && names[j] == id;
        assert(pools[j].id.0@ == id);
    }
    if exists|j: int| 0 <= j < pools.len() && (#[trigger] pools[j]).id.0@ == id {
        let j = choose|j: int| 0 <= j < pools.len() && (#[trigger] pools[j]).id.0@ == id;
        assert(names[j] == id);
    }
}

proof fn lemma_last_is(pools: Seq<UpstreamPool>, i: int)
    requires
        0 <= i < pools.len(),
        forall|j: int| i < j < pools.len() ==> (#[trigger] pools[j]).id.0@ != pools[i].id.0@,
    ensures
        last_with_id(pools, pools[i].id.0@) == Some(i),
    decreases pools.len(),
{
    if i < pools.len() - 1 {
        let before = pools.drop_last();
        assert(pools[pools.len() - 1].id.0@ != pools[i].id.0@);
        assert forall|j: int| i < j < before.len() implies (#[trigger] before[j]).id.0@
            != before[i].id.0@ by {
            assert(before[j] == pools[j]);
        }
        lemma_last_is(before, i);
    }
}

proof fn lemma_filter_ascends(s: Seq<usize>, f: spec_fn(usize) -> bool)
    requires
        forall|i: int, j: int| 0 <= i < j < s.len() ==> (#[trigger] s[i]) < (#[trigger] s[j]),
    ensures
        forall|x: usize| #[trigger] s.filter(f).contains(x) <==> s.contains(x) && f(x),
        forall|i: int, j: int|
            0 <= i < j < s.filter(f).len() ==> (#[trigger] s.filter(f)[i]) < (
            #[trigger] s.filter(f)[j]),
    decreases s.len(),
{
    reveal(Seq::filter);
    if s.len() > 0 {
        let t = s.drop_last();
        let last = s[s.len() - 1];
        assert forall|i: int, j: int| 0 <= i < j < t.len() implies (#[trigger] t[i]) < (
        #[trigger] t[j]) by {
            assert(s[i] < s[j]);
        }
        lemma_filter_ascends(t, f);
        let kept = t.filter(f);
        let all = s.filter(f);
        assert(all == if f(last) {
            kept.push(last)
        } else {
            kept
        });
        assert forall|x: usize| #[trigger] all.contains(x) <==> s.contains(x) && f(x) by {
            if t.contains(x) {
                let k = choose|k: int| 0 <= k < t.len() && t[k] == x;
                assert(s[k] == x);
            }
            if s.contains(x) {
                let k = choose|k: int| 0 <= k < s.len() && s[k] == x;
                if k < t.len() {
                    assert(t[k] == x);
                }
            }
            assert(kept.contains(x) <==> t.contains(x) && f(x));
            if kept.contains(x) {
                let k = choose|k: int| 0 <= k < kept.len() && kept[k] == x;
                assert(all[k] == x);
            }
            if all.contains(x) {
                let k = choose|k: int| 0 <= k < all.len() && all[k] == x;
                if k < kept.len() {
                    assert(kept[k] == x);
                }
            }
            if x == last && f(x) {
                assert(all[kept.len() as int] == x);
                assert(s[s.len() - 1] == x);
            }
        }
        assert forall|i: int, j: int| 0 <= i < j < all.len() implies (#[trigger] all[i]) < (
        #[trigger] all[j]) by {
            if j < kept.len() {
                assert(kept[i] < kept[j]);
            } else {
                assert(kept.contains(kept[i]));
                assert(t.contains(kept[i]));
                let k = choose|k: int| 0 <= k < t.len() && t[k] == kept[i];
                assert(s[k] < s[s.len() - 1]);
            }
        }
    }
}

/// Least request: the healthy backends that share the least load for their
/// weight take turns by the counter, in their order. The counter moves on only
/// where there is more than one of them.
pub proof fn law_least_loaded_take_turns(
    pool: Pool,
    after: Pool,
    health: HealthMap,
    hash_key: Option<u64>,
    draw: u64,
    sel: Selection,
    up: Seq<usize>,
    least: Seq<usize>,
)
    requires
        pool.wf(),
        pool.upstreams@.len() <= usize::MAX,
        pool.policy == LbPolicy::LeastRequest,
        pool.selects(after, health, hash_key, draw, Some(sel)),
        lists_healthy(pool, health, up),
        forall|i: int| 0 <= i < pool.upstreams@.len() ==> (#[trigger] pool.upstreams@[i]).weight > 0,
        forall|a: int, b: int|
            0 <= a < b < least.len() ==> (#[trigger] least[a]) < (#[trigger] least[b]),
        forall|i: usize| #[trigger]
            least.contains(i) <==> up.contains(i) && forall|j: int|
                0 <= j < up.len() ==> (pool.inflight()[i as int] + 1)
                    * pool.upstreams@[#[trigger] up[j] as int].weight <= (
                pool.inflight()[up[j] as int] + 1) * pool.upstreams@[i as int].weight,
    ensures
        least.len() > 0,
        sel.upstream == pool.upstreams@[least[pool.counter() as int % least.len() as int] as int],
        least.len() == 1 ==> after.counter() == pool.counter(),
        least.len() > 1 && pool.counter() < usize::MAX ==> after.counter() == pool.counter() + 1,
        least.len() > 1 && pool.counter() == usize::MAX ==> after.counter() == 0,
{
    lemma_lists_healthy(pool, health, up);
    let f = |i: usize| pool.lightest(up, i);
    lemma_filter_ascends(up, f);
    let ties = up.filter(f);
    assert forall|i: usize| #[trigger] ties.contains(i) <==> least.contains(i) by {
        if up.contains(i) {
            let k = choose|k: int| 0 <= k < up.len() && up[k] == i;
            assert(up[k] < pool.upstreams@.len());
            assert(pool.upstreams@[i as int].weight > 0);
            if f(i) {
                assert forall|j: int| 0 <= j < up.len() implies (pool.inflight()[i as int] + 1)
                    * pool.upstreams@[#[trigger] up[j] as int].weight <= (
                pool.inflight()[up[j] as int] + 1) * pool.upstreams@[i as int].weight by {
                    assert(!pool.lighter(up[j], i));
                    assert(pool.upstreams@[up[j] as int].weight > 0);
                }
            }
            if least.contains(i) {
                assert forall|j: int| 0 <= j < up.len() implies !pool.lighter(
                    #[trigger] up[j],
                    i,
                ) by {
                    assert(pool.upstreams@[up[j] as int].weight > 0);
                }
            }
        }
    }
    lemma_same_ascending(ties, least);
    assert(pool.ties(up) == ties);
    lemma_ties(pool, up);
}

/// Ring hash: a request without a key is one with the key 0. The other policies
/// do not look at the key.
pub proof fn law_keys_matter_to_the_ring_alone(
    pool: Pool,
    healthy: Seq<usize>,
    key: Option<u64>,
    other: Option<u64>,
    draw: u64,
)
    ensures
        pool.policy == LbPolicy::RingHash ==> pool.pick(healthy, None, draw) == pool.pick(
            healthy,
            Some(0),
            draw,
        ),
        pool.policy != LbPolicy::RingHash ==> pool.pick(healthy, key, draw) == pool.pick(
            healthy,
            other,
            draw,
        ),
{
}

/// Ring hash: where no healthy backend owns a point of the ring, the healthy
/// ones take turns by the counter, whatever the key.
pub proof fn law_ring_hash_falls_back_to_turns(
    pool: Pool,
    after: Pool,
    health: HealthMap,
    key: u64,
    draw: u64,
    sel: Selection,
    up: Seq<usize>,
)
    requires
        pool.wf(),
        pool.upstreams@.len() <= usize::MAX,
        pool.policy == LbPolicy::RingHash,
        lists_healthy(pool, health, up),
        pool.selects(after, health, Some(key), draw, Some(sel)),
        forall|m: int| 0 <= m < pool.ring().len() ==> !up.contains((#[trigger] pool.ring()[m]).1),
    ensures
        up.len() > 0,
        sel.upstream == pool.upstreams@[up[pool.counter() as int % up.len() as int] as int],
        pool.counter() < usize::MAX ==> after.counter() == pool.counter() + 1,
        pool.counter() == usize::MAX ==> after.counter() == 0,
{
    lemma_lists_healthy(pool, health, up);
    law_ring_hash_draws_nothing(pool, up, key, draw);
    let ok = |i: usize| up.contains(i);
    law_ring_finds_healthy(pool.ring(), key, ok);
    if ring_choice(pool.ring(), key, ok) is Some {
        let i = ring_choice(pool.ring(), key, ok)->0;
        let e = choose|e: (u64, usize)| #[trigger] decides(pool.ring(), key, ok, e) && e.1 == i;
        let n = choose|n: int| 0 <= n < pool.ring().len() && pool.ring()[n] == e;
        assert(!up.contains(pool.ring()[n].1));
    }
}

/// Handing a guard back takes one request from the count of its backend, never
/// below none, and leaves every other count, the counter and the configuration
/// as they are.
pub proof fn law_release_takes_one(pool: Pool, after: Pool, slot: Option<usize>, j: usize)
    requires
        pool.releases(after, slot),
        j < pool.inflight().len(),
    ensures
        after.inflight().len() == pool.inflight().len(),
        slot != Some(j) ==> after.inflight()[j as int] == pool.inflight()[j as int],
        slot == Some(j) && pool.inflight()[j as int] > 0 ==> after.inflight()[j as int]
            == pool.inflight()[j as int] - 1,
        slot == Some(j) && pool.inflight()[j as int] == 0 ==> after.inflight()[j as int] == 0,
        after.counter() == pool.counter(),
        after.upstreams@ == pool.upstreams@,
        after.policy == pool.policy,
        after.scheme == pool.scheme,
        after.id == pool.id,
        after.ring() == pool.ring(),
{
}

/// The ring of a pool is that of its backends, each known by its host and port
/// and counted by its weight.
pub proof fn law_ring_is_of_the_backends(pool: Pool, i: int)
    requires
        pool.wf(),
        pool.policy == LbPolicy::RingHash,
        0 <= i < pool.upstreams@.len(),
    ensures
        is_ring(pool.ring(), authorities_of(pool.upstreams@), weights_of(pool.upstreams@)),
        authorities_of(pool.upstreams@).len() == pool.upstreams@.len(),
        weights_of(pool.upstreams@).len() == pool.upstreams@.len(),
        authorities_of(pool.upstreams@)[i] == pool.upstreams@[i].host@ + ":"@ + decimal(
            pool.upstreams@[i].port as nat,
        ),
        weights_of(pool.upstreams@)[i] == pool.upstreams@[i].weight,
{
}

}
