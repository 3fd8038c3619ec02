//! Load-balancing selection algorithms.
//!
//! - `round_robin`: advance a shared counter modulo the healthy count.
//! - `least_request`: pick the healthy backend with the fewest in-flight
//!   requests (round-robin tie-break).
//! - `ring_hash`: consistent hash on a per-request key for session affinity;
//!   minimal disruption when the backend set changes.

use crate::sort::{ascending, sorted, Ranked};
use crate::text::texts;
use crate::types::IpAddr;
use std::collections::hash_map::DefaultHasher;
use std::hash::Hasher;
use vstd::bytes::*;
use vstd::multiset::*;
use vstd::prelude::*;
use vstd::seq_lib::*;
use vstd::std_specs::hash::*;
use vstd::string::*;
use vstd::utf8::*;

verus! {

/// Number of virtual nodes per backend on the hash ring. More replicas give a
/// smoother distribution at higher build cost.
pub const RING_REPLICAS: usize = 160;

// ---------------------------------------------------------------------------
// Hashing
// ---------------------------------------------------------------------------

/// A value that can be hashed to a ring point.
pub trait HashInput {
    /// The byte strings fed to the hasher, in order.
    spec fn writes(&self) -> Seq<Seq<u8>>;

    /// Feeds the value to a hasher.
    fn feed(&self, h: &mut DefaultHasher)
        ensures
            final(h)@ == old(h)@ + self.writes(),
    ;
}

/// The bytes of a text and a terminator that no text contains.
pub open spec fn text_writes(s: Seq<char>) -> Seq<Seq<u8>> {
    seq![encode_utf8(s), seq![0xffu8]]
}

fn feed_text(s: &str, h: &mut DefaultHasher)
    ensures
        final(h)@ == old(h)@ + text_writes(s@),
{
    h.write(s.as_bytes());
    let end: [u8; 1] = [0xffu8];
    assert(end@ =~= seq![0xffu8]);
    h.write(end.as_slice());
    assert(h@ =~= old(h)@ + text_writes(s@));
}

impl<'a> HashInput for &'a str {
    open spec fn writes(&self) -> Seq<Seq<u8>> {
        text_writes(self@)
    }

    fn feed(&self, h: &mut DefaultHasher) {
        feed_text(self, h);
    }
}

impl<'a> HashInput for (&'a str, usize) {
    open spec fn writes(&self) -> Seq<Seq<u8>> {
        text_writes(self.0@).push(spec_u64_to_le_bytes(self.1 as u64))
    }

    fn feed(&self, h: &mut DefaultHasher) {
        feed_text(self.0, h);
        let n = u64_to_le_bytes(self.1 as u64);
        h.write(n.as_slice());
        assert(h@ =~= old(h)@ + self.writes());
    }
}

/// The octets of an address, in network order.
pub open spec fn octets(ip: IpAddr) -> Seq<u8> {
    match ip {
        IpAddr::V4(x) => Seq::new(
            4,
            |i: int| ((x >> ((24 - 8 * i) as u32)) & 0xff) as u8,
        ),
        IpAddr::V6(x) => Seq::new(
            16,
            |i: int| ((x >> ((120 - 8 * i) as u32)) & 0xff) as u8,
        ),
    }
}

fn octets_of(ip: &IpAddr) -> (r: Vec<u8>)
    ensures
        r@ == octets(*ip),
{
    let mut out: Vec<u8> = Vec::new();
    let mut i: u32 = 0;
    match ip {
        IpAddr::V4(x) => {
            while i < 4
                invariant
                    i <= 4,
                    *ip == IpAddr::V4(*x),
                    out@ =~= octets(*ip).take(i as int),
                decreases 4 - i,
            {
                let by: u32 = 24 - 8 * i;
                out.push(((*x >> by) & 0xff) as u8);
                i += 1;
            }
        },
        IpAddr::V6(x) => {
            while i < 16
                invariant
                    i <= 16,
                    *ip == IpAddr::V6(*x),
                    out@ =~= octets(*ip).take(i as int),
                decreases 16 - i,
            {
                let by: u32 = 120 - 8 * i;
                out.push(((*x >> by) & 0xff) as u8);
                i += 1;
            }
        },
    }
    assert(octets(*ip).take(i as int) =~= octets(*ip));
    out
}

impl HashInput for IpAddr {
    open spec fn writes(&self) -> Seq<Seq<u8>> {
        seq![
            spec_u64_to_le_bytes(
                if *self is V4 {
                    0u64
                } else {
                    1u64
                },
            ),
            octets(*self),
        ]
    }

    fn feed(&self, h: &mut DefaultHasher) {
        let family: u64 = match self {
            IpAddr::V4(_) => 0,
            IpAddr::V6(_) => 1,
        };
        let tag = u64_to_le_bytes(family);
        h.write(tag.as_slice());
        let bytes = octets_of(self);
        h.write(bytes.as_slice());
        assert(h@ =~= old(h)@ + self.writes());
    }
}

/// The ring point of what was written to the hasher.
pub open spec fn hash_of(writes: Seq<Seq<u8>>) -> u64 {
    DefaultHasher::spec_finish(writes)
}

/// Hash a value to a ring point.
pub fn hash64<T: HashInput>(v: T) -> (r: u64)
    ensures
        r == hash_of(v.writes()),
{
    let mut h = DefaultHasher::new();
    v.feed(&mut h);
    assert(h@ =~= v.writes());
    h.finish()
}

// ---------------------------------------------------------------------------
// The ring
// ---------------------------------------------------------------------------

/// The ring point of one virtual node of a backend.
pub open spec fn node_point(authority: Seq<char>, replica: int) -> u64 {
    hash_of(text_writes(authority).push(spec_u64_to_le_bytes(replica as u64)))
}

/// The weight of backend `i`; one where none is given.
pub open spec fn weight_at(weights: Seq<u32>, i: int) -> nat {
    if 0 <= i < weights.len() {
        weights[i] as nat
    } else {
        1
    }
}

/// The number of virtual nodes of a backend of the given weight.
pub open spec fn node_count(weight: nat) -> nat {
    if RING_REPLICAS * weight <= usize::MAX {
        (RING_REPLICAS * weight) as nat
    } else {
        usize::MAX as nat
    }
}

/// The virtual nodes of backend `i`.
pub open spec fn backend_nodes(authority: Seq<char>, i: int, count: nat) -> Seq<(u64, usize)> {
    Seq::new(count, |k: int| (node_point(authority, k), i as usize))
}

/// The virtual nodes of the first `n` backends, one backend after another.
pub open spec fn nodes(authorities: Seq<Seq<char>>, weights: Seq<u32>, n: nat) -> Seq<(u64, usize)>
    decreases n,
{
    if n == 0 {
        Seq::empty()
    } else {
        let i = n - 1;
        nodes(authorities, weights, i as nat) + backend_nodes(
            authorities[i],
            i,
            node_count(weight_at(weights, i)),
        )
    }
}

/// Whether `ring` is the consistent-hash ring of the given backends: all of
/// their virtual nodes, ordered by point and then by backend.
pub open spec fn is_ring(
    ring: Seq<(u64, usize)>,
    authorities: Seq<Seq<char>>,
    weights: Seq<u32>,
) -> bool {
    &&& ascending(ring)
    &&& ring.to_multiset() == nodes(authorities, weights, authorities.len()).to_multiset()
}

/// Build a sorted consistent-hash ring of `(point, upstream_index)` from the
/// backend authorities. Each backend gets `RING_REPLICAS * weight` virtual
/// nodes, so a heavier backend owns proportionally more of the keyspace
/// (weighted affinity). A weight of 0 places the backend on no ring points.
pub fn build_ring(authorities: &[String], weights: &[u32]) -> (r: Vec<(u64, usize)>)
    ensures
        is_ring(r@, texts(authorities@), weights@),
        r@.len() == nodes(texts(authorities@), weights@, authorities@.len()).len(),
{
    let mut all: Vec<(u64, usize)> = Vec::new();
    let mut i: usize = 0;
    while i < authorities.len()
        invariant
            i <= authorities@.len(),
            all@ == nodes(texts(authorities@), weights@, i as nat),
        decreases authorities@.len() - i,
    {
        let weight: usize = if i < weights.len() {
            weights[i] as usize
        } else {
            1
        };
        let replicas: usize = match RING_REPLICAS.checked_mul(weight) {
            Some(n) => n,
            None => usize::MAX,
        };
        let ghost mine = backend_nodes(authorities@[i as int]@, i as int, replicas as nat);
        let ghost done = all@;
        assert(replicas == node_count(weight_at(weights@, i as int)));
        let mut k: usize = 0;
        while k < replicas
            invariant
                i < authorities@.len(),
                k <= replicas,
                mine == backend_nodes(authorities@[i as int]@, i as int, replicas as nat),
                all@ =~= done + mine.take(k as int),
            decreases replicas - k,
        {
            let point = hash64((authorities[i].as_str(), k));
            all.push((point, i));
            k += 1;
        }
        assert(mine.take(k as int) =~= mine);
        i += 1;
    }
    sorted(all.as_slice())
}

/// A ring holds exactly the virtual nodes of its backends.
pub proof fn lemma_ring_nodes(
    ring: Seq<(u64, usize)>,
    authorities: Seq<Seq<char>>,
    weights: Seq<u32>,
    e: (u64, usize),
)
    requires
        is_ring(ring, authorities, weights),
        authorities.len() <= usize::MAX,
    ensures
        ring.contains(e) <==> exists|i: int, k: int| #[trigger]
            is_node(authorities, weights, i, k) && e == (node_point(authorities[i], k), i as usize),
{
    let all = nodes(authorities, weights, authorities.len());
    to_multiset_contains(ring, e);
    to_multiset_contains(all, e);
    lemma_nodes_contain(authorities, weights, authorities.len(), e);
}

/// Whether virtual node `k` of backend `i` exists.
pub open spec fn is_node(authorities: Seq<Seq<char>>, weights: Seq<u32>, i: int, k: int) -> bool {
    0 <= i < authorities.len() && 0 <= k < node_count(weight_at(weights, i))
}

proof fn lemma_nodes_contain(
    authorities: Seq<Seq<char>>,
    weights: Seq<u32>,
    n: nat,
    e: (u64, usize),
)
    requires
        n <= authorities.len() <= usize::MAX,
    ensures
        nodes(authorities, weights, n).contains(e) <==> exists|i: int, k: int|
            #![trigger is_node(authorities, weights, i, k)]
            is_node(authorities, weights, i, k) && i < n && e == (
                node_point(authorities[i], k),
                i as usize,
            ),
    decreases n,
{
    if n > 0 {
        let i = n - 1;
        lemma_nodes_contain(authorities, weights, i as nat, e);
        let a = nodes(authorities, weights, i as nat);
        let b = backend_nodes(authorities[i], i, node_count(weight_at(weights, i)));
        let s = nodes(authorities, weights, n);
        assert(s == a + b);
        if s.contains(e) {
            let j = choose|j: int| 0 <= j < s.len() && s[j] == e;
            if j < a.len() {
                assert(a[j] == e);
            } else {
                assert(b[j - a.len()] == e);
                assert(is_node(authorities, weights, i, j - a.len()));
            }
        }
        if exists|i: int, k: int|
            #![trigger is_node(authorities, weights, i, k)]
            is_node(authorities, weights, i, k) && i < n && e == (
                node_point(authorities[i], k),
                i as usize,
            ) {
            let (j, k) = choose|j: int, k: int|
                #![trigger is_node(authorities, weights, j, k)]
                is_node(authorities, weights, j, k) && j < n && e == (
                    node_point(authorities[j], k),
                    j as usize,
                );
            if j == i {
                assert(b[k] == e);
                assert(s[a.len() + k] == e);
            } else {
                let m = choose|m: int| 0 <= m < a.len() && a[m] == e;
                assert(s[m] == e);
            }
        }
    }
}

/// The entries of backend `i`.
pub open spec fn of_backend(i: usize) -> spec_fn((u64, usize)) -> bool {
    |e: (u64, usize)| e.1 == i
}

/// The number of ring entries of backend `i`.
pub open spec fn entries_of(ring: Seq<(u64, usize)>, i: usize) -> nat {
    ring.to_multiset().filter(of_backend(i)).len()
}

proof fn lemma_filter_multiset(s: Seq<(u64, usize)>, i: usize)
    ensures
        s.to_multiset().filter(of_backend(i)) == s.filter(
            of_backend(i),
        ).to_multiset(),
    decreases s.len(),
{
    let f = of_backend(i);
    if s.len() == 0 {
        assert(s.filter(f) =~= Seq::empty()) by {
            reveal(Seq::filter);
        }
        to_multiset_len(s);
        to_multiset_len(s.filter(f));
        lemma_multiset_empty_len(s.to_multiset());
        lemma_multiset_empty_len(s.filter(f).to_multiset());
        assert(s.to_multiset().filter(f) =~= s.filter(f).to_multiset());
    } else {
        let t = s.drop_last();
        lemma_filter_multiset(t, i);
        assert(s =~= t.push(s.last()));
        to_multiset_build(t, s.last());
        reveal(Seq::filter);
        if f(s.last()) {
            to_multiset_build(t.filter(f), s.last());
        }
        assert(s.to_multiset().filter(f) =~= s.filter(f).to_multiset());
    }
}

proof fn lemma_nodes_of(authorities: Seq<Seq<char>>, weights: Seq<u32>, n: nat, i: usize)
    requires
        n <= authorities.len() <= usize::MAX,
    ensures
        nodes(authorities, weights, n).filter(of_backend(i)).len() == if i < n {
            node_count(weight_at(weights, i as int))
        } else {
            0
        },
    decreases n,
{
    let f = of_backend(i);
    if n == 0 {
        reveal(Seq::filter);
    } else {
        let j = n - 1;
        lemma_nodes_of(authorities, weights, j as nat, i);
        let a = nodes(authorities, weights, j as nat);
        let b = backend_nodes(authorities[j], j, node_count(weight_at(weights, j)));
        Seq::filter_distributes_over_add(a, b, f);
        lemma_filter_all(b, f, j == i);
    }
}

proof fn lemma_filter_all(s: Seq<(u64, usize)>, f: spec_fn((u64, usize)) -> bool, keep: bool)
    requires
        forall|k: int| 0 <= k < s.len() ==> f(#[trigger] s[k]) == keep,
    ensures
        s.filter(f).len() == if keep {
            s.len()
        } else {
            0
        },
    decreases s.len(),
{
    reveal(Seq::filter);
    if s.len() > 0 {
        let t = s.drop_last();
        assert forall|k: int| 0 <= k < t.len() implies f(#[trigger] t[k]) == keep by {
            assert(t[k] == s[k]);
        }
        lemma_filter_all(t, f, keep);
        assert(f(s[s.len() - 1]) == keep);
    }
}

/// Each backend owns `RING_REPLICAS * weight` ring points; a backend of
/// weight 0 owns none.
pub proof fn law_ring_points_follow_weight(
    ring: Seq<(u64, usize)>,
    authorities: Seq<Seq<char>>,
    weights: Seq<u32>,
    i: usize,
)
    requires
        is_ring(ring, authorities, weights),
        authorities.len() <= usize::MAX,
        i < authorities.len(),
    ensures
        entries_of(ring, i) == node_count(weight_at(weights, i as int)),
{
    let all = nodes(authorities, weights, authorities.len());
    lemma_filter_multiset(all, i);
    lemma_nodes_of(authorities, weights, authorities.len(), i);
    to_multiset_len(all.filter(of_backend(i)));
}

// ---------------------------------------------------------------------------
// Picking from the ring
// ---------------------------------------------------------------------------

/// The position of the first ring entry at or after `key`.
pub open spec fn ring_start(ring: Seq<(u64, usize)>, key: u64) -> nat
    decreases ring.len(),
{
    if ring.len() == 0 || ring[0].0 >= key {
        0
    } else {
        1 + ring_start(ring.skip(1), key)
    }
}

/// The backend of the first entry that passes `ok`.
pub open spec fn first_ok(entries: Seq<(u64, usize)>, ok: spec_fn(usize) -> bool) -> Option<usize>
    decreases entries.len(),
{
    if entries.len() == 0 {
        None
    } else if ok(entries[0].1) {
        Some(entries[0].1)
    } else {
        first_ok(entries.skip(1), ok)
    }
}

/// The ring read from the point at or after `key`, once around.
pub open spec fn ring_from(ring: Seq<(u64, usize)>, key: u64) -> Seq<(u64, usize)> {
    let s = ring_start(ring, key) as int;
    ring.skip(s) + ring.take(s)
}

/// The backend a ring gives for a key: the first one, going round from the
/// key, that passes `ok`.
pub open spec fn ring_choice(
    ring: Seq<(u64, usize)>,
    key: u64,
    ok: spec_fn(usize) -> bool,
) -> Option<usize> {
    first_ok(ring_from(ring, key), ok)
}

proof fn lemma_ring_start_is(ring: Seq<(u64, usize)>, key: u64, n: nat)
    requires
        n <= ring.len(),
        forall|i: int| 0 <= i < n ==> (#[trigger] ring[i]).0 < key,
        n < ring.len() ==> ring[n as int].0 >= key,
    ensures
        ring_start(ring, key) == n,
    decreases ring.len(),
{
    if n > 0 {
        assert(ring[0].0 < key);
        let t = ring.skip(1);
        assert forall|i: int| 0 <= i < n - 1 implies (#[trigger] t[i]).0 < key by {
            assert(t[i] == ring[i + 1]);
        }
        lemma_ring_start_is(t, key, (n - 1) as nat);
    }
}

proof fn lemma_ring_start(ring: Seq<(u64, usize)>, key: u64)
    ensures
        ring_start(ring, key) <= ring.len(),
        forall|i: int| 0 <= i < ring_start(ring, key) ==> (#[trigger] ring[i]).0 < key,
        ring_start(ring, key) < ring.len() ==> ring[ring_start(ring, key) as int].0 >= key,
    decreases ring.len(),
{
    if ring.len() > 0 && ring[0].0 < key {
        let t = ring.skip(1);
        lemma_ring_start(t, key);
        assert forall|i: int| 0 <= i < ring_start(ring, key) implies (#[trigger] ring[i]).0
            < key by {
            if i > 0 {
                assert(t[i - 1] == ring[i]);
            }
        }
        let n = ring_start(t, key) as int;
        if n < t.len() {
            assert(t[n] == ring[n + 1]);
        }
    }
}

proof fn lemma_first_ok_is(
    entries: Seq<(u64, usize)>,
    ok: spec_fn(usize) -> bool,
    n: int,
)
    requires
        0 <= n <= entries.len(),
        forall|i: int| 0 <= i < n ==> !ok((#[trigger] entries[i]).1),
        n < entries.len() ==> ok(entries[n].1),
    ensures
        first_ok(entries, ok) == if n < entries.len() {
            Some(entries[n].1)
        } else {
            None
        },
    decreases entries.len(),
{
    if n > 0 {
        assert(!ok(entries[0].1));
        let t = entries.skip(1);
        assert forall|i: int| 0 <= i < n - 1 implies !ok((#[trigger] t[i]).1) by {
            assert(t[i] == entries[i + 1]);
        }
        if n < entries.len() {
            assert(t[n - 1] == entries[n]);
        }
        lemma_first_ok_is(t, ok, n - 1);
    }
}

proof fn lemma_first_ok(entries: Seq<(u64, usize)>, ok: spec_fn(usize) -> bool) -> (n: int)
    ensures
        0 <= n <= entries.len(),
        forall|i: int| 0 <= i < n ==> !ok((#[trigger] entries[i]).1),
        n < entries.len() ==> ok(entries[n].1),
        first_ok(entries, ok) == if n < entries.len() {
            Some(entries[n].1)
        } else {
            None
        },
    decreases entries.len(),
{
    if entries.len() == 0 || ok(entries[0].1) {
        0
    } else {
        let t = entries.skip(1);
        let m = lemma_first_ok(t, ok);
        assert forall|i: int| 0 <= i < m + 1 implies !ok((#[trigger] entries[i]).1) by {
            if i > 0 {
                assert(t[i - 1] == entries[i]);
            }
        }
        if m < t.len() {
            assert(t[m] == entries[m + 1]);
        }
        m + 1
    }
}

/// Whether the points of a ring ascend; entries of one point may stand in any
/// order.
pub open spec fn points_ascend(ring: Seq<(u64, usize)>) -> bool {
    forall|i: int, j: int|
        0 <= i <= j < ring.len() ==> (#[trigger] ring[i]).0 <= (#[trigger] ring[j]).0
}

/// The points of a sorted ring ascend.
pub proof fn lemma_points_ascend(ring: Seq<(u64, usize)>)
    requires
        ascending(ring),
    ensures
        points_ascend(ring),
{
    assert forall|i: int, j: int| 0 <= i <= j < ring.len() implies (#[trigger] ring[i]).0 <= (
    #[trigger] ring[j]).0 by {
        assert(ring[i].rank_le(ring[j]));
    }
}

/// Walk the ring from the point at or after `key` and return the first
/// upstream index that passes `is_healthy`.
pub fn ring_pick(
    ring: &[(u64, usize)],
    key: u64,
    is_healthy: impl Fn(usize) -> bool,
) -> (r: Option<usize>)
    requires
        points_ascend(ring@),
        forall|i: usize| #[trigger] call_requires(is_healthy, (i,)),
    ensures
        forall|ok: spec_fn(usize) -> bool|
            (forall|i: usize, b: bool| #[trigger]
                call_ensures(is_healthy, (i,), b) ==> b == ok(i)) ==> r == #[trigger] ring_choice(
                ring@,
                key,
                ok,
            ),
{
    let mut lo: usize = 0;
    let mut hi: usize = ring.len();
    while lo < hi
        invariant
            lo <= hi <= ring@.len(),
            points_ascend(ring@),
            forall|i: int| 0 <= i < lo ==> (#[trigger] ring@[i]).0 < key,
            forall|i: int| hi <= i < ring@.len() ==> (#[trigger] ring@[i]).0 >= key,
        decreases hi - lo,
    {
        let mid: usize = lo + (hi - lo) / 2;
        if ring[mid].0 < key {
            assert forall|i: int| 0 <= i < mid + 1 implies (#[trigger] ring@[i]).0 < key by {
                assert(ring@[i].0 <= ring@[mid as int].0);
            }
            lo = mid + 1;
        } else {
            assert forall|i: int| mid <= i < ring@.len() implies (#[trigger] ring@[i]).0 >= key by {
                assert(ring@[mid as int].0 <= ring@[i].0);
            }
            hi = mid;
        }
    }
    proof {
        lemma_ring_start_is(ring@, key, lo as nat);
    }
    let ghost order = ring_from(ring@, key);
    let mut off: usize = 0;
    while off < ring.len()
        invariant
            lo <= ring@.len(),
            off <= ring@.len(),
            order == ring@.skip(lo as int) + ring@.take(lo as int),
            order == ring_from(ring@, key),
            forall|i: usize| #[trigger] call_requires(is_healthy, (i,)),
            forall|i: int|
                0 <= i < off ==> call_ensures(is_healthy, ((#[trigger] order[i]).1,), false),
        decreases ring@.len() - off,
    {
        let left: usize = ring.len() - lo;
        let at: usize = if off < left {
            lo + off
        } else {
            off - left
        };
        let idx: usize = ring[at].1;
        assert(order[off as int] == ring@[at as int]);
        if is_healthy(idx) {
            proof {
                assert forall|ok: spec_fn(usize) -> bool|
                    (forall|i: usize, b: bool| #[trigger]
                        call_ensures(is_healthy, (i,), b) ==> b == ok(i)) implies Some(idx)
                    == #[trigger] ring_choice(ring@, key, ok) by {
                    lemma_first_ok_is(order, ok, off as int);
                }
            }
            return Some(idx);
        }
        off += 1;
    }
    proof {
        assert forall|ok: spec_fn(usize) -> bool|
            (forall|i: usize, b: bool| #[trigger]
                call_ensures(is_healthy, (i,), b) ==> b == ok(i)) implies None::<usize>
            == #[trigger] ring_choice(ring@, key, ok) by {
            lemma_first_ok_is(order, ok, off as int);
        }
    }
    None
}

/// Whether entry `a` comes before entry `b` going round from `key`: entries
/// at or after the key first, each part by point and then by backend.
pub open spec fn round_le(key: u64, a: (u64, usize), b: (u64, usize)) -> bool {
    if (a.0 >= key) == (b.0 >= key) {
        a.rank_le(b)
    } else {
        a.0 >= key
    }
}

/// Whether `e` is the entry that decides for `key`.
pub open spec fn decides(
    ring: Seq<(u64, usize)>,
    key: u64,
    ok: spec_fn(usize) -> bool,
    e: (u64, usize),
) -> bool {
    &&& ring.contains(e)
    &&& ok(e.1)
    &&& forall|f: (u64, usize)| #[trigger]
        ring.contains(f) && ok(f.1) ==> round_le(key, e, f)
}

/// The choice for a key is the backend of the first entry going round.
pub proof fn lemma_choice_decides(
    ring: Seq<(u64, usize)>,
    key: u64,
    ok: spec_fn(usize) -> bool,
)
    requires
        ascending(ring),
    ensures
        match ring_choice(ring, key, ok) {
            Some(i) => exists|e: (u64, usize)| #[trigger] decides(ring, key, ok, e) && e.1 == i,
            None => forall|e: (u64, usize)| #[trigger] ring.contains(e) ==> !ok(e.1),
        },
{
    lemma_ring_start(ring, key);
    let s = ring_start(ring, key) as int;
    let order = ring_from(ring, key);
    let n = lemma_first_ok(order, ok);
    assert forall|f: (u64, usize)| #[trigger] ring.contains(f) implies order.contains(f) by {
        let k = choose|k: int| 0 <= k < ring.len() && ring[k] == f;
        if k < s {
            assert(order[ring.len() - s + k] == f);
        } else {
            assert(order[k - s] == f);
        }
    }
    if n < order.len() {
        let e = order[n];
        let at = if n < ring.len() - s {
            s + n
        } else {
            n - (ring.len() - s)
        };
        assert(ring[at] == e);
        assert forall|f: (u64, usize)| #[trigger] ring.contains(f) && ok(f.1) implies round_le(
            key,
            e,
            f,
        ) by {
            let m = choose|m: int| 0 <= m < order.len() && order[m] == f;
            let bt = if m < ring.len() - s {
                s + m
            } else {
                m - (ring.len() - s)
            };
            assert(ring[bt] == f);
            assert(m >= n);
            if at >= s {
                assert(ring[s].rank_le(ring[at]));
            }
            if bt >= s {
                assert(ring[s].rank_le(ring[bt]));
            }
            if at <= bt {
                assert(ring[at].rank_le(ring[bt]));
            }
        }
        assert(decides(ring, key, ok, e));
    } else {
        assert forall|e: (u64, usize)| #[trigger] ring.contains(e) implies !ok(e.1) by {
            let m = choose|m: int| 0 <= m < order.len() && order[m] == e;
        }
    }
}

/// The deciding entry gives the choice.
pub proof fn lemma_decides_choice(
    ring: Seq<(u64, usize)>,
    key: u64,
    ok: spec_fn(usize) -> bool,
    e: (u64, usize),
)
    requires
        ascending(ring),
        decides(ring, key, ok, e),
    ensures
        ring_choice(ring, key, ok) == Some(e.1),
{
    lemma_choice_decides(ring, key, ok);
    let f = choose|f: (u64, usize)| #[trigger]
        decides(ring, key, ok, f) && f.1 == ring_choice(ring, key, ok)->0;
    assert(ring.contains(e) && ring.contains(f));
    assert(round_le(key, e, f) && round_le(key, f, e));
}

/// A key stays with its backend while that backend stays healthy: taking
/// other backends out of the healthy set moves no key of this one, in whatever
/// order the ring stands.
pub proof fn law_ring_affinity(
    ring: Seq<(u64, usize)>,
    key: u64,
    ok: spec_fn(usize) -> bool,
    fewer: spec_fn(usize) -> bool,
    i: usize,
)
    requires
        ring_choice(ring, key, ok) == Some(i),
        fewer(i),
        forall|j: usize| #[trigger] fewer(j) ==> ok(j),
    ensures
        ring_choice(ring, key, fewer) == Some(i),
{
    let order = ring_from(ring, key);
    let n = lemma_first_ok(order, ok);
    assert forall|m: int| 0 <= m < n implies !fewer((#[trigger] order[m]).1) by {
        assert(!ok(order[m].1));
    }
    lemma_first_ok_is(order, fewer, n);
}

/// The ring gives a healthy backend whenever a healthy backend owns a point.
pub proof fn law_ring_finds_healthy(
    ring: Seq<(u64, usize)>,
    key: u64,
    ok: spec_fn(usize) -> bool,
)
    ensures
        match ring_choice(ring, key, ok) {
            Some(i) => ok(i) && exists|k: int| 0 <= k < ring.len() && (#[trigger] ring[k]).1 == i,
            None => forall|k: int| 0 <= k < ring.len() ==> !ok((#[trigger] ring[k]).1),
        },
{
    lemma_ring_start(ring, key);
    let s = ring_start(ring, key) as int;
    let rest = ring.len() - s;
    let order = ring_from(ring, key);
    let n = lemma_first_ok(order, ok);
    if n < order.len() {
        let k = if n < rest {
            s + n
        } else {
            n - rest
        };
        assert(ring[k] == order[n]);
    } else {
        assert forall|k: int| 0 <= k < ring.len() implies !ok((#[trigger] ring[k]).1) by {
            if k < s {
                assert(order[rest + k] == ring[k]);
            } else {
                assert(order[k - s] == ring[k]);
            }
        }
    }
}

/// The index of backend `i` once backend `gone` has been taken out.
pub open spec fn renumbered(i: int, gone: int) -> int {
    if i < gone {
        i
    } else {
        i - 1
    }
}

/// Taking a backend out of the configuration moves only the keys it served,
/// whichever backends are healthy: every other key goes to the same backend as
/// before.
pub proof fn law_ring_removal_keeps_keys(
    ring: Seq<(u64, usize)>,
    smaller: Seq<(u64, usize)>,
    authorities: Seq<Seq<char>>,
    weights: Seq<u32>,
    gone: int,
    key: u64,
    ok: spec_fn(usize) -> bool,
    ok2: spec_fn(usize) -> bool,
    i: usize,
)
    requires
        authorities.len() <= usize::MAX,
        weights.len() == authorities.len(),
        0 <= gone < authorities.len(),
        is_ring(ring, authorities, weights),
        is_ring(smaller, authorities.remove(gone), weights.remove(gone)),
        forall|j: usize|
            j < authorities.len() && j != gone ==> #[trigger] ok(j) == ok2(
                renumbered(j as int, gone) as usize,
            ),
        ring_choice(ring, key, ok) == Some(i),
        i != gone,
    ensures
        ring_choice(smaller, key, ok2) == Some(renumbered(i as int, gone) as usize),
{
    let a2 = authorities.remove(gone);
    let w2 = weights.remove(gone);
    lemma_choice_decides(ring, key, ok);
    let e = choose|e: (u64, usize)| #[trigger] decides(ring, key, ok, e) && e.1 == i;
    lemma_ring_nodes(ring, authorities, weights, e);
    let (b, k) = choose|b: int, k: int| #[trigger]
        is_node(authorities, weights, b, k) && e == (node_point(authorities[b], k), b as usize);
    let c = renumbered(b, gone);
    assert(a2[c] == authorities[b] && w2[c] == weights[b]);
    let e2 = (e.0, c as usize);
    assert(is_node(a2, w2, c, k));
    lemma_ring_nodes(smaller, a2, w2, e2);
    assert(smaller.contains(e2));
    assert(ok(i));
    assert forall|f2: (u64, usize)| #[trigger] smaller.contains(f2) && ok2(f2.1) implies round_le(
        key,
        e2,
        f2,
    ) by {
        lemma_ring_nodes(smaller, a2, w2, f2);
        let (d2, m) = choose|d2: int, m: int| #[trigger]
            is_node(a2, w2, d2, m) && f2 == (node_point(a2[d2], m), d2 as usize);
        let d = if d2 < gone {
            d2
        } else {
            d2 + 1
        };
        assert(a2[d2] == authorities[d] && w2[d2] == weights[d]);
        let f = (f2.0, d as usize);
        assert(is_node(authorities, weights, d, m));
        lemma_ring_nodes(ring, authorities, weights, f);
        assert(ring.contains(f));
        assert(ok(d as usize));
        assert(round_le(key, e, f));
    }
    assert(decides(smaller, key, ok2, e2));
    lemma_decides_choice(smaller, key, ok2, e2);
}

/// With every backend healthy, taking one out of the configuration moves only
/// the keys it served.
pub proof fn law_ring_minimal_disruption(
    ring: Seq<(u64, usize)>,
    smaller: Seq<(u64, usize)>,
    authorities: Seq<Seq<char>>,
    weights: Seq<u32>,
    gone: int,
    key: u64,
    i: usize,
)
    requires
        authorities.len() <= usize::MAX,
        weights.len() == authorities.len(),
        0 <= gone < authorities.len(),
        is_ring(ring, authorities, weights),
        is_ring(smaller, authorities.remove(gone), weights.remove(gone)),
        ring_choice(ring, key, |j: usize| true) == Some(i),
        i != gone,
    ensures
        ring_choice(smaller, key, |j: usize| true) == Some(renumbered(i as int, gone) as usize),
{
    let ok = |j: usize| true;
    law_ring_removal_keeps_keys(ring, smaller, authorities, weights, gone, key, ok, ok, i);
}

/// The entries of the backends other than `gone`.
pub open spec fn of_others(gone: int) -> spec_fn((u64, usize)) -> bool {
    |e: (u64, usize)| e.1 != gone
}

/// The ring entries of the backends other than `gone`, in their order and with
/// the backends renumbered.
pub open spec fn without_backend(entries: Seq<(u64, usize)>, gone: int) -> Seq<(u64, usize)> {
    entries.filter(of_others(gone)).map_values(
        |e: (u64, usize)| (e.0, renumbered(e.1 as int, gone) as usize),
    )
}

proof fn lemma_without_push(entries: Seq<(u64, usize)>, e: (u64, usize), gone: int)
    ensures
        without_backend(entries.push(e), gone) == if e.1 == gone {
            without_backend(entries, gone)
        } else {
            without_backend(entries, gone).push((e.0, renumbered(e.1 as int, gone) as usize))
        },
{
    entries.lemma_filter_push(e, of_others(gone));
    if e.1 == gone {
        assert(without_backend(entries.push(e), gone) =~= without_backend(entries, gone));
    } else {
        assert(without_backend(entries.push(e), gone) =~= without_backend(entries, gone).push(
            (e.0, renumbered(e.1 as int, gone) as usize),
        ));
    }
}

proof fn lemma_without_nodes(authority: Seq<char>, i: int, count: nat, gone: int)
    requires
        0 <= i <= usize::MAX,
        0 <= gone,
    ensures
        without_backend(backend_nodes(authority, i, count), gone) == if i == gone {
            Seq::<(u64, usize)>::empty()
        } else {
            backend_nodes(authority, renumbered(i, gone), count)
        },
    decreases count,
{
    let all = backend_nodes(authority, i, count);
    if count == 0 {
        reveal(Seq::filter);
        assert(without_backend(all, gone) =~= Seq::empty());
        assert(backend_nodes(authority, renumbered(i, gone), 0) =~= Seq::empty());
    } else {
        let m = (count - 1) as nat;
        let fewer = backend_nodes(authority, i, m);
        lemma_without_nodes(authority, i, m, gone);
        assert(all =~= fewer.push(all[m as int]));
        lemma_without_push(fewer, all[m as int], gone);
        if i != gone {
            assert(backend_nodes(authority, renumbered(i, gone), count) =~= backend_nodes(
                authority,
                renumbered(i, gone),
                m,
            ).push((node_point(authority, m as int), renumbered(i, gone) as usize)));
        }
    }
}

proof fn lemma_nodes_without(
    authorities: Seq<Seq<char>>,
    weights: Seq<u32>,
    n: nat,
    gone: int,
)
    requires
        n <= authorities.len() <= usize::MAX,
        weights.len() == authorities.len(),
        0 <= gone < authorities.len(),
    ensures
        without_backend(nodes(authorities, weights, n), gone) == nodes(
            authorities.remove(gone),
            weights.remove(gone),
            if n <= gone {
                n
            } else {
                (n - 1) as nat
            },
        ),
    decreases n,
{
    let a2 = authorities.remove(gone);
    let w2 = weights.remove(gone);
    if n == 0 {
        reveal(Seq::filter);
        assert(without_backend(nodes(authorities, weights, 0), gone) =~= Seq::empty());
    } else {
        let i = n - 1;
        let a = nodes(authorities, weights, i as nat);
        let b = backend_nodes(authorities[i], i, node_count(weight_at(weights, i)));
        lemma_nodes_without(authorities, weights, i as nat, gone);
        lemma_without_nodes(authorities[i], i, node_count(weight_at(weights, i)), gone);
        Seq::filter_distributes_over_add(a, b, of_others(gone));
        assert(without_backend(a + b, gone) =~= without_backend(a, gone) + without_backend(b, gone));
        if i != gone {
            let c = renumbered(i, gone);
            assert(a2[c] == authorities[i] && w2[c] == weights[i]);
        } else {
            assert(without_backend(a + b, gone) =~= without_backend(a, gone));
        }
    }
}

proof fn lemma_without_counts(entries: Seq<(u64, usize)>, gone: int, e: (u64, usize))
    requires
        0 <= gone < usize::MAX,
    ensures
        without_backend(entries, gone).to_multiset().count(e) == if e.1 == usize::MAX {
            0
        } else if e.1 < gone {
            entries.to_multiset().count(e)
        } else {
            entries.to_multiset().count((e.0, (e.1 + 1) as usize))
        },
    decreases entries.len(),
{
    let kept = without_backend(entries, gone);
    if entries.len() == 0 {
        reveal(Seq::filter);
        to_multiset_len(entries);
        to_multiset_len(kept);
        lemma_multiset_empty_len(entries.to_multiset());
        lemma_multiset_empty_len(kept.to_multiset());
    } else {
        let t = entries.drop_last();
        let last = entries.last();
        lemma_without_counts(t, gone, e);
        assert(entries =~= t.push(last));
        to_multiset_build(t, last);
        lemma_without_push(t, last, gone);
        if last.1 != gone {
            to_multiset_build(
                without_backend(t, gone),
                (last.0, renumbered(last.1 as int, gone) as usize),
            );
        }
    }
}

proof fn lemma_without_ascends(entries: Seq<(u64, usize)>, gone: int)
    requires
        ascending(entries),
        0 <= gone,
    ensures
        ascending(without_backend(entries, gone)),
        forall|k: int|
            0 <= k < without_backend(entries, gone).len() ==> exists|m: int|
                0 <= m < entries.len() && (#[trigger] entries[m]).1 != gone && (
                #[trigger] without_backend(entries, gone)[k]) == (
                    entries[m].0,
                    renumbered(entries[m].1 as int, gone) as usize,
                ),
    decreases entries.len(),
{
    let kept = without_backend(entries, gone);
    if entries.len() == 0 {
        reveal(Seq::filter);
    } else {
        let t = entries.drop_last();
        let last = entries.last();
        assert(ascending(t)) by {
            assert forall|i: int, j: int| 0 <= i <= j < t.len() implies (#[trigger] t[i]).rank_le(
                #[trigger] t[j],
            ) by {
                assert(entries[i].rank_le(entries[j]));
            }
        }
        lemma_without_ascends(t, gone);
        assert(entries =~= t.push(last));
        lemma_without_push(t, last, gone);
        let before = without_backend(t, gone);
        assert forall|k: int| 0 <= k < kept.len() implies exists|m: int|
            0 <= m < entries.len() && (#[trigger] entries[m]).1 != gone && (#[trigger] kept[k]) == (
                entries[m].0,
                renumbered(entries[m].1 as int, gone) as usize,
            ) by {
            if k < before.len() {
                assert(kept[k] == before[k]);
                let m = choose|m: int|
                    0 <= m < t.len() && (#[trigger] t[m]).1 != gone && before[k] == (
                        t[m].0,
                        renumbered(t[m].1 as int, gone) as usize,
                    );
                assert(entries[m] == t[m]);
            } else {
                assert(entries[entries.len() - 1].1 != gone);
            }
        }
        assert forall|i: int, j: int| 0 <= i <= j < kept.len() implies (#[trigger] kept[i]).rank_le(
            #[trigger] kept[j],
        ) by {
            if j < before.len() {
                assert(before[i].rank_le(before[j]));
            } else if i < before.len() {
                let m = choose|m: int|
                    0 <= m < t.len() && (#[trigger] t[m]).1 != gone && before[i] == (
                        t[m].0,
                        renumbered(t[m].1 as int, gone) as usize,
                    );
                assert(entries[m].rank_le(entries[entries.len() - 1]));
            }
        }
    }
}

/// Adding a backend, or taking one out, leaves the ring entries of the other
/// backends as they were, their order included.
pub proof fn law_ring_keeps_other_entries(
    ring: Seq<(u64, usize)>,
    smaller: Seq<(u64, usize)>,
    authorities: Seq<Seq<char>>,
    weights: Seq<u32>,
    gone: int,
)
    requires
        authorities.len() <= usize::MAX,
        weights.len() == authorities.len(),
        0 <= gone < authorities.len(),
        is_ring(ring, authorities, weights),
        is_ring(smaller, authorities.remove(gone), weights.remove(gone)),
    ensures
        without_backend(ring, gone) == smaller,
{
    let all = nodes(authorities, weights, authorities.len());
    let kept = without_backend(ring, gone);
    lemma_nodes_without(authorities, weights, authorities.len(), gone);
    assert forall|e: (u64, usize)| kept.to_multiset().count(e) == smaller.to_multiset().count(e) by {
        lemma_without_counts(ring, gone, e);
        lemma_without_counts(all, gone, e);
    }
    assert(kept.to_multiset() =~= smaller.to_multiset());
    lemma_without_ascends(ring, gone);
    let leq = |a: (u64, usize), b: (u64, usize)| a.rank_le(b);
    assert(vstd::relations::sorted_by(kept, leq)) by {
        assert forall|i: int, j: int| 0 <= i < j < kept.len() implies #[trigger] leq(
            kept[i],
            kept[j],
        ) by {
            assert(kept[i].rank_le(kept[j]));
        }
    }
    assert(vstd::relations::sorted_by(smaller, leq)) by {
        assert forall|i: int, j: int| 0 <= i < j < smaller.len() implies #[trigger] leq(
            smaller[i],
            smaller[j],
        ) by {
            assert(smaller[i].rank_le(smaller[j]));
        }
    }
    lemma_sorted_unique(kept, smaller, leq);
}

// ---------------------------------------------------------------------------
// Weighted picks
// ---------------------------------------------------------------------------

/// The total weight of the first `n` candidates.
pub open spec fn weight_sum(candidates: Seq<(usize, u32)>, n: int) -> int
    decreases n,
{
    if n <= 0 {
        0
    } else {
        weight_sum(candidates, n - 1) + candidates[n - 1].1
    }
}

/// The candidate a draw falls on: candidate `k` owns the draws from the sum
/// of the weights before it up to the sum that includes it.
pub open spec fn owns_draw(candidates: Seq<(usize, u32)>, k: int, r: int) -> bool {
    0 <= k < candidates.len() && weight_sum(candidates, k) <= r < weight_sum(candidates, k + 1)
}

/// Weighted pick: given `(index, weight)` pairs and a draw `r` in
/// `[0, total_weight)`, return the selected index. A draw past the total
/// weight selects the last candidate.
pub fn weighted_pick(candidates: &[(usize, u32)], r: u64) -> (idx: usize)
    ensures
        forall|k: int| #[trigger] owns_draw(candidates@, k, r as int) ==> idx == candidates@[k].0,
        r < weight_sum(candidates@, candidates@.len() as int) ==> exists|k: int| #[trigger]
            owns_draw(candidates@, k, r as int),
        r >= weight_sum(candidates@, candidates@.len() as int) ==> idx == if candidates@.len()
            > 0 {
            candidates@.last().0
        } else {
            0
        },
{
    let mut acc: u128 = 0;
    let mut i: usize = 0;
    while i < candidates.len()
        invariant
            i <= candidates@.len(),
            acc == weight_sum(candidates@, i as int),
            acc <= i * 0xffff_ffff,
            acc <= r,
        decreases candidates@.len() - i,
    {
        assert(i * 0xffff_ffff <= 0xffff_ffff_ffff_ffff * 0xffff_ffff) by (nonlinear_arith)
            requires
                0 <= i <= 0xffff_ffff_ffff_ffff,
        ;
        acc = acc + candidates[i].1 as u128;
        if (r as u128) < acc {
            proof {
                assert(owns_draw(candidates@, i as int, r as int));
                assert forall|k: int| #[trigger]
                    owns_draw(candidates@, k, r as int) implies k == i by {
                    lemma_weight_sum_grows(candidates@, k + 1, i as int);
                    lemma_weight_sum_grows(candidates@, i + 1, k);
                }
                lemma_weight_sum_grows(candidates@, i + 1, candidates@.len() as int);
            }
            return candidates[i].0;
        }
        i += 1;
    }
    proof {
        assert forall|k: int| !#[trigger] owns_draw(candidates@, k, r as int) by {
            lemma_weight_sum_grows(candidates@, k + 1, candidates@.len() as int);
        }
    }
    if candidates.len() > 0 {
        candidates[candidates.len() - 1].0
    } else {
        0
    }
}

/// The sum of weights grows with the number of candidates.
pub proof fn lemma_weight_sum_grows(candidates: Seq<(usize, u32)>, a: int, b: int)
    ensures
        a <= b ==> weight_sum(candidates, a) <= weight_sum(candidates, b),
        0 <= weight_sum(candidates, a),
    decreases b - a,
{
    lemma_weight_sum_positive(candidates, a);
    if a < b {
        lemma_weight_sum_grows(candidates, a, b - 1);
    }
}

proof fn lemma_weight_sum_positive(candidates: Seq<(usize, u32)>, a: int)
    ensures
        0 <= weight_sum(candidates, a),
    decreases a,
{
    if a > 0 {
        lemma_weight_sum_positive(candidates, a - 1);
    }
}

proof fn lemma_draw_has_owner(candidates: Seq<(usize, u32)>, n: int, r: int)
    requires
        0 <= n <= candidates.len(),
        0 <= r < weight_sum(candidates, n),
    ensures
        exists|k: int| #[trigger] owns_draw(candidates, k, r),
    decreases n,
{
    if n > 0 {
        if r < weight_sum(candidates, n - 1) {
            lemma_draw_has_owner(candidates, n - 1, r);
        } else {
            assert(owns_draw(candidates, n - 1, r));
        }
    }
}

/// The draws below the total weight are shared out by weight: every draw
/// belongs to one candidate, and a candidate owns as many draws as its weight,
/// so one of weight 0 owns none.
pub proof fn law_draws_follow_weight(candidates: Seq<(usize, u32)>, r: int, j: int, k: int)
    requires
        0 <= r < weight_sum(candidates, candidates.len() as int),
    ensures
        exists|o: int| #[trigger] owns_draw(candidates, o, r),
        owns_draw(candidates, j, r) && owns_draw(candidates, k, r) ==> j == k,
        0 <= k < candidates.len() ==> (owns_draw(candidates, k, r) <==> weight_sum(candidates, k)
            <= r < weight_sum(candidates, k) + candidates[k].1),
{
    lemma_draw_has_owner(candidates, candidates.len() as int, r);
    lemma_weight_sum_grows(candidates, k + 1, j);
    lemma_weight_sum_grows(candidates, j + 1, k);
}

/// A candidate owns exactly as many draws as its weight.
pub proof fn law_candidate_owns_its_weight(candidates: Seq<(usize, u32)>, k: int)
    requires
        0 <= k < candidates.len(),
    ensures
        Set::new(|r: int| owns_draw(candidates, k, r)).finite(),
        Set::new(|r: int| owns_draw(candidates, k, r)).len() == candidates[k].1,
        forall|r: int| #[trigger]
            owns_draw(candidates, k, r) ==> 0 <= r < weight_sum(
                candidates,
                candidates.len() as int,
            ),
{
    let lo = weight_sum(candidates, k);
    let hi = weight_sum(candidates, k + 1);
    lemma_weight_sum_grows(candidates, k, k);
    lemma_weight_sum_grows(candidates, k + 1, candidates.len() as int);
    vstd::set_lib::lemma_int_range(lo, hi);
    assert(Set::new(|r: int| owns_draw(candidates, k, r)) =~= vstd::set_lib::set_int_range(lo, hi));
}

/// The draw of a candidate lies between the weights of all candidates before
/// it together and the same with its own weight.
pub proof fn law_draws_lie_between_sums(candidates: Seq<(usize, u32)>, k: int, r: int)
    requires
        0 <= k < candidates.len(),
    ensures
        ({
            let before = candidates.take(k).fold_left(0int, |t: int, c: (usize, u32)| t + c.1);
            owns_draw(candidates, k, r) <==> before <= r < before + candidates[k].1
        }),
{
    lemma_sum_is_fold(candidates, k);
}

proof fn lemma_sum_is_fold(candidates: Seq<(usize, u32)>, n: int)
    requires
        0 <= n <= candidates.len(),
    ensures
        candidates.take(n).fold_left(0int, |t: int, c: (usize, u32)| t + c.1) == weight_sum(
            candidates,
            n,
        ),
    decreases n,
{
    if n > 0 {
        lemma_sum_is_fold(candidates, n - 1);
        assert(candidates.take(n).drop_last() =~= candidates.take(n - 1));
    }
}

/// The ring holds 160 points for each unit of weight of a backend, or as many
/// as can be counted, and no point of anything else. A point is the standard
/// hash of the address, as text, and the number of the replica.
pub proof fn law_ring_is_made_of_replicas(
    ring: Seq<(u64, usize)>,
    authorities: Seq<Seq<char>>,
    weights: Seq<u32>,
    i: usize,
    k: int,
)
    requires
        is_ring(ring, authorities, weights),
        authorities.len() <= usize::MAX,
        weights.len() == authorities.len(),
        i < authorities.len(),
    ensures
        160 * weights[i as int] <= usize::MAX ==> ring.to_multiset().filter(
            |e: (u64, usize)| e.1 == i,
        ).len() == 160 * weights[i as int],
        0 <= k < 160 * weights[i as int] && k < u32::MAX ==> ring.contains(
            (
                DefaultHasher::spec_finish(
                    seq![
                        encode_utf8(authorities[i as int]),
                        seq![0xffu8],
                        spec_u64_to_le_bytes(k as u64),
                    ],
                ),
                i,
            ),
        ),
        forall|e: (u64, usize)| #[trigger] ring.contains(e) ==> e.1 < authorities.len(),
        forall|a: int, b: int|
            0 <= a <= b < ring.len() ==> (#[trigger] ring[a]).0 <= (#[trigger] ring[b]).0,
{
    law_ring_points_follow_weight(ring, authorities, weights, i);
    assert((|e: (u64, usize)| e.1 == i) =~= of_backend(i));
    lemma_points_ascend(ring);
    if 0 <= k < 160 * weights[i as int] && k < u32::MAX {
        let e = (node_point(authorities[i as int], k), i);
        assert(text_writes(authorities[i as int]).push(spec_u64_to_le_bytes(k as u64)) =~= seq![
            encode_utf8(authorities[i as int]),
            seq![0xffu8],
            spec_u64_to_le_bytes(k as u64),
        ]);
        lemma_ring_nodes(ring, authorities, weights, e);
        assert(is_node(authorities, weights, i as int, k));
    }
    assert forall|e: (u64, usize)| #[trigger] ring.contains(e) implies e.1 < authorities.len() by {
        lemma_ring_nodes(ring, authorities, weights, e);
    }
}

/// The key of a client is the standard hash of its address: the family, and
/// then the octets in network order, of which an IPv4 address has four and an
/// IPv6 address sixteen.
pub proof fn law_client_key_is_of_all_octets(ip: IpAddr, i: int)
    ensures
        ip.writes().len() == 2,
        ip matches IpAddr::V4(x) ==> ip.writes()[0] == spec_u64_to_le_bytes(0) && ip.writes()[1].len()
            == 4 && (0 <= i < 4 ==> ip.writes()[1][i] == ((x >> ((24 - 8 * i) as u32)) & 0xff) as u8),
        ip matches IpAddr::V6(x) ==> ip.writes()[0] == spec_u64_to_le_bytes(1) && ip.writes()[1].len()
            == 16 && (0 <= i < 16 ==> ip.writes()[1][i] == ((x >> ((120 - 8 * i) as u32)) & 0xff)
            as u8),
{
}

/// A key is the standard hash of what is written for it; a text is written as
/// its bytes and a terminator, and the number of a replica behind it.
pub proof fn law_keys_are_standard_hashes(s: &str, replica: usize)
    ensures
        hash_of(s.writes()) == DefaultHasher::spec_finish(seq![encode_utf8(s@), seq![0xffu8]]),
        hash_of((s, replica).writes()) == DefaultHasher::spec_finish(
            seq![encode_utf8(s@), seq![0xffu8], spec_u64_to_le_bytes(replica as u64)],
        ),
{
    assert((s, replica).writes() =~= seq![
        encode_utf8(s@),
        seq![0xffu8],
        spec_u64_to_le_bytes(replica as u64),
    ]);
}

}
