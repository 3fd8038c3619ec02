use std::collections::hash_map::DefaultHasher;
use std::hash::{Hash, Hasher};

use gfe::types::{
    HealthStatus, IpAddr, LbPolicy, PoolId, Scheme, Upstream, UpstreamPool,
};
use gfe::upstream::{
    build_ring, hash64, ring_pick, weighted_pick, HealthMap, PoolSet, UpstreamClient,
    UpstreamClientOptions, RING_REPLICAS,
};

fn upstream(host: &str, port: u16, weight: u32) -> Upstream {
    Upstream { host: host.into(), port, weight }
}

fn pool_of(policy: LbPolicy, upstreams: Vec<Upstream>) -> UpstreamPool {
    UpstreamPool {
        id: PoolId("p".into()),
        scheme: Scheme::Http,
        lb_policy: policy,
        upstreams,
        health_check: None,
    }
}

fn pool_with(policy: LbPolicy) -> UpstreamPool {
    pool_of(
        policy,
        vec![upstream("10.0.0.1", 80, 1), upstream("10.0.0.2", 80, 1)],
    )
}

#[test]
fn optimistic_unknown() {
    let mut h = HealthMap::new(true);
    assert!(h.is_selectable("10.0.0.1", 80));
    h.set("10.0.0.1", 80, HealthStatus::Unhealthy);
    assert!(!h.is_selectable("10.0.0.1", 80));
}

#[test]
fn pessimistic_unknown() {
    let mut h = HealthMap::new(false);
    assert!(!h.is_selectable("10.0.0.1", 80));
    h.set("10.0.0.1", 80, HealthStatus::Healthy);
    assert!(h.is_selectable("10.0.0.1", 80));
}

#[test]
fn health_is_recorded_per_backend_and_pruned() {
    let mut h = HealthMap::new(false);
    assert!(h.is_empty());
    h.set("a", 80, HealthStatus::Healthy);
    h.set("a", 81, HealthStatus::Draining);
    h.set("b", 80, HealthStatus::Healthy);
    assert_eq!(h.len(), 3);
    assert_eq!(h.get("a", 80), HealthStatus::Healthy);
    assert_eq!(h.get("a", 81), HealthStatus::Draining);
    assert_eq!(h.get("c", 80), HealthStatus::Unknown);
    h.retain(&[("a".to_string(), 80)]);
    assert_eq!(h.len(), 1);
    assert!(h.is_selectable("a", 80));
    assert!(!h.is_selectable("b", 80));
}

#[test]
fn ring_is_deterministic_and_stable() {
    let backends = vec!["a:1".to_string(), "b:1".to_string(), "c:1".to_string()];
    let ring = build_ring(&backends, &[1, 1, 1]);
    assert_eq!(ring.len(), 3 * RING_REPLICAS);

    let key = hash64("client-1.2.3.4");
    let a = ring_pick(&ring, key, |_| true).unwrap();
    let b = ring_pick(&ring, key, |_| true).unwrap();
    assert_eq!(a, b, "same key → same backend");
}

#[test]
fn ring_scales_vnodes_by_weight() {
    let backends = vec!["a:1".to_string(), "b:1".to_string()];
    let ring = build_ring(&backends, &[1, 3]);
    assert_eq!(ring.len(), RING_REPLICAS + 3 * RING_REPLICAS);
    // Backend 1 (weight 3) should own roughly 3× the ring points.
    let b1 = ring.iter().filter(|(_, i)| *i == 1).count();
    assert_eq!(b1, 3 * RING_REPLICAS);
}

#[test]
fn ring_skips_unhealthy() {
    let backends = vec!["a:1".to_string(), "b:1".to_string()];
    let ring = build_ring(&backends, &[1, 1]);
    let key = hash64("xyz");
    // Force backend 0 unhealthy; must land on 1.
    let pick = ring_pick(&ring, key, |i| i == 1).unwrap();
    assert_eq!(pick, 1);
}

#[test]
fn ring_choice_starts_at_the_first_point_not_below_the_key() {
    let ring = [(10, 0), (20, 1), (30, 2)];
    assert_eq!(ring_pick(&ring, 20, |_| true), Some(1));
    assert_eq!(ring_pick(&ring, 21, |_| true), Some(2));
    assert_eq!(ring_pick(&ring, 31, |_| true), Some(0));
    assert_eq!(ring_pick(&ring, 21, |i| i != 2), Some(0));
    // A backend that was not chosen does not matter.
    assert_eq!(ring_pick(&ring, 21, |i| i != 0), Some(2));
}

#[test]
fn ring_points_may_coincide_in_any_order_of_backends() {
    let ring = [(10, 1), (10, 0)];
    assert_eq!(ring_pick(&ring, 10, |_| true), Some(1));
    assert_eq!(ring_pick(&ring, 11, |_| true), Some(1));
    assert_eq!(ring_pick(&ring, 10, |i| i == 0), Some(0));
    assert_eq!(ring_pick(&ring, 10, |_| false), None);
}

#[test]
fn ring_points_are_those_of_the_standard_hasher() {
    let standard = |v: &dyn Fn(&mut DefaultHasher)| {
        let mut h = DefaultHasher::new();
        v(&mut h);
        h.finish()
    };
    assert_eq!(hash64("client-x"), standard(&|h| "client-x".hash(h)));
    let ring = build_ring(&["a:1".to_string()], &[1]);
    let mut points: Vec<u64> = (0..RING_REPLICAS)
        .map(|k| standard(&|h| ("a:1", k).hash(h)))
        .collect();
    points.sort();
    assert_eq!(ring.iter().map(|e| e.0).collect::<Vec<u64>>(), points);
}

#[test]
fn address_families_hash_apart() {
    assert_ne!(hash64(IpAddr::V4(1)), hash64(IpAddr::V6(1)));
    assert_ne!(hash64(IpAddr::V4(1)), hash64(IpAddr::V4(2)));
    assert_eq!(hash64(IpAddr::V6(7)), hash64(IpAddr::V6(7)));
}

#[test]
fn removing_a_backend_moves_only_its_keys() {
    let before = vec!["a:1".to_string(), "b:1".to_string(), "c:1".to_string()];
    let after = vec!["a:1".to_string(), "c:1".to_string()];
    let ring = build_ring(&before, &[1, 2, 1]);
    let smaller = build_ring(&after, &[1, 1]);
    for n in 0..200u32 {
        let key = hash64(IpAddr::V4(n));
        let was = ring_pick(&ring, key, |_| true).unwrap();
        let now = ring_pick(&smaller, key, |_| true).unwrap();
        if was != 1 {
            assert_eq!(before[was], after[now]);
            // So does taking it out of the healthy set.
            assert_eq!(ring_pick(&ring, key, |i| i != 1), Some(was));
        }
    }
}

#[test]
fn removing_a_backend_moves_only_its_keys_among_healthy_ones() {
    let before: Vec<String> = ["a:1", "b:1", "c:1", "d:1"].iter().map(|s| s.to_string()).collect();
    let after: Vec<String> = ["a:1", "c:1", "d:1"].iter().map(|s| s.to_string()).collect();
    let ring = build_ring(&before, &[1, 2, 1, 3]);
    let smaller = build_ring(&after, &[1, 1, 3]);
    let mut kept = 0;
    for n in 0..200u32 {
        let key = hash64(IpAddr::V4(n));
        // The last backend is down.
        let was = ring_pick(&ring, key, |i| i != 3).unwrap();
        let now = ring_pick(&smaller, key, |i| i != 2).unwrap();
        if was != 1 {
            assert_eq!(before[was], after[now]);
            kept += 1;
        }
    }
    assert!(kept > 0);
}

#[test]
fn adding_a_backend_leaves_the_other_entries() {
    let two = vec!["a:1".to_string(), "c:1".to_string()];
    let three = vec!["a:1".to_string(), "b:1".to_string(), "c:1".to_string()];
    let ring = build_ring(&two, &[2, 1]);
    let larger = build_ring(&three, &[2, 4, 1]);
    let others: Vec<(u64, usize)> = larger
        .iter()
        .filter(|e| e.1 != 1)
        .map(|e| (e.0, if e.1 < 1 { e.1 } else { e.1 - 1 }))
        .collect();
    assert_eq!(others, ring);
}

#[test]
fn candidates_own_as_many_draws_as_their_weight() {
    let c = [(4usize, 2u32), (7, 0), (9, 5)];
    let count = |i: usize| (0..7u64).filter(|r| weighted_pick(&c, *r) == i).count();
    assert_eq!((count(4), count(7), count(9)), (2, 0, 5));
}

#[test]
fn pool_sets_have_one_pool_for_each_id() {
    let named = |id: &str, hosts: &[&str]| {
        let mut p = pool_of(
            LbPolicy::RoundRobin,
            hosts.iter().map(|h| upstream(h, 80, 1)).collect(),
        );
        p.id = PoolId(id.into());
        p
    };
    let set = PoolSet::build(&[
        named("a", &["old"]),
        named("b", &["x", "y", "x"]),
        named("a", &["new", "x"]),
    ]);
    assert_eq!(set.len(), 2);
    let mut all: Vec<String> = set.all_backends().into_iter().map(|b| b.0).collect();
    all.sort();
    assert_eq!(all, ["new", "x", "x", "x", "y"]);
}

#[test]
fn weightless_backends_own_no_points() {
    let ring = build_ring(&["a:1".to_string(), "b:1".to_string()], &[0, 1]);
    assert_eq!(ring.len(), RING_REPLICAS);
    assert!(ring.iter().all(|e| e.1 == 1));
    assert_eq!(ring_pick(&[], 5, |_| true), None);
    assert_eq!(ring_pick(&ring, 5, |_| false), None);
    // A missing weight counts as one.
    assert_eq!(build_ring(&["a:1".to_string()], &[]).len(), RING_REPLICAS);
}

#[test]
fn weighted_pick_respects_boundaries() {
    // candidates: idx0 weight 1, idx1 weight 3 → total 4.
    let c = [(0usize, 1u32), (1usize, 3u32)];
    assert_eq!(weighted_pick(&c, 0), 0);
    assert_eq!(weighted_pick(&c, 1), 1);
    assert_eq!(weighted_pick(&c, 3), 1);
}

#[test]
fn weighted_pick_past_the_total_and_of_nothing() {
    assert_eq!(weighted_pick(&[(4, 1), (7, 0)], 9), 7);
    assert_eq!(weighted_pick(&[], 0), 0);
    // A candidate of weight 0 owns no draw.
    assert_eq!(weighted_pick(&[(4, 0), (7, 2)], 0), 7);
}

#[test]
fn round_robin_alternates() {
    let mut set = PoolSet::build(&[pool_with(LbPolicy::RoundRobin)]);
    let p = set.get_mut(&PoolId("p".into())).unwrap();
    let h = HealthMap::new(true);
    let a = p.select(&h, None).unwrap().upstream.host;
    let b = p.select(&h, None).unwrap().upstream.host;
    assert_ne!(a, b);
}

#[test]
fn round_robin_is_even() {
    let ups = (0..5).map(|i| upstream("h", 100 + i, 2)).collect();
    let mut set = PoolSet::build(&[pool_of(LbPolicy::RoundRobin, ups)]);
    let p = set.get_mut(&PoolId("p".into())).unwrap();
    let h = HealthMap::new(true);
    let mut ports: Vec<u16> = (0..5).map(|_| p.select(&h, None).unwrap().upstream.port).collect();
    ports.sort();
    assert_eq!(ports, vec![100, 101, 102, 103, 104]);
}

#[test]
fn least_request_prefers_idle() {
    let mut set = PoolSet::build(&[pool_with(LbPolicy::LeastRequest)]);
    let p = set.get_mut(&PoolId("p".into())).unwrap();
    let h = HealthMap::new(true);
    // Hold one request on whatever gets picked first.
    let first = p.select(&h, None).unwrap();
    let busy = first.upstream.host.clone();
    // Next selection should avoid the busy backend.
    let second = p.select(&h, None).unwrap();
    assert_ne!(second.upstream.host, busy);
    p.release(first.guard);
    p.release(second.guard);
}

#[test]
fn least_request_breaks_ties_in_turn() {
    let mut set = PoolSet::build(&[pool_with(LbPolicy::LeastRequest)]);
    let p = set.get_mut(&PoolId("p".into())).unwrap();
    let h = HealthMap::new(true);
    let mut hosts = Vec::new();
    for _ in 0..4 {
        let s = p.select(&h, None).unwrap();
        hosts.push(s.upstream.host.clone());
        p.release(s.guard);
    }
    assert_eq!(hosts, vec!["10.0.0.1", "10.0.0.2", "10.0.0.1", "10.0.0.2"]);
}

#[test]
fn least_request_weighs_the_load() {
    let ups = vec![upstream("small", 1, 1), upstream("big", 1, 3)];
    let mut set = PoolSet::build(&[pool_of(LbPolicy::LeastRequest, ups)]);
    let p = set.get_mut(&PoolId("p".into())).unwrap();
    let h = HealthMap::new(true);
    // (0+1)/1 against (0+1)/3, then (1+1)/3, then a tie at 1.
    assert_eq!(p.select(&h, None).unwrap().upstream.host, "big");
    assert_eq!(p.select(&h, None).unwrap().upstream.host, "big");
}

#[test]
fn release_restores_the_load() {
    let mut set = PoolSet::build(&[pool_with(LbPolicy::LeastRequest)]);
    let p = set.get_mut(&PoolId("p".into())).unwrap();
    let h = HealthMap::new(true);
    let a = p.select(&h, None).unwrap();
    let b = p.select(&h, None).unwrap();
    let freed = a.upstream.host.clone();
    p.release(a.guard);
    // The freed backend is the lighter one again.
    assert_eq!(p.select(&h, None).unwrap().upstream.host, freed);
    p.release(b.guard);
}

#[test]
fn weighted_round_robin_distribution() {
    let pool = pool_of(
        LbPolicy::RoundRobin,
        vec![upstream("a", 1, 1), upstream("b", 1, 3)],
    );
    let mut set = PoolSet::build(&[pool]);
    let p = set.get_mut(&PoolId("p".into())).unwrap();
    let h = HealthMap::new(true);

    let mut a = 0;
    let mut b = 0;
    let n = 20_000;
    for _ in 0..n {
        match p.select(&h, None).unwrap().upstream.host.as_str() {
            "a" => a += 1,
            "b" => b += 1,
            _ => unreachable!(),
        }
    }
    // Expect ~25% / ~75% (weights 1:3). Allow generous tolerance.
    let frac_b = b as f64 / n as f64;
    assert!(
        (0.70..0.80).contains(&frac_b),
        "weight 3/4 backend got {frac_b:.3} (a={a}, b={b})"
    );
}

#[test]
fn weighted_round_robin_follows_the_draw() {
    let pool = pool_of(
        LbPolicy::RoundRobin,
        vec![upstream("a", 1, 1), upstream("b", 1, 3)],
    );
    let mut set = PoolSet::build(&[pool]);
    let p = set.get_mut(&PoolId("p".into())).unwrap();
    let h = HealthMap::new(true);
    let hosts: Vec<String> = (0..5)
        .map(|draw| p.select_with(&h, None, draw).unwrap().upstream.host)
        .collect();
    assert_eq!(hosts, vec!["a", "b", "b", "b", "a"]);
}

#[test]
fn ring_hash_is_sticky() {
    let mut set = PoolSet::build(&[pool_with(LbPolicy::RingHash)]);
    let p = set.get_mut(&PoolId("p".into())).unwrap();
    let h = HealthMap::new(true);
    let key = Some(hash64("client-x"));
    let a = p.select(&h, key).unwrap().upstream.host;
    let b = p.select(&h, key).unwrap().upstream.host;
    assert_eq!(a, b, "same key sticks to same backend");
}

#[test]
fn ring_hash_without_points_takes_turns() {
    let ups = vec![upstream("a", 1, 0), upstream("b", 1, 0)];
    let mut set = PoolSet::build(&[pool_of(LbPolicy::RingHash, ups)]);
    let p = set.get_mut(&PoolId("p".into())).unwrap();
    let h = HealthMap::new(true);
    assert_eq!(p.select(&h, Some(1)).unwrap().upstream.host, "a");
    assert_eq!(p.select(&h, Some(1)).unwrap().upstream.host, "b");
}

#[test]
fn skips_unhealthy() {
    let mut set = PoolSet::build(&[pool_with(LbPolicy::RoundRobin)]);
    let p = set.get_mut(&PoolId("p".into())).unwrap();
    let mut h = HealthMap::new(true);
    h.set("10.0.0.1", 80, HealthStatus::Unhealthy);
    for _ in 0..4 {
        assert_eq!(p.select(&h, None).unwrap().upstream.host, "10.0.0.2");
    }
}

#[test]
fn none_when_all_unhealthy() {
    let mut set = PoolSet::build(&[pool_with(LbPolicy::RoundRobin)]);
    let p = set.get_mut(&PoolId("p".into())).unwrap();
    let h = HealthMap::new(false);
    assert!(p.select(&h, None).is_none());
}

#[test]
fn last_pool_of_an_id_counts() {
    let set = PoolSet::build(&[
        pool_of(LbPolicy::RoundRobin, vec![upstream("old", 1, 1)]),
        pool_of(LbPolicy::RingHash, vec![upstream("new", 2, 1)]),
    ]);
    assert_eq!(set.len(), 1);
    assert!(!set.is_empty());
    let p = set.get(&PoolId("p".into())).unwrap();
    assert_eq!(p.policy, LbPolicy::RingHash);
    assert!(set.get(&PoolId("q".into())).is_none());
    assert_eq!(set.all_backends(), vec![("new".to_string(), 2)]);
    assert!(PoolSet::default().is_empty());
}

#[test]
fn builds_client() {
    // Construction must succeed (validates the ring provider + roots wiring).
    assert!(UpstreamClient::new(32).is_ok());
}

#[test]
fn builds_client_with_mtls() {
    let cert = rcgen::generate_simple_self_signed(vec!["client.local".into()]).unwrap();
    let opts = UpstreamClientOptions {
        idle_per_host: 8,
        client_cert_pem: Some(cert.cert.pem().into_bytes()),
        client_key_pem: Some(cert.key_pair.serialize_pem().into_bytes()),
        extra_ca_pem: Some(cert.cert.pem().into_bytes()),
    };
    assert!(UpstreamClient::with_options(opts).is_ok());
}

#[test]
fn client_options_that_cannot_be_used() {
    let cert = rcgen::generate_simple_self_signed(vec!["client.local".into()]).unwrap();
    let opts = UpstreamClientOptions {
        client_cert_pem: Some(cert.cert.pem().into_bytes()),
        client_key_pem: Some(b"not a key".to_vec()),
        ..Default::default()
    };
    let e = UpstreamClient::with_options(opts).err().unwrap();
    assert_eq!(e.message(), "TLS error: no private key in PEM");
    let broken = b"-----BEGIN CERTIFICATE-----\n!\n-----END CERTIFICATE-----\n".to_vec();
    let opts = UpstreamClientOptions {
        extra_ca_pem: Some(broken),
        ..Default::default()
    };
    let e = UpstreamClient::with_options(opts).err().unwrap();
    assert!(e.message().starts_with("TLS error: parsing certs: "));
    let empty = b"-----BEGIN CERTIFICATE-----\nAAAA\n-----END CERTIFICATE-----\n".to_vec();
    let opts = UpstreamClientOptions {
        extra_ca_pem: Some(empty),
        ..Default::default()
    };
    let e = UpstreamClient::with_options(opts).err().unwrap();
    assert!(e.message().starts_with("TLS error: adding extra CA: "));
}

#[test]
fn client_idle_bound_defaults_to_32() {
    assert_eq!(UpstreamClient::new(0).ok().unwrap().idle_per_host, 32);
    assert_eq!(UpstreamClient::new(5).ok().unwrap().idle_per_host, 5);
    // A certificate without a key is not used.
    let cert = rcgen::generate_simple_self_signed(vec!["client.local".into()]).unwrap();
    let opts = UpstreamClientOptions {
        client_cert_pem: Some(cert.cert.pem().into_bytes()),
        ..Default::default()
    };
    let with_cert_only = UpstreamClient::with_options(opts).ok().unwrap();
    assert!(!with_cert_only.tls.client_auth_cert_resolver.has_certs());
    let opts = UpstreamClientOptions {
        client_cert_pem: Some(cert.cert.pem().into_bytes()),
        client_key_pem: Some(cert.key_pair.serialize_pem().into_bytes()),
        ..Default::default()
    };
    let with_both = UpstreamClient::with_options(opts).ok().unwrap();
    assert!(with_both.tls.client_auth_cert_resolver.has_certs());
}
