//! Shared backend health state.
//!
//! Written by the control plane and read by the data plane on every upstream
//! selection.

use crate::text::str_eq;
use crate::types::HealthStatus;
use dashmap::DashMap;
use vstd::prelude::*;

verus! {

/// `dashmap::DashMap`, an associative array in shards.
#[verifier::external_type_specification]
#[verifier::external_body]
#[verifier::reject_recursive_types(K)]
#[verifier::reject_recursive_types(V)]
#[verifier::reject_recursive_types(S)]
pub struct ExDashMap<K, V, S>(DashMap<K, V, S>);

/// The entries of a map from backend address to health status.
pub uninterp spec fn status_entries(m: DashMap<(String, u16), HealthStatus>) -> Map<
    (Seq<char>, u16),
    HealthStatus,
>;

/// `DashMap::new`: a map without entries.
#[verifier::external_body]
fn status_new() -> (r: DashMap<(String, u16), HealthStatus>)
    ensures
        (status_entries(r) == Map::<(Seq<char>, u16), HealthStatus>::empty()),
{
    DashMap::new()
}

/// `DashMap::insert`: the value of the key becomes the given one; the other
/// entries stay.
#[verifier::external_body]
fn status_insert(
    m: &mut DashMap<(String, u16), HealthStatus>,
    host: &str,
    port: u16,
    status: HealthStatus,
)
    ensures
        status_entries(*final(m)) == status_entries(*old(m)).insert((host@, port), status),
{
    m.insert((host.to_string(), port), status);
}

/// `DashMap::get`: the value of the key, if the map has one.
#[verifier::external_body]
fn status_get(m: &DashMap<(String, u16), HealthStatus>, host: &str, port: u16) -> (r: Option<
    HealthStatus,
>)
    ensures
        r == if status_entries(*m).contains_key((host@, port)) {
            Some(status_entries(*m)[(host@, port)])
        } else {
            None
        },
{
    m.get(&(host.to_string(), port)).map(|e| *e.value())
}

/// `DashMap::retain`: removes the entries for which the function returns
/// `false`; here it calls `is_listed` on the key.
#[verifier::external_body]
fn status_retain(m: &mut DashMap<(String, u16), HealthStatus>, keep: &[(String, u16)])
    ensures
        status_entries(*final(m)) == status_entries(*old(m)).restrict(
            Set::new(|k: (Seq<char>, u16)| listed(keep@, k.0, k.1)),
        ),
{
    m.retain(|k, _| is_listed(keep, k.0.as_str(), k.1));
}

/// `DashMap::len`: the number of entries, 0 only where there is none.
#[verifier::external_body]
fn status_len(m: &DashMap<(String, u16), HealthStatus>) -> (r: usize)
    ensures
        r == status_entries(*m).len(),
        ((r == 0) == (status_entries(*m) == Map::<(Seq<char>, u16), HealthStatus>::empty())),
{
    m.len()
}

/// Whether a list of backends names an address.
pub open spec fn listed(backends: Seq<(String, u16)>, host: Seq<char>, port: u16) -> bool {
    exists|i: int|
        0 <= i < backends.len() && (#[trigger] backends[i]).0@ == host && backends[i].1 == port
}

/// Whether a list of backends names an address.
pub fn is_listed(backends: &[(String, u16)], host: &str, port: u16) -> (r: bool)
    ensures
        r == listed(backends@, host@, port),
{
    let mut i: usize = 0;
    while i < backends.len()
        invariant
            i <= backends@.len(),
            forall|j: int|
                0 <= j < i ==> !((#[trigger] backends@[j]).0@ == host@ && backends@[j].1 == port),
        decreases backends@.len() - i,
    {
        if backends[i].1 == port && str_eq(backends[i].0.as_str(), host) {
            return true;
        }
        i += 1;
    }
    false
}

/// A map of `(host, port)` to [`HealthStatus`].
pub struct HealthMap {
    map: DashMap<(String, u16), HealthStatus>,
    /// When `true`, a backend with no recorded status is treated as
    /// selectable.
    assume_healthy_when_unknown: bool,
}

impl HealthMap {
    /// The recorded statuses.
    pub closed spec fn recorded(self) -> Map<(Seq<char>, u16), HealthStatus> {
        status_entries(self.map)
    }

    /// Whether a backend with no recorded status may receive requests.
    pub closed spec fn optimistic(self) -> bool {
        self.assume_healthy_when_unknown
    }

    /// Whether a backend may receive new requests.
    pub open spec fn selectable(self, host: Seq<char>, port: u16) -> bool {
        if self.recorded().contains_key((host, port)) {
            self.recorded()[(host, port)] == HealthStatus::Healthy
        } else {
            self.optimistic()
        }
    }

    /// A map with no recorded status.
    pub fn new(assume_healthy_when_unknown: bool) -> (r: Self)
        ensures
            r.recorded() == Map::<(Seq<char>, u16), HealthStatus>::empty(),
            r.optimistic() == assume_healthy_when_unknown,
    {
        HealthMap { map: status_new(), assume_healthy_when_unknown }
    }

    /// Record a backend's health status.
    pub fn set(&mut self, host: &str, port: u16, status: HealthStatus)
        ensures
            final(self).recorded() == old(self).recorded().insert((host@, port), status),
            final(self).optimistic() == old(self).optimistic(),
    {
        status_insert(&mut self.map, host, port, status);
    }

    /// Current status, defaulting to `Unknown` when unrecorded.
    pub fn get(&self, host: &str, port: u16) -> (r: HealthStatus)
        ensures
            r == if self.recorded().contains_key((host@, port)) {
                self.recorded()[(host@, port)]
            } else {
                HealthStatus::Unknown
            },
    {
        match status_get(&self.map, host, port) {
            Some(status) => status,
            None => HealthStatus::Unknown,
        }
    }

    /// Whether a backend may receive new requests.
    pub fn is_selectable(&self, host: &str, port: u16) -> (r: bool)
        ensures
            r == self.selectable(host@, port),
    {
        match status_get(&self.map, host, port) {
            Some(status) => status.is_selectable(),
            None => self.assume_healthy_when_unknown,
        }
    }

    /// Remove entries not present in `keep` (called after a config reload so
    /// removed backends don't linger).
    pub fn retain(&mut self, keep: &[(String, u16)])
        ensures
            final(self).recorded() == old(self).recorded().restrict(
                Set::new(|k: (Seq<char>, u16)| listed(keep@, k.0, k.1)),
            ),
            final(self).optimistic() == old(self).optimistic(),
    {
        status_retain(&mut self.map, keep);
    }

    /// The number of recorded statuses.
    pub fn len(&self) -> (r: usize)
        ensures
            r == self.recorded().len(),
    {
        status_len(&self.map)
    }

    /// Whether no status is recorded.
    pub fn is_empty(&self) -> (r: bool)
        ensures
            r == (self.recorded() == Map::<(Seq<char>, u16), HealthStatus>::empty()),
    {
        status_len(&self.map) == 0
    }
}

/// Recording one backend decides its own selection and no other's.
pub proof fn law_status_is_per_backend(
    before: HealthMap,
    after: HealthMap,
    host: Seq<char>,
    port: u16,
    status: HealthStatus,
    other_host: Seq<char>,
    other_port: u16,
)
    requires
        after.recorded() == before.recorded().insert((host, port), status),
        after.optimistic() == before.optimistic(),
    ensures
        after.selectable(host, port) == (status == HealthStatus::Healthy),
        (other_host, other_port) != (host, port) ==> after.selectable(other_host, other_port)
            == before.selectable(other_host, other_port),
{
}

/// Pruning forgets every backend that is not listed and changes none that is.
pub proof fn law_retain_forgets_unlisted(
    before: HealthMap,
    after: HealthMap,
    keep: Seq<(String, u16)>,
    host: Seq<char>,
    port: u16,
)
    requires
        after.recorded() == before.recorded().restrict(
            Set::new(|k: (Seq<char>, u16)| listed(keep, k.0, k.1)),
        ),
        after.optimistic() == before.optimistic(),
    ensures
        listed(keep, host, port) ==> after.selectable(host, port) == before.selectable(host, port),
        !listed(keep, host, port) ==> after.selectable(host, port) == before.optimistic(),
{
}

/// A list names the addresses in it and no others.
pub proof fn law_listing(
    backends: Seq<(String, u16)>,
    backend: (String, u16),
    host: Seq<char>,
    port: u16,
)
    ensures
        !listed(Seq::empty(), host, port),
        listed(backends.push(backend), host, port) <==> listed(backends, host, port) || backend.0@
            == host && backend.1 == port,
{
    let more = backends.push(backend);
    if listed(backends, host, port) {
        let i = choose|i: int|
            0 <= i < backends.len() && (#[trigger] backends[i]).0@ == host && backends[i].1 == port;
        assert(more[i].0@ == host);
    }
    if backend.0@ == host && backend.1 == port {
        assert(more[backends.len() as int].0@ == host);
    }
    if listed(more, host, port) {
        let i = choose|i: int|
            0 <= i < more.len() && (#[trigger] more[i]).0@ == host && more[i].1 == port;
        if i < backends.len() {
            assert(backends[i].0@ == host);
        }
    }
}

/// A backend with a recorded status is selectable exactly when it is healthy;
/// one without is where the map is optimistic.
pub proof fn law_only_healthy_is_selectable(map: HealthMap, host: Seq<char>, port: u16)
    ensures
        map.recorded().contains_key((host, port)) ==> (map.selectable(host, port)
            <==> map.recorded()[(host, port)] == HealthStatus::Healthy),
        !map.recorded().contains_key((host, port)) ==> (map.selectable(host, port)
            <==> map.optimistic()),
{
}

}
