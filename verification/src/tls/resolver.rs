//! SNI-based certificate resolution over a replaceable [`CertStore`], so
//! certificate rotation never interrupts in-flight handshakes.

use super::cert_store::{answers_sni, inner, CertStore};
use rustls::sign::CertifiedKey;
use std::sync::Arc;
use vstd::prelude::*;

verus! {

/// SNI-based certificate resolver over the current [`CertStore`].
pub struct SniResolver {
    store: CertStore,
    /// Bumped on every miss; surfaced by the proxy as `gfe_tls_sni_no_cert`.
    misses: u64,
}

impl SniResolver {
    /// The current store.
    pub closed spec fn store(self) -> CertStore {
        self.store
    }

    /// The misses so far.
    pub closed spec fn misses(self) -> u64 {
        self.misses
    }

    /// A resolver without misses.
    pub fn new(store: CertStore) -> (r: Self)
        ensures
            r.store() == store,
            r.misses() == 0,
    {
        SniResolver { store, misses: 0 }
    }

    /// Replace the certificate store (called on config or cert reload).
    pub fn swap(&mut self, store: CertStore)
        ensures
            final(self).store() == store,
            final(self).misses() == old(self).misses(),
    {
        self.store = store;
    }

    /// Borrow the current store (for expiry metrics, diagnostics).
    pub fn current(&self) -> (r: &CertStore)
        ensures
            *r == self.store(),
    {
        &self.store
    }

    /// Total SNI resolution misses since startup.
    pub fn miss_count(&self) -> (r: u64)
        ensures
            r == self.misses(),
    {
        self.misses
    }

    /// The certificate for a handshake; one without a certificate counts as a
    /// miss.
    pub fn resolve(&mut self, server_name: Option<&str>) -> (r: Option<Arc<CertifiedKey>>)
        ensures
            final(self).store() == old(self).store(),
            answers_sni(
                old(self).store().bindings(),
                old(self).store().default_key(),
                match server_name {
                    Some(s) => Some(s@),
                    None => None,
                },
                inner(r),
            ),
            final(self).misses() == if r is None {
                if old(self).misses() == u64::MAX {
                    0u64
                } else {
                    (old(self).misses() + 1) as u64
                }
            } else {
                old(self).misses()
            },
    {
        match self.store.resolve(server_name) {
            Some(key) => Some(key),
            None => {
                self.misses = if self.misses == u64::MAX {
                    0
                } else {
                    self.misses + 1
                };
                None
            },
        }
    }
}

}
