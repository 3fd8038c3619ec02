//! TLS policy and certificate entries.

use vstd::prelude::*;

verus! {

/// Minimum TLS protocol version offered on HTTPS listeners.
#[derive(Debug, Clone, Copy, PartialEq, Eq, Structural)]
pub enum MinVersion {
    Tls12,
    Tls13,
}

impl Default for MinVersion {
    fn default() -> (r: Self)
        ensures
            r == MinVersion::Tls12,
    {
        MinVersion::Tls12
    }
}

/// A certificate entry in the dynamic config. Binds one or more SNI names to
/// a PEM certificate chain and private key, or marks a default certificate
/// for connections whose SNI matches nothing.
#[derive(Debug, PartialEq, Eq)]
pub struct CertEntry {
    /// SNI names this certificate serves: exact (`api.example.org`) or
    /// single-label wildcard (`*.example.org`). May be empty when `default`.
    pub sni: Vec<String>,
    /// When `true`, this certificate is served for connections with no
    /// matching SNI (or no SNI at all). At most one entry may be default.
    pub default: bool,
    /// Path of the PEM certificate chain.
    pub cert_file: String,
    /// Path of the PEM private key.
    pub key_file: String,
}

/// Fleet-wide TLS policy from the bootstrap node config.
#[derive(Debug, PartialEq, Eq)]
pub struct TlsConfig {
    pub min_version: MinVersion,
    /// `Strict-Transport-Security` header value injected on HTTPS responses.
    /// Empty disables HSTS injection.
    pub hsts: String,
    /// Optional file holding fleet-shared TLS session-ticket keys so a
    /// resumed session can land on any node. Absent: per-node keys only.
    pub ticket_key_file: Option<String>,
}

impl Default for TlsConfig {
    fn default() -> (r: Self)
        ensures
            r.min_version == MinVersion::Tls12,
            r.hsts@ == Seq::<char>::empty(),
            r.ticket_key_file is None,
    {
        TlsConfig { min_version: MinVersion::Tls12, hsts: String::new(), ticket_key_file: None }
    }
}

}
