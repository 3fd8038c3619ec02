//! TLS: certificate loading and selection, protocol policy, ACME challenges.

pub mod acme;
pub mod cert_store;
pub mod loader;
pub mod policy;
pub mod resolver;

pub use acme::{ChallengeStore, ACME_CHALLENGE_PREFIX};
pub use cert_store::CertStore;
pub use loader::{load_cert_files, load_cert_pem, CertFiles, LoadedCert};
pub use policy::{alpn_protocols, protocol_versions, TlsVersion};
pub use resolver::SniResolver;
