//! The fleet TLS policy: minimum protocol version and ALPN advertisement.

use crate::types::MinVersion;
use vstd::prelude::*;

verus! {

/// A TLS protocol version.
#[derive(Debug, Clone, Copy, PartialEq, Eq, Structural)]
pub enum TlsVersion {
    Tls12,
    Tls13,
}

/// The protocol versions offered for a configured minimum, newest first.
pub open spec fn offered_versions(min_version: MinVersion) -> Seq<TlsVersion> {
    match min_version {
        MinVersion::Tls12 => seq![TlsVersion::Tls13, TlsVersion::Tls12],
        MinVersion::Tls13 => seq![TlsVersion::Tls13],
    }
}

/// The protocol versions offered for a configured minimum, newest first.
pub fn protocol_versions(min_version: MinVersion) -> (r: Vec<TlsVersion>)
    ensures
        r@ == offered_versions(min_version),
{
    let mut out: Vec<TlsVersion> = Vec::new();
    out.push(TlsVersion::Tls13);
    match min_version {
        MinVersion::Tls12 => out.push(TlsVersion::Tls12),
        MinVersion::Tls13 => {},
    }
    assert(out@ =~= offered_versions(min_version));
    out
}

/// ALPN protocols advertised on HTTPS listeners, in preference order: `h2`
/// and then `http/1.1`.
pub open spec fn alpn() -> Seq<Seq<u8>> {
    seq![seq![0x68u8, 0x32], seq![0x68u8, 0x74, 0x74, 0x70, 0x2f, 0x31, 0x2e, 0x31]]
}

/// ALPN protocols advertised on HTTPS listeners, in preference order.
pub fn alpn_protocols() -> (r: Vec<Vec<u8>>)
    ensures
        r@.map_values(|v: Vec<u8>| v@) == alpn(),
{
    let h2: Vec<u8> = vec![0x68, 0x32];
    let h1: Vec<u8> = vec![0x68, 0x74, 0x74, 0x70, 0x2f, 0x31, 0x2e, 0x31];
    assert(h2@ =~= alpn()[0]);
    assert(h1@ =~= alpn()[1]);
    let mut out: Vec<Vec<u8>> = Vec::new();
    out.push(h2);
    out.push(h1);
    assert(out@.map_values(|v: Vec<u8>| v@) =~= alpn());
    out
}

/// TLS 1.3 is always offered, and nothing below the configured minimum.
pub proof fn law_minimum_version_is_kept(min_version: MinVersion)
    ensures
        offered_versions(min_version).contains(TlsVersion::Tls13),
        offered_versions(min_version).contains(TlsVersion::Tls12) <==> min_version
            == MinVersion::Tls12,
{
    let v = offered_versions(min_version);
    assert(v[0] == TlsVersion::Tls13);
    if min_version == MinVersion::Tls12 {
        assert(v[1] == TlsVersion::Tls12);
    }
}

/// Versions are offered newest first, each once: TLS 1.3 leads, and TLS 1.2
/// follows where the minimum lets it.
pub proof fn law_newest_version_leads(min_version: MinVersion)
    ensures
        offered_versions(min_version)[0] == TlsVersion::Tls13,
        min_version == MinVersion::Tls13 ==> offered_versions(min_version).len() == 1,
        min_version == MinVersion::Tls12 ==> offered_versions(min_version).len() == 2
            && offered_versions(min_version)[1] == TlsVersion::Tls12,
{
}

/// The protocols advertised are `h2` and `http/1.1`, in that order.
pub proof fn law_alpn_names()
    ensures
        alpn().len() == 2,
        alpn()[0] == Seq::new("h2"@.len(), |i: int| "h2"@[i] as u8),
        alpn()[1] == Seq::new("http/1.1"@.len(), |i: int| "http/1.1"@[i] as u8),
{
    reveal_strlit("h2");
    reveal_strlit("http/1.1");
    assert(alpn()[0] =~= Seq::new("h2"@.len(), |i: int| "h2"@[i] as u8));
    assert(alpn()[1] =~= Seq::new("http/1.1"@.len(), |i: int| "http/1.1"@[i] as u8));
}

}
