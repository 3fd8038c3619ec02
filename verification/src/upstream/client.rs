//! The upstream client: its trust store, its optional client certificate and
//! its connection-pool size.

use crate::text::{join2, owned};
use crate::tls::loader::{
    byte_strings, chain_view, key_view, parse_certs, parse_key, pem_certificates, pem_key, KeyDer,
    KeyFormat, KeyParts,
};
use crate::types::GfeError;
use rustls::pki_types::{CertificateDer, PrivateKeyDer};
use rustls::{ClientConfig, RootCertStore};
use std::sync::Arc;
use vstd::prelude::*;
use vstd::string::*;

verus! {

/// `rustls::RootCertStore`, a set of trust anchors.
#[verifier::external_type_specification]
#[verifier::external_body]
pub struct ExRootCertStore(RootCertStore);

/// `rustls::ClientConfig`, the TLS settings of a client.
#[verifier::external_type_specification]
#[verifier::external_body]
pub struct ExClientConfig(ClientConfig);

/// A client certificate chain with its private key.
pub struct ClientIdentity {
    pub chain: Vec<Vec<u8>>,
    pub key: KeyDer,
}

/// Why TLS settings are refused.
pub enum TlsRefusal {
    /// No usable protocol version.
    Versions(String),
    /// The client certificate or its key cannot be used.
    ClientCert(String),
}

/// Why TLS settings are refused, and how.
pub enum RefusalView {
    Versions(Seq<char>),
    ClientCert(Seq<char>),
}

/// A trust anchor: its subject, its public key and its name constraints, each
/// as DER bytes.
pub type Anchor = (Seq<u8>, Seq<u8>, Option<Seq<u8>>);

/// What an identity consists of.
pub open spec fn identity_view(c: ClientIdentity) -> KeyParts {
    (byte_strings(c.chain@), c.key.format, c.key.der@)
}

/// The anchors of a trust store, in order.
pub uninterp spec fn anchors(store: RootCertStore) -> Seq<Anchor>;

/// The anchor of a certificate, or the text of the error for one that cannot
/// be an anchor.
pub uninterp spec fn anchor_of(der: Seq<u8>) -> Result<Anchor, Seq<char>>;

/// A list of anchors followed by the web's root anchors.
pub uninterp spec fn and_web_anchors(list: Seq<Anchor>) -> Seq<Anchor>;

/// What TLS settings of a client are made of: the anchors it trusts, and its
/// certificate with the private key if it has one.
pub type TlsParts = (Seq<Anchor>, Option<KeyParts>);

/// The parts that TLS settings were made of.
pub uninterp spec fn tls_parts(c: ClientConfig) -> TlsParts;

/// The text of the error for a client certificate that cannot be used with
/// its private key.
pub uninterp spec fn mutual_refusal(identity: KeyParts) -> Option<Seq<char>>;

/// Why TLS settings are refused.
pub open spec fn refusal_view(r: TlsRefusal) -> RefusalView {
    match r {
        TlsRefusal::Versions(e) => RefusalView::Versions(e@),
        TlsRefusal::ClientCert(e) => RefusalView::ClientCert(e@),
    }
}

/// The views of TLS settings.
pub open spec fn config_view(r: Result<ClientConfig, TlsRefusal>) -> Result<
    TlsParts,
    RefusalView,
> {
    match r {
        Ok(c) => Ok(tls_parts(c)),
        Err(e) => Err(refusal_view(e)),
    }
}

/// `rustls::RootCertStore::empty`: a store without anchors.
#[verifier::external_body]
fn store_new() -> (r: RootCertStore)
    ensures
        anchors(r) == Seq::<Anchor>::empty(),
{
    RootCertStore::empty()
}

/// `rustls::RootCertStore::extend`, with the anchors of
/// `webpki_roots::TLS_SERVER_ROOTS`, which go behind those of the store.
#[verifier::external_body]
fn store_web_roots(store: &mut RootCertStore)
    ensures
        anchors(*old(store)).is_prefix_of(anchors(*final(store))),
        anchors(*final(store)) == and_web_anchors(anchors(*old(store))),
{
    store.extend(webpki_roots::TLS_SERVER_ROOTS.iter().cloned());
}

/// `rustls::RootCertStore::add`: the anchor of the certificate goes behind
/// those of the store. A certificate that cannot be an anchor leaves the store
/// as it is, and the text of the error is returned.
#[verifier::external_body]
fn store_add(store: &mut RootCertStore, der: &Vec<u8>) -> (r: Option<String>)
    ensures
        match r {
            None => anchor_of(der@) matches Ok(a) && anchors(*final(store)) == anchors(
                *old(store),
            ).push(a),
            Some(e) => (anchor_of(der@) == Err::<Anchor, Seq<char>>(e@)) && anchors(*final(store))
                == anchors(*old(store)),
        },
{
    store.add(CertificateDer::from(der.clone())).err().map(|e| e.to_string())
}

/// `rustls::ClientConfig::builder_with_provider` with the `ring` provider and
/// the default protocol versions, then `with_root_certificates` and
/// `with_no_client_auth`: settings of the given anchors. That provider has
/// cipher suites of the default versions and key exchange groups for them, so
/// the builder does not refuse. Nothing is said of the caches that the settings
/// come with.
#[verifier::external_body]
fn build_anonymous_tls(roots: RootCertStore) -> (r: Result<ClientConfig, String>)
    ensures
        r is Ok,
        (tls_parts(r->Ok_0) == (anchors(roots), None::<KeyParts>)),
{
    let ring = Arc::new(rustls::crypto::ring::default_provider());
    let base = ClientConfig::builder_with_provider(ring).with_safe_default_protocol_versions();
    let base = base.map_err(|e| e.to_string())?;
    Ok(base.with_root_certificates(roots).with_no_client_auth())
}

/// `rustls::ClientConfig::builder_with_provider` with the `ring` provider and
/// the default protocol versions, then `with_root_certificates` and
/// `with_client_auth_cert`: settings of the given anchors and certificate, or
/// the text of the error for the certificate, which its chain and its key
/// decide. The versions are not refused. Nothing is said of the caches that the
/// settings come with, nor of what a signing key draws at random for itself.
#[verifier::external_body]
fn build_mutual_tls(roots: RootCertStore, i: &ClientIdentity) -> (r: Result<
    ClientConfig,
    TlsRefusal,
>)
    ensures
        match r {
            Ok(c) => (tls_parts(c) == (anchors(roots), Some(identity_view(*i)))) && mutual_refusal(
                identity_view(*i),
            ) is None,
            Err(e) => e matches TlsRefusal::ClientCert(m) && mutual_refusal(identity_view(*i))
                == Some(m@),
        },
{
    let ring = Arc::new(rustls::crypto::ring::default_provider());
    let base = ClientConfig::builder_with_provider(ring).with_safe_default_protocol_versions();
    let base = base.map_err(|e| TlsRefusal::Versions(e.to_string()))?.with_root_certificates(roots);
    let der = i.key.der.clone();
    let key = match i.key.format {
        KeyFormat::Pkcs1 => PrivateKeyDer::Pkcs1(der.into()),
        KeyFormat::Sec1 => PrivateKeyDer::Sec1(der.into()),
        KeyFormat::Pkcs8 => PrivateKeyDer::Pkcs8(der.into()),
    };
    let certs = i.chain.iter().map(|c| c.clone().into()).collect();
    base.with_client_auth_cert(certs, key).map_err(|e| TlsRefusal::ClientCert(e.to_string()))
}

// ---------------------------------------------------------------------------
// Building the client
// ---------------------------------------------------------------------------

/// Options for building the upstream client, including upstream TLS trust and
/// optional client-certificate (mTLS) material.
pub struct UpstreamClientOptions {
    /// Idle pooled connections per backend authority.
    pub idle_per_host: usize,
    /// Client certificate chain (PEM) for mTLS to upstreams.
    pub client_cert_pem: Option<Vec<u8>>,
    /// Client private key (PEM) for mTLS to upstreams.
    pub client_key_pem: Option<Vec<u8>>,
    /// Extra CA bundle (PEM) trusted on top of the built-in roots.
    pub extra_ca_pem: Option<Vec<u8>>,
}

impl Default for UpstreamClientOptions {
    fn default() -> (r: Self)
        ensures
            r.idle_per_host == 0,
            r.client_cert_pem is None,
            r.client_key_pem is None,
            r.extra_ca_pem is None,
    {
        UpstreamClientOptions {
            idle_per_host: 0,
            client_cert_pem: None,
            client_key_pem: None,
            extra_ca_pem: None,
        }
    }
}

/// A parsed certificate chain, or the text of the error.
pub open spec fn certs_outcome(parsed: Result<Seq<Seq<u8>>, Seq<char>>) -> Result<
    Seq<Seq<u8>>,
    Seq<char>,
> {
    match parsed {
        Ok(c) => Ok(c),
        Err(e) => Err("parsing certs: "@ + e),
    }
}

/// A parsed identity, or the text of the error.
pub open spec fn identity_outcome(
    certs: Result<Seq<Seq<u8>>, Seq<char>>,
    key: Result<Option<(KeyFormat, Seq<u8>)>, Seq<char>>,
) -> Result<KeyParts, Seq<char>> {
    match certs_outcome(certs) {
        Err(e) => Err(e),
        Ok(chain) => match key {
            Err(e) => Err("parsing key: "@ + e),
            Ok(None) => Err("no private key in PEM"@),
            Ok(Some(k)) => Ok((chain, k.0, k.1)),
        },
    }
}

/// The parts of TLS settings, or the text of the error.
pub open spec fn settings_outcome(built: Result<TlsParts, RefusalView>) -> Result<
    TlsParts,
    Seq<char>,
> {
    match built {
        Ok(c) => Ok(c),
        Err(RefusalView::Versions(e)) => Err("upstream client config: "@ + e),
        Err(RefusalView::ClientCert(e)) => Err("upstream client cert: "@ + e),
    }
}

/// The settings with the given anchors and certificate, unless the certificate
/// is refused.
pub open spec fn mutual_tls(roots: Seq<Anchor>, identity: KeyParts) -> Result<
    TlsParts,
    RefusalView,
> {
    match mutual_refusal(identity) {
        None => Ok((roots, Some(identity))),
        Some(e) => Err(RefusalView::ClientCert(e)),
    }
}

/// The extra certificates that options ask to trust, or the text of the error.
pub open spec fn extra_outcome(opts: UpstreamClientOptions) -> Result<Seq<Seq<u8>>, Seq<char>> {
    match opts.extra_ca_pem {
        Some(pem) => certs_outcome(pem_certificates(pem@)),
        None => Ok(Seq::empty()),
    }
}

/// The client certificate that options ask for, or the text of the error. A
/// certificate counts only together with a key.
pub open spec fn client_outcome(opts: UpstreamClientOptions) -> Result<
    Option<KeyParts>,
    Seq<char>,
> {
    match (opts.client_cert_pem, opts.client_key_pem) {
        (Some(cert), Some(key)) => match identity_outcome(
            pem_certificates(cert@),
            pem_key(key@),
        ) {
            Ok(i) => Ok(Some(i)),
            Err(e) => Err(e),
        },
        _ => Ok(None),
    }
}

/// A list of anchors followed by those of further certificates, or the text
/// of the error for the first that cannot be an anchor.
pub open spec fn with_anchors(list: Seq<Anchor>, extra: Seq<Seq<u8>>) -> Result<
    Seq<Anchor>,
    Seq<char>,
>
    decreases extra.len(),
{
    if extra.len() == 0 {
        Ok(list)
    } else {
        match anchor_of(extra[0]) {
            Ok(a) => with_anchors(list.push(a), extra.drop_first()),
            Err(e) => Err("adding extra CA: "@ + e),
        }
    }
}

/// The anchors that options ask to trust, or the text of the error.
pub open spec fn trust_outcome(opts: UpstreamClientOptions) -> Result<Seq<Anchor>, Seq<char>> {
    match extra_outcome(opts) {
        Ok(extra) => with_anchors(and_web_anchors(Seq::empty()), extra),
        Err(e) => Err(e),
    }
}

/// The parts of the TLS settings that options ask for, or the text of the
/// error.
pub open spec fn tls_outcome(opts: UpstreamClientOptions) -> Result<TlsParts, Seq<char>> {
    match trust_outcome(opts) {
        Err(e) => Err(e),
        Ok(roots) => match client_outcome(opts) {
            Err(e) => Err(e),
            Ok(None) => Ok((roots, None)),
            Ok(Some(identity)) => settings_outcome(mutual_tls(roots, identity)),
        },
    }
}

/// The certificates of a parse result.
pub fn read_certs(parsed: Result<Vec<Vec<u8>>, String>) -> (r: Result<Vec<Vec<u8>>, GfeError>)
    ensures
        match r {
            Ok(c) => certs_outcome(chain_view(parsed)) == Ok::<Seq<Seq<u8>>, Seq<char>>(
                byte_strings(c@),
            ),
            Err(e) => e matches GfeError::Tls(m) && certs_outcome(chain_view(parsed)) == Err::<
                Seq<Seq<u8>>,
                Seq<char>,
            >(m@),
        },
{
    match parsed {
        Ok(c) => Ok(c),
        Err(e) => Err(GfeError::Tls(join2("parsing certs: ", e.as_str()))),
    }
}

/// The identity of two parse results.
pub fn read_identity(
    certs: Result<Vec<Vec<u8>>, String>,
    key: Result<Option<KeyDer>, String>,
) -> (r: Result<ClientIdentity, GfeError>)
    ensures
        match r {
            Ok(i) => identity_outcome(chain_view(certs), key_view(key)) == Ok::<
                KeyParts,
                Seq<char>,
            >((byte_strings(i.chain@), i.key.format, i.key.der@)),
            Err(e) => e matches GfeError::Tls(m) && identity_outcome(
                chain_view(certs),
                key_view(key),
            ) == Err::<KeyParts, Seq<char>>(m@),
        },
{
    let chain = match read_certs(certs) {
        Ok(c) => c,
        Err(e) => return Err(e),
    };
    match key {
        Err(e) => Err(GfeError::Tls(join2("parsing key: ", e.as_str()))),
        Ok(None) => Err(GfeError::Tls(owned("no private key in PEM"))),
        Ok(Some(key)) => Ok(ClientIdentity { chain, key }),
    }
}

/// The TLS settings of a build result.
pub fn finish_settings(built: Result<ClientConfig, TlsRefusal>) -> (r: Result<
    ClientConfig,
    GfeError,
>)
    ensures
        match r {
            Ok(c) => built == Ok::<ClientConfig, TlsRefusal>(c),
            Err(e) => e matches GfeError::Tls(m) && settings_outcome(config_view(built)) == Err::<
                TlsParts,
                Seq<char>,
            >(m@),
        },
{
    match built {
        Ok(c) => Ok(c),
        Err(TlsRefusal::Versions(e)) => Err(
            GfeError::Tls(join2("upstream client config: ", e.as_str())),
        ),
        Err(TlsRefusal::ClientCert(e)) => Err(
            GfeError::Tls(join2("upstream client cert: ", e.as_str())),
        ),
    }
}

/// The trust store with the web's root anchors and those of the given
/// certificates.
pub fn trust(extra: &Vec<Vec<u8>>) -> (r: Result<RootCertStore, GfeError>)
    ensures
        match r {
            Ok(s) => with_anchors(and_web_anchors(Seq::empty()), byte_strings(extra@)) == Ok::<
                Seq<Anchor>,
                Seq<char>,
            >(anchors(s)),
            Err(e) => e matches GfeError::Tls(m) && with_anchors(
                and_web_anchors(Seq::empty()),
                byte_strings(extra@),
            ) == Err::<Seq<Anchor>, Seq<char>>(m@),
        },
{
    let mut store = store_new();
    store_web_roots(&mut store);
    let ghost all = byte_strings(extra@);
    let ghost web = anchors(store);
    let mut i: usize = 0;
    assert(all.skip(0) =~= all);
    while i < extra.len()
        invariant
            i <= extra.len(),
            all == byte_strings(extra@),
            web == and_web_anchors(Seq::empty()),
            with_anchors(web, all) == with_anchors(anchors(store), all.skip(i as int)),
        decreases extra.len() - i,
    {
        assert(all.skip(i as int)[0] == extra@[i as int]@);
        assert(all.skip(i as int).drop_first() =~= all.skip(i + 1));
        if let Some(e) = store_add(&mut store, &extra[i]) {
            return Err(GfeError::Tls(join2("adding extra CA: ", e.as_str())));
        }
        i = i + 1;
    }
    Ok(store)
}

/// Extra anchors come on top: those that were there stay, in their order, and
/// each certificate adds one behind them.
pub proof fn law_extra_anchors_go_behind(list: Seq<Anchor>, extra: Seq<Seq<u8>>)
    ensures
        with_anchors(list, extra) matches Ok(all) ==> {
            &&& list.is_prefix_of(all)
            &&& all.len() == list.len() + extra.len()
            &&& forall|i: int|
                0 <= i < extra.len() ==> anchor_of(#[trigger] extra[i]) == Ok::<Anchor, Seq<char>>(
                    all[list.len() + i],
                )
        },
    decreases extra.len(),
{
    if extra.len() > 0 {
        if let Ok(a) = anchor_of(extra[0]) {
            let more = list.push(a);
            let rest = extra.drop_first();
            law_extra_anchors_go_behind(more, rest);
            if let Ok(all) = with_anchors(list, extra) {
                assert(all[list.len() as int] == more[list.len() as int]);
                assert(list =~= all.subrange(0, list.len() as int)) by {
                    assert forall|i: int| 0 <= i < list.len() implies list[i] == all[i] by {
                        assert(more[i] == all[i]);
                    }
                }
                assert forall|i: int| 0 <= i < extra.len() implies anchor_of(#[trigger] extra[i])
                    == Ok::<Anchor, Seq<char>>(all[list.len() + i]) by {
                    if i > 0 {
                        assert(rest[i - 1] == extra[i]);
                    }
                }
            }
        }
    }
}

/// The settings of the pooled client for forwarding requests to upstreams.
pub struct UpstreamClient {
    pub tls: ClientConfig,
    /// Idle pooled connections kept per backend authority.
    pub idle_per_host: usize,
}

impl UpstreamClient {
    /// Whether this is the client that options ask for.
    pub open spec fn follows(self, opts: UpstreamClientOptions) -> bool {
        &&& tls_outcome(opts) == Ok::<TlsParts, Seq<char>>(tls_parts(self.tls))
        &&& self.idle_per_host == if opts.idle_per_host == 0 {
            32
        } else {
            opts.idle_per_host
        }
    }

    /// The client with default trust (built-in roots) and no client cert.
    /// `max_idle_per_host` bounds idle pooled connections per upstream.
    pub fn new(max_idle_per_host: usize) -> (r: Result<Self, GfeError>)
        ensures
            ({
                let opts = UpstreamClientOptions {
                    idle_per_host: max_idle_per_host,
                    client_cert_pem: None,
                    client_key_pem: None,
                    extra_ca_pem: None,
                };
                &&& r matches Ok(c)
                &&& c.follows(opts)
                &&& tls_parts(c.tls) == (and_web_anchors(Seq::empty()), None::<KeyParts>)
            }),
    {
        UpstreamClient::with_options(
            UpstreamClientOptions {
                idle_per_host: max_idle_per_host,
                client_cert_pem: None,
                client_key_pem: None,
                extra_ca_pem: None,
            },
        )
    }

    /// The client with explicit TLS options (extra CAs, mTLS client cert).
    pub fn with_options(opts: UpstreamClientOptions) -> (r: Result<Self, GfeError>)
        ensures
            match r {
                Ok(c) => c.follows(opts),
                Err(e) => e matches GfeError::Tls(m) && tls_outcome(opts) == Err::<
                    TlsParts,
                    Seq<char>,
                >(m@),
            },
    {
        let extra = match &opts.extra_ca_pem {
            Some(pem) => match read_certs(parse_certs(pem.as_slice())) {
                Ok(c) => c,
                Err(e) => return Err(e),
            },
            None => {
                let none: Vec<Vec<u8>> = Vec::new();
                assert(byte_strings(none@) =~= Seq::empty());
                none
            },
        };
        let roots = match trust(&extra) {
            Ok(s) => s,
            Err(e) => return Err(e),
        };
        let identity = match (&opts.client_cert_pem, &opts.client_key_pem) {
            (Some(cert), Some(key)) => match read_identity(
                parse_certs(cert.as_slice()),
                parse_key(key.as_slice()),
            ) {
                Ok(i) => Some(i),
                Err(e) => return Err(e),
            },
            _ => None,
        };
        let built = match &identity {
            Some(i) => build_mutual_tls(roots, i),
            None => match build_anonymous_tls(roots) {
                Ok(c) => Ok(c),
                Err(e) => Err(TlsRefusal::Versions(e)),
            },
        };
        let tls = match finish_settings(built) {
            Ok(c) => c,
            Err(e) => return Err(e),
        };
        let idle_per_host: usize = if opts.idle_per_host == 0 {
            32
        } else {
            opts.idle_per_host
        };
        Ok(UpstreamClient { tls, idle_per_host })
    }
}

/// A client keeps 32 idle connections for each backend unless told otherwise.
/// It trusts the web's anchors and, behind them, one for each extra certificate.
/// It has a certificate exactly where both a certificate and a key are given.
pub proof fn law_client_follows_options(c: UpstreamClient, opts: UpstreamClientOptions, i: int)
    requires
        c.follows(opts),
    ensures
        opts.idle_per_host == 0 ==> c.idle_per_host == 32,
        opts.idle_per_host > 0 ==> c.idle_per_host == opts.idle_per_host,
        opts.extra_ca_pem is None ==> tls_parts(c.tls).0 == and_web_anchors(Seq::empty()),
        opts.extra_ca_pem matches Some(pem) ==> {
            let web = and_web_anchors(Seq::empty());
            let extra = pem_certificates(pem@)->Ok_0;
            &&& pem_certificates(pem@) is Ok
            &&& web.is_prefix_of(tls_parts(c.tls).0)
            &&& tls_parts(c.tls).0.len() == web.len() + extra.len()
            &&& 0 <= i < extra.len() ==> anchor_of(extra[i]) == Ok::<Anchor, Seq<char>>(
                tls_parts(c.tls).0[web.len() + i],
            )
        },
        opts.client_cert_pem is None || opts.client_key_pem is None ==> tls_parts(c.tls).1 is None,
        opts.client_cert_pem is Some && opts.client_key_pem is Some ==> {
            let certs = pem_certificates(opts.client_cert_pem->0@);
            let key = pem_key(opts.client_key_pem->0@);
            let (format, der) = key->Ok_0->0;
            &&& certs is Ok
            &&& key is Ok
            &&& key->Ok_0 is Some
            &&& tls_parts(c.tls).1 == Some((certs->Ok_0, format, der))
            &&& mutual_refusal((certs->Ok_0, format, der)) is None
        },
{
    let web = and_web_anchors(Seq::empty());
    if opts.extra_ca_pem is Some {
        law_extra_anchors_go_behind(web, pem_certificates(opts.extra_ca_pem->0@)->Ok_0);
    }
}

/// The first extra certificate that cannot be an anchor is what the trust store
/// is refused for.
pub proof fn law_bad_anchor_is_named(
    list: Seq<Anchor>,
    extra: Seq<Seq<u8>>,
    i: int,
    e: Seq<char>,
)
    requires
        0 <= i < extra.len(),
        anchor_of(extra[i]) == Err::<Anchor, Seq<char>>(e),
        forall|k: int| 0 <= k < i ==> anchor_of(#[trigger] extra[k]) is Ok,
    ensures
        with_anchors(list, extra) == Err::<Seq<Anchor>, Seq<char>>("adding extra CA: "@ + e),
    decreases extra.len(),
{
    if i > 0 {
        assert(anchor_of(extra[0]) is Ok);
        let rest = extra.drop_first();
        assert forall|k: int| 0 <= k < i - 1 implies anchor_of(#[trigger] rest[k]) is Ok by {
            assert(rest[k] == extra[k + 1]);
        }
        law_bad_anchor_is_named(list.push(anchor_of(extra[0])->Ok_0), rest, i - 1, e);
    }
}

/// Options are refused for the first part of them that cannot be used: the
/// extra certificates, the anchors made of them, the client certificate, its
/// key, or the two together.
pub proof fn law_options_are_refused(opts: UpstreamClientOptions)
    ensures
        ({
            let r = tls_outcome(opts);
            let both = opts.client_cert_pem is Some && opts.client_key_pem is Some;
            let certs = pem_certificates(opts.client_cert_pem->0@);
            let key = pem_key(opts.client_key_pem->0@);
            &&& opts.extra_ca_pem is Some && pem_certificates(opts.extra_ca_pem->0@) is Err
                ==> r == Err::<TlsParts, Seq<char>>(
                "parsing certs: "@ + pem_certificates(opts.extra_ca_pem->0@)->Err_0,
            )
            &&& opts.extra_ca_pem is Some && pem_certificates(opts.extra_ca_pem->0@) is Ok ==> {
                let trusted = with_anchors(
                    and_web_anchors(Seq::empty()),
                    pem_certificates(opts.extra_ca_pem->0@)->Ok_0,
                );
                let plain = tls_outcome(UpstreamClientOptions { extra_ca_pem: None, ..opts });
                &&& trusted is Err ==> r == Err::<TlsParts, Seq<char>>(trusted->Err_0)
                &&& trusted is Ok && plain is Err ==> r == plain
                &&& trusted is Ok && plain is Ok ==> r is Ok
            }
            &&& opts.extra_ca_pem is None && !both ==> r is Ok
            &&& opts.extra_ca_pem is None && both && certs is Err ==> r == Err::<
                TlsParts,
                Seq<char>,
            >("parsing certs: "@ + certs->Err_0)
            &&& opts.extra_ca_pem is None && both && certs is Ok && key is Err ==> r == Err::<
                TlsParts,
                Seq<char>,
            >("parsing key: "@ + key->Err_0)
            &&& opts.extra_ca_pem is None && both && certs is Ok && key is Ok && key->Ok_0 is None
                ==> r == Err::<TlsParts, Seq<char>>("no private key in PEM"@)
            &&& opts.extra_ca_pem is None && both && certs is Ok && key is Ok && key->Ok_0 is Some
                ==> {
                let (format, der) = key->Ok_0->0;
                let refusal = mutual_refusal((certs->Ok_0, format, der));
                &&& refusal is Some ==> r == Err::<TlsParts, Seq<char>>(
                    "upstream client cert: "@ + refusal->0,
                )
                &&& refusal is None ==> r is Ok
            }
        }),
{
}

/// Refused settings are reported by what was refused.
pub proof fn law_refusals_are_reported(e: Seq<char>, parts: TlsParts)
    ensures
        settings_outcome(Ok(parts)) == Ok::<TlsParts, Seq<char>>(parts),
        settings_outcome(Err(RefusalView::Versions(e))) == Err::<TlsParts, Seq<char>>(
            "upstream client config: "@ + e,
        ),
        settings_outcome(Err(RefusalView::ClientCert(e))) == Err::<TlsParts, Seq<char>>(
            "upstream client cert: "@ + e,
        ),
{
}

}
