//! PEM certificate and key loading and not-after extraction.

use crate::text::{join2, join3, owned};
use crate::types::GfeError;
use rustls::pki_types::{
    CertificateDer, PrivateKeyDer, PrivatePkcs1KeyDer, PrivatePkcs8KeyDer, PrivateSec1KeyDer,
};
use rustls::sign::CertifiedKey;
use std::sync::Arc;
use vstd::prelude::*;
use vstd::string::*;

verus! {

/// `rustls::sign::CertifiedKey`, a certificate chain with its signing key.
#[verifier::external_type_specification]
#[verifier::external_body]
pub struct ExCertifiedKey(CertifiedKey);

/// The encoding of a private key.
#[derive(Debug, Clone, Copy, PartialEq, Eq, Structural)]
pub enum KeyFormat {
    Pkcs1,
    Sec1,
    Pkcs8,
}

/// A DER-encoded private key.
pub struct KeyDer {
    pub format: KeyFormat,
    pub der: Vec<u8>,
}

/// A loaded certificate: the signing material plus the not-after time (Unix
/// seconds) for expiry metrics.
pub struct LoadedCert {
    pub certified_key: Arc<CertifiedKey>,
    pub not_after_unix: i64,
}

// ---------------------------------------------------------------------------
// Outside parsers
// ---------------------------------------------------------------------------

/// The certificates of a PEM text, or the text of the first error in it.
pub uninterp spec fn pem_certificates(pem: Seq<u8>) -> Result<Seq<Seq<u8>>, Seq<char>>;

/// The first private key of a PEM text, if it has one, or the text of the
/// first error before it.
pub uninterp spec fn pem_key(pem: Seq<u8>) -> Result<Option<(KeyFormat, Seq<u8>)>, Seq<char>>;

/// The parts of a certified key: its certificate chain, and its private key
/// with the encoding of that.
pub type KeyParts = (Seq<Seq<u8>>, KeyFormat, Seq<u8>);

/// The parts that a certified key was made of.
pub uninterp spec fn key_parts(k: CertifiedKey) -> KeyParts;

/// The text of the error for a private key that cannot sign.
pub uninterp spec fn key_refusal(format: KeyFormat, der: Seq<u8>) -> Option<Seq<char>>;

/// The not-after time of a certificate, or the text of the parse error.
pub uninterp spec fn not_after_of(der: Seq<u8>) -> Result<i64, Seq<char>>;

/// The contents of a list of byte strings.
pub open spec fn byte_strings(items: Seq<Vec<u8>>) -> Seq<Seq<u8>> {
    items.map_values(|v: Vec<u8>| v@)
}

/// The views of a parsed certificate chain.
pub open spec fn chain_view(r: Result<Vec<Vec<u8>>, String>) -> Result<Seq<Seq<u8>>, Seq<char>> {
    match r {
        Ok(c) => Ok(byte_strings(c@)),
        Err(e) => Err(e@),
    }
}

/// The views of a parsed key.
pub open spec fn key_view(r: Result<Option<KeyDer>, String>) -> Result<
    Option<(KeyFormat, Seq<u8>)>,
    Seq<char>,
> {
    match r {
        Ok(Some(k)) => Ok(Some((k.format, k.der@))),
        Ok(None) => Ok(None),
        Err(e) => Err(e@),
    }
}

/// The parts of a shared certified key.
pub open spec fn shared_parts(k: Arc<CertifiedKey>) -> KeyParts {
    key_parts(*k)
}

/// The views of a certified key.
pub open spec fn certified_view(r: Result<Arc<CertifiedKey>, String>) -> Result<
    KeyParts,
    Seq<char>,
> {
    match r {
        Ok(k) => Ok(shared_parts(k)),
        Err(e) => Err(e@),
    }
}

/// The views of a not-after time.
pub open spec fn time_view(r: Result<i64, String>) -> Result<i64, Seq<char>> {
    match r {
        Ok(t) => Ok(t),
        Err(e) => Err(e@),
    }
}

/// `rustls_pemfile::certs`: the DER bytes of the certificates in a PEM text,
/// up to the first error, of which the text is kept.
#[verifier::external_body]
pub(crate) fn parse_certs(pem: &[u8]) -> (r: Result<Vec<Vec<u8>>, String>)
    ensures
        chain_view(r) == pem_certificates(pem@),
{
    rustls_pemfile::certs(&mut std::io::BufReader::new(pem))
        .map(|item| item.map(|c| c.to_vec()).map_err(|e| e.to_string()))
        .collect()
}

/// `rustls_pemfile::private_key`: the first private key in a PEM text.
#[verifier::external_body]
pub(crate) fn parse_key(pem: &[u8]) -> (r: Result<Option<KeyDer>, String>)
    ensures
        key_view(r) == pem_key(pem@),
{
    let found = rustls_pemfile::private_key(&mut std::io::BufReader::new(pem));
    Ok(match found.map_err(|e| e.to_string())? {
        Some(PrivateKeyDer::Pkcs1(k)) => {
            Some(KeyDer { format: KeyFormat::Pkcs1, der: k.secret_pkcs1_der().to_vec() })
        }
        Some(PrivateKeyDer::Sec1(k)) => {
            Some(KeyDer { format: KeyFormat::Sec1, der: k.secret_sec1_der().to_vec() })
        }
        Some(PrivateKeyDer::Pkcs8(k)) => {
            Some(KeyDer { format: KeyFormat::Pkcs8, der: k.secret_pkcs8_der().to_vec() })
        }
        _ => None,
    })
}

/// `rustls::crypto::ring::sign::any_supported_type` and `CertifiedKey::new`:
/// a certified key of the chain and the private key, or the text of the error
/// when the private key cannot be used, which its encoding and bytes decide.
/// Nothing is said of what a signing key draws at random for itself.
#[verifier::external_body]
fn certify(chain: &Vec<Vec<u8>>, key: &KeyDer) -> (r: Result<Arc<CertifiedKey>, String>)
    ensures
        match r {
            Ok(k) => (key_parts(*k) == (byte_strings(chain@), key.format, key.der@))
                && key_refusal(key.format, key.der@) is None,
            Err(e) => key_refusal(key.format, key.der@) == Some(e@),
        },
{
    let der = match key.format {
        KeyFormat::Pkcs1 => PrivateKeyDer::from(PrivatePkcs1KeyDer::from(key.der.clone())),
        KeyFormat::Sec1 => PrivateKeyDer::from(PrivateSec1KeyDer::from(key.der.clone())),
        KeyFormat::Pkcs8 => PrivateKeyDer::from(PrivatePkcs8KeyDer::from(key.der.clone())),
    };
    let signer = rustls::crypto::ring::sign::any_supported_type(&der).map_err(|e| e.to_string())?;
    let certs = chain.iter().map(|c| CertificateDer::from(c.clone())).collect();
    Ok(Arc::new(CertifiedKey::new(certs, signer)))
}

/// `x509_parser::parse_x509_certificate`: the not-after time of a certificate
/// in Unix seconds, or the text of the parse error.
#[verifier::external_body]
fn parse_not_after(der: &[u8]) -> (r: Result<i64, String>)
    ensures
        time_view(r) == not_after_of(der@),
{
    let (_, parsed) = x509_parser::parse_x509_certificate(der).map_err(|e| e.to_string())?;
    Ok(parsed.validity().not_after.timestamp())
}

// ---------------------------------------------------------------------------
// Loading
// ---------------------------------------------------------------------------

/// What a parsed certificate chain amounts to: an error if parsing failed or
/// if it is empty.
pub open spec fn chain_outcome(parsed: Result<Seq<Seq<u8>>, Seq<char>>) -> Result<
    Seq<Seq<u8>>,
    Seq<char>,
> {
    match parsed {
        Err(e) => Err("parsing certs: "@ + e),
        Ok(c) => if c.len() == 0 {
            Err("no certificates in PEM"@)
        } else {
            Ok(c)
        },
    }
}

/// What a parsed key amounts to: an error if parsing failed or if there is none.
pub open spec fn key_outcome(parsed: Result<Option<(KeyFormat, Seq<u8>)>, Seq<char>>) -> Result<
    (KeyFormat, Seq<u8>),
    Seq<char>,
> {
    match parsed {
        Err(e) => Err("parsing key: "@ + e),
        Ok(None) => Err("no private key in PEM"@),
        Ok(Some(k)) => Ok(k),
    }
}

/// A chain with a private key, or the text of the error for a private key
/// that cannot sign.
pub open spec fn certified(chain: Seq<Seq<u8>>, format: KeyFormat, der: Seq<u8>) -> Result<
    KeyParts,
    Seq<char>,
> {
    match key_refusal(format, der) {
        None => Ok((chain, format, der)),
        Some(e) => Err(e),
    }
}

/// What the signing material and the expiry of the leaf amount to.
pub open spec fn material_outcome(
    key: Result<KeyParts, Seq<char>>,
    not_after: Result<i64, Seq<char>>,
) -> Result<(KeyParts, i64), Seq<char>> {
    match key {
        Err(e) => Err("unsupported key type: "@ + e),
        Ok(k) => match not_after {
            Err(e) => Err("parsing x509: "@ + e),
            Ok(t) => Ok((k, t)),
        },
    }
}

/// The certificate of a PEM chain and a PEM key, or the text of the error.
pub open spec fn load_outcome(cert_pem: Seq<u8>, key_pem: Seq<u8>) -> Result<
    (KeyParts, i64),
    Seq<char>,
> {
    match chain_outcome(pem_certificates(cert_pem)) {
        Err(e) => Err(e),
        Ok(chain) => match key_outcome(pem_key(key_pem)) {
            Err(e) => Err(e),
            Ok(key) => material_outcome(certified(chain, key.0, key.1), not_after_of(chain[0])),
        },
    }
}

/// Whether a result of loading is the given outcome.
pub open spec fn is_loaded(
    r: Result<LoadedCert, GfeError>,
    outcome: Result<(KeyParts, i64), Seq<char>>,
) -> bool {
    match r {
        Ok(l) => outcome == Ok::<(KeyParts, i64), Seq<char>>(
            (shared_parts(l.certified_key), l.not_after_unix),
        ),
        Err(e) => e matches GfeError::Certificate(m) && outcome == Err::<
            (KeyParts, i64),
            Seq<char>,
        >(m@),
    }
}

/// The certificate chain of a parse result.
pub fn read_certs(parsed: Result<Vec<Vec<u8>>, String>) -> (r: Result<Vec<Vec<u8>>, GfeError>)
    ensures
        match r {
            Ok(c) => chain_outcome(chain_view(parsed)) == Ok::<Seq<Seq<u8>>, Seq<char>>(
                byte_strings(c@),
            ),
            Err(e) => e matches GfeError::Certificate(m) && chain_outcome(chain_view(parsed))
                == Err::<Seq<Seq<u8>>, Seq<char>>(m@),
        },
{
    match parsed {
        Err(e) => Err(GfeError::Certificate(join2("parsing certs: ", e.as_str()))),
        Ok(c) => if c.len() == 0 {
            Err(GfeError::Certificate(owned("no certificates in PEM")))
        } else {
            Ok(c)
        },
    }
}

/// The private key of a parse result.
pub fn read_key(parsed: Result<Option<KeyDer>, String>) -> (r: Result<KeyDer, GfeError>)
    ensures
        match r {
            Ok(k) => key_outcome(key_view(parsed)) == Ok::<(KeyFormat, Seq<u8>), Seq<char>>(
                (k.format, k.der@),
            ),
            Err(e) => e matches GfeError::Certificate(m) && key_outcome(key_view(parsed)) == Err::<
                (KeyFormat, Seq<u8>),
                Seq<char>,
            >(m@),
        },
{
    match parsed {
        Err(e) => Err(GfeError::Certificate(join2("parsing key: ", e.as_str()))),
        Ok(None) => Err(GfeError::Certificate(owned("no private key in PEM"))),
        Ok(Some(k)) => Ok(k),
    }
}

/// The loaded certificate of its signing material and its expiry.
pub fn finish_load(key: Result<Arc<CertifiedKey>, String>, not_after: Result<i64, String>) -> (r:
    Result<LoadedCert, GfeError>)
    ensures
        is_loaded(r, material_outcome(certified_view(key), time_view(not_after))),
        r is Ok ==> r->Ok_0.certified_key == key->Ok_0,
{
    match key {
        Err(e) => Err(GfeError::Certificate(join2("unsupported key type: ", e.as_str()))),
        Ok(certified_key) => match not_after {
            Err(e) => Err(GfeError::Certificate(join2("parsing x509: ", e.as_str()))),
            Ok(not_after_unix) => Ok(LoadedCert { certified_key, not_after_unix }),
        },
    }
}

/// Load a certificate chain and private key from in-memory PEM bytes.
pub fn load_cert_pem(cert_pem: &[u8], key_pem: &[u8]) -> (r: Result<LoadedCert, GfeError>)
    ensures
        is_loaded(r, load_outcome(cert_pem@, key_pem@)),
{
    let chain = match read_certs(parse_certs(cert_pem)) {
        Ok(c) => c,
        Err(e) => return Err(e),
    };
    let key = match read_key(parse_key(key_pem)) {
        Ok(k) => k,
        Err(e) => return Err(e),
    };
    assert(chain@.len() > 0) by {
        assert(byte_strings(chain@).len() == chain@.len());
    }
    let material = certify(&chain, &key);
    assert(byte_strings(chain@)[0] == chain@[0]@);
    let not_after = parse_not_after(chain[0].as_slice());
    finish_load(material, not_after)
}

/// The contents of a certificate file and of a key file, each as far as it
/// could be read.
pub struct CertFiles {
    pub cert: Result<Vec<u8>, String>,
    pub key: Result<Vec<u8>, String>,
}

/// The certificate of a pair of files, or the text of the error, which names
/// the files.
pub open spec fn files_outcome(
    cert_path: Seq<char>,
    key_path: Seq<char>,
    files: CertFiles,
) -> Result<(KeyParts, i64), Seq<char>> {
    match files.cert {
        Err(e) => Err("reading "@ + cert_path + ": "@ + e@),
        Ok(cert_pem) => match files.key {
            Err(e) => Err("reading "@ + key_path + ": "@ + e@),
            Ok(key_pem) => match load_outcome(cert_pem@, key_pem@) {
                Ok(l) => Ok(l),
                Err(e) => Err(
                    cert_path + " / "@ + key_path + ": "@ + ("certificate error: "@ + e),
                ),
            },
        },
    }
}

/// Load a certificate chain and private key from the contents of PEM files.
pub fn load_cert_files(cert_path: &str, key_path: &str, files: &CertFiles) -> (r: Result<
    LoadedCert,
    GfeError,
>)
    ensures
        is_loaded(r, files_outcome(cert_path@, key_path@, *files)),
{
    let cert_pem = match &files.cert {
        Ok(b) => b,
        Err(e) => {
            let mut out = join3("reading ", cert_path, ": ");
            out.append(e.as_str());
            return Err(GfeError::Certificate(out));
        },
    };
    let key_pem = match &files.key {
        Ok(b) => b,
        Err(e) => {
            let mut out = join3("reading ", key_path, ": ");
            out.append(e.as_str());
            return Err(GfeError::Certificate(out));
        },
    };
    match load_cert_pem(cert_pem.as_slice(), key_pem.as_slice()) {
        Ok(l) => Ok(l),
        Err(e) => {
            let mut out = join3(cert_path, " / ", key_path);
            out.append(": ");
            out.append(e.message().as_str());
            Err(GfeError::Certificate(out))
        },
    }
}

/// A certificate loads exactly when its chain parses and is not empty, its
/// key parses and is there and can sign, and the leaf tells its expiry. What is
/// loaded is that chain, that key and that expiry.
pub proof fn law_certificate_loads_iff(
    cert_pem: Seq<u8>,
    key_pem: Seq<u8>,
    chain: Seq<Seq<u8>>,
    format: KeyFormat,
    der: Seq<u8>,
    not_after: i64,
)
    ensures
        load_outcome(cert_pem, key_pem) == Ok::<(KeyParts, i64), Seq<char>>(
            ((chain, format, der), not_after),
        ) <==> {
            &&& pem_certificates(cert_pem) == Ok::<Seq<Seq<u8>>, Seq<char>>(chain)
            &&& chain.len() > 0
            &&& pem_key(key_pem) == Ok::<Option<(KeyFormat, Seq<u8>)>, Seq<char>>(
                Some((format, der)),
            )
            &&& key_refusal(format, der) is None
            &&& not_after_of(chain[0]) == Ok::<i64, Seq<char>>(not_after)
        },
{
}

/// A certificate and its key load from two files exactly when both can be read
/// and their contents load.
pub proof fn law_files_load_iff(
    cert_path: Seq<char>,
    key_path: Seq<char>,
    files: CertFiles,
    parts: KeyParts,
    not_after: i64,
)
    ensures
        files_outcome(cert_path, key_path, files) == Ok::<(KeyParts, i64), Seq<char>>(
            (parts, not_after),
        ) <==> {
            &&& files.cert is Ok
            &&& files.key is Ok
            &&& load_outcome(files.cert->Ok_0@, files.key->Ok_0@) == Ok::<
                (KeyParts, i64),
                Seq<char>,
            >((parts, not_after))
        },
        files.cert matches Err(e) ==> files_outcome(cert_path, key_path, files) == Err::<
            (KeyParts, i64),
            Seq<char>,
        >("reading "@ + cert_path + ": "@ + e@),
        files.cert is Ok && files.key is Err ==> files_outcome(cert_path, key_path, files) == Err::<
            (KeyParts, i64),
            Seq<char>,
        >("reading "@ + key_path + ": "@ + files.key->Err_0@),
{
}

/// A loaded certificate has the parts and the expiry of the outcome; a refused
/// one is a certificate error with its text.
pub proof fn law_loading_gives_the_outcome(
    r: Result<LoadedCert, GfeError>,
    outcome: Result<(KeyParts, i64), Seq<char>>,
)
    requires
        is_loaded(r, outcome),
    ensures
        r is Ok <==> outcome is Ok,
        r matches Ok(l) ==> key_parts(*l.certified_key) == outcome->Ok_0.0 && l.not_after_unix
            == outcome->Ok_0.1,
        r matches Err(e) ==> (e matches GfeError::Certificate(m) && m@ == outcome->Err_0),
{
}

/// What does not load is refused for the first thing that is wrong with it: the
/// chain, the key, the key's kind or the leaf.
pub proof fn law_loading_errors(cert_pem: Seq<u8>, key_pem: Seq<u8>)
    ensures
        ({
            let r = load_outcome(cert_pem, key_pem);
            let certs = pem_certificates(cert_pem);
            let key = pem_key(key_pem);
            let chain = certs->Ok_0;
            let (format, der) = key->Ok_0->0;
            let some = certs is Ok && chain.len() > 0;
            let signs = some && key is Ok && key->Ok_0 is Some;
            &&& certs is Err ==> r == Err::<(KeyParts, i64), Seq<char>>(
                "parsing certs: "@ + certs->Err_0,
            )
            &&& certs is Ok && chain.len() == 0 ==> r == Err::<(KeyParts, i64), Seq<char>>(
                "no certificates in PEM"@,
            )
            &&& some && key is Err ==> r == Err::<(KeyParts, i64), Seq<char>>(
                "parsing key: "@ + key->Err_0,
            )
            &&& some && key is Ok && key->Ok_0 is None ==> r == Err::<(KeyParts, i64), Seq<char>>(
                "no private key in PEM"@,
            )
            &&& signs && key_refusal(format, der) is Some ==> r == Err::<
                (KeyParts, i64),
                Seq<char>,
            >("unsupported key type: "@ + key_refusal(format, der)->0)
            &&& signs && key_refusal(format, der) is None && not_after_of(chain[0]) is Err
                ==> r == Err::<(KeyParts, i64), Seq<char>>(
                "parsing x509: "@ + not_after_of(chain[0])->Err_0,
            )
        }),
{
}

/// Contents that do not load are refused under the names of both files.
pub proof fn law_bad_files_are_named(
    cert_path: Seq<char>,
    key_path: Seq<char>,
    files: CertFiles,
    e: Seq<char>,
)
    requires
        files.cert is Ok,
        files.key is Ok,
        load_outcome(files.cert->Ok_0@, files.key->Ok_0@) == Err::<(KeyParts, i64), Seq<char>>(e),
    ensures
        files_outcome(cert_path, key_path, files) == Err::<(KeyParts, i64), Seq<char>>(
            cert_path + " / "@ + key_path + ": certificate error: "@ + e,
        ),
{
    reveal_strlit(": ");
    reveal_strlit("certificate error: ");
    reveal_strlit(": certificate error: ");
    assert(": certificate error: "@ =~= ": "@ + "certificate error: "@);
    assert(cert_path + " / "@ + key_path + ": "@ + ("certificate error: "@ + e) =~= cert_path
        + " / "@ + key_path + ": certificate error: "@ + e);
}

/// Byte strings are read byte for byte, and so are a chain and a key.
pub proof fn law_views_of_material(items: Vec<Vec<u8>>, key: KeyDer, e: String, i: int)
    ensures
        byte_strings(items@).len() == items@.len(),
        0 <= i < items@.len() ==> byte_strings(items@)[i] == items@[i]@,
        chain_view(Ok(items)) == Ok::<Seq<Seq<u8>>, Seq<char>>(byte_strings(items@)),
        chain_view(Err(e)) == Err::<Seq<Seq<u8>>, Seq<char>>(e@),
        key_view(Ok(Some(key))) == Ok::<Option<(KeyFormat, Seq<u8>)>, Seq<char>>(
            Some((key.format, key.der@)),
        ),
        key_view(Ok(None)) == Ok::<Option<(KeyFormat, Seq<u8>)>, Seq<char>>(None),
        key_view(Err(e)) == Err::<Option<(KeyFormat, Seq<u8>)>, Seq<char>>(e@),
{
}

}
