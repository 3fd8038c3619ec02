//! The error type shared by the whole crate.

use crate::text::join2;
use vstd::prelude::*;
use vstd::string::*;

verus! {

/// Errors surfaced by the domain and everything built on top of it.
#[derive(Debug, PartialEq, Eq)]
pub enum GfeError {
    /// A configuration source could not be read or understood.
    Config(String),
    /// A configuration breaks a rule.
    Validation(String),
    /// An input or output operation failed.
    Io(String),
    /// TLS material or settings were refused.
    Tls(String),
    /// No route matched a request.
    NoRoute { host: String, path: String },
    /// A route names a pool that does not exist.
    PoolNotFound(String),
    /// A pool has no backend that may receive requests.
    NoHealthyUpstream(String),
    /// A certificate or key could not be used.
    Certificate(String),
}

impl GfeError {
    /// The text of the error.
    pub open spec fn message_spec(self) -> Seq<char> {
        match self {
            GfeError::Config(m) => "configuration error: "@ + m@,
            GfeError::Validation(m) => "validation error: "@ + m@,
            GfeError::Io(m) => "I/O error: "@ + m@,
            GfeError::Tls(m) => "TLS error: "@ + m@,
            GfeError::NoRoute { host, path } => "no route matched host="@ + host@ + " path="@
                + path@,
            GfeError::PoolNotFound(m) => "upstream pool not found: "@ + m@,
            GfeError::NoHealthyUpstream(m) => "no healthy upstream in pool "@ + m@,
            GfeError::Certificate(m) => "certificate error: "@ + m@,
        }
    }

    /// The text of the error.
    pub fn message(&self) -> (r: String)
        ensures
            r@ == self.message_spec(),
    {
        match self {
            GfeError::Config(m) => join2("configuration error: ", m.as_str()),
            GfeError::Validation(m) => join2("validation error: ", m.as_str()),
            GfeError::Io(m) => join2("I/O error: ", m.as_str()),
            GfeError::Tls(m) => join2("TLS error: ", m.as_str()),
            GfeError::NoRoute { host, path } => {
                let mut out = join2("no route matched host=", host.as_str());
                out.append(" path=");
                out.append(path.as_str());
                out
            },
            GfeError::PoolNotFound(m) => join2("upstream pool not found: ", m.as_str()),
            GfeError::NoHealthyUpstream(m) => join2("no healthy upstream in pool ", m.as_str()),
            GfeError::Certificate(m) => join2("certificate error: ", m.as_str()),
        }
    }
}

impl Clone for GfeError {
    fn clone(&self) -> (r: Self)
        ensures
            r == *self,
    {
        match self {
            GfeError::Config(m) => GfeError::Config(m.clone()),
            GfeError::Validation(m) => GfeError::Validation(m.clone()),
            GfeError::Io(m) => GfeError::Io(m.clone()),
            GfeError::Tls(m) => GfeError::Tls(m.clone()),
            GfeError::NoRoute { host, path } => GfeError::NoRoute {
                host: host.clone(),
                path: path.clone(),
            },
            GfeError::PoolNotFound(m) => GfeError::PoolNotFound(m.clone()),
            GfeError::NoHealthyUpstream(m) => GfeError::NoHealthyUpstream(m.clone()),
            GfeError::Certificate(m) => GfeError::Certificate(m.clone()),
        }
    }
}

/// The text of an error says what kind it is and closes with its detail.
pub proof fn law_error_texts(m: String, path: String)
    ensures
        GfeError::Config(m).message_spec() == "configuration error: "@ + m@,
        GfeError::Validation(m).message_spec() == "validation error: "@ + m@,
        GfeError::Io(m).message_spec() == "I/O error: "@ + m@,
        GfeError::Tls(m).message_spec() == "TLS error: "@ + m@,
        GfeError::PoolNotFound(m).message_spec() == "upstream pool not found: "@ + m@,
        GfeError::NoHealthyUpstream(m).message_spec() == "no healthy upstream in pool "@ + m@,
        GfeError::Certificate(m).message_spec() == "certificate error: "@ + m@,
        (GfeError::NoRoute { host: m, path }).message_spec() == "no route matched host="@ + m@
            + " path="@ + path@,
{
}

}
