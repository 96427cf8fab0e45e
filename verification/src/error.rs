//! What can go wrong.

use crate::csr::CsrError;
use crate::problem::Problem;
use rustls_pki_types::pem::Error as PemError;
use vstd::prelude::*;

verus! {

/// Why PEM input could not be decoded.
#[verifier::external_type_specification]
#[verifier::external_body]
pub struct ExPemError(PemError);

/// What the checks and encodings of this crate, and the keys that are used with it, can fail with
#[derive(Debug)]
#[non_exhaustive]
pub enum Error {
    /// An JSON problem as returned by the ACME server
    ///
    /// RFC 8555 uses problem documents as described in RFC 7807.
    Api(Problem),
    /// Failed from cryptographic operations
    Crypto,
    /// A CSR does not match the order it was passed for
    Csr(CsrError),
    /// Failed to instantiate a private key
    KeyRejected,
    /// Failed to (de)serialize a JSON object
    Json(serde_json::Error),
    /// Failed to decode PEM input
    Pem(PemError),
    /// ACME server does not support a requested feature
    Unsupported(&'static str),
    /// Miscellaneous errors
    Str(&'static str),
}

impl From<Problem> for Error {
    fn from(problem: Problem) -> (err: Error) {
        Error::Api(problem)
    }
}

impl vstd::std_specs::convert::FromSpecImpl<Problem> for Error {
    open spec fn obeys_from_spec() -> bool {
        true
    }

    open spec fn from_spec(problem: Problem) -> Error {
        Error::Api(problem)
    }
}

impl From<CsrError> for Error {
    fn from(err: CsrError) -> (error: Error) {
        Error::Csr(err)
    }
}

impl vstd::std_specs::convert::FromSpecImpl<CsrError> for Error {
    open spec fn obeys_from_spec() -> bool {
        true
    }

    open spec fn from_spec(err: CsrError) -> Error {
        Error::Csr(err)
    }
}

impl From<serde_json::Error> for Error {
    fn from(err: serde_json::Error) -> (error: Error) {
        Error::Json(err)
    }
}

impl vstd::std_specs::convert::FromSpecImpl<serde_json::Error> for Error {
    open spec fn obeys_from_spec() -> bool {
        true
    }

    open spec fn from_spec(err: serde_json::Error) -> Error {
        Error::Json(err)
    }
}

impl From<PemError> for Error {
    fn from(err: PemError) -> (error: Error) {
        Error::Pem(err)
    }
}

impl vstd::std_specs::convert::FromSpecImpl<PemError> for Error {
    open spec fn obeys_from_spec() -> bool {
        true
    }

    open spec fn from_spec(err: PemError) -> Error {
        Error::Pem(err)
    }
}

impl From<&'static str> for Error {
    fn from(message: &'static str) -> (error: Error) {
        Error::Str(message)
    }
}

impl vstd::std_specs::convert::FromSpecImpl<&'static str> for Error {
    open spec fn obeys_from_spec() -> bool {
        true
    }

    open spec fn from_spec(message: &'static str) -> Error {
        Error::Str(message)
    }
}

/// A more specific error becomes the variant that is for it, and is kept whole in it.
pub proof fn law_errors_keep_their_cause(
    problem: Problem,
    api: Error,
    csr: CsrError,
    invalid: Error,
    json: serde_json::Error,
    unwritten: Error,
    pem: PemError,
    undecoded: Error,
    what: &'static str,
    missing: Error,
)
    requires
        call_ensures(<Error as From<Problem>>::from, (problem,), api),
        call_ensures(<Error as From<CsrError>>::from, (csr,), invalid),
        call_ensures(<Error as From<serde_json::Error>>::from, (json,), unwritten),
        call_ensures(<Error as From<PemError>>::from, (pem,), undecoded),
        call_ensures(<Error as From<&'static str>>::from, (what,), missing),
    ensures
        api == Error::Api(problem),
        invalid == Error::Csr(csr),
        unwritten == Error::Json(json),
        undecoded == Error::Pem(pem),
        missing == Error::Str(what),
{
}

} // verus!
