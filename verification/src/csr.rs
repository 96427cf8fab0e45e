//! Certificate signing requests, and the checks that a CA applies to them.

use crate::base64url::{self, encode};
use crate::error::Error;
use crate::identifier::AuthorizedIdentifier;
use crate::jwk::JwkThumbFields;
use crate::octets;
use crate::request::{
    self, read_request, read_subject_key, verify_signature, CertificationRequest, ParsedKeyView,
    RequestView, SubjectKeyView,
};
use crate::validation::{self, CsrErrorView};
use rustls_pki_types::pem::{Error as PemError, PemObject};
use rustls_pki_types::CertificateSigningRequestDer;
use std::borrow::Cow;
use vstd::prelude::*;

verus! {

/// A PKCS#10 Certificate Signing Request (CSR) as described in RFC 2986
///
/// Pass one of these to request a certificate for a key pair that this process never gets to
/// see. This is the type to use if your private key lives in an HSM, a KMS, or a file that
/// should not be read into the process: generate the CSR wherever the key lives, then hand the
/// result over.
///
/// The CSR must carry a subjectAltName extension covering every identifier in the order
/// (see RFC 8555 section 7.4), and its key must not be the account key (section 11.1).
#[derive(Debug)]
pub struct Csr<'a>(pub Cow<'a, [u8]>);

/// What a [`Csr`] is: its DER encoding.
impl View for Csr<'_> {
    type V = Seq<u8>;

    open spec fn view(&self) -> Seq<u8> {
        self.0@
    }
}

impl<'a> Clone for Csr<'a> {
    fn clone(&self) -> (copy: Csr<'a>)
        ensures
            copy@ == self@,
            copy.0 is Borrowed == self.0 is Borrowed,
    {
        match &self.0 {
            Cow::Borrowed(der) => Csr(Cow::Borrowed(der)),
            Cow::Owned(der) => {
                let copy = der.clone();
                assert(copy@ =~= der@);
                Csr(Cow::Owned(copy))
            },
        }
    }
}

/// How strictly a CSR is checked against an order
///
/// Used by [`Csr::validate_with()`].
#[derive(Clone, Copy, Debug)]
pub struct CsrPolicy {
    /// Whether a CSR may ask for names that the order does not cover
    pub extra_identifiers: bool,
}

impl Default for CsrPolicy {
    fn default() -> (policy: CsrPolicy)
        ensures
            !policy.extra_identifiers,
    {
        CsrPolicy { extra_identifiers: false }
    }
}

impl CsrPolicy {
    /// A `CsrPolicy` that requires the CSR's names to match the order's identifiers exactly
    pub fn new() -> (policy: CsrPolicy)
        ensures
            !policy.extra_identifiers,
    {
        CsrPolicy::default()
    }

    /// Accept a CSR that asks for names the order does not cover
    ///
    /// Off by default, because an ACME server will not issue for identifiers you have no
    /// authorization for: Boulder, for one, rejects the CSR outright. Turn it on for servers
    /// that are known to ignore the extra names instead.
    pub fn allow_extra_identifiers(self, allow: bool) -> (policy: CsrPolicy)
        ensures
            policy.extra_identifiers == allow,
    {
        CsrPolicy { extra_identifiers: allow }
    }
}

/// The ways a CSR can fail to match an order
#[derive(Debug)]
#[non_exhaustive]
pub enum CsrError {
    /// The CSR's public key is the ACME account key
    ///
    /// <https://www.rfc-editor.org/rfc/rfc8555#section-11.1>
    AccountKeyReuse,
    /// The CSR's signature does not verify against the key in the CSR
    BadSignature,
    /// The CSR has a subject common name that is not among its subjectAltName values
    CommonNameNotInSan(String),
    /// The order has an identifier that the CSR does not ask for
    MissingIdentifier(String),
    /// The CSR has no subjectAltName extension, but the order has identifiers
    NoSubjectAltName,
    /// The CSR could not be parsed
    Parse(&'static str),
    /// The CSR asks for a name that the order does not authorize
    ///
    /// See [`CsrPolicy::allow_extra_identifiers()`] to allow this.
    UnexpectedIdentifier(String),
}

impl CsrError {
    /// The error as a message for humans
    pub fn to_string(&self) -> (text: String)
        ensures
            text@ == self@.text(),
    {
        match self {
            CsrError::AccountKeyReuse => "the CSR's public key is the ACME account key".to_owned(),
            CsrError::BadSignature => "the CSR's signature does not verify".to_owned(),
            CsrError::CommonNameNotInSan(name) => "common name `"
                .to_owned()
                .concat(name.as_str())
                .concat("` is missing from the CSR's subjectAltName extension"),
            CsrError::MissingIdentifier(name) => "the CSR does not cover identifier `"
                .to_owned()
                .concat(name.as_str())
                .concat("`"),
            CsrError::NoSubjectAltName => "the CSR has no subjectAltName extension".to_owned(),
            CsrError::Parse(what) => "failed to parse the CSR: ".to_owned().concat(what),
            CsrError::UnexpectedIdentifier(name) => "the CSR asks for identifier `"
                .to_owned()
                .concat(name.as_str())
                .concat("`, which the order does not authorize"),
        }
    }
}

/// What rustls-pki-types decodes of PEM input: the contents of its first `CERTIFICATE REQUEST`
/// section, or the error.
pub uninterp spec fn pem_request(pem: Seq<u8>) -> Result<Seq<u8>, PemError>;

/// `PemObject::from_pem_slice` for `CertificateSigningRequestDer`: the DER that the first
/// `CERTIFICATE REQUEST` section of `pem` decodes to, or the error.
#[verifier::external_body]
fn read_pem(pem: &[u8]) -> (der: Result<Vec<u8>, PemError>)
    ensures
        match der {
            Ok(der) => pem_request(pem@) == Ok::<Seq<u8>, PemError>(der@),
            Err(err) => pem_request(pem@) == Err::<Seq<u8>, PemError>(err),
        },
{
    CertificateSigningRequestDer::from_pem_slice(pem).map(|der| der.to_vec())
}

impl<'a> From<&'a [u8]> for Csr<'a> {
    fn from(der: &'a [u8]) -> (csr: Csr<'a>) {
        Csr(Cow::Borrowed(der))
    }
}

impl<'a> vstd::std_specs::convert::FromSpecImpl<&'a [u8]> for Csr<'a> {
    open spec fn obeys_from_spec() -> bool {
        true
    }

    open spec fn from_spec(der: &'a [u8]) -> Csr<'a> {
        Csr(Cow::Borrowed(der))
    }
}

impl<'a> From<Vec<u8>> for Csr<'a> {
    fn from(der: Vec<u8>) -> (csr: Csr<'a>) {
        Csr(Cow::Owned(der))
    }
}

impl<'a> vstd::std_specs::convert::FromSpecImpl<Vec<u8>> for Csr<'a> {
    open spec fn obeys_from_spec() -> bool {
        true
    }

    open spec fn from_spec(der: Vec<u8>) -> Csr<'a> {
        Csr(Cow::Owned(der))
    }
}

/// What comes of validating a request, given what was read at the start of the DER input and
/// whether the signature verifies: the names are compared first, and the signature last.
pub open spec fn validated(
    read: Option<RequestView>,
    signature: bool,
    identifiers: Seq<AuthorizedIdentifier<'_>>,
    allow_extra: bool,
) -> Result<(), CsrErrorView> {
    match request::complete_request(read) {
        Err(err) => Err(err),
        Ok(request) => match validation::names_checked(request, identifiers, allow_extra) {
            Err(err) => Err(err),
            Ok(()) => if signature {
                Ok(())
            } else {
                Err(CsrErrorView::BadSignature)
            },
        },
    }
}

/// What comes of comparing the public key of a request with an account key, given what was read
/// at the start of the DER input and the public key.
pub open spec fn key_checked(
    read: Option<RequestView>,
    subject: SubjectKeyView,
    key: JwkThumbFields<'_>,
) -> Result<(), CsrErrorView> {
    match request::complete_request(read) {
        Err(err) => Err(err),
        Ok(_) => if subject.is_key(key) {
            Err(CsrErrorView::AccountKeyReuse)
        } else {
            Ok(())
        },
    }
}

impl<'a> Csr<'a> {
    /// Use a CSR that is already in DER encoding
    pub fn from_der<D: Into<Csr<'a>>>(der: D) -> (csr: Csr<'a>)
        ensures
            call_ensures(D::into, (der,), csr),
    {
        der.into()
    }

    /// Decode a PEM-encoded CSR (a `CERTIFICATE REQUEST` section)
    ///
    /// Only the first `CERTIFICATE REQUEST` section is used; other sections are ignored.
    pub fn from_pem(pem: &[u8]) -> (csr: Result<Csr<'static>, Error>)
        ensures
            match csr {
                Ok(csr) => pem_request(pem@) == Ok::<Seq<u8>, PemError>(csr@),
                Err(err) => err matches Error::Pem(err) && pem_request(pem@) == Err::<
                    Seq<u8>,
                    PemError,
                >(err),
            },
    {
        match read_pem(pem) {
            Ok(der) => Ok(Csr(Cow::Owned(der))),
            Err(err) => Err(Error::from(err)),
        }
    }

    /// Check this CSR against an order's identifiers, with the default [`CsrPolicy`]
    ///
    /// Use this one to check a CSR before you have an order, or in an offline tool. It does not
    /// know the account key: see [`Csr::check_account_key()`] for that.
    pub fn validate(&self, identifiers: &[AuthorizedIdentifier<'_>]) -> (result: Result<
        (),
        CsrError,
    >)
        ensures
            validation::outcome(result) == validated(
                request::certification_request(self@),
                request::signature_verifies(self@),
                identifiers@,
                false,
            ),
    {
        self.validate_with(identifiers, &CsrPolicy::default())
    }

    /// Check this CSR against an order's identifiers, with the given [`CsrPolicy`]
    ///
    /// Nothing here talks to the ACME server: this is the same set of checks a CA applies,
    /// run locally, so that a mismatch costs you a helpful error instead of a failed
    /// finalization (and one of your rate-limited orders).
    pub fn validate_with(
        &self,
        identifiers: &[AuthorizedIdentifier<'_>],
        policy: &CsrPolicy,
    ) -> (result: Result<(), CsrError>)
        ensures
            validation::outcome(result) == validated(
                request::certification_request(self@),
                request::signature_verifies(self@),
                identifiers@,
                policy.extra_identifiers,
            ),
    {
        let request = match self.parse() {
            Ok(request) => request,
            Err(err) => {
                return Err(err);
            },
        };
        match request.validate_names(identifiers, policy) {
            Ok(()) => {},
            Err(err) => {
                return Err(err);
            },
        }
        if verify_signature(self.der()) {
            Ok(())
        } else {
            Err(CsrError::BadSignature)
        }
    }

    /// Yield an error if this CSR's public key is the given account key (RFC 8555 section 11.1)
    ///
    /// See [`SubjectKey::is_key()`][request::SubjectKey::is_key()] for when the two are the same
    /// key.
    pub fn check_account_key(&self, key: &JwkThumbFields<'_>) -> (result: Result<(), CsrError>)
        ensures
            validation::outcome(result) == key_checked(
                request::certification_request(self@),
                request::subject_key(self@),
                *key,
            ),
    {
        match self.parse() {
            Ok(_) => {},
            Err(err) => {
                return Err(err);
            },
        }
        if read_subject_key(self.der()).is_key(key) {
            Err(CsrError::AccountKeyReuse)
        } else {
            Ok(())
        }
    }

    /// Read the request, which must be all that the DER encoding holds
    pub fn parse(&self) -> (request: Result<CertificationRequest, CsrError>)
        ensures
            match request {
                Ok(request) => {
                    &&& request::certification_request(self@) == Some(request@)
                    &&& request.trailing == 0
                },
                Err(err) => request::complete_request(request::certification_request(self@))
                    == Err::<RequestView, CsrErrorView>(err@),
            },
    {
        CertificationRequest::complete(read_request(self.der()))
    }

    /// The DER encoding of the CSR
    pub fn der(&self) -> (der: &[u8])
        ensures
            der@ == self@,
    {
        match &self.0 {
            Cow::Borrowed(der) => der,
            Cow::Owned(der) => der.as_slice(),
        }
    }

    /// The DER encoding of the CSR
    pub fn as_ref(&self) -> (der: &[u8])
        ensures
            der@ == self@,
    {
        self.der()
    }
}

/// The payload that asks for an order to be finalized
#[derive(Debug)]
pub struct FinalizeRequest {
    /// The CSR, as the base64url encoding of its DER encoding
    pub csr: String,
}

impl FinalizeRequest {
    /// Ask for finalization with the CSR that has this DER encoding
    pub fn new(csr_der: &[u8]) -> (request: FinalizeRequest)
        requires
            base64url::encodable(csr_der@.len()),
        ensures
            request.csr@ == base64url::base64url(csr_der@),
    {
        FinalizeRequest { csr: encode(csr_der) }
    }
}

/// The DER encoding of a CSR is what it was made of: the bytes that it borrows or owns.
pub proof fn law_der_is_what_the_csr_holds(csr: &Csr<'_>, der: &[u8], same: &[u8], copy: Csr<'_>)
    requires
        call_ensures(Csr::der, (csr,), der),
        call_ensures(Csr::as_ref, (csr,), same),
        call_ensures(<Csr as Clone>::clone, (csr,), copy),
    ensures
        der@ == match csr.0 {
            Cow::Borrowed(bytes) => bytes@,
            Cow::Owned(bytes) => bytes@,
        },
        same@ == der@,
        match copy.0 {
            Cow::Borrowed(bytes) => csr.0 is Borrowed && bytes@ == der@,
            Cow::Owned(bytes) => csr.0 is Owned && bytes@ == der@,
        },
{
}

/// A CSR that is made of borrowed bytes borrows all of them.
pub proof fn law_csr_from_borrowed_der<'a>(der: &'a [u8], csr: Csr<'a>)
    requires
        call_ensures(Csr::<'a>::from_der::<&'a [u8]>, (der,), csr),
    ensures
        csr.0 == Cow::<[u8]>::Borrowed(der),
{
}

/// A CSR that is made of owned bytes owns all of them.
pub proof fn law_csr_from_owned_der<'a>(der: Vec<u8>, csr: Csr<'a>)
    requires
        call_ensures(Csr::<'a>::from_der::<Vec<u8>>, (der,), csr),
    ensures
        csr.0 == Cow::<[u8]>::Owned(der),
{
}

/// A CSR is decoded from PEM exactly if rustls-pki-types decodes it, and then holds all of what
/// was decoded; an error is passed on.
pub proof fn law_csr_from_pem(pem: &[u8], result: Result<Csr<'static>, Error>)
    requires
        call_ensures(Csr::from_pem, (pem,), result),
    ensures
        match pem_request(pem@) {
            Ok(der) => result matches Ok(csr) && csr.0@ == der,
            Err(err) => result matches Err(Error::Pem(other)) && other == err,
        },
{
}

/// A CSR is parsed exactly if x509-parser reads a request that is all of its DER encoding, and
/// then the request has the extensions and the common names that x509-parser reads.
pub proof fn law_parse_takes_whole_requests(
    csr: &Csr<'_>,
    result: Result<CertificationRequest, CsrError>,
)
    requires
        call_ensures(Csr::parse, (csr,), result),
    ensures
        match request::request_extensions(csr@) {
            Some((trailing, extensions)) => if trailing == 0 {
                &&& result matches Ok(request)
                &&& request.trailing == 0
                &&& request@.extensions == extensions
                &&& request@.common_names == request::common_names(csr@)
            } else {
                result matches Err(CsrError::Parse(what)) && what@
                    == "trailing data after the certification request"@
            },
            None => result matches Err(CsrError::Parse(what)) && what@
                == "not a valid PKCS#10 certification request"@,
        },
{
}

/// Two errors are the same: of one variant, with the same text.
pub open spec fn same_error(a: CsrError, b: CsrError) -> bool {
    match (a, b) {
        (CsrError::AccountKeyReuse, CsrError::AccountKeyReuse) => true,
        (CsrError::BadSignature, CsrError::BadSignature) => true,
        (CsrError::CommonNameNotInSan(x), CsrError::CommonNameNotInSan(y)) => x@ == y@,
        (CsrError::MissingIdentifier(x), CsrError::MissingIdentifier(y)) => x@ == y@,
        (CsrError::NoSubjectAltName, CsrError::NoSubjectAltName) => true,
        (CsrError::Parse(x), CsrError::Parse(y)) => x@ == y@,
        (CsrError::UnexpectedIdentifier(x), CsrError::UnexpectedIdentifier(y)) => x@ == y@,
        _ => false,
    }
}

/// Validation gives the error of parsing the CSR, or else the error of comparing the names of the
/// request that was parsed, or else succeeds exactly if the signature verifies.
pub proof fn law_validation_is_parse_then_names_then_signature(
    csr: &Csr<'_>,
    identifiers: &[AuthorizedIdentifier<'_>],
    policy: &CsrPolicy,
    parsed: Result<CertificationRequest, CsrError>,
    named: Result<(), CsrError>,
    result: Result<(), CsrError>,
)
    requires
        call_ensures(Csr::parse, (csr,), parsed),
        parsed matches Ok(request) ==> call_ensures(
            CertificationRequest::validate_names,
            (&request, identifiers, policy),
            named,
        ),
        call_ensures(Csr::validate_with, (csr, identifiers, policy), result),
    ensures
        match (parsed, named) {
            (Err(err), _) => result matches Err(other) && same_error(err, other),
            (Ok(_), Err(err)) => result matches Err(other) && same_error(err, other),
            (Ok(_), Ok(())) => match result {
                Ok(()) => request::signature_verifies(csr@),
                Err(err) => err is BadSignature && !request::signature_verifies(csr@),
            },
        },
{
}

/// Validation without a policy is validation with a policy that does not allow extra identifiers,
/// which is what a new and the default policy are; a policy allows them exactly as it was last
/// told.
pub proof fn law_default_is_strict(
    csr: &Csr<'_>,
    identifiers: &[AuthorizedIdentifier<'_>],
    new: CsrPolicy,
    default: CsrPolicy,
    allow: bool,
    told: CsrPolicy,
    strict: Result<(), CsrError>,
    result: Result<(), CsrError>,
)
    requires
        call_ensures(CsrPolicy::new, (), new),
        call_ensures(<CsrPolicy as Default>::default, (), default),
        call_ensures(CsrPolicy::allow_extra_identifiers, (new, allow), told),
        call_ensures(Csr::validate_with, (csr, identifiers, &new), strict),
        call_ensures(Csr::validate, (csr, identifiers), result),
    ensures
        !new.extra_identifiers,
        !default.extra_identifiers,
        told.extra_identifiers == allow,
        match (strict, result) {
            (Ok(()), Ok(())) => true,
            (Err(err), Err(other)) => same_error(err, other),
            _ => false,
        },
{
}

/// Of a request that is read completely, the check of the account key fails with
/// [`CsrError::AccountKeyReuse`] exactly if the public key is the account key, and succeeds exactly
/// if it is not.
pub proof fn law_key_check_tells_reuse(
    read: Option<RequestView>,
    subject: SubjectKeyView,
    key: JwkThumbFields<'_>,
)
    requires
        read matches Some(request) && request.trailing == 0,
    ensures
        key_checked(read, subject, key) == Err::<(), CsrErrorView>(CsrErrorView::AccountKeyReuse)
            <==> subject.is_key(key),
        key_checked(read, subject, key) is Ok <==> !subject.is_key(key),
{
}

/// The check of the account key finds the key in a CSR that is one whole request, whatever the
/// type of the key. An elliptic curve key is the account key if it is its point: a 4 and both
/// coordinates, or a 2 or 3 for the parity of the second coordinate and the first coordinate. An
/// octet key is if it is the same bytes, and an RSA key if modulus and exponent are the same
/// integers. Any other CSR fails as parsing it does.
pub proof fn law_account_key_is_found(
    csr: &Csr<'_>,
    key: &JwkThumbFields<'_>,
    parsed: Result<CertificationRequest, CsrError>,
    result: Result<(), CsrError>,
)
    requires
        call_ensures(Csr::parse, (csr,), parsed),
        call_ensures(Csr::check_account_key, (csr, key), result),
    ensures
        match (parsed, result) {
            (Err(err), Err(other)) => same_error(err, other),
            (Err(_), Ok(())) => false,
            (Ok(_), Err(err)) => err is AccountKeyReuse,
            (Ok(_), Ok(())) => true,
        },
        parsed is Ok ==> (result is Err <==> match *key {
            JwkThumbFields::Ec { crv: _, x, y } => match request::subject_key(csr@).parsed {
                ParsedKeyView::Ec(point) => {
                    ||| {
                        &&& point.len() == 1 + x@.len() + y@.len()
                        &&& point[0] == 4
                        &&& point.subrange(1, 1 + x@.len() as int) == x@
                        &&& point.skip(1 + x@.len() as int) == y@
                    }
                    ||| {
                        &&& y@.len() > 0
                        &&& point.len() == 1 + x@.len()
                        &&& point[0] == 2 + y@[y@.len() - 1] % 2
                        &&& point.skip(1) == x@
                    }
                },
                _ => false,
            },
            JwkThumbFields::Okp { crv: _, x } => request::subject_key(csr@).bits == x@,
            JwkThumbFields::Rsa { e, n } => match request::subject_key(csr@).parsed {
                ParsedKeyView::Rsa { modulus, exponent } => {
                    &&& octets::integer(modulus) == octets::integer(n@)
                    &&& octets::integer(exponent) == octets::integer(e@)
                },
                _ => false,
            },
        }),
{
    let subject = request::subject_key(csr@);
    match *key {
        JwkThumbFields::Ec { crv: _, x, y } => {
            if let ParsedKeyView::Ec(point) = subject.parsed {
                request::lemma_points(point, x@, y@);
            }
        },
        JwkThumbFields::Okp { .. } => {},
        JwkThumbFields::Rsa { e, n } => {
            if let ParsedKeyView::Rsa { modulus, exponent } = subject.parsed {
                request::law_rsa_keys_compare_as_integers(subject, modulus, exponent, e, n);
            }
        },
    }
}

/// The payload that asks for finalization holds the base64url encoding of the whole DER encoding,
/// so that no other CSR has the same.
pub proof fn law_finalize_request_tells_the_csr(
    der: &[u8],
    request: FinalizeRequest,
    other: &[u8],
    other_request: FinalizeRequest,
)
    requires
        call_ensures(FinalizeRequest::new, (der,), request),
        call_ensures(FinalizeRequest::new, (other,), other_request),
    ensures
        request.csr@ == base64url::base64url(der@),
        request.csr@ == other_request.csr@ ==> der@ == other@,
{
    if request.csr@ == other_request.csr@ {
        base64url::law_encoding_is_injective(der@, other@);
    }
}

/// The message of an error says what went wrong, and quotes the name that it is about.
pub proof fn law_error_messages(err: &CsrError, message: String)
    requires
        call_ensures(CsrError::to_string, (err,), message),
    ensures
        match *err {
            CsrError::AccountKeyReuse => message@ == "the CSR's public key is the ACME account key"@,
            CsrError::BadSignature => message@ == "the CSR's signature does not verify"@,
            CsrError::CommonNameNotInSan(name) => message@ == "common name `"@ + name@
                + "` is missing from the CSR's subjectAltName extension"@,
            CsrError::MissingIdentifier(name) => message@ == "the CSR does not cover identifier `"@
                + name@ + "`"@,
            CsrError::NoSubjectAltName => message@ == "the CSR has no subjectAltName extension"@,
            CsrError::Parse(what) => message@ == "failed to parse the CSR: "@ + what@,
            CsrError::UnexpectedIdentifier(name) => message@ == "the CSR asks for identifier `"@
                + name@ + "`, which the order does not authorize"@,
        },
{
}

} // verus!
