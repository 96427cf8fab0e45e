//! What is read out of a PKCS#10 certification request.

use crate::csr::CsrError;
use crate::jwk::JwkThumbFields;
use crate::octets::{self, same_bytes, trim_leading_zeros};
use crate::validation::CsrErrorView;
use vstd::prelude::*;
use vstd::slice::slice_subrange;
use x509_parser::certification_request::X509CertificationRequest;
use x509_parser::extensions::{GeneralName, ParsedExtension};
use x509_parser::prelude::FromDer;
use x509_parser::public_key::PublicKey;

verus! {

/// A name of a subjectAltName extension
#[derive(Clone, Debug, PartialEq, Eq)]
pub enum AltName {
    /// A DNS name
    Dns(String),
    /// The octets of an IP address, however many they are
    Ip(Vec<u8>),
    /// The text of an otherName: a name of a type that only its object identifier tells, among
    /// them those of attestation
    OtherName(String),
    /// The text of a name of another type, which no ACME order authorizes
    Other(String),
}

/// An extension that a certification request asks for
#[derive(Clone, Debug, PartialEq, Eq)]
pub enum RequestedExtension {
    /// A subjectAltName extension, with its names
    SubjectAltName(Vec<AltName>),
    /// Any other extension
    Other,
}

/// A certification request at the start of some DER input
#[derive(Clone, Debug, PartialEq, Eq)]
pub struct CertificationRequest {
    /// How many bytes of the input follow the request
    pub trailing: usize,
    /// The extensions that it asks for, if it has an extension request attribute
    pub extensions: Option<Vec<RequestedExtension>>,
    /// The common names of its subject; `None` for one that is not a string
    pub common_names: Vec<Option<String>>,
}

/// The public key of a certification request
#[derive(Clone, Debug, PartialEq, Eq)]
pub struct SubjectKey {
    /// The contents of the bit string that holds the key
    pub bits: Vec<u8>,
    /// What the bit string says, for the key types that have a structure
    pub parsed: ParsedKey,
}

/// The structure of a public key
#[derive(Clone, Debug, PartialEq, Eq)]
pub enum ParsedKey {
    /// The encoded point of an elliptic curve key
    Ec(Vec<u8>),
    /// The integers of an RSA key, which may carry leading zeros
    Rsa {
        /// The modulus
        modulus: Vec<u8>,
        /// The public exponent
        exponent: Vec<u8>,
    },
    /// A key of another type, or one that could not be read
    Other,
}

/// An [`AltName`], with its text and octets.
pub enum AltNameView {
    Dns(Seq<char>),
    Ip(Seq<u8>),
    OtherName(Seq<char>),
    Other(Seq<char>),
}

/// A [`RequestedExtension`], with its names.
pub enum ExtensionView {
    SubjectAltName(Seq<AltNameView>),
    Other,
}

/// A [`CertificationRequest`], with its contents.
pub struct RequestView {
    pub trailing: nat,
    pub extensions: Option<Seq<ExtensionView>>,
    pub common_names: Seq<Option<Seq<char>>>,
}

/// A [`SubjectKey`], with its contents.
pub struct SubjectKeyView {
    pub bits: Seq<u8>,
    pub parsed: ParsedKeyView,
}

/// A [`ParsedKey`], with its contents.
pub enum ParsedKeyView {
    Ec(Seq<u8>),
    Rsa { modulus: Seq<u8>, exponent: Seq<u8> },
    Other,
}

impl View for AltName {
    type V = AltNameView;

    open spec fn view(&self) -> AltNameView {
        match self {
            AltName::Dns(name) => AltNameView::Dns(name@),
            AltName::Ip(octets) => AltNameView::Ip(octets@),
            AltName::OtherName(text) => AltNameView::OtherName(text@),
            AltName::Other(text) => AltNameView::Other(text@),
        }
    }
}

impl View for RequestedExtension {
    type V = ExtensionView;

    open spec fn view(&self) -> ExtensionView {
        match self {
            RequestedExtension::SubjectAltName(names) => ExtensionView::SubjectAltName(
                names@.map_values(|name: AltName| name@),
            ),
            RequestedExtension::Other => ExtensionView::Other,
        }
    }
}

impl View for CertificationRequest {
    type V = RequestView;

    open spec fn view(&self) -> RequestView {
        RequestView {
            trailing: self.trailing as nat,
            extensions: extension_views(self.extensions),
            common_names: self.common_names@.map_values(|name: Option<String>| optional_text(name)),
        }
    }
}

/// The contents of the extensions that a request asks for, if it has the attribute for them.
pub open spec fn extension_views(extensions: Option<Vec<RequestedExtension>>) -> Option<
    Seq<ExtensionView>,
> {
    match extensions {
        Some(extensions) => Some(
            extensions@.map_values(|extension: RequestedExtension| extension@),
        ),
        None => None,
    }
}

/// The text of an optional string.
pub open spec fn optional_text(text: Option<String>) -> Option<Seq<char>> {
    match text {
        Some(text) => Some(text@),
        None => None,
    }
}

impl View for ParsedKey {
    type V = ParsedKeyView;

    open spec fn view(&self) -> ParsedKeyView {
        match self {
            ParsedKey::Ec(point) => ParsedKeyView::Ec(point@),
            ParsedKey::Rsa { modulus, exponent } => ParsedKeyView::Rsa {
                modulus: modulus@,
                exponent: exponent@,
            },
            ParsedKey::Other => ParsedKeyView::Other,
        }
    }
}

impl View for SubjectKey {
    type V = SubjectKeyView;

    open spec fn view(&self) -> SubjectKeyView {
        SubjectKeyView { bits: self.bits@, parsed: self.parsed@ }
    }
}

/// How many bytes follow the certification request that x509-parser reads at the start of `der`,
/// and the extensions that the request asks for; `None` if x509-parser does not read one.
pub uninterp spec fn request_extensions(der: Seq<u8>) -> Option<(nat, Option<Seq<ExtensionView>>)>;

/// The common names that x509-parser reads out of the certification request `der`; `None` for
/// one that is not a string.
pub uninterp spec fn common_names(der: Seq<u8>) -> Seq<Option<Seq<char>>>;

/// The certification request that x509-parser reads at the start of `der`; `None` if it does not
/// read one.
pub open spec fn certification_request(der: Seq<u8>) -> Option<RequestView> {
    match request_extensions(der) {
        Some((trailing, extensions)) => Some(
            RequestView { trailing, extensions, common_names: common_names(der) },
        ),
        None => None,
    }
}

/// The public key that x509-parser reads out of the certification request `der`.
pub uninterp spec fn subject_key(der: Seq<u8>) -> SubjectKeyView;

/// Whether x509-parser verifies the signature of the certification request `der` with the public
/// key in it.
pub uninterp spec fn signature_verifies(der: Seq<u8>) -> bool;

/// The request that some DER input is, given what was read at its start: an error if nothing
/// was, and one if something follows it.
pub open spec fn complete_request(read: Option<RequestView>) -> Result<RequestView, CsrErrorView> {
    match read {
        None => Err(CsrErrorView::Parse("not a valid PKCS#10 certification request"@)),
        Some(request) => if request.trailing == 0 {
            Ok(request)
        } else {
            Err(CsrErrorView::Parse("trailing data after the certification request"@))
        },
    }
}

impl CertificationRequest {
    /// The request that some DER input is, given what was read at its start
    ///
    /// It is an error if nothing was read, and if something follows the request.
    pub fn complete(read: Option<CertificationRequest>) -> (request: Result<
        CertificationRequest,
        CsrError,
    >)
        ensures
            match request {
                Ok(request) => {
                    &&& read == Some(request)
                    &&& complete_request(Some(request@)) == Ok::<RequestView, CsrErrorView>(
                        request@,
                    )
                },
                Err(err) => complete_request(
                    match read {
                        Some(request) => Some(request@),
                        None => None,
                    },
                ) == Err::<RequestView, CsrErrorView>(err@),
            },
    {
        match read {
            None => Err(CsrError::Parse("not a valid PKCS#10 certification request")),
            Some(request) => if request.trailing == 0 {
                Ok(request)
            } else {
                Err(CsrError::Parse("trailing data after the certification request"))
            },
        }
    }
}

/// A point of an elliptic curve in uncompressed form: a 4 and both coordinates.
pub open spec fn uncompressed_point(x: Seq<u8>, y: Seq<u8>) -> Seq<u8> {
    seq![4u8] + x + y
}

/// A point of an elliptic curve over a prime field in compressed form: a 2 or a 3, as the second
/// coordinate is even or odd, and the first coordinate.
pub open spec fn compressed_point(x: Seq<u8>, y: Seq<u8>) -> Seq<u8>
    recommends
        y.len() > 0,
{
    seq![
        if y.last() % 2 == 1 {
            3u8
        } else {
            2u8
        },
    ] + x
}

/// Whether a point is in uncompressed form and has these coordinates.
fn is_uncompressed(point: &[u8], x: &[u8], y: &[u8]) -> (is: bool)
    ensures
        is == (point@ == uncompressed_point(x@, y@)),
{
    if point.len() == 0 || point.len() - 1 < x.len() || point.len() - 1 - x.len() != y.len() {
        assert(uncompressed_point(x@, y@).len() == 1 + x@.len() + y@.len());
        return false;
    }
    let split = 1 + x.len();
    let first = slice_subrange(point, 1, split);
    let second = slice_subrange(point, split, point.len());
    proof {
        let whole = uncompressed_point(x@, y@);
        assert(point@ =~= seq![point@[0]] + first@ + second@);
        assert(whole[0] == 4);
        assert(whole.subrange(1, split as int) =~= x@);
        assert(whole.subrange(split as int, point@.len() as int) =~= y@);
    }
    point[0] == 0x04 && same_bytes(first, x) && same_bytes(second, y)
}

/// Whether a point is in compressed form and has these coordinates.
fn is_compressed(point: &[u8], x: &[u8], y: &[u8]) -> (is: bool)
    ensures
        is == (y@.len() > 0 && point@ == compressed_point(x@, y@)),
{
    if y.len() == 0 {
        return false;
    }
    if point.len() == 0 {
        assert(compressed_point(x@, y@).len() == 1 + x@.len());
        return false;
    }
    let tag: u8 = if y[y.len() - 1] % 2 == 1 {
        0x03
    } else {
        0x02
    };
    let rest = slice_subrange(point, 1, point.len());
    proof {
        let whole = compressed_point(x@, y@);
        assert(point@ =~= seq![point@[0]] + rest@);
        assert(whole[0] == tag);
        assert(whole.subrange(1, whole.len() as int) =~= x@);
    }
    point[0] == tag && same_bytes(rest, x)
}

impl SubjectKeyView {
    /// Whether this is the public key that the JWK parameters `key` describe: the point of their
    /// coordinates in either form, the very bit string, or the same two integers.
    pub open spec fn is_key(self, key: JwkThumbFields<'_>) -> bool {
        match key {
            JwkThumbFields::Ec { crv: _, x, y } => {
                ||| self.parsed == ParsedKeyView::Ec(uncompressed_point(x@, y@))
                ||| y@.len() > 0 && self.parsed == ParsedKeyView::Ec(compressed_point(x@, y@))
            },
            JwkThumbFields::Okp { crv: _, x } => self.bits == x@,
            JwkThumbFields::Rsa { e, n } => self.parsed matches ParsedKeyView::Rsa {
                modulus,
                exponent,
            } && octets::trimmed(modulus) == octets::trimmed(n@) && octets::trimmed(exponent)
                == octets::trimmed(e@),
        }
    }
}

impl SubjectKey {
    /// Whether this is the public key that the JWK parameters `key` describe
    ///
    /// An elliptic curve key is one if it is the point with their coordinates, in uncompressed or
    /// in compressed form, an octet key if it is the same bit string, and an RSA key if it has
    /// the same modulus and exponent.
    pub fn is_key(&self, key: &JwkThumbFields<'_>) -> (same: bool)
        ensures
            same == self@.is_key(*key),
    {
        match (key, &self.parsed) {
            (JwkThumbFields::Ec { crv: _, x, y }, ParsedKey::Ec(point)) => {
                // 0x04 || X || Y, or the parity of Y and X.
                is_uncompressed(point.as_slice(), x, y) || is_compressed(point.as_slice(), x, y)
            },
            // Ed25519 and friends: the key is the bit string, with no further structure.
            (JwkThumbFields::Okp { crv: _, x }, _) => same_bytes(self.bits.as_slice(), x),
            (JwkThumbFields::Rsa { e, n }, ParsedKey::Rsa { modulus, exponent }) => {
                same_bytes(trim_leading_zeros(modulus.as_slice()), trim_leading_zeros(n))
                    && same_bytes(trim_leading_zeros(exponent.as_slice()), trim_leading_zeros(e))
            },
            _ => false,
        }
    }
}

/// Read the certification request at the start of `der`; `None` if there is none.
pub(crate) fn read_request(der: &[u8]) -> (request: Option<CertificationRequest>)
    ensures
        match request {
            Some(request) => certification_request(der@) == Some(request@),
            None => certification_request(der@) is None,
        },
{
    match read_extensions(der) {
        Some((trailing, extensions)) => Some(
            CertificationRequest { trailing, extensions, common_names: read_common_names(der) },
        ),
        None => None,
    }
}

/// `X509CertificationRequest::from_der`, with the extensions that `requested_extensions` gives of
/// its result: how many bytes follow the request at the start of `der`, and the extensions that
/// the request asks for; or `None` where from_der fails. A subjectAltName value that is neither a
/// DNS name nor an IP address is the text that the `Display` of `GeneralName` gives of it, which
/// takes time quadratic in the length of a component of an object identifier.
#[verifier::external_body]
fn read_extensions(der: &[u8]) -> (read: Option<(usize, Option<Vec<RequestedExtension>>)>)
    ensures
        match read {
            Some((trailing, extensions)) => request_extensions(der@) == Some(
                (trailing as nat, extension_views(extensions)),
            ),
            None => request_extensions(der@) is None,
        },
{
    let (rest, request) = X509CertificationRequest::from_der(der).ok()?;
    let extensions = request.requested_extensions().map(|all| all.map(|extension| match extension {
        ParsedExtension::SubjectAlternativeName(san) => RequestedExtension::SubjectAltName(san.general_names.iter().map(|name| match name {
            GeneralName::DNSName(name) => AltName::Dns(name.to_string()),
            GeneralName::IPAddress(octets) => AltName::Ip(octets.to_vec()),
            GeneralName::OtherName(..) => AltName::OtherName(name.to_string()),
            _ => AltName::Other(name.to_string()),
        }).collect()),
        _ => RequestedExtension::Other,
    }).collect());
    Some((rest.len(), extensions))
}

/// `X509Name::iter_common_name` on the subject of the request that
/// `X509CertificationRequest::from_der` reads, with `as_str` on each attribute: the common names,
/// and `None` for one that is not a string.
#[verifier::external_body]
fn read_common_names(der: &[u8]) -> (names: Vec<Option<String>>)
    requires
        request_extensions(der@) is Some,
    ensures
        names@.map_values(|name: Option<String>| optional_text(name)) == common_names(der@),
{
    let (_, request) = X509CertificationRequest::from_der(der).unwrap();
    request.certification_request_info.subject.iter_common_name().map(|name| name.as_str().ok().map(str::to_owned)).collect()
}

/// `SubjectPublicKeyInfo::parsed` on the request that `X509CertificationRequest::from_der` reads:
/// its public key, as the raw bit string and in the form that x509-parser makes of it.
#[verifier::external_body]
pub(crate) fn read_subject_key(der: &[u8]) -> (key: SubjectKey)
    requires
        certification_request(der@) is Some,
    ensures
        key@ == subject_key(der@),
{
    let (_, request) = X509CertificationRequest::from_der(der).unwrap();
    let spki = &request.certification_request_info.subject_pki;
    let parsed = match spki.parsed() {
        Ok(PublicKey::EC(point)) => ParsedKey::Ec(point.data().to_vec()),
        Ok(PublicKey::RSA(rsa)) => ParsedKey::Rsa { modulus: rsa.modulus.to_vec(), exponent: rsa.exponent.to_vec() },
        _ => ParsedKey::Other,
    };
    SubjectKey { bits: spki.subject_public_key.data.to_vec(), parsed }
}

/// `X509CertificationRequest::verify_signature` on the request that
/// `X509CertificationRequest::from_der` reads: whether the signature verifies.
#[verifier::external_body]
pub(crate) fn verify_signature(der: &[u8]) -> (verifies: bool)
    requires
        certification_request(der@) is Some,
    ensures
        verifies == signature_verifies(der@),
{
    let (_, request) = X509CertificationRequest::from_der(der).unwrap();
    request.verify_signature().is_ok()
}

/// An RSA key is compared by the values of its integers: leading zeros neither hide that two keys
/// are the same nor make them so.
pub proof fn law_rsa_keys_compare_as_integers(
    subject: SubjectKeyView,
    modulus: Seq<u8>,
    exponent: Seq<u8>,
    e: &[u8],
    n: &[u8],
)
    requires
        subject.parsed == (ParsedKeyView::Rsa { modulus, exponent }),
    ensures
        subject.is_key(JwkThumbFields::Rsa { e, n }) <==> octets::integer(modulus)
            == octets::integer(n@) && octets::integer(exponent) == octets::integer(e@),
{
    octets::law_trimmed_compares_integers(modulus, n@);
    octets::law_trimmed_compares_integers(exponent, e@);
}

/// A public key is found to be that of an account only if it is of the account key's type: an
/// elliptic curve key or an RSA key that was read as such.
pub proof fn law_key_types_do_not_mix(subject: SubjectKeyView, key: JwkThumbFields<'_>)
    requires
        subject.is_key(key),
    ensures
        key is Ec ==> subject.parsed is Ec,
        key is Rsa ==> subject.parsed is Rsa,
{
}

/// What the two forms of a point are, byte by byte.
pub(crate) proof fn lemma_points(point: Seq<u8>, x: Seq<u8>, y: Seq<u8>)
    ensures
        point == uncompressed_point(x, y) <==> {
            &&& point.len() == 1 + x.len() + y.len()
            &&& point[0] == 4
            &&& point.subrange(1, 1 + x.len() as int) == x
            &&& point.skip(1 + x.len() as int) == y
        },
        y.len() > 0 ==> (point == compressed_point(x, y) <==> {
            &&& point.len() == 1 + x.len()
            &&& point[0] == 2 + y[y.len() - 1] % 2
            &&& point.skip(1) == x
        }),
{
    let whole = uncompressed_point(x, y);
    let split = 1 + x.len() as int;
    assert(whole.subrange(1, split) =~= x);
    assert(whole.skip(split) =~= y);
    if point.len() == whole.len() && point[0] == 4 && point.subrange(1, split) == x && point.skip(
        split,
    ) == y {
        assert(point =~= seq![point[0]] + point.subrange(1, split) + point.skip(split));
    }
    if y.len() > 0 {
        let short = compressed_point(x, y);
        assert(short.skip(1) =~= x);
        if point.len() == short.len() && point[0] == short[0] && point.skip(1) == x {
            assert(point =~= seq![point[0]] + point.skip(1));
        }
    }
}

/// A public key is the one that JWK parameters describe exactly if it is of their type and has
/// their parameters: the point of their coordinates in one of its two forms, the very bit string,
/// or integers of the same values.
pub proof fn law_key_is_its_parameters(
    subject: &SubjectKey,
    key: &JwkThumbFields<'_>,
    same: bool,
)
    requires
        call_ensures(SubjectKey::is_key, (subject, key), same),
    ensures
        same <==> match (*key, subject.parsed) {
            (JwkThumbFields::Ec { crv: _, x, y }, ParsedKey::Ec(point)) => {
                ||| {
                    &&& point@.len() == 1 + x@.len() + y@.len()
                    &&& point@[0] == 4
                    &&& point@.subrange(1, 1 + x@.len() as int) == x@
                    &&& point@.skip(1 + x@.len() as int) == y@
                }
                ||| {
                    &&& y@.len() > 0
                    &&& point@.len() == 1 + x@.len()
                    &&& point@[0] == 2 + y@[y@.len() - 1] % 2
                    &&& point@.skip(1) == x@
                }
            },
            (JwkThumbFields::Okp { crv: _, x }, _) => subject.bits@ == x@,
            (JwkThumbFields::Rsa { e, n }, ParsedKey::Rsa { modulus, exponent }) => {
                &&& octets::integer(modulus@) == octets::integer(n@)
                &&& octets::integer(exponent@) == octets::integer(e@)
            },
            _ => false,
        },
{
    match (*key, subject.parsed) {
        (JwkThumbFields::Ec { crv: _, x, y }, ParsedKey::Ec(point)) => {
            lemma_points(point@, x@, y@);
        },
        (JwkThumbFields::Rsa { e, n }, ParsedKey::Rsa { modulus, exponent }) => {
            law_rsa_keys_compare_as_integers(subject@, modulus@, exponent@, e, n);
        },
        _ => {},
    }
}

/// A request is complete exactly if it was read and nothing follows it, and is then the request
/// that was read.
pub proof fn law_complete_requests(
    read: Option<CertificationRequest>,
    result: Result<CertificationRequest, CsrError>,
)
    requires
        call_ensures(CertificationRequest::complete, (read,), result),
    ensures
        match read {
            None => result matches Err(CsrError::Parse(what)) && what@
                == "not a valid PKCS#10 certification request"@,
            Some(request) => if request.trailing > 0 {
                result matches Err(CsrError::Parse(what)) && what@
                    == "trailing data after the certification request"@
            } else {
                result == Ok::<CertificationRequest, CsrError>(request)
            },
        },
{
}

} // verus!
