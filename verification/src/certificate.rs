//! Certificates: how one is identified for renewal, and how it is revoked.

use crate::base64url::{self, encode};
use crate::text::split_once;
use std::borrow::Cow;
use vstd::prelude::*;
use x509_parser::extensions::ParsedExtension;
use x509_parser::parse_x509_certificate;

verus! {

/// A unique certificate identifier for the ACME renewal information (ARI) extension
///
/// See <https://www.rfc-editor.org/rfc/rfc9773.html#section-4.1> for
/// more information.
#[derive(Debug, PartialEq, Eq)]
pub struct CertificateIdentifier<'a> {
    /// The BASE64URL-encoded authority key identifier (AKI) extension `keyIdentifier` of the certificate
    pub authority_key_identifier: Cow<'a, str>,
    /// The BASE64URL-encoded serial number of the certificate
    pub serial: Cow<'a, str>,
}

/// What a [`CertificateIdentifier`] is: its two parts.
impl View for CertificateIdentifier<'_> {
    type V = (Seq<char>, Seq<char>);

    open spec fn view(&self) -> (Seq<char>, Seq<char>) {
        (self.authority_key_identifier@, self.serial@)
    }
}

/// The text of an identifier: its two parts, with a dot between them.
pub open spec fn identifier_text(parts: (Seq<char>, Seq<char>)) -> Seq<char> {
    parts.0.push('.') + parts.1
}

/// Neither part of an identifier holds a dot.
pub open spec fn is_delimited(parts: (Seq<char>, Seq<char>)) -> bool {
    !parts.0.contains('.') && !parts.1.contains('.')
}

/// `text` holds more than one dot.
pub open spec fn has_two_dots(text: Seq<char>) -> bool {
    exists|i: int, j: int|
        0 <= i < j < text.len() && #[trigger] text[i] == '.' && #[trigger] text[j] == '.'
}

/// The identifier that a text is, or what was expected in its place.
pub open spec fn parsed_identifier(text: Seq<char>) -> Result<(Seq<char>, Seq<char>), Seq<char>> {
    if !text.contains('.') {
        Err("a string containing 2 '.'-delimited parts"@)
    } else if has_two_dots(text) {
        Err("only one '.' delimiter should be present"@)
    } else {
        let dot = text.index_of('.');
        Ok((text.take(dot), text.skip(dot + 1)))
    }
}

fn text_of<'b>(text: &'b Cow<'_, str>) -> (s: &'b str)
    ensures
        s@ == text@,
{
    match text {
        Cow::Borrowed(text) => text,
        Cow::Owned(text) => text.as_str(),
    }
}

fn into_text(text: Cow<'_, str>) -> (s: String)
    ensures
        s@ == text@,
{
    match text {
        Cow::Borrowed(text) => text.to_owned(),
        Cow::Owned(text) => text,
    }
}

/// A copy of a text, which borrows what the text borrows.
fn copy_of<'a>(text: &Cow<'a, str>) -> (copy: Cow<'a, str>)
    ensures
        copy@ == text@,
        copy is Borrowed == text is Borrowed,
{
    match text {
        Cow::Borrowed(text) => Cow::Borrowed(text),
        Cow::Owned(text) => Cow::Owned(text.clone()),
    }
}

impl<'a> Clone for CertificateIdentifier<'a> {
    fn clone(&self) -> (copy: CertificateIdentifier<'a>)
        ensures
            copy@ == self@,
            copy.authority_key_identifier is Borrowed == self.authority_key_identifier is Borrowed,
            copy.serial is Borrowed == self.serial is Borrowed,
    {
        CertificateIdentifier {
            authority_key_identifier: copy_of(&self.authority_key_identifier),
            serial: copy_of(&self.serial),
        }
    }
}

impl<'a> CertificateIdentifier<'a> {
    /// Whether the identifier owns both of its parts.
    pub open spec fn is_owned(self) -> bool {
        self.authority_key_identifier is Owned && self.serial is Owned
    }

    /// Encode a unique certificate identifier using the provided authority key ID and serial
    ///
    /// `authority_key_identifier` must be the DER-encoded ASN.1 octet string from the
    /// `keyIdentifier` field of the `AuthorityKeyIdentifier` extension found in the certificate
    /// to be identified.
    ///
    /// `serial` must be the DER-encoded ASN.1 serial number from the certificate to be identified.
    /// Care must be taken to use the **encoded** serial number, not a big integer representation.
    ///
    /// The combination uniquely identifies a certificate within all certificates issued by the
    /// same CA.
    ///
    /// See [RFC 5280 4.1.2.2], [RFC 5280 4.2.1.1], and [RFC 9773 4.1]
    ///
    /// [RFC 5280 4.1.2.2]: https://www.rfc-editor.org/rfc/rfc5280#section-4.1.2.2
    /// [RFC 5280 4.2.1.1]: https://www.rfc-editor.org/rfc/rfc5280#section-4.2.1.1
    /// [RFC 9773 4.1]: https://www.rfc-editor.org/rfc/rfc9773.html#section-4.1
    pub fn new(authority_key_identifier: &[u8], serial: &[u8]) -> (identifier: Self)
        requires
            base64url::encodable(authority_key_identifier@.len()),
            base64url::encodable(serial@.len()),
        ensures
            identifier@ == (
                base64url::base64url(authority_key_identifier@),
                base64url::base64url(serial@),
            ),
            identifier.is_owned(),
    {
        CertificateIdentifier {
            authority_key_identifier: Cow::Owned(encode(authority_key_identifier)),
            serial: Cow::Owned(encode(serial)),
        }
    }

    /// Convert the `CertificateIdentifier` into an owned version with a static lifetime
    pub fn into_owned(self) -> (owned: CertificateIdentifier<'static>)
        ensures
            owned@ == self@,
            owned.is_owned(),
    {
        CertificateIdentifier {
            authority_key_identifier: Cow::Owned(into_text(self.authority_key_identifier)),
            serial: Cow::Owned(into_text(self.serial)),
        }
    }

    /// Read an identifier from its text, which must hold exactly one dot
    ///
    /// The error says what was expected in place of the text.
    pub fn parse(text: &'a str) -> (identifier: Result<CertificateIdentifier<'a>, &'static str>)
        ensures
            match identifier {
                Ok(identifier) => {
                    &&& parsed_identifier(text@) == Ok::<(Seq<char>, Seq<char>), Seq<char>>(
                        identifier@,
                    )
                    &&& identifier.authority_key_identifier is Borrowed
                    &&& identifier.serial is Borrowed
                },
                Err(expected) => parsed_identifier(text@) == Err::<
                    (Seq<char>, Seq<char>),
                    Seq<char>,
                >(expected@),
            },
    {
        let (aki, serial) = match split_once(text, '.') {
            Some(parts) => parts,
            None => {
                return Err("a string containing 2 '.'-delimited parts");
            },
        };
        proof {
            lemma_first_dot(text@, aki@, serial@);
        }
        if let Some((first, _)) = split_once(serial, '.') {
            assert(serial@[first@.len() as int] == '.');
            return Err("only one '.' delimiter should be present");
        }
        Ok(
            CertificateIdentifier {
                authority_key_identifier: Cow::Borrowed(aki),
                serial: Cow::Borrowed(serial),
            },
        )
    }

    /// Read an identifier that may be missing, and keep it for as long as needed
    pub fn parse_optional(text: Option<&str>) -> (identifier: Result<
        Option<CertificateIdentifier<'static>>,
        &'static str,
    >)
        ensures
            match (text, identifier) {
                (None, identifier) => identifier == Ok::<
                    Option<CertificateIdentifier<'static>>,
                    &'static str,
                >(None),
                (Some(text), Ok(identifier)) => identifier matches Some(identifier)
                    && identifier.is_owned() && parsed_identifier(text@) == Ok::<
                    (Seq<char>, Seq<char>),
                    Seq<char>,
                >(identifier@),
                (Some(text), Err(expected)) => parsed_identifier(text@) == Err::<
                    (Seq<char>, Seq<char>),
                    Seq<char>,
                >(expected@),
            },
    {
        match text {
            None => Ok(None),
            Some(text) => match CertificateIdentifier::parse(text) {
                Ok(identifier) => Ok(Some(identifier.into_owned())),
                Err(expected) => Err(expected),
            },
        }
    }

    /// The identifier of the certificate that was read from some input
    ///
    /// The certificate must have an authority key identifier extension that holds a key
    /// identifier; the first that does is taken.
    pub fn identify(read: Result<Certificate, String>) -> (identifier: Result<Self, String>)
        requires
            read matches Ok(certificate) ==> certificate@.encodable(),
        ensures
            match read {
                Ok(certificate) => identified(Ok(certificate@)),
                Err(err) => identified(Err(err@)),
            } == match identifier {
                Ok(identifier) => Ok::<(Seq<char>, Seq<char>), Seq<char>>(identifier@),
                Err(err) => Err(err@),
            },
            identifier matches Ok(identifier) ==> identifier.is_owned(),
    {
        let certificate = match read {
            Ok(certificate) => certificate,
            Err(err) => {
                let mut message = "failed to parse certificate: ".to_owned();
                message.append(err.as_str());
                return Err(message);
            },
        };
        match certificate.authority_key_identifier() {
            Some(authority_key_identifier) => Ok(
                CertificateIdentifier::new(
                    authority_key_identifier,
                    certificate.serial.as_slice(),
                ),
            ),
            None => Err(
                "certificate does not contain an Authority Key Identifier (AKI) extension".to_owned(),
            ),
        }
    }

    /// The identifier of a certificate in DER encoding
    pub fn try_from(cert: &[u8]) -> (identifier: Result<Self, String>)
        requires
            base64url::encodable(cert@.len()),
        ensures
            identified(certificate(cert@)) == match identifier {
                Ok(identifier) => Ok::<(Seq<char>, Seq<char>), Seq<char>>(identifier@),
                Err(err) => Err(err@),
            },
            identifier matches Ok(identifier) ==> identifier.is_owned(),
    {
        CertificateIdentifier::identify(read_certificate(cert))
    }

    /// The identifier as text: its two parts, with a dot between them
    pub fn to_string(&self) -> (text: String)
        ensures
            text@ == identifier_text(self@),
    {
        let mut text = text_of(&self.authority_key_identifier).to_owned();
        text.push('.');
        text.append(text_of(&self.serial));
        text
    }
}

/// What identifies a certificate
#[derive(Clone, Debug, PartialEq, Eq)]
pub struct Certificate {
    /// For each extension, the key identifier in it if it is an authority key identifier
    /// extension that holds one
    pub key_identifiers: Vec<Option<Vec<u8>>>,
    /// The contents of the DER-encoded serial number
    pub serial: Vec<u8>,
}

/// A [`Certificate`], with its contents.
pub struct CertificateView {
    pub key_identifiers: Seq<Option<Seq<u8>>>,
    pub serial: Seq<u8>,
}

/// The bytes of an optional key identifier.
pub open spec fn optional_bytes(bytes: Option<Vec<u8>>) -> Option<Seq<u8>> {
    match bytes {
        Some(bytes) => Some(bytes@),
        None => None,
    }
}

impl View for Certificate {
    type V = CertificateView;

    open spec fn view(&self) -> CertificateView {
        CertificateView {
            key_identifiers: self.key_identifiers@.map_values(
                |bytes: Option<Vec<u8>>| optional_bytes(bytes),
            ),
            serial: self.serial@,
        }
    }
}

/// The first of some optional key identifiers that is there.
pub open spec fn first_key_identifier(key_identifiers: Seq<Option<Seq<u8>>>) -> Option<Seq<u8>>
    decreases key_identifiers.len(),
{
    if key_identifiers.len() == 0 {
        None
    } else if key_identifiers[0] is Some {
        key_identifiers[0]
    } else {
        first_key_identifier(key_identifiers.drop_first())
    }
}

impl CertificateView {
    /// The base64url texts of the serial and of the key identifiers fit in memory.
    pub open spec fn encodable(self) -> bool {
        &&& base64url::encodable(self.serial.len())
        &&& forall|i: int|
            0 <= i < self.key_identifiers.len() && (#[trigger] self.key_identifiers[i]) is Some
                ==> base64url::encodable(self.key_identifiers[i]->0.len())
    }
}

/// The identifier of a certificate, given what was read of it; or why it has none.
pub open spec fn identified(read: Result<CertificateView, Seq<char>>) -> Result<
    (Seq<char>, Seq<char>),
    Seq<char>,
> {
    match read {
        Err(err) => Err("failed to parse certificate: "@ + err),
        Ok(certificate) => match first_key_identifier(certificate.key_identifiers) {
            None => Err(
                "certificate does not contain an Authority Key Identifier (AKI) extension"@,
            ),
            Some(key_identifier) => Ok(
                (base64url::base64url(key_identifier), base64url::base64url(certificate.serial)),
            ),
        },
    }
}

impl Certificate {
    /// The authority key identifier of the certificate
    pub fn authority_key_identifier(&self) -> (key_identifier: Option<&[u8]>)
        ensures
            match key_identifier {
                Some(bytes) => first_key_identifier(self@.key_identifiers) == Some(bytes@)
                    && self@.key_identifiers.contains(Some(bytes@)),
                None => first_key_identifier(self@.key_identifiers) is None,
            },
    {
        let mut i: usize = 0;
        assert(self@.key_identifiers.skip(0) =~= self@.key_identifiers);
        while i < self.key_identifiers.len()
            invariant
                i <= self.key_identifiers.len(),
                first_key_identifier(self@.key_identifiers) == first_key_identifier(
                    self@.key_identifiers.skip(i as int),
                ),
            decreases self.key_identifiers.len() - i,
        {
            let ghost rest = self@.key_identifiers.skip(i as int);
            assert(rest[0] == self@.key_identifiers[i as int]);
            assert(rest.drop_first() =~= self@.key_identifiers.skip(i + 1));
            if let Some(bytes) = &self.key_identifiers[i] {
                return Some(bytes.as_slice());
            }
            i += 1;
        }
        None
    }
}

/// The certificate that x509-parser reads at the start of `der`, or the text of the error that it
/// gives.
pub uninterp spec fn certificate(der: Seq<u8>) -> Result<CertificateView, Seq<char>>;

/// `parse_x509_certificate`, with the parsed extensions that `iter_extensions` and the serial
/// that `raw_serial` give of its result. The error is its text. What it reads it borrows from
/// `der`, so that neither the serial nor a key identifier is longer than that.
#[verifier::external_body]
fn read_certificate(der: &[u8]) -> (read: Result<Certificate, String>)
    ensures
        match read {
            Ok(read) => certificate(der@) == Ok::<CertificateView, Seq<char>>(read@),
            Err(err) => certificate(der@) == Err::<CertificateView, Seq<char>>(err@),
        },
        read matches Ok(found) ==> found@.serial.len() <= der@.len() && forall|i: int|
            0 <= i < found@.key_identifiers.len() && (#[trigger] found@.key_identifiers[i]) is Some
                ==> found@.key_identifiers[i]->0.len() <= der@.len(),
{
    let (_, certificate) = parse_x509_certificate(der).map_err(|err| err.to_string())?;
    let key_identifiers = certificate.iter_extensions().map(|extension| match extension.parsed_extension() {
        ParsedExtension::AuthorityKeyIdentifier(aki) => aki.key_identifier.as_ref().map(|id| id.0.to_vec()),
        _ => None,
    }).collect();
    Ok(Certificate { key_identifiers, serial: certificate.tbs_certificate.raw_serial().to_vec() })
}

/// Payload for a certificate revocation request
///
/// Defined in <https://datatracker.ietf.org/doc/html/rfc8555#section-7.6>
#[derive(Debug)]
pub struct RevocationRequest<'a> {
    /// The certificate to revoke, in DER encoding
    pub certificate: &'a [u8],
    /// Reason for revocation
    pub reason: Option<RevocationReason>,
}

/// The reason for a certificate revocation
///
/// Defined in <https://datatracker.ietf.org/doc/html/rfc5280#section-5.3.1>
#[derive(Debug, Clone)]
pub enum RevocationReason {
    /// No reason is given
    Unspecified,
    /// The key of the certificate was compromised
    KeyCompromise,
    /// The key of the issuer was compromised
    CaCompromise,
    /// The subject's name or other information has changed
    AffiliationChanged,
    /// The certificate was replaced by another
    Superseded,
    /// The certificate is no longer needed
    CessationOfOperation,
    /// The certificate is on hold
    CertificateHold,
    /// The certificate is taken off the revocation list
    RemoveFromCrl,
    /// A privilege in the certificate was withdrawn
    PrivilegeWithdrawn,
    /// The key of an attribute authority was compromised
    AaCompromise,
}

impl RevocationReason {
    /// The number by which RFC 5280 calls the reason.
    pub open spec fn spec_code(self) -> u8 {
        match self {
            RevocationReason::Unspecified => 0,
            RevocationReason::KeyCompromise => 1,
            RevocationReason::CaCompromise => 2,
            RevocationReason::AffiliationChanged => 3,
            RevocationReason::Superseded => 4,
            RevocationReason::CessationOfOperation => 5,
            RevocationReason::CertificateHold => 6,
            RevocationReason::RemoveFromCrl => 8,
            RevocationReason::PrivilegeWithdrawn => 9,
            RevocationReason::AaCompromise => 10,
        }
    }

    /// The number by which RFC 5280 calls the reason
    pub fn code(&self) -> (code: u8)
        ensures
            code == self.spec_code(),
    {
        match self {
            RevocationReason::Unspecified => 0,
            RevocationReason::KeyCompromise => 1,
            RevocationReason::CaCompromise => 2,
            RevocationReason::AffiliationChanged => 3,
            RevocationReason::Superseded => 4,
            RevocationReason::CessationOfOperation => 5,
            RevocationReason::CertificateHold => 6,
            RevocationReason::RemoveFromCrl => 8,
            RevocationReason::PrivilegeWithdrawn => 9,
            RevocationReason::AaCompromise => 10,
        }
    }
}

/// The members of a revocation request's JSON object
#[derive(Debug, PartialEq, Eq)]
pub struct RevocationPayload {
    /// The certificate in base64url
    pub certificate: String,
    /// The number of the reason; the member is left out without one
    pub reason: Option<u8>,
}

impl RevocationRequest<'_> {
    /// The members of the JSON object that asks for the revocation
    pub fn payload(&self) -> (payload: RevocationPayload)
        requires
            base64url::encodable(self.certificate@.len()),
        ensures
            payload.certificate@ == base64url::base64url(self.certificate@),
            payload.reason == match self.reason {
                Some(reason) => Some(reason.spec_code()),
                None => None,
            },
    {
        RevocationPayload {
            certificate: encode(self.certificate),
            reason: match &self.reason {
                Some(reason) => Some(reason.code()),
                None => None,
            },
        }
    }
}

/// Two reasons with one number are the same reason.
pub proof fn law_reasons_have_different_codes(a: RevocationReason, b: RevocationReason)
    requires
        a.spec_code() == b.spec_code(),
    ensures
        a == b,
{
}

/// What is read from the text of an identifier is that identifier, if neither of its parts holds
/// a dot.
pub proof fn law_parse_inverts_text(parts: (Seq<char>, Seq<char>))
    requires
        is_delimited(parts),
    ensures
        parsed_identifier(identifier_text(parts)) == Ok::<(Seq<char>, Seq<char>), Seq<char>>(parts),
{
    lemma_first_dot(identifier_text(parts), parts.0, parts.1);
}

/// The text of what was read from a text is that text, and its parts hold no dot.
pub proof fn law_text_inverts_parse(text: Seq<char>)
    requires
        parsed_identifier(text) is Ok,
    ensures
        identifier_text(parsed_identifier(text)->Ok_0) == text,
        is_delimited(parsed_identifier(text)->Ok_0),
{
    let dot = text.index_of('.');
    let (before, after) = (text.take(dot), text.skip(dot + 1));
    assert(text[dot] == '.');
    assert(before.push('.') + after =~= text);
    if before.contains('.') {
        assert(text[before.index_of('.')] == '.');
    }
    if after.contains('.') {
        assert(text[dot + 1 + after.index_of('.')] == '.');
    }
}

/// An identifier is read from a text exactly if the text holds one dot.
pub proof fn law_parse_takes_one_dot(text: Seq<char>)
    ensures
        parsed_identifier(text) is Ok <==> exists|dot: int|
            0 <= dot < text.len() && text[dot] == '.' && forall|i: int|
                0 <= i < text.len() && #[trigger] text[i] == '.' ==> i == dot,
{
    if parsed_identifier(text) is Ok {
        let dot = text.index_of('.');
        assert(text[dot] == '.');
        assert forall|i: int| 0 <= i < text.len() && #[trigger] text[i] == '.' implies i == dot by {
            if i < dot {
                assert(text[i] == '.' && text[dot] == '.');
            }
        }
    }
}

/// An identifier that is encoded from a key identifier and a serial holds no dot in its parts, so
/// that it is read back from its text; and the text tells the two apart from any others.
pub proof fn law_encoded_identifier_is_unique(
    key_identifier: Seq<u8>,
    serial: Seq<u8>,
    other_key_identifier: Seq<u8>,
    other_serial: Seq<u8>,
)
    ensures
        is_delimited((base64url::base64url(key_identifier), base64url::base64url(serial))),
        identifier_text((base64url::base64url(key_identifier), base64url::base64url(serial)))
            == identifier_text(
            (base64url::base64url(other_key_identifier), base64url::base64url(other_serial)),
        ) ==> key_identifier == other_key_identifier && serial == other_serial,
{
    let parts = (base64url::base64url(key_identifier), base64url::base64url(serial));
    let others = (base64url::base64url(other_key_identifier), base64url::base64url(other_serial));
    base64url::law_encoding_is_url_safe(key_identifier);
    base64url::law_encoding_is_url_safe(serial);
    base64url::law_encoding_is_url_safe(other_key_identifier);
    base64url::law_encoding_is_url_safe(other_serial);
    assert(is_delimited(parts) && is_delimited(others));
    if identifier_text(parts) == identifier_text(others) {
        law_parse_inverts_text(parts);
        law_parse_inverts_text(others);
        base64url::law_encoding_is_injective(key_identifier, other_key_identifier);
        base64url::law_encoding_is_injective(serial, other_serial);
    }
}

/// The identifier of a certificate is read back from its text.
pub proof fn law_certificate_identifier_is_read_back(read: Result<CertificateView, Seq<char>>)
    requires
        identified(read) is Ok,
    ensures
        parsed_identifier(identifier_text(identified(read)->Ok_0)) == identified(read),
{
    let certificate = read->Ok_0;
    let key_identifier = first_key_identifier(certificate.key_identifiers)->0;
    law_encoded_identifier_is_unique(
        key_identifier,
        certificate.serial,
        key_identifier,
        certificate.serial,
    );
    law_parse_inverts_text(identified(read)->Ok_0);
}

/// What stands before and after the first dot of a text, and whether there is a second.
proof fn lemma_first_dot(text: Seq<char>, before: Seq<char>, after: Seq<char>)
    requires
        text == before.push('.') + after,
        !before.contains('.'),
    ensures
        text.contains('.'),
        !has_two_dots(text) ==> text.index_of('.') == before.len(),
        text.take(before.len() as int) == before,
        text.skip(before.len() as int + 1) == after,
        has_two_dots(text) <==> after.contains('.'),
{
    let dot = before.len() as int;
    assert(text[dot] == '.');
    assert forall|i: int| 0 <= i < text.len() && text[i] == '.' && i != dot implies i > dot by {
        if i < dot {
            assert(before[i] == '.');
        }
    }
    assert(text.take(dot) =~= before);
    assert(text.skip(dot + 1) =~= after);
    if after.contains('.') {
        let i = after.index_of('.');
        assert(text[dot + 1 + i] == '.');
    }
    if has_two_dots(text) {
        let (i, j) = choose|i: int, j: int|
            0 <= i < j < text.len() && #[trigger] text[i] == '.' && #[trigger] text[j] == '.';
        assert(j > dot);
        assert(after[j - dot - 1] == '.');
    }
}

proof fn lemma_first_key_identifier(key_identifiers: Seq<Option<Seq<u8>>>)
    ensures
        first_key_identifier(key_identifiers) is None <==> forall|i: int|
            0 <= i < key_identifiers.len() ==> (#[trigger] key_identifiers[i]) is None,
        first_key_identifier(key_identifiers) is Some ==> exists|i: int|
            {
                &&& 0 <= i < key_identifiers.len()
                &&& #[trigger] key_identifiers[i] == first_key_identifier(key_identifiers)
                &&& forall|h: int| 0 <= h < i ==> (#[trigger] key_identifiers[h]) is None
            },
    decreases key_identifiers.len(),
{
    if key_identifiers.len() > 0 {
        let rest = key_identifiers.drop_first();
        lemma_first_key_identifier(rest);
        assert forall|i: int| 1 <= i < key_identifiers.len() implies #[trigger] key_identifiers[i]
            == rest[i - 1] by {}
        assert forall|i: int| 0 <= i < rest.len() implies #[trigger] rest[i] == key_identifiers[i
            + 1] by {}
        if key_identifiers[0] is None && first_key_identifier(rest) is Some {
            let i = choose|i: int|
                {
                    &&& 0 <= i < rest.len()
                    &&& #[trigger] rest[i] == first_key_identifier(rest)
                    &&& forall|h: int| 0 <= h < i ==> (#[trigger] rest[h]) is None
                };
            assert(key_identifiers[i + 1] == first_key_identifier(key_identifiers));
            assert forall|h: int| 0 <= h < i + 1 implies (#[trigger] key_identifiers[h]) is None by {
                if h > 0 {
                    assert(rest[h - 1] is None);
                }
            }
        }
    }
}

/// A certificate is identified by the base64url encodings of the whole of the first key identifier
/// that it has, and of the whole of its serial. One without a key identifier, or that was not
/// read, is not identified.
pub proof fn law_identifier_is_first_key_identifier_and_serial(
    read: Result<Certificate, String>,
    result: Result<CertificateIdentifier<'static>, String>,
)
    requires
        call_ensures(CertificateIdentifier::<'static>::identify, (read,), result),
    ensures
        match (read, result) {
            (Ok(certificate), Ok(identifier)) => {
                &&& identifier.serial@ == base64url::base64url(certificate.serial@)
                &&& exists|i: int|
                    {
                        &&& 0 <= i < certificate.key_identifiers@.len()
                        &&& (#[trigger] certificate.key_identifiers@[i]) matches Some(bytes)
                            && identifier.authority_key_identifier@ == base64url::base64url(bytes@)
                        &&& forall|h: int|
                            0 <= h < i ==> (#[trigger] certificate.key_identifiers@[h]) is None
                    }
            },
            (Ok(certificate), Err(err)) => {
                &&& err@
                    == "certificate does not contain an Authority Key Identifier (AKI) extension"@
                &&& forall|i: int|
                    0 <= i < certificate.key_identifiers@.len() ==> (
                    #[trigger] certificate.key_identifiers@[i]) is None
            },
            (Err(cause), Err(err)) => err@ == "failed to parse certificate: "@ + cause@,
            (Err(_), Ok(_)) => false,
        },
{
    if let Ok(certificate) = read {
        let ids = certificate@.key_identifiers;
        lemma_first_key_identifier(ids);
        assert(ids.len() == certificate.key_identifiers@.len());
        assert forall|i: int| 0 <= i < ids.len() implies #[trigger] ids[i] == optional_bytes(
            certificate.key_identifiers@[i],
        ) by {}
        if first_key_identifier(ids) is Some {
            let i = choose|i: int|
                {
                    &&& 0 <= i < ids.len()
                    &&& #[trigger] ids[i] == first_key_identifier(ids)
                    &&& forall|h: int| 0 <= h < i ==> (#[trigger] ids[h]) is None
                };
            assert(certificate.key_identifiers@[i] is Some);
            assert forall|h: int| 0 <= h < i implies (
            #[trigger] certificate.key_identifiers@[h]) is None by {
                assert(ids[h] is None);
            }
        } else {
            assert forall|i: int| 0 <= i < certificate.key_identifiers@.len() implies (
            #[trigger] certificate.key_identifiers@[i]) is None by {
                assert(ids[i] is None);
            }
        }
    }
}

/// The identifier of a certificate in DER encoding is that of the certificate that x509-parser
/// reads: the base64url encodings of the whole of the first key identifier and of the serial.
pub proof fn law_identifier_of_der(
    cert: &[u8],
    result: Result<CertificateIdentifier<'static>, String>,
)
    requires
        call_ensures(CertificateIdentifier::<'static>::try_from, (cert,), result),
    ensures
        match (certificate(cert@), result) {
            (Ok(read), Ok(identifier)) => {
                &&& identifier.serial@ == base64url::base64url(read.serial)
                &&& exists|i: int|
                    {
                        &&& 0 <= i < read.key_identifiers.len()
                        &&& (#[trigger] read.key_identifiers[i]) matches Some(bytes)
                            && identifier.authority_key_identifier@ == base64url::base64url(bytes)
                        &&& forall|h: int|
                            0 <= h < i ==> (#[trigger] read.key_identifiers[h]) is None
                    }
            },
            (Ok(read), Err(err)) => {
                &&& err@
                    == "certificate does not contain an Authority Key Identifier (AKI) extension"@
                &&& forall|i: int|
                    0 <= i < read.key_identifiers.len() ==> (#[trigger] read.key_identifiers[i])
                        is None
            },
            (Err(cause), Err(err)) => err@ == "failed to parse certificate: "@ + cause,
            (Err(_), Ok(_)) => false,
        },
{
    if let Ok(read) = certificate(cert@) {
        lemma_first_key_identifier(read.key_identifiers);
        if first_key_identifier(read.key_identifiers) is Some {
            let i = choose|i: int|
                {
                    &&& 0 <= i < read.key_identifiers.len()
                    &&& #[trigger] read.key_identifiers[i] == first_key_identifier(
                        read.key_identifiers,
                    )
                    &&& forall|h: int| 0 <= h < i ==> (#[trigger] read.key_identifiers[h]) is None
                };
            assert(read.key_identifiers[i] is Some);
        }
    }
}

/// Two certificates with one identifier have the same serial and the same first key identifier.
pub proof fn law_certificates_with_one_identifier(
    a: Certificate,
    b: Certificate,
    a_identifier: CertificateIdentifier<'static>,
    b_identifier: CertificateIdentifier<'static>,
    a_text: String,
    b_text: String,
    a_key: Option<&[u8]>,
    b_key: Option<&[u8]>,
)
    requires
        call_ensures(
            CertificateIdentifier::<'static>::identify,
            (Ok::<Certificate, String>(a),),
            Ok::<CertificateIdentifier<'static>, String>(a_identifier),
        ),
        call_ensures(
            CertificateIdentifier::<'static>::identify,
            (Ok::<Certificate, String>(b),),
            Ok::<CertificateIdentifier<'static>, String>(b_identifier),
        ),
        call_ensures(CertificateIdentifier::<'static>::to_string, (&a_identifier,), a_text),
        call_ensures(CertificateIdentifier::<'static>::to_string, (&b_identifier,), b_text),
        call_ensures(Certificate::authority_key_identifier, (&a,), a_key),
        call_ensures(Certificate::authority_key_identifier, (&b,), b_key),
        a_text@ == b_text@,
    ensures
        a.serial@ == b.serial@,
        a_key is Some && b_key is Some && a_key->0@ == b_key->0@,
{
    law_encoded_identifier_is_unique(
        first_key_identifier(a@.key_identifiers)->0,
        a.serial@,
        first_key_identifier(b@.key_identifiers)->0,
        b.serial@,
    );
}

/// The authority key identifier of a certificate is the first key identifier that is there.
pub proof fn law_authority_key_identifier_is_the_first(
    certificate: &Certificate,
    key_identifier: Option<&[u8]>,
)
    requires
        call_ensures(Certificate::authority_key_identifier, (certificate,), key_identifier),
    ensures
        match key_identifier {
            Some(found) => exists|i: int|
                {
                    &&& 0 <= i < certificate.key_identifiers@.len()
                    &&& (#[trigger] certificate.key_identifiers@[i]) matches Some(bytes) && bytes@
                        == found@
                    &&& forall|h: int|
                        0 <= h < i ==> (#[trigger] certificate.key_identifiers@[h]) is None
                },
            None => forall|i: int|
                0 <= i < certificate.key_identifiers@.len() ==> (
                #[trigger] certificate.key_identifiers@[i]) is None,
        },
{
    let ids = certificate@.key_identifiers;
    lemma_first_key_identifier(ids);
    assert forall|i: int| 0 <= i < ids.len() implies #[trigger] ids[i] == optional_bytes(
        certificate.key_identifiers@[i],
    ) by {}
    if first_key_identifier(ids) is Some {
        let i = choose|i: int|
            {
                &&& 0 <= i < ids.len()
                &&& #[trigger] ids[i] == first_key_identifier(ids)
                &&& forall|h: int| 0 <= h < i ==> (#[trigger] ids[h]) is None
            };
        assert(certificate.key_identifiers@[i] is Some);
        assert forall|h: int| 0 <= h < i implies (#[trigger] certificate.key_identifiers@[h])
            is None by {
            assert(ids[h] is None);
        }
    } else {
        assert forall|i: int| 0 <= i < certificate.key_identifiers@.len() implies (
        #[trigger] certificate.key_identifiers@[i]) is None by {
            assert(ids[i] is None);
        }
    }
}

/// An identifier is encoded part by part: the key identifier and the serial, each as a whole.
pub proof fn law_parts_are_encoded_whole(
    key_identifier: &[u8],
    serial: &[u8],
    identifier: CertificateIdentifier<'static>,
)
    requires
        call_ensures(CertificateIdentifier::<'static>::new, (key_identifier, serial), identifier),
    ensures
        identifier.authority_key_identifier@ == base64url::base64url(key_identifier@),
        identifier.serial@ == base64url::base64url(serial@),
{
}

/// The text of an identifier is its first part, a dot, and its second part; owning the parts or
/// copying the identifier changes neither.
pub proof fn law_text_is_both_parts(
    identifier: &CertificateIdentifier<'static>,
    text: String,
    owned: CertificateIdentifier<'static>,
    copy: CertificateIdentifier<'static>,
)
    requires
        call_ensures(CertificateIdentifier::<'static>::to_string, (identifier,), text),
        call_ensures(CertificateIdentifier::<'static>::into_owned, (*identifier,), owned),
        call_ensures(<CertificateIdentifier<'static> as Clone>::clone, (identifier,), copy),
    ensures
        ({
            let (a, b) = (identifier.authority_key_identifier@, identifier.serial@);
            &&& text@.len() == a.len() + 1 + b.len()
            &&& text@.take(a.len() as int) == a
            &&& text@[a.len() as int] == '.'
            &&& text@.skip(a.len() as int + 1) == b
            &&& owned.authority_key_identifier@ == a && owned.serial@ == b
            &&& copy.authority_key_identifier@ == a && copy.serial@ == b
        }),
{
    let (a, b) = (identifier.authority_key_identifier@, identifier.serial@);
    assert(text@ == a.push('.') + b);
    assert(text@.take(a.len() as int) =~= a);
    assert(text@.skip(a.len() as int + 1) =~= b);
    assert(owned@ == (a, b) && copy@ == (a, b));
}

/// An identifier is read from a text exactly if the text holds one dot, and its parts are then what
/// stands before and after it. Otherwise the error says whether the dot is missing or is not alone.
pub proof fn law_parse_splits_at_the_dot(
    text: &'static str,
    result: Result<CertificateIdentifier<'static>, &'static str>,
)
    requires
        call_ensures(CertificateIdentifier::<'static>::parse, (text,), result),
    ensures
        match result {
            Ok(identifier) => exists|dot: int|
                {
                    &&& 0 <= dot < text@.len()
                    &&& #[trigger] text@[dot] == '.'
                    &&& forall|i: int|
                        0 <= i < text@.len() && i != dot ==> #[trigger] text@[i] != '.'
                    &&& identifier.authority_key_identifier@ == text@.take(dot)
                    &&& identifier.serial@ == text@.skip(dot + 1)
                },
            Err(expected) => {
                ||| {
                    &&& expected@ == "a string containing 2 '.'-delimited parts"@
                    &&& forall|i: int| 0 <= i < text@.len() ==> #[trigger] text@[i] != '.'
                }
                ||| {
                    &&& expected@ == "only one '.' delimiter should be present"@
                    &&& exists|i: int, j: int|
                        0 <= i < j < text@.len() && #[trigger] text@[i] == '.'
                            && #[trigger] text@[j] == '.'
                }
            },
        },
{
    if result is Ok {
        let dot = text@.index_of('.');
        assert(text@[dot] == '.');
        assert forall|i: int| 0 <= i < text@.len() && i != dot implies #[trigger] text@[i]
            != '.' by {
            if text@[i] == '.' {
                if i < dot {
                    assert(text@[i] == '.' && text@[dot] == '.');
                } else {
                    assert(text@[dot] == '.' && text@[i] == '.');
                }
            }
        }
    } else if !text@.contains('.') {
        assert forall|i: int| 0 <= i < text@.len() implies #[trigger] text@[i] != '.' by {
            if text@[i] == '.' {
                assert(text@.contains('.'));
            }
        }
    }
}

/// An optional identifier is what is read from its text if there is one, and none otherwise.
pub proof fn law_optional_identifiers(
    text: &'static str,
    parsed: Result<CertificateIdentifier<'static>, &'static str>,
    result: Result<Option<CertificateIdentifier<'static>>, &'static str>,
    missing: Result<Option<CertificateIdentifier<'static>>, &'static str>,
)
    requires
        call_ensures(CertificateIdentifier::<'static>::parse, (text,), parsed),
        call_ensures(CertificateIdentifier::<'static>::parse_optional, (Some(text),), result),
        call_ensures(CertificateIdentifier::<'static>::parse_optional, (None::<&str>,), missing),
    ensures
        match (parsed, result) {
            (Ok(a), Ok(Some(b))) => {
                &&& a.authority_key_identifier@ == b.authority_key_identifier@
                &&& a.serial@ == b.serial@
            },
            (Err(a), Err(b)) => a@ == b@,
            _ => false,
        },
        missing matches Ok(None),
{
    if let (Ok(a), Ok(Some(b))) = (parsed, result) {
        assert(a@ == b@);
    }
}

/// A request for revocation carries the base64url encoding of the whole certificate, and the number
/// of its reason exactly if it has one.
pub proof fn law_revocation_carries_certificate_and_reason(
    request: &RevocationRequest<'_>,
    payload: RevocationPayload,
)
    requires
        call_ensures(RevocationRequest::payload, (request,), payload),
    ensures
        payload.certificate@ == base64url::base64url(request.certificate@),
        request.reason is None <==> payload.reason is None,
        request.reason is Some ==> match payload.reason->0 {
            0 => request.reason->0 is Unspecified,
            1 => request.reason->0 is KeyCompromise,
            2 => request.reason->0 is CaCompromise,
            3 => request.reason->0 is AffiliationChanged,
            4 => request.reason->0 is Superseded,
            5 => request.reason->0 is CessationOfOperation,
            6 => request.reason->0 is CertificateHold,
            8 => request.reason->0 is RemoveFromCrl,
            9 => request.reason->0 is PrivilegeWithdrawn,
            10 => request.reason->0 is AaCompromise,
            _ => false,
        },
{
}

} // verus!
