use acme_types::account::AccountCredentials;
use acme_types::base64url::is_encodable;
use acme_types::csr::{Csr, CsrError, CsrPolicy, FinalizeRequest};
use acme_types::error::Error;
use acme_types::identifier::Identifier;
use acme_types::ip::IpAddr;
use acme_types::jwk::{EcCurve, JwkThumbFields, OctetKeyCurve};
use acme_types::request::{
    AltName, CertificationRequest, ParsedKey, RequestedExtension, SubjectKey,
};
use rcgen::{
    CertificateParams, CertificateSigningRequest, DistinguishedName, DnType, KeyPair, PublicKeyData,
    SanType, SignatureAlgorithm, SigningKey, PKCS_ED25519,
};

fn params(names: &[&str], common_name: Option<&str>) -> CertificateParams {
    let names = names.iter().map(|name| (*name).to_owned()).collect::<Vec<_>>();
    let mut params = CertificateParams::new(names).unwrap();
    params.distinguished_name = DistinguishedName::new();
    if let Some(name) = common_name {
        params.distinguished_name.push(DnType::CommonName, name);
    }
    params
}

fn csr(names: &[&str], common_name: Option<&str>) -> CertificateSigningRequest {
    params(names, common_name)
        .serialize_request(&KeyPair::generate().unwrap())
        .unwrap()
}

fn der(names: &[&str], common_name: Option<&str>) -> Vec<u8> {
    csr(names, common_name).der().to_vec()
}

fn two_names() -> Vec<u8> {
    der(&["example.com", "www.example.com"], None)
}

fn dns(names: &[&str]) -> Vec<Identifier> {
    names
        .iter()
        .map(|name| Identifier::Dns((*name).to_owned()))
        .collect()
}

fn check(der: &[u8], identifiers: &[Identifier], wildcard: bool) -> Result<(), CsrError> {
    let authorized = identifiers
        .iter()
        .map(|identifier| identifier.authorized(wildcard))
        .collect::<Vec<_>>();
    Csr::from_der(der).validate(&authorized)
}

/// An address from its text, which writes out all the groups if it is of version six.
fn addr(text: &str) -> IpAddr {
    if text.contains(':') {
        let mut octets = [0; 16];
        for (i, group) in text.split(':').enumerate() {
            let group = u16::from_str_radix(group, 16).unwrap();
            octets[2 * i..2 * i + 2].copy_from_slice(&group.to_be_bytes());
        }
        IpAddr::V6(octets)
    } else {
        let mut octets = [0; 4];
        for (i, octet) in text.split('.').enumerate() {
            octets[i] = octet.parse().unwrap();
        }
        IpAddr::V4(octets)
    }
}

#[test]
fn csr_from_pem() {
    let csr = csr(&["example.com", "www.example.com"], None);
    let pem = csr.pem().unwrap();
    assert_eq!(
        Csr::from_pem(pem.as_bytes()).unwrap().der(),
        csr.der().as_ref()
    );
}

#[test]
fn csr_from_der() {
    let csr = csr(&["example.com", "www.example.com"], None);
    let der: &[u8] = csr.der().as_ref();
    assert_eq!(Csr::from_der(der).der(), der);
    assert_eq!(Csr::from(der).der(), der);
    assert_eq!(Csr::from(der.to_vec()).der(), der);

    assert_eq!(Csr::from(csr.der().as_ref()).der(), der);
    assert_eq!(Csr::from_der(csr.der().to_vec()).der(), der);
}

#[test]
fn csr_from_invalid_pem() {
    let csr = csr(&["example.com", "www.example.com"], None);
    // Not PEM at all
    assert!(matches!(
        Csr::from_pem(csr.der().as_ref()),
        Err(Error::Pem(_))
    ));
    // A PEM section, but not a CSR
    let cert = params(&["example.com"], None)
        .self_signed(&KeyPair::generate().unwrap())
        .unwrap();
    assert!(matches!(
        Csr::from_pem(cert.pem().as_bytes()),
        Err(Error::Pem(_))
    ));
    // Truncated: no end marker
    let pem = csr.pem().unwrap();
    let truncated = &pem.as_bytes()[..pem.len() / 2];
    assert!(matches!(Csr::from_pem(truncated), Err(Error::Pem(_))));
    // Nothing at all
    assert!(matches!(Csr::from_pem(b""), Err(Error::Pem(_))));
}

#[test]
fn first_csr_section_of_pem() {
    let key = KeyPair::generate().unwrap();
    let first = csr(&["example.com"], None);
    let second = csr(&["www.example.com"], None);
    let pem = format!(
        "{}{}{}",
        key.serialize_pem(),
        first.pem().unwrap(),
        second.pem().unwrap()
    );
    assert_eq!(
        Csr::from_pem(pem.as_bytes()).unwrap().der(),
        first.der().as_ref()
    );
}

#[test]
fn exact_match() {
    let identifiers = dns(&["example.com", "www.example.com"]);
    check(&two_names(), &identifiers, false).unwrap();
}

#[test]
fn case_insensitive() {
    let identifiers = dns(&["EXAMPLE.com", "WWW.example.COM"]);
    check(&two_names(), &identifiers, false).unwrap();
}

#[test]
fn case_insensitive_csr() {
    let identifiers = dns(&["example.com", "www.example.com"]);
    let der = der(&["EXAMPLE.com", "WWW.example.COM"], Some("Example.COM"));
    check(&der, &identifiers, false).unwrap();
}

#[test]
fn missing_identifier() {
    let identifiers = dns(&["example.com", "www.example.com", "other.example.com"]);
    assert!(matches!(
        check(&two_names(), &identifiers, false),
        Err(CsrError::MissingIdentifier(name)) if name == "other.example.com"
    ));
}

#[test]
fn unexpected_identifier() {
    let der = two_names();
    let identifiers = dns(&["example.com"]);
    assert!(matches!(
        check(&der, &identifiers, false),
        Err(CsrError::UnexpectedIdentifier(name)) if name == "www.example.com"
    ));

    // ...unless the policy allows it
    let authorized = identifiers
        .iter()
        .map(|identifier| identifier.authorized(false))
        .collect::<Vec<_>>();
    let policy = CsrPolicy::new().allow_extra_identifiers(true);
    Csr::from_der(der.as_slice())
        .validate_with(&authorized, &policy)
        .unwrap();
    // ...and no longer does not.
    let policy = policy.allow_extra_identifiers(false);
    assert!(matches!(
        Csr::from_der(der.as_slice()).validate_with(&authorized, &policy),
        Err(CsrError::UnexpectedIdentifier(name)) if name == "www.example.com"
    ));
}

#[test]
fn extra_identifiers_still_cover_the_order() {
    let identifiers = dns(&["example.com", "other.example.com"]);
    let authorized = identifiers
        .iter()
        .map(|identifier| identifier.authorized(false))
        .collect::<Vec<_>>();
    let policy = CsrPolicy::default().allow_extra_identifiers(true);
    assert!(matches!(
        Csr::from_der(two_names()).validate_with(&authorized, &policy),
        Err(CsrError::MissingIdentifier(name)) if name == "other.example.com"
    ));
}

#[test]
fn wildcard() {
    // The authorization identifier for `*.example.com` is `example.com` plus the
    // wildcard bit, so this only matches if the bit is taken into account.
    let der = der(&["*.example.com"], None);
    let identifiers = dns(&["example.com"]);
    check(&der, &identifiers, true).unwrap();
    assert!(matches!(
        check(&der, &identifiers, false),
        Err(CsrError::MissingIdentifier(name)) if name == "example.com"
    ));
}

#[test]
fn missing_wildcard() {
    assert!(matches!(
        check(&two_names(), &dns(&["Example.com"]), true),
        Err(CsrError::MissingIdentifier(name)) if name == "*.example.com"
    ));
}

#[test]
fn ip_identifiers() {
    // Written as `2001:db8::1` in the CSR, spelled out here: comparing as text would
    // not match.
    let der = der(&["127.0.0.1", "2001:db8::1"], None);
    let identifiers = vec![
        Identifier::Ip(addr("127.0.0.1")),
        Identifier::Ip(addr("2001:0db8:0000:0000:0000:0000:0000:0001")),
    ];
    check(&der, &identifiers, false).unwrap();
    // The wildcard bit is not for addresses.
    check(&der, &identifiers, true).unwrap();

    let identifiers = vec![Identifier::Ip(addr("127.0.0.2"))];
    assert!(matches!(
        check(&der, &identifiers, false),
        Err(CsrError::MissingIdentifier(_))
    ));
}

#[test]
fn ip_errors_are_text() {
    let der = der(&["127.0.0.1", "2001:db8::1"], None);
    let identifiers = vec![Identifier::Ip(addr("0:0:0:0:0:0:0:1"))];
    assert!(matches!(
        check(&der, &identifiers, false),
        Err(CsrError::MissingIdentifier(name)) if name == "::1"
    ));
    let identifiers = vec![Identifier::Ip(addr("127.0.0.1"))];
    assert!(matches!(
        check(&der, &identifiers, false),
        Err(CsrError::UnexpectedIdentifier(name)) if name == "2001:db8::1"
    ));
}

#[test]
fn common_name() {
    let identifiers = dns(&["example.com", "www.example.com"]);
    let ok = der(&["example.com", "www.example.com"], Some("example.com"));
    check(&ok, &identifiers, false).unwrap();

    let identifiers = dns(&["example.com"]);
    let mismatch = der(&["example.com"], Some("other.example.com"));
    assert!(matches!(
        check(&mismatch, &identifiers, false),
        Err(CsrError::CommonNameNotInSan(name)) if name == "other.example.com"
    ));
}

#[test]
fn common_name_is_an_address() {
    let identifiers = vec![Identifier::Ip(addr("2001:db8:0:0:0:0:0:1"))];
    let ok = der(&["2001:db8::1"], Some("2001:db8::1"));
    check(&ok, &identifiers, false).unwrap();

    let spelled_out = der(&["2001:db8::1"], Some("2001:db8:0:0:0:0:0:1"));
    assert!(matches!(
        check(&spelled_out, &identifiers, false),
        Err(CsrError::CommonNameNotInSan(name)) if name == "2001:db8:0:0:0:0:0:1"
    ));
}

#[test]
fn no_subject_alt_name() {
    let identifiers = dns(&["example.com"]);
    let no_san = der(&[], Some("example.com"));
    assert!(matches!(
        check(&no_san, &identifiers, false),
        Err(CsrError::NoSubjectAltName)
    ));

    // That CSR puts the name in the subject instead, which is the other half of why
    // a CA rejects it.
    assert!(matches!(
        check(&no_san, &[], false),
        Err(CsrError::CommonNameNotInSan(name)) if name == "example.com"
    ));

    // With no identifiers to cover, a CSR without the extension is not a problem.
    check(&der(&[], None), &[], false).unwrap();
}

#[test]
fn not_a_csr() {
    let csr = csr(&["example.com", "www.example.com"], None);
    assert!(matches!(
        check(csr.pem().unwrap().as_bytes(), &[], false),
        Err(CsrError::Parse(_))
    ));

    let mut trailing = csr.der().to_vec();
    trailing.push(0);
    assert!(matches!(
        check(&trailing, &[], false),
        Err(CsrError::Parse(
            "trailing data after the certification request"
        ))
    ));
}

#[test]
fn parse() {
    let der = der(&["Example.com", "127.0.0.1"], Some("Example.com"));
    let request = Csr::from_der(der.as_slice()).parse().unwrap();
    assert_eq!(
        request,
        CertificationRequest {
            trailing: 0,
            extensions: Some(vec![RequestedExtension::SubjectAltName(vec![
                AltName::Dns("Example.com".to_owned()),
                AltName::Ip(vec![127, 0, 0, 1]),
            ])]),
            common_names: vec![Some("Example.com".to_owned())],
        }
    );
    assert!(matches!(
        Csr::from_der(&b"nonsense"[..]).parse(),
        Err(CsrError::Parse("not a valid PKCS#10 certification request"))
    ));
}

#[test]
fn bad_signature() {
    let identifiers = dns(&["example.com", "www.example.com"]);
    let mut der = two_names();
    let last = der.len() - 1;
    der[last] ^= 1;
    assert!(matches!(
        check(&der, &identifiers, false),
        Err(CsrError::BadSignature)
    ));
    // The names are compared first.
    assert!(matches!(
        check(&der, &dns(&["example.com"]), false),
        Err(CsrError::UnexpectedIdentifier(name)) if name == "www.example.com"
    ));
}

#[test]
fn account_key_reuse() {
    // A CSR signed with the same key pair the account uses is not acceptable.
    let key_pair = KeyPair::generate().unwrap();
    let point = key_pair.public_key_raw();
    let account_key = JwkThumbFields::Ec {
        crv: EcCurve::P256,
        x: &point[1..33],
        y: &point[33..],
    };

    let params = params(&["example.com"], None);
    let csr = params.serialize_request(&key_pair).unwrap();
    assert!(matches!(
        Csr::from(csr.der().as_ref()).check_account_key(&account_key),
        Err(CsrError::AccountKeyReuse)
    ));

    // A CSR for any other key pair is fine.
    let other = KeyPair::generate().unwrap();
    let csr = params.serialize_request(&other).unwrap();
    Csr::from(csr.der().as_ref())
        .check_account_key(&account_key)
        .unwrap();
    // What is not a CSR is an error, not a different key.
    assert!(matches!(
        Csr::from_der(&b"nonsense"[..]).check_account_key(&account_key),
        Err(CsrError::Parse(_))
    ));
}

#[test]
fn account_key_reuse_of_an_octet_key() {
    let key_pair = KeyPair::generate_for(&PKCS_ED25519).unwrap();
    let csr = params(&["example.com"], None)
        .serialize_request(&key_pair)
        .unwrap();
    let csr = Csr::from(csr.der().as_ref());
    assert!(matches!(
        csr.check_account_key(&JwkThumbFields::Okp {
            crv: OctetKeyCurve::Ed25519,
            x: key_pair.public_key_raw(),
        }),
        Err(CsrError::AccountKeyReuse)
    ));
    let other = KeyPair::generate_for(&PKCS_ED25519).unwrap();
    csr.check_account_key(&JwkThumbFields::Okp {
        crv: OctetKeyCurve::Ed25519,
        x: other.public_key_raw(),
    })
    .unwrap();
}

#[test]
fn rsa_keys_are_integers() {
    let key = SubjectKey {
        bits: vec![1, 2, 3],
        parsed: ParsedKey::Rsa {
            modulus: vec![0, 0xC0, 0xFF, 0xEE],
            exponent: vec![1, 0, 1],
        },
    };
    let rsa = |e, n| JwkThumbFields::Rsa { e, n };
    assert!(key.is_key(&rsa(&[1, 0, 1], &[0xC0, 0xFF, 0xEE])));
    assert!(key.is_key(&rsa(&[0, 0, 1, 0, 1], &[0, 0, 0xC0, 0xFF, 0xEE])));
    assert!(!key.is_key(&rsa(&[1, 0, 1], &[0xC0, 0xFF, 0xEE, 0])));
    assert!(!key.is_key(&rsa(&[1, 1], &[0xC0, 0xFF, 0xEE])));
    // The bit string counts for octet keys only.
    assert!(key.is_key(&JwkThumbFields::Okp {
        crv: OctetKeyCurve::Ed448,
        x: &[1, 2, 3],
    }));
    assert!(!key.is_key(&JwkThumbFields::Ec {
        crv: EcCurve::P384,
        x: &[1],
        y: &[2],
    }));
}

/// A key pair that shows its public key as a compressed point.
struct Compressed {
    key_pair: KeyPair,
    point: Vec<u8>,
}

impl PublicKeyData for Compressed {
    fn der_bytes(&self) -> &[u8] {
        &self.point
    }

    fn algorithm(&self) -> &'static SignatureAlgorithm {
        self.key_pair.algorithm()
    }
}

impl SigningKey for Compressed {
    fn sign(&self, msg: &[u8]) -> Result<Vec<u8>, rcgen::Error> {
        self.key_pair.sign(msg)
    }
}

#[test]
fn account_key_reuse_of_a_compressed_point() {
    let key_pair = KeyPair::generate().unwrap();
    let raw = key_pair.public_key_raw().to_vec();
    let (x, y) = (&raw[1..33], &raw[33..]);
    let key = JwkThumbFields::Ec {
        crv: EcCurve::P256,
        x,
        y,
    };
    let tag = 2 + y[31] % 2;
    let mut compressed = Compressed {
        key_pair,
        point: [&[tag][..], x].concat(),
    };
    let params = params(&["example.com"], None);
    let csr = params.serialize_request(&compressed).unwrap();
    assert!(matches!(
        Csr::from(csr.der().as_ref()).check_account_key(&key),
        Err(CsrError::AccountKeyReuse)
    ));

    // The other point with that coordinate is another key.
    compressed.point[0] = 5 - tag;
    let csr = params.serialize_request(&compressed).unwrap();
    Csr::from(csr.der().as_ref())
        .check_account_key(&key)
        .unwrap();
}

#[test]
fn points_come_in_two_forms() {
    let key = |point: &[u8]| SubjectKey {
        bits: point.to_vec(),
        parsed: ParsedKey::Ec(point.to_vec()),
    };
    let jwk = JwkThumbFields::Ec {
        crv: EcCurve::P521,
        x: &[1, 2],
        y: &[3, 4],
    };
    assert!(key(&[4, 1, 2, 3, 4]).is_key(&jwk));
    assert!(!key(&[2, 1, 2, 3, 4]).is_key(&jwk));
    assert!(key(&[2, 1, 2]).is_key(&jwk));
    assert!(!key(&[3, 1, 2]).is_key(&jwk));
    assert!(!key(&[2, 1]).is_key(&jwk));
    assert!(!key(&[2, 1, 3]).is_key(&jwk));
    let odd = JwkThumbFields::Ec {
        crv: EcCurve::P384,
        x: &[1, 2],
        y: &[4, 3],
    };
    assert!(key(&[3, 1, 2]).is_key(&odd));
    assert!(!key(&[2, 1, 2]).is_key(&odd));
    assert!(!key(&[4, 1, 2, 3]).is_key(&jwk));
    assert!(!key(&[4, 1, 2, 3, 4, 5]).is_key(&jwk));
    assert!(!key(&[4, 1, 2, 4, 3]).is_key(&jwk));
    assert!(!key(&[]).is_key(&jwk));
}

fn request(names: Vec<AltName>, common_names: Vec<Option<String>>) -> CertificationRequest {
    CertificationRequest {
        trailing: 0,
        extensions: Some(vec![
            RequestedExtension::Other,
            RequestedExtension::SubjectAltName(names),
        ]),
        common_names,
    }
}

#[test]
fn malformed_requests() {
    let policy = CsrPolicy::new();
    let short = request(vec![AltName::Ip(vec![127, 0, 1])], Vec::new());
    assert!(matches!(
        short.validate_names(&[], &policy),
        Err(CsrError::Parse("invalid IP address in subjectAltName"))
    ));
    let binary = request(Vec::new(), vec![None]);
    assert!(matches!(
        binary.validate_names(&[], &policy),
        Err(CsrError::Parse("subject common name is not a string"))
    ));
}

#[test]
fn names_of_several_extensions() {
    let request = CertificationRequest {
        trailing: 0,
        extensions: Some(vec![
            RequestedExtension::SubjectAltName(vec![AltName::Dns("a.example".to_owned())]),
            RequestedExtension::SubjectAltName(vec![
                AltName::Dns("b.example".to_owned()),
            ]),
        ]),
        common_names: Vec::new(),
    };
    let identifiers = dns(&["b.example", "a.example", "b.example"]);
    let authorized = identifiers
        .iter()
        .map(|identifier| identifier.authorized(false))
        .collect::<Vec<_>>();
    request
        .validate_names(&authorized, &CsrPolicy::new())
        .unwrap();
}

#[test]
fn attestation_identifiers_ask_for_no_name() {
    let identifiers = [
        Identifier::PermanentIdentifier("serial".to_owned()),
        Identifier::HardwareModule("module".to_owned()),
    ];
    check(&der(&[], None), &identifiers, false).unwrap();
}

fn with_value(value: SanType) -> Vec<u8> {
    let mut params = params(&["example.com"], None);
    params.subject_alt_names.push(value);
    params
        .serialize_request(&KeyPair::generate().unwrap())
        .unwrap()
        .der()
        .to_vec()
}

#[test]
fn unexpected_names_of_other_types() {
    for (value, text) in [
        (
            SanType::Rfc822Name("a@example.com".try_into().unwrap()),
            "RFC822Name(a@example.com)",
        ),
        (
            SanType::URI("https://example.com/".try_into().unwrap()),
            "URI(https://example.com/)",
        ),
        (
            SanType::OtherName((vec![1, 3, 6, 1, 5, 5, 7, 8, 3], "serial".into())),
            "OtherName(1.3.6.1.5.5.7.8.3, [...])",
        ),
    ] {
        let der = with_value(value);
        let identifiers = dns(&["example.com"]);
        assert!(matches!(
            check(&der, &identifiers, false),
            Err(CsrError::UnexpectedIdentifier(name)) if name == text
        ));

        // ...unless the policy allows it
        let authorized = [identifiers[0].authorized(false)];
        let policy = CsrPolicy::new().allow_extra_identifiers(true);
        Csr::from_der(der)
            .validate_with(&authorized, &policy)
            .unwrap();
    }
}

#[test]
fn attestation_lets_other_names_through() {
    let identifiers = [
        Identifier::Dns("example.com".to_owned()),
        Identifier::PermanentIdentifier("serial".to_owned()),
    ];
    let other_name = SanType::OtherName((vec![1, 3, 6, 1, 5, 5, 7, 8, 3], "serial".into()));
    check(&with_value(other_name), &identifiers, false).unwrap();

    // ...but nothing else
    let email = SanType::Rfc822Name("a@example.com".try_into().unwrap());
    assert!(matches!(
        check(&with_value(email), &identifiers, false),
        Err(CsrError::UnexpectedIdentifier(name)) if name == "RFC822Name(a@example.com)"
    ));
}

#[test]
fn first_unexpected_name_is_reported() {
    let request = request(
        vec![
            AltName::OtherName("first".to_owned()),
            AltName::Other("second".to_owned()),
            AltName::Dns("a.example".to_owned()),
        ],
        Vec::new(),
    );
    let policy = CsrPolicy::new();
    // DNS names come before names of other types.
    assert!(matches!(
        request.validate_names(&[], &policy),
        Err(CsrError::UnexpectedIdentifier(name)) if name == "a.example"
    ));
    let name = Identifier::Dns("a.example".to_owned());
    let module = Identifier::HardwareModule("module".to_owned());
    assert!(matches!(
        request.validate_names(&[name.authorized(false)], &policy),
        Err(CsrError::UnexpectedIdentifier(name)) if name == "first"
    ));
    assert!(matches!(
        request.validate_names(&[name.authorized(false), module.authorized(false)], &policy),
        Err(CsrError::UnexpectedIdentifier(name)) if name == "second"
    ));
}

#[test]
fn error_messages() {
    let name = || "example.com".to_owned();
    for (err, message) in [
        (
            CsrError::AccountKeyReuse,
            "the CSR's public key is the ACME account key",
        ),
        (
            CsrError::BadSignature,
            "the CSR's signature does not verify",
        ),
        (
            CsrError::CommonNameNotInSan(name()),
            "common name `example.com` is missing from the CSR's subjectAltName extension",
        ),
        (
            CsrError::MissingIdentifier(name()),
            "the CSR does not cover identifier `example.com`",
        ),
        (
            CsrError::NoSubjectAltName,
            "the CSR has no subjectAltName extension",
        ),
        (
            CsrError::Parse("no luck"),
            "failed to parse the CSR: no luck",
        ),
        (
            CsrError::UnexpectedIdentifier(name()),
            "the CSR asks for identifier `example.com`, which the order does not authorize",
        ),
    ] {
        assert_eq!(err.to_string(), message);
    }
}

#[test]
fn finalize_request() {
    assert!(is_encodable(3));
    assert_eq!(FinalizeRequest::new(&[0xCA, 0xFE, 0xFF]).csr, "yv7_");
    let der = two_names();
    let payload = FinalizeRequest::new(&der);
    assert_eq!(AccountCredentials::decode_key(&payload.csr).unwrap(), der);
}

#[test]
fn copies_are_equal() {
    let der = two_names();
    let csr = Csr::from(der.as_slice());
    assert_eq!(csr.clone().der(), der.as_slice());
    assert_eq!(Csr::from(der.clone()).clone().as_ref(), der.as_slice());
}

#[test]
fn conversions_to_errors() {
    assert!(matches!(
        Error::from(CsrError::BadSignature),
        Error::Csr(CsrError::BadSignature)
    ));
    assert!(matches!(Error::from("nonce"), Error::Str("nonce")));
}
