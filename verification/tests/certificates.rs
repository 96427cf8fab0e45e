use acme_types::certificate::{
    Certificate, CertificateIdentifier, RevocationReason, RevocationRequest,
};
use rcgen::{
    BasicConstraints, CertificateParams, DistinguishedName, IsCa, Issuer, KeyIdMethod, KeyPair,
    SerialNumber,
};
use std::borrow::Cow;

// https://www.rfc-editor.org/rfc/rfc9773.html#section-4.1
#[test]
fn certificate_identifier() {
    const ORDER: &str = r#"{
      "status": "pending",
      "expires": "2016-01-05T14:09:07.99Z",

      "notBefore": "2016-01-01T00:00:00Z",
      "notAfter": "2016-01-08T00:00:00Z",

      "identifiers": [
        { "type": "dns", "value": "www.example.org" },
        { "type": "dns", "value": "example.org" }
      ],

      "authorizations": [
        "https://example.com/acme/authz/PAniVnsZcis",
        "https://example.com/acme/authz/r4HqLzrSrpI"
      ],

      "finalize": "https://example.com/acme/order/TOlocE8rfgo/finalize",

      "replaces": "aYhba4dGQEHhs3uEe6CuLN4ByNQ.AIdlQyE"
    }"#;

    let order = serde_json::from_str::<serde_json::Value>(ORDER).unwrap();
    let cert_id = CertificateIdentifier::parse_optional(order["replaces"].as_str())
        .unwrap()
        .unwrap();
    assert_eq!(
        cert_id.authority_key_identifier,
        "aYhba4dGQEHhs3uEe6CuLN4ByNQ"
    );
    assert_eq!(cert_id.serial, "AIdlQyE");

    let serialized = serde_json::to_string(&cert_id.to_string()).unwrap();
    assert_eq!(serialized, r#""aYhba4dGQEHhs3uEe6CuLN4ByNQ.AIdlQyE""#);
}

#[test]
fn encoded_certificate_identifier_from_cert() {
    // Generate a CA key_pair and self-signed cert with a specific subject key identifier.
    let ca_key_id = vec![0xC0, 0xFF, 0xEE];
    let ca_key = KeyPair::generate().unwrap();
    let mut ca_params = CertificateParams::default();
    ca_params.is_ca = IsCa::Ca(BasicConstraints::Unconstrained);
    ca_params.key_identifier_method = KeyIdMethod::PreSpecified(ca_key_id);
    let ca = Issuer::new(ca_params, ca_key);

    // Generate an end entity certificate issued by the CA, with a specific serial number
    // and an AKI extension.
    let ee_key = KeyPair::generate().unwrap();
    let ee_serial = [0xCA, 0xFE];
    let mut ee_params = CertificateParams::new(["example.com".to_owned()]).unwrap();
    ee_params.distinguished_name = DistinguishedName::new();
    ee_params.serial_number = Some(SerialNumber::from_slice(ee_serial.as_slice()));
    ee_params.use_authority_key_identifier_extension = true;
    let ee_cert = ee_params.signed_by(&ee_key, &ca).unwrap();

    // Extract the AKI and serial number from the EE certificate and create an encoded
    // certificate identifier.
    let encoded = CertificateIdentifier::try_from(ee_cert.der().as_ref()).unwrap();

    // We should arrive at the expected encoded certificate identifier.
    assert_eq!(encoded.to_string(), "wP_u.AMr-");

    // It is read back from its text.
    let text = encoded.to_string();
    assert_eq!(CertificateIdentifier::parse(&text).unwrap(), encoded);
}

#[test]
fn certificate_without_key_identifier() {
    let params = CertificateParams::new(["example.com".to_owned()]).unwrap();
    let cert = params.self_signed(&KeyPair::generate().unwrap()).unwrap();
    assert_eq!(
        CertificateIdentifier::try_from(cert.der().as_ref()).unwrap_err(),
        "certificate does not contain an Authority Key Identifier (AKI) extension"
    );
}

#[test]
fn not_a_certificate() {
    let err = CertificateIdentifier::try_from(b"nonsense").unwrap_err();
    let cause = x509_parser::parse_x509_certificate(b"nonsense").unwrap_err();
    assert_eq!(err, format!("failed to parse certificate: {cause}"));
}

#[test]
fn first_key_identifier() {
    let certificate = Certificate {
        key_identifiers: vec![None, None, Some(vec![0xC0, 0xFF, 0xEE]), Some(vec![1])],
        serial: vec![0, 0xCA, 0xFE],
    };
    assert_eq!(
        certificate.authority_key_identifier(),
        Some(&[0xC0, 0xFF, 0xEE][..])
    );
    assert_eq!(
        CertificateIdentifier::identify(Ok(certificate))
            .unwrap()
            .to_string(),
        "wP_u.AMr-"
    );
    assert_eq!(
        CertificateIdentifier::identify(Err("no luck".to_owned())).unwrap_err(),
        "failed to parse certificate: no luck"
    );
}

#[test]
fn delimiters() {
    assert_eq!(
        CertificateIdentifier::parse("aYhba4dGQEHhs3uEe6CuLN4ByNQ"),
        Err("a string containing 2 '.'-delimited parts")
    );
    assert_eq!(
        CertificateIdentifier::parse("a.b.c"),
        Err("only one '.' delimiter should be present")
    );
    assert_eq!(
        CertificateIdentifier::parse(".."),
        Err("only one '.' delimiter should be present")
    );
    let empty = CertificateIdentifier::parse(".").unwrap();
    assert_eq!(empty.authority_key_identifier, "");
    assert_eq!(empty.serial, "");
    assert_eq!(empty.to_string(), ".");
    assert_eq!(CertificateIdentifier::parse_optional(None), Ok(None));
    assert_eq!(
        CertificateIdentifier::parse_optional(Some("a")),
        Err("a string containing 2 '.'-delimited parts")
    );
}

#[test]
fn identifiers_are_unique() {
    let identifier = CertificateIdentifier::new(&[0xC0, 0xFF, 0xEE], &[0, 0xCA, 0xFE]);
    assert_eq!(identifier.to_string(), "wP_u.AMr-");
    assert_ne!(
        identifier,
        CertificateIdentifier::new(&[0xC0, 0xFF, 0xEE], &[0xCA, 0xFE])
    );
    assert_ne!(
        identifier,
        CertificateIdentifier::new(&[0, 0xCA, 0xFE], &[0xC0, 0xFF, 0xEE])
    );
    assert_eq!(identifier.clone(), identifier);
    assert_eq!(identifier.clone().into_owned(), identifier);
}

#[test]
fn copies_borrow_as_the_identifier_does() {
    let text = "aYhba4dGQEHhs3uEe6CuLN4ByNQ.AIdlQyE".to_owned();
    let borrowed = CertificateIdentifier::parse(&text).unwrap();
    let copy = borrowed.clone();
    assert_eq!(copy, borrowed);
    assert!(matches!(copy.authority_key_identifier, Cow::Borrowed(_)));
    assert!(matches!(copy.serial, Cow::Borrowed(_)));

    let mixed = CertificateIdentifier {
        authority_key_identifier: Cow::Owned("a".to_owned()),
        serial: Cow::Borrowed("b"),
    };
    let copy = mixed.clone();
    assert_eq!(copy, mixed);
    assert!(matches!(copy.authority_key_identifier, Cow::Owned(_)));
    assert!(matches!(copy.serial, Cow::Borrowed(_)));

    let owned = copy.into_owned();
    assert_eq!(owned, mixed);
    assert!(matches!(owned.serial, Cow::Owned(_)));
}

#[test]
fn revocation() {
    let request = RevocationRequest {
        certificate: &[0xCA, 0xFE],
        reason: Some(RevocationReason::Superseded),
    };
    let payload = request.payload();
    assert_eq!(payload.certificate, "yv4");
    assert_eq!(payload.reason, Some(4));

    let request = RevocationRequest {
        certificate: &[],
        reason: None,
    };
    let payload = request.payload();
    assert_eq!(payload.certificate, "");
    assert_eq!(payload.reason, None);
}

#[test]
fn reason_codes() {
    for (reason, code) in [
        (RevocationReason::Unspecified, 0),
        (RevocationReason::KeyCompromise, 1),
        (RevocationReason::CaCompromise, 2),
        (RevocationReason::AffiliationChanged, 3),
        (RevocationReason::Superseded, 4),
        (RevocationReason::CessationOfOperation, 5),
        (RevocationReason::CertificateHold, 6),
        (RevocationReason::RemoveFromCrl, 8),
        (RevocationReason::PrivilegeWithdrawn, 9),
        (RevocationReason::AaCompromise, 10),
    ] {
        assert_eq!(reason.code(), code);
    }
}
