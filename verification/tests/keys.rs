use acme_types::account::{AccountCredentials, LetsEncrypt, ZeroSsl};
use acme_types::error::Error;
use acme_types::jose::{JoseJson, Signer};
use acme_types::jwk::{EcCurve, Jwk, JwkThumbFields, OctetKeyCurve, Sha256, SigningAlgorithm};
use acme_types::octets::{same_bytes, trim_leading_zeros};

/// A stand-in for a hash: the sum of the bytes at each place, counted modulo thirty-two.
struct Sums;

impl Sha256 for Sums {
    fn hash(&self, data: &[u8]) -> [u8; 32] {
        let mut sums = [0u8; 32];
        for (i, byte) in data.iter().enumerate() {
            sums[i % 32] = sums[i % 32].wrapping_add(*byte);
        }
        sums
    }
}

fn thumb_json(key: &JwkThumbFields<'_>) -> String {
    assert!(key.is_encodable());
    String::from_utf8(key.thumb_json().unwrap()).unwrap()
}

#[test]
fn thumbprint_inputs() {
    let (x, y) = ([0xC0, 0xFF, 0xEE], [0xFB, 0xFF]);
    for (crv, name) in [
        (EcCurve::P256, "P-256"),
        (EcCurve::P384, "P-384"),
        (EcCurve::P521, "P-521"),
    ] {
        assert_eq!(
            thumb_json(&JwkThumbFields::Ec { crv, x: &x, y: &y }),
            format!(r#"{{"crv":"{name}","kty":"EC","x":"wP_u","y":"-_8"}}"#)
        );
    }
    for (crv, name) in [
        (OctetKeyCurve::Ed25519, "Ed25519"),
        (OctetKeyCurve::Ed448, "Ed448"),
        (OctetKeyCurve::X25519, "X25519"),
        (OctetKeyCurve::X448, "X448"),
    ] {
        assert_eq!(
            thumb_json(&JwkThumbFields::Okp { crv, x: &x }),
            format!(r#"{{"crv":"{name}","kty":"OKP","x":"wP_u"}}"#)
        );
    }
    assert_eq!(
        thumb_json(&JwkThumbFields::Rsa {
            e: &[1, 0, 1],
            n: &x
        }),
        r#"{"e":"AQAB","kty":"RSA","n":"wP_u"}"#
    );
}

#[test]
fn thumbprint_is_of_the_key_alone() {
    let jwk = |alg, intended_use| Jwk {
        alg,
        key: JwkThumbFields::Okp {
            crv: OctetKeyCurve::Ed25519,
            x: &[1, 2, 3],
        },
        intended_use,
    };
    let thumb = jwk(SigningAlgorithm::Ed25519, "sig")
        .thumb_sha256(&Sums)
        .unwrap();
    assert_eq!(
        thumb,
        Sums.hash(br#"{"crv":"Ed25519","kty":"OKP","x":"AQID"}"#)
    );
    assert_eq!(
        thumb,
        jwk(SigningAlgorithm::Other("EdDSA"), "enc")
            .thumb_sha256(&Sums)
            .unwrap()
    );
}

#[test]
fn thumbprint_inputs_tell_keys_apart() {
    let okp = |crv| thumb_json(&JwkThumbFields::Okp { crv, x: &[1, 2, 3] });
    assert_ne!(okp(OctetKeyCurve::Ed25519), okp(OctetKeyCurve::X25519));
    let rsa = |e: &[u8], n: &[u8]| thumb_json(&JwkThumbFields::Rsa { e, n });
    assert_ne!(rsa(&[1], &[2, 3]), rsa(&[1, 2], &[3]));
    assert_ne!(rsa(&[1], &[2, 3]), rsa(&[2, 3], &[1]));
}

#[test]
fn signing_inputs_tell_requests_apart() {
    let input = |protected: &[u8], payload: &[u8]| JoseJson::signing_input(protected, Some(payload)).2;
    assert_eq!(input(b"{}", b"{}"), "e30.e30");
    assert_ne!(input(b"{}{}{}", b""), input(b"{}{", b"}{}"));
}

/// A signer whose signature is what it was given to sign, between brackets.
struct Brackets;

impl Signer for Brackets {
    fn sign(&self, payload: &[u8]) -> Result<Vec<u8>, Error> {
        Ok([b"<", payload, b">"].concat())
    }
}

struct Refusal;

impl Signer for Refusal {
    fn sign(&self, _: &[u8]) -> Result<Vec<u8>, Error> {
        Err(Error::KeyRejected)
    }
}

#[test]
fn signed_request() {
    let jose = JoseJson::new(Some(b"{}"), br#"{"alg":"ES256"}"#, &Brackets).unwrap();
    assert_eq!(jose.protected, "eyJhbGciOiJFUzI1NiJ9");
    assert_eq!(jose.payload, "e30");
    let signature = AccountCredentials::decode_key(&jose.signature).unwrap();
    assert_eq!(signature, b"<eyJhbGciOiJFUzI1NiJ9.e30>");
}

#[test]
fn signed_request_without_payload() {
    let jose = JoseJson::new(None, br#"{"alg":"ES256"}"#, &Brackets).unwrap();
    assert_eq!(jose.payload, "");
    let signature = AccountCredentials::decode_key(&jose.signature).unwrap();
    assert_eq!(signature, b"<eyJhbGciOiJFUzI1NiJ9.>");
    assert_eq!(
        JoseJson::signing_input(b"{}", None),
        ("e30".to_owned(), String::new(), "e30.".to_owned())
    );
    assert_eq!(
        JoseJson::signed("a".to_owned(), "b".to_owned(), &[0xCA, 0xFE]).signature,
        "yv4"
    );
}

#[test]
fn refused_signature() {
    assert!(matches!(
        JoseJson::new(Some(b"{}"), b"{}", &Refusal),
        Err(Error::KeyRejected)
    ));
}

fn credentials(key: &[u8]) -> AccountCredentials {
    AccountCredentials {
        id: "https://example.com/acme/acct/1".to_owned(),
        key_pkcs8: key.to_vec(),
        directory: None,
        urls: None,
    }
}

#[test]
fn keys_are_read_back() {
    for (key, text) in [
        (&b""[..], ""),
        (b"f", "Zg"),
        (b"fo", "Zm8"),
        (b"foo", "Zm9v"),
        (b"foob", "Zm9vYg"),
        (b"fooba", "Zm9vYmE"),
        (b"foobar", "Zm9vYmFy"),
        (b"\xFB\xFF\xBF", "-_-_"),
    ] {
        let credentials = credentials(key);
        assert_eq!(credentials.private_key(), key);
        assert_eq!(credentials.encoded_key(), text);
        assert_eq!(AccountCredentials::decode_key(text).unwrap(), key);
    }
}

#[test]
fn texts_that_are_no_key() {
    // Padding, another alphabet, stray bits, a length that no bytes have, white space.
    for text in ["Zg==", "+/+/", "Zh", "Z", "Zm9v\n", "Zm 9v"] {
        let err = AccountCredentials::decode_key(text).unwrap_err();
        assert!(!err.0.to_string().is_empty());
    }
}

#[test]
fn leading_zeros() {
    assert_eq!(trim_leading_zeros(&[0, 0, 1, 0]), [1, 0]);
    assert_eq!(trim_leading_zeros(&[1, 0]), [1, 0]);
    assert_eq!(trim_leading_zeros(&[0, 0]), [0u8; 0]);
    assert!(same_bytes(&[1, 2], &[1, 2]));
    assert!(!same_bytes(&[1, 2], &[1, 3]));
    assert!(!same_bytes(&[1, 2], &[1, 2, 3]));
}

#[test]
fn server_urls() {
    assert_eq!(
        LetsEncrypt::Production.url(),
        "https://acme-v02.api.letsencrypt.org/directory"
    );
    assert_eq!(
        LetsEncrypt::Staging.url(),
        "https://acme-staging-v02.api.letsencrypt.org/directory"
    );
    assert_eq!(
        ZeroSsl::Production.url(),
        "https://acme.zerossl.com/v2/DV90"
    );
}
