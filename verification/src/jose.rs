//! JSON Web Signatures: the objects that every request to an ACME server is made of.

use crate::base64url::{self, encode, is_encodable};
use crate::error::Error;
use crate::jwk::{Jwk, SigningAlgorithm};
use vstd::prelude::*;

verus! {

/// The protected header of a signed request
#[derive(Debug)]
pub struct Header<'a> {
    /// The algorithm of the signature
    pub alg: SigningAlgorithm,
    /// The key that made the signature
    pub key: KeyOrKeyId<'a>,
    /// The anti-replay nonce, if the request needs one
    pub nonce: Option<&'a str>,
    /// The URL that the request is sent to
    pub url: &'a str,
}

/// The key that made a signature
#[derive(Debug)]
pub enum KeyOrKeyId<'a> {
    /// The key itself
    Key(Jwk<'a>),
    /// The URL of the account that the key belongs to
    KeyId(&'a str),
}

/// Something that signs requests
pub trait Signer {
    /// The signature over `payload`
    fn sign(&self, payload: &[u8]) -> Result<Vec<u8>, Error>;
}

/// A signed request, as a JWS in the flattened JSON serialization
#[derive(Debug)]
pub struct JoseJson {
    /// The protected header, encoded
    pub protected: String,
    /// The payload, encoded; empty if there is none
    pub payload: String,
    /// The signature over both, encoded
    pub signature: String,
}

/// The encoding of an optional payload: empty if there is none.
pub open spec fn encoded_payload(payload: Option<&[u8]>) -> Seq<char> {
    match payload {
        Some(payload) => base64url::base64url(payload@),
        None => seq![],
    }
}

/// What is signed: the encoded header and the encoded payload, with a dot between them.
pub open spec fn signing_input(protected: Seq<char>, payload: Seq<char>) -> Seq<char> {
    protected.push('.') + payload
}

impl JoseJson {
    /// Encode a protected header and a payload, both in JSON, and what is to be signed of them
    pub fn signing_input(protected: &[u8], payload: Option<&[u8]>) -> (input: (
        String,
        String,
        String,
    ))
        requires
            base64url::encodable(protected@.len()),
            payload matches Some(payload) ==> base64url::encodable(payload@.len()),
        ensures
            input.0@ == base64url::base64url(protected@),
            input.1@ == encoded_payload(payload),
            input.2@ == signing_input(base64url::base64url(protected@), encoded_payload(payload)),
    {
        let protected = encode(protected);
        let payload = match payload {
            Some(payload) => encode(payload),
            None => String::new(),
        };
        let mut combined = protected.clone();
        combined.push('.');
        combined.append(payload.as_str());
        (protected, payload, combined)
    }

    /// Sign a protected header and a payload, both in JSON
    ///
    /// The request fails as the signer does. A signature that is too long to be encoded counts
    /// as a failure of the signer too.
    pub fn new<S: Signer>(payload: Option<&[u8]>, protected: &[u8], signer: &S) -> (jose: Result<
        JoseJson,
        Error,
    >)
        requires
            base64url::encodable(protected@.len()),
            payload matches Some(payload) ==> base64url::encodable(payload@.len()),
        ensures
            exists|input: &[u8], signature: Result<Vec<u8>, Error>|
                {
                    &&& input@ == vstd::utf8::encode_utf8(
                        signing_input(base64url::base64url(protected@), encoded_payload(payload)),
                    )
                    &&& #[trigger] call_ensures(S::sign, (signer, input), signature)
                    &&& match (signature, jose) {
                        (Ok(signature), Ok(jose)) => {
                            &&& jose.protected@ == base64url::base64url(protected@)
                            &&& jose.payload@ == encoded_payload(payload)
                            &&& base64url::encodable(signature@.len())
                            &&& jose.signature@ == base64url::base64url(signature@)
                        },
                        (Ok(signature), Err(err)) => {
                            &&& !base64url::encodable(signature@.len())
                            &&& err is Crypto
                        },
                        (Err(signature), Err(err)) => signature == err,
                        (Err(_), Ok(_)) => false,
                    }
                },
    {
        let (protected, payload, combined) = JoseJson::signing_input(protected, payload);
        let signature = signer.sign(combined.as_str().as_bytes());
        match signature {
            Ok(signature) => if is_encodable(signature.len()) {
                Ok(JoseJson::signed(protected, payload, signature.as_slice()))
            } else {
                Err(Error::Crypto)
            },
            Err(err) => Err(err),
        }
    }

    /// The request with this encoded header and payload, once it is signed
    pub fn signed(protected: String, payload: String, signature: &[u8]) -> (jose: JoseJson)
        requires
            base64url::encodable(signature@.len()),
        ensures
            jose.protected == protected,
            jose.payload == payload,
            jose.signature@ == base64url::base64url(signature@),
    {
        JoseJson { protected, payload, signature: encode(signature) }
    }
}

proof fn lemma_encoded_payload(payload: Option<&[u8]>)
    ensures
        !encoded_payload(payload).contains('.'),
{
    if let Some(payload) = payload {
        base64url::law_encoding_is_url_safe(payload@);
    }
}

/// What is signed tells what it was made of: two requests with the same signing input have the
/// same header and the same encoded payload, and the same payload if both have one.
pub proof fn law_signing_input_tells_header_and_payload(
    protected: &[u8],
    payload: Option<&[u8]>,
    other_protected: &[u8],
    other_payload: Option<&[u8]>,
)
    requires
        signing_input(base64url::base64url(protected@), encoded_payload(payload)) == signing_input(
            base64url::base64url(other_protected@),
            encoded_payload(other_payload),
        ),
    ensures
        protected@ == other_protected@,
        encoded_payload(payload) == encoded_payload(other_payload),
        payload is Some && other_payload is Some ==> payload->0@ == other_payload->0@,
{
    let (a, b) = (base64url::base64url(protected@), base64url::base64url(other_protected@));
    let (x, y) = (encoded_payload(payload), encoded_payload(other_payload));
    let (s, t) = (signing_input(a, x), signing_input(b, y));
    base64url::law_encoding_is_url_safe(protected@);
    base64url::law_encoding_is_url_safe(other_protected@);
    lemma_encoded_payload(payload);
    lemma_encoded_payload(other_payload);
    assert(s[a.len() as int] == '.' && t[b.len() as int] == '.');
    if a.len() < b.len() {
        assert(t[a.len() as int] == b[a.len() as int]);
    } else if b.len() < a.len() {
        assert(s[b.len() as int] == a[b.len() as int]);
    }
    assert(s.take(a.len() as int) =~= a);
    assert(t.take(b.len() as int) =~= b);
    assert(s.skip(a.len() as int + 1) =~= x);
    assert(t.skip(b.len() as int + 1) =~= y);
    base64url::law_encoding_is_injective(protected@, other_protected@);
    if payload is Some && other_payload is Some {
        base64url::law_encoding_is_injective(payload->0@, other_payload->0@);
    }
}

/// What is to be signed is the text that is sent: the base64url encoding of the header, a dot, and
/// the base64url encoding of the payload or nothing.
pub proof fn law_signing_input_is_what_is_sent(
    protected: &[u8],
    payload: Option<&[u8]>,
    input: (String, String, String),
)
    requires
        call_ensures(JoseJson::signing_input, (protected, payload), input),
    ensures
        input.0@ == base64url::base64url(protected@),
        match payload {
            Some(payload) => input.1@ == base64url::base64url(payload@),
            None => input.1@.len() == 0,
        },
        input.2@.len() == input.0@.len() + 1 + input.1@.len(),
        input.2@.take(input.0@.len() as int) == input.0@,
        input.2@[input.0@.len() as int] == '.',
        input.2@.skip(input.0@.len() as int + 1) == input.1@,
{
    assert(input.2@.take(input.0@.len() as int) =~= input.0@);
    assert(input.2@.skip(input.0@.len() as int + 1) =~= input.1@);
}

/// A signed request carries the encodings of its header and payload, and the encoding of the
/// signature that the signer gave over the very text of these two with a dot between them. It fails
/// exactly if the signer does, with the signer's error, or if the signature is too long.
pub proof fn law_signature_is_over_what_is_sent<S: Signer>(
    payload: Option<&[u8]>,
    protected: &[u8],
    signer: &S,
    result: Result<JoseJson, Error>,
)
    requires
        call_ensures(JoseJson::new::<S>, (payload, protected, signer), result),
    ensures
        exists|input: &[u8], signature: Result<Vec<u8>, Error>| #[trigger]
            call_ensures(S::sign, (signer, input), signature) && input@ == vstd::utf8::encode_utf8(
                base64url::base64url(protected@) + seq!['.'] + match payload {
                    Some(payload) => base64url::base64url(payload@),
                    None => seq![],
                },
            ) && match (signature, result) {
                (Ok(signature), Ok(jose)) => {
                    &&& jose.protected@ == base64url::base64url(protected@)
                    &&& jose.payload@ == match payload {
                        Some(payload) => base64url::base64url(payload@),
                        None => seq![],
                    }
                    &&& jose.signature@ == base64url::base64url(signature@)
                },
                (Ok(signature), Err(err)) => {
                    &&& err is Crypto
                    &&& base64url::base64url(signature@).len() > isize::MAX
                },
                (Err(refusal), Err(err)) => refusal == err,
                (Err(_), Ok(_)) => false,
            },
{
    let text = base64url::base64url(protected@) + seq!['.'] + match payload {
        Some(payload) => base64url::base64url(payload@),
        None => seq![],
    };
    assert(signing_input(base64url::base64url(protected@), encoded_payload(payload)) =~= text);
    assert forall|bytes: Seq<u8>| base64url::base64url(bytes).len() <= isize::MAX
        <==> #[trigger] base64url::encodable(bytes.len()) by {
        base64url::law_encoding_is_url_safe(bytes);
    }
}

/// A request that is signed keeps its encoded header and payload, and carries the encoding of the
/// whole signature.
pub proof fn law_signed_request_keeps_its_parts(
    protected: String,
    payload: String,
    signature: &[u8],
    jose: JoseJson,
)
    requires
        call_ensures(JoseJson::signed, (protected, payload, signature), jose),
    ensures
        jose.protected@ == protected@,
        jose.payload@ == payload@,
        jose.signature@ == base64url::base64url(signature@),
{
}

} // verus!
