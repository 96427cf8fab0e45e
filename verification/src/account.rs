//! Accounts: their credentials, and the servers that they are with.

use crate::base64url::{self, decode, encode};
use crate::jose::JoseJson;
use std::borrow::Cow;
use std::collections::HashMap;
use vstd::prelude::*;

verus! {

/// ACME account credentials
///
/// This type contains the account ID, the private key data and the
/// server URLs from the relevant ACME server. This can be used to serialize
/// the account credentials to a file or secret manager and restore the
/// account from persistent storage.
#[must_use]
pub struct AccountCredentials {
    /// The URL of the account
    pub id: String,
    /// The private key: a PKCS#8 document in DER, which is stored as base64url
    pub key_pkcs8: Vec<u8>,
    /// The URL of the server's directory
    pub directory: Option<String>,
    /// The URLs of the server, in credentials that were stored without the directory's URL
    pub urls: Option<Directory>,
}

impl AccountCredentials {
    /// The account's private key
    pub fn private_key(&self) -> (key: &[u8])
        ensures
            key@ == self.key_pkcs8@,
    {
        self.key_pkcs8.as_slice()
    }

    /// The text in which the private key is stored
    pub fn encoded_key(&self) -> (text: String)
        requires
            base64url::encodable(self.key_pkcs8@.len()),
        ensures
            text@ == base64url::base64url(self.key_pkcs8@),
    {
        encode(self.key_pkcs8.as_slice())
    }

    /// The private key that is stored in a text
    pub fn decode_key(text: &str) -> (key: Result<Vec<u8>, StoredKeyError>)
        ensures
            match key {
                Ok(key) => stored_key(text@) == Some(key@),
                Err(err) => stored_key(text@) is None && err == StoredKeyError(
                    base64url::decode_error(text@),
                ),
            },
    {
        match decode(text) {
            Ok(key) => {
                assert forall|other: Seq<u8>| text@ == #[trigger] base64url::base64url(
                    other,
                ) implies other == key@ by {
                    base64url::law_encoding_is_injective(other, key@);
                }
                Ok(key)
            },
            Err(err) => Err(StoredKeyError(err)),
        }
    }
}

/// Why a text does not hold a private key: it is not base64url
#[derive(Debug)]
pub struct StoredKeyError(pub base64::DecodeError);

/// The private key that is stored in a text: the bytes of which it is the base64url encoding.
pub open spec fn stored_key(text: Seq<char>) -> Option<Seq<u8>> {
    if exists|key: Seq<u8>| text == #[trigger] base64url::base64url(key) {
        Some(choose|key: Seq<u8>| text == #[trigger] base64url::base64url(key))
    } else {
        None
    }
}

/// A private key is read back from the text in which it is stored.
pub proof fn law_stored_key_is_read_back(key: Seq<u8>)
    ensures
        stored_key(base64url::base64url(key)) == Some(key),
{
    let text = base64url::base64url(key);
    base64url::law_encoding_is_injective(
        choose|other: Seq<u8>| text == #[trigger] base64url::base64url(other),
        key,
    );
}

/// A text from which a private key is read is the text in which that key is stored.
pub proof fn law_stored_key_has_one_text(text: Seq<char>)
    ensures
        stored_key(text) matches Some(key) ==> base64url::base64url(key) == text,
{
}

/// Input data for the creation of an account
#[derive(Debug)]
pub struct NewAccount<'a> {
    /// A list of contact URIs (like `mailto:info@example.com`)
    pub contact: &'a [&'a str],
    /// Whether you agree to the terms of service
    pub terms_of_service_agreed: bool,
    /// Set to `true` in order to retrieve an existing account
    ///
    /// Setting this to `false` has not been tested.
    pub only_return_existing: bool,
}

/// What is sent to create an account
pub struct NewAccountPayload<'a> {
    /// The account to create
    pub new_account: &'a NewAccount<'a>,
    /// The proof that it is bound to an account outside of ACME
    pub external_account_binding: Option<JoseJson>,
}

/// The URLs of an ACME server
#[derive(Debug, Clone)]
pub struct Directory {
    /// Where to get a nonce
    pub new_nonce: String,
    /// Where to create an account
    pub new_account: String,
    /// Where to create an order
    pub new_order: String,
    // The fields below were added later and old `AccountCredentials` may not have it.
    // Newer fields should be optional, too.
    /// Where to authorize an identifier ahead of an order
    pub new_authz: Option<String>,
    /// Where to revoke a certificate
    pub revoke_cert: Option<String>,
    /// Where to change the key of an account
    pub key_change: Option<String>,
    /// Endpoint for the ACME renewal information (ARI) extension
    ///
    /// <https://www.rfc-editor.org/rfc/rfc9773.html>
    pub renewal_info: Option<String>,
    /// What else the server says of itself
    pub meta: Meta,
}

/// What an ACME server says of itself
#[derive(Clone, Debug)]
pub struct Meta {
    /// The description of each profile, by its name
    pub profiles: HashMap<String, String>,
}

/// Profile meta information from the server directory
#[derive(Clone, Copy, Debug)]
pub struct ProfileMeta<'a> {
    /// The name of the profile
    pub name: &'a str,
    /// What the server says of it
    pub description: &'a str,
}

/// Helper type to reference Let's Encrypt server URLs
#[derive(Clone, Copy, Debug)]
pub enum LetsEncrypt {
    Production,
    Staging,
}

impl LetsEncrypt {
    /// Get the directory URL for the given Let's Encrypt server
    pub fn url(&self) -> (url: &'static str)
        ensures
            url@ == match self {
                LetsEncrypt::Production => "https://acme-v02.api.letsencrypt.org/directory"@,
                LetsEncrypt::Staging => "https://acme-staging-v02.api.letsencrypt.org/directory"@,
            },
    {
        match self {
            LetsEncrypt::Production => "https://acme-v02.api.letsencrypt.org/directory",
            LetsEncrypt::Staging => "https://acme-staging-v02.api.letsencrypt.org/directory",
        }
    }
}

/// ZeroSSL ACME only supports production at the moment
#[derive(Clone, Copy, Debug)]
pub enum ZeroSsl {
    Production,
}

impl ZeroSsl {
    /// Get the directory URL for the given ZeroSSL server
    pub fn url(&self) -> (url: &'static str)
        ensures
            url@ == "https://acme.zerossl.com/v2/DV90"@,
    {
        match self {
            ZeroSsl::Production => "https://acme.zerossl.com/v2/DV90",
        }
    }
}

/// Attestation payload used for device-attest-01
///
/// See <https://datatracker.ietf.org/doc/draft-acme-device-attest/> for details.
pub struct DeviceAttestation<'a> {
    /// CBOR encoded attestation payload
    pub att_obj: Cow<'a, [u8]>,
}

/// The payload of a request that says nothing
#[derive(Debug)]
pub struct Empty {}

/// The private key of credentials is all that they hold of it, and the text
/// in which it is stored is the base64url encoding of all of it.
pub proof fn law_private_key_survives_storage(
    credentials: &AccountCredentials,
    key: &[u8],
    text: String,
)
    requires
        call_ensures(AccountCredentials::private_key, (credentials,), key),
        call_ensures(AccountCredentials::encoded_key, (credentials,), text),
    ensures
        key@ == credentials.key_pkcs8@,
        text@ == base64url::base64url(credentials.key_pkcs8@),
{
}

/// A private key is read from a text exactly if the text is the base64url encoding of some bytes,
/// and is then those bytes.
pub proof fn law_stored_keys_are_decoded(
    text: &str,
    key: Seq<u8>,
    result: Result<Vec<u8>, StoredKeyError>,
)
    requires
        call_ensures(AccountCredentials::decode_key, (text,), result),
    ensures
        text@ == base64url::base64url(key) ==> (result matches Ok(read) && read@ == key),
        result matches Ok(read) ==> text@ == base64url::base64url(read@),
        result matches Err(err) ==> err.0 == base64url::decode_error(text@),
{
    if text@ == base64url::base64url(key) {
        law_stored_key_is_read_back(key);
    }
}

/// The servers of Let's Encrypt have the URLs of its production and of its staging service, and that
/// of ZeroSSL has the URL of its production service.
pub proof fn law_server_urls(
    production: &'static str,
    staging: &'static str,
    zero_ssl: &'static str,
)
    requires
        call_ensures(LetsEncrypt::url, (&LetsEncrypt::Production,), production),
        call_ensures(LetsEncrypt::url, (&LetsEncrypt::Staging,), staging),
        call_ensures(ZeroSsl::url, (&ZeroSsl::Production,), zero_ssl),
    ensures
        production@ == "https://acme-v02.api.letsencrypt.org/directory"@,
        staging@ == "https://acme-staging-v02.api.letsencrypt.org/directory"@,
        zero_ssl@ == "https://acme.zerossl.com/v2/DV90"@,
{
}

} // verus!
