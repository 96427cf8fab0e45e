//! JSON Web Keys.

use crate::base64url::{self, encode, is_encodable};
use crate::json::{self, write_object};
use crate::text;
use vstd::prelude::*;

verus! {

/// Algorithm identifier for JWS headers
///
/// See the [IANA JOSE registry](https://www.iana.org/assignments/jose/jose.xhtml#web-signature-encryption-algorithms)
/// for the full list of registered algorithms.
#[derive(Clone, Copy, Debug)]
#[non_exhaustive]
pub enum SigningAlgorithm {
    /// EdDSA using the Ed25519 parameter set in Section 5.1 of [RFC 8032](https://www.rfc-editor.org/rfc/rfc8032)
    ///
    /// [RFC 9864, Section 2.2](https://www.rfc-editor.org/rfc/rfc9864#section-2.2)
    Ed25519,
    /// ECDSA using P-256 and SHA-256
    ///
    /// [RFC 7518, Section 3.4](https://www.rfc-editor.org/rfc/rfc7518#section-3.4)
    Es256,
    /// ECDSA using P-384 and SHA-384
    ///
    /// [RFC 7518, Section 3.4](https://www.rfc-editor.org/rfc/rfc7518#section-3.4)
    Es384,
    /// HMAC using SHA-256
    ///
    /// [RFC 7518, Section 3.2](https://www.rfc-editor.org/rfc/rfc7518#section-3.2)
    Hs256,
    /// RSASSA-PKCS1-v1_5 using SHA-256
    ///
    /// [RFC 7518, Section 3.3](https://www.rfc-editor.org/rfc/rfc7518#section-3.3)
    Rs256,
    /// Other algorithm not represented in the enum
    Other(&'static str),
}

/// A JSON Web Key (JWK) as used in JWS headers
///
/// See [RFC 7517](https://www.rfc-editor.org/rfc/rfc7517) for more information.
#[derive(Debug)]
pub struct Jwk<'a> {
    /// The algorithm intended for use with this key
    pub alg: SigningAlgorithm,
    /// Key-type-specific parameters
    pub key: JwkThumbFields<'a>,
    /// The intended use (`"sig"` for signing)
    pub intended_use: &'static str,
}

/// Key-type-specific JWK parameters
///
/// Each variant's fields are declared in lexicographic order for correct
/// [RFC 7638](https://www.rfc-editor.org/rfc/rfc7638) thumbprint computation.
#[derive(Debug)]
#[non_exhaustive]
pub enum JwkThumbFields<'a> {
    /// Elliptic Curve key (P-256, P-384, etc.)
    Ec {
        /// The curve name
        crv: EcCurve,
        /// The x coordinate (serialized as base64url)
        x: &'a [u8],
        /// The y coordinate (serialized as base64url)
        y: &'a [u8],
    },
    /// Octet Key Pair (Ed25519, Ed448, X25519, etc.)
    Okp {
        /// The curve name
        crv: OctetKeyCurve,
        /// The public key (serialized as base64url)
        x: &'a [u8],
    },
    /// RSA key
    Rsa {
        /// The public exponent (serialized as base64url)
        e: &'a [u8],
        /// The modulus (serialized as base64url)
        n: &'a [u8],
    },
}

/// Elliptic curve names for EC keys
#[derive(Clone, Copy, Debug)]
#[non_exhaustive]
pub enum EcCurve {
    /// P-256, <https://www.iana.org/go/rfc7518#section-6.2.1.1>
    P256,
    /// P-384, <https://www.iana.org/go/rfc7518#section-6.2.1.1>
    P384,
    /// P-521, <https://www.iana.org/go/rfc7518#section-6.2.1.1>
    P521,
}

/// Elliptic curve names for OKP keys
#[derive(Clone, Copy, Debug)]
#[non_exhaustive]
pub enum OctetKeyCurve {
    /// Ed25519, <https://datatracker.ietf.org/doc/html/rfc8037#section-3.1>
    Ed25519,
    /// Ed448, <https://datatracker.ietf.org/doc/html/rfc8037#section-3.1>
    Ed448,
    /// X25519, <https://datatracker.ietf.org/doc/html/rfc8037#section-3.2>
    X25519,
    /// X448, <https://datatracker.ietf.org/doc/html/rfc8037#section-3.2>
    X448,
}

impl EcCurve {
    /// The name of the curve.
    pub open spec fn spec_name(self) -> Seq<char> {
        match self {
            EcCurve::P256 => "P-256"@,
            EcCurve::P384 => "P-384"@,
            EcCurve::P521 => "P-521"@,
        }
    }

    /// The name of the curve in the IANA registry
    pub fn name(&self) -> (name: &'static str)
        ensures
            name@ == self.spec_name(),
    {
        match self {
            EcCurve::P256 => "P-256",
            EcCurve::P384 => "P-384",
            EcCurve::P521 => "P-521",
        }
    }
}

impl OctetKeyCurve {
    /// The name of the curve.
    pub open spec fn spec_name(self) -> Seq<char> {
        match self {
            OctetKeyCurve::Ed25519 => "Ed25519"@,
            OctetKeyCurve::Ed448 => "Ed448"@,
            OctetKeyCurve::X25519 => "X25519"@,
            OctetKeyCurve::X448 => "X448"@,
        }
    }

    /// The name of the curve in the IANA registry
    pub fn name(&self) -> (name: &'static str)
        ensures
            name@ == self.spec_name(),
    {
        match self {
            OctetKeyCurve::Ed25519 => "Ed25519",
            OctetKeyCurve::Ed448 => "Ed448",
            OctetKeyCurve::X25519 => "X25519",
            OctetKeyCurve::X448 => "X448",
        }
    }
}

impl<'a> JwkThumbFields<'a> {
    /// The members of the key in a JWK, by name and value, in lexicographic order of the names.
    pub open spec fn spec_members(self) -> Seq<(Seq<char>, Seq<char>)> {
        match self {
            JwkThumbFields::Ec { crv, x, y } => seq![
                ("crv"@, crv.spec_name()),
                ("kty"@, "EC"@),
                ("x"@, base64url::base64url(x@)),
                ("y"@, base64url::base64url(y@)),
            ],
            JwkThumbFields::Okp { crv, x } => seq![
                ("crv"@, crv.spec_name()),
                ("kty"@, "OKP"@),
                ("x"@, base64url::base64url(x@)),
            ],
            JwkThumbFields::Rsa { e, n } => seq![
                ("e"@, base64url::base64url(e@)),
                ("kty"@, "RSA"@),
                ("n"@, base64url::base64url(n@)),
            ],
        }
    }

    /// Whether the parameters are short enough to be encoded.
    pub open spec fn encodable(self) -> bool {
        match self {
            JwkThumbFields::Ec { crv: _, x, y } => {
                &&& base64url::encodable(x@.len())
                &&& base64url::encodable(y@.len())
            },
            JwkThumbFields::Okp { crv: _, x } => base64url::encodable(x@.len()),
            JwkThumbFields::Rsa { e, n } => {
                &&& base64url::encodable(e@.len())
                &&& base64url::encodable(n@.len())
            },
        }
    }

    /// Whether the parameters are short enough to be encoded
    pub fn is_encodable(&self) -> (is: bool)
        ensures
            is == self.encodable(),
    {
        match self {
            JwkThumbFields::Ec { crv: _, x, y } => is_encodable(x.len()) && is_encodable(y.len()),
            JwkThumbFields::Okp { crv: _, x } => is_encodable(x.len()),
            JwkThumbFields::Rsa { e, n } => is_encodable(e.len()) && is_encodable(n.len()),
        }
    }

    /// The members of the key in a JWK, by name and value
    ///
    /// They are in lexicographic order of their names, as thumbprints need them. In particular,
    /// this means the `kty` member comes after `crv` or `e`.
    /// <https://www.rfc-editor.org/rfc/rfc7638#section-3.3>
    pub fn members(&self) -> (members: Vec<(&'static str, String)>)
        requires
            self.encodable(),
        ensures
            json::member_texts(members@) == self.spec_members(),
    {
        let members = match self {
            JwkThumbFields::Ec { crv, x, y } => vec![
                ("crv", crv.name().to_owned()),
                ("kty", "EC".to_owned()),
                ("x", encode(x)),
                ("y", encode(y)),
            ],
            JwkThumbFields::Okp { crv, x } => vec![
                ("crv", crv.name().to_owned()),
                ("kty", "OKP".to_owned()),
                ("x", encode(x)),
            ],
            JwkThumbFields::Rsa { e, n } => vec![
                ("e", encode(e)),
                ("kty", "RSA".to_owned()),
                ("n", encode(n)),
            ],
        };
        assert(json::member_texts(members@) =~= self.spec_members());
        members
    }

    /// The JSON object that the thumbprint of the key is computed from
    pub fn thumb_json(&self) -> (json: Result<Vec<u8>, serde_json::Error>)
        requires
            self.encodable(),
        ensures
            json matches Ok(bytes) && bytes@ == vstd::utf8::encode_utf8(
                json::json_object(self.spec_members()),
            ),
    {
        write_object(&self.members())
    }
}

/// A SHA-256 implementation, as a crypto provider supplies it
pub trait Sha256 {
    /// The SHA-256 hash of `data`
    fn hash(&self, data: &[u8]) -> [u8; 32];
}

impl<'a> Jwk<'a> {
    /// Compute the [RFC 7638](https://www.rfc-editor.org/rfc/rfc7638) JWK thumbprint.
    ///
    /// Serializes only the required key-type-specific members in lexicographic order,
    /// then hashes with SHA-256.
    pub fn thumb_sha256<S: Sha256 + ?Sized>(&self, sha256: &S) -> (thumb: Result<
        [u8; 32],
        serde_json::Error,
    >)
        requires
            self.key.encodable(),
        ensures
            thumb matches Ok(hash) && exists|data: &[u8]|
                data@ == vstd::utf8::encode_utf8(json::json_object(self.key.spec_members()))
                    && call_ensures(S::hash, (sha256, data), hash),
    {
        match self.key.thumb_json() {
            Ok(json) => Ok(sha256.hash(json.as_slice())),
            Err(err) => Err(err),
        }
    }
}

/// `a` comes before `b` in the lexicographic order of their characters.
pub open spec fn precedes(a: Seq<char>, b: Seq<char>) -> bool {
    exists|n: int|
        {
            &&& 0 <= n <= a.len()
            &&& n < b.len()
            &&& #[trigger] a.take(n) == b.take(n)
            &&& n < a.len() ==> a[n] < b[n]
        }
}

proof fn lemma_precedes_at_once(a: Seq<char>, b: Seq<char>)
    requires
        a.len() > 0,
        b.len() > 0,
        a[0] < b[0],
    ensures
        precedes(a, b),
{
    assert(a.take(0) =~= b.take(0));
}

/// The members that a thumbprint is computed from are in strictly lexicographic order of their
/// names, as RFC 7638 asks for.
pub proof fn law_members_in_lexicographic_order(key: JwkThumbFields<'_>, i: int)
    requires
        0 <= i < key.spec_members().len() - 1,
    ensures
        precedes(key.spec_members()[i].0, key.spec_members()[i + 1].0),
{
    reveal_strlit("crv");
    reveal_strlit("e");
    reveal_strlit("kty");
    reveal_strlit("n");
    reveal_strlit("x");
    reveal_strlit("y");
    lemma_precedes_at_once(key.spec_members()[i].0, key.spec_members()[i + 1].0);
}

proof fn lemma_members_are_plain(key: JwkThumbFields<'_>)
    ensures
        json::are_plain(key.spec_members()),
{
    reveal_strlit("crv");
    reveal_strlit("e");
    reveal_strlit("kty");
    reveal_strlit("n");
    reveal_strlit("x");
    reveal_strlit("y");
    reveal_strlit("EC");
    reveal_strlit("OKP");
    reveal_strlit("RSA");
    reveal_strlit("P-256");
    reveal_strlit("P-384");
    reveal_strlit("P-521");
    reveal_strlit("Ed25519");
    reveal_strlit("Ed448");
    reveal_strlit("X25519");
    reveal_strlit("X448");
    assert forall|bytes: Seq<u8>, k: int|
        0 <= k < base64url::base64url(bytes).len() implies json::is_plain(
        #[trigger] base64url::base64url(bytes)[k],
    ) by {
        base64url::law_encoding_is_url_safe(bytes);
        assert(base64url::is_symbol(base64url::base64url(bytes)[k]));
    }
}

/// No name or value among the members that a thumbprint is computed from needs an escape: each
/// stands in the JSON object as it is, between quotes.
pub proof fn law_members_need_no_escape(key: JwkThumbFields<'_>, i: int)
    requires
        0 <= i < key.spec_members().len(),
    ensures
        ({
            let (name, value) = key.spec_members()[i];
            &&& json::json_string(name) == seq!['"'] + name + seq!['"']
            &&& json::json_string(value) == seq!['"'] + value + seq!['"']
        }),
{
    lemma_members_are_plain(key);
    let members = key.spec_members();
    assert forall|k: int| 0 <= k < members[i].0.len() implies json::is_plain(
        #[trigger] members[i].0[k],
    ) by {}
    assert forall|k: int| 0 <= k < members[i].1.len() implies json::is_plain(
        #[trigger] members[i].1[k],
    ) by {}
    json::lemma_plain_json(members[i].0);
    json::lemma_plain_json(members[i].1);
}

/// Two keys are the same: of one type, with the same parameters.
pub open spec fn same_key(a: JwkThumbFields<'_>, b: JwkThumbFields<'_>) -> bool {
    match (a, b) {
        (JwkThumbFields::Ec { crv, x, y }, JwkThumbFields::Ec { crv: c, x: v, y: w }) => crv == c
            && x@ == v@ && y@ == w@,
        (JwkThumbFields::Okp { crv, x }, JwkThumbFields::Okp { crv: c, x: v }) => crv == c && x@
            == v@,
        (JwkThumbFields::Rsa { e, n }, JwkThumbFields::Rsa { e: d, n: m }) => e@ == d@ && n@ == m@,
        _ => false,
    }
}

/// What a thumbprint is computed from tells the key: it is the same for two keys exactly if they
/// are the same key.
pub proof fn law_thumbprint_input_tells_the_key(a: JwkThumbFields<'_>, b: JwkThumbFields<'_>)
    ensures
        json::json_object(a.spec_members()) == json::json_object(b.spec_members()) <==> same_key(
            a,
            b,
        ),
{
    if json::json_object(a.spec_members()) == json::json_object(b.spec_members()) {
        lemma_members_are_plain(a);
        lemma_members_are_plain(b);
        json::law_plain_objects_tell_their_members(a.spec_members(), b.spec_members());
        lemma_members_tell_the_key(a, b);
    }
}

proof fn lemma_ec_curve_names(a: EcCurve, b: EcCurve)
    requires
        a.spec_name() == b.spec_name(),
    ensures
        a == b,
{
    reveal_strlit("P-256");
    reveal_strlit("P-384");
    reveal_strlit("P-521");
    assert("P-256"@[2] == '2' && "P-384"@[2] == '3' && "P-521"@[2] == '5');
}

proof fn lemma_octet_key_curve_names(a: OctetKeyCurve, b: OctetKeyCurve)
    requires
        a.spec_name() == b.spec_name(),
    ensures
        a == b,
{
    reveal_strlit("Ed25519");
    reveal_strlit("Ed448");
    reveal_strlit("X25519");
    reveal_strlit("X448");
    assert("Ed25519"@.len() == 7 && "Ed448"@.len() == 5);
    assert("X25519"@.len() == 6 && "X448"@.len() == 4);
}

proof fn lemma_same_encoding(name: Seq<char>, a: Seq<u8>, b: Seq<u8>)
    requires
        (name, base64url::base64url(a)) == (name, base64url::base64url(b)),
    ensures
        a == b,
{
    base64url::law_encoding_is_injective(a, b);
}

proof fn lemma_members_tell_the_key(a: JwkThumbFields<'_>, b: JwkThumbFields<'_>)
    requires
        a.spec_members() == b.spec_members(),
    ensures
        same_key(a, b),
{
    let (m, n) = (a.spec_members(), b.spec_members());
    match (a, b) {
        (JwkThumbFields::Ec { crv, x, y }, JwkThumbFields::Ec { crv: c, x: v, y: w }) => {
            assert(m[0] == n[0] && m[2] == n[2] && m[3] == n[3]);
            lemma_ec_curve_names(crv, c);
            lemma_same_encoding("x"@, x@, v@);
            lemma_same_encoding("y"@, y@, w@);
        },
        (JwkThumbFields::Okp { crv, x }, JwkThumbFields::Okp { crv: c, x: v }) => {
            assert(m[0] == n[0] && m[2] == n[2]);
            lemma_octet_key_curve_names(crv, c);
            lemma_same_encoding("x"@, x@, v@);
        },
        (JwkThumbFields::Rsa { e, n: modulus }, JwkThumbFields::Rsa { e: d, n: other }) => {
            assert(m[0] == n[0] && m[2] == n[2]);
            lemma_same_encoding("e"@, e@, d@);
            lemma_same_encoding("n"@, modulus@, other@);
        },
        _ => {
            assert(m.len() == n.len() && m[0] == n[0]);
            assert("crv"@ != "e"@) by {
                reveal_strlit("crv");
                reveal_strlit("e");
                assert("crv"@.len() != "e"@.len());
            }
        },
    }
}

/// Each member holds the parameter that its name says: the curve, the type of the key, and the
/// base64url encodings of the coordinates, of the octets, or of the exponent and the modulus.
pub proof fn law_members_hold_their_parameters(
    key: &JwkThumbFields<'_>,
    members: Vec<(&'static str, String)>,
)
    requires
        call_ensures(JwkThumbFields::members, (key,), members),
    ensures
        match *key {
            JwkThumbFields::Ec { crv, x, y } => {
                &&& members@.len() == 4
                &&& members@[0].0@ == "crv"@ && members@[0].1@ == match crv {
                    EcCurve::P256 => "P-256"@,
                    EcCurve::P384 => "P-384"@,
                    EcCurve::P521 => "P-521"@,
                }
                &&& members@[1].0@ == "kty"@ && members@[1].1@ == "EC"@
                &&& members@[2].0@ == "x"@ && members@[2].1@ == base64url::base64url(x@)
                &&& members@[3].0@ == "y"@ && members@[3].1@ == base64url::base64url(y@)
            },
            JwkThumbFields::Okp { crv, x } => {
                &&& members@.len() == 3
                &&& members@[0].0@ == "crv"@ && members@[0].1@ == match crv {
                    OctetKeyCurve::Ed25519 => "Ed25519"@,
                    OctetKeyCurve::Ed448 => "Ed448"@,
                    OctetKeyCurve::X25519 => "X25519"@,
                    OctetKeyCurve::X448 => "X448"@,
                }
                &&& members@[1].0@ == "kty"@ && members@[1].1@ == "OKP"@
                &&& members@[2].0@ == "x"@ && members@[2].1@ == base64url::base64url(x@)
            },
            JwkThumbFields::Rsa { e, n } => {
                &&& members@.len() == 3
                &&& members@[0].0@ == "e"@ && members@[0].1@ == base64url::base64url(e@)
                &&& members@[1].0@ == "kty"@ && members@[1].1@ == "RSA"@
                &&& members@[2].0@ == "n"@ && members@[2].1@ == base64url::base64url(n@)
            },
        },
{
    let texts = json::member_texts(members@);
    assert(members@.len() == texts.len());
    assert forall|i: int| 0 <= i < members@.len() implies #[trigger] texts[i] == (
        members@[i].0@,
        members@[i].1@,
    ) by {}
    let (a, b, c) = (texts[0], texts[1], texts[2]);
    assert(a == key.spec_members()[0] && b == key.spec_members()[1] && c == key.spec_members()[2]);
    if key is Ec {
        assert(texts[3] == key.spec_members()[3]);
    }
}

/// The text that a thumbprint is computed from, written out.
pub open spec fn thumb_text(key: JwkThumbFields<'_>) -> Seq<char> {
    match key {
        JwkThumbFields::Ec { crv, x, y } => "{\"crv\":\""@ + crv.spec_name()
            + "\",\"kty\":\"EC\",\"x\":\""@ + base64url::base64url(x@) + "\",\"y\":\""@
            + base64url::base64url(y@) + "\"}"@,
        JwkThumbFields::Okp { crv, x } => "{\"crv\":\""@ + crv.spec_name()
            + "\",\"kty\":\"OKP\",\"x\":\""@ + base64url::base64url(x@) + "\"}"@,
        JwkThumbFields::Rsa { e, n } => "{\"e\":\""@ + base64url::base64url(e@)
            + "\",\"kty\":\"RSA\",\"n\":\""@ + base64url::base64url(n@) + "\"}"@,
    }
}

proof fn lemma_plain_member(key: JwkThumbFields<'_>, i: int)
    requires
        0 <= i < key.spec_members().len(),
    ensures
        ({
            let (name, value) = key.spec_members()[i];
            json::json_member(key.spec_members()[i]) == seq!['"'] + name + seq!['"', ':', '"']
                + value + seq!['"']
        }),
{
    law_members_need_no_escape(key, i);
    let (name, value) = key.spec_members()[i];
    assert(json::json_member(key.spec_members()[i]) =~= seq!['"'] + name + seq!['"', ':', '"']
        + value + seq!['"']);
}

proof fn lemma_three_members(
    members: Seq<(Seq<char>, Seq<char>)>,
    a: Seq<char>,
    b: Seq<char>,
    c: Seq<char>,
)
    requires
        members.len() == 3,
        a == json::json_member(members[0]),
        b == json::json_member(members[1]),
        c == json::json_member(members[2]),
    ensures
        json::json_object(members) == seq!['{'] + a + seq![','] + b + seq![','] + c + seq!['}'],
{
    let texts = members.map_values(|member: (Seq<char>, Seq<char>)| json::json_member(member));
    assert(texts =~= seq![a, b, c]);
    assert(texts.drop_last() =~= seq![a, b]);
    assert(texts.drop_last().drop_last() =~= seq![a]);
    reveal_with_fuel(text::joined, 4);
    assert(text::joined(texts, seq![',']) =~= a + seq![','] + b + seq![','] + c);
    assert(json::json_object(members) =~= seq!['{'] + a + seq![','] + b + seq![','] + c
        + seq!['}']);
}

proof fn lemma_four_members(
    members: Seq<(Seq<char>, Seq<char>)>,
    a: Seq<char>,
    b: Seq<char>,
    c: Seq<char>,
    d: Seq<char>,
)
    requires
        members.len() == 4,
        a == json::json_member(members[0]),
        b == json::json_member(members[1]),
        c == json::json_member(members[2]),
        d == json::json_member(members[3]),
    ensures
        json::json_object(members) == seq!['{'] + a + seq![','] + b + seq![','] + c + seq![','] + d
            + seq!['}'],
{
    let texts = members.map_values(|member: (Seq<char>, Seq<char>)| json::json_member(member));
    assert(texts =~= seq![a, b, c, d]);
    assert(texts.drop_last() =~= seq![a, b, c]);
    assert(texts.drop_last().drop_last() =~= seq![a, b]);
    assert(texts.drop_last().drop_last().drop_last() =~= seq![a]);
    reveal_with_fuel(text::joined, 5);
    assert(text::joined(texts, seq![',']) =~= a + seq![','] + b + seq![','] + c + seq![','] + d);
    assert(json::json_object(members) =~= seq!['{'] + a + seq![','] + b + seq![','] + c + seq![',']
        + d + seq!['}']);
}

proof fn lemma_thumb_text(key: JwkThumbFields<'_>)
    ensures
        json::json_object(key.spec_members()) == thumb_text(key),
{
    let members = key.spec_members();
    lemma_plain_member(key, 0);
    lemma_plain_member(key, 1);
    lemma_plain_member(key, 2);
    let a = json::json_member(members[0]);
    let b = json::json_member(members[1]);
    let c = json::json_member(members[2]);
    match key {
        JwkThumbFields::Ec { crv, x, y } => {
            lemma_plain_member(key, 3);
            lemma_four_members(members, a, b, c, json::json_member(members[3]));
            lemma_ec_text(crv.spec_name(), base64url::base64url(x@), base64url::base64url(y@));
        },
        JwkThumbFields::Okp { crv, x } => {
            lemma_three_members(members, a, b, c);
            lemma_okp_text(crv.spec_name(), base64url::base64url(x@));
        },
        JwkThumbFields::Rsa { e, n } => {
            lemma_three_members(members, a, b, c);
            lemma_rsa_text(base64url::base64url(e@), base64url::base64url(n@));
        },
    }
}

spec fn quoted(name: Seq<char>, value: Seq<char>) -> Seq<char> {
    seq!['"'] + name + seq!['"', ':', '"'] + value + seq!['"']
}

proof fn lemma_ec_text(crv: Seq<char>, x: Seq<char>, y: Seq<char>)
    ensures
        seq!['{'] + quoted("crv"@, crv) + seq![','] + quoted("kty"@, "EC"@) + seq![','] + quoted(
            "x"@,
            x,
        ) + seq![','] + quoted("y"@, y) + seq!['}'] == "{\"crv\":\""@ + crv
            + "\",\"kty\":\"EC\",\"x\":\""@ + x + "\",\"y\":\""@ + y + "\"}"@,
{
    reveal_strlit("crv");
    reveal_strlit("kty");
    reveal_strlit("EC");
    reveal_strlit("x");
    reveal_strlit("y");
    reveal_strlit("{\"crv\":\"");
    reveal_strlit("\",\"kty\":\"EC\",\"x\":\"");
    reveal_strlit("\",\"y\":\"");
    reveal_strlit("\"}");
    assert(seq!['{'] + quoted("crv"@, crv) + seq![','] + quoted("kty"@, "EC"@) + seq![','] + quoted(
        "x"@,
        x,
    ) + seq![','] + quoted("y"@, y) + seq!['}'] =~= "{\"crv\":\""@ + crv
        + "\",\"kty\":\"EC\",\"x\":\""@ + x + "\",\"y\":\""@ + y + "\"}"@);
}

proof fn lemma_okp_text(crv: Seq<char>, x: Seq<char>)
    ensures
        seq!['{'] + quoted("crv"@, crv) + seq![','] + quoted("kty"@, "OKP"@) + seq![','] + quoted(
            "x"@,
            x,
        ) + seq!['}'] == "{\"crv\":\""@ + crv + "\",\"kty\":\"OKP\",\"x\":\""@ + x + "\"}"@,
{
    reveal_strlit("crv");
    reveal_strlit("kty");
    reveal_strlit("OKP");
    reveal_strlit("x");
    reveal_strlit("{\"crv\":\"");
    reveal_strlit("\",\"kty\":\"OKP\",\"x\":\"");
    reveal_strlit("\"}");
    assert(seq!['{'] + quoted("crv"@, crv) + seq![','] + quoted("kty"@, "OKP"@) + seq![',']
        + quoted("x"@, x) + seq!['}'] =~= "{\"crv\":\""@ + crv
        + "\",\"kty\":\"OKP\",\"x\":\""@ + x + "\"}"@);
}

proof fn lemma_rsa_text(e: Seq<char>, n: Seq<char>)
    ensures
        seq!['{'] + quoted("e"@, e) + seq![','] + quoted("kty"@, "RSA"@) + seq![','] + quoted(
            "n"@,
            n,
        ) + seq!['}'] == "{\"e\":\""@ + e + "\",\"kty\":\"RSA\",\"n\":\""@ + n + "\"}"@,
{
    reveal_strlit("e");
    reveal_strlit("kty");
    reveal_strlit("RSA");
    reveal_strlit("n");
    reveal_strlit("{\"e\":\"");
    reveal_strlit("\",\"kty\":\"RSA\",\"n\":\"");
    reveal_strlit("\"}");
    assert(seq!['{'] + quoted("e"@, e) + seq![','] + quoted("kty"@, "RSA"@) + seq![','] + quoted(
        "n"@,
        n,
    ) + seq!['}'] =~= "{\"e\":\""@ + e + "\",\"kty\":\"RSA\",\"n\":\""@ + n + "\"}"@);
}

/// The thumbprint of a JWK is the hash of the text of its key, written out: the members in
/// lexicographic order, without white space, each with the parameter that its name says.
pub proof fn law_thumbprint_is_the_hash_of_the_key_text<S: Sha256>(
    jwk: &Jwk<'_>,
    sha256: &S,
    json: Result<Vec<u8>, serde_json::Error>,
    thumb: Result<[u8; 32], serde_json::Error>,
)
    requires
        call_ensures(JwkThumbFields::thumb_json, (&jwk.key,), json),
        call_ensures(Jwk::thumb_sha256::<S>, (jwk, sha256), thumb),
    ensures
        json matches Ok(bytes) && bytes@ == vstd::utf8::encode_utf8(thumb_text(jwk.key)),
        thumb matches Ok(hash) && exists|data: &[u8]|
            data@ == vstd::utf8::encode_utf8(thumb_text(jwk.key)) && #[trigger] call_ensures(
                S::hash,
                (sha256, data),
                hash,
            ),
{
    lemma_thumb_text(jwk.key);
}

/// A key can be encoded exactly if each of its parameters can.
pub proof fn law_encodable_keys(key: &JwkThumbFields<'_>, is: bool)
    requires
        call_ensures(JwkThumbFields::is_encodable, (key,), is),
    ensures
        is <==> match *key {
            JwkThumbFields::Ec { crv: _, x, y } => {
                &&& (4 * x@.len() + 2) / 3 <= isize::MAX
                &&& (4 * y@.len() + 2) / 3 <= isize::MAX
            },
            JwkThumbFields::Okp { crv: _, x } => (4 * x@.len() + 2) / 3 <= isize::MAX,
            JwkThumbFields::Rsa { e, n } => {
                &&& (4 * e@.len() + 2) / 3 <= isize::MAX
                &&& (4 * n@.len() + 2) / 3 <= isize::MAX
            },
        },
{
}

} // verus!
