//! The checks of a certification request against the identifiers of an order.

use crate::csr::{CsrError, CsrPolicy};
use crate::identifier::{AuthorizedIdentifier, Identifier};
use crate::ip::{self, IpAddr};
use crate::request::{
    self, AltName, AltNameView, CertificationRequest, ExtensionView, RequestView,
    RequestedExtension,
};
use crate::text;
use vstd::prelude::*;

verus! {

/// A [`CsrError`], with its texts.
pub enum CsrErrorView {
    AccountKeyReuse,
    BadSignature,
    CommonNameNotInSan(Seq<char>),
    MissingIdentifier(Seq<char>),
    NoSubjectAltName,
    Parse(Seq<char>),
    UnexpectedIdentifier(Seq<char>),
}

impl View for CsrError {
    type V = CsrErrorView;

    open spec fn view(&self) -> CsrErrorView {
        match self {
            CsrError::AccountKeyReuse => CsrErrorView::AccountKeyReuse,
            CsrError::BadSignature => CsrErrorView::BadSignature,
            CsrError::CommonNameNotInSan(name) => CsrErrorView::CommonNameNotInSan(name@),
            CsrError::MissingIdentifier(name) => CsrErrorView::MissingIdentifier(name@),
            CsrError::NoSubjectAltName => CsrErrorView::NoSubjectAltName,
            CsrError::Parse(what) => CsrErrorView::Parse(what@),
            CsrError::UnexpectedIdentifier(name) => CsrErrorView::UnexpectedIdentifier(name@),
        }
    }
}

impl CsrErrorView {
    /// The message of the error.
    pub open spec fn text(self) -> Seq<char> {
        match self {
            CsrErrorView::AccountKeyReuse => "the CSR's public key is the ACME account key"@,
            CsrErrorView::BadSignature => "the CSR's signature does not verify"@,
            CsrErrorView::CommonNameNotInSan(name) => "common name `"@ + name
                + "` is missing from the CSR's subjectAltName extension"@,
            CsrErrorView::MissingIdentifier(name) => "the CSR does not cover identifier `"@ + name
                + "`"@,
            CsrErrorView::NoSubjectAltName => "the CSR has no subjectAltName extension"@,
            CsrErrorView::Parse(what) => "failed to parse the CSR: "@ + what,
            CsrErrorView::UnexpectedIdentifier(name) => "the CSR asks for identifier `"@ + name
                + "`, which the order does not authorize"@,
        }
    }
}

/// The outcome of a check, with the texts of its error.
pub open spec fn outcome(result: Result<(), CsrError>) -> Result<(), CsrErrorView> {
    match result {
        Ok(()) => Ok(()),
        Err(err) => Err(err@),
    }
}

/// The texts of strings.
pub open spec fn texts(strings: Seq<String>) -> Seq<Seq<char>> {
    strings.map_values(|string: String| string@)
}

/// The octets of addresses.
pub open spec fn octets(addrs: Seq<IpAddr>) -> Seq<Seq<u8>> {
    addrs.map_values(|addr: IpAddr| addr@)
}

/// The values that are there, in order.
pub open spec fn present<T>(values: Seq<Option<T>>) -> Seq<T>
    decreases values.len(),
{
    if values.len() == 0 {
        seq![]
    } else {
        match values.last() {
            Some(value) => present(values.drop_last()).push(value),
            None => present(values.drop_last()),
        }
    }
}

/// The first of `values` that is not `among` the others.
pub open spec fn first_missing<T>(values: Seq<T>, among: Seq<T>) -> Option<T>
    decreases values.len(),
{
    if values.len() == 0 {
        None
    } else if !among.contains(values[0]) {
        Some(values[0])
    } else {
        first_missing(values.skip(1), among)
    }
}

/// The DNS name that an order authorizes through one of its identifiers: in lower case, and with
/// the wildcard label where it is a wildcard.
pub open spec fn authorized_dns(authorized: AuthorizedIdentifier<'_>) -> Option<Seq<char>> {
    match *authorized.identifier {
        Identifier::Dns(name) => Some(
            if authorized.wildcard {
                "*."@ + text::ascii_lowercase(name@)
            } else {
                text::ascii_lowercase(name@)
            },
        ),
        _ => None,
    }
}

/// The IP address that an order authorizes through one of its identifiers.
pub open spec fn authorized_ip(authorized: AuthorizedIdentifier<'_>) -> Option<Seq<u8>> {
    match *authorized.identifier {
        Identifier::Ip(addr) => Some(addr@),
        _ => None,
    }
}

/// The DNS names that an order authorizes.
pub open spec fn wanted_dns(identifiers: Seq<AuthorizedIdentifier<'_>>) -> Seq<Seq<char>> {
    present(identifiers.map_values(|id: AuthorizedIdentifier<'_>| authorized_dns(id)))
}

/// The IP addresses that an order authorizes.
pub open spec fn wanted_ips(identifiers: Seq<AuthorizedIdentifier<'_>>) -> Seq<Seq<u8>> {
    present(identifiers.map_values(|id: AuthorizedIdentifier<'_>| authorized_ip(id)))
}

/// The DNS name that a subjectAltName value asks for, in lower case.
pub open spec fn requested_dns_name(name: AltNameView) -> Option<Seq<char>> {
    match name {
        AltNameView::Dns(name) => Some(text::ascii_lowercase(name)),
        _ => None,
    }
}

/// The octets of the IP address that a subjectAltName value asks for.
pub open spec fn requested_ip(name: AltNameView) -> Option<Seq<u8>> {
    match name {
        AltNameView::Ip(octets) => Some(octets),
        _ => None,
    }
}

/// The DNS names that subjectAltName values ask for.
pub open spec fn requested_dns(names: Seq<AltNameView>) -> Seq<Seq<char>> {
    present(names.map_values(|name: AltNameView| requested_dns_name(name)))
}

/// The IP addresses that subjectAltName values ask for.
pub open spec fn requested_ips(names: Seq<AltNameView>) -> Seq<Seq<u8>> {
    present(names.map_values(|name: AltNameView| requested_ip(name)))
}

/// An IP address of neither four nor sixteen octets.
pub open spec fn malformed_ip(name: AltNameView) -> bool {
    name matches AltNameView::Ip(octets) && octets.len() != 4 && octets.len() != 16
}

/// An identifier that is for attestation.
pub open spec fn is_attestation(authorized: AuthorizedIdentifier<'_>) -> bool {
    authorized.identifier is PermanentIdentifier || authorized.identifier is HardwareModule
}

/// Whether an order has an identifier that is for attestation.
pub open spec fn attests(identifiers: Seq<AuthorizedIdentifier<'_>>) -> bool {
    exists|i: int| 0 <= i < identifiers.len() && is_attestation(#[trigger] identifiers[i])
}

/// The text of a subjectAltName value of a type that the order does not authorize: it is neither
/// a DNS name nor an IP address, nor is it an otherName in an order with attestation identifiers,
/// which are expressed that way and cannot be compared.
pub open spec fn unlisted_name(name: AltNameView, attested: bool) -> Option<Seq<char>> {
    match name {
        AltNameView::Other(text) => Some(text),
        AltNameView::OtherName(text) => if attested {
            None
        } else {
            Some(text)
        },
        _ => None,
    }
}

/// The text of the first subjectAltName value of a type that the order does not authorize.
pub open spec fn first_unlisted(names: Seq<AltNameView>, attested: bool) -> Option<Seq<char>>
    decreases names.len(),
{
    if names.len() == 0 {
        None
    } else if unlisted_name(names[0], attested) is Some {
        unlisted_name(names[0], attested)
    } else {
        first_unlisted(names.skip(1), attested)
    }
}

/// The names of all the subjectAltName extensions among `extensions`.
pub open spec fn alt_names(extensions: Seq<ExtensionView>) -> Seq<AltNameView>
    decreases extensions.len(),
{
    if extensions.len() == 0 {
        seq![]
    } else {
        alt_names(extensions.drop_last()) + (match extensions.last() {
            ExtensionView::SubjectAltName(names) => names,
            ExtensionView::Other => seq![],
        })
    }
}

impl RequestView {
    /// The extensions that the request asks for.
    pub open spec fn requested(self) -> Seq<ExtensionView> {
        match self.extensions {
            Some(extensions) => extensions,
            None => seq![],
        }
    }

    /// Whether the request has a subjectAltName extension.
    pub open spec fn has_alt_names(self) -> bool {
        exists|i: int|
            0 <= i < self.requested().len() && #[trigger] self.requested()[i] is SubjectAltName
    }

    /// The subjectAltName values of the request.
    pub open spec fn alt_names(self) -> Seq<AltNameView> {
        alt_names(self.requested())
    }
}

/// Whether a common name is among the names that the request asks for: as a DNS name in any
/// case, or as the text of an IP address.
pub open spec fn is_requested(name: Seq<char>, dns: Seq<Seq<char>>, ips: Seq<Seq<u8>>) -> bool {
    ||| dns.contains(text::ascii_lowercase(name))
    ||| exists|i: int| 0 <= i < ips.len() && ip::ip_text(#[trigger] ips[i]) == name
}

/// What is wrong with the first common name with which something is wrong.
pub open spec fn common_name_error(
    common_names: Seq<Option<Seq<char>>>,
    dns: Seq<Seq<char>>,
    ips: Seq<Seq<u8>>,
) -> Option<CsrErrorView>
    decreases common_names.len(),
{
    if common_names.len() == 0 {
        None
    } else {
        match common_names[0] {
            None => Some(CsrErrorView::Parse("subject common name is not a string"@)),
            Some(name) => if is_requested(name, dns, ips) {
                common_name_error(common_names.skip(1), dns, ips)
            } else {
                Some(CsrErrorView::CommonNameNotInSan(name))
            },
        }
    }
}

/// What comes of comparing the names of a request with the identifiers of an order. The checks
/// are made in this order, and the first that fails decides.
pub open spec fn names_checked(
    request: RequestView,
    identifiers: Seq<AuthorizedIdentifier<'_>>,
    allow_extra: bool,
) -> Result<(), CsrErrorView> {
    let names = request.alt_names();
    let (dns, ips) = (requested_dns(names), requested_ips(names));
    let (want_dns, want_ips) = (wanted_dns(identifiers), wanted_ips(identifiers));
    if exists|i: int| 0 <= i < names.len() && malformed_ip(#[trigger] names[i]) {
        Err(CsrErrorView::Parse("invalid IP address in subjectAltName"@))
    } else if !request.has_alt_names() && !(want_dns.len() == 0 && want_ips.len() == 0) {
        Err(CsrErrorView::NoSubjectAltName)
    } else if first_missing(want_dns, dns) is Some {
        Err(CsrErrorView::MissingIdentifier(first_missing(want_dns, dns)->0))
    } else if first_missing(want_ips, ips) is Some {
        Err(CsrErrorView::MissingIdentifier(ip::ip_text(first_missing(want_ips, ips)->0)))
    } else if !allow_extra && first_missing(dns, want_dns) is Some {
        Err(CsrErrorView::UnexpectedIdentifier(first_missing(dns, want_dns)->0))
    } else if !allow_extra && first_missing(ips, want_ips) is Some {
        Err(CsrErrorView::UnexpectedIdentifier(ip::ip_text(first_missing(ips, want_ips)->0)))
    } else if !allow_extra && first_unlisted(names, attests(identifiers)) is Some {
        Err(CsrErrorView::UnexpectedIdentifier(first_unlisted(names, attests(identifiers))->0))
    } else {
        match common_name_error(request.common_names, dns, ips) {
            Some(err) => Err(err),
            None => Ok(()),
        }
    }
}

proof fn lemma_present_push<T>(values: Seq<Option<T>>, value: Option<T>)
    ensures
        present(values.push(value)) == match value {
            Some(value) => present(values).push(value),
            None => present(values),
        },
{
    assert(values.push(value).drop_last() =~= values);
}

fn contains_text(strings: &Vec<String>, string: &String) -> (contains: bool)
    ensures
        contains == texts(strings@).contains(string@),
{
    let mut i: usize = 0;
    while i < strings.len()
        invariant
            i <= strings@.len(),
            forall|k: int| 0 <= k < i ==> texts(strings@)[k] != string@,
        decreases strings@.len() - i,
    {
        if strings[i] == *string {
            assert(texts(strings@)[i as int] == string@);
            return true;
        }
        i = i + 1;
    }
    false
}

fn contains_ip(addrs: &Vec<IpAddr>, addr: &IpAddr) -> (contains: bool)
    ensures
        contains == octets(addrs@).contains(addr@),
{
    let mut i: usize = 0;
    while i < addrs.len()
        invariant
            i <= addrs@.len(),
            forall|k: int| 0 <= k < i ==> octets(addrs@)[k] != addr@,
        decreases addrs@.len() - i,
    {
        if addrs[i].same(addr) {
            assert(octets(addrs@)[i as int] == addr@);
            return true;
        }
        i = i + 1;
    }
    false
}

fn find_missing_text(strings: &Vec<String>, among: &Vec<String>) -> (missing: Option<String>)
    ensures
        request::optional_text(missing) == first_missing(texts(strings@), texts(among@)),
{
    let ghost (all, others) = (texts(strings@), texts(among@));
    let mut i: usize = 0;
    assert(all.skip(0) =~= all);
    while i < strings.len()
        invariant
            i <= strings@.len(),
            all == texts(strings@),
            others == texts(among@),
            first_missing(all, others) == first_missing(all.skip(i as int), others),
        decreases strings@.len() - i,
    {
        assert(all.skip(i as int)[0] == strings@[i as int]@);
        if !contains_text(among, &strings[i]) {
            return Some(strings[i].clone());
        }
        assert(all.skip(i as int).skip(1) =~= all.skip(i + 1));
        i = i + 1;
    }
    None
}

fn find_missing_ip(addrs: &Vec<IpAddr>, among: &Vec<IpAddr>) -> (missing: Option<IpAddr>)
    ensures
        match missing {
            Some(addr) => first_missing(octets(addrs@), octets(among@)) == Some(addr@),
            None => first_missing(octets(addrs@), octets(among@)) is None,
        },
{
    let ghost (all, others) = (octets(addrs@), octets(among@));
    let mut i: usize = 0;
    assert(all.skip(0) =~= all);
    while i < addrs.len()
        invariant
            i <= addrs@.len(),
            all == octets(addrs@),
            others == octets(among@),
            first_missing(all, others) == first_missing(all.skip(i as int), others),
        decreases addrs@.len() - i,
    {
        assert(all.skip(i as int)[0] == addrs@[i as int]@);
        if !contains_ip(among, &addrs[i]) {
            return Some(addrs[i]);
        }
        assert(all.skip(i as int).skip(1) =~= all.skip(i + 1));
        i = i + 1;
    }
    None
}

fn has_ip_text(addrs: &Vec<IpAddr>, text: &String) -> (has: bool)
    ensures
        has == exists|i: int|
            0 <= i < octets(addrs@).len() && ip::ip_text(#[trigger] octets(addrs@)[i]) == text@,
{
    let mut i: usize = 0;
    while i < addrs.len()
        invariant
            i <= addrs@.len(),
            forall|k: int| 0 <= k < i ==> ip::ip_text(#[trigger] octets(addrs@)[k]) != text@,
        decreases addrs@.len() - i,
    {
        assert(octets(addrs@)[i as int] == addrs@[i as int]@);
        if addrs[i].to_string() == *text {
            return true;
        }
        i = i + 1;
    }
    false
}

/// The names that an order authorizes: the DNS names and the IP addresses.
///
/// Attestation identifiers are not expressed as subjectAltName values that could be compared, so
/// they are left out.
fn authorized_names(identifiers: &[AuthorizedIdentifier<'_>]) -> (names: (Vec<String>, Vec<IpAddr>))
    ensures
        texts(names.0@) == wanted_dns(identifiers@),
        octets(names.1@) == wanted_ips(identifiers@),
{
    let mut dns: Vec<String> = Vec::new();
    let mut ips: Vec<IpAddr> = Vec::new();
    let mut i: usize = 0;
    assert(texts(dns@) =~= wanted_dns(identifiers@.take(0)));
    assert(octets(ips@) =~= wanted_ips(identifiers@.take(0)));
    while i < identifiers.len()
        invariant
            i <= identifiers@.len(),
            texts(dns@) == wanted_dns(identifiers@.take(i as int)),
            octets(ips@) == wanted_ips(identifiers@.take(i as int)),
        decreases identifiers@.len() - i,
    {
        let authorized = &identifiers[i];
        let ghost (old_dns, old_ips) = (dns@, ips@);
        match authorized.identifier {
            Identifier::Dns(name) => {
                let lower = name.as_str().to_ascii_lowercase();
                if authorized.wildcard {
                    dns.push("*.".to_owned().concat(lower.as_str()));
                } else {
                    dns.push(lower);
                }
                assert(texts(dns@) =~= texts(old_dns).push(authorized_dns(*authorized)->0));
            },
            Identifier::Ip(addr) => {
                ips.push(*addr);
                assert(octets(ips@) =~= octets(old_ips).push(authorized_ip(*authorized)->0));
            },
            _ => {},
        }
        proof {
            let (before, after) = (identifiers@.take(i as int), identifiers@.take(i + 1));
            assert(after =~= before.push(*authorized));
            let f = |id: AuthorizedIdentifier<'_>| authorized_dns(id);
            let g = |id: AuthorizedIdentifier<'_>| authorized_ip(id);
            assert(after.map_values(f) =~= before.map_values(f).push(f(*authorized)));
            assert(after.map_values(g) =~= before.map_values(g).push(g(*authorized)));
            lemma_present_push(before.map_values(f), f(*authorized));
            lemma_present_push(before.map_values(g), g(*authorized));
        }
        i = i + 1;
    }
    assert(identifiers@.take(i as int) =~= identifiers@);
    (dns, ips)
}

/// The names that subjectAltName values ask for: the DNS names and the IP addresses.
///
/// Values of other types are not something that could be compared, so they are left out.
fn requested_names(names: &Vec<&AltName>) -> (requested: Result<
    (Vec<String>, Vec<IpAddr>),
    CsrError,
>)
    ensures
        ({
            let values = names@.map_values(|name: &AltName| name@);
            match requested {
                Ok((dns, ips)) => {
                    &&& forall|i: int| 0 <= i < values.len() ==> !malformed_ip(#[trigger] values[i])
                    &&& texts(dns@) == requested_dns(values)
                    &&& octets(ips@) == requested_ips(values)
                },
                Err(err) => {
                    &&& exists|i: int| 0 <= i < values.len() && malformed_ip(#[trigger] values[i])
                    &&& err@ == CsrErrorView::Parse("invalid IP address in subjectAltName"@)
                },
            }
        }),
{
    let ghost values = names@.map_values(|name: &AltName| name@);
    let mut dns: Vec<String> = Vec::new();
    let mut ips: Vec<IpAddr> = Vec::new();
    let mut i: usize = 0;
    assert(texts(dns@) =~= requested_dns(values.take(0)));
    assert(octets(ips@) =~= requested_ips(values.take(0)));
    while i < names.len()
        invariant
            i <= names@.len(),
            values == names@.map_values(|name: &AltName| name@),
            forall|k: int| 0 <= k < i ==> !malformed_ip(#[trigger] values[k]),
            texts(dns@) == requested_dns(values.take(i as int)),
            octets(ips@) == requested_ips(values.take(i as int)),
        decreases names@.len() - i,
    {
        let ghost value = values[i as int];
        let ghost (old_dns, old_ips) = (dns@, ips@);
        assert(value == names@[i as int]@);
        match names[i] {
            AltName::Dns(name) => {
                dns.push(name.as_str().to_ascii_lowercase());
                assert(texts(dns@) =~= texts(old_dns).push(requested_dns_name(value)->0));
            },
            AltName::Ip(bytes) => {
                match IpAddr::from_octets(bytes.as_slice()) {
                    Some(addr) => {
                        ips.push(addr);
                        assert(octets(ips@) =~= octets(old_ips).push(requested_ip(value)->0));
                    },
                    None => {
                        assert(malformed_ip(values[i as int]));
                        return Err(CsrError::Parse("invalid IP address in subjectAltName"));
                    },
                }
            },
            AltName::OtherName(_) | AltName::Other(_) => {},
        }
        proof {
            let (before, after) = (values.take(i as int), values.take(i + 1));
            assert(after =~= before.push(value));
            let f = |name: AltNameView| requested_dns_name(name);
            let g = |name: AltNameView| requested_ip(name);
            assert(after.map_values(f) =~= before.map_values(f).push(f(value)));
            assert(after.map_values(g) =~= before.map_values(g).push(g(value)));
            lemma_present_push(before.map_values(f), f(value));
            lemma_present_push(before.map_values(g), g(value));
        }
        i = i + 1;
    }
    assert(values.take(i as int) =~= values);
    Ok((dns, ips))
}

/// Whether an order has an identifier that is for attestation.
fn has_attestation(identifiers: &[AuthorizedIdentifier<'_>]) -> (has: bool)
    ensures
        has == attests(identifiers@),
{
    let mut i: usize = 0;
    while i < identifiers.len()
        invariant
            i <= identifiers@.len(),
            forall|k: int| 0 <= k < i ==> !is_attestation(#[trigger] identifiers@[k]),
        decreases identifiers@.len() - i,
    {
        match identifiers[i].identifier {
            Identifier::PermanentIdentifier(_) | Identifier::HardwareModule(_) => {
                assert(is_attestation(identifiers@[i as int]));
                return true;
            },
            _ => {},
        }
        i = i + 1;
    }
    false
}

/// The text of the first subjectAltName value of a type that the order does not authorize.
fn find_unlisted(names: &Vec<&AltName>, attested: bool) -> (unlisted: Option<String>)
    ensures
        request::optional_text(unlisted) == first_unlisted(
            names@.map_values(|name: &AltName| name@),
            attested,
        ),
{
    let ghost values = names@.map_values(|name: &AltName| name@);
    let mut i: usize = 0;
    assert(values.skip(0) =~= values);
    while i < names.len()
        invariant
            i <= names@.len(),
            values == names@.map_values(|name: &AltName| name@),
            first_unlisted(values, attested) == first_unlisted(values.skip(i as int), attested),
        decreases names@.len() - i,
    {
        assert(values.skip(i as int)[0] == names@[i as int]@);
        match names[i] {
            AltName::Other(text) => {
                return Some(text.clone());
            },
            AltName::OtherName(text) => {
                if !attested {
                    return Some(text.clone());
                }
            },
            _ => {},
        }
        assert(values.skip(i as int).skip(1) =~= values.skip(i + 1));
        i = i + 1;
    }
    None
}

/// What is wrong with the first common name with which something is wrong.
fn check_common_names(
    common_names: &Vec<Option<String>>,
    dns: &Vec<String>,
    ips: &Vec<IpAddr>,
) -> (checked: Result<(), CsrError>)
    ensures
        ({
            let names = common_names@.map_values(|name: Option<String>| request::optional_text(name));
            match checked {
                Ok(()) => common_name_error(names, texts(dns@), octets(ips@)) is None,
                Err(err) => common_name_error(names, texts(dns@), octets(ips@)) == Some(err@),
            }
        }),
{
    let ghost names = common_names@.map_values(|name: Option<String>| request::optional_text(name));
    let ghost (d, a) = (texts(dns@), octets(ips@));
    let mut i: usize = 0;
    assert(names.skip(0) =~= names);
    while i < common_names.len()
        invariant
            i <= common_names@.len(),
            names == common_names@.map_values(|name: Option<String>| request::optional_text(name)),
            d == texts(dns@),
            a == octets(ips@),
            common_name_error(names, d, a) == common_name_error(names.skip(i as int), d, a),
        decreases common_names@.len() - i,
    {
        assert(names.skip(i as int)[0] == request::optional_text(common_names@[i as int]));
        match &common_names[i] {
            None => {
                return Err(CsrError::Parse("subject common name is not a string"));
            },
            Some(name) => {
                let lower = name.as_str().to_ascii_lowercase();
                if !contains_text(dns, &lower) && !has_ip_text(ips, name) {
                    return Err(CsrError::CommonNameNotInSan(name.clone()));
                }
            },
        }
        assert(names.skip(i as int).skip(1) =~= names.skip(i + 1));
        i = i + 1;
    }
    Ok(())
}

impl CertificationRequest {
    /// The values of all the subjectAltName extensions, if there is such an extension.
    fn alt_names(&self) -> (names: Option<Vec<&AltName>>)
        ensures
            match names {
                Some(names) => {
                    &&& self@.has_alt_names()
                    &&& self@.alt_names() == names@.map_values(|name: &AltName| name@)
                },
                None => !self@.has_alt_names() && self@.alt_names() == Seq::<AltNameView>::empty(),
            },
    {
        let extensions = match &self.extensions {
            Some(extensions) => extensions,
            None => {
                return None;
            },
        };
        let ghost views = self@.requested();
        let mut names: Vec<&AltName> = Vec::new();
        let mut found = false;
        let mut i: usize = 0;
        assert(names@.map_values(|name: &AltName| name@) =~= alt_names(views.take(0)));
        while i < extensions.len()
            invariant
                i <= extensions@.len(),
                views == self@.requested(),
                views == extensions@.map_values(|extension: RequestedExtension| extension@),
                found == exists|k: int| 0 <= k < i && #[trigger] views[k] is SubjectAltName,
                !found ==> names@.len() == 0,
                names@.map_values(|name: &AltName| name@) == alt_names(views.take(i as int)),
            decreases extensions@.len() - i,
        {
            let ghost before = views.take(i as int);
            let ghost after = views.take(i + 1);
            proof {
                assert(after.drop_last() =~= before);
                assert(after.last() == extensions@[i as int]@);
                assert(views[i as int] == extensions@[i as int]@);
            }
            match &extensions[i] {
                RequestedExtension::SubjectAltName(values) => {
                    found = true;
                    let ghost san = values@.map_values(|name: AltName| name@);
                    let mut j: usize = 0;
                    assert(alt_names(before) =~= alt_names(before) + san.take(0));
                    while j < values.len()
                        invariant
                            j <= values@.len(),
                            san == values@.map_values(|name: AltName| name@),
                            names@.map_values(|name: &AltName| name@) == alt_names(before)
                                + san.take(j as int),
                        decreases values@.len() - j,
                    {
                        let ghost old_names = names@;
                        names.push(&values[j]);
                        proof {
                            assert(names@.map_values(|name: &AltName| name@) =~= old_names.map_values(
                                |name: &AltName| name@,
                            ).push(san[j as int]));
                            assert(san.take(j + 1) =~= san.take(j as int).push(san[j as int]));
                            assert(alt_names(before) + san.take(j + 1) =~= (alt_names(before)
                                + san.take(j as int)).push(san[j as int]));
                        }
                        j = j + 1;
                    }
                    assert(san.take(j as int) =~= san);
                },
                RequestedExtension::Other => {
                    assert(alt_names(after) =~= alt_names(before));
                },
            }
            i = i + 1;
        }
        assert(views.take(i as int) =~= views);
        if found {
            Some(names)
        } else {
            assert(self@.alt_names() =~= Seq::<AltNameView>::empty());
            None
        }
    }

    /// Compare the names that the request asks for with the identifiers of an order
    ///
    /// Every identifier must be among the subjectAltName values, with DNS names compared without
    /// regard to case; every subjectAltName value must be one of the identifiers, unless the
    /// policy allows otherwise; and every subject common name must be among the DNS names and IP
    /// addresses of the subjectAltName values, because one that is not gets the CSR rejected by
    /// (at least) Boulder.
    ///
    /// A value that is neither a DNS name nor an IP address is not something an ACME order
    /// authorizes. The one exception is an order with attestation identifiers: those are expressed
    /// as otherName values, which cannot be compared, so any such value is let through.
    pub fn validate_names(
        &self,
        identifiers: &[AuthorizedIdentifier<'_>],
        policy: &CsrPolicy,
    ) -> (result: Result<(), CsrError>)
        ensures
            outcome(result) == names_checked(self@, identifiers@, policy.extra_identifiers),
    {
        let (want_dns, want_ips) = authorized_names(identifiers);
        let found = self.alt_names();
        let has_san = found.is_some();
        let names = match found {
            Some(names) => names,
            None => Vec::new(),
        };
        assert(self@.alt_names() =~= names@.map_values(|name: &AltName| name@));
        let (dns, ips) = match requested_names(&names) {
            Ok(requested) => requested,
            Err(err) => {
                return Err(err);
            },
        };
        assert(want_dns@.len() == wanted_dns(identifiers@).len());
        assert(want_ips@.len() == wanted_ips(identifiers@).len());
        if !has_san && !(want_dns.len() == 0 && want_ips.len() == 0) {
            return Err(CsrError::NoSubjectAltName);
        }
        if let Some(name) = find_missing_text(&want_dns, &dns) {
            return Err(CsrError::MissingIdentifier(name));
        }
        if let Some(addr) = find_missing_ip(&want_ips, &ips) {
            return Err(CsrError::MissingIdentifier(addr.to_string()));
        }
        if !policy.extra_identifiers {
            if let Some(name) = find_missing_text(&dns, &want_dns) {
                return Err(CsrError::UnexpectedIdentifier(name));
            }
            if let Some(addr) = find_missing_ip(&ips, &want_ips) {
                return Err(CsrError::UnexpectedIdentifier(addr.to_string()));
            }
            if let Some(text) = find_unlisted(&names, has_attestation(identifiers)) {
                return Err(CsrError::UnexpectedIdentifier(text));
            }
        }
        check_common_names(&self.common_names, &dns, &ips)
    }
}

} // verus!
