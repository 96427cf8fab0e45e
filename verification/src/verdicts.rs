//! What a verdict on a certification request says of the request and of the order.

use crate::acceptance;
use crate::csr::{CsrError, CsrPolicy};
use crate::identifier::{AuthorizedIdentifier, Identifier};
use crate::ip::{self, IpAddr};
use crate::request::{AltName, AltNameView, CertificationRequest, ExtensionView, RequestedExtension};
use crate::text;
use crate::validation::{self, CsrErrorView};
use vstd::prelude::*;

verus! {

/// The value at place `k` of the subjectAltName extension at place `i`, if there is one.
pub open spec fn value_at(request: &CertificationRequest, i: int, k: int) -> Option<AltName> {
    match request.extensions {
        Some(extensions) => if 0 <= i < extensions@.len() {
            match extensions@[i] {
                RequestedExtension::SubjectAltName(names) => if 0 <= k < names@.len() {
                    Some(names@[k])
                } else {
                    None
                },
                RequestedExtension::Other => None,
            }
        } else {
            None
        },
        None => None,
    }
}

/// Whether a DNS name is the one that an identifier authorizes, in any case: the very name, or
/// the name behind a wildcard label.
pub open spec fn is_dns_name_of(name: Seq<char>, authorized: AuthorizedIdentifier<'_>) -> bool {
    match *authorized.identifier {
        Identifier::Dns(spelling) => if authorized.wildcard {
            &&& name.len() == spelling@.len() + 2
            &&& name[0] == '*'
            &&& name[1] == '.'
            &&& text::same_ignoring_case(name.skip(2), spelling@)
        } else {
            text::same_ignoring_case(name, spelling@)
        },
        _ => false,
    }
}

/// Whether an IP address is the one that an identifier authorizes.
pub open spec fn is_address_of(octets: Seq<u8>, authorized: AuthorizedIdentifier<'_>) -> bool {
    match *authorized.identifier {
        Identifier::Ip(IpAddr::V4(addr)) => addr@ == octets,
        Identifier::Ip(IpAddr::V6(addr)) => addr@ == octets,
        _ => false,
    }
}

/// Whether an order authorizes a subjectAltName value.
pub open spec fn is_authorized(
    identifiers: Seq<AuthorizedIdentifier<'_>>,
    value: AltName,
) -> bool {
    match value {
        AltName::Dns(name) => exists|j: int|
            0 <= j < identifiers.len() && is_dns_name_of(name@, #[trigger] identifiers[j]),
        AltName::Ip(octets) => exists|j: int|
            0 <= j < identifiers.len() && is_address_of(octets@, #[trigger] identifiers[j]),
        AltName::OtherName(_) => exists|j: int|
            0 <= j < identifiers.len() && {
                ||| (#[trigger] identifiers[j]).identifier is PermanentIdentifier
                ||| identifiers[j].identifier is HardwareModule
            },
        AltName::Other(_) => false,
    }
}

/// Whether a request asks for what an identifier authorizes.
pub open spec fn covers(
    request: &CertificationRequest,
    authorized: AuthorizedIdentifier<'_>,
) -> bool {
    match *authorized.identifier {
        Identifier::Dns(_) => exists|i: int, k: int|
            #[trigger] value_at(request, i, k) matches Some(AltName::Dns(name))
                && is_dns_name_of(name@, authorized),
        Identifier::Ip(_) => exists|i: int, k: int|
            #[trigger] value_at(request, i, k) matches Some(AltName::Ip(octets))
                && is_address_of(octets@, authorized),
        _ => true,
    }
}

/// Whether a common name is among the DNS names of a request, in any case, or is the text of one
/// of its IP addresses.
pub open spec fn names_a_value(request: &CertificationRequest, common_name: Option<String>) -> bool {
    match common_name {
        Some(common_name) => exists|i: int, k: int|
            match #[trigger] value_at(request, i, k) {
                Some(AltName::Dns(name)) => text::same_ignoring_case(name@, common_name@),
                Some(AltName::Ip(octets)) => ip::ip_text(octets@) == common_name@,
                _ => false,
            },
        None => false,
    }
}

/// Whether every IP address of a request has four or sixteen octets.
pub open spec fn is_well_formed(request: &CertificationRequest) -> bool {
    forall|i: int, k: int|
        #[trigger] value_at(request, i, k) matches Some(AltName::Ip(octets)) ==> octets@.len() == 4
            || octets@.len() == 16
}

/// Whether a request asks for every name that an order authorizes.
pub open spec fn covers_all(
    request: &CertificationRequest,
    identifiers: Seq<AuthorizedIdentifier<'_>>,
) -> bool {
    forall|j: int| 0 <= j < identifiers.len() ==> covers(request, #[trigger] identifiers[j])
}

/// Whether an order authorizes every name that a request asks for.
pub open spec fn is_all_authorized(
    request: &CertificationRequest,
    identifiers: Seq<AuthorizedIdentifier<'_>>,
) -> bool {
    forall|i: int, k: int|
        #[trigger] value_at(request, i, k) matches Some(value) ==> is_authorized(
            identifiers,
            value,
        )
}

/// Whether every common name of a request is among its values.
pub open spec fn names_values_only(request: &CertificationRequest) -> bool {
    forall|c: int|
        0 <= c < request.common_names@.len() ==> names_a_value(
            request,
            #[trigger] request.common_names@[c],
        )
}

proof fn lemma_asks_for(request: &CertificationRequest, value: AltNameView)
    ensures
        acceptance::asks_for(request@, value) <==> exists|i: int, k: int|
            #[trigger] value_at(request, i, k) matches Some(found) && found@ == value,
{
    if acceptance::asks_for(request@, value) {
        let (i, k) = choose|i: int, k: int|
            {
                &&& request@.extensions is Some
                &&& 0 <= i < request@.extensions->0.len()
                &&& request@.extensions->0[i] is SubjectAltName
                &&& 0 <= k < request@.extensions->0[i]->SubjectAltName_0.len()
                &&& #[trigger] request@.extensions->0[i]->SubjectAltName_0[k] == value
            };
        assert(request@.extensions->0[i] == request.extensions->0@[i]@);
        assert(value_at(request, i, k) matches Some(found) && found@ == value);
    }
    if exists|i: int, k: int|
        #[trigger] value_at(request, i, k) matches Some(found) && found@ == value {
        let (i, k) = choose|i: int, k: int|
            #[trigger] value_at(request, i, k) matches Some(found) && found@ == value;
        assert(request@.extensions->0[i] == request.extensions->0@[i]@);
        assert(request@.extensions->0[i]->SubjectAltName_0[k] == value);
    }
}

proof fn lemma_value_is_asked_for(request: &CertificationRequest, i: int, k: int)
    requires
        value_at(request, i, k) is Some,
    ensures
        acceptance::asks_for(request@, value_at(request, i, k)->0@),
{
    lemma_asks_for(request, value_at(request, i, k)->0@);
}

/// The DNS name that an identifier authorizes, in lower case.
spec fn lower_name(authorized: AuthorizedIdentifier<'_>) -> Option<Seq<char>> {
    match *authorized.identifier {
        Identifier::Dns(spelling) => Some(
            if authorized.wildcard {
                seq!['*', '.'] + text::ascii_lowercase(spelling@)
            } else {
                text::ascii_lowercase(spelling@)
            },
        ),
        _ => None,
    }
}

proof fn lemma_dns_name_of(name: Seq<char>, authorized: AuthorizedIdentifier<'_>)
    ensures
        is_dns_name_of(name, authorized) <==> lower_name(authorized) == Some(
            text::ascii_lowercase(name),
        ),
{
    if let Identifier::Dns(spelling) = *authorized.identifier {
        let lower = text::ascii_lowercase(name);
        let spelled = text::ascii_lowercase(spelling@);
        if authorized.wildcard {
            if name.len() == spelling@.len() + 2 {
                text::law_lowercase_folds_case_only(name.skip(2), spelling@);
                assert(lower.skip(2) =~= text::ascii_lowercase(name.skip(2)));
                assert(lower[0] == text::ascii_lowercase_char(name[0]));
                assert(lower[1] == text::ascii_lowercase_char(name[1]));
                if lower == seq!['*', '.'] + spelled {
                    assert((seq!['*', '.'] + spelled)[0] == '*');
                    assert((seq!['*', '.'] + spelled)[1] == '.');
                    assert(lower.skip(2) =~= spelled);
                }
                if is_dns_name_of(name, authorized) {
                    assert(lower =~= seq!['*', '.'] + lower.skip(2));
                }
            } else {
                assert((seq!['*', '.'] + spelled).len() == spelling@.len() + 2);
                assert(lower.len() == name.len());
            }
        } else {
            text::law_lowercase_folds_case_only(name, spelling@);
        }
    }
}

proof fn lemma_authorizes_dns(identifiers: Seq<AuthorizedIdentifier<'_>>, name: Seq<char>)
    ensures
        acceptance::authorizes_dns(identifiers, text::ascii_lowercase(name)) <==> exists|j: int|
            0 <= j < identifiers.len() && is_dns_name_of(name, #[trigger] identifiers[j]),
{
    let lower = text::ascii_lowercase(name);
    if acceptance::authorizes_dns(identifiers, lower) {
        let j = choose|i: int|
            0 <= i < identifiers.len() && match *(#[trigger] identifiers[i]).identifier {
                Identifier::Dns(spelling) => lower == if identifiers[i].wildcard {
                    seq!['*', '.'] + text::ascii_lowercase(spelling@)
                } else {
                    text::ascii_lowercase(spelling@)
                },
                _ => false,
            };
        lemma_dns_name_of(name, identifiers[j]);
        assert(is_dns_name_of(name, identifiers[j]));
    }
    if exists|j: int|
        0 <= j < identifiers.len() && is_dns_name_of(name, #[trigger] identifiers[j]) {
        let j = choose|j: int|
            0 <= j < identifiers.len() && is_dns_name_of(name, #[trigger] identifiers[j]);
        lemma_dns_name_of(name, identifiers[j]);
        assert(identifiers[j].identifier is Dns);
    }
}

proof fn lemma_covers(request: &CertificationRequest, authorized: AuthorizedIdentifier<'_>)
    ensures
        lower_name(authorized) matches Some(name) ==> (covers(request, authorized)
            <==> acceptance::asks_for_dns(request@, name)),
        authorized.identifier matches Identifier::Ip(addr) ==> (covers(request, authorized)
            <==> acceptance::asks_for_ip(request@, addr@)),
{
    if let Some(lower) = lower_name(authorized) {
        if covers(request, authorized) {
            let (i, k) = choose|i: int, k: int|
                #[trigger] value_at(request, i, k) matches Some(AltName::Dns(name))
                    && is_dns_name_of(name@, authorized);
            let name = value_at(request, i, k)->0->Dns_0;
            lemma_dns_name_of(name@, authorized);
            lemma_value_is_asked_for(request, i, k);
            assert(acceptance::asks_for(request@, AltNameView::Dns(name@)));
        }
        if acceptance::asks_for_dns(request@, lower) {
            let spelling = choose|spelling: Seq<char>| #[trigger]
                acceptance::asks_for(request@, AltNameView::Dns(spelling))
                    && text::ascii_lowercase(spelling) == lower;
            lemma_asks_for(request, AltNameView::Dns(spelling));
            let (i, k) = choose|i: int, k: int|
                #[trigger] value_at(request, i, k) matches Some(found) && found@
                    == AltNameView::Dns(spelling);
            lemma_dns_name_of(spelling, authorized);
            assert(value_at(request, i, k) matches Some(AltName::Dns(name)) && is_dns_name_of(
                name@,
                authorized,
            ));
        }
    }
    if let Identifier::Ip(addr) = *authorized.identifier {
        lemma_asks_for(request, AltNameView::Ip(addr@));
        if covers(request, authorized) {
            let (i, k) = choose|i: int, k: int|
                #[trigger] value_at(request, i, k) matches Some(AltName::Ip(octets))
                    && is_address_of(octets@, authorized);
            assert(value_at(request, i, k)->0@ == AltNameView::Ip(addr@));
        }
        if acceptance::asks_for_ip(request@, addr@) {
            let (i, k) = choose|i: int, k: int|
                #[trigger] value_at(request, i, k) matches Some(found) && found@
                    == AltNameView::Ip(addr@);
            assert(value_at(request, i, k) matches Some(AltName::Ip(octets)) && is_address_of(
                octets@,
                authorized,
            ));
        }
    }
}

proof fn lemma_names_a_value(request: &CertificationRequest, common_name: Option<String>)
    ensures
        names_a_value(request, common_name) <==> acceptance::is_covered(
            request@,
            crate::request::optional_text(common_name),
        ),
{
    if let Some(name) = common_name {
        let lower = text::ascii_lowercase(name@);
        if names_a_value(request, common_name) {
            let (i, k) = choose|i: int, k: int|
                match #[trigger] value_at(request, i, k) {
                    Some(AltName::Dns(found)) => text::same_ignoring_case(found@, name@),
                    Some(AltName::Ip(octets)) => ip::ip_text(octets@) == name@,
                    _ => false,
                };
            lemma_value_is_asked_for(request, i, k);
            match value_at(request, i, k)->0 {
                AltName::Dns(found) => {
                    text::law_lowercase_folds_case_only(found@, name@);
                    assert(acceptance::asks_for(request@, AltNameView::Dns(found@)));
                    assert(acceptance::asks_for_dns(request@, lower));
                },
                AltName::Ip(octets) => {
                    assert(acceptance::asks_for_ip(request@, octets@));
                },
                _ => {},
            }
        }
        if acceptance::asks_for_dns(request@, lower) {
            let spelling = choose|spelling: Seq<char>| #[trigger]
                acceptance::asks_for(request@, AltNameView::Dns(spelling))
                    && text::ascii_lowercase(spelling) == lower;
            lemma_asks_for(request, AltNameView::Dns(spelling));
            let (i, k) = choose|i: int, k: int|
                #[trigger] value_at(request, i, k) matches Some(found) && found@
                    == AltNameView::Dns(spelling);
            text::law_lowercase_folds_case_only(spelling, name@);
            assert(match value_at(request, i, k) {
                Some(AltName::Dns(found)) => text::same_ignoring_case(found@, name@),
                _ => false,
            });
        }
        if exists|octets: Seq<u8>|
            #[trigger] acceptance::asks_for_ip(request@, octets) && ip::ip_text(octets) == name@ {
            let octets = choose|octets: Seq<u8>|
                #[trigger] acceptance::asks_for_ip(request@, octets) && ip::ip_text(octets)
                    == name@;
            lemma_asks_for(request, AltNameView::Ip(octets));
            let (i, k) = choose|i: int, k: int|
                #[trigger] value_at(request, i, k) matches Some(found) && found@
                    == AltNameView::Ip(octets);
            assert(match value_at(request, i, k) {
                Some(AltName::Ip(found)) => ip::ip_text(found@) == name@,
                _ => false,
            });
        }
    }
}

proof fn lemma_is_authorized(
    request: &CertificationRequest,
    identifiers: Seq<AuthorizedIdentifier<'_>>,
    i: int,
    k: int,
)
    requires
        value_at(request, i, k) is Some,
    ensures
        match value_at(request, i, k)->0 {
            AltName::Dns(name) => is_authorized(identifiers, value_at(request, i, k)->0)
                <==> acceptance::authorizes_dns(identifiers, text::ascii_lowercase(name@)),
            AltName::Ip(octets) => is_authorized(identifiers, value_at(request, i, k)->0)
                <==> acceptance::authorizes_ip(identifiers, octets@),
            AltName::OtherName(_) => is_authorized(identifiers, value_at(request, i, k)->0)
                <==> validation::attests(identifiers),
            AltName::Other(_) => !is_authorized(identifiers, value_at(request, i, k)->0),
        },
{
    match value_at(request, i, k)->0 {
        AltName::Dns(name) => lemma_authorizes_dns(identifiers, name@),
        AltName::Ip(octets) => {
            if acceptance::authorizes_ip(identifiers, octets@) {
                let j = choose|i: int|
                    0 <= i < identifiers.len() && match *(#[trigger] identifiers[i]).identifier {
                        Identifier::Ip(IpAddr::V4(addr)) => addr@ == octets@,
                        Identifier::Ip(IpAddr::V6(addr)) => addr@ == octets@,
                        _ => false,
                    };
                assert(is_address_of(octets@, identifiers[j]));
            }
            if is_authorized(identifiers, value_at(request, i, k)->0) {
                let j = choose|j: int|
                    0 <= j < identifiers.len() && is_address_of(octets@, #[trigger] identifiers[j]);
                assert(identifiers[j].identifier is Ip);
            }
        },
        AltName::OtherName(_) => {
            if validation::attests(identifiers) {
                let j = choose|j: int|
                    0 <= j < identifiers.len() && validation::is_attestation(
                        #[trigger] identifiers[j],
                    );
                assert(identifiers[j].identifier is PermanentIdentifier
                    || identifiers[j].identifier is HardwareModule);
            }
            if is_authorized(identifiers, value_at(request, i, k)->0) {
                let j = choose|j: int|
                    0 <= j < identifiers.len() && {
                        ||| (#[trigger] identifiers[j]).identifier is PermanentIdentifier
                        ||| identifiers[j].identifier is HardwareModule
                    };
                assert(validation::is_attestation(identifiers[j]));
            }
        },
        AltName::Other(_) => {},
    }
}

/// The names of a request are accepted exactly if its IP addresses are well-formed, it asks for
/// every name that the order authorizes, the order authorizes every name that it asks for (or
/// extra names are allowed), and its common names are among the names that it asks for.
pub proof fn law_accepted_exactly_if_names_match(
    request: &CertificationRequest,
    identifiers: &[AuthorizedIdentifier<'_>],
    policy: &CsrPolicy,
    result: Result<(), CsrError>,
)
    requires
        call_ensures(
            CertificationRequest::validate_names,
            (request, identifiers, policy),
            result,
        ),
    ensures
        result is Ok <==> {
            &&& is_well_formed(request)
            &&& covers_all(request, identifiers@)
            &&& policy.extra_identifiers || is_all_authorized(request, identifiers@)
            &&& names_values_only(request)
        },
{
    let ids = identifiers@;
    let extra = policy.extra_identifiers;
    acceptance::law_accepted_names_match_the_order(request@, ids, extra);
    assert(result is Ok <==> acceptance::matches_order(request@, ids, extra));
    // The common names.
    assert forall|c: int| 0 <= c < request.common_names@.len() implies names_a_value(
        request,
        #[trigger] request.common_names@[c],
    ) == acceptance::is_covered(request@, request@.common_names[c]) by {
        lemma_names_a_value(request, request.common_names@[c]);
    }
    // Everything else, from either side.
    if acceptance::matches_order(request@, ids, extra) {
        assert forall|i: int, k: int|
            (#[trigger] value_at(request, i, k)) is Some && value_at(request, i, k)->0 is Ip implies {
            let octets = value_at(request, i, k)->0->Ip_0@;
            octets.len() == 4 || octets.len() == 16
        } by {
            lemma_value_is_asked_for(request, i, k);
            assert(acceptance::asks_for_ip(request@, value_at(request, i, k)->0->Ip_0@));
        }
        assert forall|j: int| 0 <= j < ids.len() implies covers(request, #[trigger] ids[j]) by {
            lemma_covers(request, ids[j]);
            if let Some(name) = lower_name(ids[j]) {
                assert(acceptance::authorizes_dns(ids, name));
            }
            if let Identifier::Ip(addr) = *ids[j].identifier {
                assert(acceptance::authorizes_ip(ids, addr@));
            }
        }
        if !extra {
            assert forall|i: int, k: int|
                (#[trigger] value_at(request, i, k)) is Some implies is_authorized(
                ids,
                value_at(request, i, k)->0,
            ) by {
                lemma_value_is_asked_for(request, i, k);
                lemma_is_authorized(request, ids, i, k);
                match value_at(request, i, k)->0 {
                    AltName::Dns(name) => {
                        assert(acceptance::asks_for(request@, AltNameView::Dns(name@)));
                        assert(acceptance::asks_for_dns(
                            request@,
                            text::ascii_lowercase(name@),
                        ));
                    },
                    AltName::Ip(octets) => {
                        assert(acceptance::asks_for_ip(request@, octets@));
                    },
                    AltName::OtherName(text) => {
                        assert(acceptance::asks_for(request@, AltNameView::OtherName(text@)));
                    },
                    AltName::Other(text) => {
                        assert(acceptance::asks_for(request@, AltNameView::Other(text@)));
                    },
                }
            }
        }
        assert forall|c: int| 0 <= c < request.common_names@.len() implies names_a_value(
            request,
            #[trigger] request.common_names@[c],
        ) by {
            assert(acceptance::is_covered(request@, request@.common_names[c]));
        }
    }
    if is_well_formed(request) && covers_all(request, ids) && (extra || is_all_authorized(
        request,
        ids,
    )) && names_values_only(request) {
        lemma_matches_order(request, ids, extra);
    }
}

proof fn lemma_matches_order(
    request: &CertificationRequest,
    ids: Seq<AuthorizedIdentifier<'_>>,
    extra: bool,
)
    requires
        is_well_formed(request),
        covers_all(request, ids),
        extra || is_all_authorized(request, ids),
        names_values_only(request),
    ensures
        acceptance::matches_order(request@, ids, extra),
{
    assert forall|octets: Seq<u8>| #[trigger] acceptance::asks_for_ip(
        request@,
        octets,
    ) implies octets.len() == 4 || octets.len() == 16 by {
        lemma_asks_for(request, AltNameView::Ip(octets));
        let (i, k) = choose|i: int, k: int|
            #[trigger] value_at(request, i, k) matches Some(found) && found@ == AltNameView::Ip(
                octets,
            );
        assert(value_at(request, i, k)->0 is Ip);
    }
    assert forall|name: Seq<char>| #[trigger] acceptance::authorizes_dns(
        ids,
        name,
    ) implies acceptance::asks_for_dns(request@, name) by {
        let j = choose|i: int|
            0 <= i < ids.len() && match *(#[trigger] ids[i]).identifier {
                Identifier::Dns(spelling) => name == if ids[i].wildcard {
                    seq!['*', '.'] + text::ascii_lowercase(spelling@)
                } else {
                    text::ascii_lowercase(spelling@)
                },
                _ => false,
            };
        assert(lower_name(ids[j]) == Some(name));
        lemma_covers(request, ids[j]);
        assert(covers(request, ids[j]));
    }
    assert forall|octets: Seq<u8>| #[trigger] acceptance::authorizes_ip(
        ids,
        octets,
    ) implies acceptance::asks_for_ip(request@, octets) by {
        let j = choose|i: int|
            0 <= i < ids.len() && match *(#[trigger] ids[i]).identifier {
                Identifier::Ip(IpAddr::V4(addr)) => addr@ == octets,
                Identifier::Ip(IpAddr::V6(addr)) => addr@ == octets,
                _ => false,
            };
        lemma_covers(request, ids[j]);
        assert(covers(request, ids[j]));
    }
    if !extra {
        assert forall|name: Seq<char>| #[trigger] acceptance::asks_for_dns(
            request@,
            name,
        ) implies acceptance::authorizes_dns(ids, name) by {
            let spelling = choose|spelling: Seq<char>| #[trigger]
                acceptance::asks_for(request@, AltNameView::Dns(spelling))
                    && text::ascii_lowercase(spelling) == name;
            lemma_asks_for(request, AltNameView::Dns(spelling));
            let (i, k) = choose|i: int, k: int|
                #[trigger] value_at(request, i, k) matches Some(found) && found@
                    == AltNameView::Dns(spelling);
            lemma_is_authorized(request, ids, i, k);
        }
        assert forall|octets: Seq<u8>| #[trigger] acceptance::asks_for_ip(
            request@,
            octets,
        ) implies acceptance::authorizes_ip(ids, octets) by {
            lemma_asks_for(request, AltNameView::Ip(octets));
            let (i, k) = choose|i: int, k: int|
                #[trigger] value_at(request, i, k) matches Some(found) && found@
                    == AltNameView::Ip(octets);
            lemma_is_authorized(request, ids, i, k);
        }
        assert forall|text: Seq<char>| !#[trigger] acceptance::asks_for(
            request@,
            AltNameView::Other(text),
        ) by {
            lemma_asks_for(request, AltNameView::Other(text));
            if acceptance::asks_for(request@, AltNameView::Other(text)) {
                let (i, k) = choose|i: int, k: int|
                    #[trigger] value_at(request, i, k) matches Some(found) && found@
                        == AltNameView::Other(text);
                lemma_is_authorized(request, ids, i, k);
            }
        }
        if !validation::attests(ids) {
            assert forall|text: Seq<char>| !#[trigger] acceptance::asks_for(
                request@,
                AltNameView::OtherName(text),
            ) by {
                lemma_asks_for(request, AltNameView::OtherName(text));
                if acceptance::asks_for(request@, AltNameView::OtherName(text)) {
                    let (i, k) = choose|i: int, k: int|
                        #[trigger] value_at(request, i, k) matches Some(found) && found@
                            == AltNameView::OtherName(text);
                    lemma_is_authorized(request, ids, i, k);
                }
            }
        }
    }
    assert forall|c: int| 0 <= c < request@.common_names.len() implies acceptance::is_covered(
        request@,
        #[trigger] request@.common_names[c],
    ) by {
        lemma_names_a_value(request, request.common_names@[c]);
        assert(names_a_value(request, request.common_names@[c]));
    }
}

/// Of a request that is accepted without extra names, each value of each subjectAltName extension
/// is authorized: a DNS name by an identifier that is the same name in any case, behind a wildcard
/// label if it is a wildcard; an IP address by an identifier with the same octets; an otherName by
/// an attestation identifier; and no other type of name can be.
pub proof fn law_every_accepted_value_is_authorized(
    request: &CertificationRequest,
    identifiers: &[AuthorizedIdentifier<'_>],
    policy: &CsrPolicy,
    extensions: Vec<RequestedExtension>,
    i: int,
    names: Vec<AltName>,
    k: int,
)
    requires
        call_ensures(
            CertificationRequest::validate_names,
            (request, identifiers, policy),
            Ok::<(), CsrError>(()),
        ),
        !policy.extra_identifiers,
        request.extensions == Some(extensions),
        0 <= i < extensions@.len(),
        extensions@[i] == RequestedExtension::SubjectAltName(names),
        0 <= k < names@.len(),
    ensures
        match names@[k] {
            AltName::Dns(name) => exists|j: int|
                0 <= j < identifiers@.len() && match *(#[trigger] identifiers@[j]).identifier {
                    Identifier::Dns(spelling) => if identifiers@[j].wildcard {
                        &&& name@.len() == spelling@.len() + 2
                        &&& name@[0] == '*'
                        &&& name@[1] == '.'
                        &&& text::same_ignoring_case(name@.skip(2), spelling@)
                    } else {
                        text::same_ignoring_case(name@, spelling@)
                    },
                    _ => false,
                },
            AltName::Ip(octets) => exists|j: int|
                0 <= j < identifiers@.len() && match *(#[trigger] identifiers@[j]).identifier {
                    Identifier::Ip(IpAddr::V4(addr)) => addr@ == octets@,
                    Identifier::Ip(IpAddr::V6(addr)) => addr@ == octets@,
                    _ => false,
                },
            AltName::OtherName(_) => exists|j: int|
                0 <= j < identifiers@.len() && match *(#[trigger] identifiers@[j]).identifier {
                    Identifier::PermanentIdentifier(_) => true,
                    Identifier::HardwareModule(_) => true,
                    _ => false,
                },
            AltName::Other(_) => false,
        },
{
    law_accepted_exactly_if_names_match(request, identifiers, policy, Ok(()));
    assert(value_at(request, i, k) == Some(names@[k]));
    assert(is_authorized(identifiers@, names@[k]));
    match names@[k] {
        AltName::Dns(name) => {
            let j = choose|j: int|
                0 <= j < identifiers@.len() && is_dns_name_of(name@, #[trigger] identifiers@[j]);
            assert(identifiers@[j].identifier is Dns);
        },
        AltName::Ip(octets) => {
            let j = choose|j: int|
                0 <= j < identifiers@.len() && is_address_of(octets@, #[trigger] identifiers@[j]);
            assert(identifiers@[j].identifier is Ip);
        },
        _ => {},
    }
}

/// A request that is accepted asks for what each identifier authorizes, in some value of some
/// subjectAltName extension, whatever the policy.
pub proof fn law_every_identifier_is_asked_for(
    request: &CertificationRequest,
    identifiers: &[AuthorizedIdentifier<'_>],
    policy: &CsrPolicy,
    j: int,
)
    requires
        call_ensures(
            CertificationRequest::validate_names,
            (request, identifiers, policy),
            Ok::<(), CsrError>(()),
        ),
        0 <= j < identifiers@.len(),
        identifiers@[j].identifier is Dns || identifiers@[j].identifier is Ip,
    ensures
        exists|i: int, k: int|
            {
                &&& request.extensions is Some
                &&& 0 <= i < request.extensions->0@.len()
                &&& request.extensions->0@[i] is SubjectAltName
                &&& 0 <= k < request.extensions->0@[i]->SubjectAltName_0@.len()
                &&& match (
                    *identifiers@[j].identifier,
                    #[trigger] request.extensions->0@[i]->SubjectAltName_0@[k],
                ) {
                    (Identifier::Dns(spelling), AltName::Dns(name)) => if identifiers@[j].wildcard {
                        &&& name@.len() == spelling@.len() + 2
                        &&& name@[0] == '*'
                        &&& name@[1] == '.'
                        &&& text::same_ignoring_case(name@.skip(2), spelling@)
                    } else {
                        text::same_ignoring_case(name@, spelling@)
                    },
                    (Identifier::Ip(IpAddr::V4(addr)), AltName::Ip(octets)) => addr@ == octets@,
                    (Identifier::Ip(IpAddr::V6(addr)), AltName::Ip(octets)) => addr@ == octets@,
                    _ => false,
                }
            },
{
    law_accepted_exactly_if_names_match(request, identifiers, policy, Ok(()));
    assert(covers(request, identifiers@[j]));
    if identifiers@[j].identifier is Dns {
        let (i, k) = choose|i: int, k: int|
            #[trigger] value_at(request, i, k) matches Some(AltName::Dns(name)) && is_dns_name_of(
                name@,
                identifiers@[j],
            );
        assert(request.extensions->0@[i]->SubjectAltName_0@[k] == value_at(request, i, k)->0);
    } else {
        let (i, k) = choose|i: int, k: int|
            #[trigger] value_at(request, i, k) matches Some(AltName::Ip(octets)) && is_address_of(
                octets@,
                identifiers@[j],
            );
        assert(request.extensions->0@[i]->SubjectAltName_0@[k] == value_at(request, i, k)->0);
    }
}

/// Of a request that is accepted, each common name is a string, and is a DNS name of some
/// subjectAltName extension in any case, or the text of an IP address there.
pub proof fn law_every_common_name_is_a_value(
    request: &CertificationRequest,
    identifiers: &[AuthorizedIdentifier<'_>],
    policy: &CsrPolicy,
    c: int,
)
    requires
        call_ensures(
            CertificationRequest::validate_names,
            (request, identifiers, policy),
            Ok::<(), CsrError>(()),
        ),
        0 <= c < request.common_names@.len(),
    ensures
        request.common_names@[c] is Some,
        exists|i: int, k: int|
            {
                &&& request.extensions is Some
                &&& 0 <= i < request.extensions->0@.len()
                &&& request.extensions->0@[i] is SubjectAltName
                &&& 0 <= k < request.extensions->0@[i]->SubjectAltName_0@.len()
                &&& match #[trigger] request.extensions->0@[i]->SubjectAltName_0@[k] {
                    AltName::Dns(name) => text::same_ignoring_case(
                        name@,
                        request.common_names@[c]->0@,
                    ),
                    AltName::Ip(octets) => ip::ip_text(octets@) == request.common_names@[c]->0@,
                    _ => false,
                }
            },
{
    law_accepted_exactly_if_names_match(request, identifiers, policy, Ok(()));
    assert(names_a_value(request, request.common_names@[c]));
    let name = request.common_names@[c]->0;
    let (i, k) = choose|i: int, k: int|
        match #[trigger] value_at(request, i, k) {
            Some(AltName::Dns(found)) => text::same_ignoring_case(found@, name@),
            Some(AltName::Ip(octets)) => ip::ip_text(octets@) == name@,
            _ => false,
        };
    assert(request.extensions->0@[i]->SubjectAltName_0@[k] == value_at(request, i, k)->0);
}

/// A request is accepted if each identifier is asked for in some value of some subjectAltName
/// extension, each value is authorized (or extra names are allowed, and it is at least no IP
/// address of a wrong length), and each common name is a DNS name or IP address among the values.
pub proof fn law_matching_names_are_accepted(
    request: &CertificationRequest,
    identifiers: &[AuthorizedIdentifier<'_>],
    policy: &CsrPolicy,
    result: Result<(), CsrError>,
)
    requires
        call_ensures(
            CertificationRequest::validate_names,
            (request, identifiers, policy),
            result,
        ),
        forall|i: int, k: int|
            request.extensions is Some && 0 <= i < request.extensions->0@.len()
                && request.extensions->0@[i] is SubjectAltName && 0 <= k
                < request.extensions->0@[i]->SubjectAltName_0@.len() ==> match (
            #[trigger] request.extensions->0@[i]->SubjectAltName_0@[k]) {
                AltName::Dns(name) => policy.extra_identifiers || exists|j: int|
                    0 <= j < identifiers@.len() && match *(#[trigger] identifiers@[j]).identifier {
                        Identifier::Dns(spelling) => if identifiers@[j].wildcard {
                            &&& name@.len() == spelling@.len() + 2
                            &&& name@[0] == '*'
                            &&& name@[1] == '.'
                            &&& text::same_ignoring_case(name@.skip(2), spelling@)
                        } else {
                            text::same_ignoring_case(name@, spelling@)
                        },
                        _ => false,
                    },
                AltName::Ip(octets) => {
                    &&& octets@.len() == 4 || octets@.len() == 16
                    &&& policy.extra_identifiers || exists|j: int|
                        0 <= j < identifiers@.len() && match *(
                        #[trigger] identifiers@[j]).identifier {
                            Identifier::Ip(IpAddr::V4(addr)) => addr@ == octets@,
                            Identifier::Ip(IpAddr::V6(addr)) => addr@ == octets@,
                            _ => false,
                        }
                },
                AltName::OtherName(_) => policy.extra_identifiers || exists|j: int|
                    0 <= j < identifiers@.len() && match *(#[trigger] identifiers@[j]).identifier {
                        Identifier::PermanentIdentifier(_) => true,
                        Identifier::HardwareModule(_) => true,
                        _ => false,
                    },
                AltName::Other(_) => policy.extra_identifiers,
            },
        forall|j: int|
            0 <= j < identifiers@.len() && ((#[trigger] identifiers@[j]).identifier is Dns
                || identifiers@[j].identifier is Ip) ==> exists|i: int, k: int|
                {
                    &&& request.extensions is Some
                    &&& 0 <= i < request.extensions->0@.len()
                    &&& request.extensions->0@[i] is SubjectAltName
                    &&& 0 <= k < request.extensions->0@[i]->SubjectAltName_0@.len()
                    &&& match (
                        *identifiers@[j].identifier,
                        #[trigger] request.extensions->0@[i]->SubjectAltName_0@[k],
                    ) {
                        (Identifier::Dns(spelling), AltName::Dns(name)) => if identifiers@[j].wildcard {
                            &&& name@.len() == spelling@.len() + 2
                            &&& name@[0] == '*'
                            &&& name@[1] == '.'
                            &&& text::same_ignoring_case(name@.skip(2), spelling@)
                        } else {
                            text::same_ignoring_case(name@, spelling@)
                        },
                        (Identifier::Ip(IpAddr::V4(addr)), AltName::Ip(octets)) => addr@ == octets@,
                        (Identifier::Ip(IpAddr::V6(addr)), AltName::Ip(octets)) => addr@ == octets@,
                        _ => false,
                    }
                },
        forall|c: int|
            0 <= c < request.common_names@.len() ==> (#[trigger] request.common_names@[c]) is Some
                && exists|i: int, k: int|
                {
                    &&& request.extensions is Some
                    &&& 0 <= i < request.extensions->0@.len()
                    &&& request.extensions->0@[i] is SubjectAltName
                    &&& 0 <= k < request.extensions->0@[i]->SubjectAltName_0@.len()
                    &&& match #[trigger] request.extensions->0@[i]->SubjectAltName_0@[k] {
                        AltName::Dns(name) => text::same_ignoring_case(
                            name@,
                            request.common_names@[c]->0@,
                        ),
                        AltName::Ip(octets) => ip::ip_text(octets@)
                            == request.common_names@[c]->0@,
                        _ => false,
                    }
                },
    ensures
        result is Ok,
{
    let ids = identifiers@;
    law_accepted_exactly_if_names_match(request, identifiers, policy, result);
    assert forall|i: int, k: int| (#[trigger] value_at(request, i, k)) is Some implies {
        &&& value_at(request, i, k)->0 matches AltName::Ip(octets) ==> octets@.len() == 4
            || octets@.len() == 16
        &&& policy.extra_identifiers || is_authorized(ids, value_at(request, i, k)->0)
    } by {
        let value = request.extensions->0@[i]->SubjectAltName_0@[k];
        assert(value_at(request, i, k) == Some(value));
        if !policy.extra_identifiers {
            match value {
                AltName::Dns(name) => {
                    let j = choose|j: int|
                        0 <= j < ids.len() && match *(#[trigger] ids[j]).identifier {
                            Identifier::Dns(spelling) => if ids[j].wildcard {
                                &&& name@.len() == spelling@.len() + 2
                                &&& name@[0] == '*'
                                &&& name@[1] == '.'
                                &&& text::same_ignoring_case(name@.skip(2), spelling@)
                            } else {
                                text::same_ignoring_case(name@, spelling@)
                            },
                            _ => false,
                        };
                    assert(is_dns_name_of(name@, ids[j]));
                },
                AltName::Ip(octets) => {
                    let j = choose|j: int|
                        0 <= j < ids.len() && match *(#[trigger] ids[j]).identifier {
                            Identifier::Ip(IpAddr::V4(addr)) => addr@ == octets@,
                            Identifier::Ip(IpAddr::V6(addr)) => addr@ == octets@,
                            _ => false,
                        };
                    assert(is_address_of(octets@, ids[j]));
                },
                _ => {},
            }
        }
    }
    assert forall|j: int| 0 <= j < ids.len() implies covers(request, #[trigger] ids[j]) by {
        if ids[j].identifier is Dns || ids[j].identifier is Ip {
            let (i, k) = choose|i: int, k: int|
                {
                    &&& request.extensions is Some
                    &&& 0 <= i < request.extensions->0@.len()
                    &&& request.extensions->0@[i] is SubjectAltName
                    &&& 0 <= k < request.extensions->0@[i]->SubjectAltName_0@.len()
                    &&& match (
                        *ids[j].identifier,
                        #[trigger] request.extensions->0@[i]->SubjectAltName_0@[k],
                    ) {
                        (Identifier::Dns(spelling), AltName::Dns(name)) => if ids[j].wildcard {
                            &&& name@.len() == spelling@.len() + 2
                            &&& name@[0] == '*'
                            &&& name@[1] == '.'
                            &&& text::same_ignoring_case(name@.skip(2), spelling@)
                        } else {
                            text::same_ignoring_case(name@, spelling@)
                        },
                        (Identifier::Ip(IpAddr::V4(addr)), AltName::Ip(octets)) => addr@ == octets@,
                        (Identifier::Ip(IpAddr::V6(addr)), AltName::Ip(octets)) => addr@ == octets@,
                        _ => false,
                    }
                };
            let value = request.extensions->0@[i]->SubjectAltName_0@[k];
            assert(value_at(request, i, k) == Some(value));
        }
    }
    assert forall|c: int| 0 <= c < request.common_names@.len() implies names_a_value(
        request,
        #[trigger] request.common_names@[c],
    ) by {
        let name = request.common_names@[c]->0;
        let (i, k) = choose|i: int, k: int|
            {
                &&& request.extensions is Some
                &&& 0 <= i < request.extensions->0@.len()
                &&& request.extensions->0@[i] is SubjectAltName
                &&& 0 <= k < request.extensions->0@[i]->SubjectAltName_0@.len()
                &&& match #[trigger] request.extensions->0@[i]->SubjectAltName_0@[k] {
                    AltName::Dns(found) => text::same_ignoring_case(found@, name@),
                    AltName::Ip(octets) => ip::ip_text(octets@) == name@,
                    _ => false,
                }
            };
        assert(value_at(request, i, k) == Some(
            request.extensions->0@[i]->SubjectAltName_0@[k],
        ));
    }
}

proof fn lemma_first_missing_push<T>(values: Seq<T>, value: T, among: Seq<T>)
    ensures
        validation::first_missing(values.push(value), among) == if validation::first_missing(
            values,
            among,
        ) is Some {
            validation::first_missing(values, among)
        } else if among.contains(value) {
            None
        } else {
            Some(value)
        },
    decreases values.len(),
{
    if values.len() > 0 {
        lemma_first_missing_push(values.skip(1), value, among);
        assert(values.push(value).skip(1) =~= values.skip(1).push(value));
        assert(values.push(value)[0] == values[0]);
    } else {
        assert(values.push(value)[0] == value);
        assert(values.push(value).skip(1) =~= values);
        reveal_with_fuel(validation::first_missing, 2);
    }
}

/// The first missing value of those that are there stands at some place, before which none is
/// missing.
proof fn lemma_place_of_first_missing<T>(values: Seq<Option<T>>, among: Seq<T>) -> (p: int)
    requires
        validation::first_missing(validation::present(values), among) is Some,
    ensures
        0 <= p < values.len(),
        values[p] == validation::first_missing(validation::present(values), among),
        !among.contains(values[p]->0),
        forall|q: int| 0 <= q < p && (#[trigger] values[q]) is Some ==> among.contains(values[q]->0),
    decreases values.len(),
{
    if values.len() == 0 {
        0
    } else {
        let (rest, last) = (values.drop_last(), values.last());
        let found = validation::present(rest);
        if let Some(value) = last {
            lemma_first_missing_push(found, value, among);
        }
        if validation::first_missing(found, among) is Some {
            let p = lemma_place_of_first_missing(rest, among);
            assert(forall|q: int| 0 <= q < rest.len() ==> rest[q] == values[q]);
            p
        } else {
            assert forall|q: int|
                0 <= q < values.len() - 1 && (#[trigger] values[q]) is Some implies among.contains(
                values[q]->0,
            ) by {
                acceptance::lemma_present(rest, values[q]->0);
                acceptance::lemma_first_missing(found, among);
                assert(rest[q] == values[q]);
                assert(rest.contains(Some(values[q]->0)));
                assert(found.contains(values[q]->0));
            }
            values.len() - 1
        }
    }
}

proof fn lemma_place_of_first_unlisted(names: Seq<AltNameView>, attested: bool) -> (p: int)
    requires
        validation::first_unlisted(names, attested) is Some,
    ensures
        0 <= p < names.len(),
        validation::unlisted_name(names[p], attested) == validation::first_unlisted(
            names,
            attested,
        ),
        forall|q: int|
            0 <= q < p ==> validation::unlisted_name(#[trigger] names[q], attested) is None,
    decreases names.len(),
{
    if names.len() == 0 || validation::unlisted_name(names[0], attested) is Some {
        0
    } else {
        let p = lemma_place_of_first_unlisted(names.skip(1), attested);
        assert forall|q: int| 0 <= q < p + 1 implies validation::unlisted_name(
            #[trigger] names[q],
            attested,
        ) is None by {
            if q > 0 {
                assert(names.skip(1)[q - 1] == names[q]);
            }
        }
        p + 1
    }
}

proof fn lemma_place_of_common_name_error(
    common_names: Seq<Option<Seq<char>>>,
    dns: Seq<Seq<char>>,
    ips: Seq<Seq<u8>>,
) -> (c: int)
    requires
        validation::common_name_error(common_names, dns, ips) is Some,
    ensures
        0 <= c < common_names.len(),
        validation::common_name_error(common_names, dns, ips) == Some(
            match common_names[c] {
                None => CsrErrorView::Parse("subject common name is not a string"@),
                Some(name) => CsrErrorView::CommonNameNotInSan(name),
            },
        ),
        common_names[c] matches Some(name) ==> !validation::is_requested(name, dns, ips),
        forall|d: int|
            0 <= d < c ==> (#[trigger] common_names[d] matches Some(name)
                && validation::is_requested(name, dns, ips)),
    decreases common_names.len(),
{
    if common_names.len() == 0 || common_names[0] is None || !validation::is_requested(
        common_names[0]->0,
        dns,
        ips,
    ) {
        0
    } else {
        let c = lemma_place_of_common_name_error(common_names.skip(1), dns, ips);
        assert forall|d: int| 0 <= d < c + 1 implies (#[trigger] common_names[d] matches Some(name)
            && validation::is_requested(name, dns, ips)) by {
            if d > 0 {
                assert(common_names.skip(1)[d - 1] == common_names[d]);
            }
        }
        c + 1
    }
}

/// How many values the subjectAltName extensions before place `i` hold.
spec fn values_before(extensions: Seq<ExtensionView>, i: int) -> int {
    validation::alt_names(extensions.take(i)).len() as int
}

proof fn lemma_place_of_value(extensions: Seq<ExtensionView>, i: int, k: int)
    requires
        0 <= i < extensions.len(),
        extensions[i] is SubjectAltName,
        0 <= k < extensions[i]->SubjectAltName_0.len(),
    ensures
        values_before(extensions, i) + k < validation::alt_names(extensions).len(),
        validation::alt_names(extensions)[values_before(extensions, i) + k]
            == extensions[i]->SubjectAltName_0[k],
    decreases extensions.len(),
{
    let rest = extensions.drop_last();
    if i < rest.len() {
        lemma_place_of_value(rest, i, k);
        assert(rest.take(i) =~= extensions.take(i));
    } else {
        assert(extensions.take(i) =~= rest);
    }
}

proof fn lemma_value_of_place(extensions: Seq<ExtensionView>, p: int) -> (place: (int, int))
    requires
        0 <= p < validation::alt_names(extensions).len(),
    ensures
        0 <= place.0 < extensions.len(),
        extensions[place.0] is SubjectAltName,
        0 <= place.1 < extensions[place.0]->SubjectAltName_0.len(),
        p == values_before(extensions, place.0) + place.1,
    decreases extensions.len(),
{
    let rest = extensions.drop_last();
    let before = validation::alt_names(rest);
    if p < before.len() {
        let place = lemma_value_of_place(rest, p);
        assert(rest.take(place.0) =~= extensions.take(place.0));
        place
    } else {
        assert(extensions.take(extensions.len() - 1) =~= rest);
        (extensions.len() - 1, p - before.len())
    }
}

proof fn lemma_values_before(extensions: Seq<ExtensionView>, i: int, j: int)
    requires
        0 <= i < j <= extensions.len(),
    ensures
        values_before(extensions, i) + (if extensions[i] is SubjectAltName {
            extensions[i]->SubjectAltName_0.len()
        } else {
            0
        }) <= values_before(extensions, j),
    decreases j - i,
{
    assert(extensions.take(j).drop_last() =~= extensions.take(j - 1));
    assert(extensions.take(j).last() == extensions[j - 1]);
    if i < j - 1 {
        lemma_values_before(extensions, i, j - 1);
    }
}

/// Whether one value stands before another: in an earlier extension, or earlier in the same one.
pub open spec fn stands_before(i: int, k: int, other_i: int, other_k: int) -> bool {
    i < other_i || (i == other_i && k < other_k)
}

/// The order of places is the order of values in the request.
proof fn lemma_stands_before(
    request: &CertificationRequest,
    i: int,
    k: int,
    other_i: int,
    other_k: int,
)
    requires
        value_at(request, i, k) is Some,
        value_at(request, other_i, other_k) is Some,
    ensures
        stands_before(i, k, other_i, other_k) ==> place(request, i, k) < place(
            request,
            other_i,
            other_k,
        ),
        0 <= place(request, i, k) < request@.alt_names().len(),
        request@.alt_names()[place(request, i, k)] == value_at(request, i, k)->0@,
{
    let extensions = request@.requested();
    assert(extensions[i] == request.extensions->0@[i]@);
    assert(extensions[other_i] == request.extensions->0@[other_i]@);
    lemma_place_of_value(extensions, i, k);
    assert(extensions[i]->SubjectAltName_0[k] == value_at(request, i, k)->0@);
    if i < other_i {
        lemma_values_before(extensions, i, other_i);
    }
}

/// The place of a value among all the values of a request.
spec fn place(request: &CertificationRequest, i: int, k: int) -> int {
    values_before(request@.requested(), i) + k
}

/// The value that stands at a place among all the values of a request.
proof fn lemma_value_at_place(request: &CertificationRequest, p: int) -> (at: (int, int))
    requires
        0 <= p < request@.alt_names().len(),
    ensures
        value_at(request, at.0, at.1) is Some,
        place(request, at.0, at.1) == p,
        value_at(request, at.0, at.1)->0@ == request@.alt_names()[p],
{
    let extensions = request@.requested();
    let at = lemma_value_of_place(extensions, p);
    assert(extensions[at.0] == request.extensions->0@[at.0]@);
    lemma_place_of_value(extensions, at.0, at.1);
    at
}

/// Whether a request has a subjectAltName extension.
pub open spec fn has_extension(request: &CertificationRequest) -> bool {
    request.extensions matches Some(extensions) && exists|i: int|
        0 <= i < extensions@.len() && (#[trigger] extensions@[i]) is SubjectAltName
}

/// Whether an identifier is the first that a request does not cover: the first DNS name, or the
/// first IP address if all DNS names are covered.
pub open spec fn is_first_missing(
    request: &CertificationRequest,
    identifiers: Seq<AuthorizedIdentifier<'_>>,
    j: int,
) -> bool {
    &&& 0 <= j < identifiers.len()
    &&& !covers(request, identifiers[j])
    &&& forall|other: int|
        0 <= other < identifiers.len() && match (
            *(#[trigger] identifiers[other]).identifier,
            *identifiers[j].identifier,
        ) {
            (Identifier::Dns(_), Identifier::Dns(_)) => other < j,
            (Identifier::Dns(_), _) => true,
            (Identifier::Ip(_), Identifier::Ip(_)) => other < j,
            _ => false,
        } ==> covers(request, identifiers[other])
}

/// Whether a value is the first that an order does not authorize: the first DNS name, the first IP
/// address if all DNS names are authorized, or the first name of another type if all of both are.
pub open spec fn is_first_unexpected(
    request: &CertificationRequest,
    identifiers: Seq<AuthorizedIdentifier<'_>>,
    i: int,
    k: int,
) -> bool {
    &&& value_at(request, i, k) is Some
    &&& !is_authorized(identifiers, value_at(request, i, k)->0)
    &&& forall|other_i: int, other_k: int|
        (#[trigger] value_at(request, other_i, other_k)) is Some && match (
            value_at(request, other_i, other_k)->0,
            value_at(request, i, k)->0,
        ) {
            (AltName::Dns(_), AltName::Dns(_)) => stands_before(other_i, other_k, i, k),
            (AltName::Dns(_), _) => true,
            (AltName::Ip(_), AltName::Dns(_)) => false,
            (AltName::Ip(_), AltName::Ip(_)) => stands_before(other_i, other_k, i, k),
            (AltName::Ip(_), _) => true,
            (_, AltName::Dns(_)) => false,
            (_, AltName::Ip(_)) => false,
            (_, _) => stands_before(other_i, other_k, i, k),
        } ==> is_authorized(identifiers, value_at(request, other_i, other_k)->0)
}

/// Whether a common name is the first that is not among the values of a request.
pub open spec fn is_first_stray(request: &CertificationRequest, c: int) -> bool {
    &&& 0 <= c < request.common_names@.len()
    &&& !names_a_value(request, request.common_names@[c])
    &&& forall|d: int| 0 <= d < c ==> names_a_value(request, #[trigger] request.common_names@[d])
}

/// A text is in lower case: it holds none of the letters from `A` to `Z`.
pub open spec fn is_lower_case(text: Seq<char>) -> bool {
    forall|i: int| 0 <= i < text.len() ==> !('A' <= #[trigger] text[i] <= 'Z')
}

proof fn lemma_lower_name(authorized: AuthorizedIdentifier<'_>, name: Seq<char>)
    requires
        lower_name(authorized) == Some(name),
    ensures
        is_dns_name_of(name, authorized),
        is_lower_case(name),
{
    let spelling = authorized.identifier->Dns_0@;
    let lower = text::ascii_lowercase(spelling);
    text::law_lowercase_has_no_upper_case(spelling);
    if authorized.wildcard {
        assert(name.skip(2) =~= lower);
        assert forall|i: int| 0 <= i < name.len() implies !('A' <= #[trigger] name[i] <= 'Z') by {
            if i >= 2 {
                assert(name[i] == lower[i - 2]);
            }
        }
    }
}

/// An error says which check failed first. The IP addresses are looked at first, then whether
/// there is a subjectAltName extension at all, then the identifiers, then the values, and the
/// common names last; within a check, what stands first is reported.
pub proof fn law_first_failure_is_reported(
    request: &CertificationRequest,
    identifiers: &[AuthorizedIdentifier<'_>],
    policy: &CsrPolicy,
    err: CsrError,
)
    requires
        call_ensures(
            CertificationRequest::validate_names,
            (request, identifiers, policy),
            Err::<(), CsrError>(err),
        ),
    ensures
        match err {
            CsrError::Parse(what) => {
                ||| what@ == "invalid IP address in subjectAltName"@ && !is_well_formed(request)
                ||| {
                    &&& what@ == "subject common name is not a string"@
                    &&& is_well_formed(request)
                    &&& covers_all(request, identifiers@)
                    &&& policy.extra_identifiers || is_all_authorized(request, identifiers@)
                    &&& exists|c: int|
                        #[trigger] is_first_stray(request, c) && request.common_names@[c] is None
                }
            },
            CsrError::NoSubjectAltName => {
                &&& is_well_formed(request)
                &&& !has_extension(request)
                &&& exists|j: int|
                    0 <= j < identifiers@.len() && {
                        ||| (#[trigger] identifiers@[j]).identifier is Dns
                        ||| identifiers@[j].identifier is Ip
                    }
            },
            CsrError::MissingIdentifier(text) => {
                &&& is_well_formed(request)
                &&& has_extension(request)
                &&& exists|j: int| #[trigger]
                    is_first_missing(request, identifiers@, j) && match *identifiers@[j].identifier {
                        Identifier::Dns(_) => is_lower_case(text@) && is_dns_name_of(
                            text@,
                            identifiers@[j],
                        ),
                        Identifier::Ip(IpAddr::V4(addr)) => text@ == ip::ip_text(addr@),
                        Identifier::Ip(IpAddr::V6(addr)) => text@ == ip::ip_text(addr@),
                        _ => false,
                    }
            },
            CsrError::UnexpectedIdentifier(text) => {
                &&& is_well_formed(request)
                &&& covers_all(request, identifiers@)
                &&& !policy.extra_identifiers
                &&& exists|i: int, k: int| #[trigger]
                    is_first_unexpected(request, identifiers@, i, k) && match value_at(
                        request,
                        i,
                        k,
                    )->0 {
                        AltName::Dns(name) => is_lower_case(text@) && text::same_ignoring_case(
                            text@,
                            name@,
                        ),
                        AltName::Ip(octets) => text@ == ip::ip_text(octets@),
                        AltName::OtherName(name) => text@ == name@,
                        AltName::Other(name) => text@ == name@,
                    }
            },
            CsrError::CommonNameNotInSan(name) => {
                &&& is_well_formed(request)
                &&& covers_all(request, identifiers@)
                &&& policy.extra_identifiers || is_all_authorized(request, identifiers@)
                &&& exists|c: int| #[trigger]
                    is_first_stray(request, c) && (request.common_names@[c] matches Some(stray)
                        && stray@ == name@)
            },
            CsrError::AccountKeyReuse => false,
            CsrError::BadSignature => false,
        },
{
    let (ids, names) = (identifiers@, request@.alt_names());
    let (dns, ips) = (validation::requested_dns(names), validation::requested_ips(names));
    let (want_dns, want_ips) = (validation::wanted_dns(ids), validation::wanted_ips(ids));
    let checked = validation::names_checked(request@, ids, policy.extra_identifiers);
    assert(checked == Err::<(), CsrErrorView>(err@));
    lemma_has_extension(request);
    lemma_well_formed(request);
    acceptance::lemma_requested(request@);
    acceptance::lemma_wanted(ids);
    acceptance::lemma_first_missing(want_dns, dns);
    acceptance::lemma_first_missing(want_ips, ips);
    acceptance::lemma_first_missing(dns, want_dns);
    acceptance::lemma_first_missing(ips, want_ips);
    acceptance::lemma_common_name_errors(request@.common_names, dns, ips);
    if !is_well_formed(request) {
    } else if !request@.has_alt_names() && !(want_dns.len() == 0 && want_ips.len() == 0) {
        lemma_wants_something(ids);
    } else {
        if !has_extension(request) {
            acceptance::lemma_without_extension(request@.requested());
        }
        assert(has_extension(request) || validation::first_missing(want_dns, dns) is None);
        assert(has_extension(request) || validation::first_missing(want_ips, ips) is None);
        if validation::first_missing(want_dns, dns) is Some {
            lemma_missing_dns(request, ids);
        } else if validation::first_missing(want_ips, ips) is Some {
            lemma_missing_ip(request, ids);
        } else {
            lemma_nothing_missing(request, ids);
            let attested = validation::attests(ids);
            if !policy.extra_identifiers && validation::first_missing(dns, want_dns) is Some {
                lemma_unexpected_dns(request, ids);
            } else if !policy.extra_identifiers && validation::first_missing(ips, want_ips)
                is Some {
                lemma_unexpected_ip(request, ids);
            } else if !policy.extra_identifiers && validation::first_unlisted(names, attested)
                is Some {
                lemma_unexpected_other(request, ids);
            } else {
                if !policy.extra_identifiers {
                    lemma_nothing_unexpected(request, ids);
                }
                lemma_stray(request);
            }
        }
    }
}

proof fn lemma_has_extension(request: &CertificationRequest)
    ensures
        has_extension(request) == request@.has_alt_names(),
{
    if let Some(extensions) = request.extensions {
        assert(request@.requested().len() == extensions@.len());
        assert(forall|i: int|
            0 <= i < extensions@.len() ==> #[trigger] request@.requested()[i] == extensions@[i]@);
        if has_extension(request) {
            let i = choose|i: int|
                0 <= i < extensions@.len() && (#[trigger] extensions@[i]) is SubjectAltName;
            assert(request@.requested()[i] is SubjectAltName);
        }
        if request@.has_alt_names() {
            let i = choose|i: int|
                0 <= i < request@.requested().len() && #[trigger] request@.requested()[i]
                    is SubjectAltName;
            assert(extensions@[i] is SubjectAltName);
        }
    }
}

proof fn lemma_well_formed(request: &CertificationRequest)
    ensures
        is_well_formed(request) <==> !exists|p: int|
            0 <= p < request@.alt_names().len() && validation::malformed_ip(
                #[trigger] request@.alt_names()[p],
            ),
{
    let names = request@.alt_names();
    if exists|p: int| 0 <= p < names.len() && validation::malformed_ip(#[trigger] names[p]) {
        let p = choose|p: int| 0 <= p < names.len() && validation::malformed_ip(#[trigger] names[p]);
        let at = lemma_value_at_place(request, p);
        assert(value_at(request, at.0, at.1)->0 is Ip);
    }
    if !is_well_formed(request) {
        let (i, k) = choose|i: int, k: int|
            !(#[trigger] value_at(request, i, k) matches Some(AltName::Ip(octets))
                ==> octets@.len() == 4 || octets@.len() == 16);
        lemma_stands_before(request, i, k, i, k);
        assert(validation::malformed_ip(names[place(request, i, k)]));
    }
}

proof fn lemma_wants_something(ids: Seq<AuthorizedIdentifier<'_>>)
    requires
        validation::wanted_dns(ids).len() > 0 || validation::wanted_ips(ids).len() > 0,
    ensures
        exists|j: int|
            0 <= j < ids.len() && {
                ||| (#[trigger] ids[j]).identifier is Dns
                ||| ids[j].identifier is Ip
            },
{
    let (want_dns, want_ips) = (validation::wanted_dns(ids), validation::wanted_ips(ids));
    let f = |id: AuthorizedIdentifier<'_>| validation::authorized_dns(id);
    let g = |id: AuthorizedIdentifier<'_>| validation::authorized_ip(id);
    if want_dns.len() > 0 {
        assert(want_dns.contains(want_dns[0]));
        acceptance::lemma_present(ids.map_values(f), want_dns[0]);
        let j = ids.map_values(f).index_of(Some(want_dns[0]));
        assert(ids[j].identifier is Dns);
    } else {
        assert(want_ips.contains(want_ips[0]));
        acceptance::lemma_present(ids.map_values(g), want_ips[0]);
        let j = ids.map_values(g).index_of(Some(want_ips[0]));
        assert(ids[j].identifier is Ip);
    }
}

proof fn lemma_authorized_is_lower_name(authorized: AuthorizedIdentifier<'_>)
    ensures
        validation::authorized_dns(authorized) == lower_name(authorized),
{
    reveal_strlit("*.");
    assert("*."@ =~= seq!['*', '.']);
}

/// What an identifier authorizes is covered exactly if it is among the requested names.
proof fn lemma_covers_requested(
    request: &CertificationRequest,
    authorized: AuthorizedIdentifier<'_>,
)
    ensures
        validation::authorized_dns(authorized) matches Some(name) ==> (covers(request, authorized)
            <==> validation::requested_dns(request@.alt_names()).contains(name)),
        validation::authorized_ip(authorized) matches Some(octets) ==> (covers(request, authorized)
            <==> validation::requested_ips(request@.alt_names()).contains(octets)),
{
    lemma_authorized_is_lower_name(authorized);
    lemma_covers(request, authorized);
    acceptance::lemma_requested(request@);
    if let Some(name) = validation::authorized_dns(authorized) {
        assert(validation::requested_dns(request@.alt_names()).contains(name)
            <==> acceptance::asks_for_dns(request@, name));
    }
    if let Some(octets) = validation::authorized_ip(authorized) {
        assert(validation::requested_ips(request@.alt_names()).contains(octets)
            <==> acceptance::asks_for_ip(request@, octets));
    }
}

proof fn lemma_missing_dns(request: &CertificationRequest, ids: Seq<AuthorizedIdentifier<'_>>)
    requires
        validation::first_missing(
            validation::wanted_dns(ids),
            validation::requested_dns(request@.alt_names()),
        ) is Some,
    ensures
        exists|j: int| #[trigger]
            is_first_missing(request, ids, j) && ids[j].identifier is Dns && is_lower_case(
                validation::first_missing(
                    validation::wanted_dns(ids),
                    validation::requested_dns(request@.alt_names()),
                )->0,
            ) && is_dns_name_of(
                validation::first_missing(
                    validation::wanted_dns(ids),
                    validation::requested_dns(request@.alt_names()),
                )->0,
                ids[j],
            ),
{
    let dns = validation::requested_dns(request@.alt_names());
    let f = |id: AuthorizedIdentifier<'_>| validation::authorized_dns(id);
    let values = ids.map_values(f);
    let j = lemma_place_of_first_missing(values, dns);
    assert(values[j] == validation::authorized_dns(ids[j]));
    lemma_authorized_is_lower_name(ids[j]);
    lemma_lower_name(ids[j], values[j]->0);
    lemma_covers_requested(request, ids[j]);
    assert forall|other: int| 0 <= other < j && (#[trigger] ids[other]).identifier is Dns implies covers(
        request,
        ids[other],
    ) by {
        assert(values[other] == validation::authorized_dns(ids[other]));
        lemma_covers_requested(request, ids[other]);
    }
    assert(is_first_missing(request, ids, j));
}

proof fn lemma_missing_ip(request: &CertificationRequest, ids: Seq<AuthorizedIdentifier<'_>>)
    requires
        validation::first_missing(
            validation::wanted_dns(ids),
            validation::requested_dns(request@.alt_names()),
        ) is None,
        validation::first_missing(
            validation::wanted_ips(ids),
            validation::requested_ips(request@.alt_names()),
        ) is Some,
    ensures
        exists|j: int| #[trigger]
            is_first_missing(request, ids, j) && (ids[j].identifier matches Identifier::Ip(addr)
                && addr@ == validation::first_missing(
                validation::wanted_ips(ids),
                validation::requested_ips(request@.alt_names()),
            )->0),
{
    let ips = validation::requested_ips(request@.alt_names());
    let g = |id: AuthorizedIdentifier<'_>| validation::authorized_ip(id);
    let values = ids.map_values(g);
    let j = lemma_place_of_first_missing(values, ips);
    assert(values[j] == validation::authorized_ip(ids[j]));
    lemma_covers_requested(request, ids[j]);
    assert forall|other: int|
        0 <= other < ids.len() && ((#[trigger] ids[other]).identifier is Dns || (other < j
            && ids[other].identifier is Ip)) implies covers(request, ids[other]) by {
        lemma_covers_requested(request, ids[other]);
        if ids[other].identifier is Dns {
            lemma_wanted_is_among(request, ids, other);
        } else {
            assert(values[other] == validation::authorized_ip(ids[other]));
        }
    }
    assert(is_first_missing(request, ids, j));
}

/// If nothing is missing, what an identifier authorizes is among the requested names.
proof fn lemma_wanted_is_among(
    request: &CertificationRequest,
    ids: Seq<AuthorizedIdentifier<'_>>,
    j: int,
)
    requires
        0 <= j < ids.len(),
    ensures
        ids[j].identifier is Dns && validation::first_missing(
            validation::wanted_dns(ids),
            validation::requested_dns(request@.alt_names()),
        ) is None ==> validation::requested_dns(request@.alt_names()).contains(
            validation::authorized_dns(ids[j])->0,
        ),
        ids[j].identifier is Ip && validation::first_missing(
            validation::wanted_ips(ids),
            validation::requested_ips(request@.alt_names()),
        ) is None ==> validation::requested_ips(request@.alt_names()).contains(
            validation::authorized_ip(ids[j])->0,
        ),
{
    let names = request@.alt_names();
    let f = |id: AuthorizedIdentifier<'_>| validation::authorized_dns(id);
    let g = |id: AuthorizedIdentifier<'_>| validation::authorized_ip(id);
    acceptance::lemma_first_missing(validation::wanted_dns(ids), validation::requested_dns(names));
    acceptance::lemma_first_missing(validation::wanted_ips(ids), validation::requested_ips(names));
    if ids[j].identifier is Dns {
        assert(ids.map_values(f)[j] == validation::authorized_dns(ids[j]));
        assert(ids.map_values(f).contains(Some(validation::authorized_dns(ids[j])->0)));
        acceptance::lemma_present(ids.map_values(f), validation::authorized_dns(ids[j])->0);
        assert(validation::wanted_dns(ids).contains(validation::authorized_dns(ids[j])->0));
    }
    if ids[j].identifier is Ip {
        assert(ids.map_values(g)[j] == validation::authorized_ip(ids[j]));
        assert(ids.map_values(g).contains(Some(validation::authorized_ip(ids[j])->0)));
        acceptance::lemma_present(ids.map_values(g), validation::authorized_ip(ids[j])->0);
        assert(validation::wanted_ips(ids).contains(validation::authorized_ip(ids[j])->0));
    }
}

proof fn lemma_nothing_missing(request: &CertificationRequest, ids: Seq<AuthorizedIdentifier<'_>>)
    requires
        validation::first_missing(
            validation::wanted_dns(ids),
            validation::requested_dns(request@.alt_names()),
        ) is None,
        validation::first_missing(
            validation::wanted_ips(ids),
            validation::requested_ips(request@.alt_names()),
        ) is None,
    ensures
        covers_all(request, ids),
{
    assert forall|j: int| 0 <= j < ids.len() implies covers(request, #[trigger] ids[j]) by {
        lemma_covers_requested(request, ids[j]);
        lemma_wanted_is_among(request, ids, j);
    }
}

/// A value is authorized exactly if what it asks for is among the wanted names.
proof fn lemma_authorized_wanted(
    request: &CertificationRequest,
    ids: Seq<AuthorizedIdentifier<'_>>,
    i: int,
    k: int,
)
    requires
        value_at(request, i, k) is Some,
    ensures
        match value_at(request, i, k)->0 {
            AltName::Dns(name) => is_authorized(ids, value_at(request, i, k)->0)
                <==> validation::wanted_dns(ids).contains(text::ascii_lowercase(name@)),
            AltName::Ip(octets) => is_authorized(ids, value_at(request, i, k)->0)
                <==> validation::wanted_ips(ids).contains(octets@),
            _ => is_authorized(ids, value_at(request, i, k)->0) <==> validation::unlisted_name(
                value_at(request, i, k)->0@,
                validation::attests(ids),
            ) is None,
        },
{
    lemma_is_authorized(request, ids, i, k);
    acceptance::lemma_wanted(ids);
    match value_at(request, i, k)->0 {
        AltName::Dns(name) => {
            assert(validation::wanted_dns(ids).contains(text::ascii_lowercase(name@))
                <==> acceptance::authorizes_dns(ids, text::ascii_lowercase(name@)));
        },
        AltName::Ip(octets) => {
            assert(validation::wanted_ips(ids).contains(octets@) <==> acceptance::authorizes_ip(
                ids,
                octets@,
            ));
        },
        _ => {},
    }
}

/// If nothing is unexpected of a type, every value of that type is authorized.
proof fn lemma_value_is_wanted(
    request: &CertificationRequest,
    ids: Seq<AuthorizedIdentifier<'_>>,
    i: int,
    k: int,
)
    requires
        value_at(request, i, k) is Some,
    ensures
        value_at(request, i, k)->0 is Dns && validation::first_missing(
            validation::requested_dns(request@.alt_names()),
            validation::wanted_dns(ids),
        ) is None ==> is_authorized(ids, value_at(request, i, k)->0),
        value_at(request, i, k)->0 is Ip && validation::first_missing(
            validation::requested_ips(request@.alt_names()),
            validation::wanted_ips(ids),
        ) is None ==> is_authorized(ids, value_at(request, i, k)->0),
{
    let names = request@.alt_names();
    let (dns, ips) = (validation::requested_dns(names), validation::requested_ips(names));
    let f = |name: AltNameView| validation::requested_dns_name(name);
    let g = |name: AltNameView| validation::requested_ip(name);
    let p = place(request, i, k);
    lemma_stands_before(request, i, k, i, k);
    lemma_authorized_wanted(request, ids, i, k);
    acceptance::lemma_first_missing(dns, validation::wanted_dns(ids));
    acceptance::lemma_first_missing(ips, validation::wanted_ips(ids));
    match value_at(request, i, k)->0 {
        AltName::Dns(name) => {
            let lower = text::ascii_lowercase(name@);
            assert(names.map_values(f)[p] == Some(lower));
            acceptance::lemma_present(names.map_values(f), lower);
            assert(dns.contains(lower));
        },
        AltName::Ip(octets) => {
            assert(names.map_values(g)[p] == Some(octets@));
            acceptance::lemma_present(names.map_values(g), octets@);
            assert(ips.contains(octets@));
        },
        _ => {},
    }
}

proof fn lemma_unexpected_dns(request: &CertificationRequest, ids: Seq<AuthorizedIdentifier<'_>>)
    requires
        validation::first_missing(
            validation::requested_dns(request@.alt_names()),
            validation::wanted_dns(ids),
        ) is Some,
    ensures
        exists|i: int, k: int| #[trigger]
            is_first_unexpected(request, ids, i, k) && (value_at(request, i, k)->0 matches AltName::Dns(
                name,
            ) && ({
                let text = validation::first_missing(
                    validation::requested_dns(request@.alt_names()),
                    validation::wanted_dns(ids),
                )->0;
                is_lower_case(text) && text::same_ignoring_case(text, name@)
            })),
{
    let names = request@.alt_names();
    let f = |name: AltNameView| validation::requested_dns_name(name);
    let values = names.map_values(f);
    let p = lemma_place_of_first_missing(values, validation::wanted_dns(ids));
    let (i, k) = lemma_value_at_place(request, p);
    let name = value_at(request, i, k)->0->Dns_0;
    assert(values[p] == validation::requested_dns_name(names[p]));
    assert(values[p] == Some(text::ascii_lowercase(name@)));
    text::law_lowercase_has_no_upper_case(name@);
    lemma_authorized_wanted(request, ids, i, k);
    assert forall|other_i: int, other_k: int|
        (#[trigger] value_at(request, other_i, other_k)) is Some && value_at(
            request,
            other_i,
            other_k,
        )->0 is Dns && stands_before(other_i, other_k, i, k) implies is_authorized(
        ids,
        value_at(request, other_i, other_k)->0,
    ) by {
        lemma_stands_before(request, other_i, other_k, i, k);
        lemma_authorized_wanted(request, ids, other_i, other_k);
        let q = place(request, other_i, other_k);
        assert(values[q] == validation::requested_dns_name(names[q]));
    }
    assert(is_first_unexpected(request, ids, i, k));
}

proof fn lemma_unexpected_ip(request: &CertificationRequest, ids: Seq<AuthorizedIdentifier<'_>>)
    requires
        validation::first_missing(
            validation::requested_dns(request@.alt_names()),
            validation::wanted_dns(ids),
        ) is None,
        validation::first_missing(
            validation::requested_ips(request@.alt_names()),
            validation::wanted_ips(ids),
        ) is Some,
    ensures
        exists|i: int, k: int| #[trigger]
            is_first_unexpected(request, ids, i, k) && (value_at(request, i, k)->0 matches AltName::Ip(
                octets,
            ) && octets@ == validation::first_missing(
                validation::requested_ips(request@.alt_names()),
                validation::wanted_ips(ids),
            )->0),
{
    let names = request@.alt_names();
    let g = |name: AltNameView| validation::requested_ip(name);
    let values = names.map_values(g);
    let p = lemma_place_of_first_missing(values, validation::wanted_ips(ids));
    let (i, k) = lemma_value_at_place(request, p);
    assert(values[p] == validation::requested_ip(names[p]));
    assert(value_at(request, i, k)->0 is Ip);
    lemma_authorized_wanted(request, ids, i, k);
    assert forall|other_i: int, other_k: int|
        (#[trigger] value_at(request, other_i, other_k)) is Some && (value_at(
            request,
            other_i,
            other_k,
        )->0 is Dns || (value_at(request, other_i, other_k)->0 is Ip && stands_before(
            other_i,
            other_k,
            i,
            k,
        ))) implies is_authorized(ids, value_at(request, other_i, other_k)->0) by {
        if value_at(request, other_i, other_k)->0 is Dns {
            lemma_value_is_wanted(request, ids, other_i, other_k);
        } else {
            lemma_stands_before(request, other_i, other_k, i, k);
            lemma_authorized_wanted(request, ids, other_i, other_k);
            let q = place(request, other_i, other_k);
            assert(values[q] == validation::requested_ip(names[q]));
        }
    }
    assert(is_first_unexpected(request, ids, i, k));
}

proof fn lemma_unexpected_other(request: &CertificationRequest, ids: Seq<AuthorizedIdentifier<'_>>)
    requires
        validation::first_missing(
            validation::requested_dns(request@.alt_names()),
            validation::wanted_dns(ids),
        ) is None,
        validation::first_missing(
            validation::requested_ips(request@.alt_names()),
            validation::wanted_ips(ids),
        ) is None,
        validation::first_unlisted(request@.alt_names(), validation::attests(ids)) is Some,
    ensures
        exists|i: int, k: int| #[trigger]
            is_first_unexpected(request, ids, i, k) && ({
                let text = validation::first_unlisted(
                    request@.alt_names(),
                    validation::attests(ids),
                )->0;
                match value_at(request, i, k)->0 {
                    AltName::OtherName(name) => text == name@,
                    AltName::Other(name) => text == name@,
                    _ => false,
                }
            }),
{
    let names = request@.alt_names();
    let p = lemma_place_of_first_unlisted(names, validation::attests(ids));
    let (i, k) = lemma_value_at_place(request, p);
    lemma_authorized_wanted(request, ids, i, k);
    assert forall|other_i: int, other_k: int|
        (#[trigger] value_at(request, other_i, other_k)) is Some && (value_at(
            request,
            other_i,
            other_k,
        )->0 is Dns || value_at(request, other_i, other_k)->0 is Ip || stands_before(
            other_i,
            other_k,
            i,
            k,
        )) implies is_authorized(ids, value_at(request, other_i, other_k)->0) by {
        lemma_value_is_wanted(request, ids, other_i, other_k);
        if !(value_at(request, other_i, other_k)->0 is Dns) && !(value_at(
            request,
            other_i,
            other_k,
        )->0 is Ip) {
            lemma_stands_before(request, other_i, other_k, i, k);
            lemma_authorized_wanted(request, ids, other_i, other_k);
        }
    }
    assert(is_first_unexpected(request, ids, i, k));
}

proof fn lemma_nothing_unexpected(
    request: &CertificationRequest,
    ids: Seq<AuthorizedIdentifier<'_>>,
)
    requires
        validation::first_missing(
            validation::requested_dns(request@.alt_names()),
            validation::wanted_dns(ids),
        ) is None,
        validation::first_missing(
            validation::requested_ips(request@.alt_names()),
            validation::wanted_ips(ids),
        ) is None,
        validation::first_unlisted(request@.alt_names(), validation::attests(ids)) is None,
    ensures
        is_all_authorized(request, ids),
{
    let names = request@.alt_names();
    acceptance::lemma_first_unlisted(names, validation::attests(ids));
    assert forall|i: int, k: int| (#[trigger] value_at(request, i, k)) is Some implies is_authorized(
        ids,
        value_at(request, i, k)->0,
    ) by {
        lemma_value_is_wanted(request, ids, i, k);
        lemma_stands_before(request, i, k, i, k);
        lemma_authorized_wanted(request, ids, i, k);
        assert(validation::unlisted_name(names[place(request, i, k)], validation::attests(ids))
            is None);
    }
}

proof fn lemma_stray(request: &CertificationRequest)
    requires
        validation::common_name_error(
            request@.common_names,
            validation::requested_dns(request@.alt_names()),
            validation::requested_ips(request@.alt_names()),
        ) is Some,
    ensures
        exists|c: int| #[trigger]
            is_first_stray(request, c) && validation::common_name_error(
                request@.common_names,
                validation::requested_dns(request@.alt_names()),
                validation::requested_ips(request@.alt_names()),
            ) == Some(
                match request.common_names@[c] {
                    None => CsrErrorView::Parse("subject common name is not a string"@),
                    Some(name) => CsrErrorView::CommonNameNotInSan(name@),
                },
            ),
{
    let names = request@.alt_names();
    let (dns, ips) = (validation::requested_dns(names), validation::requested_ips(names));
    let c = lemma_place_of_common_name_error(request@.common_names, dns, ips);
    assert forall|d: int| 0 <= d < request.common_names@.len() implies names_a_value(
        request,
        #[trigger] request.common_names@[d],
    ) == (request@.common_names[d] matches Some(name) && validation::is_requested(
        name,
        dns,
        ips,
    )) by {
        lemma_names_a_value(request, request.common_names@[d]);
        acceptance::lemma_is_requested(request@, request@.common_names[d]);
    }
    assert(is_first_stray(request, c));
}

} // verus!
