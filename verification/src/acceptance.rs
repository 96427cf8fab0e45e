//! What the checks of a certification request amount to.

use crate::csr;
use crate::identifier::{AuthorizedIdentifier, Identifier};
use crate::ip::{self, IpAddr};
use crate::request::{AltNameView, ExtensionView, RequestView};
use crate::text;
use crate::validation::{self, CsrErrorView};
use vstd::prelude::*;

verus! {

/// Every one of `values` is among the others.
pub open spec fn all_among<T>(values: Seq<T>, among: Seq<T>) -> bool {
    forall|value: T| values.contains(value) ==> #[trigger] among.contains(value)
}

/// Whether a subjectAltName extension of a request, wherever it stands among the extensions, holds
/// a value, wherever that stands in it.
pub open spec fn asks_for(request: RequestView, value: AltNameView) -> bool {
    exists|i: int, k: int|
        {
            &&& request.extensions is Some
            &&& 0 <= i < request.extensions->0.len()
            &&& request.extensions->0[i] is SubjectAltName
            &&& 0 <= k < request.extensions->0[i]->SubjectAltName_0.len()
            &&& #[trigger] request.extensions->0[i]->SubjectAltName_0[k] == value
        }
}

/// Whether a subjectAltName value asks for the IP address with these octets.
pub open spec fn asks_for_ip(request: RequestView, octets: Seq<u8>) -> bool {
    asks_for(request, AltNameView::Ip(octets))
}

/// Whether a subjectAltName value asks for a DNS name, which is given in lower case.
pub open spec fn asks_for_dns(request: RequestView, name: Seq<char>) -> bool {
    exists|spelling: Seq<char>| #[trigger]
        asks_for(request, AltNameView::Dns(spelling)) && text::ascii_lowercase(spelling) == name
}

/// Whether an order authorizes a DNS name, which is given in lower case.
pub open spec fn authorizes_dns(
    identifiers: Seq<AuthorizedIdentifier<'_>>,
    name: Seq<char>,
) -> bool {
    exists|i: int|
        0 <= i < identifiers.len() && match *(#[trigger] identifiers[i]).identifier {
            Identifier::Dns(spelling) => name == if identifiers[i].wildcard {
                seq!['*', '.'] + text::ascii_lowercase(spelling@)
            } else {
                text::ascii_lowercase(spelling@)
            },
            _ => false,
        }
}

/// Whether an order authorizes the IP address with these octets.
pub open spec fn authorizes_ip(
    identifiers: Seq<AuthorizedIdentifier<'_>>,
    octets: Seq<u8>,
) -> bool {
    exists|i: int|
        0 <= i < identifiers.len() && match *(#[trigger] identifiers[i]).identifier {
            Identifier::Ip(IpAddr::V4(addr)) => addr@ == octets,
            Identifier::Ip(IpAddr::V6(addr)) => addr@ == octets,
            _ => false,
        }
}

/// Whether a common name is a text that the subjectAltName values hold too.
pub open spec fn is_covered(request: RequestView, common_name: Option<Seq<char>>) -> bool {
    match common_name {
        Some(name) => {
            ||| asks_for_dns(request, text::ascii_lowercase(name))
            ||| exists|octets: Seq<u8>|
                #[trigger] asks_for_ip(request, octets) && ip::ip_text(octets) == name
        },
        None => false,
    }
}

/// Whether every subjectAltName value is of a type that an order authorizes: a DNS name, an IP
/// address or, if the order has attestation identifiers, an otherName.
pub open spec fn has_no_unlisted_name(request: RequestView, attested: bool) -> bool {
    &&& forall|text: Seq<char>| !#[trigger] asks_for(request, AltNameView::Other(text))
    &&& attested || forall|text: Seq<char>|
        !#[trigger] asks_for(request, AltNameView::OtherName(text))
}

/// Whether the names of a request are those of an order: each IP address is one, each name that
/// the order authorizes is asked for, each name that is asked for is authorized (or extra names
/// are allowed), and each common name is among the DNS names and IP addresses that are asked for.
pub open spec fn matches_order(
    request: RequestView,
    identifiers: Seq<AuthorizedIdentifier<'_>>,
    allow_extra: bool,
) -> bool {
    &&& forall|octets: Seq<u8>| #[trigger]
        asks_for_ip(request, octets) ==> octets.len() == 4 || octets.len() == 16
    &&& forall|name: Seq<char>| #[trigger]
        authorizes_dns(identifiers, name) ==> asks_for_dns(request, name)
    &&& forall|octets: Seq<u8>| #[trigger]
        authorizes_ip(identifiers, octets) ==> asks_for_ip(request, octets)
    &&& allow_extra || forall|name: Seq<char>| #[trigger]
        asks_for_dns(request, name) ==> authorizes_dns(identifiers, name)
    &&& allow_extra || forall|octets: Seq<u8>| #[trigger]
        asks_for_ip(request, octets) ==> authorizes_ip(identifiers, octets)
    &&& allow_extra || has_no_unlisted_name(request, validation::attests(identifiers))
    &&& forall|i: int|
        0 <= i < request.common_names.len() ==> is_covered(
            request,
            #[trigger] request.common_names[i],
        )
}

pub(crate) proof fn lemma_present<T>(values: Seq<Option<T>>, value: T)
    ensures
        validation::present(values).contains(value) <==> values.contains(Some(value)),
    decreases values.len(),
{
    if values.len() > 0 {
        let (rest, last) = (values.drop_last(), values.last());
        let found = validation::present(rest);
        lemma_present(rest, value);
        assert(values =~= rest.push(last));
        if rest.contains(Some(value)) {
            let i = rest.index_of(Some(value));
            assert(values[i] == Some(value));
        }
        if values.contains(Some(value)) && last != Some(value) {
            let i = values.index_of(Some(value));
            assert(rest[i] == Some(value));
        }
        if let Some(other) = last {
            let all = found.push(other);
            assert(all[found.len() as int] == other);
            assert(values[values.len() - 1] == Some(other));
            if found.contains(value) {
                assert(all[found.index_of(value)] == value);
            }
            if all.contains(value) && other != value {
                assert(found[all.index_of(value)] == value);
            }
        }
    }
}

pub(crate) proof fn lemma_first_missing<T>(values: Seq<T>, among: Seq<T>)
    ensures
        validation::first_missing(values, among) is None <==> all_among(values, among),
        validation::first_missing(values, among) matches Some(value) ==> values.contains(value)
            && !among.contains(value),
    decreases values.len(),
{
    if values.len() > 0 {
        let rest = values.skip(1);
        lemma_first_missing(rest, among);
        assert(values.contains(values[0]));
        assert forall|value: T| rest.contains(value) implies values.contains(value) by {
            assert(values[rest.index_of(value) + 1] == value);
        }
        assert forall|value: T| values.contains(value) && value != values[0] implies rest.contains(
            value,
        ) by {
            assert(rest[values.index_of(value) - 1] == value);
        }
    }
}

pub(crate) proof fn lemma_first_unlisted(names: Seq<AltNameView>, attested: bool)
    ensures
        validation::first_unlisted(names, attested) is None <==> forall|i: int|
            0 <= i < names.len() ==> validation::unlisted_name(#[trigger] names[i], attested)
                is None,
        validation::first_unlisted(names, attested) is Some ==> exists|i: int|
            0 <= i < names.len() && validation::unlisted_name(#[trigger] names[i], attested)
                == validation::first_unlisted(names, attested),
    decreases names.len(),
{
    if names.len() > 0 {
        let rest = names.skip(1);
        lemma_first_unlisted(rest, attested);
        assert forall|i: int| 1 <= i < names.len() implies #[trigger] names[i] == rest[i - 1] by {}
        assert forall|i: int| 0 <= i < rest.len() implies #[trigger] rest[i] == names[i + 1] by {}
    }
}

proof fn lemma_same_unlisted(a: Seq<AltNameView>, b: Seq<AltNameView>, attested: bool)
    requires
        a.len() == b.len(),
        forall|i: int|
            0 <= i < a.len() ==> validation::unlisted_name(#[trigger] a[i], attested)
                == validation::unlisted_name(b[i], attested),
    ensures
        validation::first_unlisted(a, attested) == validation::first_unlisted(b, attested),
    decreases a.len(),
{
    if a.len() > 0 {
        assert(validation::unlisted_name(a[0], attested) == validation::unlisted_name(
            b[0],
            attested,
        ));
        let (x, y) = (a.skip(1), b.skip(1));
        assert forall|i: int| 0 <= i < x.len() implies validation::unlisted_name(
            #[trigger] x[i],
            attested,
        ) == validation::unlisted_name(y[i], attested) by {
            assert(x[i] == a[i + 1] && y[i] == b[i + 1]);
        }
        lemma_same_unlisted(x, y, attested);
    }
}

proof fn lemma_alt_names(extensions: Seq<ExtensionView>, value: AltNameView)
    ensures
        validation::alt_names(extensions).contains(value) <==> exists|i: int, k: int|
            {
                &&& 0 <= i < extensions.len()
                &&& extensions[i] is SubjectAltName
                &&& 0 <= k < extensions[i]->SubjectAltName_0.len()
                &&& #[trigger] extensions[i]->SubjectAltName_0[k] == value
            },
    decreases extensions.len(),
{
    if extensions.len() > 0 {
        let (rest, last) = (extensions.drop_last(), extensions.last());
        let (before, all) = (validation::alt_names(rest), validation::alt_names(extensions));
        lemma_alt_names(rest, value);
        if before.contains(value) {
            let (i, k) = choose|i: int, k: int|
                {
                    &&& 0 <= i < rest.len()
                    &&& rest[i] is SubjectAltName
                    &&& 0 <= k < rest[i]->SubjectAltName_0.len()
                    &&& #[trigger] rest[i]->SubjectAltName_0[k] == value
                };
            assert(extensions[i]->SubjectAltName_0[k] == value);
            assert(all[before.index_of(value)] == value);
        }
        if all.contains(value) && !before.contains(value) {
            let p = all.index_of(value);
            assert(p >= before.len()) by {
                if p < before.len() {
                    assert(before[p] == value);
                }
            }
            assert(extensions[extensions.len() - 1]->SubjectAltName_0[p - before.len()] == value);
        }
        if exists|i: int, k: int|
            {
                &&& 0 <= i < extensions.len()
                &&& extensions[i] is SubjectAltName
                &&& 0 <= k < extensions[i]->SubjectAltName_0.len()
                &&& #[trigger] extensions[i]->SubjectAltName_0[k] == value
            } {
            let (i, k) = choose|i: int, k: int|
                {
                    &&& 0 <= i < extensions.len()
                    &&& extensions[i] is SubjectAltName
                    &&& 0 <= k < extensions[i]->SubjectAltName_0.len()
                    &&& #[trigger] extensions[i]->SubjectAltName_0[k] == value
                };
            if i < rest.len() {
                assert(rest[i]->SubjectAltName_0[k] == value);
            } else {
                assert(all[before.len() + k] == value);
            }
        }
    }
}

/// The subjectAltName values of a request are those of all its subjectAltName extensions: a value
/// is among them exactly if one of the extensions holds it, at any place.
pub proof fn law_alt_names_are_all_values(request: RequestView, value: AltNameView)
    ensures
        request.alt_names().contains(value) <==> asks_for(request, value),
{
    lemma_alt_names(request.requested(), value);
    let extensions = request.requested();
    if request.alt_names().contains(value) {
        let (i, k) = choose|i: int, k: int|
            {
                &&& 0 <= i < extensions.len()
                &&& extensions[i] is SubjectAltName
                &&& 0 <= k < extensions[i]->SubjectAltName_0.len()
                &&& #[trigger] extensions[i]->SubjectAltName_0[k] == value
            };
        assert(request.extensions->0[i]->SubjectAltName_0[k] == value);
    }
    if asks_for(request, value) {
        let (i, k) = choose|i: int, k: int|
            {
                &&& request.extensions is Some
                &&& 0 <= i < request.extensions->0.len()
                &&& request.extensions->0[i] is SubjectAltName
                &&& 0 <= k < request.extensions->0[i]->SubjectAltName_0.len()
                &&& #[trigger] request.extensions->0[i]->SubjectAltName_0[k] == value
            };
        assert(extensions[i]->SubjectAltName_0[k] == value);
    }
}

pub(crate) proof fn lemma_requested(request: RequestView)
    ensures
        forall|name: Seq<char>|
            #![trigger asks_for_dns(request, name)]
            #![trigger validation::requested_dns(request.alt_names()).contains(name)]
            validation::requested_dns(request.alt_names()).contains(name) <==> asks_for_dns(
                request,
                name,
            ),
        forall|octets: Seq<u8>|
            #![trigger asks_for_ip(request, octets)]
            #![trigger validation::requested_ips(request.alt_names()).contains(octets)]
            validation::requested_ips(request.alt_names()).contains(octets) <==> asks_for_ip(
                request,
                octets,
            ),
{
    let names = request.alt_names();
    assert forall|name: Seq<char>|
        #![trigger asks_for_dns(request, name)]
        #![trigger validation::requested_dns(request.alt_names()).contains(name)]
        validation::requested_dns(names).contains(name) <==> asks_for_dns(request, name) by {
        let mapped = names.map_values(|name: AltNameView| validation::requested_dns_name(name));
        lemma_present(mapped, name);
        if asks_for_dns(request, name) {
            let spelling = choose|spelling: Seq<char>| #[trigger]
                asks_for(request, AltNameView::Dns(spelling)) && text::ascii_lowercase(spelling)
                    == name;
            law_alt_names_are_all_values(request, AltNameView::Dns(spelling));
            assert(mapped[names.index_of(AltNameView::Dns(spelling))] == Some(name));
        }
        if mapped.contains(Some(name)) {
            let i = mapped.index_of(Some(name));
            assert(validation::requested_dns_name(names[i]) == Some(name));
            law_alt_names_are_all_values(request, names[i]);
            assert(names.contains(names[i]));
            assert(asks_for(request, AltNameView::Dns(names[i]->Dns_0)));
        }
    }
    assert forall|octets: Seq<u8>|
        #![trigger asks_for_ip(request, octets)]
        #![trigger validation::requested_ips(request.alt_names()).contains(octets)]
        validation::requested_ips(names).contains(octets) <==> asks_for_ip(request, octets) by {
        let mapped = names.map_values(|name: AltNameView| validation::requested_ip(name));
        lemma_present(mapped, octets);
        law_alt_names_are_all_values(request, AltNameView::Ip(octets));
        if asks_for_ip(request, octets) {
            assert(mapped[names.index_of(AltNameView::Ip(octets))] == Some(octets));
        }
        if mapped.contains(Some(octets)) {
            let i = mapped.index_of(Some(octets));
            assert(validation::requested_ip(names[i]) == Some(octets));
            assert(names[i] == AltNameView::Ip(octets));
            assert(names.contains(names[i]));
        }
    }
}

pub(crate) proof fn lemma_wanted(identifiers: Seq<AuthorizedIdentifier<'_>>)
    ensures
        forall|name: Seq<char>|
            #![trigger authorizes_dns(identifiers, name)]
            #![trigger validation::wanted_dns(identifiers).contains(name)]
            validation::wanted_dns(identifiers).contains(name) <==> authorizes_dns(
                identifiers,
                name,
            ),
        forall|octets: Seq<u8>|
            #![trigger authorizes_ip(identifiers, octets)]
            #![trigger validation::wanted_ips(identifiers).contains(octets)]
            validation::wanted_ips(identifiers).contains(octets) <==> authorizes_ip(
                identifiers,
                octets,
            ),
{
    assert forall|name: Seq<char>|
        #![trigger authorizes_dns(identifiers, name)]
        #![trigger validation::wanted_dns(identifiers).contains(name)]
        validation::wanted_dns(identifiers).contains(name) <==> authorizes_dns(
            identifiers,
            name,
        ) by {
        let mapped = identifiers.map_values(
            |id: AuthorizedIdentifier<'_>| validation::authorized_dns(id),
        );
        lemma_present(mapped, name);
        reveal_strlit("*.");
        assert("*."@ =~= seq!['*', '.']);
        if authorizes_dns(identifiers, name) {
            let i = choose|i: int|
                0 <= i < identifiers.len() && match *(#[trigger] identifiers[i]).identifier {
                    Identifier::Dns(spelling) => name == if identifiers[i].wildcard {
                        seq!['*', '.'] + text::ascii_lowercase(spelling@)
                    } else {
                        text::ascii_lowercase(spelling@)
                    },
                    _ => false,
                };
            assert(mapped[i] == Some(name));
        }
        if mapped.contains(Some(name)) {
            let i = mapped.index_of(Some(name));
            assert(validation::authorized_dns(identifiers[i]) == Some(name));
        }
    }
    assert forall|octets: Seq<u8>|
        #![trigger authorizes_ip(identifiers, octets)]
        #![trigger validation::wanted_ips(identifiers).contains(octets)]
        validation::wanted_ips(identifiers).contains(octets) <==> authorizes_ip(
            identifiers,
            octets,
        ) by {
        let mapped = identifiers.map_values(
            |id: AuthorizedIdentifier<'_>| validation::authorized_ip(id),
        );
        lemma_present(mapped, octets);
        if authorizes_ip(identifiers, octets) {
            let i = choose|i: int|
                0 <= i < identifiers.len() && match *(#[trigger] identifiers[i]).identifier {
                    Identifier::Ip(IpAddr::V4(addr)) => addr@ == octets,
                    Identifier::Ip(IpAddr::V6(addr)) => addr@ == octets,
                    _ => false,
                };
            assert(mapped[i] == Some(octets));
        }
        if mapped.contains(Some(octets)) {
            let i = mapped.index_of(Some(octets));
            assert(validation::authorized_ip(identifiers[i]) == Some(octets));
        }
    }
}

pub(crate) proof fn lemma_is_requested(request: RequestView, common_name: Option<Seq<char>>)
    ensures
        is_covered(request, common_name) == (common_name matches Some(name)
            && validation::is_requested(
            name,
            validation::requested_dns(request.alt_names()),
            validation::requested_ips(request.alt_names()),
        )),
{
    let dns = validation::requested_dns(request.alt_names());
    let ips = validation::requested_ips(request.alt_names());
    lemma_requested(request);
    if let Some(name) = common_name {
        if validation::is_requested(name, dns, ips) && !dns.contains(text::ascii_lowercase(name)) {
            let i = choose|i: int| 0 <= i < ips.len() && ip::ip_text(#[trigger] ips[i]) == name;
            assert(ips.contains(ips[i]));
            assert(asks_for_ip(request, ips[i]));
        }
        if exists|octets: Seq<u8>|
            #[trigger] asks_for_ip(request, octets) && ip::ip_text(octets) == name {
            let octets = choose|octets: Seq<u8>|
                #[trigger] asks_for_ip(request, octets) && ip::ip_text(octets) == name;
            assert(ips.contains(octets));
            assert(ips[ips.index_of(octets)] == octets);
        }
        assert(dns.contains(text::ascii_lowercase(name)) <==> asks_for_dns(
            request,
            text::ascii_lowercase(name),
        ));
    }
}

proof fn lemma_common_names(request: RequestView, common_names: Seq<Option<Seq<char>>>)
    ensures
        validation::common_name_error(
            common_names,
            validation::requested_dns(request.alt_names()),
            validation::requested_ips(request.alt_names()),
        ) is None <==> forall|i: int|
            0 <= i < common_names.len() ==> is_covered(request, #[trigger] common_names[i]),
    decreases common_names.len(),
{
    let dns = validation::requested_dns(request.alt_names());
    let ips = validation::requested_ips(request.alt_names());
    if common_names.len() > 0 {
        let rest = common_names.skip(1);
        lemma_common_names(request, rest);
        lemma_requested(request);
        lemma_is_requested(request, common_names[0]);
        assert forall|i: int|
            0 <= i < common_names.len() && (forall|k: int|
                0 <= k < rest.len() ==> is_covered(request, #[trigger] rest[k])) && is_covered(
                request,
                common_names[0],
            ) implies is_covered(request, #[trigger] common_names[i]) by {
            if i > 0 {
                assert(common_names[i] == rest[i - 1]);
            }
        }
        assert forall|k: int|
            0 <= k < rest.len() && (forall|i: int|
                0 <= i < common_names.len() ==> is_covered(
                    request,
                    #[trigger] common_names[i],
                )) implies is_covered(request, #[trigger] rest[k]) by {
            assert(rest[k] == common_names[k + 1]);
        }
    }
}

pub(crate) proof fn lemma_without_extension(extensions: Seq<ExtensionView>)
    requires
        forall|i: int| 0 <= i < extensions.len() ==> !(#[trigger] extensions[i] is SubjectAltName),
    ensures
        validation::alt_names(extensions).len() == 0,
    decreases extensions.len(),
{
    if extensions.len() > 0 {
        let rest = extensions.drop_last();
        assert forall|i: int| 0 <= i < rest.len() implies !(#[trigger] rest[i] is SubjectAltName) by {
            assert(rest[i] == extensions[i]);
        }
        lemma_without_extension(rest);
        assert(!(extensions[extensions.len() - 1] is SubjectAltName));
    }
}

/// The names of a request are accepted exactly if they are those of the order.
pub proof fn law_accepted_names_match_the_order(
    request: RequestView,
    identifiers: Seq<AuthorizedIdentifier<'_>>,
    allow_extra: bool,
)
    ensures
        validation::names_checked(request, identifiers, allow_extra) is Ok <==> matches_order(
            request,
            identifiers,
            allow_extra,
        ),
{
    let names = request.alt_names();
    let (dns, ips) = (validation::requested_dns(names), validation::requested_ips(names));
    let want_dns = validation::wanted_dns(identifiers);
    let want_ips = validation::wanted_ips(identifiers);
    lemma_requested(request);
    lemma_wanted(identifiers);
    lemma_first_missing(want_dns, dns);
    lemma_first_missing(want_ips, ips);
    lemma_first_missing(dns, want_dns);
    lemma_first_missing(ips, want_ips);
    lemma_common_names(request, request.common_names);
    lemma_first_unlisted(names, validation::attests(identifiers));
    let attested = validation::attests(identifiers);
    assert forall|value: AltNameView| #[trigger] names.contains(value) <==> asks_for(
        request,
        value,
    ) by {
        law_alt_names_are_all_values(request, value);
    }
    assert(validation::first_unlisted(names, attested) is None <==> has_no_unlisted_name(
        request,
        attested,
    )) by {
        assert forall|i: int| 0 <= i < names.len() && has_no_unlisted_name(
            request,
            attested,
        ) implies validation::unlisted_name(#[trigger] names[i], attested) is None by {
            assert(names.contains(names[i]));
            if let AltNameView::Other(text) = names[i] {
                assert(asks_for(request, AltNameView::Other(text)));
            } else if let AltNameView::OtherName(text) = names[i] {
                assert(asks_for(request, AltNameView::OtherName(text)));
            }
        }
        if validation::first_unlisted(names, attested) is None {
            assert forall|text: Seq<char>| !#[trigger] asks_for(
                request,
                AltNameView::Other(text),
            ) by {
                let value = AltNameView::Other(text);
                if asks_for(request, value) {
                    assert(names.contains(value));
                    assert(validation::unlisted_name(names[names.index_of(value)], attested)
                        is Some);
                }
            }
            if !attested {
                assert forall|text: Seq<char>| !#[trigger] asks_for(
                    request,
                    AltNameView::OtherName(text),
                ) by {
                    let value = AltNameView::OtherName(text);
                    if asks_for(request, value) {
                        assert(names.contains(value));
                        assert(validation::unlisted_name(names[names.index_of(value)], attested)
                            is Some);
                    }
                }
            }
        }
    }
    let malformed = exists|i: int|
        0 <= i < names.len() && validation::malformed_ip(#[trigger] names[i]);
    assert(malformed <==> exists|octets: Seq<u8>|
        #[trigger] asks_for_ip(request, octets) && octets.len() != 4 && octets.len() != 16) by {
        if malformed {
            let i = choose|i: int|
                0 <= i < names.len() && validation::malformed_ip(#[trigger] names[i]);
            assert(names.contains(names[i]));
            assert(asks_for_ip(request, names[i]->Ip_0));
        }
        if exists|octets: Seq<u8>|
            #[trigger] asks_for_ip(request, octets) && octets.len() != 4 && octets.len() != 16 {
            let octets = choose|octets: Seq<u8>|
                #[trigger] asks_for_ip(request, octets) && octets.len() != 4 && octets.len() != 16;
            assert(names.contains(AltNameView::Ip(octets)));
            let i = names.index_of(AltNameView::Ip(octets));
            assert(validation::malformed_ip(names[i]));
        }
    }
    if !request.has_alt_names() {
        lemma_without_extension(request.requested());
        assert(names.len() == 0);
        if want_dns.len() > 0 {
            assert(want_dns.contains(want_dns[0]));
            assert(authorizes_dns(identifiers, want_dns[0]));
            assert(!asks_for_dns(request, want_dns[0]));
        }
        if want_ips.len() > 0 {
            assert(want_ips.contains(want_ips[0]));
            assert(authorizes_ip(identifiers, want_ips[0]));
            assert(!asks_for_ip(request, want_ips[0]));
        }
    }
    if all_among(want_dns, dns) {
        assert forall|name: Seq<char>| #[trigger]
            authorizes_dns(identifiers, name) implies asks_for_dns(request, name) by {
            assert(dns.contains(name));
        }
    }
    if all_among(want_ips, ips) {
        assert forall|octets: Seq<u8>| #[trigger]
            authorizes_ip(identifiers, octets) implies asks_for_ip(request, octets) by {
            assert(ips.contains(octets));
        }
    }
    if all_among(dns, want_dns) {
        assert forall|name: Seq<char>| #[trigger]
            asks_for_dns(request, name) implies authorizes_dns(identifiers, name) by {
            assert(want_dns.contains(name));
        }
    }
    if all_among(ips, want_ips) {
        assert forall|octets: Seq<u8>| #[trigger]
            asks_for_ip(request, octets) implies authorizes_ip(identifiers, octets) by {
            assert(want_ips.contains(octets));
        }
    }
}

/// A policy that allows extra identifiers accepts whatever the default one does.
pub proof fn law_extra_identifiers_only_relax(
    request: RequestView,
    identifiers: Seq<AuthorizedIdentifier<'_>>,
)
    ensures
        validation::names_checked(request, identifiers, false) is Ok ==> validation::names_checked(
            request,
            identifiers,
            true,
        ) is Ok,
        !(validation::names_checked(request, identifiers, true) matches Err(
            CsrErrorView::UnexpectedIdentifier(_),
        )),
        !(validation::names_checked(request, identifiers, false) matches Err(
            CsrErrorView::UnexpectedIdentifier(_),
        )) ==> validation::names_checked(request, identifiers, false) == validation::names_checked(
            request,
            identifiers,
            true,
        ),
{
    let dns = validation::requested_dns(request.alt_names());
    let ips = validation::requested_ips(request.alt_names());
    lemma_common_name_errors(request.common_names, dns, ips);
}

pub(crate) proof fn lemma_common_name_errors(
    common_names: Seq<Option<Seq<char>>>,
    dns: Seq<Seq<char>>,
    ips: Seq<Seq<u8>>,
)
    ensures
        match validation::common_name_error(common_names, dns, ips) {
            None => true,
            Some(CsrErrorView::Parse(_)) => true,
            Some(CsrErrorView::CommonNameNotInSan(name)) => common_names.contains(Some(name))
                && !validation::is_requested(name, dns, ips),
            Some(_) => false,
        },
    decreases common_names.len(),
{
    if common_names.len() > 0 {
        let rest = common_names.skip(1);
        lemma_common_name_errors(rest, dns, ips);
        assert forall|name: Option<Seq<char>>| rest.contains(name) implies common_names.contains(
            name,
        ) by {
            assert(common_names[rest.index_of(name) + 1] == name);
        }
        assert(common_names.contains(common_names[0]));
    }
}

/// By the default policy, a request that is accepted asks for the very names that the order
/// authorizes, no fewer and no more: the same DNS names, the same IP addresses, and no name of
/// another type but otherName values where the order has attestation identifiers.
pub proof fn law_default_policy_is_exact(
    request: RequestView,
    identifiers: Seq<AuthorizedIdentifier<'_>>,
)
    requires
        validation::names_checked(request, identifiers, false) is Ok,
    ensures
        forall|name: Seq<char>| #[trigger]
            asks_for_dns(request, name) == authorizes_dns(identifiers, name),
        forall|octets: Seq<u8>| #[trigger]
            asks_for_ip(request, octets) == authorizes_ip(identifiers, octets),
        has_no_unlisted_name(request, validation::attests(identifiers)),
{
    law_accepted_names_match_the_order(request, identifiers, false);
}

/// A missing identifier that is reported is one that the order authorizes and the request does
/// not ask for, and an unexpected one is one that the request asks for and the order does not
/// authorize.
pub proof fn law_reported_identifiers_differ(
    request: RequestView,
    identifiers: Seq<AuthorizedIdentifier<'_>>,
    allow_extra: bool,
)
    ensures
        match validation::names_checked(request, identifiers, allow_extra) {
            Err(CsrErrorView::MissingIdentifier(text)) => {
                ||| authorizes_dns(identifiers, text) && !asks_for_dns(request, text)
                ||| exists|octets: Seq<u8>|
                    ip::ip_text(octets) == text && #[trigger] authorizes_ip(identifiers, octets)
                        && !asks_for_ip(request, octets)
            },
            Err(CsrErrorView::UnexpectedIdentifier(text)) => {
                ||| asks_for_dns(request, text) && !authorizes_dns(identifiers, text)
                ||| exists|octets: Seq<u8>|
                    ip::ip_text(octets) == text && #[trigger] asks_for_ip(request, octets)
                        && !authorizes_ip(identifiers, octets)
                ||| exists|i: int|
                    0 <= i < request.alt_names().len() && validation::unlisted_name(
                        #[trigger] request.alt_names()[i],
                        validation::attests(identifiers),
                    ) == Some(text)
            },
            Err(CsrErrorView::CommonNameNotInSan(name)) => {
                &&& request.common_names.contains(Some(name))
                &&& !is_covered(request, Some(name))
            },
            _ => true,
        },
{
    let names = request.alt_names();
    let (dns, ips) = (validation::requested_dns(names), validation::requested_ips(names));
    let want_dns = validation::wanted_dns(identifiers);
    let want_ips = validation::wanted_ips(identifiers);
    lemma_requested(request);
    lemma_wanted(identifiers);
    lemma_first_missing(want_dns, dns);
    lemma_first_missing(want_ips, ips);
    lemma_first_missing(dns, want_dns);
    lemma_first_missing(ips, want_ips);
    lemma_first_unlisted(names, validation::attests(identifiers));
    lemma_common_name_errors(request.common_names, dns, ips);
    let outcome = validation::names_checked(request, identifiers, allow_extra);
    if let Err(CsrErrorView::MissingIdentifier(_)) = outcome {
        if validation::first_missing(want_dns, dns) is None {
            let octets = validation::first_missing(want_ips, ips)->0;
            assert(authorizes_ip(identifiers, octets) && !asks_for_ip(request, octets));
        }
    } else if let Err(CsrErrorView::UnexpectedIdentifier(_)) = outcome {
        if validation::first_missing(dns, want_dns) is None && validation::first_missing(
            ips,
            want_ips,
        ) is Some {
            let octets = validation::first_missing(ips, want_ips)->0;
            assert(asks_for_ip(request, octets) && !authorizes_ip(identifiers, octets));
        }
    } else if let Err(CsrErrorView::CommonNameNotInSan(name)) = outcome {
        assert forall|octets: Seq<u8>| #[trigger] asks_for_ip(request, octets) implies ip::ip_text(
            octets,
        ) != name by {
            assert(ips.contains(octets));
            assert(ips[ips.index_of(octets)] == octets);
        }
    }
}

/// Two identifiers authorize the same name, and both or neither are for attestation.
pub open spec fn same_authorization(
    a: AuthorizedIdentifier<'_>,
    b: AuthorizedIdentifier<'_>,
) -> bool {
    &&& validation::authorized_dns(a) == validation::authorized_dns(b)
    &&& validation::authorized_ip(a) == validation::authorized_ip(b)
    &&& validation::is_attestation(a) == validation::is_attestation(b)
}

/// What comes of the checks depends on the identifiers only through the DNS names and the IP
/// addresses that they authorize, and through which of them are for attestation.
pub proof fn law_checks_depend_on_authorized_names(
    request: RequestView,
    a: Seq<AuthorizedIdentifier<'_>>,
    b: Seq<AuthorizedIdentifier<'_>>,
    allow_extra: bool,
)
    requires
        a.len() == b.len(),
        forall|i: int|
            #![trigger a[i]]
            #![trigger b[i]]
            0 <= i < a.len() ==> same_authorization(a[i], b[i]),
    ensures
        validation::names_checked(request, a, allow_extra) == validation::names_checked(
            request,
            b,
            allow_extra,
        ),
{
    let f = |id: AuthorizedIdentifier<'_>| validation::authorized_dns(id);
    let g = |id: AuthorizedIdentifier<'_>| validation::authorized_ip(id);
    assert forall|i: int| 0 <= i < a.len() implies same_authorization(#[trigger] a[i], b[i]) by {}
    assert(a.map_values(f) =~= b.map_values(f));
    assert(a.map_values(g) =~= b.map_values(g));
    lemma_same_attests(a, b);
    lemma_same_attests(b, a);
}

proof fn lemma_same_attests(a: Seq<AuthorizedIdentifier<'_>>, b: Seq<AuthorizedIdentifier<'_>>)
    requires
        a.len() == b.len(),
        forall|i: int|
            0 <= i < a.len() ==> validation::is_attestation(#[trigger] a[i])
                == validation::is_attestation(b[i]),
    ensures
        validation::attests(a) ==> validation::attests(b),
{
    if validation::attests(a) {
        let i = choose|i: int| 0 <= i < a.len() && validation::is_attestation(#[trigger] a[i]);
        assert(validation::is_attestation(b[i]));
    }
}

/// Two identifiers are the same but for the case of a DNS name.
pub open spec fn same_but_for_case(
    a: AuthorizedIdentifier<'_>,
    b: AuthorizedIdentifier<'_>,
) -> bool {
    match (*a.identifier, *b.identifier) {
        (Identifier::Dns(x), Identifier::Dns(y)) => a.wildcard == b.wildcard
            && text::ascii_lowercase(x@) == text::ascii_lowercase(y@),
        _ => a == b,
    }
}

/// The case in which the DNS names of an order are written does not matter.
pub proof fn law_case_of_identifiers_does_not_matter(
    request: RequestView,
    a: Seq<AuthorizedIdentifier<'_>>,
    b: Seq<AuthorizedIdentifier<'_>>,
    allow_extra: bool,
)
    requires
        a.len() == b.len(),
        forall|i: int| 0 <= i < a.len() ==> same_but_for_case(#[trigger] a[i], b[i]),
    ensures
        validation::names_checked(request, a, allow_extra) == validation::names_checked(
            request,
            b,
            allow_extra,
        ),
{
    assert forall|i: int|
        #![trigger a[i]]
        #![trigger b[i]]
        0 <= i < a.len() implies same_authorization(a[i], b[i]) by {
        assert(same_but_for_case(a[i], b[i]));
    }
    law_checks_depend_on_authorized_names(request, a, b, allow_extra);
}

/// Two subjectAltName values are the same but for the case of a DNS name.
pub open spec fn same_value_but_for_case(a: AltNameView, b: AltNameView) -> bool {
    match (a, b) {
        (AltNameView::Dns(x), AltNameView::Dns(y)) => text::ascii_lowercase(x)
            == text::ascii_lowercase(y),
        _ => a == b,
    }
}

/// The case in which the subjectAltName values of a request are written does not matter.
pub proof fn law_case_of_values_does_not_matter(
    a: RequestView,
    b: RequestView,
    identifiers: Seq<AuthorizedIdentifier<'_>>,
    allow_extra: bool,
)
    requires
        a.has_alt_names() == b.has_alt_names(),
        a.alt_names().len() == b.alt_names().len(),
        forall|i: int|
            0 <= i < a.alt_names().len() ==> same_value_but_for_case(
                #[trigger] a.alt_names()[i],
                b.alt_names()[i],
            ),
        a.common_names == b.common_names,
    ensures
        validation::names_checked(a, identifiers, allow_extra) == validation::names_checked(
            b,
            identifiers,
            allow_extra,
        ),
{
    let (x, y) = (a.alt_names(), b.alt_names());
    let f = |name: AltNameView| validation::requested_dns_name(name);
    let g = |name: AltNameView| validation::requested_ip(name);
    assert forall|i: int| 0 <= i < x.len() implies f(#[trigger] x[i]) == f(y[i]) && g(x[i]) == g(
        y[i],
    ) && validation::malformed_ip(x[i]) == validation::malformed_ip(y[i]) by {
        assert(same_value_but_for_case(x[i], y[i]));
    }
    let attested = validation::attests(identifiers);
    assert forall|i: int| 0 <= i < x.len() implies validation::unlisted_name(
        #[trigger] x[i],
        attested,
    ) == validation::unlisted_name(y[i], attested) by {
        assert(same_value_but_for_case(x[i], y[i]));
    }
    lemma_same_unlisted(x, y, attested);
    assert(x.map_values(f) =~= y.map_values(f));
    assert(x.map_values(g) =~= y.map_values(g));
    if exists|i: int| 0 <= i < y.len() && validation::malformed_ip(#[trigger] y[i]) {
        let i = choose|i: int| 0 <= i < y.len() && validation::malformed_ip(#[trigger] y[i]);
        assert(validation::malformed_ip(x[i]));
    }
    if exists|i: int| 0 <= i < x.len() && validation::malformed_ip(#[trigger] x[i]) {
        let i = choose|i: int| 0 <= i < x.len() && validation::malformed_ip(#[trigger] x[i]);
        assert(validation::malformed_ip(y[i]));
    }
}

/// The wildcard bit of an identifier that is not a DNS name does not matter.
pub proof fn law_wildcard_bit_is_for_dns(
    request: RequestView,
    a: Seq<AuthorizedIdentifier<'_>>,
    b: Seq<AuthorizedIdentifier<'_>>,
    allow_extra: bool,
)
    requires
        a.len() == b.len(),
        forall|i: int|
            0 <= i < a.len() ==> (#[trigger] a[i]).identifier == b[i].identifier && (
            a[i].identifier is Dns ==> a[i].wildcard == b[i].wildcard),
    ensures
        validation::names_checked(request, a, allow_extra) == validation::names_checked(
            request,
            b,
            allow_extra,
        ),
{
    assert forall|i: int|
        #![trigger a[i]]
        #![trigger b[i]]
        0 <= i < a.len() implies same_authorization(a[i], b[i]) by {
        assert(a[i].identifier == b[i].identifier);
    }
    law_checks_depend_on_authorized_names(request, a, b, allow_extra);
}

/// Attestation identifiers ask for no name, wherever they stand among the identifiers: the outcome
/// is the same without one, if it does not decide whether otherName values are let through. A
/// request that is accepted without one is accepted with it too.
pub proof fn law_attestation_identifiers_ask_for_no_name(
    request: RequestView,
    identifiers: Seq<AuthorizedIdentifier<'_>>,
    at: int,
    allow_extra: bool,
)
    requires
        0 <= at < identifiers.len(),
        validation::is_attestation(identifiers[at]),
    ensures
        allow_extra || validation::attests(identifiers.remove(at)) || (forall|i: int|
            0 <= i < request.alt_names().len() ==> !(#[trigger] request.alt_names()[i]
                is OtherName)) ==> validation::names_checked(request, identifiers, allow_extra)
            == validation::names_checked(request, identifiers.remove(at), allow_extra),
        validation::names_checked(request, identifiers.remove(at), allow_extra) is Ok
            ==> validation::names_checked(request, identifiers, allow_extra) is Ok,
{
    let (names, rest) = (request.alt_names(), identifiers.remove(at));
    let f = |id: AuthorizedIdentifier<'_>| validation::authorized_dns(id);
    let g = |id: AuthorizedIdentifier<'_>| validation::authorized_ip(id);
    assert(identifiers.map_values(f).remove(at) =~= rest.map_values(f));
    assert(identifiers.map_values(g).remove(at) =~= rest.map_values(g));
    lemma_present_remove(identifiers.map_values(f), at);
    lemma_present_remove(identifiers.map_values(g), at);
    assert(validation::attests(identifiers));
    if forall|i: int| 0 <= i < names.len() ==> !(#[trigger] names[i] is OtherName) {
        lemma_same_unlisted_without_other_names(names);
    }
    lemma_first_unlisted(names, true);
    lemma_first_unlisted(names, false);
}

proof fn lemma_same_unlisted_without_other_names(names: Seq<AltNameView>)
    requires
        forall|i: int| 0 <= i < names.len() ==> !(#[trigger] names[i] is OtherName),
    ensures
        validation::first_unlisted(names, true) == validation::first_unlisted(names, false),
    decreases names.len(),
{
    if names.len() > 0 {
        let rest = names.skip(1);
        assert(!(names[0] is OtherName));
        assert forall|i: int| 0 <= i < rest.len() implies !(#[trigger] rest[i] is OtherName) by {
            assert(rest[i] == names[i + 1]);
        }
        lemma_same_unlisted_without_other_names(rest);
    }
}

proof fn lemma_present_remove<T>(values: Seq<Option<T>>, at: int)
    requires
        0 <= at < values.len(),
        values[at] is None,
    ensures
        validation::present(values.remove(at)) == validation::present(values),
    decreases values.len(),
{
    let removed = values.remove(at);
    if at == values.len() - 1 {
        assert(removed =~= values.drop_last());
    } else {
        lemma_present_remove(values.drop_last(), at);
        assert(removed.drop_last() =~= values.drop_last().remove(at));
        assert(removed.last() == values.last());
    }
}

/// The order in which the identifiers come, and whether one comes twice, does not decide whether
/// a request is accepted: only which names they authorize.
pub proof fn law_order_of_identifiers_does_not_decide(
    request: RequestView,
    a: Seq<AuthorizedIdentifier<'_>>,
    b: Seq<AuthorizedIdentifier<'_>>,
    allow_extra: bool,
)
    requires
        forall|id: AuthorizedIdentifier<'_>| #[trigger] a.contains(id) == b.contains(id),
    ensures
        validation::names_checked(request, a, allow_extra) is Ok == validation::names_checked(
            request,
            b,
            allow_extra,
        ) is Ok,
{
    law_accepted_names_match_the_order(request, a, allow_extra);
    law_accepted_names_match_the_order(request, b, allow_extra);
    lemma_same_authorized(a, b);
    lemma_same_authorized(b, a);
}

proof fn lemma_same_authorized(
    a: Seq<AuthorizedIdentifier<'_>>,
    b: Seq<AuthorizedIdentifier<'_>>,
)
    requires
        forall|id: AuthorizedIdentifier<'_>| #[trigger] a.contains(id) == b.contains(id),
    ensures
        forall|name: Seq<char>| #[trigger] authorizes_dns(a, name) ==> authorizes_dns(b, name),
        forall|octets: Seq<u8>| #[trigger] authorizes_ip(a, octets) ==> authorizes_ip(b, octets),
        validation::attests(a) ==> validation::attests(b),
{
    if validation::attests(a) {
        let i = choose|i: int| 0 <= i < a.len() && validation::is_attestation(#[trigger] a[i]);
        assert(a.contains(a[i]));
        assert(validation::is_attestation(b[b.index_of(a[i])]));
    }
    assert forall|name: Seq<char>| #[trigger] authorizes_dns(a, name) implies authorizes_dns(
        b,
        name,
    ) by {
        let i = choose|i: int|
            0 <= i < a.len() && match *(#[trigger] a[i]).identifier {
                Identifier::Dns(spelling) => name == if a[i].wildcard {
                    seq!['*', '.'] + text::ascii_lowercase(spelling@)
                } else {
                    text::ascii_lowercase(spelling@)
                },
                _ => false,
            };
        assert(a.contains(a[i]));
        assert(b[b.index_of(a[i])] == a[i]);
    }
    assert forall|octets: Seq<u8>| #[trigger] authorizes_ip(a, octets) implies authorizes_ip(
        b,
        octets,
    ) by {
        let i = choose|i: int|
            0 <= i < a.len() && match *(#[trigger] a[i]).identifier {
                Identifier::Ip(IpAddr::V4(addr)) => addr@ == octets,
                Identifier::Ip(IpAddr::V6(addr)) => addr@ == octets,
                _ => false,
            };
        assert(a.contains(a[i]));
        assert(b[b.index_of(a[i])] == a[i]);
    }
}

/// A CSR is valid exactly if its DER encoding is one request with nothing after it, the names of
/// that request match the order, and its signature verifies.
pub proof fn law_valid_csr(
    read: Option<RequestView>,
    signature: bool,
    identifiers: Seq<AuthorizedIdentifier<'_>>,
    allow_extra: bool,
)
    ensures
        csr::validated(read, signature, identifiers, allow_extra) is Ok <==> {
            &&& read matches Some(request)
            &&& request.trailing == 0
            &&& matches_order(request, identifiers, allow_extra)
            &&& signature
        },
{
    if let Some(request) = read {
        law_accepted_names_match_the_order(request, identifiers, allow_extra);
    }
}

} // verus!
