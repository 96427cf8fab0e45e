//! The identifiers that an order is for.

use crate::ip::{self, IpAddr};
use vstd::prelude::*;

verus! {

/// Represent an identifier in an ACME order
#[derive(Clone, Debug, PartialEq, Eq)]
#[non_exhaustive]
pub enum Identifier {
    /// A DNS name, without any wildcard label
    Dns(String),
    /// An IP address (IPv4 or IPv6) identifier
    ///
    /// Note that not all ACME servers will accept an order with an IP address identifier.
    Ip(IpAddr),
    /// Permanent Identifier
    ///
    /// Note that this identifier is only used for attestation.
    PermanentIdentifier(String),
    /// Hardware Module identifier
    ///
    /// Note that this identifier is only used for attestation.
    HardwareModule(String),
}

/// An [`Identifier`] which knows its `wildcard` context
#[derive(Debug)]
#[non_exhaustive]
pub struct AuthorizedIdentifier<'a> {
    /// The source identifier, missing any wildcard context
    pub identifier: &'a Identifier,
    /// Whether the identifier should be interpreted as a wildcard
    ///
    /// This is only relevant for DNS identifiers and must be false for other
    /// types of identifiers (e.g. IP addresses).
    pub wildcard: bool,
}

impl Identifier {
    /// The text of the identifier in the given wildcard context.
    pub open spec fn text(self, wildcard: bool) -> Seq<char> {
        match self {
            Identifier::Dns(name) => if wildcard {
                "*."@ + name@
            } else {
                name@
            },
            Identifier::Ip(addr) => ip::ip_text(addr@),
            Identifier::PermanentIdentifier(name) => name@,
            Identifier::HardwareModule(name) => name@,
        }
    }

    /// Create an [`AuthorizedIdentifier`], which can be written as text
    ///
    /// Needs the `wildcard` context bit to determine whether the identifier represents a
    /// wildcard domain.
    pub fn authorized(&self, wildcard: bool) -> (authorized: AuthorizedIdentifier<'_>)
        ensures
            authorized.identifier == self,
            authorized.wildcard == wildcard,
    {
        AuthorizedIdentifier { identifier: self, wildcard }
    }
}

impl AuthorizedIdentifier<'_> {
    /// The identifier as text, with a wildcard label in front of a DNS name that is a wildcard
    pub fn to_string(&self) -> (text: String)
        ensures
            text@ == self.identifier.text(self.wildcard),
    {
        match self.identifier {
            Identifier::Dns(name) => if self.wildcard {
                let mut text = "*.".to_owned();
                text.append(name.as_str());
                text
            } else {
                name.clone()
            },
            Identifier::Ip(addr) => addr.to_string(),
            Identifier::PermanentIdentifier(name) => name.clone(),
            Identifier::HardwareModule(name) => name.clone(),
        }
    }
}

/// The wildcard context matters for DNS identifiers only: any other identifier is written the
/// same with and without it.
pub proof fn law_wildcard_is_for_dns(identifier: Identifier)
    requires
        !(identifier is Dns),
    ensures
        identifier.text(true) == identifier.text(false),
{
}

/// An identifier is written as its name, a DNS name behind a wildcard label exactly if it is one, or
/// as the text of its address; and it keeps the wildcard context that it was given.
pub proof fn law_identifiers_are_written_as_their_names(
    identifier: &Identifier,
    wildcard: bool,
    authorized: AuthorizedIdentifier<'_>,
    text: String,
)
    requires
        call_ensures(Identifier::authorized, (identifier, wildcard), authorized),
        call_ensures(AuthorizedIdentifier::to_string, (&authorized,), text),
    ensures
        *authorized.identifier == *identifier,
        authorized.wildcard == wildcard,
        match *identifier {
            Identifier::Dns(name) => if wildcard {
                &&& text@.len() == name@.len() + 2
                &&& text@[0] == '*'
                &&& text@[1] == '.'
                &&& text@.skip(2) == name@
            } else {
                text@ == name@
            },
            Identifier::Ip(IpAddr::V4(addr)) => text@ == ip::ip_text(addr@),
            Identifier::Ip(IpAddr::V6(addr)) => text@ == ip::ip_text(addr@),
            Identifier::PermanentIdentifier(name) => text@ == name@,
            Identifier::HardwareModule(name) => text@ == name@,
        },
{
    reveal_strlit("*.");
    if let Identifier::Dns(name) = *identifier {
        if wildcard {
            assert(text@.skip(2) =~= name@);
        }
    }
}

} // verus!
