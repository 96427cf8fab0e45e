//! Orders, their authorizations and the challenges of those.

use crate::certificate::CertificateIdentifier;
use crate::identifier::{AuthorizedIdentifier, Identifier};
use crate::problem::Problem;
use vstd::prelude::*;

verus! {

/// An ACME challenge as described in RFC 8555 (section 7.1.5)
///
/// <https://datatracker.ietf.org/doc/html/rfc8555#section-7.1.5>
#[derive(Debug)]
pub struct Challenge {
    /// Type of challenge
    pub kind: ChallengeType,
    /// Challenge identifier
    pub url: String,
    /// Token for this challenge
    ///
    /// Unknown `ChallengeType` instances may omit this field, leaving it empty.
    pub token: String,
    /// Current status
    pub status: ChallengeStatus,
    /// Potential error state
    pub error: Option<Problem>,
}

/// Contents of an ACME order as described in RFC 8555 (section 7.1.3)
///
/// <https://datatracker.ietf.org/doc/html/rfc8555#section-7.1.3>
#[derive(Debug)]
pub struct OrderState {
    /// Current status
    pub status: OrderStatus,
    /// Authorizations for this order.
    ///
    /// There should be one authorization per identifier in the order.
    pub authorizations: Vec<Authorization>,
    /// Potential error state
    pub error: Option<Problem>,
    /// A finalization URL, to be used once status becomes `Ready`
    pub finalize: String,
    /// The certificate URL, which becomes available after finalization
    pub certificate: Option<String>,
    /// The certificate that this order is replacing, if any
    pub replaces: Option<CertificateIdentifier<'static>>,
    /// The profile to be used for the order
    pub profile: Option<String>,
}

/// A wrapper for [`AuthorizationState`] as held in the [`OrderState`]
#[derive(Debug)]
pub struct Authorization {
    /// URL for this authorization
    pub url: String,
    /// Current state of the authorization
    ///
    /// This starts out as `None` when the [`OrderState`] is first read.
    /// It is populated when the authorization is first fetched from the server.
    pub state: Option<AuthorizationState>,
}

impl Authorization {
    /// An authorization of which only the URL is known, as an order lists it
    pub fn new(url: String) -> (authorization: Authorization)
        ensures
            authorization.url == url,
            authorization.state is None,
    {
        Authorization { url, state: None }
    }
}

/// Input data for the creation of an order
#[derive(Debug)]
pub struct NewOrder<'a> {
    /// The [`CertificateIdentifier`] of a previously issued certificate being replaced by the order
    pub replaces: Option<CertificateIdentifier<'a>>,
    /// Identifiers to be included in the order
    pub identifiers: &'a [Identifier],
    /// The profile to be used for the order
    pub profile: Option<&'a str>,
}

impl<'a> NewOrder<'a> {
    /// Prepare to create a new order for the given identifiers
    pub fn new(identifiers: &'a [Identifier]) -> (order: Self)
        ensures
            order.identifiers == identifiers,
            order.replaces is None,
            order.profile is None,
    {
        NewOrder { identifiers, replaces: None, profile: None }
    }

    /// Indicate to the ACME server that the `NewOrder` is replacing a previously issued certificate
    ///
    /// Some ACME servers may give preferential rate limits to orders that replace
    /// existing certificates, or use this information to determine when it is safe
    /// to revoke a certificate affected by a compliance incident.
    ///
    /// When provided, at least one of the `identifiers` for the new order must have been
    /// present in the certificate being replaced.
    pub fn replaces(self, replaces: CertificateIdentifier<'a>) -> (order: Self)
        ensures
            order == (NewOrder { replaces: Some(replaces), ..self }),
    {
        NewOrder { replaces: Some(replaces), ..self }
    }

    /// Set the profile to be used for the order
    pub fn profile(self, profile: &'a str) -> (order: Self)
        ensures
            order == (NewOrder { profile: Some(profile), ..self }),
    {
        NewOrder { profile: Some(profile), ..self }
    }

    /// Identifiers to be included in the order
    pub fn identifiers(&self) -> (identifiers: &[Identifier])
        ensures
            identifiers == self.identifiers,
    {
        self.identifiers
    }
}

/// An ACME authorization's state as described in RFC 8555 (section 7.1.4)
#[derive(Debug)]
pub struct AuthorizationState {
    /// The identifier that the account is authorized to represent, without its wildcard context
    pub identifier: Identifier,
    /// Current state of the authorization
    pub status: AuthorizationStatus,
    /// Possible challenges for the authorization
    pub challenges: Vec<Challenge>,
    /// Whether the identifier represents a wildcard domain name
    pub wildcard: bool,
}

impl AuthorizationState {
    /// Creates an [`AuthorizedIdentifier`] for the identifier in this authorization
    pub fn identifier(&self) -> (authorized: AuthorizedIdentifier<'_>)
        ensures
            *authorized.identifier == self.identifier,
            authorized.wildcard == self.wildcard,
    {
        self.identifier.authorized(self.wildcard)
    }
}

/// Status for an [`AuthorizationState`]
#[derive(Clone, Copy, Debug, PartialEq, Eq)]
pub enum AuthorizationStatus {
    Pending,
    Valid,
    Invalid,
    Revoked,
    Expired,
    Deactivated,
}

/// The challenge type
#[derive(Clone, Debug, PartialEq, Eq)]
#[non_exhaustive]
pub enum ChallengeType {
    Http01,
    Dns01,
    TlsAlpn01,
    /// Note: Device attestation support is experimental
    DeviceAttest01,
    /// A type of another name
    Unknown(String),
}

/// Status of an ACME [Challenge]
#[derive(Clone, Copy, Debug, PartialEq, Eq)]
pub enum ChallengeStatus {
    Pending,
    Processing,
    Valid,
    Invalid,
}

/// Status of an order
#[derive(Clone, Copy, Debug, PartialEq, Eq)]
pub enum OrderStatus {
    Pending,
    Ready,
    Processing,
    Valid,
    Invalid,
}

/// An order is for the identifiers that it was made with, and asks for nothing else until it is
/// told; telling it one thing changes nothing else.
pub proof fn law_order_holds_what_it_was_told(
    identifiers: &'static [Identifier],
    order: NewOrder<'static>,
    identifier: CertificateIdentifier<'static>,
    replacing: NewOrder<'static>,
    profile: &'static str,
    profiled: NewOrder<'static>,
    listed: &[Identifier],
)
    requires
        call_ensures(NewOrder::<'static>::new, (identifiers,), order),
        call_ensures(NewOrder::<'static>::replaces, (order, identifier), replacing),
        call_ensures(NewOrder::<'static>::profile, (replacing, profile), profiled),
        call_ensures(NewOrder::<'static>::identifiers, (&profiled,), listed),
    ensures
        order.replaces is None,
        order.profile is None,
        replacing.replaces == Some(identifier),
        replacing.profile is None,
        profiled.replaces == Some(identifier),
        profiled.profile == Some(profile),
        listed@ == identifiers@,
{
}

/// An authorization that an order lists has the URL by which it is listed, and no state yet. The
/// identifier of one that was fetched is in the wildcard context that the authorization states.
pub proof fn law_authorizations(
    url: String,
    authorization: Authorization,
    state: &AuthorizationState,
    authorized: AuthorizedIdentifier<'_>,
)
    requires
        call_ensures(Authorization::new, (url,), authorization),
        call_ensures(AuthorizationState::identifier, (state,), authorized),
    ensures
        authorization.url@ == url@,
        authorization.state is None,
        *authorized.identifier == state.identifier,
        authorized.wildcard == state.wildcard,
{
}

} // verus!
