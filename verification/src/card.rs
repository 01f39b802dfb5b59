use std::collections::HashMap;
use vstd::prelude::*;

verus! {

/// Authentication scheme for an agent endpoint.
#[derive(Debug, PartialEq)]
pub enum AuthScheme {
    NoAuth,
    ApiKey { header: String },
    OAuth2 { scopes: Vec<String> },
    MutualTLS,
    Custom(String),
}

/// A network endpoint where an agent can be reached.
#[derive(Debug, PartialEq)]
pub struct AgentEndpoint {
    pub url: String,
    pub protocol: String,
    pub description: String,
}

/// An agent's identity card, used for discovery and advertisement.
#[derive(Debug, Clone, PartialEq)]
pub struct AgentCard {
    pub id: String,
    pub name: String,
    pub version: String,
    pub description: String,
    pub capabilities: Vec<String>,
    pub protocols: Vec<String>,
    pub endpoints: Vec<AgentEndpoint>,
    pub authentication: Option<AuthScheme>,
    pub metadata: HashMap<String, String>,
}

/// The texts of a list of strings.
pub open spec fn texts(items: Seq<String>) -> Seq<Seq<char>> {
    items.map_values(|s: String| s@)
}

/// A copy of a list of strings.
pub(crate) fn copy_strings(items: &Vec<String>) -> (copy: Vec<String>)
    ensures
        texts(copy@) == texts(items@),
{
    let mut copy: Vec<String> = Vec::new();
    let n = items.len();
    for i in 0..n
        invariant
            n == items.len(),
            copy@.len() == i,
            forall|j: int| 0 <= j < i ==> #[trigger] copy@[j]@ == items@[j]@,
    {
        copy.push(items[i].clone());
    }
    assert(texts(copy@) =~= texts(items@));
    copy
}

/// `copy` is the same authentication scheme as `scheme`, with the same texts.
pub open spec fn same_auth(copy: AuthScheme, scheme: AuthScheme) -> bool {
    match scheme {
        AuthScheme::NoAuth => copy is NoAuth,
        AuthScheme::ApiKey { header } => copy is ApiKey && copy->header@ == header@,
        AuthScheme::OAuth2 { scopes } => copy is OAuth2 && texts(copy->scopes@) == texts(scopes@),
        AuthScheme::MutualTLS => copy is MutualTLS,
        AuthScheme::Custom(name) => copy is Custom && copy->Custom_0@ == name@,
    }
}

impl Clone for AuthScheme {
    fn clone(&self) -> (copy: Self)
        ensures
            same_auth(copy, *self),
    {
        match self {
            AuthScheme::NoAuth => AuthScheme::NoAuth,
            AuthScheme::ApiKey { header } => AuthScheme::ApiKey { header: header.clone() },
            AuthScheme::OAuth2 { scopes } => AuthScheme::OAuth2 { scopes: copy_strings(scopes) },
            AuthScheme::MutualTLS => AuthScheme::MutualTLS,
            AuthScheme::Custom(name) => AuthScheme::Custom(name.clone()),
        }
    }
}

/// `copy` has the same url, protocol and description as `endpoint`.
pub open spec fn same_endpoint(copy: AgentEndpoint, endpoint: AgentEndpoint) -> bool {
    &&& copy.url@ == endpoint.url@
    &&& copy.protocol@ == endpoint.protocol@
    &&& copy.description@ == endpoint.description@
}

impl Clone for AgentEndpoint {
    fn clone(&self) -> (copy: Self)
        ensures
            same_endpoint(copy, *self),
    {
        AgentEndpoint {
            url: self.url.clone(),
            protocol: self.protocol.clone(),
            description: self.description.clone(),
        }
    }
}

/// `copy` has the same texts, endpoints, authentication scheme and metadata as `card`.
pub open spec fn copied_card(copy: AgentCard, card: AgentCard) -> bool {
    &&& copy.id@ == card.id@
    &&& copy.name@ == card.name@
    &&& copy.version@ == card.version@
    &&& copy.description@ == card.description@
    &&& texts(copy.capabilities@) == texts(card.capabilities@)
    &&& texts(copy.protocols@) == texts(card.protocols@)
    &&& copy.endpoints@.len() == card.endpoints@.len()
    &&& forall|i: int|
        0 <= i < card.endpoints@.len() ==> same_endpoint(
            #[trigger] copy.endpoints@[i],
            card.endpoints@[i],
        )
    &&& match card.authentication {
        Some(scheme) => copy.authentication matches Some(c) && same_auth(c, scheme),
        None => copy.authentication is None,
    }
    &&& copy.metadata@ == card.metadata@
}

/// A copy of a card.
pub(crate) fn copy_card(card: &AgentCard) -> (copy: AgentCard)
    ensures
        copied_card(copy, *card),
{
    let mut endpoints: Vec<AgentEndpoint> = Vec::new();
    let n = card.endpoints.len();
    for i in 0..n
        invariant
            n == card.endpoints@.len(),
            endpoints@.len() == i,
            forall|j: int| 0 <= j < i ==> same_endpoint(#[trigger] endpoints@[j], card.endpoints@[j]),
    {
        endpoints.push(card.endpoints[i].clone());
    }
    let authentication = match &card.authentication {
        Some(scheme) => Some(scheme.clone()),
        None => None,
    };
    AgentCard {
        id: card.id.clone(),
        name: card.name.clone(),
        version: card.version.clone(),
        description: card.description.clone(),
        capabilities: copy_strings(&card.capabilities),
        protocols: copy_strings(&card.protocols),
        endpoints,
        authentication,
        metadata: card.metadata.clone(),
    }
}

/// Whether some entry of `items` has the text `item`.
pub open spec fn lists(items: Seq<String>, item: Seq<char>) -> bool {
    exists|k: int| 0 <= k < items.len() && #[trigger] items[k]@ == item
}

impl AgentCard {
    /// The card declares the capability `capability`.
    pub open spec fn declares_capability(self, capability: Seq<char>) -> bool {
        lists(self.capabilities@, capability)
    }

    /// The card declares support for the protocol `protocol`.
    pub open spec fn supports_protocol(self, protocol: Seq<char>) -> bool {
        lists(self.protocols@, protocol)
    }
}

} // verus!
