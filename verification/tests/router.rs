use lau_a2a_protocol::{A2AMessage, A2AMessageType, A2APayload, A2ARouter, AgentCard, AgentEndpoint};
use std::collections::HashMap;

fn sample_card(id: &str, name: &str) -> AgentCard {
    AgentCard {
        id: id.to_string(),
        name: name.to_string(),
        version: "1.0.0".to_string(),
        description: format!("Agent {name}"),
        capabilities: vec!["chat".to_string()],
        protocols: vec!["https".to_string()],
        endpoints: vec![AgentEndpoint {
            url: format!("https://{id}.example.com"),
            protocol: "https".to_string(),
            description: "main".to_string(),
        }],
        authentication: None,
        metadata: HashMap::new(),
    }
}

fn sample_message(from: &str, to: &str) -> A2AMessage {
    A2AMessage {
        id: "msg-1".to_string(),
        from: from.to_string(),
        to: to.to_string(),
        message_type: A2AMessageType::Query {
            intent: "hello".to_string(),
        },
        payload: A2APayload::Text("hi".to_string()),
        metadata: HashMap::new(),
        timestamp: 1000,
        ttl: Some(60),
        signature: None,
    }
}

#[test]
fn router_register_and_unregister() {
    let mut router = A2ARouter::new();
    router.register_agent(sample_card("a1", "Alpha"));
    assert_eq!(router.agent_count(), 1);
    router.unregister_agent("a1");
    assert_eq!(router.agent_count(), 0);
}

#[test]
fn router_route_direct() {
    let mut router = A2ARouter::new();
    router.register_agent(sample_card("a1", "Alpha"));
    router.register_agent(sample_card("a2", "Beta"));
    let msg = sample_message("a1", "a2");
    assert_eq!(router.route(&msg), vec!["a2"]);
}

#[test]
fn router_route_topic() {
    let mut router = A2ARouter::new();
    router.register_agent(sample_card("a1", "Alpha"));
    router.register_agent(sample_card("a2", "Beta"));
    router.subscribe("a2", &["alerts".to_string()]);
    let msg = A2AMessage {
        to: "alerts".to_string(),
        ..sample_message("a1", "alerts")
    };
    assert_eq!(router.route(&msg), vec!["a2"]);
}

#[test]
fn router_route_no_match() {
    let router = A2ARouter::new();
    let msg = sample_message("a1", "unknown");
    assert!(router.route(&msg).is_empty());
}

#[test]
fn router_direct_delivery_wins_over_topic() {
    let mut router = A2ARouter::new();
    router.register_agent(sample_card("a1", "Alpha"));
    router.register_agent(sample_card("news", "News"));
    router.subscribe("a1", &["news".to_string()]);
    assert_eq!(router.route(&sample_message("a1", "news")), vec!["news"]);
}

#[test]
fn router_route_to_unregistered_agent_is_empty() {
    let mut router = A2ARouter::new();
    router.register_agent(sample_card("a2", "Beta"));
    router.unregister_agent("a2");
    assert!(router.route(&sample_message("a1", "a2")).is_empty());
}

#[test]
fn router_subscribe_and_unsubscribe() {
    let mut router = A2ARouter::new();
    router.register_agent(sample_card("a1", "Alpha"));
    router.subscribe("a1", &["alerts".to_string(), "logs".to_string()]);
    assert_eq!(*router.subscribers("alerts").unwrap(), vec!["a1"]);
    assert_eq!(*router.subscribers("logs").unwrap(), vec!["a1"]);
    router.unsubscribe("a1", &["alerts".to_string()]);
    assert!(router.subscribers("alerts").unwrap().is_empty());
    assert_eq!(*router.subscribers("logs").unwrap(), vec!["a1"]);
}

#[test]
fn router_unregister_removes_subscriptions() {
    let mut router = A2ARouter::new();
    router.register_agent(sample_card("a1", "Alpha"));
    router.subscribe("a1", &["alerts".to_string()]);
    router.unregister_agent("a1");
    assert!(router.subscribers("alerts").unwrap().is_empty());
}

#[test]
fn router_unregister_keeps_other_subscribers() {
    let mut router = A2ARouter::new();
    router.subscribe("a1", &["alerts".to_string()]);
    router.subscribe("a2", &["alerts".to_string()]);
    router.subscribe("a1", &["alerts".to_string()]);
    router.unregister_agent("a1");
    assert_eq!(*router.subscribers("alerts").unwrap(), vec!["a2"]);
}

#[test]
fn router_subscribe_twice_lists_twice() {
    let mut router = A2ARouter::new();
    router.subscribe("a1", &["t".to_string(), "t".to_string()]);
    assert_eq!(*router.subscribers("t").unwrap(), vec!["a1", "a1"]);
    assert_eq!(router.route(&sample_message("x", "t")), vec!["a1", "a1"]);
    router.unsubscribe("a1", &["t".to_string()]);
    assert!(router.subscribers("t").unwrap().is_empty());
}

#[test]
fn router_unsubscribe_unknown_topic_creates_nothing() {
    let mut router = A2ARouter::new();
    router.unsubscribe("a1", &["nowhere".to_string()]);
    assert!(router.subscribers("nowhere").is_none());
    assert!(router.route(&sample_message("x", "nowhere")).is_empty());
}

#[test]
fn router_find_by_capability() {
    let mut router = A2ARouter::new();
    let mut card = sample_card("a1", "Alpha");
    card.capabilities = vec!["translation".to_string(), "summarization".to_string()];
    router.register_agent(card);
    router.register_agent(sample_card("a2", "Beta")); // only "chat"
    let found = router.find_by_capability("translation");
    assert_eq!(found.len(), 1);
    assert_eq!(found[0].id, "a1");
}

#[test]
fn router_find_by_capability_empty() {
    let router = A2ARouter::new();
    assert!(router.find_by_capability("anything").is_empty());
}

#[test]
fn router_find_by_capability_is_exact_match() {
    let mut router = A2ARouter::new();
    router.register_agent(sample_card("a1", "Alpha"));
    assert!(router.find_by_capability("cha").is_empty());
    assert!(router.find_by_capability("Chat").is_empty());
    assert_eq!(router.find_by_capability("chat").len(), 1);
}

#[test]
fn router_find_by_protocol() {
    let mut router = A2ARouter::new();
    let mut card = sample_card("a1", "Alpha");
    card.protocols = vec!["grpc".to_string()];
    router.register_agent(card);
    router.register_agent(sample_card("a2", "Beta")); // "https"
    let found = router.find_by_protocol("grpc");
    assert_eq!(found.len(), 1);
    assert_eq!(found[0].id, "a1");
}

#[test]
fn router_discover_by_name() {
    let mut router = A2ARouter::new();
    router.register_agent(sample_card("a1", "Translator"));
    router.register_agent(sample_card("a2", "Summarizer"));
    let found = router.discover("trans");
    assert_eq!(found.len(), 1);
    assert_eq!(found[0].id, "a1");
}

#[test]
fn router_discover_by_description() {
    let mut router = A2ARouter::new();
    router.register_agent(AgentCard {
        description: "A powerful translation engine".to_string(),
        ..sample_card("a1", "Bot")
    });
    let found = router.discover("powerful");
    assert_eq!(found.len(), 1);
}

#[test]
fn router_discover_by_capability() {
    let mut router = A2ARouter::new();
    let mut card = sample_card("a1", "Bot");
    card.capabilities = vec!["image-generation".to_string()];
    router.register_agent(card);
    let found = router.discover("image");
    assert_eq!(found.len(), 1);
}

#[test]
fn router_discover_case_insensitive() {
    let mut router = A2ARouter::new();
    router.register_agent(sample_card("a1", "TranslatorBot"));
    assert_eq!(router.discover("TRANSLATOR").len(), 1);
    assert_eq!(router.discover("translatorbot").len(), 1);
}

#[test]
fn router_discover_no_match() {
    let router = A2ARouter::new();
    assert!(router.discover("anything").is_empty());
}

#[test]
fn router_discover_empty_query_matches_all() {
    let mut router = A2ARouter::new();
    router.register_agent(sample_card("a1", "Alpha"));
    router.register_agent(sample_card("a2", "Beta"));
    let found = router.discover("");
    assert_eq!(found.len(), 2);
    assert_eq!(found[0].id, "a1");
    assert_eq!(found[1].id, "a2");
}

#[test]
fn multi_agent_topic_broadcast() {
    let mut router = A2ARouter::new();
    router.register_agent(sample_card("a1", "Alpha"));
    router.register_agent(sample_card("a2", "Beta"));
    router.register_agent(sample_card("a3", "Gamma"));
    router.subscribe("a1", &["events".to_string()]);
    router.subscribe("a2", &["events".to_string()]);
    let msg = A2AMessage {
        to: "events".to_string(),
        ..sample_message("a3", "events")
    };
    let targets = router.route(&msg);
    assert_eq!(targets.len(), 2);
    assert!(targets.contains(&"a1".to_string()));
    assert!(targets.contains(&"a2".to_string()));
}

#[test]
fn empty_router_operations() {
    let mut router = A2ARouter::new();
    router.unsubscribe("ghost", &["topic".to_string()]);
    router.unregister_agent("ghost");
    assert!(router.find_by_capability("x").is_empty());
    assert!(router.find_by_protocol("y").is_empty());
    assert!(router.discover("z").is_empty());
}

#[test]
fn router_register_overwrites() {
    let mut router = A2ARouter::new();
    router.register_agent(sample_card("a1", "Alpha"));
    let mut card2 = sample_card("a1", "AlphaV2");
    card2.version = "2.0.0".to_string();
    router.register_agent(card2);
    assert_eq!(router.agent_count(), 1);
    assert_eq!(router.agent("a1").unwrap().version, "2.0.0");
}

#[test]
fn router_lookup_of_unknown_agent_is_none() {
    let mut router = A2ARouter::default();
    assert!(router.agent("a1").is_none());
    router.register_agent(sample_card("a1", "Alpha"));
    assert_eq!(router.agent("a1").unwrap().name, "Alpha");
    assert!(router.agent("a2").is_none());
}

#[test]
fn subscribe_multiple_agents_same_topic() {
    let mut router = A2ARouter::new();
    router.register_agent(sample_card("a1", "Alpha"));
    router.register_agent(sample_card("a2", "Beta"));
    router.register_agent(sample_card("a3", "Gamma"));
    router.subscribe("a1", &["news".to_string()]);
    router.subscribe("a2", &["news".to_string()]);
    router.subscribe("a3", &["news".to_string()]);
    assert_eq!(router.subscribers("news").unwrap().len(), 3);
}

#[test]
fn router_clone_keeps_agents_and_routes() {
    let mut router = A2ARouter::new();
    router.register_agent(sample_card("a1", "Alpha"));
    router.subscribe("a1", &["alerts".to_string()]);
    let copy = router.clone();
    router.unregister_agent("a1");
    assert_eq!(copy.agent_count(), 1);
    assert_eq!(copy.agent("a1").unwrap().name, "Alpha");
    assert_eq!(*copy.subscribers("alerts").unwrap(), vec!["a1"]);
    assert_eq!(copy.route(&sample_message("a2", "a1")), vec!["a1"]);
    assert_eq!(router.agent_count(), 0);
}

#[test]
fn router_clone_keeps_endpoints_auth_and_metadata() {
    let mut card = sample_card("a1", "Alpha");
    card.authentication = Some(lau_a2a_protocol::AuthScheme::OAuth2 {
        scopes: vec!["read".to_string(), "write".to_string()],
    });
    card.metadata.insert("region".to_string(), "us-west".to_string());
    let mut router = A2ARouter::new();
    router.register_agent(card.clone());
    let copy = router.clone();
    assert_eq!(*copy.agent("a1").unwrap(), card);
}
