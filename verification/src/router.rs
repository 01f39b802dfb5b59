use vstd::prelude::*;
use vstd::string::*;
use crate::card::{copied_card, copy_card, copy_strings, texts, AgentCard};
use crate::message::A2AMessage;
use crate::text::{chars_of, contains_chars, contains_text, occurs_at, lists_exec, to_lowercase, unicode_lowercase};

verus! {

broadcast use vstd::seq_lib::group_seq_properties;

/// Some card in `cards` has the id `id`.
pub open spec fn has_agent(cards: Seq<AgentCard>, id: Seq<char>) -> bool {
    exists|i: int| 0 <= i < cards.len() && #[trigger] cards[i].id@ == id
}

/// The position of the card with id `id` (meaningful when `has_agent(cards, id)`).
pub open spec fn agent_position(cards: Seq<AgentCard>, id: Seq<char>) -> int {
    choose|i: int| 0 <= i < cards.len() && #[trigger] cards[i].id@ == id
}

/// No two cards share an id.
pub open spec fn unique_ids(cards: Seq<AgentCard>) -> bool {
    forall|i: int, j: int|
        0 <= i < cards.len() && 0 <= j < cards.len() && i != j ==> #[trigger] cards[i].id@
            != #[trigger] cards[j].id@
}

/// The card list after registering `card`: a card with the same id is replaced in
/// place, otherwise the card is appended.
pub open spec fn after_register(cards: Seq<AgentCard>, card: AgentCard) -> Seq<AgentCard> {
    if has_agent(cards, card.id@) {
        cards.update(agent_position(cards, card.id@), card)
    } else {
        cards.push(card)
    }
}

/// The card list after removing the agent `id`.
pub open spec fn after_unregister(cards: Seq<AgentCard>, id: Seq<char>) -> Seq<AgentCard> {
    if has_agent(cards, id) {
        cards.remove(agent_position(cards, id))
    } else {
        cards
    }
}

/// The test "is not the agent `id`".
pub open spec fn other_than(id: Seq<char>) -> spec_fn(Seq<char>) -> bool {
    |s: Seq<char>| s != id
}

/// A subscriber list without the agent `id`.
pub open spec fn without_agent(subscribers: Seq<Seq<char>>, id: Seq<char>) -> Seq<Seq<char>> {
    subscribers.filter(other_than(id))
}

/// Topic routes with the agent `id` taken out of every subscriber list.
pub open spec fn routes_without(
    routes: Map<Seq<char>, Seq<Seq<char>>>,
    id: Seq<char>,
) -> Map<Seq<char>, Seq<Seq<char>>> {
    routes.map_values(|subscribers: Seq<Seq<char>>| without_agent(subscribers, id))
}

/// Topic routes after subscribing `agent` to each of `topics` in turn: each occurrence
/// of a topic appends the agent to that topic's list (created empty when new).
pub open spec fn after_subscribe(
    routes: Map<Seq<char>, Seq<Seq<char>>>,
    topics: Seq<Seq<char>>,
    agent: Seq<char>,
) -> Map<Seq<char>, Seq<Seq<char>>>
    decreases topics.len(),
{
    if topics.len() == 0 {
        routes
    } else {
        let before = after_subscribe(routes, topics.drop_last(), agent);
        let topic = topics.last();
        let current = if before.contains_key(topic) {
            before[topic]
        } else {
            Seq::empty()
        };
        before.insert(topic, current.push(agent))
    }
}

/// Topic routes after unsubscribing `agent` from `topics`: each listed topic that has
/// a route loses the agent; no route is created or removed.
pub open spec fn after_unsubscribe(
    routes: Map<Seq<char>, Seq<Seq<char>>>,
    topics: Seq<Seq<char>>,
    agent: Seq<char>,
) -> Map<Seq<char>, Seq<Seq<char>>> {
    Map::new(
        |t: Seq<char>| routes.contains_key(t),
        |t: Seq<char>|
            if topics.contains(t) {
                without_agent(routes[t], agent)
            } else {
                routes[t]
            },
    )
}

/// Where a message addressed to `to` goes: to that agent when it is registered, else to
/// the subscribers of the topic `to`, else nowhere.
pub open spec fn route_targets(
    cards: Seq<AgentCard>,
    routes: Map<Seq<char>, Seq<Seq<char>>>,
    to: Seq<char>,
) -> Seq<Seq<char>> {
    if has_agent(cards, to) {
        seq![to]
    } else if routes.contains_key(to) {
        routes[to]
    } else {
        Seq::empty()
    }
}

/// Fuzzy match of a card against a lowercased query: the query occurs in the lowercased
/// name, description or one of the capabilities.
pub open spec fn discover_matches(card: AgentCard, lowered_query: Seq<char>) -> bool {
    ||| contains_text(unicode_lowercase(card.name@), lowered_query)
    ||| contains_text(unicode_lowercase(card.description@), lowered_query)
    ||| exists|k: int|
        0 <= k < card.capabilities@.len() && contains_text(
            unicode_lowercase(#[trigger] card.capabilities@[k]@),
            lowered_query,
        )
}

/// The cards that declare a capability, in list order.
pub open spec fn cards_with_capability(cards: Seq<AgentCard>, capability: Seq<char>) -> Seq<AgentCard> {
    cards.filter(|c: AgentCard| c.declares_capability(capability))
}

/// The cards that support a protocol, in list order.
pub open spec fn cards_with_protocol(cards: Seq<AgentCard>, protocol: Seq<char>) -> Seq<AgentCard> {
    cards.filter(|c: AgentCard| c.supports_protocol(protocol))
}

/// The cards that match a fuzzy query, in list order; the query is lowercased first.
pub open spec fn cards_discovered(cards: Seq<AgentCard>, query: Seq<char>) -> Seq<AgentCard> {
    cards.filter(|c: AgentCard| discover_matches(c, unicode_lowercase(query)))
}

/// The cards that a list of card references points at.
pub open spec fn pointed(refs: Seq<&AgentCard>) -> Seq<AgentCard> {
    refs.map_values(|r: &AgentCard| *r)
}

/// No two route entries share a topic.
pub open spec fn unique_topics(entries: Seq<(String, Vec<String>)>) -> bool {
    forall|i: int, j: int|
        0 <= i < entries.len() && 0 <= j < entries.len() && i != j ==> #[trigger] entries[i].0@
            != #[trigger] entries[j].0@
}

/// The topic map that a list of route entries stands for.
pub open spec fn route_map(entries: Seq<(String, Vec<String>)>) -> Map<Seq<char>, Seq<Seq<char>>> {
    Map::new(
        |t: Seq<char>| exists|i: int| 0 <= i < entries.len() && #[trigger] entries[i].0@ == t,
        |t: Seq<char>|
            texts(entries[choose|i: int| 0 <= i < entries.len() && #[trigger] entries[i].0@ == t].1@),
    )
}

proof fn lemma_route_map_lookup(entries: Seq<(String, Vec<String>)>, i: int)
    requires
        unique_topics(entries),
        0 <= i < entries.len(),
    ensures
        route_map(entries).contains_key(entries[i].0@),
        route_map(entries)[entries[i].0@] == texts(entries[i].1@),
{
    let t = entries[i].0@;
    assert(entries[i].0@ == t);
    let j = choose|j: int| 0 <= j < entries.len() && #[trigger] entries[j].0@ == t;
    assert(j == i);
}

proof fn lemma_route_map_update(entries: Seq<(String, Vec<String>)>, k: int, entry: (String, Vec<String>))
    requires
        unique_topics(entries),
        0 <= k < entries.len(),
        entries[k].0@ == entry.0@,
    ensures
        unique_topics(entries.update(k, entry)),
        route_map(entries.update(k, entry)) == route_map(entries).insert(entry.0@, texts(entry.1@)),
{
    let updated = entries.update(k, entry);
    assert(unique_topics(updated)) by {
        assert forall|i: int, j: int|
            0 <= i < updated.len() && 0 <= j < updated.len() && i != j implies #[trigger] updated[i].0@
                != #[trigger] updated[j].0@ by {
            assert(updated[i].0@ == entries[i].0@);
            assert(updated[j].0@ == entries[j].0@);
        }
    }
    let m = route_map(updated);
    let expected = route_map(entries).insert(entry.0@, texts(entry.1@));
    assert forall|t: Seq<char>| #[trigger] m.contains_key(t) <==> expected.contains_key(t) by {
        if m.contains_key(t) {
            let i = choose|i: int| 0 <= i < updated.len() && #[trigger] updated[i].0@ == t;
            assert(entries[i].0@ == t);
        }
        if expected.contains_key(t) && t != entry.0@ {
            let i = choose|i: int| 0 <= i < entries.len() && #[trigger] entries[i].0@ == t;
            assert(updated[i].0@ == t);
        }
        if t == entry.0@ {
            assert(updated[k].0@ == t);
        }
    }
    assert forall|t: Seq<char>| #[trigger] m.contains_key(t) implies m[t] == expected[t] by {
        let i = choose|i: int| 0 <= i < updated.len() && #[trigger] updated[i].0@ == t;
        lemma_route_map_lookup(updated, i);
        if i != k {
            assert(entries[i].0@ == t);
            lemma_route_map_lookup(entries, i);
        }
    }
    assert(m =~= expected);
}

proof fn lemma_route_map_push(entries: Seq<(String, Vec<String>)>, entry: (String, Vec<String>))
    requires
        unique_topics(entries),
        !route_map(entries).contains_key(entry.0@),
    ensures
        unique_topics(entries.push(entry)),
        route_map(entries.push(entry)) == route_map(entries).insert(entry.0@, texts(entry.1@)),
{
    let pushed = entries.push(entry);
    assert(unique_topics(pushed)) by {
        assert forall|i: int, j: int|
            0 <= i < pushed.len() && 0 <= j < pushed.len() && i != j implies #[trigger] pushed[i].0@
                != #[trigger] pushed[j].0@ by {
            if i < entries.len() && j == entries.len() {
                assert(entries[i].0@ == pushed[i].0@);
            }
            if j < entries.len() && i == entries.len() {
                assert(entries[j].0@ == pushed[j].0@);
            }
        }
    }
    let m = route_map(pushed);
    let expected = route_map(entries).insert(entry.0@, texts(entry.1@));
    assert forall|t: Seq<char>| #[trigger] m.contains_key(t) <==> expected.contains_key(t) by {
        if m.contains_key(t) && t != entry.0@ {
            let i = choose|i: int| 0 <= i < pushed.len() && #[trigger] pushed[i].0@ == t;
            assert(entries[i].0@ == t);
        }
        if expected.contains_key(t) && t != entry.0@ {
            let i = choose|i: int| 0 <= i < entries.len() && #[trigger] entries[i].0@ == t;
            assert(pushed[i].0@ == t);
        }
        if t == entry.0@ {
            assert(pushed[entries.len() as int].0@ == t);
        }
    }
    assert forall|t: Seq<char>| #[trigger] m.contains_key(t) implies m[t] == expected[t] by {
        let i = choose|i: int| 0 <= i < pushed.len() && #[trigger] pushed[i].0@ == t;
        lemma_route_map_lookup(pushed, i);
        if i < entries.len() {
            assert(entries[i].0@ == t);
            lemma_route_map_lookup(entries, i);
        }
    }
    assert(m =~= expected);
}

/// Every element of `s` satisfies `pred`, so filtering keeps all of it.
proof fn lemma_filter_keeps_all<A>(s: Seq<A>, pred: spec_fn(A) -> bool)
    requires
        forall|i: int| 0 <= i < s.len() ==> pred(#[trigger] s[i]),
    ensures
        s.filter(pred) == s,
    decreases s.len(),
{
    reveal(Seq::filter);
    if s.len() > 0 {
        lemma_filter_keeps_all(s.drop_last(), pred);
        assert(s.drop_last().push(s.last()) =~= s);
    }
}

/// Removing an agent from a subscriber list twice is the same as once.
proof fn lemma_without_agent_twice(subscribers: Seq<Seq<char>>, id: Seq<char>)
    ensures
        without_agent(without_agent(subscribers, id), id) == without_agent(subscribers, id),
{
    broadcast use vstd::seq_lib::group_filter_ensures;
    let once = without_agent(subscribers, id);
    let pred = other_than(id);
    assert forall|i: int| 0 <= i < once.len() implies pred(#[trigger] once[i]) by {
        subscribers.lemma_filter_pred(pred, i);
    }
    lemma_filter_keeps_all(once, pred);
}

proof fn lemma_unique_ids_remove(cards: Seq<AgentCard>, k: int)
    requires
        unique_ids(cards),
        0 <= k < cards.len(),
    ensures
        unique_ids(cards.remove(k)),
{
    let removed = cards.remove(k);
    assert forall|i: int, j: int|
        0 <= i < removed.len() && 0 <= j < removed.len() && i != j implies #[trigger] removed[i].id@
            != #[trigger] removed[j].id@ by {
        let a = if i < k { i } else { i + 1 };
        let b = if j < k { j } else { j + 1 };
        assert(removed[i] == cards[a]);
        assert(removed[j] == cards[b]);
    }
}

/// The subscriber list without the agent `id`, order kept.
fn retain_others(subscribers: &Vec<String>, id: &str) -> (kept: Vec<String>)
    ensures
        texts(kept@) == without_agent(texts(subscribers@), id@),
{
    let key = String::from_str(id);
    let mut kept: Vec<String> = Vec::new();
    let n = subscribers.len();
    for i in 0..n
        invariant
            n == subscribers.len(),
            key@ == id@,
            texts(kept@) == without_agent(texts(subscribers@.take(i as int)), id@),
    {
        let ghost before = texts(subscribers@.take(i as int));
        let ghost item = subscribers@[i as int]@;
        assert(texts(subscribers@.take(i + 1)) =~= before.push(item));
        proof {
            before.lemma_filter_push(item, other_than(id@));
        }
        assert(without_agent(before.push(item), id@) == if other_than(id@)(item) {
            without_agent(before, id@).push(item)
        } else {
            without_agent(before, id@)
        });
        let ghost kept_before = kept@;
        if subscribers[i] != key {
            kept.push(subscribers[i].clone());
            assert(texts(kept@) =~= texts(kept_before).push(item));
        }
    }
    assert(subscribers@.take(n as int) =~= subscribers@);
    kept
}

/// The position of the card with id `id`, if there is one.
fn position_of_agent(agents: &Vec<AgentCard>, id: &str) -> (position: Option<usize>)
    requires
        unique_ids(agents@),
    ensures
        match position {
            Some(k) => has_agent(agents@, id@) && k == agent_position(agents@, id@) && k < agents@.len()
                && agents@[k as int].id@ == id@,
            None => !has_agent(agents@, id@),
        },
{
    let key = String::from_str(id);
    let n = agents.len();
    for k in 0..n
        invariant
            n == agents.len(),
            key@ == id@,
            unique_ids(agents@),
            forall|m: int| 0 <= m < k ==> agents@[m].id@ != id@,
    {
        if agents[k].id == key {
            proof {
                assert(agents@[k as int].id@ == id@);
                let p = agent_position(agents@, id@);
                assert(p == k);
            }
            return Some(k);
        }
    }
    None
}

/// The position of the route entry for `topic`, if there is one.
fn position_of_topic(routes: &Vec<(String, Vec<String>)>, topic: &str) -> (position: Option<usize>)
    ensures
        match position {
            Some(k) => k < routes@.len() && routes@[k as int].0@ == topic@ && route_map(
                routes@,
            ).contains_key(topic@),
            None => !route_map(routes@).contains_key(topic@),
        },
{
    let key = String::from_str(topic);
    let n = routes.len();
    for k in 0..n
        invariant
            n == routes.len(),
            key@ == topic@,
            forall|m: int| 0 <= m < k ==> routes@[m].0@ != topic@,
    {
        if routes[k].0 == key {
            assert(routes@[k as int].0@ == topic@);
            return Some(k);
        }
    }
    None
}

/// Whether a card matches the lowercased query `needle`.
fn card_matches(card: &AgentCard, needle: &Vec<char>) -> (matches: bool)
    ensures
        matches == discover_matches(*card, needle@),
{
    let name = to_lowercase(card.name.as_str());
    if contains_chars(&chars_of(name.as_str()), needle) {
        return true;
    }
    let description = to_lowercase(card.description.as_str());
    if contains_chars(&chars_of(description.as_str()), needle) {
        return true;
    }
    let n = card.capabilities.len();
    for k in 0..n
        invariant
            n == card.capabilities@.len(),
            forall|m: int|
                0 <= m < k ==> !contains_text(
                    unicode_lowercase(#[trigger] card.capabilities@[m]@),
                    needle@,
                ),
    {
        let capability = to_lowercase(card.capabilities[k].as_str());
        if contains_chars(&chars_of(capability.as_str()), needle) {
            return true;
        }
    }
    false
}

/// Routes messages between agents, manages discovery and subscriptions.
#[derive(Debug)]
pub struct A2ARouter {
    agents: Vec<AgentCard>,
    routes: Vec<(String, Vec<String>)>,
}

impl A2ARouter {
    #[verifier::type_invariant]
    spec fn well_formed(self) -> bool {
        &&& unique_ids(self.agents@)
        &&& unique_topics(self.routes@)
    }

    /// The registered agent cards, in registration order.
    pub closed spec fn cards(self) -> Seq<AgentCard> {
        self.agents@
    }

    /// The topic routes: each topic with a route maps to its subscriber ids, in
    /// subscription order.
    pub closed spec fn topics(self) -> Map<Seq<char>, Seq<Seq<char>>> {
        route_map(self.routes@)
    }

    /// An empty router.
    pub fn new() -> (router: Self)
        ensures
            unique_ids(router.cards()),
            router.cards() == Seq::<AgentCard>::empty(),
            router.topics() == Map::<Seq<char>, Seq<Seq<char>>>::empty(),
    {
        let router = A2ARouter { agents: Vec::new(), routes: Vec::new() };
        assert(router.topics() =~= Map::<Seq<char>, Seq<Seq<char>>>::empty());
        router
    }

    /// Register an agent by its card; a card with the same id is replaced.
    pub fn register_agent(&mut self, card: AgentCard)
        ensures
            final(self).cards() == after_register(old(self).cards(), card),
            final(self).topics() == old(self).topics(),
            unique_ids(final(self).cards()),
    {
        proof {
            use_type_invariant(&*self);
        }
        let mut agents: Vec<AgentCard> = Vec::new();
        std::mem::swap(&mut agents, &mut self.agents);
        match position_of_agent(&agents, card.id.as_str()) {
            Some(k) => {
                proof {
                    let updated = agents@.update(k as int, card);
                    assert forall|i: int, j: int|
                        0 <= i < updated.len() && 0 <= j < updated.len() && i != j implies #[trigger] updated[i].id@
                            != #[trigger] updated[j].id@ by {
                        assert(agents@[k as int].id@ == card.id@);
                        let a = agents@[i].id@;
                        let b = agents@[j].id@;
                        assert(a != b);
                        assert(updated[i].id@ == a);
                        assert(updated[j].id@ == b);
                    }
                }
                agents.set(k, card);
            },
            None => {
                proof {
                    let pushed = agents@.push(card);
                    assert forall|i: int, j: int|
                        0 <= i < pushed.len() && 0 <= j < pushed.len() && i != j implies #[trigger] pushed[i].id@
                            != #[trigger] pushed[j].id@ by {
                        if i < agents@.len() {
                            assert(pushed[i] == agents@[i]);
                            assert(agents@[i].id@ != card.id@);
                        }
                        if j < agents@.len() {
                            assert(pushed[j] == agents@[j]);
                            assert(agents@[j].id@ != card.id@);
                        }
                        if i < agents@.len() && j < agents@.len() {
                            assert(agents@[i].id@ != agents@[j].id@);
                        }
                    }
                }
                agents.push(card);
            },
        }
        self.agents = agents;
    }

    /// Remove an agent and all its topic subscriptions.
    pub fn unregister_agent(&mut self, id: &str)
        ensures
            final(self).cards() == after_unregister(old(self).cards(), id@),
            final(self).topics() == routes_without(old(self).topics(), id@),
            unique_ids(final(self).cards()),
    {
        proof {
            use_type_invariant(&*self);
        }
        let mut agents: Vec<AgentCard> = Vec::new();
        std::mem::swap(&mut agents, &mut self.agents);
        if let Some(k) = position_of_agent(&agents, id) {
            proof {
                lemma_unique_ids_remove(agents@, k as int);
            }
            agents.remove(k);
        }
        self.agents = agents;
        let mut routes: Vec<(String, Vec<String>)> = Vec::new();
        std::mem::swap(&mut routes, &mut self.routes);
        let ghost old_routes = routes@;
        let n = routes.len();
        for i in 0..n
            invariant
                n == routes@.len(),
                old_routes.len() == n,
                unique_topics(old_routes),
                forall|j: int| 0 <= j < n ==> #[trigger] routes@[j].0@ == old_routes[j].0@,
                forall|j: int|
                    0 <= j < i ==> texts(#[trigger] routes@[j].1@) == without_agent(
                        texts(old_routes[j].1@),
                        id@,
                    ),
                forall|j: int| i <= j < n ==> #[trigger] routes@[j] == old_routes[j],
        {
            let topic = routes[i].0.clone();
            let kept = retain_others(&routes[i].1, id);
            routes.set(i, (topic, kept));
        }
        proof {
            assert forall|a: int, b: int|
                0 <= a < routes@.len() && 0 <= b < routes@.len() && a != b implies #[trigger] routes@[a].0@
                    != #[trigger] routes@[b].0@ by {
                assert(routes@[a].0@ == old_routes[a].0@);
                assert(routes@[b].0@ == old_routes[b].0@);
            }
            let m = route_map(routes@);
            let expected = routes_without(route_map(old_routes), id@);
            assert forall|t: Seq<char>| #[trigger] m.contains_key(t) <==> expected.contains_key(t) by {
                if m.contains_key(t) {
                    let i = choose|i: int| 0 <= i < routes@.len() && #[trigger] routes@[i].0@ == t;
                    assert(old_routes[i].0@ == t);
                }
                if expected.contains_key(t) {
                    let i = choose|i: int| 0 <= i < old_routes.len() && #[trigger] old_routes[i].0@ == t;
                    assert(routes@[i].0@ == t);
                }
            }
            assert forall|t: Seq<char>| #[trigger] m.contains_key(t) implies m[t] == expected[t] by {
                let i = choose|i: int| 0 <= i < routes@.len() && #[trigger] routes@[i].0@ == t;
                lemma_route_map_lookup(routes@, i);
                assert(old_routes[i].0@ == t);
                lemma_route_map_lookup(old_routes, i);
            }
            assert(m =~= expected);
        }
        self.routes = routes;
    }

    /// Subscribe an agent to each of the given topics.
    pub fn subscribe(&mut self, agent_id: &str, topics: &[String])
        ensures
            unique_ids(final(self).cards()),
            final(self).cards() == old(self).cards(),
            final(self).topics() == after_subscribe(old(self).topics(), texts(topics@), agent_id@),
    {
        proof {
            use_type_invariant(&*self);
        }
        let mut routes: Vec<(String, Vec<String>)> = Vec::new();
        std::mem::swap(&mut routes, &mut self.routes);
        let ghost start = route_map(routes@);
        let ghost names = texts(topics@);
        let n = topics.len();
        for i in 0..n
            invariant
                n == topics@.len(),
                names == texts(topics@),
                unique_topics(routes@),
                route_map(routes@) == after_subscribe(start, names.take(i as int), agent_id@),
        {
            proof {
                assert(names.take(i + 1).drop_last() =~= names.take(i as int));
                assert(names.take(i + 1).last() == topics@[i as int]@);
            }
            let ghost before = routes@;
            match position_of_topic(&routes, topics[i].as_str()) {
                Some(k) => {
                    proof {
                        lemma_route_map_lookup(before, k as int);
                    }
                    let (topic, mut subscribers) = routes.remove(k);
                    subscribers.push(String::from_str(agent_id));
                    let entry = (topic, subscribers);
                    proof {
                        assert(texts(entry.1@) =~= texts(before[k as int].1@).push(agent_id@));
                        lemma_route_map_update(before, k as int, entry);
                    }
                    routes.insert(k, entry);
                    proof {
                        assert(routes@ =~= before.update(k as int, entry));
                    }
                },
                None => {
                    let mut subscribers: Vec<String> = Vec::new();
                    subscribers.push(String::from_str(agent_id));
                    let entry = (topics[i].clone(), subscribers);
                    proof {
                        assert(texts(entry.1@) =~= Seq::<Seq<char>>::empty().push(agent_id@));
                        lemma_route_map_push(before, entry);
                    }
                    routes.push(entry);
                },
            }
        }
        proof {
            assert(names.take(n as int) =~= names);
        }
        self.routes = routes;
        proof {
            use_type_invariant(&*self);
        }
    }

    /// Remove an agent's subscriptions for the given topics.
    pub fn unsubscribe(&mut self, agent_id: &str, topics: &[String])
        ensures
            unique_ids(final(self).cards()),
            final(self).cards() == old(self).cards(),
            final(self).topics() == after_unsubscribe(old(self).topics(), texts(topics@), agent_id@),
    {
        proof {
            use_type_invariant(&*self);
        }
        let mut routes: Vec<(String, Vec<String>)> = Vec::new();
        std::mem::swap(&mut routes, &mut self.routes);
        let ghost start = route_map(routes@);
        let ghost names = texts(topics@);
        let n = topics.len();
        proof {
            assert(start =~= after_unsubscribe(start, names.take(0), agent_id@));
        }
        for i in 0..n
            invariant
                n == topics@.len(),
                names == texts(topics@),
                unique_topics(routes@),
                route_map(routes@) == after_unsubscribe(start, names.take(i as int), agent_id@),
        {
            let ghost before = routes@;
            let ghost topic_text = topics@[i as int]@;
            let ghost next = after_unsubscribe(start, names.take(i + 1), agent_id@);
            proof {
                let longer = names.take(i + 1);
                let shorter = names.take(i as int);
                assert forall|t: Seq<char>|
                    longer.contains(t) <==> (shorter.contains(t) || t == topic_text) by {
                    if longer.contains(t) {
                        let j = choose|j: int| 0 <= j < longer.len() && #[trigger] longer[j] == t;
                        if j < i {
                            assert(shorter[j] == t);
                        }
                    }
                    if shorter.contains(t) {
                        let j = choose|j: int| 0 <= j < shorter.len() && #[trigger] shorter[j] == t;
                        assert(longer[j] == t);
                    }
                    if t == topic_text {
                        assert(longer[i as int] == t);
                    }
                }
            }
            match position_of_topic(&routes, topics[i].as_str()) {
                Some(k) => {
                    let topic = routes[k].0.clone();
                    let kept = retain_others(&routes[k].1, agent_id);
                    let entry = (topic, kept);
                    proof {
                        lemma_route_map_lookup(before, k as int);
                        lemma_route_map_update(before, k as int, entry);
                        lemma_without_agent_twice(start[topic_text], agent_id@);
                        let m = route_map(before.update(k as int, entry));
                        assert(m =~= next);
                    }
                    routes.set(k, entry);
                },
                None => {
                    proof {
                        assert(route_map(before) =~= next);
                    }
                },
            }
        }
        proof {
            assert(names.take(n as int) =~= names);
        }
        self.routes = routes;
        proof {
            use_type_invariant(&*self);
        }
    }

    /// Resolve target agent ids for a message: the addressee itself when it is a
    /// registered agent, else the subscribers of the topic it names, else nothing.
    pub fn route(&self, message: &A2AMessage) -> (targets: Vec<String>)
        ensures
            unique_ids(self.cards()),
            texts(targets@) == route_targets(self.cards(), self.topics(), message.to@),
    {
        proof {
            use_type_invariant(self);
        }
        if position_of_agent(&self.agents, message.to.as_str()).is_some() {
            let mut targets: Vec<String> = Vec::new();
            targets.push(message.to.clone());
            assert(texts(targets@) =~= seq![message.to@]);
            return targets;
        }
        match position_of_topic(&self.routes, message.to.as_str()) {
            Some(k) => {
                proof {
                    lemma_route_map_lookup(self.routes@, k as int);
                }
                copy_strings(&self.routes[k].1)
            },
            None => {
                let targets: Vec<String> = Vec::new();
                assert(texts(targets@) =~= Seq::<Seq<char>>::empty());
                targets
            },
        }
    }

    /// Find agents that declare a specific capability.
    pub fn find_by_capability(&self, capability: &str) -> (found: Vec<&AgentCard>)
        ensures
            unique_ids(self.cards()),
            pointed(found@) == cards_with_capability(self.cards(), capability@),
    {
        proof {
            use_type_invariant(self);
        }
        let key = String::from_str(capability);
        let ghost pred = |c: AgentCard| c.declares_capability(capability@);
        let mut found: Vec<&AgentCard> = Vec::new();
        let n = self.agents.len();
        for i in 0..n
            invariant
                n == self.agents@.len(),
                key@ == capability@,
                pred == (|c: AgentCard| c.declares_capability(capability@)),
                pointed(found@) == self.agents@.take(i as int).filter(pred),
        {
            let card = &self.agents[i];
            proof {
                assert(self.agents@.take(i + 1) =~= self.agents@.take(i as int).push(*card));
                self.agents@.take(i as int).lemma_filter_push(*card, pred);
            }
            let ghost found_before = found@;
            if lists_exec(&card.capabilities, &key) {
                found.push(card);
                assert(pointed(found@) =~= pointed(found_before).push(*card));
            }
        }
        assert(self.agents@.take(n as int) =~= self.agents@);
        found
    }

    /// Find agents that support a specific protocol.
    pub fn find_by_protocol(&self, protocol: &str) -> (found: Vec<&AgentCard>)
        ensures
            unique_ids(self.cards()),
            pointed(found@) == cards_with_protocol(self.cards(), protocol@),
    {
        proof {
            use_type_invariant(self);
        }
        let key = String::from_str(protocol);
        let ghost pred = |c: AgentCard| c.supports_protocol(protocol@);
        let mut found: Vec<&AgentCard> = Vec::new();
        let n = self.agents.len();
        for i in 0..n
            invariant
                n == self.agents@.len(),
                key@ == protocol@,
                pred == (|c: AgentCard| c.supports_protocol(protocol@)),
                pointed(found@) == self.agents@.take(i as int).filter(pred),
        {
            let card = &self.agents[i];
            proof {
                assert(self.agents@.take(i + 1) =~= self.agents@.take(i as int).push(*card));
                self.agents@.take(i as int).lemma_filter_push(*card, pred);
            }
            let ghost found_before = found@;
            if lists_exec(&card.protocols, &key) {
                found.push(card);
                assert(pointed(found@) =~= pointed(found_before).push(*card));
            }
        }
        assert(self.agents@.take(n as int) =~= self.agents@);
        found
    }

    /// Fuzzy discovery: agents whose name, description or one of whose capabilities
    /// contains the query, compared in lowercase.
    pub fn discover(&self, query: &str) -> (found: Vec<&AgentCard>)
        ensures
            unique_ids(self.cards()),
            pointed(found@) == cards_discovered(self.cards(), query@),
    {
        proof {
            use_type_invariant(self);
        }
        let lowered = to_lowercase(query);
        let needle = chars_of(lowered.as_str());
        let ghost pred = |c: AgentCard| discover_matches(c, unicode_lowercase(query@));
        let mut found: Vec<&AgentCard> = Vec::new();
        let n = self.agents.len();
        for i in 0..n
            invariant
                n == self.agents@.len(),
                needle@ == unicode_lowercase(query@),
                pred == (|c: AgentCard| discover_matches(c, unicode_lowercase(query@))),
                pointed(found@) == self.agents@.take(i as int).filter(pred),
        {
            let card = &self.agents[i];
            proof {
                assert(self.agents@.take(i + 1) =~= self.agents@.take(i as int).push(*card));
                self.agents@.take(i as int).lemma_filter_push(*card, pred);
            }
            let ghost found_before = found@;
            if card_matches(card, &needle) {
                found.push(card);
                assert(pointed(found@) =~= pointed(found_before).push(*card));
            }
        }
        assert(self.agents@.take(n as int) =~= self.agents@);
        found
    }

    /// The number of registered agents.
    pub fn agent_count(&self) -> (count: usize)
        ensures
            unique_ids(self.cards()),
            count == self.cards().len(),
    {
        proof {
            use_type_invariant(self);
        }
        self.agents.len()
    }

    /// The card registered under `id`, if any.
    pub fn agent(&self, id: &str) -> (card: Option<&AgentCard>)
        ensures
            unique_ids(self.cards()),
            match card {
                Some(c) => has_agent(self.cards(), id@) && *c == self.cards()[agent_position(
                    self.cards(),
                    id@,
                )],
                None => !has_agent(self.cards(), id@),
            },
    {
        proof {
            use_type_invariant(self);
        }
        match position_of_agent(&self.agents, id) {
            Some(k) => Some(&self.agents[k]),
            None => None,
        }
    }

    /// The subscriber ids of `topic`, if the topic has a route.
    pub fn subscribers(&self, topic: &str) -> (subscribers: Option<&Vec<String>>)
        ensures
            unique_ids(self.cards()),
            match subscribers {
                Some(v) => self.topics().contains_key(topic@) && texts(v@) == self.topics()[topic@],
                None => !self.topics().contains_key(topic@),
            },
    {
        proof {
            use_type_invariant(self);
        }
        match position_of_topic(&self.routes, topic) {
            Some(k) => {
                proof {
                    lemma_route_map_lookup(self.routes@, k as int);
                }
                Some(&self.routes[k].1)
            },
            None => None,
        }
    }
}


impl Clone for A2ARouter {
    fn clone(&self) -> (copy: Self)
        ensures
            copy.cards().len() == self.cards().len(),
            forall|i: int| 0 <= i < self.cards().len() ==> copied_card(#[trigger] copy.cards()[i], self.cards()[i]),
            copy.topics() == self.topics(),
            unique_ids(copy.cards()),
    {
        proof {
            use_type_invariant(self);
        }
        let mut agents: Vec<AgentCard> = Vec::new();
        let n = self.agents.len();
        for i in 0..n
            invariant
                n == self.agents@.len(),
                agents@.len() == i,
                forall|j: int| 0 <= j < i ==> copied_card(#[trigger] agents@[j], self.agents@[j]),
        {
            agents.push(copy_card(&self.agents[i]));
        }
        let mut routes: Vec<(String, Vec<String>)> = Vec::new();
        let m = self.routes.len();
        for i in 0..m
            invariant
                m == self.routes@.len(),
                routes@.len() == i,
                forall|j: int|
                    0 <= j < i ==> (#[trigger] routes@[j]).0@ == self.routes@[j].0@ && texts(routes@[j].1@)
                        == texts(self.routes@[j].1@),
        {
            routes.push((self.routes[i].0.clone(), copy_strings(&self.routes[i].1)));
        }
        proof {
            assert forall|i: int, j: int|
                0 <= i < agents@.len() && 0 <= j < agents@.len() && i != j implies #[trigger] agents@[i].id@
                    != #[trigger] agents@[j].id@ by {
                assert(copied_card(agents@[i], self.agents@[i]));
                assert(copied_card(agents@[j], self.agents@[j]));
            }
            assert forall|i: int, j: int|
                0 <= i < routes@.len() && 0 <= j < routes@.len() && i != j implies #[trigger] routes@[i].0@
                    != #[trigger] routes@[j].0@ by {
                assert(routes@[i].0@ == self.routes@[i].0@);
                assert(routes@[j].0@ == self.routes@[j].0@);
            }
            let mine = route_map(self.routes@);
            let theirs = route_map(routes@);
            assert forall|t: Seq<char>| #[trigger] theirs.contains_key(t) <==> mine.contains_key(t) by {
                if theirs.contains_key(t) {
                    let i = choose|i: int| 0 <= i < routes@.len() && #[trigger] routes@[i].0@ == t;
                    assert(self.routes@[i].0@ == t);
                }
                if mine.contains_key(t) {
                    let i = choose|i: int| 0 <= i < self.routes@.len() && #[trigger] self.routes@[i].0@ == t;
                    assert(routes@[i].0@ == t);
                }
            }
            assert forall|t: Seq<char>| #[trigger] theirs.contains_key(t) implies theirs[t] == mine[t] by {
                let i = choose|i: int| 0 <= i < routes@.len() && #[trigger] routes@[i].0@ == t;
                lemma_route_map_lookup(routes@, i);
                assert(self.routes@[i].0@ == t);
                lemma_route_map_lookup(self.routes@, i);
            }
            assert(theirs =~= mine);
        }
        A2ARouter { agents, routes }
    }
}

impl Default for A2ARouter {
    fn default() -> (router: Self)
        ensures
            router.cards() == Seq::<AgentCard>::empty(),
            router.topics() == Map::<Seq<char>, Seq<Seq<char>>>::empty(),
    {
        A2ARouter::new()
    }
}

/// Registering a card makes it the card under its id, keeps ids unique, replaces a
/// card with the same id without growing the list, and keeps every other card.
pub proof fn law_register_then_lookup(cards: Seq<AgentCard>, card: AgentCard)
    requires
        unique_ids(cards),
    ensures
        has_agent(after_register(cards, card), card.id@),
        after_register(cards, card)[agent_position(after_register(cards, card), card.id@)] == card,
        unique_ids(after_register(cards, card)),
        has_agent(cards, card.id@) ==> after_register(cards, card).len() == cards.len(),
        !has_agent(cards, card.id@) ==> after_register(cards, card).len() == cards.len() + 1,
        forall|id: Seq<char>|
            #![trigger has_agent(cards, id)]
            id != card.id@ && has_agent(cards, id) ==> has_agent(after_register(cards, card), id)
                && after_register(cards, card)[agent_position(after_register(cards, card), id)]
                == cards[agent_position(cards, id)],
{
    let after = after_register(cards, card);
    let id0 = card.id@;
    if has_agent(cards, id0) {
        let k = agent_position(cards, id0);
        assert(after[k].id@ == id0);
    } else {
        assert(after[cards.len() as int].id@ == id0);
    }
    assert forall|i: int, j: int|
        0 <= i < after.len() && 0 <= j < after.len() && i != j implies #[trigger] after[i].id@
            != #[trigger] after[j].id@ by {
        if has_agent(cards, id0) {
            let k = agent_position(cards, id0);
            assert(cards[k].id@ == id0);
            assert(cards[i].id@ != cards[j].id@);
            assert(after[i].id@ == cards[i].id@);
            assert(after[j].id@ == cards[j].id@);
        } else {
            if i < cards.len() && j < cards.len() {
                assert(cards[i].id@ != cards[j].id@);
            }
            if i < cards.len() {
                assert(after[i] == cards[i]);
                assert(cards[i].id@ != id0);
            }
            if j < cards.len() {
                assert(after[j] == cards[j]);
                assert(cards[j].id@ != id0);
            }
        }
    }
    let p = agent_position(after, id0);
    if has_agent(cards, id0) {
        let k = agent_position(cards, id0);
        assert(p == k);
    } else {
        assert(p == cards.len());
    }
    assert forall|id: Seq<char>|
        #![trigger has_agent(cards, id)]
        id != card.id@ && has_agent(cards, id) implies has_agent(after_register(cards, card), id)
            && after_register(cards, card)[agent_position(after_register(cards, card), id)]
            == cards[agent_position(cards, id)] by {
        let q = agent_position(cards, id);
        assert(after[q] == cards[q]);
        assert(after[q].id@ == id);
        let r = agent_position(after, id);
        assert(r == q);
    }
}

/// After registering a card, a message addressed to its id is delivered to exactly
/// that agent, whatever topics exist.
pub proof fn law_register_then_route_direct(
    cards: Seq<AgentCard>,
    routes: Map<Seq<char>, Seq<Seq<char>>>,
    card: AgentCard,
)
    requires
        unique_ids(cards),
    ensures
        route_targets(after_register(cards, card), routes, card.id@) == seq![card.id@],
{
    law_register_then_lookup(cards, card);
}

/// After unregistering an agent, it is no longer registered, no topic lists it, every
/// other agent stays registered, and every topic keeps its route.
pub proof fn law_unregister_removes_agent(
    cards: Seq<AgentCard>,
    routes: Map<Seq<char>, Seq<Seq<char>>>,
    id: Seq<char>,
)
    requires
        unique_ids(cards),
    ensures
        !has_agent(after_unregister(cards, id), id),
        unique_ids(after_unregister(cards, id)),
        forall|other: Seq<char>|
            other != id && has_agent(cards, other) ==> #[trigger] has_agent(
                after_unregister(cards, id),
                other,
            ),
        routes_without(routes, id).dom() == routes.dom(),
        forall|t: Seq<char>|
            #[trigger] routes_without(routes, id).contains_key(t) ==> !routes_without(
                routes,
                id,
            )[t].contains(id),
{
    broadcast use vstd::seq_lib::group_filter_ensures;
    let after = after_unregister(cards, id);
    if has_agent(cards, id) {
        let k = agent_position(cards, id);
        lemma_unique_ids_remove(cards, k);
        if has_agent(after, id) {
            let i = choose|i: int| 0 <= i < after.len() && #[trigger] after[i].id@ == id;
            let a = if i < k { i } else { i + 1 };
            assert(after[i] == cards[a]);
        }
        assert forall|other: Seq<char>|
            other != id && has_agent(cards, other) implies #[trigger] has_agent(after, other) by {
            let q = agent_position(cards, other);
            assert(q != k);
            let b = if q < k { q } else { q - 1 };
            assert(after[b] == cards[q]);
        }
    }
    assert(routes_without(routes, id).dom() =~= routes.dom());
    assert forall|t: Seq<char>| #[trigger] routes_without(routes, id).contains_key(t) implies !routes_without(
        routes,
        id,
    )[t].contains(id) by {
        let kept = without_agent(routes[t], id);
        if kept.contains(id) {
            let j = choose|j: int| 0 <= j < kept.len() && kept[j] == id;
            routes[t].lemma_filter_pred(other_than(id), j);
        }
    }
}

/// After subscribing an agent to a list of topics, every listed topic has a route
/// that includes the agent, topics not listed keep their routes, and a message to a
/// listed topic that is not also an agent id reaches the agent.
pub proof fn law_subscribe_then_route(
    cards: Seq<AgentCard>,
    routes: Map<Seq<char>, Seq<Seq<char>>>,
    topics: Seq<Seq<char>>,
    agent: Seq<char>,
)
    ensures
        forall|t: Seq<char>| #[trigger] topics.contains(t) ==> after_subscribe(routes, topics, agent).contains_key(t)
            && after_subscribe(routes, topics, agent)[t].contains(agent),
        forall|t: Seq<char>|
            !topics.contains(t) ==> #[trigger] after_subscribe(routes, topics, agent).contains_key(t)
                == routes.contains_key(t) && (routes.contains_key(t) ==> after_subscribe(
                routes,
                topics,
                agent,
            )[t] == routes[t]),
        forall|t: Seq<char>|
            #[trigger] topics.contains(t) && !has_agent(cards, t) ==> route_targets(
                cards,
                after_subscribe(routes, topics, agent),
                t,
            ).contains(agent),
    decreases topics.len(),
{
    if topics.len() > 0 {
        let rest = topics.drop_last();
        law_subscribe_then_route(cards, routes, rest, agent);
        let before = after_subscribe(routes, rest, agent);
        let last = topics.last();
        let after = after_subscribe(routes, topics, agent);
        let current = if before.contains_key(last) { before[last] } else { Seq::empty() };
        assert(after[last] == current.push(agent));
        assert(after[last][current.len() as int] == agent);
        assert forall|t: Seq<char>| #[trigger] topics.contains(t) implies after.contains_key(t)
            && after[t].contains(agent) by {
            if t != last {
                let j = choose|j: int| 0 <= j < topics.len() && topics[j] == t;
                assert(rest[j] == t);
                assert(rest.contains(t));
                let k = choose|k: int| 0 <= k < before[t].len() && before[t][k] == agent;
                assert(after[t][k] == agent);
            }
        }
        assert forall|t: Seq<char>| !topics.contains(t) implies #[trigger] after.contains_key(t)
            == routes.contains_key(t) && (routes.contains_key(t) ==> after[t] == routes[t]) by {
            if rest.contains(t) {
                let j = choose|j: int| 0 <= j < rest.len() && rest[j] == t;
                assert(topics[j] == t);
            }
            assert(t != topics[topics.len() - 1]);
        }
        assert forall|t: Seq<char>| #[trigger] topics.contains(t) && !has_agent(cards, t) implies route_targets(
            cards,
            after,
            t,
        ).contains(agent) by {
        }
    }
}

/// After unsubscribing an agent from a list of topics, no listed topic lists it any
/// more, no route is created or removed, and topics not listed are unchanged.
pub proof fn law_unsubscribe_removes(
    routes: Map<Seq<char>, Seq<Seq<char>>>,
    topics: Seq<Seq<char>>,
    agent: Seq<char>,
)
    ensures
        after_unsubscribe(routes, topics, agent).dom() == routes.dom(),
        forall|t: Seq<char>|
            #[trigger] topics.contains(t) && routes.contains_key(t) ==> !after_unsubscribe(
                routes,
                topics,
                agent,
            )[t].contains(agent),
        forall|t: Seq<char>|
            !topics.contains(t) && routes.contains_key(t) ==> #[trigger] after_unsubscribe(
                routes,
                topics,
                agent,
            )[t] == routes[t],
{
    broadcast use vstd::seq_lib::group_filter_ensures;
    let after = after_unsubscribe(routes, topics, agent);
    assert(after.dom() =~= routes.dom());
    assert forall|t: Seq<char>| #[trigger] topics.contains(t) && routes.contains_key(t) implies !after[t].contains(agent) by {
        let kept = without_agent(routes[t], agent);
        if kept.contains(agent) {
            let j = choose|j: int| 0 <= j < kept.len() && kept[j] == agent;
            routes[t].lemma_filter_pred(other_than(agent), j);
        }
    }
}

/// A capability search returns exactly the registered cards that declare the
/// capability: every card found declares it, and every declaring card is found.
pub proof fn law_find_by_capability_exact(cards: Seq<AgentCard>, capability: Seq<char>)
    ensures
        forall|i: int|
            0 <= i < cards_with_capability(cards, capability).len()
                ==> (#[trigger] cards_with_capability(cards, capability)[i]).declares_capability(capability),
        forall|i: int|
            0 <= i < cards.len() && (#[trigger] cards[i]).declares_capability(capability)
                ==> cards_with_capability(cards, capability).contains(cards[i]),
{
    broadcast use vstd::seq_lib::group_filter_ensures;
}

/// A protocol search returns exactly the registered cards that support the protocol.
pub proof fn law_find_by_protocol_exact(cards: Seq<AgentCard>, protocol: Seq<char>)
    ensures
        forall|i: int|
            0 <= i < cards_with_protocol(cards, protocol).len()
                ==> (#[trigger] cards_with_protocol(cards, protocol)[i]).supports_protocol(protocol),
        forall|i: int|
            0 <= i < cards.len() && (#[trigger] cards[i]).supports_protocol(protocol)
                ==> cards_with_protocol(cards, protocol).contains(cards[i]),
{
    broadcast use vstd::seq_lib::group_filter_ensures;
}

/// Discovery is case-insensitive in the sense of `str::to_lowercase`: two queries with
/// the same lowercase form find the same cards.
pub proof fn law_discover_depends_on_lowercase_query(cards: Seq<AgentCard>, query: Seq<char>, other: Seq<char>)
    requires
        unicode_lowercase(query) == unicode_lowercase(other),
    ensures
        cards_discovered(cards, query) == cards_discovered(cards, other),
{
    let p = |c: AgentCard| discover_matches(c, unicode_lowercase(query));
    let q = |c: AgentCard| discover_matches(c, unicode_lowercase(other));
    assert(p =~= q);
}

/// Filtering keeps every occurrence of the values that pass and none of the others.
proof fn lemma_filter_count<A>(s: Seq<A>, pred: spec_fn(A) -> bool, x: A)
    ensures
        s.filter(pred).to_multiset().count(x) == if pred(x) {
            s.to_multiset().count(x)
        } else {
            0
        },
    decreases s.len(),
{
    broadcast use vstd::seq_lib::group_to_multiset_ensures;
    broadcast use vstd::seq_lib::group_filter_ensures;
    reveal(Seq::filter);
    if s.len() == 0 {
        assert(!s.contains(x));
        assert(!s.filter(pred).contains(x));
    } else {
        let rest = s.drop_last();
        lemma_filter_count(rest, pred, x);
        assert(rest.push(s.last()) =~= s);
        s.drop_last().lemma_filter_push(s.last(), pred);
        if !pred(x) && s.filter(pred).contains(x) {
            let j = choose|j: int| 0 <= j < s.filter(pred).len() && s.filter(pred)[j] == x;
            s.lemma_filter_pred(pred, j);
        }
    }
}

/// Taking an agent out of a subscriber list removes every entry equal to it and
/// keeps every other subscriber exactly as often as before; a list without the agent
/// is left as it is.
proof fn lemma_without_agent_counts(subscribers: Seq<Seq<char>>, agent: Seq<char>, s: Seq<char>)
    ensures
        without_agent(subscribers, agent).to_multiset().count(s) == if s == agent {
            0
        } else {
            subscribers.to_multiset().count(s)
        },
        !subscribers.contains(agent) ==> without_agent(subscribers, agent) == subscribers,
{
    lemma_filter_count(subscribers, other_than(agent), s);
    if !subscribers.contains(agent) {
        assert forall|i: int| 0 <= i < subscribers.len() implies other_than(agent)(
            #[trigger] subscribers[i],
        ) by {
            if subscribers[i] == agent {
                assert(subscribers.contains(agent));
            }
        }
        lemma_filter_keeps_all(subscribers, other_than(agent));
    }
}

/// Unregistering `id` takes exactly the entries equal to `id` out of each topic's
/// subscriber list: any other subscriber `s` keeps its number of occurrences, and a
/// list that did not hold `id` is unchanged.
pub proof fn law_unregister_keeps_other_subscribers(
    routes: Map<Seq<char>, Seq<Seq<char>>>,
    id: Seq<char>,
    topic: Seq<char>,
    s: Seq<char>,
)
    requires
        routes.contains_key(topic),
    ensures
        routes_without(routes, id).contains_key(topic),
        routes_without(routes, id)[topic].to_multiset().count(s) == if s == id {
            0
        } else {
            routes[topic].to_multiset().count(s)
        },
        !routes[topic].contains(id) ==> routes_without(routes, id)[topic] == routes[topic],
{
    lemma_without_agent_counts(routes[topic], id, s);
}

/// Unsubscribing `agent` from a listed topic that has a route takes exactly the
/// entries equal to `agent` out of its list: any other subscriber `s` keeps its number
/// of occurrences, and a list that did not hold `agent` is unchanged.
pub proof fn law_unsubscribe_keeps_other_subscribers(
    routes: Map<Seq<char>, Seq<Seq<char>>>,
    topics: Seq<Seq<char>>,
    agent: Seq<char>,
    topic: Seq<char>,
    s: Seq<char>,
)
    requires
        routes.contains_key(topic),
        topics.contains(topic),
    ensures
        after_unsubscribe(routes, topics, agent).contains_key(topic),
        after_unsubscribe(routes, topics, agent)[topic].to_multiset().count(s) == if s == agent {
            0
        } else {
            routes[topic].to_multiset().count(s)
        },
        !routes[topic].contains(agent) ==> after_unsubscribe(routes, topics, agent)[topic]
            == routes[topic],
{
    lemma_without_agent_counts(routes[topic], agent, s);
}

/// A message whose address is neither the id of a card in `cards` nor a topic with a
/// route goes nowhere, whatever cards are registered.
pub proof fn law_route_unknown_address_is_empty(
    cards: Seq<AgentCard>,
    routes: Map<Seq<char>, Seq<Seq<char>>>,
    to: Seq<char>,
)
    requires
        forall|i: int| 0 <= i < cards.len() ==> (#[trigger] cards[i]).id@ != to,
        !routes.dom().contains(to),
    ensures
        route_targets(cards, routes, to).len() == 0,
{
}

/// A message addressed to the id of a registered card goes to that id alone.
pub proof fn law_route_to_agent(
    cards: Seq<AgentCard>,
    routes: Map<Seq<char>, Seq<Seq<char>>>,
    i: int,
)
    requires
        0 <= i < cards.len(),
    ensures
        route_targets(cards, routes, cards[i].id@) == seq![cards[i].id@],
{
    assert(cards[i].id@ == cards[i].id@);
}

/// A message addressed to a topic with a route, when no card has that id, goes to the
/// topic's subscribers in subscription order.
pub proof fn law_route_to_topic(
    cards: Seq<AgentCard>,
    routes: Map<Seq<char>, Seq<Seq<char>>>,
    to: Seq<char>,
)
    requires
        forall|i: int| 0 <= i < cards.len() ==> (#[trigger] cards[i]).id@ != to,
        routes.contains_key(to),
    ensures
        route_targets(cards, routes, to) == routes[to],
{
}

/// A capability search finds a card when any one of its capabilities, at whatever
/// position, equals the query, and every card it finds has such a capability.
pub proof fn law_find_by_capability_any_position(
    cards: Seq<AgentCard>,
    capability: Seq<char>,
    i: int,
    k: int,
)
    requires
        0 <= i < cards.len(),
        0 <= k < cards[i].capabilities@.len(),
        cards[i].capabilities@[k]@ == capability,
    ensures
        cards_with_capability(cards, capability).contains(cards[i]),
        forall|j: int|
            0 <= j < cards_with_capability(cards, capability).len() ==> exists|m: int|
                0 <= m < (#[trigger] cards_with_capability(cards, capability)[j]).capabilities@.len()
                    && cards_with_capability(cards, capability)[j].capabilities@[m]@ == capability,
{
    broadcast use vstd::seq_lib::group_filter_ensures;
    assert(cards[i].declares_capability(capability));
    cards.lemma_filter_contains(|c: AgentCard| c.declares_capability(capability), i);
}

/// A protocol search finds a card when any one of its protocols, at whatever position,
/// equals the query, and every card it finds has such a protocol.
pub proof fn law_find_by_protocol_any_position(
    cards: Seq<AgentCard>,
    protocol: Seq<char>,
    i: int,
    k: int,
)
    requires
        0 <= i < cards.len(),
        0 <= k < cards[i].protocols@.len(),
        cards[i].protocols@[k]@ == protocol,
    ensures
        cards_with_protocol(cards, protocol).contains(cards[i]),
        forall|j: int|
            0 <= j < cards_with_protocol(cards, protocol).len() ==> exists|m: int|
                0 <= m < (#[trigger] cards_with_protocol(cards, protocol)[j]).protocols@.len()
                    && cards_with_protocol(cards, protocol)[j].protocols@[m]@ == protocol,
{
    broadcast use vstd::seq_lib::group_filter_ensures;
    assert(cards[i].supports_protocol(protocol));
    cards.lemma_filter_contains(|c: AgentCard| c.supports_protocol(protocol), i);
}

/// Discovery finds a card when the lowercased query occurs, at some position `p`, in
/// the lowercased text of its name, its description or any one of its capabilities
/// (at whatever index `k`).
pub proof fn law_discover_finds_any_match(
    cards: Seq<AgentCard>,
    query: Seq<char>,
    i: int,
    k: int,
    p: int,
)
    requires
        0 <= i < cards.len(),
        ({
            let q = unicode_lowercase(query);
            let in_text = |text: Seq<char>|
                0 <= p && p + q.len() <= unicode_lowercase(text).len()
                    && unicode_lowercase(text).subrange(p, p + q.len()) == q;
            ||| in_text(cards[i].name@)
            ||| in_text(cards[i].description@)
            ||| 0 <= k < cards[i].capabilities@.len() && in_text(cards[i].capabilities@[k]@)
        }),
    ensures
        cards_discovered(cards, query).contains(cards[i]),
{
    broadcast use vstd::seq_lib::group_filter_ensures;
    let q = unicode_lowercase(query);
    let card = cards[i];
    assert(occurs_at(unicode_lowercase(card.name@), q, p) || occurs_at(
        unicode_lowercase(card.description@),
        q,
        p,
    ) || (0 <= k < card.capabilities@.len() && occurs_at(
        unicode_lowercase(card.capabilities@[k]@),
        q,
        p,
    )));
    if 0 <= k < card.capabilities@.len() && occurs_at(unicode_lowercase(card.capabilities@[k]@), q, p) {
        assert(contains_text(unicode_lowercase(card.capabilities@[k]@), q));
    }
    assert(discover_matches(card, q));
    cards.lemma_filter_contains(|c: AgentCard| discover_matches(c, unicode_lowercase(query)), i);
}

/// Every card that discovery finds is a registered card whose lowercased name,
/// description or some capability contains the lowercased query.
pub proof fn law_discover_finds_only_matches(cards: Seq<AgentCard>, query: Seq<char>, j: int)
    requires
        0 <= j < cards_discovered(cards, query).len(),
    ensures
        cards.contains(cards_discovered(cards, query)[j]),
        ({
            let card = cards_discovered(cards, query)[j];
            let q = unicode_lowercase(query);
            ||| contains_text(unicode_lowercase(card.name@), q)
            ||| contains_text(unicode_lowercase(card.description@), q)
            ||| exists|k: int|
                0 <= k < card.capabilities@.len() && contains_text(
                    unicode_lowercase(#[trigger] card.capabilities@[k]@),
                    q,
                )
        }),
{
    broadcast use vstd::seq_lib::group_filter_ensures;
    let pred = |c: AgentCard| discover_matches(c, unicode_lowercase(query));
    cards.lemma_filter_pred(pred, j);
    cards.lemma_filter_contains_rev(pred, cards_discovered(cards, query)[j]);
}

/// Subscribing `agent` to a list of topics appends it to each topic's list once per
/// occurrence of the topic in the list, after the subscribers the topic already had:
/// the old list (empty for a new topic) is a prefix of the new one, every other
/// subscriber keeps its number of occurrences, and `agent` gains one per occurrence.
pub proof fn law_subscribe_appends_per_occurrence(
    routes: Map<Seq<char>, Seq<Seq<char>>>,
    topics: Seq<Seq<char>>,
    agent: Seq<char>,
    topic: Seq<char>,
    s: Seq<char>,
)
    requires
        routes.contains_key(topic) || topics.contains(topic),
    ensures
        ({
            let before = if routes.contains_key(topic) { routes[topic] } else { Seq::empty() };
            let after = after_subscribe(routes, topics, agent)[topic];
            &&& after_subscribe(routes, topics, agent).contains_key(topic)
            &&& before.len() <= after.len()
            &&& after.subrange(0, before.len() as int) == before
            &&& after.to_multiset().count(s) == before.to_multiset().count(s) + if s == agent {
                topics.to_multiset().count(topic)
            } else {
                0
            }
        }),
    decreases topics.len(),
{
    broadcast use vstd::seq_lib::group_to_multiset_ensures;
    let before = if routes.contains_key(topic) { routes[topic] } else { Seq::empty() };
    if topics.len() == 0 {
        assert(before.subrange(0, before.len() as int) =~= before);
        assert(!topics.contains(topic));
        assert(topics.to_multiset().count(topic) == 0);
    } else {
        let rest = topics.drop_last();
        let last = topics.last();
        assert(rest.push(last) =~= topics);
        let prev = after_subscribe(routes, rest, agent);
        if routes.contains_key(topic) || rest.contains(topic) {
            law_subscribe_appends_per_occurrence(routes, rest, agent, topic, s);
        } else {
            assert(prev.contains_key(topic) == routes.contains_key(topic)) by {
                law_subscribe_then_route(Seq::empty(), routes, rest, agent);
            }
            assert(last == topic) by {
                if last != topic {
                    let j = choose|j: int| 0 <= j < topics.len() && topics[j] == topic;
                    assert(rest[j] == topic);
                }
            }
            assert(rest.to_multiset().count(topic) == 0);
        }
        let after = after_subscribe(routes, topics, agent);
        if last == topic {
            let current = if prev.contains_key(topic) { prev[topic] } else { Seq::empty() };
            if !(routes.contains_key(topic) || rest.contains(topic)) {
                assert(current =~= before);
            }
            assert(after[topic] == current.push(agent));
            assert(after[topic].subrange(0, before.len() as int) =~= current.subrange(
                0,
                before.len() as int,
            ));
        } else {
            assert(after[topic] == prev[topic]);
        }
    }
}

/// The number of times each card occurs in a capability search result: every
/// occurrence of a card that has the capability at some position, none of the others.
pub proof fn law_find_by_capability_counts(cards: Seq<AgentCard>, capability: Seq<char>, card: AgentCard)
    ensures
        cards_with_capability(cards, capability).to_multiset().count(card) == if exists|m: int|
            0 <= m < card.capabilities@.len() && #[trigger] card.capabilities@[m]@ == capability {
            cards.to_multiset().count(card)
        } else {
            0
        },
{
    lemma_filter_count(cards, |c: AgentCard| c.declares_capability(capability), card);
}

/// The number of times each card occurs in a protocol search result: every occurrence
/// of a card that has the protocol at some position, none of the others.
pub proof fn law_find_by_protocol_counts(cards: Seq<AgentCard>, protocol: Seq<char>, card: AgentCard)
    ensures
        cards_with_protocol(cards, protocol).to_multiset().count(card) == if exists|m: int|
            0 <= m < card.protocols@.len() && #[trigger] card.protocols@[m]@ == protocol {
            cards.to_multiset().count(card)
        } else {
            0
        },
{
    lemma_filter_count(cards, |c: AgentCard| c.supports_protocol(protocol), card);
}

} // verus!
