//! The topics of the mock cluster that Kafka-backed code is tested against.
//!
//! The cluster is shared by every test of a process, so topics are created once each, and tests that
//! need isolation ask for names of their own.
use vstd::prelude::*;
use vstd::string::*;

use crate::keyed_map::KeyedMap;
use crate::text::{
    decimal, decimal_text, law_decimal_reads_back, lemma_decimal_has_no_dash,
};

verus! {

/// The topics that were created, and the number of the next name.
pub struct TopicRegistry {
    known_topics: KeyedMap<String, ()>,
    next_topic_id: u64,
}

/// A topic, and whether the cluster has yet to create it.
pub struct RequestedTopic {
    /// The name of the topic.
    pub name: String,
    /// Whether the cluster has to be asked for it.
    pub is_new: bool,
}

/// The name of the topic with a number.
pub open spec fn topic_name(prefix: Seq<char>, id: nat) -> Seq<char> {
    prefix + "-"@ + decimal_text(id)
}

/// The number that follows, which starts over at zero behind the largest.
pub open spec fn next_id(id: u64) -> u64 {
    if id == u64::MAX {
        0
    } else {
        (id + 1) as u64
    }
}

impl TopicRegistry {
    /// The topics that were created.
    pub closed spec fn topics(&self) -> Set<Seq<char>> {
        self.known_topics@.dom()
    }

    /// The number of the next name.
    pub closed spec fn upcoming(&self) -> u64 {
        self.next_topic_id
    }

    /// Starts without topics, and counts names from one.
    pub fn new() -> (registry: Self)
        ensures
            registry.topics() == Set::<Seq<char>>::empty(),
            registry.upcoming() == 1,
    {
        let registry = TopicRegistry { known_topics: KeyedMap::new(), next_topic_id: 1 };
        assert(registry.topics() =~= Set::<Seq<char>>::empty());
        registry
    }

    /// Notes that a topic is wanted. Says whether the cluster has to be asked for it, which is so
    /// once for each topic.
    pub fn create_topic(&mut self, topic: &str) -> (is_new: bool)
        ensures
            is_new == !old(self).topics().contains(topic@),
            final(self).topics() == old(self).topics().insert(topic@),
            final(self).upcoming() == old(self).upcoming(),
    {
        let ghost before = self.topics();
        let key = topic.to_string();
        let is_new = self.known_topics.get(&key).is_none();
        if is_new {
            self.known_topics.insert(key, ());
        }
        assert(self.topics() =~= before.insert(topic@));
        is_new
    }

    /// Makes the name of a new topic from a prefix, and notes that the topic is wanted.
    pub fn new_topic(&mut self, prefix: &str) -> (topic: RequestedTopic)
        ensures
            topic.name@ == topic_name(prefix@, old(self).upcoming() as nat),
            topic.is_new == !old(self).topics().contains(topic.name@),
            final(self).topics() == old(self).topics().insert(topic.name@),
            final(self).upcoming() == next_id(old(self).upcoming()),
    {
        let mut name = prefix.to_string();
        name.append("-");
        name.append(decimal(self.next_topic_id as u128).as_str());
        self.next_topic_id = self.next_topic_id.wrapping_add(1);
        let is_new = self.create_topic(name.as_str());
        RequestedTopic { name, is_new }
    }
}

proof fn lemma_longer_number(
    prefix: Seq<char>,
    id: nat,
    other_prefix: Seq<char>,
    other_id: nat,
)
    requires
        topic_name(prefix, id) == topic_name(other_prefix, other_id),
    ensures
        decimal_text(id).len() >= decimal_text(other_id).len(),
{
    reveal_strlit("-");
    let name = topic_name(prefix, id);
    let short = decimal_text(id).len();
    lemma_decimal_has_no_dash(other_id);
    if short < decimal_text(other_id).len() {
        let dash = name.len() - short - 1;
        assert(name[dash] == '-');
        let at = dash - other_prefix.len() - 1;
        assert(topic_name(other_prefix, other_id)[dash] == decimal_text(other_id)[at]);
    }
}

/// Names with different numbers or different prefixes are different names, so every topic that is
/// asked for by prefix is a topic of its own.
pub proof fn law_topic_names_are_distinct(
    prefix: Seq<char>,
    id: nat,
    other_prefix: Seq<char>,
    other_id: nat,
)
    requires
        topic_name(prefix, id) == topic_name(other_prefix, other_id),
    ensures
        prefix == other_prefix,
        id == other_id,
{
    reveal_strlit("-");
    lemma_longer_number(prefix, id, other_prefix, other_id);
    lemma_longer_number(other_prefix, other_id, prefix, id);
    let name = topic_name(prefix, id);
    let len = decimal_text(id).len();
    let start = name.len() - len;
    assert(decimal_text(id) =~= name.skip(start as int));
    assert(decimal_text(other_id) =~= name.skip(start as int));
    assert(prefix =~= name.take(start - 1));
    assert(other_prefix =~= name.take(start - 1));
    law_decimal_reads_back(id);
    law_decimal_reads_back(other_id);
}

/// The `n`th name that a registry makes, counted from one, is the prefix, a dash and `n` in decimal,
/// whatever the prefixes are, as long as the numbers last. Each is a topic that the cluster has yet
/// to create.
pub proof fn law_nth_topic_has_its_number(
    start: TopicRegistry,
    registries: Seq<&mut TopicRegistry>,
    prefixes: Seq<&str>,
    topics: Seq<RequestedTopic>,
    n: int,
)
    requires
        call_ensures(TopicRegistry::new, (), start),
        registries.len() == prefixes.len(),
        registries.len() > 0 ==> *registries[0] == start,
        forall|i: int, j: int|
            0 <= i && j == i + 1 && j < registries.len() ==> *final(#[trigger] registries[i])
                == *#[trigger] registries[j],
        forall|i: int|
            0 <= i < registries.len() ==> call_ensures(
                TopicRegistry::new_topic,
                (#[trigger] registries[i], prefixes[i]),
                topics[i],
            ),
        0 <= n < registries.len(),
        n < u64::MAX,
    ensures
        topics[n].name@ == prefixes[n]@ + seq!['-'] + decimal_text((n + 1) as nat),
        topics[n].is_new,
{
    reveal_strlit("-");
    assert("-"@ =~= seq!['-']);
    lemma_numbered_topics(start, registries, prefixes, topics, n);
    assert(call_ensures(TopicRegistry::new_topic, (registries[n], prefixes[n]), topics[n]));
    if registries[n].topics().contains(topics[n].name@) {
        let i = choose|i: int|
            0 <= i < n && topics[n].name@ == topic_name(
                (#[trigger] prefixes[i])@,
                (i + 1) as nat,
            );
        law_topic_names_are_distinct(
            prefixes[n]@,
            (n + 1) as nat,
            prefixes[i]@,
            (i + 1) as nat,
        );
    }
}

proof fn lemma_numbered_topics(
    start: TopicRegistry,
    registries: Seq<&mut TopicRegistry>,
    prefixes: Seq<&str>,
    topics: Seq<RequestedTopic>,
    n: int,
)
    requires
        call_ensures(TopicRegistry::new, (), start),
        registries.len() == prefixes.len(),
        registries.len() > 0 ==> *registries[0] == start,
        forall|i: int, j: int|
            0 <= i && j == i + 1 && j < registries.len() ==> *final(#[trigger] registries[i])
                == *#[trigger] registries[j],
        forall|i: int|
            0 <= i < registries.len() ==> call_ensures(
                TopicRegistry::new_topic,
                (#[trigger] registries[i], prefixes[i]),
                topics[i],
            ),
        0 <= n < registries.len(),
        n < u64::MAX,
    ensures
        registries[n].upcoming() == n + 1,
        forall|name: Seq<char>| #[trigger]
            registries[n].topics().contains(name) ==> exists|i: int|
                0 <= i < n && name == topic_name((#[trigger] prefixes[i])@, (i + 1) as nat),
    decreases n,
{
    if n > 0 {
        lemma_numbered_topics(start, registries, prefixes, topics, n - 1);
        assert(*final(registries[n - 1]) == *registries[n]);
        assert(call_ensures(
            TopicRegistry::new_topic,
            (registries[n - 1], prefixes[n - 1]),
            topics[n - 1],
        ));
        assert forall|name: Seq<char>| #[trigger]
            registries[n].topics().contains(name) implies exists|i: int|
            0 <= i < n && name == topic_name((#[trigger] prefixes[i])@, (i + 1) as nat) by {
            if registries[n - 1].topics().contains(name) {
                let i = choose|i: int|
                    0 <= i < n - 1 && name == topic_name(
                        (#[trigger] prefixes[i])@,
                        (i + 1) as nat,
                    );
                assert(name == topic_name(prefixes[i]@, (i + 1) as nat));
            } else {
                assert(name == topic_name(prefixes[n - 1]@, n as nat));
            }
        }
    }
}

/// The cluster is asked for each topic once: of several requests for topics, exactly those are new
/// for which no request before names the same topic.
pub proof fn law_topic_is_created_once(
    start: TopicRegistry,
    registries: Seq<&mut TopicRegistry>,
    names: Seq<&str>,
    answers: Seq<bool>,
    n: int,
)
    requires
        call_ensures(TopicRegistry::new, (), start),
        registries.len() == names.len(),
        registries.len() > 0 ==> *registries[0] == start,
        forall|i: int, j: int|
            0 <= i && j == i + 1 && j < registries.len() ==> *final(#[trigger] registries[i])
                == *#[trigger] registries[j],
        forall|i: int|
            0 <= i < registries.len() ==> call_ensures(
                TopicRegistry::create_topic,
                (#[trigger] registries[i], names[i]),
                answers[i],
            ),
        0 <= n < registries.len(),
    ensures
        answers[n] <==> forall|i: int| 0 <= i < n ==> (#[trigger] names[i])@ != names[n]@,
{
    lemma_created_topics(start, registries, names, answers, n);
    assert(call_ensures(TopicRegistry::create_topic, (registries[n], names[n]), answers[n]));
}

proof fn lemma_created_topics(
    start: TopicRegistry,
    registries: Seq<&mut TopicRegistry>,
    names: Seq<&str>,
    answers: Seq<bool>,
    n: int,
)
    requires
        call_ensures(TopicRegistry::new, (), start),
        registries.len() == names.len(),
        registries.len() > 0 ==> *registries[0] == start,
        forall|i: int, j: int|
            0 <= i && j == i + 1 && j < registries.len() ==> *final(#[trigger] registries[i])
                == *#[trigger] registries[j],
        forall|i: int|
            0 <= i < registries.len() ==> call_ensures(
                TopicRegistry::create_topic,
                (#[trigger] registries[i], names[i]),
                answers[i],
            ),
        0 <= n < registries.len(),
    ensures
        forall|name: Seq<char>| #[trigger]
            registries[n].topics().contains(name) <==> exists|i: int|
                0 <= i < n && (#[trigger] names[i])@ == name,
    decreases n,
{
    if n > 0 {
        lemma_created_topics(start, registries, names, answers, n - 1);
        assert(*final(registries[n - 1]) == *registries[n]);
        assert(call_ensures(
            TopicRegistry::create_topic,
            (registries[n - 1], names[n - 1]),
            answers[n - 1],
        ));
        let before = registries[n - 1].topics();
        assert(registries[n].topics() == before.insert(names[n - 1]@));
        assert forall|name: Seq<char>| #[trigger]
            registries[n].topics().contains(name) implies exists|i: int|
            0 <= i < n && (#[trigger] names[i])@ == name by {
            if name == names[n - 1]@ {
                assert(names[n - 1]@ == name);
            } else {
                assert(before.contains(name));
                let i = choose|i: int| 0 <= i < n - 1 && (#[trigger] names[i])@ == name;
                assert(names[i]@ == name);
            }
        }
        assert forall|name: Seq<char>|
            (exists|i: int| 0 <= i < n && (#[trigger] names[i])@ == name) implies #[trigger] registries[n].topics().contains(
        name) by {
            let i = choose|i: int| 0 <= i < n && (#[trigger] names[i])@ == name;
            if i < n - 1 {
                assert(names[i]@ == name);
                assert(before.contains(name));
            }
        }
    }
}

/// Every name that is made uses up one number, and behind the largest the numbers start over at zero;
/// asking for a topic by its full name uses up none.
pub proof fn law_every_name_uses_up_a_number(
    registry: &mut TopicRegistry,
    prefix: &str,
    topic: RequestedTopic,
    other: &mut TopicRegistry,
    name: &str,
    is_new: bool,
)
    requires
        call_ensures(TopicRegistry::new_topic, (registry, prefix), topic),
        *other == *final(registry),
        call_ensures(TopicRegistry::create_topic, (other, name), is_new),
    ensures
        topic.name@ == prefix@ + seq!['-'] + decimal_text(old(registry).upcoming() as nat),
        final(registry).upcoming() == (old(registry).upcoming() + 1) % 0x1_0000_0000_0000_0000,
        final(other).upcoming() == final(registry).upcoming(),
        name@ == topic.name@ ==> !is_new,
{
    reveal_strlit("-");
    assert("-"@ =~= seq!['-']);
}

} // verus!
