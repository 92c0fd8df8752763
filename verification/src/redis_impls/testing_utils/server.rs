//! What the mock server keeps and how it answers.
use vstd::prelude::*;
use vstd::string::*;
use vstd::utf8::encode_utf8;

use super::command::{flat_fields, pair_texts, paired, Command, CommandModel};
use super::encode::{
    append_bulk_string, append_header, bulk_text, bulk_texts, confirmation_text, delivery_text,
    encode_bulk_string, encode_pubsub_message, encode_subscribe_confirmation, header_text,
    law_bulk_string_reads_back, lemma_bulk_strings_read_back, lemma_header_reads_back,
    lemma_two_texts,
};
use super::resp::{bulk_string, bulk_strings, first_line, texts, ArrayParse};
use crate::text::{
    decimal, decimal_text, decimal_value, law_decimal_reads_back, law_encoding_concatenates,
    same_text, separated, view_opt,
};

verus! {

/// An entry of a stream.
#[derive(Debug, PartialEq, Eq)]
pub struct StreamEntry {
    /// The identifier that the server gave it.
    pub id: String,
    /// Ordered list of field/value pairs for this stream entry.
    pub fields: Vec<(String, String)>,
}

/// The model of a [`StreamEntry`].
#[verifier::ext_equal]
pub struct EntryModel {
    pub id: Seq<char>,
    pub fields: Seq<(Seq<char>, Seq<char>)>,
}

impl View for StreamEntry {
    type V = EntryModel;

    open spec fn view(&self) -> EntryModel {
        EntryModel { id: self.id@, fields: pair_texts(self.fields@) }
    }
}

/// The models of a sequence of entries.
pub open spec fn entry_models(entries: Seq<StreamEntry>) -> Seq<EntryModel> {
    entries.map_values(|entry: StreamEntry| entry@)
}

impl Clone for StreamEntry {
    fn clone(&self) -> (copy: Self)
        ensures
            copy@ == self@,
    {
        let mut fields: Vec<(String, String)> = Vec::new();
        let mut at: usize = 0;
        while at < self.fields.len()
            invariant
                at == fields.len(),
                at <= self.fields.len(),
                pair_texts(fields@) =~= pair_texts(self.fields@).take(at as int),
            decreases self.fields.len() - at,
        {
            let ghost before = pair_texts(fields@);
            let pair = (self.fields[at].0.clone(), self.fields[at].1.clone());
            fields.push(pair);
            proof {
                let wanted = pair_texts(self.fields@);
                assert(pair_texts(fields@) =~= before.push((pair.0@, pair.1@)));
                assert(wanted.take(at + 1) =~= wanted.take(at as int).push(wanted[at as int]));
            }
            at = at + 1;
        }
        assert(pair_texts(fields@) =~= pair_texts(self.fields@));
        StreamEntry { id: self.id.clone(), fields }
    }
}

/// The identifier of the `number`th entry of a stream.
pub open spec fn entry_id(number: nat) -> Seq<char> {
    decimal_text(number) + "-0"@
}

/// The entries of each topic, oldest first.
pub type Streams = spec_fn(Seq<char>) -> Seq<EntryModel>;

/// The entries of every stream, by topic.
pub struct StreamState {
    topics: Vec<(String, Vec<StreamEntry>)>,
}

/// Where the first slot of a topic at or after `from` stands; the end, if there is none.
pub open spec fn find_slot<V>(slots: Seq<(String, V)>, topic: Seq<char>, from: int) -> int
    decreases slots.len() - from,
{
    if from >= slots.len() {
        slots.len() as int
    } else if slots[from].0@ == topic {
        from
    } else {
        find_slot(slots, topic, from + 1)
    }
}

proof fn lemma_find_slot<V>(slots: Seq<(String, V)>, topic: Seq<char>, from: int)
    requires
        0 <= from <= slots.len(),
    ensures
        from <= find_slot(slots, topic, from) <= slots.len(),
        find_slot(slots, topic, from) < slots.len() ==> slots[find_slot(slots, topic, from)].0@
            == topic,
        forall|i: int| from <= i < find_slot(slots, topic, from) ==> slots[i].0@ != topic,
    decreases slots.len() - from,
{
    if from < slots.len() && slots[from].0@ != topic {
        lemma_find_slot(slots, topic, from + 1);
    }
}

/// Finds the slot of a topic.
fn slot_of<V>(slots: &Vec<(String, V)>, topic: &str) -> (slot: usize)
    ensures
        slot == find_slot(slots@, topic@, 0),
        slot <= slots@.len(),
{
    let mut at: usize = 0;
    while at < slots.len() && !same_text(slots[at].0.as_str(), topic)
        invariant
            at <= slots.len(),
            find_slot(slots@, topic@, 0) == find_slot(slots@, topic@, at as int),
        decreases slots.len() - at,
    {
        at = at + 1;
    }
    at
}

/// Whether the text stands behind the other in byte order.
pub open spec fn is_later(left: Seq<u8>, right: Seq<u8>) -> bool
    decreases left.len(),
{
    if left.len() == 0 {
        false
    } else if right.len() == 0 {
        true
    } else if left[0] != right[0] {
        left[0] > right[0]
    } else {
        is_later(left.drop_first(), right.drop_first())
    }
}

/// Compares two texts in byte order.
fn text_is_later(left: &str, right: &str) -> (later: bool)
    ensures
        later == is_later(encode_utf8(left@), encode_utf8(right@)),
{
    let a = left.as_bytes();
    let b = right.as_bytes();
    let mut at: usize = 0;
    assert(a@.skip(0) =~= a@);
    assert(b@.skip(0) =~= b@);
    while at < a.len() && at < b.len()
        invariant
            at <= a.len(),
            at <= b.len(),
            a@ == encode_utf8(left@),
            b@ == encode_utf8(right@),
            is_later(a@, b@) == is_later(a@.skip(at as int), b@.skip(at as int)),
        decreases a.len() - at,
    {
        if a[at] != b[at] {
            return a[at] > b[at];
        }
        assert(a@.skip(at as int).drop_first() =~= a@.skip(at + 1));
        assert(b@.skip(at as int).drop_first() =~= b@.skip(at + 1));
        at = at + 1;
    }
    at < a.len()
}

/// The entries that a reader who has seen `last_seen` is given: those with a later identifier, or
/// only the newest where `last_seen` is `$`.
pub open spec fn entries_after(entries: Seq<EntryModel>, last_seen: Seq<char>) -> Seq<EntryModel> {
    if last_seen == "$"@ {
        if entries.len() == 0 {
            seq![]
        } else {
            seq![entries.last()]
        }
    } else {
        entries.filter(
            |entry: EntryModel| is_later(encode_utf8(entry.id), encode_utf8(last_seen)),
        )
    }
}

impl View for StreamState {
    type V = Streams;

    open spec fn view(&self) -> Streams {
        |topic: Seq<char>| self.entries(topic)
    }
}

impl StreamState {
    /// Whether the entries of each stream are numbered from one upwards, as they always are.
    #[verifier::type_invariant]
    pub closed spec fn well_formed(&self) -> bool {
        forall|i: int, j: int|
            0 <= i < self.topics@.len() && 0 <= j < self.topics@[i].1@.len()
                ==> (#[trigger] self.topics@[i].1@[j]).id@ == entry_id((j + 1) as nat)
    }

    /// The entries of a topic, oldest first.
    pub closed spec fn entries(&self, topic: Seq<char>) -> Seq<EntryModel> {
        let slot = find_slot(self.topics@, topic, 0);
        if slot < self.topics@.len() {
            entry_models(self.topics@[slot].1@)
        } else {
            seq![]
        }
    }

    /// Starts without entries.
    pub fn new() -> (state: Self)
        ensures
            forall|topic: Seq<char>| #[trigger] state.entries(topic) == Seq::<EntryModel>::empty(),
    {
        StreamState { topics: Vec::new() }
    }

    /// Appends an entry to a topic and returns the identifier that it was given.
    pub fn push(&mut self, topic: &str, fields: Vec<(String, String)>) -> (id: String)
        ensures
            id@ == entry_id(old(self).entries(topic@).len() + 1),
            final(self).entries(topic@) == old(self).entries(topic@).push(
                EntryModel { id: id@, fields: pair_texts(fields@) },
            ),
            forall|other: Seq<char>|
                other != topic@ ==> #[trigger] final(self).entries(other) == old(self).entries(
                    other,
                ),
    {
        proof {
            use_type_invariant(&*self);
        }
        let ghost before = self.topics@;
        let mut topics: Vec<(String, Vec<StreamEntry>)> = Vec::new();
        std::mem::swap(&mut self.topics, &mut topics);
        let slot = slot_of(&topics, topic);
        if slot == topics.len() {
            topics.push((topic.to_string(), Vec::new()));
        }
        let ghost opened = topics@;
        let ghost listed = opened[slot as int].1@;
        let mut id = decimal(topics[slot].1.len() as u128 + 1);
        id.append("-0");
        let entry = StreamEntry { id: id.clone(), fields };
        topics[slot].1.push(entry);
        assert forall|i: int, j: int| 0 <= i < topics@.len() && 0 <= j < topics@[i].1@.len() implies (
        #[trigger] topics@[i].1@[j]).id@ == entry_id((j + 1) as nat) by {
            if i == slot {
                if j < listed.len() {
                    assert(topics@[i].1@[j] == before[i].1@[j]);
                }
            } else {
                assert(topics@[i].1@[j] == before[i].1@[j]);
            }
        }
        self.topics = topics;
        proof {
            assert(self.topics@[slot as int].1@ == listed.push(entry));
            assert(self.topics@[slot as int].0 == opened[slot as int].0);
            assert(forall|i: int|
                0 <= i < before.len() && i != slot ==> #[trigger] self.topics@[i] == before[i]);
            assert(entry_models(listed.push(entry)) =~= entry_models(listed).push(entry@));
            assert forall|other: Seq<char>| #[trigger] self.entries(other) == (if other == topic@ {
                old(self).entries(other).push(entry@)
            } else {
                old(self).entries(other)
            }) by {
                lemma_find_slot(before, other, 0);
                lemma_find_slot(before, topic@, 0);
                lemma_find_slot(self.topics@, other, 0);
                let was = find_slot(before, other, 0);
                let is = find_slot(self.topics@, other, 0);
                if other == topic@ {
                    assert(self.topics@[slot as int].0@ == other);
                    assert(is == slot) by {
                        if is < slot {
                            assert(before[is].0@ == other);
                        }
                    }
                    assert(entry_models(Seq::<StreamEntry>::empty()) =~= seq![]);
                } else if was < before.len() {
                    assert(self.topics@[was] == before[was]);
                    assert(is == was) by {
                        if is < was {
                            assert(self.topics@[is].0@ == before[is].0@);
                        }
                    }
                } else if is < self.topics@.len() {
                    assert(is != slot);
                    assert(self.topics@[is].0@ == before[is].0@);
                }
            }
        }
        id
    }

    /// Returns the entries of a topic, oldest first.
    pub fn all(&self, topic: &str) -> (entries: Vec<StreamEntry>)
        ensures
            entry_models(entries@) == self.entries(topic@),
    {
        let slot = slot_of(&self.topics, topic);
        let mut entries: Vec<StreamEntry> = Vec::new();
        if slot < self.topics.len() {
            let kept = &self.topics[slot].1;
            let mut at: usize = 0;
            while at < kept.len()
                invariant
                    at == entries.len(),
                    at <= kept.len(),
                    entry_models(entries@) =~= entry_models(kept@).take(at as int),
                decreases kept.len() - at,
            {
                let ghost before = entry_models(entries@);
                let entry = kept[at].clone();
                entries.push(entry);
                proof {
                    let wanted = entry_models(kept@);
                    assert(entry_models(entries@) =~= before.push(entry@));
                    assert(wanted.take(at + 1) =~= wanted.take(at as int).push(wanted[at as int]));
                }
                at = at + 1;
            }
            assert(entry_models(entries@) =~= entry_models(kept@));
        }
        assert(entry_models(entries@) =~= self.entries(topic@));
        entries
    }

    /// Returns the entries of a topic that a reader who has seen `last_seen` is given.
    pub fn after(&self, topic: &str, last_seen: &str) -> (entries: Vec<StreamEntry>)
        ensures
            entry_models(entries@) == entries_after(self.entries(topic@), last_seen@),
    {
        let kept = self.all(topic);
        let ghost all = entry_models(kept@);
        let mut entries: Vec<StreamEntry> = Vec::new();
        if same_text(last_seen, "$") {
            if kept.len() > 0 {
                entries.push(kept[kept.len() - 1].clone());
                assert(entry_models(entries@) =~= seq![all.last()]);
            } else {
                assert(entry_models(entries@) =~= seq![]);
            }
            return entries;
        }
        let ghost later = |entry: EntryModel|
            is_later(encode_utf8(entry.id), encode_utf8(last_seen@));
        let mut at: usize = 0;
        assert(entry_models(entries@) =~= all.take(0).filter(later)) by {
            reveal(Seq::filter);
        }
        while at < kept.len()
            invariant
                at <= kept.len(),
                all == entry_models(kept@),
                later == (|entry: EntryModel|
                    is_later(encode_utf8(entry.id), encode_utf8(last_seen@))),
                entry_models(entries@) == all.take(at as int).filter(later),
            decreases kept.len() - at,
        {
            let ghost before = entry_models(entries@);
            proof {
                reveal(Seq::filter);
                assert(all.take(at + 1).drop_last() =~= all.take(at as int));
                assert(all.take(at + 1).last() == kept@[at as int]@);
            }
            if text_is_later(kept[at].id.as_str(), last_seen) {
                let entry = kept[at].clone();
                entries.push(entry);
                assert(entry_models(entries@) =~= before.push(entry@));
            }
            at = at + 1;
        }
        assert(all.take(at as int) =~= all);
        entries
    }
}

/// Entries are numbered by their place in their stream, and no two of a stream share a number.
pub proof fn law_entry_ids_count_up(state: StreamState, topic: Seq<char>, left: int, right: int)
    requires
        state.well_formed(),
        0 <= left < right < state.entries(topic).len(),
    ensures
        state.entries(topic)[left].id == entry_id((left + 1) as nat),
        state.entries(topic)[right].id == entry_id((right + 1) as nat),
        state.entries(topic)[left].id != state.entries(topic)[right].id,
{
    let slot = find_slot(state.topics@, topic, 0);
    lemma_find_slot(state.topics@, topic, 0);
    assert(state.topics@[slot].1@[left].id@ == entry_id((left + 1) as nat));
    assert(state.topics@[slot].1@[right].id@ == entry_id((right + 1) as nat));
    if entry_id((left + 1) as nat) == entry_id((right + 1) as nat) {
        law_entry_id_is_unique((left + 1) as nat, (right + 1) as nat);
    }
}

/// Different numbers give different identifiers.
pub proof fn law_entry_id_is_unique(left: nat, right: nat)
    requires
        entry_id(left) == entry_id(right),
    ensures
        left == right,
{
    let ending = "-0"@;
    assert(entry_id(left).take(entry_id(left).len() - ending.len()) =~= decimal_text(left));
    assert(entry_id(right).take(entry_id(right).len() - ending.len()) =~= decimal_text(right));
    law_decimal_reads_back(left);
    law_decimal_reads_back(right);
}

/// The flat list of names and values that the pairs of an entry make.
pub open spec fn flat_pairs_text(pairs: Seq<(Seq<char>, Seq<char>)>) -> Seq<char>
    decreases pairs.len(),
{
    if pairs.len() == 0 {
        seq![]
    } else {
        flat_pairs_text(pairs.drop_last()) + bulk_text(pairs.last().0) + bulk_text(pairs.last().1)
    }
}

/// An entry: its identifier, and the flat list of its names and values.
pub open spec fn entry_text(entry: EntryModel) -> Seq<char> {
    header_text('*', 2) + bulk_text(entry.id) + header_text('*', entry.fields.len() * 2)
        + flat_pairs_text(entry.fields)
}

/// Entries, one behind the other.
pub open spec fn entry_texts(entries: Seq<EntryModel>) -> Seq<char>
    decreases entries.len(),
{
    if entries.len() == 0 {
        seq![]
    } else {
        entry_texts(entries.drop_last()) + entry_text(entries.last())
    }
}

/// A list of entries.
pub open spec fn stream_entries_text(entries: Seq<EntryModel>) -> Seq<char> {
    header_text('*', entries.len()) + entry_texts(entries)
}

/// The reply to an `XREAD`: a list of one stream, which is its topic and its entries.
pub open spec fn xread_text(topic: Seq<char>, entries: Seq<EntryModel>) -> Seq<char> {
    header_text('*', 1) + header_text('*', 2) + bulk_text(topic) + stream_entries_text(entries)
}

/// Appends an entry.
fn append_entry(text: &mut String, entry: &StreamEntry)
    ensures
        final(text)@ == old(text)@ + entry_text(entry@),
{
    proof {
        reveal_strlit("*");
    }
    let ghost pairs = pair_texts(entry.fields@);
    append_header(text, "*", 2);
    append_bulk_string(text, entry.id.as_str());
    append_header(text, "*", entry.fields.len() as u128 * 2);
    let ghost start = text@;
    let mut at: usize = 0;
    assert(text@ =~= start + flat_pairs_text(pairs.take(0)));
    while at < entry.fields.len()
        invariant
            at <= entry.fields.len(),
            pairs == pair_texts(entry.fields@),
            text@ == start + flat_pairs_text(pairs.take(at as int)),
        decreases entry.fields.len() - at,
    {
        append_bulk_string(text, entry.fields[at].0.as_str());
        append_bulk_string(text, entry.fields[at].1.as_str());
        proof {
            let upto = pairs.take(at + 1);
            assert(upto.drop_last() =~= pairs.take(at as int));
            assert(upto.last() == pairs[at as int]);
            assert(text@ =~= start + flat_pairs_text(upto));
        }
        at = at + 1;
    }
    assert(pairs.take(at as int) =~= pairs);
    assert(text@ =~= old(text)@ + entry_text(entry@));
}

/// Appends a list of entries.
fn append_stream_entries(text: &mut String, entries: &Vec<StreamEntry>)
    ensures
        final(text)@ == old(text)@ + stream_entries_text(entry_models(entries@)),
{
    proof {
        reveal_strlit("*");
    }
    let ghost models = entry_models(entries@);
    append_header(text, "*", entries.len() as u128);
    let ghost start = text@;
    let mut at: usize = 0;
    assert(text@ =~= start + entry_texts(models.take(0)));
    while at < entries.len()
        invariant
            at <= entries.len(),
            models == entry_models(entries@),
            text@ == start + entry_texts(models.take(at as int)),
        decreases entries.len() - at,
    {
        append_entry(text, &entries[at]);
        proof {
            let upto = models.take(at + 1);
            assert(upto.drop_last() =~= models.take(at as int));
            assert(upto.last() == models[at as int]);
            assert(text@ =~= start + entry_texts(upto));
        }
        at = at + 1;
    }
    assert(models.take(at as int) =~= models);
    assert(text@ =~= old(text)@ + stream_entries_text(models));
}

/// Encodes a list of entries, as `XRANGE` answers.
pub fn encode_stream_entries(entries: &Vec<StreamEntry>) -> (encoded: String)
    ensures
        encoded@ == stream_entries_text(entry_models(entries@)),
{
    let mut encoded = String::new();
    append_stream_entries(&mut encoded, entries);
    assert(encoded@ =~= stream_entries_text(entry_models(entries@)));
    encoded
}

/// Encodes the entries of one stream, as `XREAD` answers.
pub fn encode_xread_response(topic: &str, entries: &Vec<StreamEntry>) -> (encoded: String)
    ensures
        encoded@ == xread_text(topic@, entry_models(entries@)),
{
    proof {
        reveal_strlit("*");
    }
    let mut encoded = String::new();
    append_header(&mut encoded, "*", 1);
    append_header(&mut encoded, "*", 2);
    append_bulk_string(&mut encoded, topic);
    append_stream_entries(&mut encoded, entries);
    assert(encoded@ =~= xread_text(topic@, entry_models(entries@)));
    encoded
}

/// Messages that are emitted once a client subscribes to their topic.
pub type Preloaded = Vec<(String, Vec<String>)>;

/// The preloaded messages of a topic.
pub open spec fn preloaded_for(
    preloaded: Seq<(String, Vec<String>)>,
    topic: Seq<char>,
) -> Seq<Seq<char>> {
    let slot = find_slot(preloaded, topic, 0);
    if slot < preloaded.len() {
        texts(preloaded[slot].1@)
    } else {
        seq![]
    }
}

/// The confirmations of a `SUBSCRIBE`, which count up.
pub open spec fn confirmations_text(topics: Seq<Seq<char>>) -> Seq<char>
    decreases topics.len(),
{
    if topics.len() == 0 {
        seq![]
    } else {
        confirmations_text(topics.drop_last()) + confirmation_text(topics.last(), topics.len())
    }
}

/// The deliveries of some messages to one topic.
pub open spec fn topic_deliveries_text(
    topic: Seq<char>,
    messages: Seq<Seq<char>>,
) -> Seq<char>
    decreases messages.len(),
{
    if messages.len() == 0 {
        seq![]
    } else {
        topic_deliveries_text(topic, messages.drop_last()) + delivery_text(topic, messages.last())
    }
}

/// The deliveries of the preloaded messages of each topic.
pub open spec fn deliveries_text(
    topics: Seq<Seq<char>>,
    preloaded: Seq<(String, Vec<String>)>,
) -> Seq<char>
    decreases topics.len(),
{
    if topics.len() == 0 {
        seq![]
    } else {
        deliveries_text(topics.drop_last(), preloaded) + topic_deliveries_text(
            topics.last(),
            preloaded_for(preloaded, topics.last()),
        )
    }
}

/// Appends the preloaded messages of one topic.
fn append_deliveries(text: &mut String, topic: &str, preloaded: &Preloaded)
    ensures
        final(text)@ == old(text)@ + topic_deliveries_text(
            topic@,
            preloaded_for(preloaded@, topic@),
        ),
{
    let ghost start = text@;
    let slot = slot_of(preloaded, topic);
    if slot < preloaded.len() {
        let messages = &preloaded[slot].1;
        let ghost models = texts(messages@);
        let mut at: usize = 0;
        assert(text@ =~= start + topic_deliveries_text(topic@, models.take(0)));
        while at < messages.len()
            invariant
                at <= messages.len(),
                models == texts(messages@),
                text@ == start + topic_deliveries_text(topic@, models.take(at as int)),
            decreases messages.len() - at,
        {
            text.append(encode_pubsub_message(topic, messages[at].as_str()).as_str());
            proof {
                let upto = models.take(at + 1);
                assert(upto.drop_last() =~= models.take(at as int));
                assert(upto.last() == models[at as int]);
                assert(text@ =~= start + topic_deliveries_text(topic@, upto));
            }
            at = at + 1;
        }
        assert(models.take(at as int) =~= models);
    } else {
        assert(text@ =~= start + topic_deliveries_text(topic@, preloaded_for(preloaded@, topic@)));
    }
}

/// Answers a `SUBSCRIBE`.
fn subscribe_reply(topics: &Vec<String>, preloaded: &Preloaded) -> (reply: String)
    ensures
        reply@ == confirmations_text(texts(topics@)) + deliveries_text(
            texts(topics@),
            preloaded@,
        ),
{
    let ghost models = texts(topics@);
    let mut reply = String::new();
    let mut at: usize = 0;
    assert(reply@ =~= confirmations_text(models.take(0)));
    while at < topics.len()
        invariant
            at <= topics.len(),
            models == texts(topics@),
            reply@ == confirmations_text(models.take(at as int)),
        decreases topics.len() - at,
    {
        reply.append(encode_subscribe_confirmation(topics[at].as_str(), at + 1).as_str());
        proof {
            let upto = models.take(at + 1);
            assert(upto.drop_last() =~= models.take(at as int));
            assert(upto.last() == models[at as int]);
            assert(reply@ =~= confirmations_text(upto));
        }
        at = at + 1;
    }
    assert(models.take(at as int) =~= models);
    let ghost start = reply@;
    at = 0;
    assert(reply@ =~= start + deliveries_text(models.take(0), preloaded@));
    while at < topics.len()
        invariant
            at <= topics.len(),
            models == texts(topics@),
            reply@ == start + deliveries_text(models.take(at as int), preloaded@),
        decreases topics.len() - at,
    {
        append_deliveries(&mut reply, topics[at].as_str(), preloaded);
        proof {
            let upto = models.take(at + 1);
            assert(upto.drop_last() =~= models.take(at as int));
            assert(upto.last() == models[at as int]);
            assert(reply@ =~= start + deliveries_text(upto, preloaded@));
        }
        at = at + 1;
    }
    assert(models.take(at as int) =~= models);
    reply
}

/// The values of field/value pairs.
pub open spec fn pair_values(pairs: Seq<(Seq<char>, Seq<char>)>) -> Seq<Seq<char>> {
    pairs.map_values(|pair: (Seq<char>, Seq<char>)| pair.1)
}

/// Joins the values of field/value pairs with a space.
fn joined_values(fields: &Vec<(String, String)>) -> (joined: String)
    ensures
        joined@ == separated(pair_values(pair_texts(fields@)), " "@),
{
    let ghost values = pair_values(pair_texts(fields@));
    let mut joined = String::new();
    let mut at: usize = 0;
    assert(joined@ =~= separated(values.take(0), " "@));
    while at < fields.len()
        invariant
            at <= fields.len(),
            values == pair_values(pair_texts(fields@)),
            joined@ == separated(values.take(at as int), " "@),
        decreases fields.len() - at,
    {
        if at > 0 {
            joined.append(" ");
        }
        joined.append(fields[at].1.as_str());
        proof {
            let upto = values.take(at + 1);
            assert(upto.drop_last() =~= values.take(at as int));
            assert(upto.last() == fields@[at as int].1@);
            assert(joined@ =~= separated(upto, " "@));
        }
        at = at + 1;
    }
    assert(values.take(at as int) =~= values);
    joined
}

/// What a command is answered and what it publishes.
pub struct Reply {
    /// The encoded answer.
    pub response: String,
    /// The payload that observers of the server are told of.
    pub published: Option<String>,
}

/// The model of a [`Reply`].
pub struct ReplyModel {
    pub response: Seq<char>,
    pub published: Option<Seq<char>>,
}

impl View for Reply {
    type V = ReplyModel;

    open spec fn view(&self) -> ReplyModel {
        ReplyModel { response: self.response@, published: view_opt(self.published) }
    }
}

/// The answer to a command, given the entries of each topic before it.
pub open spec fn response_text(
    command: CommandModel,
    streams: Streams,
    preloaded: Seq<(String, Vec<String>)>,
) -> Seq<char> {
    match command {
        CommandModel::Client { .. } => "+OK\r\n"@,
        CommandModel::Publish { .. } => ":1\r\n"@,
        CommandModel::Xadd { topic, .. } => bulk_text(entry_id(streams(topic).len() + 1)),
        CommandModel::Xrange { topic } => stream_entries_text(streams(topic)),
        CommandModel::Xread { topic, last_seen } => {
            let entries = entries_after(streams(topic), last_seen);
            if entries.len() == 0 {
                "$-1\r\n"@
            } else {
                xread_text(topic, entries)
            }
        },
        CommandModel::Subscribe { topics } => confirmations_text(topics) + deliveries_text(
            topics,
            preloaded,
        ),
        CommandModel::Unknown { .. } => "+OK\r\n"@,
    }
}

/// The payload that observers are told of: that of a `PUBLISH`, or the values of an `XADD`.
pub open spec fn published_text(command: CommandModel) -> Option<Seq<char>> {
    match command {
        CommandModel::Publish { payload, .. } => Some(payload),
        CommandModel::Xadd { fields, .. } => Some(separated(pair_values(fields), " "@)),
        _ => None,
    }
}

/// What a command is answered and what it publishes.
pub open spec fn reply_to(
    command: CommandModel,
    streams: Streams,
    preloaded: Seq<(String, Vec<String>)>,
) -> ReplyModel {
    ReplyModel {
        response: response_text(command, streams, preloaded),
        published: published_text(command),
    }
}

/// What a command leaves in each topic: an `XADD` adds an entry to its topic, and nothing else
/// changes anything.
pub open spec fn streams_after(command: CommandModel, streams: Streams) -> Streams {
    |topic: Seq<char>|
        match command {
            CommandModel::Xadd { topic: added, fields } if added == topic => streams(topic).push(
                EntryModel { id: entry_id(streams(topic).len() + 1), fields },
            ),
            _ => streams(topic),
        }
}

/// Carries out a command.
pub fn execute_command(
    command: Command,
    preloaded: &Preloaded,
    state: &mut StreamState,
) -> (reply: Reply)
    ensures
        reply@ == reply_to(command@, old(state)@, preloaded@),
        final(state)@ == streams_after(command@, old(state)@),
{
    let ghost asked = command@;
    let ghost before = state@;
    let reply = match command {
        Command::Client { args } => Reply { response: "+OK\r\n".to_string(), published: None },
        Command::Publish { topic, payload } => Reply {
            response: ":1\r\n".to_string(),
            published: Some(payload),
        },
        Command::Xadd { topic, fields } => {
            let published = joined_values(&fields);
            let id = state.push(topic.as_str(), fields);
            Reply { response: encode_bulk_string(id.as_str()), published: Some(published) }
        },
        Command::Xrange { topic } => {
            let entries = state.all(topic.as_str());
            Reply { response: encode_stream_entries(&entries), published: None }
        },
        Command::Xread { topic, last_seen } => {
            let entries = state.after(topic.as_str(), last_seen.as_str());
            let response = if entries.len() == 0 {
                "$-1\r\n".to_string()
            } else {
                encode_xread_response(topic.as_str(), &entries)
            };
            Reply { response, published: None }
        },
        Command::Subscribe { topics } => Reply {
            response: subscribe_reply(&topics, preloaded),
            published: None,
        },
        Command::Unknown { name, args } => Reply {
            response: "+OK\r\n".to_string(),
            published: None,
        },
    };
    assert(state@ =~= streams_after(asked, before));
    reply
}

/// An entry that was added is the last of those that an `XRANGE` of its topic lists, and every
/// other topic lists what it listed before.
pub proof fn law_added_entry_is_listed(
    topic: Seq<char>,
    fields: Seq<(Seq<char>, Seq<char>)>,
    streams: Streams,
    other: Seq<char>,
)
    ensures
        ({
            let after = streams_after(CommandModel::Xadd { topic, fields }, streams);
            &&& after(topic).drop_last() == streams(topic)
            &&& after(topic).last().fields == fields
            &&& response_text(CommandModel::Xadd { topic, fields }, streams, seq![]) == bulk_text(
                after(topic).last().id,
            )
            &&& other != topic ==> after(other) == streams(other)
        }),
{
    let after = streams_after(CommandModel::Xadd { topic, fields }, streams);
    assert(after(topic).drop_last() =~= streams(topic));
}

/// Reads a line that holds a number behind a star.
pub open spec fn read_count(bytes: Seq<u8>) -> Option<(nat, Seq<u8>)> {
    match first_line(bytes) {
        Some((line, rest)) => if line.len() > 0 && line[0] == 42 {
            match decimal_value(line.skip(1)) {
                Some(count) => Some((count as nat, rest)),
                None => None,
            }
        } else {
            None
        },
        None => None,
    }
}

/// Reads an entry as a client does: a list of two, its identifier and the list of its names and
/// values.
pub open spec fn read_entry(bytes: Seq<u8>) -> Option<(EntryModel, Seq<u8>)> {
    match read_count(bytes) {
        Some((parts, inside)) => if parts == 2 {
            match bulk_string(inside) {
                ArrayParse::Parsed { tokens: id, rest: behind } => match read_count(behind) {
                    Some((count, listed)) => match bulk_strings(listed, count) {
                        ArrayParse::Parsed { tokens, rest } => Some(
                            (EntryModel { id: id[0], fields: paired(tokens) }, rest),
                        ),
                        _ => None,
                    },
                    None => None,
                },
                _ => None,
            }
        } else {
            None
        },
        None => None,
    }
}

/// Reads so many entries, one behind the other.
pub open spec fn read_entries(bytes: Seq<u8>, count: nat) -> Option<(Seq<EntryModel>, Seq<u8>)>
    decreases count,
{
    if count == 0 {
        Some((seq![], bytes))
    } else {
        match read_entry(bytes) {
            Some((entry, behind)) => match read_entries(behind, (count - 1) as nat) {
                Some((entries, rest)) => Some((seq![entry] + entries, rest)),
                None => None,
            },
            None => None,
        }
    }
}

/// Reads a list of entries as a client does.
pub open spec fn read_list(bytes: Seq<u8>) -> Option<(Seq<EntryModel>, Seq<u8>)> {
    match read_count(bytes) {
        Some((count, inside)) => read_entries(inside, count),
        None => None,
    }
}

/// Whether the lengths of an entry can be told to a client.
pub open spec fn can_be_sent(entry: EntryModel) -> bool {
    &&& encode_utf8(entry.id).len() + 2 <= usize::MAX
    &&& entry.fields.len() * 2 <= usize::MAX
    &&& forall|i: int|
        0 <= i < entry.fields.len() ==> encode_utf8((#[trigger] entry.fields[i]).0).len() + 2
            <= usize::MAX && encode_utf8(entry.fields[i].1).len() + 2 <= usize::MAX
}

/// Whether the lengths of all entries can be told to a client.
pub open spec fn all_can_be_sent(entries: Seq<EntryModel>) -> bool {
    &&& entries.len() <= usize::MAX
    &&& forall|i: int| 0 <= i < entries.len() ==> can_be_sent(#[trigger] entries[i])
}

proof fn lemma_count_reads_back(count: nat, rest: Seq<u8>)
    requires
        count <= usize::MAX,
    ensures
        read_count(encode_utf8(header_text('*', count)) + rest) == Some((count, rest)),
{
    lemma_header_reads_back('*', count, rest);
    law_decimal_reads_back(count);
}

proof fn lemma_bulk_texts_join(left: Seq<Seq<char>>, right: Seq<Seq<char>>)
    ensures
        bulk_texts(left + right) == bulk_texts(left) + bulk_texts(right),
    decreases left.len(),
{
    if left.len() == 0 {
        assert(left + right =~= right);
        assert(bulk_texts(left) + bulk_texts(right) =~= bulk_texts(right));
    } else {
        assert((left + right).skip(1) =~= left.skip(1) + right);
        assert((left + right)[0] == left[0]);
        lemma_bulk_texts_join(left.skip(1), right);
        assert(bulk_texts(left + right) =~= bulk_texts(left) + bulk_texts(right));
    }
}

#[verifier::rlimit(40)]
proof fn lemma_flat_pairs(pairs: Seq<(Seq<char>, Seq<char>)>)
    ensures
        flat_pairs_text(pairs) == bulk_texts(flat_fields(pairs)),
    decreases pairs.len(),
{
    if pairs.len() == 0 {
        assert(flat_fields(pairs) =~= seq![]);
    } else {
        let front = pairs.drop_last();
        let (name, value) = pairs.last();
        let last = seq![name, value];
        lemma_flat_pairs(front);
        assert(flat_fields(pairs) =~= flat_fields(front) + last) by {
            let whole = flat_fields(pairs);
            let parts = flat_fields(front) + last;
            assert(whole.len() == parts.len());
            assert forall|i: int| 0 <= i < whole.len() implies whole[i] == parts[i] by {
                if i < 2 * front.len() {
                    assert(pairs[i / 2] == front[i / 2]);
                } else {
                    assert(i / 2 == front.len());
                }
            }
        }
        lemma_bulk_texts_join(flat_fields(front), last);
        lemma_two_texts(name, value);
        let before = flat_pairs_text(front);
        assert(before + bulk_text(name) + bulk_text(value) =~= before + (bulk_text(name)
            + bulk_text(value)));
    }
}

proof fn lemma_entry_bytes(entry: EntryModel, rest: Seq<u8>)
    ensures
        encode_utf8(entry_text(entry)) + rest == encode_utf8(header_text('*', 2)) + (encode_utf8(
            bulk_text(entry.id),
        ) + (encode_utf8(header_text('*', entry.fields.len() * 2)) + (encode_utf8(
            flat_pairs_text(entry.fields),
        ) + rest))),
{
    let outer = header_text('*', 2);
    let id = bulk_text(entry.id);
    let inner = header_text('*', entry.fields.len() * 2);
    let flat = flat_pairs_text(entry.fields);
    law_encoding_concatenates(outer, id);
    law_encoding_concatenates(outer + id, inner);
    law_encoding_concatenates(outer + id + inner, flat);
    let (a, b, c, d) = (encode_utf8(outer), encode_utf8(id), encode_utf8(inner), encode_utf8(flat));
    assert(a + b + c + d + rest =~= a + (b + (c + (d + rest))));
}

proof fn lemma_flat_fields_can_be_sent(entry: EntryModel)
    requires
        can_be_sent(entry),
    ensures
        paired(flat_fields(entry.fields)) == entry.fields,
        forall|i: int|
            0 <= i < flat_fields(entry.fields).len() ==> encode_utf8(
                #[trigger] flat_fields(entry.fields)[i],
            ).len() + 2 <= usize::MAX,
{
    let tokens = flat_fields(entry.fields);
    assert(paired(tokens) =~= entry.fields);
    assert forall|i: int| 0 <= i < tokens.len() implies encode_utf8(#[trigger] tokens[i]).len() + 2
        <= usize::MAX by {
        let field = entry.fields[i / 2];
        assert(tokens[i] == field.0 || tokens[i] == field.1);
    }
}

#[verifier::rlimit(40)]
proof fn lemma_entry_reads_back(entry: EntryModel, rest: Seq<u8>)
    requires
        can_be_sent(entry),
    ensures
        read_entry(encode_utf8(entry_text(entry)) + rest) == Some((entry, rest)),
{
    let count = entry.fields.len() * 2;
    let tokens = flat_fields(entry.fields);
    let listed = encode_utf8(flat_pairs_text(entry.fields)) + rest;
    let behind = encode_utf8(header_text('*', count)) + listed;
    let inside = encode_utf8(bulk_text(entry.id)) + behind;
    lemma_entry_bytes(entry, rest);
    lemma_count_reads_back(2, inside);
    law_bulk_string_reads_back(entry.id, behind);
    lemma_count_reads_back(count, listed);
    lemma_flat_pairs(entry.fields);
    lemma_flat_fields_can_be_sent(entry);
    lemma_bulk_strings_read_back(tokens, rest);
    assert(bulk_strings(listed, count) == (ArrayParse::Parsed { tokens, rest }));
    assert(seq![entry.id][0] == entry.id);
}

proof fn lemma_first_entry_text(entries: Seq<EntryModel>)
    requires
        entries.len() > 0,
    ensures
        entry_texts(entries) == entry_text(entries[0]) + entry_texts(entries.skip(1)),
    decreases entries.len(),
{
    let tail = entries.skip(1);
    if entries.len() == 1 {
        assert(entries.drop_last() =~= seq![]);
        assert(tail =~= seq![]);
        assert(entry_texts(entries) =~= entry_text(entries[0]) + entry_texts(tail));
    } else {
        lemma_first_entry_text(entries.drop_last());
        assert(entries.drop_last().skip(1) =~= tail.drop_last());
        assert(entries.drop_last()[0] == entries[0]);
        assert(tail.last() == entries.last());
        assert(entry_texts(entries) =~= entry_text(entries[0]) + entry_texts(tail));
    }
}

proof fn lemma_entries_read_back(entries: Seq<EntryModel>, rest: Seq<u8>)
    requires
        forall|i: int| 0 <= i < entries.len() ==> can_be_sent(#[trigger] entries[i]),
    ensures
        read_entries(encode_utf8(entry_texts(entries)) + rest, entries.len()) == Some(
            (entries, rest),
        ),
    decreases entries.len(),
{
    if entries.len() == 0 {
        assert(encode_utf8(entry_texts(entries)) + rest =~= rest);
        assert(entries =~= seq![]);
    } else {
        let tail = entries.skip(1);
        assert forall|i: int| 0 <= i < tail.len() implies can_be_sent(#[trigger] tail[i]) by {
            assert(tail[i] == entries[i + 1]);
        }
        let behind = encode_utf8(entry_texts(tail)) + rest;
        lemma_first_entry_text(entries);
        law_encoding_concatenates(entry_text(entries[0]), entry_texts(tail));
        assert(encode_utf8(entry_texts(entries)) + rest =~= encode_utf8(entry_text(entries[0]))
            + behind);
        lemma_entry_reads_back(entries[0], behind);
        lemma_entries_read_back(tail, rest);
        assert(seq![entries[0]] + tail =~= entries);
    }
}

proof fn lemma_list_reads_back(entries: Seq<EntryModel>, rest: Seq<u8>)
    requires
        all_can_be_sent(entries),
    ensures
        read_list(encode_utf8(stream_entries_text(entries)) + rest) == Some((entries, rest)),
{
    let header = header_text('*', entries.len());
    let inside = encode_utf8(entry_texts(entries)) + rest;
    law_encoding_concatenates(header, entry_texts(entries));
    assert(encode_utf8(stream_entries_text(entries)) + rest =~= encode_utf8(header) + inside);
    lemma_count_reads_back(entries.len(), inside);
    lemma_entries_read_back(entries, rest);
}

/// A list of entries is read back by a client as these entries, all of them and in order, each with
/// its identifier and its fields, and nothing is left behind it.
pub proof fn law_encoded_entries_read_back(entries: Vec<StreamEntry>, encoded: String)
    requires
        call_ensures(encode_stream_entries, (&entries,), encoded),
        all_can_be_sent(entry_models(entries@)),
    ensures
        read_list(encode_utf8(encoded@)) == Some((entry_models(entries@), Seq::<u8>::empty())),
{
    lemma_list_reads_back(entry_models(entries@), seq![]);
    assert(encode_utf8(encoded@) + seq![] =~= encode_utf8(encoded@));
}

/// The answer to an `XREAD` is read back by a client as a list of one stream, that is a list of two:
/// the topic, and its entries, all of them and in order.
pub proof fn law_encoded_stream_reads_back(
    topic: &str,
    entries: Vec<StreamEntry>,
    encoded: String,
)
    requires
        call_ensures(encode_xread_response, (topic, &entries), encoded),
        topic.spec_bytes().len() + 2 <= usize::MAX,
        all_can_be_sent(entry_models(entries@)),
    ensures
        ({
            &&& read_count(encode_utf8(encoded@)) matches Some((streams, stream))
            &&& streams == 1
            &&& read_count(stream) matches Some((parts, inside))
            &&& parts == 2
            &&& bulk_string(inside) matches ArrayParse::Parsed { tokens, rest }
            &&& tokens == seq![topic@]
            &&& read_list(rest) == Some((entry_models(entries@), Seq::<u8>::empty()))
        }),
{
    lemma_stream_reads_back(topic@, entry_models(entries@));
}

#[verifier::rlimit(40)]
proof fn lemma_stream_reads_back(topic: Seq<char>, entries: Seq<EntryModel>)
    requires
        encode_utf8(topic).len() + 2 <= usize::MAX,
        all_can_be_sent(entries),
    ensures
        ({
            &&& read_count(encode_utf8(xread_text(topic, entries))) matches Some((streams, stream))
            &&& streams == 1
            &&& read_count(stream) matches Some((parts, inside))
            &&& parts == 2
            &&& bulk_string(inside) matches ArrayParse::Parsed { tokens, rest }
            &&& tokens == seq![topic]
            &&& read_list(rest) == Some((entries, Seq::<u8>::empty()))
        }),
{
    let one = header_text('*', 1);
    let two = header_text('*', 2);
    let name = bulk_text(topic);
    let list = stream_entries_text(entries);
    law_encoding_concatenates(one, two);
    law_encoding_concatenates(one + two, name);
    law_encoding_concatenates(one + two + name, list);
    let rest = encode_utf8(list) + seq![];
    let inside = encode_utf8(name) + rest;
    let stream = encode_utf8(two) + inside;
    assert(encode_utf8(xread_text(topic, entries)) =~= encode_utf8(one) + stream);
    lemma_count_reads_back(1, stream);
    lemma_count_reads_back(2, inside);
    law_bulk_string_reads_back(topic, rest);
    lemma_list_reads_back(entries, seq![]);
}

/// What is pushed to a topic is listed behind all that was listed before, with the next number of the
/// topic as its identifier and with its fields as they are. Other topics list what they listed.
#[verifier::rlimit(40)]
pub proof fn law_pushed_entry_is_listed_last(
    state: &mut StreamState,
    topic: &str,
    fields: Vec<(String, String)>,
    id: String,
    other: &str,
    before: Vec<StreamEntry>,
    after: Vec<StreamEntry>,
)
    requires
        call_ensures(StreamState::push, (state, topic, fields), id),
        call_ensures(StreamState::all, (state, other), before),
        call_ensures(StreamState::all, (final(state), other), after),
    ensures
        other@ != topic@ ==> entry_models(after@) == entry_models(before@),
        other@ == topic@ ==> {
            &&& after@.len() == before@.len() + 1
            &&& forall|i: int| 0 <= i < before@.len() ==> (#[trigger] after@[i])@ == before@[i]@
            &&& after@.last().id@ == id@
            &&& id@ == decimal_text((before@.len() + 1) as nat) + seq!['-', '0']
            &&& after@.last().fields@.len() == fields@.len()
            &&& forall|i: int|
                0 <= i < fields@.len() ==> (#[trigger] after@.last().fields@[i]).0@ == fields@[i].0@
                    && after@.last().fields@[i].1@ == fields@[i].1@
        },
{
    reveal_strlit("-0");
    assert("-0"@ =~= seq!['-', '0']);
    if other@ == topic@ {
        let earlier = entry_models(before@);
        let later = entry_models(after@);
        assert(earlier.len() == before@.len() && later.len() == after@.len());
        assert forall|i: int| 0 <= i < before@.len() implies (#[trigger] after@[i])@
            == before@[i]@ by {
            assert(later[i] == after@[i]@);
            assert(earlier[i] == before@[i]@);
        }
        let last = after@.last();
        assert(later.last() == last@);
        assert(pair_texts(last.fields@) == pair_texts(fields@));
        assert(pair_texts(last.fields@).len() == last.fields@.len());
        assert(pair_texts(fields@).len() == fields@.len());
        assert forall|i: int| 0 <= i < fields@.len() implies (#[trigger] last.fields@[i]).0@
            == fields@[i].0@ && last.fields@[i].1@ == fields@[i].1@ by {
            assert(pair_texts(last.fields@)[i] == (last.fields@[i].0@, last.fields@[i].1@));
            assert(pair_texts(fields@)[i] == (fields@[i].0@, fields@[i].1@));
        }
    }
}

/// An `XADD` followed by an `XRANGE`, whatever the topics and the fields: the added entry is answered
/// with its identifier, the next number of its topic, and observers are told of its values with a
/// space between them. The `XRANGE` is answered with all the entries of its topic, in order, the added
/// one last if it is the same topic.
#[verifier::rlimit(40)]
pub proof fn law_added_entry_is_answered_and_listed(
    preloaded: Preloaded,
    state: &mut StreamState,
    topic: String,
    fields: Vec<(String, String)>,
    added: Reply,
    next: &mut StreamState,
    asked: String,
    listed: Reply,
)
    requires
        call_ensures(
            execute_command,
            (Command::Xadd { topic, fields }, &preloaded, state),
            added,
        ),
        *next == *final(state),
        call_ensures(
            execute_command,
            (Command::Xrange { topic: asked }, &preloaded, next),
            listed,
        ),
        all_can_be_sent(final(state).entries(asked@)),
        all_can_be_sent(final(state).entries(topic@)),
    ensures
        ({
            let number = (old(state).entries(topic@).len() + 1) as nat;
            let id = decimal_text(number) + seq!['-', '0'];
            let entry = EntryModel { id, fields: pair_texts(fields@) };
            &&& bulk_string(encode_utf8(added.response@)) == (ArrayParse::Parsed {
                tokens: seq![id],
                rest: seq![],
            })
            &&& added.published matches Some(payload) && payload@ == separated(
                Seq::new(fields@.len(), |i: int| fields@[i].1@),
                seq![' '],
            )
            &&& listed.published is None
            &&& read_list(encode_utf8(listed.response@)) == Some(
                (
                    if asked@ == topic@ {
                        old(state).entries(topic@).push(entry)
                    } else {
                        old(state).entries(asked@)
                    },
                    Seq::<u8>::empty(),
                ),
            )
            &&& final(next)@ == final(state)@
        }),
{
    reveal_strlit("-0");
    reveal_strlit(" ");
    assert("-0"@ =~= seq!['-', '0']);
    assert(" "@ =~= seq![' ']);
    let number = (old(state).entries(topic@).len() + 1) as nat;
    let id = decimal_text(number) + seq!['-', '0'];
    let entry = EntryModel { id, fields: pair_texts(fields@) };
    assert(id == entry_id(number));
    let streams = final(state)@;
    assert(streams(topic@) == old(state)@(topic@).push(entry));
    assert(final(state).entries(topic@) == old(state).entries(topic@).push(entry));
    assert(streams(asked@) == final(state).entries(asked@));
    assert(final(state).entries(topic@).last() == entry);
    assert(can_be_sent(final(state).entries(topic@)[old(state).entries(topic@).len() as int]));
    law_bulk_string_reads_back(id, seq![]);
    assert(encode_utf8(added.response@) + seq![] =~= encode_utf8(added.response@));
    assert(pair_values(pair_texts(fields@)) =~= Seq::new(fields@.len(), |i: int| fields@[i].1@));
    lemma_list_reads_back(final(state).entries(asked@), seq![]);
    assert(encode_utf8(listed.response@) + seq![] =~= encode_utf8(listed.response@));
    assert(final(next)@ =~= final(state)@);
}

/// A `PUBLISH` is answered with the number one, and observers are told of its payload, whatever it
/// is; a `CLIENT` and an unknown command are answered with "OK". None of these, nor a `SUBSCRIBE`, an
/// `XRANGE` or an `XREAD`, changes any stream, and of all commands only a `PUBLISH` and an `XADD` are
/// told to observers.
pub proof fn law_commands_without_an_entry_change_nothing(
    preloaded: Preloaded,
    state: &mut StreamState,
    command: Command,
    reply: Reply,
)
    requires
        call_ensures(execute_command, (command, &preloaded, state), reply),
    ensures
        command matches Command::Publish { payload, .. } ==> reply.response@ == seq![
            ':',
            '1',
            '\r',
            '\n',
        ] && (reply.published matches Some(told) && told@ == payload@),
        command is Client || command is Unknown ==> reply.response@ == seq![
            '+',
            'O',
            'K',
            '\r',
            '\n',
        ],
        reply.published is Some <==> command is Publish || command is Xadd,
        !(command is Xadd) ==> forall|topic: Seq<char>| #[trigger]
            final(state).entries(topic) == old(state).entries(topic),
{
    reveal_strlit(":1\r\n");
    reveal_strlit("+OK\r\n");
    assert(":1\r\n"@ =~= seq![':', '1', '\r', '\n']);
    assert("+OK\r\n"@ =~= seq!['+', 'O', 'K', '\r', '\n']);
    if !(command is Xadd) {
        assert forall|topic: Seq<char>| #[trigger] final(state).entries(topic) == old(
            state,
        ).entries(topic) by {
            assert(final(state)@(topic) == old(state)@(topic));
        }
    }
}

/// One text stands behind another in byte order exactly if, behind what both begin with, it goes on
/// where the other ends, or goes on with a larger byte.
pub proof fn law_later_is_later_in_byte_order(left: Seq<u8>, right: Seq<u8>)
    ensures
        is_later(left, right) <==> exists|len: int|
            {
                &&& 0 <= len < left.len() && len <= right.len()
                &&& #[trigger] left.take(len) == right.take(len)
                &&& len == right.len() || left[len] > right[len]
            },
    decreases left.len(),
{
    if left.len() > 0 && right.len() > 0 {
        let (l, r) = (left.drop_first(), right.drop_first());
        law_later_is_later_in_byte_order(l, r);
        if is_later(left, right) {
            if left[0] != right[0] {
                assert(left.take(0) =~= right.take(0));
            } else {
                let len = choose|len: int|
                    {
                        &&& 0 <= len < l.len() && len <= r.len()
                        &&& #[trigger] l.take(len) == r.take(len)
                        &&& len == r.len() || l[len] > r[len]
                    };
                assert(left.take(len + 1) =~= seq![left[0]] + l.take(len));
                assert(right.take(len + 1) =~= seq![right[0]] + r.take(len));
                assert(left.take(len + 1) == right.take(len + 1));
            }
        }
        if exists|len: int|
            {
                &&& 0 <= len < left.len() && len <= right.len()
                &&& #[trigger] left.take(len) == right.take(len)
                &&& len == right.len() || left[len] > right[len]
            } {
            let len = choose|len: int|
                {
                    &&& 0 <= len < left.len() && len <= right.len()
                    &&& #[trigger] left.take(len) == right.take(len)
                    &&& len == right.len() || left[len] > right[len]
                };
            if len > 0 {
                assert(left.take(len)[0] == right.take(len)[0]);
                assert(l.take(len - 1) =~= left.take(len).skip(1));
                assert(r.take(len - 1) =~= right.take(len).skip(1));
                assert(l.take(len - 1) == r.take(len - 1));
            }
        }
    } else if left.len() > 0 {
        assert(left.take(0) =~= right.take(0));
    }
}

proof fn lemma_filtered_places(
    entries: Seq<EntryModel>,
    keep: spec_fn(EntryModel) -> bool,
) -> (places: Seq<int>)
    ensures
        places.len() == entries.filter(keep).len(),
        forall|k: int, l: int|
            0 <= k < l < places.len() ==> #[trigger] places[k] < #[trigger] places[l],
        forall|k: int| 0 <= k < places.len() ==> 0 <= #[trigger] places[k] < entries.len(),
        forall|k: int|
            0 <= k < places.len() ==> entries.filter(keep)[k] == entries[#[trigger] places[k]],
        forall|i: int| #[trigger] places.contains(i) <==> 0 <= i < entries.len() && keep(
            entries[i],
        ),
    decreases entries.len(),
{
    reveal(Seq::filter);
    if entries.len() == 0 {
        Seq::empty()
    } else {
        let front = entries.drop_last();
        let last = entries.len() - 1;
        let earlier = lemma_filtered_places(front, keep);
        let places = if keep(entries.last()) {
            earlier.push(last)
        } else {
            earlier
        };
        assert forall|k: int| 0 <= k < places.len() implies entries.filter(keep)[k]
            == entries[#[trigger] places[k]] by {
            if k < earlier.len() {
                assert(places[k] == earlier[k]);
                assert(front[earlier[k]] == entries[earlier[k]]);
            }
        }
        assert forall|i: int| #[trigger] places.contains(i) <==> 0 <= i < entries.len() && keep(
            entries[i],
        ) by {
            if places.contains(i) {
                let k = choose|k: int| 0 <= k < places.len() && places[k] == i;
                if k < earlier.len() {
                    assert(earlier[k] == i);
                    assert(earlier.contains(i));
                    assert(front[i] == entries[i]);
                }
            }
            if 0 <= i < entries.len() && keep(entries[i]) {
                if i < last {
                    assert(front[i] == entries[i]);
                    assert(earlier.contains(i));
                    let k = choose|k: int| 0 <= k < earlier.len() && earlier[k] == i;
                    assert(places[k] == i);
                } else {
                    assert(places[places.len() - 1] == last);
                }
            }
        }
        places
    }
}

/// A reader who has seen some identifier is given exactly the entries with a later one, in order,
/// and each of them as it is listed. A reader who asks from `$` on is given the newest entry alone.
#[verifier::rlimit(40)]
pub proof fn law_reader_is_given_what_is_later(
    state: StreamState,
    topic: &str,
    last_seen: &str,
    all: Vec<StreamEntry>,
    given: Vec<StreamEntry>,
)
    requires
        call_ensures(StreamState::all, (&state, topic), all),
        call_ensures(StreamState::after, (&state, topic, last_seen), given),
    ensures
        last_seen@ == seq!['$'] ==> if all@.len() == 0 {
            given@.len() == 0
        } else {
            given@.len() == 1 && given@[0]@ == all@.last()@
        },
        last_seen@ != seq!['$'] ==> exists|places: Seq<int>|
            {
                &&& #[trigger] places.len() == given@.len()
                &&& forall|k: int, l: int|
                    0 <= k < l < places.len() ==> #[trigger] places[k] < #[trigger] places[l]
                &&& forall|i: int| #[trigger]
                    places.contains(i) <==> 0 <= i < all@.len() && is_later(
                        encode_utf8(all@[i].id@),
                        encode_utf8(last_seen@),
                    )
                &&& forall|k: int|
                    0 <= k < places.len() ==> (#[trigger] given@[k])@ == all@[places[k]]@
            },
{
    reveal_strlit("$");
    assert("$"@ =~= seq!['$']);
    let listed = entry_models(all@);
    let models = entry_models(given@);
    assert(listed.len() == all@.len() && models.len() == given@.len());
    if last_seen@ == seq!['$'] {
        if all@.len() > 0 {
            assert(models[0] == given@[0]@);
            assert(listed.last() == all@.last()@);
        }
    } else {
        let keep = |entry: EntryModel| is_later(encode_utf8(entry.id), encode_utf8(last_seen@));
        assert(models == listed.filter(keep));
        let places = lemma_filtered_places(listed, keep);
        assert forall|i: int| #[trigger]
            places.contains(i) <==> 0 <= i < all@.len() && is_later(
                encode_utf8(all@[i].id@),
                encode_utf8(last_seen@),
            ) by {
            if 0 <= i < all@.len() {
                assert(listed[i] == all@[i]@);
            }
        }
        assert forall|k: int| 0 <= k < places.len() implies (#[trigger] given@[k])@
            == all@[places[k]]@ by {
            assert(models[k] == given@[k]@);
            assert(listed[places[k]] == all@[places[k]]@);
        }
        assert(places.len() == given@.len());
    }
}

/// An `XREAD` is answered with the entries that its reader is given: the topic and all of them, in
/// order, where there are any, and the absence of a value where there are none.
pub proof fn law_xread_is_answered_with_what_is_later(
    preloaded: Preloaded,
    state: &mut StreamState,
    topic: String,
    last_seen: String,
    asked: &str,
    seen: &str,
    given: Vec<StreamEntry>,
    reply: Reply,
)
    requires
        asked@ == topic@,
        seen@ == last_seen@,
        call_ensures(StreamState::after, (state, asked, seen), given),
        call_ensures(
            execute_command,
            (Command::Xread { topic, last_seen }, &preloaded, state),
            reply,
        ),
        encode_utf8(topic@).len() + 2 <= usize::MAX,
        all_can_be_sent(entry_models(given@)),
    ensures
        given@.len() == 0 ==> reply.response@ == seq!['$', '-', '1', '\r', '\n'],
        given@.len() > 0 ==> {
            &&& read_count(encode_utf8(reply.response@)) matches Some((streams, stream))
            &&& streams == 1
            &&& read_count(stream) matches Some((parts, inside))
            &&& parts == 2
            &&& bulk_string(inside) matches ArrayParse::Parsed { tokens, rest }
            &&& tokens == seq![topic@]
            &&& read_list(rest) == Some((entry_models(given@), Seq::<u8>::empty()))
        },
{
    reveal_strlit("$-1\r\n");
    assert("$-1\r\n"@ =~= seq!['$', '-', '1', '\r', '\n']);
    assert(entry_models(given@).len() == given@.len());
    assert(old(state)@(topic@) == old(state).entries(topic@));
    lemma_stream_reads_back(topic@, entry_models(given@));
}

/// A `SUBSCRIBE` confirms every topic and then delivers what is preloaded: with a further topic the
/// answer has a further confirmation, which counts that topic, and then, behind the deliveries of the
/// other topics, those of that topic.
#[verifier::rlimit(40)]
pub proof fn law_every_topic_is_confirmed_and_served(
    preloaded: Preloaded,
    state: &mut StreamState,
    topics: Vec<String>,
    fewer: Reply,
    same_state: &mut StreamState,
    more: Vec<String>,
    reply: Reply,
)
    requires
        more@.len() == topics@.len() + 1,
        forall|i: int| 0 <= i < topics@.len() ==> (#[trigger] more@[i])@ == topics@[i]@,
        call_ensures(execute_command, (Command::Subscribe { topics }, &preloaded, state), fewer),
        call_ensures(
            execute_command,
            (Command::Subscribe { topics: more }, &preloaded, same_state),
            reply,
        ),
    ensures
        topics@.len() == 0 ==> fewer.response@ == Seq::<char>::empty(),
        exists|confirmed: Seq<char>, delivered: Seq<char>|
            {
                &&& fewer.response@ == #[trigger] (confirmed + delivered)
                &&& reply.response@ == confirmed + confirmation_text(
                    more@.last()@,
                    more@.len() as nat,
                ) + delivered + topic_deliveries_text(
                    more@.last()@,
                    preloaded_for(preloaded@, more@.last()@),
                )
            },
{
    let few = texts(topics@);
    let many = texts(more@);
    assert(many.drop_last() =~= few) by {
        assert forall|i: int| 0 <= i < few.len() implies many[i] == few[i] by {
            assert(many[i] == more@[i]@);
            assert(few[i] == topics@[i]@);
        }
    }
    assert(many.last() == more@.last()@);
    let confirmed = confirmations_text(few);
    let delivered = deliveries_text(few, preloaded@);
    assert(fewer.response@ == confirmed + delivered);
    assert(reply.response@ =~= confirmed + confirmation_text(more@.last()@, more@.len() as nat)
        + delivered + topic_deliveries_text(
        more@.last()@,
        preloaded_for(preloaded@, more@.last()@),
    ));
    if topics@.len() == 0 {
        assert(fewer.response@ =~= seq![]);
    }
}

/// Every preloaded message of a topic is delivered, once and in order: with a further message there is
/// a further delivery at the end, and with none there is nothing. The messages of a topic are those of
/// its first slot.
pub proof fn law_every_preloaded_message_is_delivered(
    topic: Seq<char>,
    messages: Seq<Seq<char>>,
    message: Seq<char>,
    preloaded: Preloaded,
    slot: int,
)
    requires
        0 <= slot <= preloaded@.len(),
        slot < preloaded@.len() ==> preloaded@[slot].0@ == topic,
        forall|i: int| 0 <= i < slot ==> (#[trigger] preloaded@[i]).0@ != topic,
    ensures
        topic_deliveries_text(topic, seq![]) == Seq::<char>::empty(),
        topic_deliveries_text(topic, messages.push(message)) == topic_deliveries_text(
            topic,
            messages,
        ) + delivery_text(topic, message),
        slot == preloaded@.len() ==> preloaded_for(preloaded@, topic) == Seq::<
            Seq<char>,
        >::empty(),
        slot < preloaded@.len() ==> preloaded_for(preloaded@, topic).len()
            == preloaded@[slot].1@.len() && forall|i: int|
            0 <= i < preloaded@[slot].1@.len() ==> #[trigger] preloaded_for(preloaded@, topic)[i]
                == preloaded@[slot].1@[i]@,
{
    assert(messages.push(message).drop_last() =~= messages);
    lemma_find_slot(preloaded@, topic, 0);
    let found = find_slot(preloaded@, topic, 0);
    if found < slot {
        assert(preloaded@[found].0@ != topic);
    } else if slot < found {
        assert(preloaded@[slot].0@ != topic);
    }
}

/// A new server lists no entry of any topic, and has none to give to a reader.
pub proof fn law_new_server_has_no_entries(
    state: StreamState,
    topic: &str,
    last_seen: &str,
    all: Vec<StreamEntry>,
    given: Vec<StreamEntry>,
)
    requires
        call_ensures(StreamState::new, (), state),
        call_ensures(StreamState::all, (&state, topic), all),
        call_ensures(StreamState::after, (&state, topic, last_seen), given),
    ensures
        all@.len() == 0,
        given@.len() == 0,
{
    reveal(Seq::filter);
    assert(entry_models(all@).len() == all@.len());
    assert(entry_models(given@).len() == given@.len());
}

} // verus!
