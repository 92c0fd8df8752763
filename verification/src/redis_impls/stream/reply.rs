//! Replies to `XRANGE` and `XREAD`, taken over from the Redis client.
use redis::streams::StreamRangeReply;
use redis::FromRedisValue;
use vstd::prelude::*;

use super::StreamId;
use crate::error::PubSubError;
use crate::queue::Queue;
use crate::redis_impls::value::{client_form, from_client, RedisValue, ReplyForm};

verus! {

/// The fields of an entry, by name.
pub type FieldForms = Map<Seq<char>, ReplyForm>;

/// The contents of a stream entry.
pub struct EntryForm {
    pub id: Seq<char>,
    pub fields: FieldForms,
}

/// An identifier, and field/value pairs that the Redis client holds.
pub type ClientEntry = (String, Vec<(String, redis::Value)>);

/// The rows that the client reads in the contents of an `XRANGE` reply, if it can: each has the
/// fields of its entries by their identifiers.
pub uninterp spec fn range_rows(reply: ReplyForm) -> Option<Seq<Map<Seq<char>, FieldForms>>>;

/// Whether these are the entries of a row, each once and in any order.
pub open spec fn lists_row(row: Map<Seq<char>, FieldForms>, entries: Seq<EntryForm>) -> bool {
    &&& forall|i: int, j: int|
        0 <= i < j < entries.len() ==> (#[trigger] entries[i]).id != (#[trigger] entries[j]).id
    &&& forall|i: int|
        0 <= i < entries.len() ==> row.contains_key((#[trigger] entries[i]).id)
            && row[entries[i].id] == entries[i].fields
    &&& forall|id: Seq<char>| #[trigger]
        row.contains_key(id) ==> exists|i: int|
            0 <= i < entries.len() && (#[trigger] entries[i]).id == id
}

/// Whether these are the entries of the rows, row by row.
pub open spec fn lists_rows(
    rows: Seq<Map<Seq<char>, FieldForms>>,
    entries: Seq<EntryForm>,
) -> bool
    decreases rows.len(),
{
    if rows.len() == 0 {
        entries.len() == 0
    } else {
        exists|at: int|
            {
                &&& 0 <= at <= entries.len()
                &&& #[trigger] lists_rows(rows.drop_last(), entries.take(at))
                &&& lists_row(rows.last(), entries.skip(at))
            }
    }
}

/// Whether field/value pairs are these fields, each once and in any order.
pub open spec fn lists_entry(pairs: Seq<(Seq<char>, ReplyForm)>, fields: FieldForms) -> bool {
    &&& forall|i: int, j: int|
        0 <= i < j < pairs.len() ==> (#[trigger] pairs[i]).0 != (#[trigger] pairs[j]).0
    &&& forall|i: int|
        0 <= i < pairs.len() ==> fields.contains_key((#[trigger] pairs[i]).0) && fields[pairs[i].0]
            == pairs[i].1
    &&& forall|name: Seq<char>| #[trigger]
        fields.contains_key(name) ==> exists|i: int|
            0 <= i < pairs.len() && (#[trigger] pairs[i]).0 == name
}

/// The contents of field/value pairs that the Redis client holds.
pub open spec fn client_fields(fields: Seq<(String, redis::Value)>) -> Seq<(Seq<char>, ReplyForm)> {
    fields.map_values(|field: (String, redis::Value)| (field.0@, client_form(field.1)))
}

/// The contents of the field/value pairs of an entry.
pub open spec fn entry_contents(entry: StreamId) -> Seq<(Seq<char>, ReplyForm)> {
    Seq::new(entry.map@.len(), |i: int| (entry.map@[i].0@, entry.map@[i].1@))
}

/// Whether an entry that the Redis client holds has these contents.
pub open spec fn client_has_form(entry: ClientEntry, form: EntryForm) -> bool {
    entry.0@ == form.id && lists_entry(client_fields(entry.1@), form.fields)
}

/// Whether entries that the Redis client holds are those of the rows, row by row.
pub open spec fn client_lists_rows(
    rows: Seq<Map<Seq<char>, FieldForms>>,
    entries: Seq<ClientEntry>,
) -> bool {
    exists|forms: Seq<EntryForm>|
        {
            &&& #[trigger] lists_rows(rows, forms)
            &&& entries.len() == forms.len()
            &&& forall|i: int|
                0 <= i < entries.len() ==> client_has_form(#[trigger] entries[i], forms[i])
        }
}

/// Reads the entries of an `XRANGE` reply.
///
/// Trusts the conversion of [`StreamRangeReply`] from a reply value: which rows it reads depends on
/// the contents of the value alone, and its entries are those of the rows, row by row. Rows and
/// entries are hash maps, so nothing is said of the order of several entries in one row and of the
/// fields in an entry; nor is anything said of the error.
#[verifier::external_body]
fn read_range(reply: redis::Value) -> (read: Result<Vec<ClientEntry>, redis::ParsingError>)
    ensures
        match read {
            Ok(entries) => range_rows(client_form(reply)) matches Some(rows) && client_lists_rows(
                rows,
                entries@,
            ),
            Err(_) => range_rows(client_form(reply)) is None,
        },
{
    let reply = StreamRangeReply::from_redis_value(reply)?;
    Ok(reply.ids.into_iter().map(|entry| (entry.id, Vec::from_iter(entry.map))).collect())
}

/// Whether an entry has these contents.
pub open spec fn has_form(entry: StreamId, form: EntryForm) -> bool {
    entry.id@ == form.id && lists_entry(entry_contents(entry), form.fields)
}

/// Takes over a stream entry from the Redis client.
pub fn from_client_entry(id: String, fields: Vec<(String, redis::Value)>) -> (entry: StreamId)
    ensures
        entry.id@ == id@,
        entry_contents(entry) == client_fields(fields@),
{
    let ghost wanted = client_fields(fields@);
    let mut left = Queue::new(fields);
    let mut map: Vec<(String, RedisValue)> = Vec::new();
    assert(fields@.skip(0) =~= fields@);
    while left.len() > 0
        invariant
            map@.len() <= fields@.len(),
            left@ == fields@.skip(map@.len() as int),
            wanted == client_fields(fields@),
            forall|i: int|
                0 <= i < map@.len() ==> ((#[trigger] map@[i]).0@, map@[i].1@) == wanted[i],
        decreases left@.len(),
    {
        let ghost done = map@.len() as int;
        let (name, value) = left.take();
        assert((name, value) == fields@[done]);
        map.push((name, from_client(value)));
        assert(left@ =~= fields@.skip(done + 1));
    }
    let entry = StreamId { id, map };
    assert(entry_contents(entry) =~= wanted);
    entry
}

/// Whether these are entries with these contents, one by one and in order.
pub open spec fn have_forms(entries: Seq<StreamId>, forms: Seq<EntryForm>) -> bool {
    &&& entries.len() == forms.len()
    &&& forall|i: int| 0 <= i < entries.len() ==> has_form(#[trigger] entries[i], forms[i])
}

/// Whether an error says why the client cannot read this `XRANGE` reply.
pub closed spec fn explains_reply(reply: redis::Value, err: PubSubError) -> bool {
    exists|cause: redis::ParsingError|
        #[trigger] call_ensures(read_range, (reply,), Err(cause)) && err.captures(cause)
}

/// Whether reading an `XRANGE` reply may come to this: its entries, in the order of its rows, or an
/// error where the client cannot read it.
pub open spec fn reads_range(
    reply: redis::Value,
    read: Result<Vec<StreamId>, PubSubError>,
) -> bool {
    match (range_rows(client_form(reply)), read) {
        (Some(rows), Ok(entries)) => exists|forms: Seq<EntryForm>| #[trigger]
            lists_rows(rows, forms) && have_forms(entries@, forms),
        (None, Err(err)) => err.cause() is Some && explains_reply(reply, err),
        _ => false,
    }
}

/// Reads the entries of an `XRANGE` reply.
pub fn read_range_reply(reply: redis::Value) -> (read: Result<Vec<StreamId>, PubSubError>)
    ensures
        reads_range(reply, read),
{
    let entries = match read_range(reply) {
        Ok(entries) => entries,
        Err(cause) => {
            assert(call_ensures(read_range, (reply,), Err(cause)));
            return Err(PubSubError::from(cause));
        },
    };
    let ghost rows = range_rows(client_form(reply))->0;
    let ghost forms = choose|forms: Seq<EntryForm>|
        {
            &&& #[trigger] lists_rows(rows, forms)
            &&& entries@.len() == forms.len()
            &&& forall|i: int|
                0 <= i < entries@.len() ==> client_has_form(#[trigger] entries@[i], forms[i])
        };
    let mut left = Queue::new(entries);
    let mut taken: Vec<StreamId> = Vec::new();
    assert(entries@.skip(0) =~= entries@);
    while left.len() > 0
        invariant
            taken@.len() <= entries@.len(),
            left@ == entries@.skip(taken@.len() as int),
            forall|i: int|
                0 <= i < entries@.len() ==> client_has_form(#[trigger] entries@[i], forms[i]),
            forall|i: int| 0 <= i < taken@.len() ==> has_form(#[trigger] taken@[i], forms[i]),
        decreases left@.len(),
    {
        let ghost done = taken@.len() as int;
        let (id, fields) = left.take();
        assert((id, fields) == entries@[done]);
        taken.push(from_client_entry(id, fields));
        assert(left@ =~= entries@.skip(done + 1));
    }
    assert(have_forms(taken@, forms));
    Ok(taken)
}

/// An entry that is taken over from the client keeps its identifier and its fields, one by one and in
/// order, each with its name and the contents of its value.
pub proof fn law_entry_is_taken_over_whole(
    id: String,
    fields: Vec<(String, redis::Value)>,
    entry: StreamId,
)
    requires
        call_ensures(from_client_entry, (id, fields), entry),
    ensures
        entry.id@ == id@,
        entry.map@.len() == fields@.len(),
        forall|i: int|
            0 <= i < fields@.len() ==> (#[trigger] entry.map@[i]).0@ == fields@[i].0@
                && entry.map@[i].1@ == client_form(fields@[i].1),
{
    let taken = entry_contents(entry);
    let wanted = client_fields(fields@);
    assert(taken.len() == entry.map@.len() && wanted.len() == fields@.len());
    assert forall|i: int| 0 <= i < fields@.len() implies (#[trigger] entry.map@[i]).0@
        == fields@[i].0@ && entry.map@[i].1@ == client_form(fields@[i].1) by {
        assert(taken[i] == (entry.map@[i].0@, entry.map@[i].1@));
        assert(wanted[i] == (fields@[i].0@, client_form(fields@[i].1)));
    }
}

/// Rows of one entry each.
pub open spec fn single_rows(rows: Seq<EntryForm>) -> Seq<Map<Seq<char>, FieldForms>> {
    Seq::new(
        rows.len(),
        |i: int| Map::<Seq<char>, FieldForms>::empty().insert(rows[i].id, rows[i].fields),
    )
}

/// Where every row of a reply has one entry, the entries are read row by row: there are as many as
/// rows, and each has the identifier of its row and exactly its fields.
pub proof fn law_rows_are_read_in_order(
    reply: redis::Value,
    rows: Seq<EntryForm>,
    read: Result<Vec<StreamId>, PubSubError>,
)
    requires
        range_rows(client_form(reply)) == Some(single_rows(rows)),
        call_ensures(read_range_reply, (reply,), read),
    ensures
        read matches Ok(entries) && entries@.len() == rows.len() && forall|i: int|
            0 <= i < rows.len() ==> (#[trigger] entries@[i]).id@ == rows[i].id && lists_entry(
                entry_contents(entries@[i]),
                rows[i].fields,
            ),
{
    let maps = single_rows(rows);
    if let Ok(entries) = read {
        let forms = choose|forms: Seq<EntryForm>| #[trigger]
            lists_rows(maps, forms) && have_forms(entries@, forms);
        lemma_single_rows(rows, forms);
    }
}

pub(crate) proof fn lemma_single_rows(rows: Seq<EntryForm>, forms: Seq<EntryForm>)
    requires
        lists_rows(single_rows(rows), forms),
    ensures
        forms == rows,
    decreases rows.len(),
{
    let maps = single_rows(rows);
    if rows.len() == 0 {
        assert(forms =~= rows);
    } else {
        let front = rows.drop_last();
        let last = rows.last();
        assert(maps.drop_last() =~= single_rows(front));
        let at = choose|at: int|
            {
                &&& 0 <= at <= forms.len()
                &&& lists_rows(maps.drop_last(), #[trigger] forms.take(at))
                &&& lists_row(maps.last(), forms.skip(at))
            };
        lemma_single_rows(front, forms.take(at));
        let row = forms.skip(at);
        assert(maps.last().contains_key(last.id));
        let i = choose|i: int| 0 <= i < row.len() && (#[trigger] row[i]).id == last.id;
        if row.len() > 1 {
            assert(maps.last().contains_key(row[0].id) && maps.last().contains_key(row[1].id));
            assert(row[0].id == last.id && row[1].id == last.id);
        }
        assert(row.len() == 1 && row[0].id == last.id);
        assert(row[0].fields == last.fields);
        assert(forms =~= forms.take(at) + row);
        assert(row =~= seq![last]);
        assert(rows =~= front + seq![last]);
    }
}

} // verus!
