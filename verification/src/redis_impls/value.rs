//! Redis reply values and their normalization into JSON.
//!
//! Redis values that need to move through the byte-oriented message abstraction are normalized into
//! JSON values first and then serialized into JSON bytes.
use redis::FromRedisValue;
use vstd::prelude::*;
use vstd::string::*;
use vstd::utf8::{decode_utf8, valid_utf8};

use super::json::{
    insert_json_field, json_fields, json_list_value, json_object_value, json_text_value, json_tree,
    json_trees, json_value_to_bytes, json_written, no_fields, no_json_fields, writes, JsonTree,
};
use crate::message::{ByteMessage, Message};
use crate::queue::Queue;
use crate::text::decimal_text;

verus! {

/// A reply value that is neither a map nor a sequence.
#[derive(Debug, PartialEq)]
pub enum RedisScalar {
    /// No value.
    Nil,
    /// An integer.
    Int(i64),
    /// Binary data.
    BulkString(Vec<u8>),
    /// A string without line breaks.
    SimpleString(String),
    /// The status "OK".
    Okay,
    /// A truth value.
    Boolean(bool),
    /// A text whose format the server declared.
    VerbatimString { format: redis::VerbatimFormat, text: String },
}

/// A reply value of a kind that only the Redis client can hold: a floating-point or a big number, a
/// set, a push, or a server error.
#[derive(Debug, PartialEq)]
pub struct KeptValue {
    value: redis::Value,
}

/// A reply value.
#[derive(Debug, PartialEq)]
pub enum RedisValue {
    /// Key/value pairs.
    Dictionary(Vec<(RedisValue, RedisValue)>),
    /// A sequence.
    Array(Vec<RedisValue>),
    /// A reply, and the attributes that it carries.
    Attribute { data: Box<RedisValue>, attributes: Vec<(RedisValue, RedisValue)> },
    /// A value of one of the kinds that can be read on their own.
    Scalar(RedisScalar),
    /// A value of any other kind.
    Kept(KeptValue),
}

/// The contents of a reply value.
pub enum ReplyForm {
    Nil,
    Int(i64),
    BulkString(Seq<u8>),
    SimpleString(Seq<char>),
    Okay,
    Boolean(bool),
    VerbatimString(redis::VerbatimFormat, Seq<char>),
    /// A floating-point number, by its decimal text.
    Double(Seq<char>),
    Array(Seq<ReplyForm>),
    Dictionary(Seq<(ReplyForm, ReplyForm)>),
    Attribute(Box<ReplyForm>, Seq<(ReplyForm, ReplyForm)>),
    /// A big number, a set, a push or a server error, as the client holds it.
    Other(redis::Value),
}

/// The contents of a reply value that the Redis client holds.
pub uninterp spec fn client_form(value: redis::Value) -> ReplyForm;

/// The contents of a sequence of reply values that the Redis client holds.
pub open spec fn client_forms(values: Seq<redis::Value>) -> Seq<ReplyForm> {
    values.map_values(|value: redis::Value| client_form(value))
}

/// The contents of key/value pairs that the Redis client holds.
pub open spec fn client_pairs(
    pairs: Seq<(redis::Value, redis::Value)>,
) -> Seq<(ReplyForm, ReplyForm)> {
    pairs.map_values(
        |pair: (redis::Value, redis::Value)| (client_form(pair.0), client_form(pair.1)),
    )
}

/// Whether these are the contents of a value of a kind that only the client can hold.
pub open spec fn is_kept(form: ReplyForm) -> bool {
    form is Double || form is Other
}

/// The contents of a scalar.
pub open spec fn scalar_form(scalar: RedisScalar) -> ReplyForm {
    match scalar {
        RedisScalar::Nil => ReplyForm::Nil,
        RedisScalar::Int(number) => ReplyForm::Int(number),
        RedisScalar::BulkString(bytes) => ReplyForm::BulkString(bytes@),
        RedisScalar::SimpleString(text) => ReplyForm::SimpleString(text@),
        RedisScalar::Okay => ReplyForm::Okay,
        RedisScalar::Boolean(truth) => ReplyForm::Boolean(truth),
        RedisScalar::VerbatimString { format, text } => ReplyForm::VerbatimString(format, text@),
    }
}

/// The contents of a reply value.
pub open spec fn form_of(value: RedisValue) -> ReplyForm
    decreases value,
{
    match value {
        RedisValue::Dictionary(entries) => ReplyForm::Dictionary(pair_forms(entries@)),
        RedisValue::Array(sequence) => ReplyForm::Array(forms_of(sequence@)),
        RedisValue::Attribute { data, attributes } => ReplyForm::Attribute(
            Box::new(form_of(*data)),
            pair_forms(attributes@),
        ),
        RedisValue::Scalar(scalar) => scalar_form(scalar),
        RedisValue::Kept(kept) => kept.form(),
    }
}

/// The contents of a sequence of reply values.
pub open spec fn forms_of(values: Seq<RedisValue>) -> Seq<ReplyForm>
    decreases values,
{
    if values.len() == 0 {
        seq![]
    } else {
        forms_of(values.drop_last()).push(form_of(values.last()))
    }
}

/// The contents of key/value pairs.
pub open spec fn pair_forms(
    entries: Seq<(RedisValue, RedisValue)>,
) -> Seq<(ReplyForm, ReplyForm)>
    decreases entries,
{
    if entries.len() == 0 {
        seq![]
    } else {
        let (key, value) = entries.last();
        pair_forms(entries.drop_last()).push((form_of(key), form_of(value)))
    }
}

impl View for RedisValue {
    type V = ReplyForm;

    open spec fn view(&self) -> ReplyForm {
        form_of(*self)
    }
}

impl KeptValue {
    #[verifier::type_invariant]
    spec fn well_formed(self) -> bool {
        is_kept(client_form(self.value))
    }

    /// The contents of the value.
    pub closed spec fn form(&self) -> ReplyForm {
        client_form(self.value)
    }
}

/// A reply value of the Redis client, opened by one level.
enum OpenedValue {
    Dictionary(Vec<(redis::Value, redis::Value)>),
    Array(Vec<redis::Value>),
    Attribute(redis::Value, Vec<(redis::Value, redis::Value)>),
    Scalar(RedisScalar),
    Kept(redis::Value),
}

/// The contents of an opened value.
spec fn opened_form(opened: OpenedValue) -> ReplyForm {
    match opened {
        OpenedValue::Dictionary(entries) => ReplyForm::Dictionary(client_pairs(entries@)),
        OpenedValue::Array(sequence) => ReplyForm::Array(client_forms(sequence@)),
        OpenedValue::Attribute(data, attributes) => ReplyForm::Attribute(
            Box::new(client_form(data)),
            client_pairs(attributes@),
        ),
        OpenedValue::Scalar(scalar) => scalar_form(scalar),
        OpenedValue::Kept(value) => client_form(value),
    }
}

/// Opens a reply value.
///
/// Tells the kinds of [`redis::Value`] apart: what is moved out of the value are its contents, and a
/// value of a kind without plain contents is handed back as it is.
#[verifier::external_body]
fn open_value(value: redis::Value) -> (opened: OpenedValue)
    ensures
        opened_form(opened) == client_form(value),
        opened matches OpenedValue::Kept(kept) ==> is_kept(client_form(kept)),
{
    OpenedValue::Scalar(match value {
        redis::Value::Map(entries) => return OpenedValue::Dictionary(entries),
        redis::Value::Array(sequence) => return OpenedValue::Array(sequence),
        redis::Value::Attribute { data, attributes } => {
            return OpenedValue::Attribute(*data, attributes);
        },
        redis::Value::Nil => RedisScalar::Nil,
        redis::Value::Int(number) => RedisScalar::Int(number),
        redis::Value::BulkString(bytes) => RedisScalar::BulkString(bytes),
        redis::Value::SimpleString(text) => RedisScalar::SimpleString(text),
        redis::Value::Okay => RedisScalar::Okay,
        redis::Value::Boolean(truth) => RedisScalar::Boolean(truth),
        redis::Value::VerbatimString { format, text } => RedisScalar::VerbatimString { format, text },
        kept => return OpenedValue::Kept(kept),
    })
}

/// Makes the client's value of a scalar: a variant of [`redis::Value`] with these contents.
#[verifier::external_body]
fn client_scalar(scalar: &RedisScalar) -> (value: redis::Value)
    ensures
        client_form(value) == scalar_form(*scalar),
{
    match scalar {
        RedisScalar::Nil => redis::Value::Nil,
        RedisScalar::Int(number) => redis::Value::Int(*number),
        RedisScalar::BulkString(bytes) => redis::Value::BulkString(bytes.clone()),
        RedisScalar::SimpleString(text) => redis::Value::SimpleString(text.clone()),
        RedisScalar::Okay => redis::Value::Okay,
        RedisScalar::Boolean(truth) => redis::Value::Boolean(*truth),
        RedisScalar::VerbatimString { format, text } => {
            redis::Value::VerbatimString { format: format.clone(), text: text.clone() }
        },
    }
}

/// Makes the client's value of a sequence: [`redis::Value::Array`] of these items.
#[verifier::external_body]
fn client_array(items: Vec<redis::Value>) -> (value: redis::Value)
    ensures
        client_form(value) == ReplyForm::Array(client_forms(items@)),
{
    redis::Value::Array(items)
}

/// Makes the client's value of key/value pairs: [`redis::Value::Map`] of these pairs.
#[verifier::external_body]
fn client_map(pairs: Vec<(redis::Value, redis::Value)>) -> (value: redis::Value)
    ensures
        client_form(value) == ReplyForm::Dictionary(client_pairs(pairs@)),
{
    redis::Value::Map(pairs)
}

/// Makes the client's value of a reply that carries attributes: [`redis::Value::Attribute`] of both.
#[verifier::external_body]
fn client_attribute(
    data: redis::Value,
    attributes: Vec<(redis::Value, redis::Value)>,
) -> (value: redis::Value)
    ensures
        client_form(value) == ReplyForm::Attribute(
            Box::new(client_form(data)),
            client_pairs(attributes@),
        ),
{
    redis::Value::Attribute { data: Box::new(data), attributes }
}

/// Copies a value of the client. Trusts the `Clone` of [`redis::Value`] to keep the contents.
#[verifier::external_body]
fn client_copy(value: &redis::Value) -> (copy: redis::Value)
    ensures
        copy == *value,
{
    value.clone()
}

/// Takes over key/value pairs from the Redis client.
fn pairs_from_client(
    entries: Vec<(redis::Value, redis::Value)>,
) -> (taken: Vec<(RedisValue, RedisValue)>)
    ensures
        pair_forms(taken@) == client_pairs(entries@),
    decreases client_pairs(entries@),
{
    let ghost wanted = client_pairs(entries@);
    let mut left = Queue::new(entries);
    let mut taken: Vec<(RedisValue, RedisValue)> = Vec::new();
    let ghost mut done: int = 0;
    assert(entries@.skip(0) =~= entries@);
    while left.len() > 0
        invariant
            0 <= done <= entries@.len(),
            left@ == entries@.skip(done),
            wanted == client_pairs(entries@),
            pair_forms(taken@) =~= wanted.take(done),
        decreases left@.len(),
    {
        let ghost before = taken@;
        let (key, item) = left.take();
        proof {
            assert((key, item) == entries@[done]);
            assert(wanted[done] == (client_form(key), client_form(item)));
            assert(decreases_to!(wanted => wanted[done]));
            let pair = wanted[done];
            assert(decreases_to!(pair => pair.0));
            assert(decreases_to!(pair => pair.1));
        }
        taken.push((from_client(key), from_client(item)));
        proof {
            assert(taken@.drop_last() =~= before);
            assert(wanted.take(done + 1) =~= wanted.take(done).push(wanted[done]));
            assert(left@ =~= entries@.skip(done + 1));
            done = done + 1;
        }
    }
    assert(wanted.take(done) =~= wanted);
    taken
}

/// Takes over a sequence from the Redis client.
fn items_from_client(sequence: Vec<redis::Value>) -> (taken: Vec<RedisValue>)
    ensures
        forms_of(taken@) == client_forms(sequence@),
    decreases client_forms(sequence@),
{
    let ghost wanted = client_forms(sequence@);
    let mut left = Queue::new(sequence);
    let mut taken: Vec<RedisValue> = Vec::new();
    let ghost mut done: int = 0;
    assert(sequence@.skip(0) =~= sequence@);
    while left.len() > 0
        invariant
            0 <= done <= sequence@.len(),
            left@ == sequence@.skip(done),
            wanted == client_forms(sequence@),
            forms_of(taken@) =~= wanted.take(done),
        decreases left@.len(),
    {
        let ghost before = taken@;
        let item = left.take();
        proof {
            assert(item == sequence@[done]);
            assert(wanted[done] == client_form(item));
            assert(decreases_to!(wanted => wanted[done]));
        }
        taken.push(from_client(item));
        proof {
            assert(taken@.drop_last() =~= before);
            assert(wanted.take(done + 1) =~= wanted.take(done).push(wanted[done]));
            assert(left@ =~= sequence@.skip(done + 1));
            done = done + 1;
        }
    }
    assert(wanted.take(done) =~= wanted);
    taken
}

/// Takes over a reply value from the Redis client.
pub fn from_client(value: redis::Value) -> (taken: RedisValue)
    ensures
        taken@ == client_form(value),
    decreases client_form(value),
{
    let ghost form = client_form(value);
    match open_value(value) {
        OpenedValue::Dictionary(entries) => {
            assert(decreases_to!(form => form->Dictionary_0));
            RedisValue::Dictionary(pairs_from_client(entries))
        },
        OpenedValue::Array(sequence) => {
            assert(decreases_to!(form => form->Array_0));
            RedisValue::Array(items_from_client(sequence))
        },
        OpenedValue::Attribute(data, attributes) => {
            proof {
                assert(decreases_to!(form => form->Attribute_0));
                assert(decreases_to!(form => form->Attribute_1));
            }
            RedisValue::Attribute {
                data: Box::new(from_client(data)),
                attributes: pairs_from_client(attributes),
            }
        },
        OpenedValue::Scalar(scalar) => RedisValue::Scalar(scalar),
        OpenedValue::Kept(value) => RedisValue::Kept(KeptValue { value }),
    }
}

/// Hands key/value pairs to the Redis client.
fn pairs_to_client(
    entries: &Vec<(RedisValue, RedisValue)>,
) -> (handed: Vec<(redis::Value, redis::Value)>)
    ensures
        client_pairs(handed@) == pair_forms(entries@),
    decreases entries@,
{
    let mut handed: Vec<(redis::Value, redis::Value)> = Vec::new();
    let mut at: usize = 0;
    assert(entries@.take(0) =~= seq![]);
    while at < entries.len()
        invariant
            at <= entries.len(),
            client_pairs(handed@) =~= pair_forms(entries@.take(at as int)),
        decreases entries.len() - at,
    {
        let ghost before = client_pairs(handed@);
        let (key, item) = &entries[at];
        proof {
            let upto = entries@.take(at + 1);
            assert(upto.drop_last() =~= entries@.take(at as int));
            assert(upto.last() == entries@[at as int]);
        }
        let pair = (to_client(key), to_client(item));
        handed.push(pair);
        assert(client_pairs(handed@) =~= before.push((client_form(pair.0), client_form(pair.1))));
        at = at + 1;
    }
    assert(entries@.take(at as int) =~= entries@);
    handed
}

/// Hands a sequence to the Redis client.
fn items_to_client(sequence: &Vec<RedisValue>) -> (handed: Vec<redis::Value>)
    ensures
        client_forms(handed@) == forms_of(sequence@),
    decreases sequence@,
{
    let mut handed: Vec<redis::Value> = Vec::new();
    let mut at: usize = 0;
    assert(sequence@.take(0) =~= seq![]);
    while at < sequence.len()
        invariant
            at <= sequence.len(),
            client_forms(handed@) =~= forms_of(sequence@.take(at as int)),
        decreases sequence.len() - at,
    {
        let ghost before = client_forms(handed@);
        proof {
            let upto = sequence@.take(at + 1);
            assert(upto.drop_last() =~= sequence@.take(at as int));
            assert(upto.last() == sequence@[at as int]);
        }
        let item = to_client(&sequence[at]);
        handed.push(item);
        assert(client_forms(handed@) =~= before.push(client_form(item)));
        at = at + 1;
    }
    assert(sequence@.take(at as int) =~= sequence@);
    handed
}

/// Hands a reply value to the Redis client.
pub fn to_client(value: &RedisValue) -> (handed: redis::Value)
    ensures
        client_form(handed) == value@,
    decreases value,
{
    match value {
        RedisValue::Dictionary(entries) => client_map(pairs_to_client(entries)),
        RedisValue::Array(sequence) => client_array(items_to_client(sequence)),
        RedisValue::Attribute { data, attributes } => client_attribute(
            to_client(data),
            pairs_to_client(attributes),
        ),
        RedisValue::Scalar(scalar) => client_scalar(scalar),
        RedisValue::Kept(kept) => client_copy(&kept.value),
    }
}

/// An integer written in decimal, with a minus sign where it is negative.
pub open spec fn integer_text(number: int) -> Seq<char> {
    if number < 0 {
        seq!['-'] + decimal_text((-number) as nat)
    } else {
        decimal_text(number as nat)
    }
}

/// The text of contents without attributes, if they have one.
pub open spec fn plain_text(form: ReplyForm) -> Option<Seq<char>> {
    match form {
        ReplyForm::BulkString(bytes) => if valid_utf8(bytes) {
            Some(decode_utf8(bytes))
        } else {
            None
        },
        ReplyForm::Okay => Some("OK"@),
        ReplyForm::SimpleString(text) => Some(text),
        ReplyForm::VerbatimString(_, text) => Some(text),
        ReplyForm::Double(text) => Some(text),
        ReplyForm::Int(number) => Some(integer_text(number as int)),
        _ => None,
    }
}

/// The text of contents, if they have one: attributes around them are looked through once.
pub open spec fn form_text(form: ReplyForm) -> Option<Seq<char>> {
    match form {
        ReplyForm::Attribute(data, _) => plain_text(*data),
        other => plain_text(other),
    }
}

/// The text of a reply value, if it has one.
pub open spec fn value_text(value: RedisValue) -> Option<Seq<char>> {
    form_text(value@)
}

/// Reads the text of a reply value that the Redis client holds.
///
/// Trusts `String::from_redis_value_ref`: attributes are looked through once, binary data is read as
/// UTF-8 and refused where it is not, a status or a string is its text, a number is written in
/// decimal, and any other value is refused. Nothing is claimed of the error.
#[verifier::external_body]
fn read_client_text(value: &redis::Value) -> (text: Result<String, redis::ParsingError>)
    ensures
        match text {
            Ok(text) => form_text(client_form(*value)) == Some(text@),
            Err(_) => form_text(client_form(*value)) is None,
        },
{
    String::from_redis_value_ref(value)
}

/// Whether an error is what reading the text of this very value comes to.
pub closed spec fn is_refusal(value: RedisValue, err: redis::ParsingError) -> bool {
    exists|handed: redis::Value|
        client_form(handed) == value@ && #[trigger] call_ensures(
            read_client_text,
            (&handed,),
            Err(err),
        )
}

/// Reads the text of a reply value.
pub fn redis_value_to_text(value: &RedisValue) -> (text: Result<String, redis::ParsingError>)
    ensures
        match text {
            Ok(text) => value_text(*value) == Some(text@),
            Err(err) => value_text(*value) is None && is_refusal(*value, err),
        },
{
    read_client_text(&to_client(value))
}

/// The first part of a reply value whose text is needed to normalize it and that has none. The parts
/// are taken in order, and a key before its value.
pub open spec fn refused_part(value: RedisValue) -> Option<RedisValue>
    decreases value,
{
    match value {
        RedisValue::Dictionary(entries) => refused_field(entries@),
        RedisValue::Array(sequence) => refused_item(sequence@),
        other => if value_text(other) is None {
            Some(other)
        } else {
            None
        },
    }
}

/// The first part of key/value pairs whose text is needed and that has none.
pub open spec fn refused_field(entries: Seq<(RedisValue, RedisValue)>) -> Option<RedisValue>
    decreases entries,
{
    if entries.len() == 0 {
        None
    } else {
        let (key, value) = entries.last();
        match refused_field(entries.drop_last()) {
            Some(part) => Some(part),
            None => if value_text(key) is None {
                Some(key)
            } else {
                refused_part(value)
            },
        }
    }
}

/// The first part of a sequence whose text is needed and that has none.
pub open spec fn refused_item(sequence: Seq<RedisValue>) -> Option<RedisValue>
    decreases sequence,
{
    if sequence.len() == 0 {
        None
    } else {
        match refused_item(sequence.drop_last()) {
            Some(part) => Some(part),
            None => refused_part(sequence.last()),
        }
    }
}

/// The JSON contents that a reply value is normalized into, if it can be: maps become objects,
/// sequences become arrays, and anything else becomes a string, even when it looks numeric.
pub open spec fn normalized(value: RedisValue) -> Option<JsonTree>
    decreases value,
{
    match value {
        RedisValue::Dictionary(entries) => match normalized_fields(entries@) {
            Some(fields) => Some(JsonTree::Object(fields)),
            None => None,
        },
        RedisValue::Array(sequence) => match normalized_list(sequence@) {
            Some(list) => Some(JsonTree::List(list)),
            None => None,
        },
        other => match value_text(other) {
            Some(text) => Some(JsonTree::Text(text)),
            None => None,
        },
    }
}

/// The fields that key/value pairs make: every key needs a text, every value is normalized, and the
/// last of several values of one key counts.
pub open spec fn normalized_fields(
    entries: Seq<(RedisValue, RedisValue)>,
) -> Option<Map<Seq<char>, JsonTree>>
    decreases entries,
{
    if entries.len() == 0 {
        Some(no_fields())
    } else {
        let (key, value) = entries.last();
        match (normalized_fields(entries.drop_last()), value_text(key), normalized(value)) {
            (Some(fields), Some(name), Some(tree)) => Some(fields.insert(name, tree)),
            _ => None,
        }
    }
}

/// The list that the values of a sequence make.
pub open spec fn normalized_list(sequence: Seq<RedisValue>) -> Option<Seq<JsonTree>>
    decreases sequence,
{
    if sequence.len() == 0 {
        Some(seq![])
    } else {
        match (normalized_list(sequence.drop_last()), normalized(sequence.last())) {
            (Some(list), Some(tree)) => Some(list.push(tree)),
            _ => None,
        }
    }
}

/// A part that is refused in front of key/value pairs is the one refused in all of them.
proof fn lemma_first_of_fields(entries: Seq<(RedisValue, RedisValue)>, len: int)
    requires
        0 <= len <= entries.len(),
        refused_field(entries.take(len)) is Some,
    ensures
        refused_field(entries) == refused_field(entries.take(len)),
    decreases entries.len(),
{
    if len < entries.len() {
        assert(entries.drop_last().take(len) =~= entries.take(len));
        lemma_first_of_fields(entries.drop_last(), len);
    } else {
        assert(entries.take(len) =~= entries);
    }
}

/// A part that is refused in front of a sequence is the one refused in all of it.
proof fn lemma_first_of_items(sequence: Seq<RedisValue>, len: int)
    requires
        0 <= len <= sequence.len(),
        refused_item(sequence.take(len)) is Some,
    ensures
        refused_item(sequence) == refused_item(sequence.take(len)),
    decreases sequence.len(),
{
    if len < sequence.len() {
        assert(sequence.drop_last().take(len) =~= sequence.take(len));
        lemma_first_of_items(sequence.drop_last(), len);
    } else {
        assert(sequence.take(len) =~= sequence);
    }
}

/// A reply value can be normalized unless some part of it lacks a text that is needed.
pub proof fn law_value_is_normalized_unless_a_part_is_refused(value: RedisValue)
    ensures
        normalized(value) is None <==> refused_part(value) is Some,
    decreases value,
{
    match value {
        RedisValue::Dictionary(entries) => law_fields_are_normalized_unless_a_part_is_refused(
            entries@,
        ),
        RedisValue::Array(sequence) => law_list_is_normalized_unless_a_part_is_refused(sequence@),
        _ => {},
    }
}

/// Key/value pairs can be normalized unless some part of them lacks a text that is needed.
pub proof fn law_fields_are_normalized_unless_a_part_is_refused(
    entries: Seq<(RedisValue, RedisValue)>,
)
    ensures
        normalized_fields(entries) is None <==> refused_field(entries) is Some,
    decreases entries,
{
    if entries.len() > 0 {
        law_fields_are_normalized_unless_a_part_is_refused(entries.drop_last());
        law_value_is_normalized_unless_a_part_is_refused(entries.last().1);
    }
}

/// A sequence can be normalized unless some part of it lacks a text that is needed.
pub proof fn law_list_is_normalized_unless_a_part_is_refused(sequence: Seq<RedisValue>)
    ensures
        normalized_list(sequence) is None <==> refused_item(sequence) is Some,
    decreases sequence,
{
    if sequence.len() > 0 {
        law_list_is_normalized_unless_a_part_is_refused(sequence.drop_last());
        law_value_is_normalized_unless_a_part_is_refused(sequence.last());
    }
}

/// Whether an error says that this part is refused.
pub open spec fn names_part(part: Option<RedisValue>, err: redis::ParsingError) -> bool {
    part matches Some(refused) && is_refusal(refused, err)
}

/// Normalizes a reply value into a JSON value.
///
/// - Maps become JSON objects.
/// - Sequences become JSON arrays.
/// - Anything else is stringified into a JSON string, even when it looks numeric.
pub fn redis_value_to_json_value(
    value: &RedisValue,
) -> (json: Result<serde_json::Value, redis::ParsingError>)
    ensures
        match json {
            Ok(json) => normalized(*value) == Some(json_tree(json)),
            Err(err) => normalized(*value) is None && names_part(refused_part(*value), err),
        },
    decreases value,
{
    match value {
        RedisValue::Dictionary(entries) => redis_map_to_json_value(entries),
        RedisValue::Array(sequence) => redis_sequence_to_json_value(sequence),
        other => match redis_value_to_text(other) {
            Ok(text) => Ok(json_text_value(text)),
            Err(err) => Err(err),
        },
    }
}

/// Converts key/value pairs into a JSON object.
pub fn redis_map_to_json_value(
    entries: &Vec<(RedisValue, RedisValue)>,
) -> (json: Result<serde_json::Value, redis::ParsingError>)
    ensures
        match json {
            Ok(json) => normalized_fields(entries@) matches Some(fields) && json_tree(json)
                == JsonTree::Object(fields),
            Err(err) => normalized_fields(entries@) is None && names_part(
                refused_field(entries@),
                err,
            ),
        },
    decreases entries@,
{
    let mut fields = no_json_fields();
    let mut at: usize = 0;
    while at < entries.len()
        invariant
            at <= entries.len(),
            normalized_fields(entries@.take(at as int)) == Some(json_fields(fields)),
            refused_field(entries@.take(at as int)) is None,
        decreases entries.len() - at,
    {
        let ghost upto = entries@.take(at + 1);
        proof {
            assert(upto.drop_last() =~= entries@.take(at as int));
            assert(upto.last() == entries@[at as int]);
            law_value_is_normalized_unless_a_part_is_refused(upto.last().1);
        }
        let (key, value) = &entries[at];
        match redis_value_to_text(key) {
            Ok(name) => match redis_value_to_json_value(value) {
                Ok(json) => {
                    insert_json_field(&mut fields, name, json);
                },
                Err(err) => {
                    proof {
                        lemma_first_of_fields(entries@, at + 1);
                        law_fields_are_normalized_unless_a_part_is_refused(entries@);
                    }
                    return Err(err);
                },
            },
            Err(err) => {
                proof {
                    lemma_first_of_fields(entries@, at + 1);
                        law_fields_are_normalized_unless_a_part_is_refused(entries@);
                }
                return Err(err);
            },
        }
        at = at + 1;
    }
    assert(entries@.take(at as int) =~= entries@);
    Ok(json_object_value(fields))
}

/// Converts a sequence into a JSON array.
pub fn redis_sequence_to_json_value(
    sequence: &Vec<RedisValue>,
) -> (json: Result<serde_json::Value, redis::ParsingError>)
    ensures
        match json {
            Ok(json) => normalized_list(sequence@) matches Some(list) && json_tree(json)
                == JsonTree::List(list),
            Err(err) => normalized_list(sequence@) is None && names_part(
                refused_item(sequence@),
                err,
            ),
        },
    decreases sequence@,
{
    let mut list: Vec<serde_json::Value> = Vec::new();
    let mut at: usize = 0;
    assert(json_trees(list@) =~= seq![]);
    while at < sequence.len()
        invariant
            at <= sequence.len(),
            normalized_list(sequence@.take(at as int)) == Some(json_trees(list@)),
            refused_item(sequence@.take(at as int)) is None,
        decreases sequence.len() - at,
    {
        let ghost upto = sequence@.take(at + 1);
        let ghost before = json_trees(list@);
        proof {
            assert(upto.drop_last() =~= sequence@.take(at as int));
            assert(upto.last() == sequence@[at as int]);
            law_value_is_normalized_unless_a_part_is_refused(upto.last());
        }
        match redis_value_to_json_value(&sequence[at]) {
            Ok(json) => {
                list.push(json);
                assert(json_trees(list@) =~= before.push(json_tree(json)));
            },
            Err(err) => {
                proof {
                    lemma_first_of_items(sequence@, at + 1);
                    law_list_is_normalized_unless_a_part_is_refused(sequence@);
                }
                return Err(err);
            },
        }
        at = at + 1;
    }
    assert(sequence@.take(at as int) =~= sequence@);
    Ok(json_list_value(list))
}

/// Whether bytes are what a reply value is materialized as, or there are none because it cannot be
/// normalized.
pub open spec fn materialized(value: RedisValue, bytes: Option<Seq<u8>>) -> bool {
    match normalized(value) {
        Some(tree) => bytes matches Some(written) && writes(tree, written),
        None => bytes is None,
    }
}

/// Normalizes a reply value and serializes the result into UTF-8 JSON bytes.
pub fn redis_value_to_json_bytes(
    value: &RedisValue,
) -> (written: Result<Vec<u8>, redis::ParsingError>)
    ensures
        match written {
            Ok(bytes) => materialized(*value, Some(bytes@)),
            Err(err) => materialized(*value, None) && names_part(refused_part(*value), err),
        },
{
    match redis_value_to_json_value(value) {
        Ok(json) => json_value_to_bytes(&json),
        Err(err) => Err(err),
    }
}

/// Converts a reply value into a payload-only [`ByteMessage`] via JSON normalization.
pub fn redis_value_to_byte_message(
    value: &RedisValue,
) -> (message: Result<ByteMessage, redis::ParsingError>)
    ensures
        match message {
            Ok(message) => message@.key is None && materialized(*value, Some(message@.value)),
            Err(err) => materialized(*value, None) && names_part(refused_part(*value), err),
        },
{
    match redis_value_to_json_bytes(value) {
        Ok(payload) => Ok(ByteMessage::from_value(payload)),
        Err(err) => Err(err),
    }
}

/// The fields that key/value pairs make are there exactly if every key has a text and every value is
/// normalized; each key has the last of its values then, and there are no other fields.
proof fn lemma_fields_by_key(entries: Seq<(RedisValue, RedisValue)>)
    ensures
        normalized_fields(entries) is Some <==> forall|i: int|
            0 <= i < entries.len() ==> value_text((#[trigger] entries[i]).0) is Some && normalized(
                entries[i].1,
            ) is Some,
        normalized_fields(entries) matches Some(fields) ==> {
            &&& forall|i: int|
                0 <= i < entries.len() ==> fields.contains_key(
                    value_text((#[trigger] entries[i]).0)->0,
                )
            &&& forall|i: int|
                0 <= i < entries.len() && (forall|j: int|
                    i < j < entries.len() ==> value_text((#[trigger] entries[j]).0) != value_text(
                        entries[i].0,
                    )) ==> fields[value_text((#[trigger] entries[i]).0)->0] == normalized(
                    entries[i].1,
                )->0
            &&& forall|name: Seq<char>| #[trigger]
                fields.contains_key(name) ==> exists|i: int|
                    0 <= i < entries.len() && value_text((#[trigger] entries[i]).0) == Some(name)
        },
    decreases entries.len(),
{
    if entries.len() > 0 {
        let front = entries.drop_last();
        let last = entries.len() - 1;
        lemma_fields_by_key(front);
        assert(forall|i: int| 0 <= i < last ==> #[trigger] entries[i] == front[i]);
        assert(entries[last] == entries.last());
        assert forall|i: int| 0 <= i < last implies #[trigger] front[i] == entries[i] by {}
        if let Some(fields) = normalized_fields(entries) {
            let earlier = normalized_fields(front)->0;
            let name = value_text(entries.last().0)->0;
            assert(fields == earlier.insert(name, normalized(entries.last().1)->0));
            assert forall|i: int|
                0 <= i < entries.len() && (forall|j: int|
                    i < j < entries.len() ==> value_text((#[trigger] entries[j]).0) != value_text(
                        entries[i].0,
                    )) implies fields[value_text((#[trigger] entries[i]).0)->0] == normalized(
                entries[i].1,
            )->0 by {
                if i < last {
                    assert(value_text(entries[last].0) != value_text(entries[i].0));
                    assert(front[i] == entries[i]);
                    assert forall|j: int| i < j < front.len() implies value_text(
                        (#[trigger] front[j]).0,
                    ) != value_text(front[i].0) by {
                        assert(entries[j] == front[j]);
                    }
                }
            }
            assert forall|other: Seq<char>| #[trigger]
                fields.contains_key(other) implies exists|i: int|
                0 <= i < entries.len() && value_text((#[trigger] entries[i]).0) == Some(other) by {
                if other == name {
                    assert(value_text(entries[last].0) == Some(other));
                } else {
                    assert(earlier.contains_key(other));
                    let i = choose|i: int|
                        0 <= i < front.len() && value_text((#[trigger] front[i]).0) == Some(other);
                    assert(entries[i] == front[i]);
                }
            }
        }
    }
}

/// The list that the values of a sequence make is there exactly if every value is normalized, and
/// holds each of them at its place.
proof fn lemma_list_by_place(sequence: Seq<RedisValue>)
    ensures
        normalized_list(sequence) is Some <==> forall|i: int|
            0 <= i < sequence.len() ==> normalized(#[trigger] sequence[i]) is Some,
        normalized_list(sequence) matches Some(list) ==> {
            &&& list.len() == sequence.len()
            &&& forall|i: int|
                0 <= i < sequence.len() ==> normalized(#[trigger] sequence[i]) == Some(list[i])
        },
    decreases sequence.len(),
{
    if sequence.len() > 0 {
        let front = sequence.drop_last();
        lemma_list_by_place(front);
        assert(forall|i: int| 0 <= i < front.len() ==> #[trigger] sequence[i] == front[i]);
        assert forall|i: int| 0 <= i < front.len() implies #[trigger] front[i] == sequence[i] by {}
        assert(sequence[sequence.len() - 1] == sequence.last());
    }
}

/// Text that a reply value holds is read as it is: binary data that is UTF-8, strings and the status
/// "OK" are their own text, numbers are written in decimal, and values without a text are refused.
/// Attributes around a value are looked through.
pub proof fn law_text_is_read_as_it_is(
    value: RedisValue,
    scalar: RedisScalar,
    text: Result<String, redis::ParsingError>,
)
    requires
        call_ensures(redis_value_to_text, (&value,), text),
        value == RedisValue::Scalar(scalar) || (value matches RedisValue::Attribute { data, .. }
            && *data == RedisValue::Scalar(scalar)),
    ensures
        match scalar {
            RedisScalar::BulkString(bytes) => match text {
                Ok(text) => valid_utf8(bytes@) && text@ == decode_utf8(bytes@),
                Err(_) => !valid_utf8(bytes@),
            },
            RedisScalar::SimpleString(held) => text matches Ok(text) && text@ == held@,
            RedisScalar::VerbatimString { text: held, .. } => text matches Ok(text) && text@
                == held@,
            RedisScalar::Okay => text matches Ok(text) && text@ == "OK"@,
            RedisScalar::Int(number) => text matches Ok(text) && if number < 0 {
                text@ == seq!['-'] + decimal_text((-number) as nat)
            } else {
                text@ == decimal_text(number as nat)
            },
            RedisScalar::Nil => text is Err,
            RedisScalar::Boolean(_) => text is Err,
        },
{
    assert(form_of(RedisValue::Scalar(scalar)) == scalar_form(scalar));
}

/// A reply value is normalized part by part: a sequence into a list of the same length that holds
/// each normalized item at its place; key/value pairs into an object that holds exactly their keys,
/// each with the last of its normalized values; and anything else into its text. It is refused
/// exactly if some part is, a sequence for one of its items and key/value pairs for a key or a value.
pub proof fn law_value_is_normalized_part_by_part(
    value: RedisValue,
    json: Result<serde_json::Value, redis::ParsingError>,
)
    requires
        call_ensures(redis_value_to_json_value, (&value,), json),
    ensures
        json is Ok <==> normalized(value) is Some,
        json matches Ok(json) ==> normalized(value) == Some(json_tree(json)),
        match value {
            RedisValue::Array(items) => match json {
                Ok(json) => {
                    &&& json_tree(json) matches JsonTree::List(list)
                    &&& list.len() == items@.len()
                    &&& forall|i: int|
                        0 <= i < items@.len() ==> normalized(#[trigger] items@[i]) == Some(list[i])
                },
                Err(_) => exists|i: int|
                    0 <= i < items@.len() && normalized(#[trigger] items@[i]) is None,
            },
            RedisValue::Dictionary(pairs) => match json {
                Ok(json) => {
                    &&& json_tree(json) matches JsonTree::Object(fields)
                    &&& forall|name: Seq<char>| #[trigger]
                        fields.contains_key(name) <==> exists|i: int|
                            0 <= i < pairs@.len() && value_text((#[trigger] pairs@[i]).0) == Some(
                                name,
                            )
                    &&& forall|i: int|
                        0 <= i < pairs@.len() && (forall|j: int|
                            i < j < pairs@.len() ==> value_text((#[trigger] pairs@[j]).0)
                                != value_text(pairs@[i].0)) ==> Some(
                            fields[value_text((#[trigger] pairs@[i]).0)->0],
                        ) == normalized(pairs@[i].1)
                },
                Err(_) => exists|i: int|
                    0 <= i < pairs@.len() && (value_text((#[trigger] pairs@[i]).0) is None
                        || normalized(pairs@[i].1) is None),
            },
            other => match json {
                Ok(json) => json_tree(json) matches JsonTree::Text(text) && value_text(other)
                    == Some(text),
                Err(_) => value_text(other) is None,
            },
        },
{
    match value {
        RedisValue::Array(items) => {
            lemma_list_by_place(items@);
        },
        RedisValue::Dictionary(pairs) => {
            lemma_fields_by_key(pairs@);
            if let Ok(json) = json {
                let fields = normalized_fields(pairs@)->0;
                assert forall|name: Seq<char>|
                    (exists|i: int|
                        0 <= i < pairs@.len() && value_text((#[trigger] pairs@[i]).0) == Some(
                            name,
                        )) implies #[trigger] fields.contains_key(name) by {
                    let i = choose|i: int|
                        0 <= i < pairs@.len() && value_text((#[trigger] pairs@[i]).0) == Some(name);
                    assert(fields.contains_key(value_text(pairs@[i].0)->0));
                }
            }
        },
        _ => {},
    }
}

/// A reply value that is taken over from the client and handed back to it has the same contents, and
/// so has one that is handed to the client and taken over again.
pub proof fn law_client_values_keep_their_contents(
    value: redis::Value,
    taken: RedisValue,
    handed: redis::Value,
    retaken: RedisValue,
)
    requires
        call_ensures(from_client, (value,), taken),
        call_ensures(to_client, (&taken,), handed),
        call_ensures(from_client, (handed,), retaken),
    ensures
        client_form(handed) == client_form(value),
        retaken@ == taken@,
{
}

/// The message made of a reply value has no key, and its payload is the JSON text of what the value
/// is normalized into; a value that is refused as JSON is refused as a message.
pub proof fn law_message_is_the_json_of_the_value(
    value: RedisValue,
    json: Result<serde_json::Value, redis::ParsingError>,
    message: Result<ByteMessage, redis::ParsingError>,
)
    requires
        call_ensures(redis_value_to_json_value, (&value,), json),
        call_ensures(redis_value_to_byte_message, (&value,), message),
    ensures
        json is Ok <==> message is Ok,
        message matches Ok(message) ==> {
            &&& message@.key is None
            &&& message@.value == json_written(json_tree(json->Ok_0))
        },
{
}

/// Whatever holds a text, be it a value of the library or one that only the client can hold, is read by
/// its contents: a floating-point number is its decimal text, and a sequence, key/value pairs and the
/// kinds without a text are refused.
pub proof fn law_text_is_read_by_contents(
    value: RedisValue,
    text: Result<String, redis::ParsingError>,
)
    requires
        call_ensures(redis_value_to_text, (&value,), text),
    ensures
        value@ matches ReplyForm::Double(held) ==> (text matches Ok(text) && text@ == held),
        value@ matches ReplyForm::SimpleString(held) ==> (text matches Ok(text) && text@ == held),
        value@ matches ReplyForm::BulkString(bytes) ==> (valid_utf8(bytes) <==> text is Ok),
        value@ matches ReplyForm::BulkString(bytes) ==> (text matches Ok(text) ==> text@
            == decode_utf8(bytes)),
        value@ is Array || value@ is Dictionary || value@ is Other || value@ is Nil
            || value@ is Boolean ==> text is Err,
        text matches Err(err) ==> is_refusal(value, err),
{
}

/// An error names the first part that is refused: of a sequence the first item that cannot be
/// normalized, of key/value pairs the first key without a text or value that cannot be normalized, and
/// of anything else the value itself.
pub proof fn law_first_refused_part_is_named(
    value: RedisValue,
    err: redis::ParsingError,
    at: int,
)
    requires
        call_ensures(redis_value_to_json_value, (&value,), Err(err)),
        value matches RedisValue::Array(items) ==> 0 <= at < items@.len() && normalized(
            items@[at],
        ) is None && forall|i: int| 0 <= i < at ==> normalized(#[trigger] items@[i]) is Some,
        value matches RedisValue::Dictionary(pairs) ==> 0 <= at < pairs@.len() && (value_text(
            pairs@[at].0,
        ) is None || normalized(pairs@[at].1) is None) && forall|i: int|
            0 <= i < at ==> value_text((#[trigger] pairs@[i]).0) is Some && normalized(
                pairs@[i].1,
            ) is Some,
    ensures
        match value {
            RedisValue::Array(items) => names_part(refused_part(items@[at]), err),
            RedisValue::Dictionary(pairs) => if value_text(pairs@[at].0) is None {
                is_refusal(pairs@[at].0, err)
            } else {
                names_part(refused_part(pairs@[at].1), err)
            },
            other => is_refusal(other, err),
        },
{
    match value {
        RedisValue::Array(items) => {
            let upto = items@.take(at + 1);
            let before = items@.take(at);
            assert(upto.drop_last() =~= before);
            lemma_list_by_place(before);
            assert forall|i: int| 0 <= i < before.len() implies normalized(
                #[trigger] before[i],
            ) is Some by {
                assert(before[i] == items@[i]);
            }
            law_list_is_normalized_unless_a_part_is_refused(before);
            law_value_is_normalized_unless_a_part_is_refused(items@[at]);
            assert(refused_item(upto) == refused_part(items@[at]));
            lemma_first_of_items(items@, at + 1);
        },
        RedisValue::Dictionary(pairs) => {
            let upto = pairs@.take(at + 1);
            let before = pairs@.take(at);
            assert(upto.drop_last() =~= before);
            lemma_fields_by_key(before);
            assert forall|i: int| 0 <= i < before.len() implies value_text(
                (#[trigger] before[i]).0,
            ) is Some && normalized(before[i].1) is Some by {
                assert(before[i] == pairs@[i]);
            }
            law_fields_are_normalized_unless_a_part_is_refused(before);
            law_value_is_normalized_unless_a_part_is_refused(pairs@[at].1);
            assert(upto.last() == pairs@[at]);
            assert(refused_field(upto) is Some);
            lemma_first_of_fields(pairs@, at + 1);
        },
        _ => {},
    }
}

/// Key/value pairs and sequences are normalized on their own as they are inside a reply value, and the
/// bytes of a value are the payload of its message.
pub proof fn law_parts_are_normalized_alike(
    entries: Vec<(RedisValue, RedisValue)>,
    of_entries: Result<serde_json::Value, redis::ParsingError>,
    of_map: Result<serde_json::Value, redis::ParsingError>,
    sequence: Vec<RedisValue>,
    of_items: Result<serde_json::Value, redis::ParsingError>,
    of_array: Result<serde_json::Value, redis::ParsingError>,
    value: RedisValue,
    bytes: Result<Vec<u8>, redis::ParsingError>,
    message: Result<ByteMessage, redis::ParsingError>,
)
    requires
        call_ensures(redis_map_to_json_value, (&entries,), of_entries),
        call_ensures(redis_value_to_json_value, (&RedisValue::Dictionary(entries),), of_map),
        call_ensures(redis_sequence_to_json_value, (&sequence,), of_items),
        call_ensures(redis_value_to_json_value, (&RedisValue::Array(sequence),), of_array),
        call_ensures(redis_value_to_json_bytes, (&value,), bytes),
        call_ensures(redis_value_to_byte_message, (&value,), message),
    ensures
        of_entries is Ok <==> of_map is Ok,
        of_map matches Ok(json) ==> json_tree(json) == json_tree(of_entries->Ok_0),
        of_items is Ok <==> of_array is Ok,
        of_array matches Ok(json) ==> json_tree(json) == json_tree(of_items->Ok_0),
        bytes is Ok <==> message is Ok,
        message matches Ok(message) ==> message@.value == bytes->Ok_0@,
{
}

} // verus!
