//! The commands that the mock server understands.
use vstd::prelude::*;
use vstd::string::*;

use super::resp::{texts, Words};
use crate::text::{
    decimal_text, lemma_decimal_has_no_dash, same_text, separated, view_opt,
};

verus! {

/// A client command.
#[derive(Debug, PartialEq, Eq)]
pub enum Command {
    /// A `CLIENT` command.
    Client { args: Vec<String> },
    /// A `PUBLISH` command.
    Publish { topic: String, payload: String },
    /// An `XADD` command. `fields` holds the ordered field/value pairs after the entry ID.
    Xadd { topic: String, fields: Vec<(String, String)> },
    /// An `XRANGE` command.
    Xrange { topic: String },
    /// An `XREAD` command.
    Xread { topic: String, last_seen: String },
    /// A `SUBSCRIBE` command.
    Subscribe { topics: Vec<String> },
    /// Any other command.
    Unknown { name: String, args: Vec<String> },
}

/// The model of a [`Command`].
pub enum CommandModel {
    Client { args: Seq<Seq<char>> },
    Publish { topic: Seq<char>, payload: Seq<char> },
    Xadd { topic: Seq<char>, fields: Seq<(Seq<char>, Seq<char>)> },
    Xrange { topic: Seq<char> },
    Xread { topic: Seq<char>, last_seen: Seq<char> },
    Subscribe { topics: Seq<Seq<char>> },
    Unknown { name: Seq<char>, args: Seq<Seq<char>> },
}

/// The texts that a sequence of field/value pairs holds.
pub open spec fn pair_texts(pairs: Seq<(String, String)>) -> Seq<(Seq<char>, Seq<char>)> {
    pairs.map_values(|pair: (String, String)| (pair.0@, pair.1@))
}

impl View for Command {
    type V = CommandModel;

    open spec fn view(&self) -> CommandModel {
        match *self {
            Command::Client { args } => CommandModel::Client { args: texts(args@) },
            Command::Publish { topic, payload } => CommandModel::Publish {
                topic: topic@,
                payload: payload@,
            },
            Command::Xadd { topic, fields } => CommandModel::Xadd {
                topic: topic@,
                fields: pair_texts(fields@),
            },
            Command::Xrange { topic } => CommandModel::Xrange { topic: topic@ },
            Command::Xread { topic, last_seen } => CommandModel::Xread {
                topic: topic@,
                last_seen: last_seen@,
            },
            Command::Subscribe { topics } => CommandModel::Subscribe { topics: texts(topics@) },
            Command::Unknown { name, args } => CommandModel::Unknown {
                name: name@,
                args: texts(args@),
            },
        }
    }
}

/// Whether a token is the entry ID of an `XADD`: `*`, or something with a dash such as `1-0`.
pub open spec fn is_entry_id(token: Seq<char>) -> bool {
    token == "*"@ || token.contains('-')
}

/// Where the fields of an `XADD` start: behind the first entry ID, or at the end if there is none.
pub open spec fn fields_start(args: Seq<Seq<char>>, from: int) -> int
    decreases args.len() - from,
{
    if from >= args.len() {
        args.len() as int
    } else if is_entry_id(args[from]) {
        from + 1
    } else {
        fields_start(args, from + 1)
    }
}

/// Tokens taken two by two; an odd one at the end is left out.
pub open spec fn paired(tokens: Seq<Seq<char>>) -> Seq<(Seq<char>, Seq<char>)> {
    Seq::new((tokens.len() / 2) as nat, |i: int| (tokens[2 * i], tokens[2 * i + 1]))
}

/// The token behind the first `STREAMS` at or after `from`.
pub open spec fn streams_topic(args: Seq<Seq<char>>, from: int) -> Option<Seq<char>>
    decreases args.len() - from,
{
    if from >= args.len() {
        None
    } else if args[from] == "STREAMS"@ {
        if from + 1 < args.len() {
            Some(args[from + 1])
        } else {
            None
        }
    } else {
        streams_topic(args, from + 1)
    }
}

/// The command that a name and its arguments ask for.
pub open spec fn understood(words: Words) -> CommandModel {
    let Words { name, args } = words;
    if name == "CLIENT"@ {
        CommandModel::Client { args }
    } else if name == "PUBLISH"@ && args.len() >= 2 {
        CommandModel::Publish { topic: args[0], payload: args.last() }
    } else if name == "XADD"@ && args.len() >= 4 {
        CommandModel::Xadd { topic: args[0], fields: paired(args.skip(fields_start(args, 1))) }
    } else if name == "XRANGE"@ && args.len() >= 1 {
        CommandModel::Xrange { topic: args[0] }
    } else if name == "XREAD"@ && streams_topic(args, 0) is Some {
        CommandModel::Xread { topic: streams_topic(args, 0)->0, last_seen: args.last() }
    } else if name == "SUBSCRIBE"@ {
        CommandModel::Subscribe { topics: args }
    } else {
        CommandModel::Unknown { name, args }
    }
}

/// Whether the text holds a dash.
fn has_dash(text: &str) -> (found: bool)
    ensures
        found == text@.contains('-'),
{
    let len: usize = text.unicode_len();
    let mut at: usize = 0;
    while at < len
        invariant
            at <= len,
            len == text@.len(),
            forall|i: int| 0 <= i < at ==> text@[i] != '-',
        decreases len - at,
    {
        if text.get_char(at) == '-' {
            assert(text@[at as int] == '-');
            return true;
        }
        at = at + 1;
    }
    false
}

/// Copies the field/value pairs of an `XADD` out of its arguments.
fn xadd_fields(args: &Vec<String>) -> (fields: Vec<(String, String)>)
    requires
        args.len() >= 1,
    ensures
        pair_texts(fields@) == paired(texts(args@).skip(fields_start(texts(args@), 1))),
{
    let ghost tokens = texts(args@);
    let len: usize = args.len();
    let mut start: usize = 1;
    while start < len && !(same_text(args[start].as_str(), "*") || has_dash(args[start].as_str()))
        invariant
            1 <= start <= len,
            len == args.len(),
            tokens == texts(args@),
            fields_start(tokens, start as int) == fields_start(tokens, 1),
        decreases len - start,
    {
        assert(tokens[start as int] == args@[start as int]@);
        start = start + 1;
    }
    if start < len {
        assert(tokens[start as int] == args@[start as int]@);
        start = start + 1;
    }
    let ghost behind = tokens.skip(start as int);
    assert(start == fields_start(tokens, 1));
    let mut fields: Vec<(String, String)> = Vec::new();
    let mut at: usize = start;
    assert(pair_texts(fields@) =~= paired(behind).take(0));
    while len - at >= 2
        invariant
            start <= at <= len,
            len == args.len(),
            tokens == texts(args@),
            behind == tokens.skip(start as int),
            at - start == 2 * fields.len(),
            pair_texts(fields@) == paired(behind).take(fields.len() as int),
        decreases len - at,
    {
        let ghost before = fields@;
        fields.push((args[at].clone(), args[at + 1].clone()));
        proof {
            let i = before.len() as int;
            assert(behind[2 * i] == args@[at as int]@);
            assert(behind[2 * i + 1] == args@[at + 1]@);
            assert(pair_texts(fields@) =~= pair_texts(before).push(paired(behind)[i]));
            assert(paired(behind).take(i + 1) =~= paired(behind).take(i).push(paired(behind)[i]));
        }
        at = at + 2;
    }
    assert(paired(behind).take(fields.len() as int) =~= paired(behind));
    fields
}

/// Finds the topic of an `XREAD`.
fn xread_topic(args: &Vec<String>) -> (topic: Option<String>)
    ensures
        view_opt(topic) == streams_topic(texts(args@), 0),
{
    let ghost tokens = texts(args@);
    let len: usize = args.len();
    let mut at: usize = 0;
    while at < len
        invariant
            at <= len,
            len == args.len(),
            tokens == texts(args@),
            streams_topic(tokens, at as int) == streams_topic(tokens, 0),
        decreases len - at,
    {
        assert(tokens[at as int] == args@[at as int]@);
        if same_text(args[at].as_str(), "STREAMS") {
            if at + 1 < len {
                assert(tokens[at + 1] == args@[at + 1]@);
                return Some(args[at + 1].clone());
            }
            return None;
        }
        at = at + 1;
    }
    None
}

impl Command {
    /// Understands a command by its name and arguments.
    pub fn from_parts(name: String, args: Vec<String>) -> (command: Command)
        ensures
            command@ == understood(Words { name: name@, args: texts(args@) }),
    {
        let ghost tokens = texts(args@);
        let count: usize = args.len();
        proof {
            if count > 0 {
                assert(tokens[0] == args@[0]@);
                assert(tokens.last() == args@.last()@);
            }
        }
        if same_text(name.as_str(), "CLIENT") {
            Command::Client { args }
        } else if same_text(name.as_str(), "PUBLISH") && count >= 2 {
            Command::Publish { topic: args[0].clone(), payload: args[count - 1].clone() }
        } else if same_text(name.as_str(), "XADD") && count >= 4 {
            Command::Xadd { topic: args[0].clone(), fields: xadd_fields(&args) }
        } else if same_text(name.as_str(), "XRANGE") && count >= 1 {
            Command::Xrange { topic: args[0].clone() }
        } else if same_text(name.as_str(), "XREAD") {
            match xread_topic(&args) {
                Some(topic) => {
                    assert(count > 0);
                    Command::Xread { topic, last_seen: args[count - 1].clone() }
                },
                None => {
                    proof {
                        reveal_strlit("XREAD");
                        reveal_strlit("SUBSCRIBE");
                        assert("XREAD"@.len() != "SUBSCRIBE"@.len());
                    }
                    Command::Unknown { name, args }
                },
            }
        } else if same_text(name.as_str(), "SUBSCRIBE") {
            Command::Subscribe { topics: args }
        } else {
            Command::Unknown { name, args }
        }
    }
}

/// How a text is shown for debugging: in quotation marks, with what needs it escaped. The standard
/// library decides what that is.
pub uninterp spec fn debug_text(text: Seq<char>) -> Seq<char>;

/// Shows a text for debugging.
///
/// Trusts the `Debug` formatting of [`str`]: the result is a function of the text alone.
#[verifier::external_body]
fn show_text(text: &str) -> (shown: String)
    ensures
        shown@ == debug_text(text@),
{
    format!("{text:?}")
}

/// How a list is shown for debugging.
pub open spec fn debug_list(items: Seq<Seq<char>>) -> Seq<char> {
    "["@ + separated(items, ", "@) + "]"@
}

/// How a field/value pair is shown for debugging.
pub open spec fn debug_pair(pair: (Seq<char>, Seq<char>)) -> Seq<char> {
    "("@ + debug_text(pair.0) + ", "@ + debug_text(pair.1) + ")"@
}

/// How a list of texts is shown for debugging.
pub open spec fn debug_texts(items: Seq<Seq<char>>) -> Seq<char> {
    debug_list(items.map_values(|item: Seq<char>| debug_text(item)))
}

/// One line that tells what a command asks for.
pub open spec fn description(command: CommandModel) -> Seq<char> {
    match command {
        CommandModel::Client { args } => "CLIENT "@ + debug_texts(args),
        CommandModel::Publish { topic, payload } => "PUBLISH "@ + debug_texts(seq![topic, payload]),
        CommandModel::Xadd { topic, fields } => "XADD "@ + debug_list(
            seq![
                debug_text(topic),
                debug_list(fields.map_values(|pair: (Seq<char>, Seq<char>)| debug_pair(pair))),
            ],
        ),
        CommandModel::Xrange { topic } => "XRANGE "@ + debug_texts(seq![topic]),
        CommandModel::Xread { topic, last_seen } => "XREAD "@ + debug_texts(seq![topic, last_seen]),
        CommandModel::Subscribe { topics } => "SUBSCRIBE "@ + debug_texts(topics),
        CommandModel::Unknown { name, args } => name + " "@ + debug_texts(args),
    }
}

/// Appends a list whose items are shown already.
fn append_list(text: &mut String, items: &Vec<String>)
    ensures
        final(text)@ == old(text)@ + debug_list(texts(items@)),
{
    let ghost start = old(text)@ + "["@;
    let ghost shown = texts(items@);
    text.append("[");
    let mut at: usize = 0;
    assert(text@ =~= start + separated(shown.take(0), ", "@));
    while at < items.len()
        invariant
            at <= items.len(),
            shown == texts(items@),
            text@ == start + separated(shown.take(at as int), ", "@),
        decreases items.len() - at,
    {
        if at > 0 {
            text.append(", ");
        }
        text.append(items[at].as_str());
        proof {
            let upto = shown.take(at + 1);
            assert(upto.drop_last() =~= shown.take(at as int));
            assert(upto.last() == items@[at as int]@);
            assert(text@ =~= start + separated(upto, ", "@));
        }
        at = at + 1;
    }
    text.append("]");
    assert(shown.take(at as int) =~= shown);
    assert(text@ =~= old(text)@ + debug_list(shown));
}

/// Appends a list of texts.
fn append_texts(text: &mut String, items: &Vec<String>)
    ensures
        final(text)@ == old(text)@ + debug_texts(texts(items@)),
{
    let ghost wanted = texts(items@).map_values(|item: Seq<char>| debug_text(item));
    let mut shown: Vec<String> = Vec::new();
    let mut at: usize = 0;
    while at < items.len()
        invariant
            at == shown.len(),
            at <= items.len(),
            wanted == texts(items@).map_values(|item: Seq<char>| debug_text(item)),
            texts(shown@) =~= wanted.take(at as int),
        decreases items.len() - at,
    {
        let ghost before = texts(shown@);
        shown.push(show_text(items[at].as_str()));
        proof {
            assert(texts(shown@) =~= before.push(shown@.last()@));
            assert(wanted.take(at + 1) =~= wanted.take(at as int).push(wanted[at as int]));
        }
        at = at + 1;
    }
    assert(texts(shown@) =~= wanted);
    append_list(text, &shown);
}

/// Shows the field/value pairs of an `XADD`.
fn show_pairs(fields: &Vec<(String, String)>) -> (shown: String)
    ensures
        shown@ == debug_list(
            pair_texts(fields@).map_values(|pair: (Seq<char>, Seq<char>)| debug_pair(pair)),
        ),
{
    let ghost wanted = pair_texts(fields@).map_values(
        |pair: (Seq<char>, Seq<char>)| debug_pair(pair),
    );
    let mut items: Vec<String> = Vec::new();
    let mut at: usize = 0;
    while at < fields.len()
        invariant
            at == items.len(),
            at <= fields.len(),
            wanted == pair_texts(fields@).map_values(
                |pair: (Seq<char>, Seq<char>)| debug_pair(pair),
            ),
            texts(items@) =~= wanted.take(at as int),
        decreases fields.len() - at,
    {
        let mut item = String::new();
        item.append("(");
        item.append(show_text(fields[at].0.as_str()).as_str());
        item.append(", ");
        item.append(show_text(fields[at].1.as_str()).as_str());
        item.append(")");
        let ghost before = texts(items@);
        proof {
            assert(item@ =~= wanted[at as int]);
            assert(wanted.take(at + 1) =~= wanted.take(at as int).push(wanted[at as int]));
        }
        items.push(item);
        assert(texts(items@) =~= before.push(item@));
        at = at + 1;
    }
    assert(texts(items@) =~= wanted);
    let mut shown = String::new();
    append_list(&mut shown, &items);
    assert(shown@ =~= debug_list(wanted));
    shown
}

/// Describes a command that has one or two texts.
fn describe_texts(name: &str, items: Vec<String>) -> (line: String)
    ensures
        line@ == name@ + debug_texts(texts(items@)),
{
    let mut line = String::new();
    line.append(name);
    append_texts(&mut line, &items);
    assert(line@ =~= name@ + debug_texts(texts(items@)));
    line
}

impl Command {
    /// Tells in one line what the command asks for.
    pub fn describe(&self) -> (line: String)
        ensures
            line@ == description(self@),
    {
        let mut line = String::new();
        match self {
            Command::Client { args } => {
                line.append("CLIENT ");
                append_texts(&mut line, args);
            },
            Command::Publish { topic, payload } => {
                let items = vec![topic.clone(), payload.clone()];
                assert(texts(items@) =~= seq![topic@, payload@]);
                line = describe_texts("PUBLISH ", items);
            },
            Command::Xadd { topic, fields } => {
                let items = vec![show_text(topic.as_str()), show_pairs(fields)];
                proof {
                    let shown = debug_list(
                        pair_texts(fields@).map_values(
                            |pair: (Seq<char>, Seq<char>)| debug_pair(pair),
                        ),
                    );
                    assert(texts(items@) =~= seq![debug_text(topic@), shown]);
                }
                line.append("XADD ");
                append_list(&mut line, &items);
            },
            Command::Xrange { topic } => {
                let items = vec![topic.clone()];
                assert(texts(items@) =~= seq![topic@]);
                line = describe_texts("XRANGE ", items);
            },
            Command::Xread { topic, last_seen } => {
                let items = vec![topic.clone(), last_seen.clone()];
                assert(texts(items@) =~= seq![topic@, last_seen@]);
                line = describe_texts("XREAD ", items);
            },
            Command::Subscribe { topics } => {
                line.append("SUBSCRIBE ");
                append_texts(&mut line, topics);
            },
            Command::Unknown { name, args } => {
                line.append(name.as_str());
                line.append(" ");
                append_texts(&mut line, args);
            },
        }
        assert(line@ =~= description(self@));
        line
    }
}

/// Field/value pairs as a flat list of tokens.
pub open spec fn flat_fields(fields: Seq<(Seq<char>, Seq<char>)>) -> Seq<Seq<char>> {
    Seq::new(
        2 * fields.len(),
        |i: int|
            if i % 2 == 0 {
                fields[i / 2].0
            } else {
                fields[i / 2].1
            },
    )
}

/// The arguments of an `XADD` that trims the stream and lets the server assign the identifier.
pub open spec fn trimming_xadd_args(
    topic: Seq<char>,
    trim: Seq<char>,
    limit: nat,
    fields: Seq<(Seq<char>, Seq<char>)>,
) -> Seq<Seq<char>> {
    seq![topic, "MAXLEN"@, trim, decimal_text(limit), "*"@] + flat_fields(fields)
}

/// An `XADD` that trims the stream, exactly or approximately, is understood as adding its fields to
/// its topic, whatever the fields are.
pub proof fn law_trimming_xadd_is_understood(
    topic: Seq<char>,
    trim: Seq<char>,
    limit: nat,
    fields: Seq<(Seq<char>, Seq<char>)>,
)
    requires
        trim == "~"@ || trim == "="@,
    ensures
        understood(
            Words { name: "XADD"@, args: trimming_xadd_args(topic, trim, limit, fields) },
        ) == (CommandModel::Xadd { topic, fields }),
{
    reveal_strlit("CLIENT");
    reveal_strlit("PUBLISH");
    reveal_strlit("XADD");
    reveal_strlit("MAXLEN");
    reveal_strlit("~");
    reveal_strlit("=");
    reveal_strlit("*");
    let args = trimming_xadd_args(topic, trim, limit, fields);
    lemma_decimal_has_no_dash(limit);
    lemma_decimal_is_no_star(limit);
    assert("MAXLEN"@.len() != "*"@.len());
    assert(!"MAXLEN"@.contains('-')) by {
        assert forall|i: int| 0 <= i < 6 implies "MAXLEN"@[i] != '-' by {}
    }
    assert(trim[0] != '*' && !trim.contains('-'));
    assert(args[1] == "MAXLEN"@ && args[2] == trim && args[3] == decimal_text(limit));
    assert(args[4] == "*"@);
    assert(!is_entry_id(args[1]) && !is_entry_id(args[2]) && !is_entry_id(args[3]));
    reveal_with_fuel(fields_start, 5);
    assert(fields_start(args, 1) == 5);
    assert(args.skip(5) =~= flat_fields(fields));
    assert(paired(flat_fields(fields)) =~= fields);
    assert("XADD"@.len() != "CLIENT"@.len() && "XADD"@.len() != "PUBLISH"@.len());
}

proof fn lemma_decimal_is_no_star(number: nat)
    ensures
        decimal_text(number) != "*"@,
{
    reveal_strlit("*");
    if decimal_text(number) == "*"@ {
        assert(decimal_text(number)[0] == '*');
        if number >= 10 {
            lemma_decimal_has_no_dash(number / 10);
            assert(decimal_text(number).len() == decimal_text(number / 10).len() + 1);
        }
    }
}

/// The names of the commands are different names.
proof fn lemma_names_differ()
    ensures
        "CLIENT"@.len() == 6 && "CLIENT"@[0] == 'C',
        "XRANGE"@.len() == 6 && "XRANGE"@[0] == 'X',
        "PUBLISH"@.len() == 7,
        "XADD"@.len() == 4,
        "XREAD"@.len() == 5,
        "SUBSCRIBE"@.len() == 9,
{
    reveal_strlit("CLIENT");
    reveal_strlit("XRANGE");
    reveal_strlit("PUBLISH");
    reveal_strlit("XADD");
    reveal_strlit("XREAD");
    reveal_strlit("SUBSCRIBE");
}

proof fn lemma_fields_start(args: Seq<Seq<char>>, from: int, at: int)
    requires
        0 <= from <= at < args.len(),
        is_entry_id(args[at]),
        forall|i: int| from <= i < at ==> !is_entry_id(#[trigger] args[i]),
    ensures
        fields_start(args, from) == at + 1,
    decreases at - from,
{
    if from < at {
        lemma_fields_start(args, from + 1, at);
    }
}

proof fn lemma_streams_topic(args: Seq<Seq<char>>, from: int, at: int)
    requires
        0 <= from <= at < args.len(),
        args[at] == "STREAMS"@,
        forall|i: int| from <= i < at ==> #[trigger] args[i] != "STREAMS"@,
    ensures
        streams_topic(args, from) == if at + 1 < args.len() {
            Some(args[at + 1])
        } else {
            None
        },
    decreases at - from,
{
    if from < at {
        lemma_streams_topic(args, from + 1, at);
    }
}

proof fn lemma_no_streams_topic(args: Seq<Seq<char>>, from: int)
    requires
        0 <= from <= args.len(),
        forall|i: int| from <= i < args.len() ==> #[trigger] args[i] != "STREAMS"@,
    ensures
        streams_topic(args, from) is None,
    decreases args.len() - from,
{
    if from < args.len() {
        lemma_no_streams_topic(args, from + 1);
    }
}

/// A command is understood by its name: `CLIENT` and `SUBSCRIBE` keep all their arguments; `PUBLISH`
/// takes its topic from the first argument and its payload from the last, and `XRANGE` its topic from
/// the first. One that lacks the arguments it needs, or has another name, is unknown, and keeps its
/// name and its arguments.
#[verifier::rlimit(40)]
pub proof fn law_command_is_understood_by_its_name(
    name: String,
    args: Vec<String>,
    command: Command,
)
    requires
        call_ensures(Command::from_parts, (name, args), command),
    ensures
        name@ == "CLIENT"@ ==> (command matches Command::Client { args: kept } && texts(kept@)
            == texts(args@)),
        name@ == "SUBSCRIBE"@ ==> (command matches Command::Subscribe { topics } && texts(topics@)
            == texts(args@)),
        name@ == "PUBLISH"@ && args@.len() >= 2 ==> (command matches Command::Publish {
            topic,
            payload,
        } && topic@ == args@[0]@ && payload@ == args@[args@.len() - 1]@),
        name@ == "XRANGE"@ && args@.len() >= 1 ==> (command matches Command::Xrange { topic }
            && topic@ == args@[0]@),
        name@ == "XADD"@ && args@.len() >= 4 ==> (command matches Command::Xadd { topic, .. }
            && topic@ == args@[0]@),
        ({
            ||| name@ == "PUBLISH"@ && args@.len() < 2
            ||| name@ == "XADD"@ && args@.len() < 4
            ||| name@ == "XRANGE"@ && args@.len() < 1
            ||| {
                &&& name@ != "CLIENT"@
                &&& name@ != "SUBSCRIBE"@
                &&& name@ != "PUBLISH"@
                &&& name@ != "XADD"@
                &&& name@ != "XRANGE"@
                &&& name@ != "XREAD"@
            }
        }) ==> (command matches Command::Unknown { name: kept, args: all } && kept@ == name@
            && texts(all@) == texts(args@)),
{
    lemma_names_differ();
    let tokens = texts(args@);
    if args@.len() > 0 {
        assert(tokens[0] == args@[0]@);
        assert(tokens.last() == args@[args@.len() - 1]@);
    }
}

/// An `XADD` with at least four arguments adds what stands behind its entry ID, the first argument
/// behind the topic that is `*` or holds a dash: the arguments there are taken two by two, as a name
/// and a value, in order, and an odd one at the end is left out. Whatever stands between the topic and
/// the entry ID is passed over.
#[verifier::rlimit(40)]
pub proof fn law_xadd_adds_what_follows_the_entry_id(
    name: String,
    args: Vec<String>,
    command: Command,
    at: int,
)
    requires
        call_ensures(Command::from_parts, (name, args), command),
        name@ == "XADD"@,
        args@.len() >= 4,
        1 <= at < args@.len(),
        args@[at]@ == seq!['*'] || args@[at]@.contains('-'),
        forall|i: int|
            1 <= i < at ==> (#[trigger] args@[i])@ != seq!['*'] && !args@[i]@.contains('-'),
    ensures
        command matches Command::Xadd { topic, fields } && topic@ == args@[0]@ && fields@.len() == (
        args@.len() - at - 1) / 2 && forall|i: int|
            0 <= i < fields@.len() ==> (#[trigger] fields@[i]).0@ == args@[at + 1 + 2 * i]@
                && fields@[i].1@ == args@[at + 2 + 2 * i]@,
{
    reveal_strlit("*");
    assert("*"@ =~= seq!['*']);
    lemma_names_differ();
    let tokens = texts(args@);
    assert(tokens[at] == args@[at]@);
    assert forall|i: int| 1 <= i < at implies !is_entry_id(#[trigger] tokens[i]) by {
        assert(tokens[i] == args@[i]@);
    }
    lemma_fields_start(tokens, 1, at);
    if let Command::Xadd { topic, fields } = command {
        let behind = tokens.skip(at + 1);
        assert(pair_texts(fields@) == paired(behind));
        assert(pair_texts(fields@).len() == fields@.len());
        assert forall|i: int| 0 <= i < fields@.len() implies (#[trigger] fields@[i]).0@ == args@[at
            + 1 + 2 * i]@ && fields@[i].1@ == args@[at + 2 + 2 * i]@ by {
            assert(pair_texts(fields@)[i] == (fields@[i].0@, fields@[i].1@));
            assert(behind[2 * i] == tokens[at + 1 + 2 * i]);
            assert(behind[2 * i + 1] == tokens[at + 2 + 2 * i]);
        }
    }
}

/// An `XREAD` reads the topic behind its first `STREAMS`, from the identifier that is its last
/// argument on. Without a `STREAMS`, or with nothing behind it, it is unknown.
pub proof fn law_xread_reads_the_topic_behind_streams(
    name: String,
    args: Vec<String>,
    command: Command,
    at: int,
)
    requires
        call_ensures(Command::from_parts, (name, args), command),
        name@ == "XREAD"@,
        0 <= at <= args@.len(),
        at < args@.len() ==> args@[at]@ == "STREAMS"@,
        forall|i: int| 0 <= i < at ==> (#[trigger] args@[i])@ != "STREAMS"@,
    ensures
        at + 1 < args@.len() ==> (command matches Command::Xread { topic, last_seen } && topic@
            == args@[at + 1]@ && last_seen@ == args@[args@.len() - 1]@),
        at + 1 >= args@.len() ==> (command matches Command::Unknown { name: kept, args: all }
            && kept@ == name@ && texts(all@) == texts(args@)),
{
    lemma_names_differ();
    let tokens = texts(args@);
    assert forall|i: int| 0 <= i < at implies #[trigger] tokens[i] != "STREAMS"@ by {
        assert(tokens[i] == args@[i]@);
    }
    if at < args@.len() {
        assert(tokens[at] == args@[at]@);
        lemma_streams_topic(tokens, 0, at);
        assert(tokens.last() == args@[args@.len() - 1]@);
        if at + 1 < args@.len() {
            assert(tokens[at + 1] == args@[at + 1]@);
        }
    } else {
        lemma_no_streams_topic(tokens, 0);
    }
}

/// A command on a topic shows its name, its topic and what it has besides, in square brackets and
/// with a comma between them.
#[verifier::rlimit(40)]
pub proof fn law_description_shows_the_topic(
    topic: String,
    other: String,
    publish: String,
    xread: String,
    xrange: String,
)
    requires
        call_ensures(Command::describe, (&Command::Publish { topic, payload: other },), publish),
        call_ensures(Command::describe, (&Command::Xread { topic, last_seen: other },), xread),
        call_ensures(Command::describe, (&Command::Xrange { topic },), xrange),
    ensures
        publish@ == "PUBLISH "@ + "["@ + debug_text(topic@) + ", "@ + debug_text(other@) + "]"@,
        xread@ == "XREAD "@ + "["@ + debug_text(topic@) + ", "@ + debug_text(other@) + "]"@,
        xrange@ == "XRANGE "@ + "["@ + debug_text(topic@) + "]"@,
{
    let both = seq![topic@, other@].map_values(|item: Seq<char>| debug_text(item));
    assert(both =~= seq![debug_text(topic@), debug_text(other@)]);
    assert(both.drop_last() =~= seq![debug_text(topic@)]);
    reveal_with_fuel(separated, 3);
    assert(separated(both, ", "@) == debug_text(topic@) + ", "@ + debug_text(other@));
    let one = seq![topic@].map_values(|item: Seq<char>| debug_text(item));
    assert(one =~= seq![debug_text(topic@)]);
    assert(publish@ =~= "PUBLISH "@ + "["@ + debug_text(topic@) + ", "@ + debug_text(other@)
        + "]"@);
    assert(xread@ =~= "XREAD "@ + "["@ + debug_text(topic@) + ", "@ + debug_text(other@) + "]"@);
    assert(xrange@ =~= "XRANGE "@ + "["@ + debug_text(topic@) + "]"@);
}

proof fn lemma_list_of_two(head: Seq<char>, tail: Seq<char>)
    ensures
        debug_list(seq![head, tail]) == "["@ + (head + ", "@ + tail) + "]"@,
{
    let items = seq![head, tail];
    assert(items.drop_last() =~= seq![head]);
    reveal_with_fuel(separated, 3);
    assert(separated(items, ", "@) == head + ", "@ + tail);
}

proof fn lemma_list_grows(few: Seq<Seq<char>>, last: Seq<char>)
    ensures
        few.len() == 0 ==> debug_list(few) == "["@ + "]"@ && debug_list(few.push(last)) == "["@
            + last + "]"@,
        few.len() > 0 ==> debug_list(few.push(last)) == debug_list(few).drop_last() + (", "@ + last
            + "]"@),
        debug_list(few).len() > 0,
{
    reveal_strlit("]");
    let many = few.push(last);
    assert(many.drop_last() =~= few);
    if few.len() == 0 {
        assert(separated(few, ", "@) =~= seq![]);
        assert(debug_list(few) =~= "["@ + "]"@);
    } else {
        let list = separated(few, ", "@);
        assert(debug_list(few).drop_last() =~= "["@ + list);
        assert(debug_list(many) =~= "["@ + list + (", "@ + last + "]"@));
    }
}

proof fn lemma_shown_pairs_grow(fields: Seq<(String, String)>, more: Seq<(String, String)>)
    requires
        more.len() == fields.len() + 1,
        forall|i: int|
            0 <= i < fields.len() ==> (#[trigger] more[i]).0@ == fields[i].0@ && more[i].1@
                == fields[i].1@,
    ensures
        pair_texts(more).map_values(|pair: (Seq<char>, Seq<char>)| debug_pair(pair)) == pair_texts(
            fields,
        ).map_values(|pair: (Seq<char>, Seq<char>)| debug_pair(pair)).push(
            "("@ + debug_text(more.last().0@) + ", "@ + debug_text(more.last().1@) + ")"@,
        ),
{
    let few = pair_texts(fields).map_values(|pair: (Seq<char>, Seq<char>)| debug_pair(pair));
    let many = pair_texts(more).map_values(|pair: (Seq<char>, Seq<char>)| debug_pair(pair));
    let last = "("@ + debug_text(more.last().0@) + ", "@ + debug_text(more.last().1@) + ")"@;
    assert forall|i: int| 0 <= i < many.len() implies many[i] == few.push(last)[i] by {
        assert(pair_texts(more)[i] == (more[i].0@, more[i].1@));
        if i < few.len() {
            assert(pair_texts(fields)[i] == (fields[i].0@, fields[i].1@));
        }
    }
    assert(many =~= few.push(last));
}

proof fn lemma_start_of_line(name: Seq<char>, head: Seq<char>, inner: Seq<char>)
    ensures
        name + ("["@ + (head + ", "@ + inner) + "]"@) == name + "["@ + head + ", "@ + inner + "]"@,
{
    assert(name + ("["@ + (head + ", "@ + inner) + "]"@) =~= name + "["@ + head + ", "@ + inner
        + "]"@);
}

proof fn lemma_end_of_line(start: Seq<char>, inner: Seq<char>, more: Seq<char>)
    requires
        inner.len() > 0,
    ensures
        ({
            let line = start + inner + "]"@;
            &&& line.len() > start.len() + 1
            &&& start + (inner.drop_last() + more) + "]"@ == line.take(line.len() - 2) + more
                + "]"@
        }),
{
    reveal_strlit("]");
    let line = start + inner + "]"@;
    assert(line.take(line.len() - 2) =~= start + inner.drop_last());
    assert(start + (inner.drop_last() + more) + "]"@ =~= line.take(line.len() - 2) + more + "]"@);
}

/// An `XADD` shows its topic and the list of its fields, each as a pair in round brackets: one with a
/// further field shows that one last, and the others as before.
#[verifier::rlimit(40)]
pub proof fn law_description_lists_every_field(
    topic: String,
    fields: Vec<(String, String)>,
    more: Vec<(String, String)>,
    shown: String,
    longer: String,
)
    requires
        more@.len() == fields@.len() + 1,
        forall|i: int|
            0 <= i < fields@.len() ==> (#[trigger] more@[i]).0@ == fields@[i].0@ && more@[i].1@
                == fields@[i].1@,
        call_ensures(Command::describe, (&Command::Xadd { topic, fields },), shown),
        call_ensures(Command::describe, (&Command::Xadd { topic, fields: more },), longer),
    ensures
        ({
            let start = "XADD "@ + "["@ + debug_text(topic@) + ", "@;
            let last = "("@ + debug_text(more@.last().0@) + ", "@ + debug_text(more@.last().1@)
                + ")"@;
            if fields@.len() == 0 {
                &&& shown@ == start + ("["@ + "]"@) + "]"@
                &&& longer@ == start + ("["@ + last + "]"@) + "]"@
            } else {
                &&& shown@.len() > start.len() + 1
                &&& longer@ == shown@.take(shown@.len() - 2) + (", "@ + last + "]"@) + "]"@
            }
        }),
{
    let few = pair_texts(fields@).map_values(|pair: (Seq<char>, Seq<char>)| debug_pair(pair));
    let many = pair_texts(more@).map_values(|pair: (Seq<char>, Seq<char>)| debug_pair(pair));
    let last = "("@ + debug_text(more@.last().0@) + ", "@ + debug_text(more@.last().1@) + ")"@;
    lemma_shown_pairs_grow(fields@, more@);
    let head = debug_text(topic@);
    let start = "XADD "@ + "["@ + head + ", "@;
    let inner = debug_list(few);
    let outer = debug_list(many);
    lemma_list_of_two(head, inner);
    lemma_list_of_two(head, outer);
    lemma_start_of_line("XADD "@, head, inner);
    lemma_start_of_line("XADD "@, head, outer);
    lemma_list_grows(few, last);
    if fields@.len() > 0 {
        lemma_end_of_line(start, inner, ", "@ + last + "]"@);
    }
}

/// A `CLIENT`, a `SUBSCRIBE` and an unknown command show their name and, in square brackets, their
/// arguments as the standard library shows texts for debugging, with a comma between them: one with a
/// further argument shows that one last, and the others as before.
#[verifier::rlimit(40)]
pub proof fn law_description_lists_every_argument(
    name: String,
    args: Vec<String>,
    more: Vec<String>,
    command: Command,
    longer: Command,
    shown: String,
    more_shown: String,
)
    requires
        more@.len() == args@.len() + 1,
        forall|i: int| 0 <= i < args@.len() ==> (#[trigger] more@[i])@ == args@[i]@,
        ({
            ||| name@ == "CLIENT"@ && command == (Command::Client { args }) && longer == (
            Command::Client { args: more })
            ||| name@ == "SUBSCRIBE"@ && command == (Command::Subscribe { topics: args }) && longer
                == (Command::Subscribe { topics: more })
            ||| command == (Command::Unknown { name, args }) && longer == (Command::Unknown {
                name,
                args: more,
            })
        }),
        call_ensures(Command::describe, (&command,), shown),
        call_ensures(Command::describe, (&longer,), more_shown),
    ensures
        ({
            let start = name@ + " "@;
            let last = debug_text(more@.last()@);
            if args@.len() == 0 {
                &&& shown@ == start + ("["@ + "]"@)
                &&& more_shown@ == start + ("["@ + last + "]"@)
            } else {
                &&& shown@.len() > start.len()
                &&& more_shown@ == shown@.drop_last() + (", "@ + last + "]"@)
            }
        }),
{
    reveal_strlit("CLIENT");
    reveal_strlit("CLIENT ");
    reveal_strlit("SUBSCRIBE");
    reveal_strlit("SUBSCRIBE ");
    reveal_strlit(" ");
    assert("CLIENT "@ =~= "CLIENT"@ + " "@);
    assert("SUBSCRIBE "@ =~= "SUBSCRIBE"@ + " "@);
    let start = name@ + " "@;
    let last = debug_text(more@.last()@);
    let few = texts(args@).map_values(|item: Seq<char>| debug_text(item));
    let many = texts(more@).map_values(|item: Seq<char>| debug_text(item));
    assert(many =~= few.push(last)) by {
        assert forall|i: int| 0 <= i < few.len() implies many[i] == few[i] by {
            assert(texts(more@)[i] == more@[i]@);
            assert(texts(args@)[i] == args@[i]@);
        }
        assert(many[few.len() as int] == last);
    }
    lemma_list_grows(few, last);
    let list = debug_list(few);
    assert(shown@ == start + list);
    assert(more_shown@ == start + debug_list(many));
    if args@.len() > 0 {
        assert(shown@.drop_last() =~= start + list.drop_last());
        assert(more_shown@ =~= shown@.drop_last() + (", "@ + last + "]"@));
    }
}

/// An `XADD` without an entry ID adds an entry without fields.
pub proof fn law_xadd_without_an_entry_id_has_no_fields(
    name: String,
    args: Vec<String>,
    command: Command,
)
    requires
        call_ensures(Command::from_parts, (name, args), command),
        name@ == "XADD"@,
        args@.len() >= 4,
        forall|i: int|
            1 <= i < args@.len() ==> (#[trigger] args@[i])@ != seq!['*'] && !args@[i]@.contains(
                '-',
            ),
    ensures
        command matches Command::Xadd { topic, fields } && topic@ == args@[0]@ && fields@.len() == 0,
{
    reveal_strlit("*");
    assert("*"@ =~= seq!['*']);
    lemma_names_differ();
    let tokens = texts(args@);
    assert forall|i: int| 1 <= i < tokens.len() implies !is_entry_id(#[trigger] tokens[i]) by {
        assert(tokens[i] == args@[i]@);
    }
    lemma_no_fields_start(tokens, 1);
    if let Command::Xadd { topic, fields } = command {
        assert(pair_texts(fields@).len() == fields@.len());
        assert(paired(tokens.skip(tokens.len() as int)).len() == 0);
    }
}

proof fn lemma_no_fields_start(args: Seq<Seq<char>>, from: int)
    requires
        0 <= from <= args.len(),
        forall|i: int| from <= i < args.len() ==> !is_entry_id(#[trigger] args[i]),
    ensures
        fields_start(args, from) == args.len(),
    decreases args.len() - from,
{
    if from < args.len() {
        lemma_no_fields_start(args, from + 1);
    }
}

} // verus!
