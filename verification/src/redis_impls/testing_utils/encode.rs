//! Encoding of the replies that the mock server sends.
use vstd::prelude::*;
use vstd::string::*;
use vstd::utf8::{
    decode_utf8, encode_utf8, encode_utf8_decode_utf8, is_ascii_chars,
    is_ascii_chars_encode_utf8,
};

use super::resp::{
    all_words, bulk_string, bulk_strings, command_batch, command_of, cuts_character,
    find_line_break, first_line, is_whitespace, law_command_is_taken_from_the_front,
    law_first_line_break_is_first, lemma_separated_words, line_break_at, next_command,
    parse_one_resp_array, parse_resp_commands, resp_array, scan_resp_array, texts, uppercase,
    words, words_of, ArrayParse, ArrayScan, CommandWords, NextCommand, Words,
};
use crate::text::{
    decimal, decimal_text, decimal_value, is_digit, law_decimal_reads_back,
    law_encoding_concatenates, lemma_ascii_encoding, separated,
};

verus! {

/// The line break of the protocol.
pub open spec fn line_break() -> Seq<char> {
    seq!['\r', '\n']
}

/// A line that holds a number behind a sigil, such as `$3` or `*2`.
pub open spec fn header_text(sigil: char, number: nat) -> Seq<char> {
    seq![sigil] + decimal_text(number) + line_break()
}

/// A bulk string: its length in bytes, then the text.
pub open spec fn bulk_text(value: Seq<char>) -> Seq<char> {
    header_text('$', encode_utf8(value).len()) + value + line_break()
}

/// The bulk strings of several texts, one behind the other.
pub open spec fn bulk_texts(values: Seq<Seq<char>>) -> Seq<char>
    decreases values.len(),
{
    if values.len() == 0 {
        seq![]
    } else {
        bulk_text(values[0]) + bulk_texts(values.skip(1))
    }
}

/// An array of bulk strings.
pub open spec fn array_text(values: Seq<Seq<char>>) -> Seq<char> {
    header_text('*', values.len()) + bulk_texts(values)
}

/// Appends a line that holds a number behind a sigil.
pub(crate) fn append_header(text: &mut String, sigil: &str, number: u128)
    requires
        sigil@.len() == 1,
    ensures
        final(text)@ == old(text)@ + header_text(sigil@[0], number as nat),
{
    proof {
        reveal_strlit("\r\n");
    }
    text.append(sigil);
    text.append(decimal(number).as_str());
    text.append("\r\n");
    assert("\r\n"@ =~= line_break());
    assert(sigil@ =~= seq![sigil@[0]]);
    assert(text@ =~= old(text)@ + header_text(sigil@[0], number as nat));
}

/// Appends a bulk string.
pub(crate) fn append_bulk_string(text: &mut String, value: &str)
    ensures
        final(text)@ == old(text)@ + bulk_text(value@),
{
    proof {
        reveal_strlit("\r\n");
        reveal_strlit("$");
    }
    append_header(text, "$", value.as_bytes().len() as u128);
    text.append(value);
    text.append("\r\n");
    assert("\r\n"@ =~= line_break());
    assert(text@ =~= old(text)@ + bulk_text(value@));
}

/// Encodes a text as a bulk string.
pub fn encode_bulk_string(value: &str) -> (encoded: String)
    ensures
        encoded@ == bulk_text(value@),
{
    let mut encoded = String::new();
    append_bulk_string(&mut encoded, value);
    assert(encoded@ =~= bulk_text(value@));
    encoded
}

/// Confirms a subscription: the word `subscribe`, the topic and how many subscriptions there are.
pub open spec fn confirmation_text(topic: Seq<char>, count: nat) -> Seq<char> {
    header_text('*', 3) + bulk_text("subscribe"@) + bulk_text(topic) + header_text(':', count)
}

/// Encodes the confirmation of a subscription.
pub fn encode_subscribe_confirmation(topic: &str, subscription_count: usize) -> (encoded: String)
    ensures
        encoded@ == confirmation_text(topic@, subscription_count as nat),
{
    proof {
        reveal_strlit("*");
        reveal_strlit(":");
    }
    let mut encoded = String::new();
    append_header(&mut encoded, "*", 3);
    append_bulk_string(&mut encoded, "subscribe");
    append_bulk_string(&mut encoded, topic);
    append_header(&mut encoded, ":", subscription_count as u128);
    assert(encoded@ =~= confirmation_text(topic@, subscription_count as nat));
    encoded
}

/// Delivers a published payload: the word `message`, the topic and the payload.
pub open spec fn delivery_text(topic: Seq<char>, payload: Seq<char>) -> Seq<char> {
    header_text('*', 3) + bulk_text("message"@) + bulk_text(topic) + bulk_text(payload)
}

/// Encodes the delivery of a published payload.
pub fn encode_pubsub_message(topic: &str, payload: &str) -> (encoded: String)
    ensures
        encoded@ == delivery_text(topic@, payload@),
{
    proof {
        reveal_strlit("*");
    }
    let mut encoded = String::new();
    append_header(&mut encoded, "*", 3);
    append_bulk_string(&mut encoded, "message");
    append_bulk_string(&mut encoded, topic);
    append_bulk_string(&mut encoded, payload);
    assert(encoded@ =~= delivery_text(topic@, payload@));
    encoded
}

proof fn lemma_line_break_bytes()
    ensures
        encode_utf8(line_break()) == seq![13u8, 10u8],
{
    lemma_ascii_encoding('\r');
    lemma_ascii_encoding('\n');
    law_encoding_concatenates(seq!['\r'], seq!['\n']);
    assert(line_break() =~= seq!['\r'] + seq!['\n']);
    assert(seq![13u8] + seq![10u8] =~= seq![13u8, 10u8]);
}

/// The bytes of a header line are found again as the first line, and its number reads back.
pub(crate) proof fn lemma_header_reads_back(sigil: char, number: nat, rest: Seq<u8>)
    requires
        sigil <= '\u{7f}',
        sigil != '\r',
    ensures
        ({
            let line = seq![sigil as u8] + encode_utf8(decimal_text(number));
            first_line(encode_utf8(header_text(sigil, number)) + rest) == Some((line, rest))
                && line.skip(1) == encode_utf8(decimal_text(number))
        }),
{
    let digits = encode_utf8(decimal_text(number));
    let line = seq![sigil as u8] + digits;
    let ending = seq![13u8, 10u8];
    law_decimal_reads_back(number);
    lemma_ascii_encoding(sigil);
    lemma_line_break_bytes();
    law_encoding_concatenates(seq![sigil], decimal_text(number));
    law_encoding_concatenates(seq![sigil] + decimal_text(number), line_break());
    let bytes = encode_utf8(header_text(sigil, number)) + rest;
    assert(bytes =~= line + ending + rest);
    let at = line.len() as int;
    assert(line_break_at(bytes, at));
    assert forall|i: int| 0 <= i < at implies !line_break_at(bytes, i) by {
        if i > 0 {
            assert(bytes[i] == digits[i - 1]);
            assert(is_digit(digits[i - 1]));
        } else {
            assert(bytes[0] == sigil as u8);
        }
    }
    law_first_line_break_is_first(bytes, 0);
    assert(find_line_break(bytes, 0) == Some(at));
    assert(bytes.take(at) =~= line);
    assert(bytes.skip(at + 2) =~= rest);
    assert(line.skip(1) =~= digits);
}

/// A bulk string is read back as the text that it was made from, and what follows it is left.
pub proof fn law_bulk_string_reads_back(value: Seq<char>, rest: Seq<u8>)
    requires
        encode_utf8(value).len() + 2 <= usize::MAX,
    ensures
        bulk_string(encode_utf8(bulk_text(value)) + rest) == (ArrayParse::Parsed {
            tokens: seq![value],
            rest,
        }),
{
    let token = encode_utf8(value);
    let ending = seq![13u8, 10u8];
    let header = header_text('$', token.len());
    lemma_line_break_bytes();
    law_encoding_concatenates(header, value);
    law_encoding_concatenates(header + value, line_break());
    let after = token + ending + rest;
    assert(encode_utf8(bulk_text(value)) + rest =~= encode_utf8(header) + after);
    lemma_header_reads_back('$', token.len(), after);
    law_decimal_reads_back(token.len());
    let len = token.len() as int;
    assert(after[len] == 13);
    assert(!cuts_character(after, len));
    assert(after.take(len) =~= token);
    assert(after.skip(len + 2) =~= rest);
    encode_utf8_decode_utf8(value);
}

pub(crate) proof fn lemma_bulk_strings_read_back(values: Seq<Seq<char>>, rest: Seq<u8>)
    requires
        forall|i: int|
            0 <= i < values.len() ==> encode_utf8(#[trigger] values[i]).len() + 2 <= usize::MAX,
    ensures
        bulk_strings(encode_utf8(bulk_texts(values)) + rest, values.len())
            == (ArrayParse::Parsed { tokens: values, rest }),
    decreases values.len(),
{
    if values.len() == 0 {
        assert(encode_utf8(bulk_texts(values)) + rest =~= rest);
        assert(values =~= seq![]);
    } else {
        let tail = values.skip(1);
        assert forall|i: int| 0 <= i < tail.len() implies encode_utf8(#[trigger] tail[i]).len() + 2
            <= usize::MAX by {
            assert(tail[i] == values[i + 1]);
        }
        let after = encode_utf8(bulk_texts(tail)) + rest;
        law_encoding_concatenates(bulk_text(values[0]), bulk_texts(tail));
        assert(encode_utf8(bulk_texts(values)) + rest =~= encode_utf8(bulk_text(values[0])) + after);
        law_bulk_string_reads_back(values[0], after);
        lemma_bulk_strings_read_back(tail, rest);
        assert(seq![values[0]] + tail =~= values);
    }
}

/// What a client sends as an array of bulk strings is read back as the command of those words, and
/// what follows it is left.
pub proof fn law_command_array_reads_back(values: Seq<Seq<char>>, rest: Seq<u8>)
    requires
        0 < values.len() <= usize::MAX,
        forall|i: int|
            0 <= i < values.len() ==> encode_utf8(#[trigger] values[i]).len() + 2 <= usize::MAX,
    ensures
        next_command(encode_utf8(array_text(values)) + rest) == (NextCommand::Take {
            command: command_of(values)->0,
            rest,
        }),
{
    let header = header_text('*', values.len());
    let after = encode_utf8(bulk_texts(values)) + rest;
    law_encoding_concatenates(header, bulk_texts(values));
    assert(encode_utf8(array_text(values)) + rest =~= encode_utf8(header) + after);
    lemma_header_reads_back('*', values.len(), after);
    law_decimal_reads_back(values.len());
    lemma_bulk_strings_read_back(values, rest);
    let bytes = encode_utf8(header) + after;
    let (line, _) = first_line(bytes)->0;
    law_first_line_break_is_first(bytes, 0);
    assert(bytes[0] == line[0]);
}

/// An encoded text is read as one bulk string that holds the text, whatever that is, and nothing is
/// left behind it.
pub proof fn law_encoded_text_reads_back(value: &str, encoded: String)
    requires
        call_ensures(encode_bulk_string, (value,), encoded),
        value.spec_bytes().len() + 2 <= usize::MAX,
    ensures
        bulk_string(encode_utf8(encoded@)) == (ArrayParse::Parsed {
            tokens: seq![value@],
            rest: seq![],
        }),
{
    law_bulk_string_reads_back(value@, seq![]);
    assert(encode_utf8(encoded@) + seq![] =~= encode_utf8(encoded@));
}

/// A delivery is read as an array of three texts: the word `message`, the topic and the payload,
/// whatever these are. What follows it is left.
#[verifier::rlimit(40)]
pub proof fn law_delivery_reads_back(topic: &str, payload: &str, encoded: String, rest: Seq<u8>)
    requires
        call_ensures(encode_pubsub_message, (topic, payload), encoded),
        topic.spec_bytes().len() + 2 <= usize::MAX,
        payload.spec_bytes().len() + 2 <= usize::MAX,
    ensures
        resp_array(encode_utf8(encoded@) + rest) == (ArrayParse::Parsed {
            tokens: seq!["message"@, topic@, payload@],
            rest,
        }),
{
    let values = seq!["message"@, topic@, payload@];
    lemma_word_is_short();
    assert forall|i: int| 0 <= i < values.len() implies encode_utf8(#[trigger] values[i]).len() + 2
        <= usize::MAX by {
        assert(values[0] == "message"@ && values[1] == topic@ && values[2] == payload@);
    }
    lemma_three_texts("message"@, topic@, payload@);
    let header = header_text('*', 3);
    assert(encoded@ =~= header + bulk_texts(values));
    law_encoding_concatenates(header, bulk_texts(values));
    let after = encode_utf8(bulk_texts(values)) + rest;
    assert(encode_utf8(encoded@) + rest =~= encode_utf8(header) + after);
    lemma_header_reads_back('*', 3, after);
    law_decimal_reads_back(3);
    lemma_bulk_strings_read_back(values, rest);
}

/// A confirmation is read as the line `*3`, the texts `subscribe` and the topic, and a line that holds
/// the number of subscriptions behind a colon. What follows it is left.
#[verifier::rlimit(40)]
pub proof fn law_confirmation_reads_back(
    topic: &str,
    count: usize,
    encoded: String,
    rest: Seq<u8>,
)
    requires
        call_ensures(encode_subscribe_confirmation, (topic, count), encoded),
        topic.spec_bytes().len() + 2 <= usize::MAX,
    ensures
        ({
            &&& first_line(encode_utf8(encoded@) + rest) matches Some((line, texts))
            &&& line == seq![42u8, 51u8]
            &&& bulk_strings(texts, 2) matches ArrayParse::Parsed { tokens, rest: number }
            &&& tokens == seq!["subscribe"@, topic@]
            &&& first_line(number) matches Some((last, left))
            &&& last.len() > 0 && last[0] == 58
            &&& decimal_value(last.skip(1)) == Some(count)
            &&& left == rest
        }),
{
    let values = seq!["subscribe"@, topic@];
    lemma_word_is_short();
    assert forall|i: int| 0 <= i < values.len() implies encode_utf8(#[trigger] values[i]).len() + 2
        <= usize::MAX by {
        assert(values[0] == "subscribe"@ && values[1] == topic@);
    }
    lemma_two_texts("subscribe"@, topic@);
    let header = header_text('*', 3);
    let last = header_text(':', count as nat);
    assert(encoded@ =~= header + (bulk_texts(values) + last));
    law_encoding_concatenates(header, bulk_texts(values) + last);
    law_encoding_concatenates(bulk_texts(values), last);
    let number = encode_utf8(last) + rest;
    let texts = encode_utf8(bulk_texts(values)) + number;
    assert(encode_utf8(encoded@) + rest =~= encode_utf8(header) + texts);
    lemma_header_reads_back('*', 3, texts);
    lemma_header_reads_back(':', count as nat, rest);
    law_decimal_reads_back(count as nat);
    lemma_bulk_strings_read_back(values, number);
    lemma_ascii_encoding('3');
    assert(decimal_text(3) =~= seq!['3']);
    assert(seq!['*' as u8] + encode_utf8(decimal_text(3)) =~= seq![42u8, 51u8]);
}

proof fn lemma_word_is_short()
    ensures
        encode_utf8("message"@).len() + 2 <= usize::MAX,
        encode_utf8("subscribe"@).len() + 2 <= usize::MAX,
{
    reveal_strlit("message");
    reveal_strlit("subscribe");
    assert(is_ascii_chars("message"@));
    assert(is_ascii_chars("subscribe"@));
    is_ascii_chars_encode_utf8("message"@);
    is_ascii_chars_encode_utf8("subscribe"@);
}

pub(crate) proof fn lemma_two_texts(first: Seq<char>, second: Seq<char>)
    ensures
        bulk_texts(seq![first, second]) == bulk_text(first) + bulk_text(second),
{
    let values = seq![first, second];
    reveal_with_fuel(bulk_texts, 3);
    assert(values.skip(1) =~= seq![second]);
    assert(values.skip(1).skip(1) =~= seq![]);
    assert(bulk_texts(values) =~= bulk_text(first) + bulk_text(second));
}

proof fn lemma_three_texts(first: Seq<char>, second: Seq<char>, third: Seq<char>)
    ensures
        bulk_texts(seq![first, second, third]) == bulk_text(first) + bulk_text(second) + bulk_text(
            third,
        ),
{
    let values = seq![first, second, third];
    lemma_two_texts(second, third);
    assert(values.skip(1) =~= seq![second, third]);
    assert(bulk_texts(values) =~= bulk_text(first) + bulk_text(second) + bulk_text(third));
}

/// Several commands as a client sends them, one behind the other.
pub open spec fn arrays_text(commands: Seq<Seq<Seq<char>>>) -> Seq<char>
    decreases commands.len(),
{
    if commands.len() == 0 {
        seq![]
    } else {
        array_text(commands[0]) + arrays_text(commands.skip(1))
    }
}

/// Whatever commands a client sends, one behind the other and each as an array of bulk strings, all of
/// them are read, in order and each with its words, before what follows them.
#[verifier::rlimit(40)]
pub proof fn law_commands_read_back(commands: Seq<Seq<Seq<char>>>, rest: Seq<u8>)
    requires
        forall|c: int| 0 <= c < commands.len() ==> 0 < (#[trigger] commands[c]).len() <= usize::MAX,
        forall|c: int, i: int|
            0 <= c < commands.len() && 0 <= i < commands[c].len() ==> encode_utf8(
                #[trigger] commands[c][i],
            ).len() + 2 <= usize::MAX,
    ensures
        ({
            let all = command_batch(encode_utf8(arrays_text(commands)) + rest);
            let later = command_batch(rest);
            &&& all.commands == Seq::new(
                commands.len(),
                |c: int|
                    Words { name: uppercase(commands[c][0]), args: commands[c].skip(1) },
            ) + later.commands
            &&& all.rest == later.rest
            &&& all.cut == later.cut
        }),
    decreases commands.len(),
{
    let wanted = Seq::new(
        commands.len(),
        |c: int| Words { name: uppercase(commands[c][0]), args: commands[c].skip(1) },
    );
    if commands.len() == 0 {
        assert(encode_utf8(arrays_text(commands)) + rest =~= rest);
        assert(wanted + command_batch(rest).commands =~= command_batch(rest).commands);
    } else {
        let tail = commands.skip(1);
        let first = commands[0];
        assert forall|c: int| 0 <= c < tail.len() implies 0 < (#[trigger] tail[c]).len()
            <= usize::MAX by {
            assert(tail[c] == commands[c + 1]);
        }
        assert forall|c: int, i: int| 0 <= c < tail.len() && 0 <= i < tail[c].len() implies encode_utf8(
            #[trigger] tail[c][i],
        ).len() + 2 <= usize::MAX by {
            assert(tail[c] == commands[c + 1]);
            assert(encode_utf8(commands[c + 1][i]).len() + 2 <= usize::MAX);
        }
        assert forall|i: int| 0 <= i < first.len() implies encode_utf8(#[trigger] first[i]).len()
            + 2 <= usize::MAX by {
            assert(encode_utf8(commands[0][i]).len() + 2 <= usize::MAX);
        }
        let after = encode_utf8(arrays_text(tail)) + rest;
        let bytes = encode_utf8(arrays_text(commands)) + rest;
        law_encoding_concatenates(array_text(first), arrays_text(tail));
        assert(bytes =~= encode_utf8(array_text(first)) + after);
        law_command_array_reads_back(first, after);
        law_command_is_taken_from_the_front(bytes);
        law_commands_read_back(tail, rest);
        let others = Seq::new(
            tail.len(),
            |c: int| Words { name: uppercase(tail[c][0]), args: tail[c].skip(1) },
        );
        let command = Words { name: uppercase(first[0]), args: first.skip(1) };
        assert(wanted =~= seq![command] + others);
        assert(seq![command] + (others + command_batch(rest).commands) =~= wanted + command_batch(
            rest,
        ).commands);
    }
}

/// Commands that are all there are counted whole: where the input is commands, each as an array of bulk
/// strings, all of them are read, each with its words, and all of the input is used up.
pub proof fn law_whole_input_is_used_up(
    commands: Seq<Seq<Seq<char>>>,
    input: &str,
    batch: (Vec<CommandWords>, usize),
)
    requires
        forall|c: int| 0 <= c < commands.len() ==> 0 < (#[trigger] commands[c]).len() <= usize::MAX,
        forall|c: int, i: int|
            0 <= c < commands.len() && 0 <= i < commands[c].len() ==> encode_utf8(
                #[trigger] commands[c][i],
            ).len() + 2 <= usize::MAX,
        input@ == arrays_text(commands),
        call_ensures(parse_resp_commands, (input,), batch),
    ensures
        batch.0@.len() == commands.len(),
        batch.1 == input.spec_bytes().len(),
        forall|c: int|
            0 <= c < commands.len() ==> (#[trigger] batch.0@[c]).0@ == uppercase(commands[c][0])
                && texts(batch.0@[c].1@) == commands[c].skip(1),
{
    let bytes = input.spec_bytes();
    law_commands_read_back(commands, seq![]);
    assert(encode_utf8(arrays_text(commands)) + seq![] =~= bytes);
    assert(next_command(seq![]) is Stop);
    let read = command_batch(bytes).commands;
    assert(all_words(batch.0@) == read);
    assert(all_words(batch.0@).len() == batch.0@.len());
    assert(bytes.skip(batch.1 as int).len() == 0);
    assert forall|c: int| 0 <= c < commands.len() implies (#[trigger] batch.0@[c]).0@ == uppercase(
        commands[c][0],
    ) && texts(batch.0@[c].1@) == commands[c].skip(1) by {
        assert(all_words(batch.0@)[c] == words_of(batch.0@[c]));
        assert(read[c] == (Words { name: uppercase(commands[c][0]), args: commands[c].skip(1) }));
    }
}

/// A line of words, with a space between any two of them and not starting with a star, is read as the
/// command that the words write, and what follows the line is left.
pub proof fn law_inline_line_reads_back(tokens: Seq<Seq<char>>, rest: Seq<u8>)
    requires
        tokens.len() > 0,
        forall|i: int| 0 <= i < tokens.len() ==> (#[trigger] tokens[i]).len() > 0,
        forall|i: int, k: int|
            0 <= i < tokens.len() && 0 <= k < tokens[i].len() ==> !is_whitespace(
                #[trigger] tokens[i][k],
            ),
        forall|i: int| !line_break_at(encode_utf8(separated(tokens, seq![' '])), i),
        encode_utf8(separated(tokens, seq![' '])).last() != 13,
        encode_utf8(separated(tokens, seq![' ']))[0] != 42,
    ensures
        next_command(encode_utf8(separated(tokens, seq![' '])) + seq![13u8, 10u8] + rest) == (
        NextCommand::Take {
            command: Words { name: uppercase(tokens[0]), args: tokens.skip(1) },
            rest,
        }),
{
    let line = separated(tokens, seq![' ']);
    let written = encode_utf8(line);
    let bytes = written + seq![13u8, 10u8] + rest;
    let at = written.len() as int;
    lemma_separated_words(tokens);
    encode_utf8_decode_utf8(line);
    assert(written.len() > 0) by {
        if written.len() == 0 {
            assert(written =~= encode_utf8(seq![]));
            encode_utf8_decode_utf8(seq![]);
            assert(line =~= seq![]);
            assert(words(line) =~= seq![]);
        }
    }
    assert(line_break_at(bytes, at));
    assert forall|i: int| 0 <= i < at implies !line_break_at(bytes, i) by {
        assert(!line_break_at(written, i));
        if i == at - 1 {
            assert(bytes[i] == written.last());
        }
    }
    law_first_line_break_is_first(bytes, 0);
    assert(find_line_break(bytes, 0) == Some(at));
    assert(bytes.take(at) =~= written);
    assert(bytes.skip(at + 2) =~= rest);
    assert(bytes[0] == written[0]);
}

/// Every reader of arrays reads the same: an array of bulk strings with something behind it is read as
/// its texts, and as the command that they write, and what stands behind it is left.
pub proof fn law_every_reader_reads_the_array(
    values: Seq<Seq<char>>,
    behind: Seq<char>,
    input: &str,
    scan: ArrayScan<'_>,
    parsed: Option<(CommandWords, &str)>,
)
    requires
        0 < values.len() <= usize::MAX,
        forall|i: int|
            0 <= i < values.len() ==> encode_utf8(#[trigger] values[i]).len() + 2 <= usize::MAX,
        input@ == array_text(values) + behind,
        call_ensures(scan_resp_array, (input,), scan),
        call_ensures(parse_one_resp_array, (input,), parsed),
    ensures
        scan matches ArrayScan::Parsed(tokens, rest) && texts(tokens@) == values
            && rest.spec_bytes() == encode_utf8(behind),
        parsed matches Some((command, rest)) && command.0@ == uppercase(values[0]) && texts(
            command.1@,
        ) == values.skip(1) && rest.spec_bytes() == encode_utf8(behind),
{
    let rest = encode_utf8(behind);
    let header = header_text('*', values.len());
    let after = encode_utf8(bulk_texts(values)) + rest;
    law_encoding_concatenates(array_text(values), behind);
    law_encoding_concatenates(header, bulk_texts(values));
    assert(input.spec_bytes() =~= encode_utf8(header) + after);
    lemma_header_reads_back('*', values.len(), after);
    law_decimal_reads_back(values.len());
    lemma_bulk_strings_read_back(values, rest);
    assert(resp_array(input.spec_bytes()) == (ArrayParse::Parsed { tokens: values, rest }));
}

/// What is not an array of bulk strings is not taken for one: not where the number behind the star is
/// none, nor where what follows does not start with a dollar sign and a number. A line without a word
/// is no command either.
pub proof fn law_malformed_input_is_no_command(number: Seq<u8>, element: Seq<u8>, rest: Seq<u8>)
    requires
        forall|i: int| 0 <= i < number.len() ==> #[trigger] number[i] != 13,
        forall|i: int| 0 <= i < element.len() ==> #[trigger] element[i] != 13,
    ensures
        decimal_value(number) is None ==> next_command(
            seq![42u8] + number + seq![13u8, 10u8] + rest,
        ) is Stop,
        decimal_value(number) matches Some(count) && count > 0 && (element.len() == 0 || element[0]
            != 36 || decimal_value(element.skip(1)) is None) ==> next_command(
            seq![42u8] + number + seq![13u8, 10u8] + (element + seq![13u8, 10u8] + rest),
        ) is Stop,
        next_command(seq![13u8, 10u8] + rest) is Stop,
{
    let header = seq![42u8] + number;
    let tail = element + seq![13u8, 10u8] + rest;
    lemma_line_without_break(header, rest);
    lemma_line_without_break(header, tail);
    lemma_line_without_break(element, rest);
    lemma_line_without_break(seq![], rest);
    assert(header.skip(1) =~= number);
    assert(seq![] + seq![13u8, 10u8] + rest =~= seq![13u8, 10u8] + rest);
    assert(decode_utf8(seq![]) =~= seq![]);
}

proof fn lemma_line_without_break(line: Seq<u8>, rest: Seq<u8>)
    requires
        forall|i: int| 0 <= i < line.len() ==> #[trigger] line[i] != 13,
    ensures
        first_line(line + seq![13u8, 10u8] + rest) == Some((line, rest)),
{
    let bytes = line + seq![13u8, 10u8] + rest;
    let at = line.len() as int;
    assert(line_break_at(bytes, at));
    assert forall|i: int| 0 <= i < at implies !line_break_at(bytes, i) by {
        assert(bytes[i] == line[i]);
    }
    law_first_line_break_is_first(bytes, 0);
    assert(find_line_break(bytes, 0) == Some(at));
    assert(bytes.take(at) =~= line);
    assert(bytes.skip(at + 2) =~= rest);
}

} // verus!
