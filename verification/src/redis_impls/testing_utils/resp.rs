//! Parsing of the Redis serialization protocol, as a server reads it from a client.
//!
//! A command arrives either as an array of bulk strings (`*2\r\n$4\r\nPING\r\n...`) or inline, as
//! one line of words separated by white space.
use vstd::prelude::*;
use vstd::string::*;
use vstd::utf8::{
    decode_utf8, encode_utf8_decode_utf8, encode_utf8_valid_utf8, is_ascii_chars, is_char_boundary,
    is_char_boundary_iff_not_is_continuation_byte, is_continuation_byte, valid_utf8,
};

use crate::text::{decimal_value, parse_decimal, separated};

verus! {

/// A command as it was sent: its name in upper case, and its arguments.
pub type CommandWords = (String, Vec<String>);

/// The model of [`CommandWords`].
#[verifier::ext_equal]
pub struct Words {
    pub name: Seq<char>,
    pub args: Seq<Seq<char>>,
}

/// The texts that a sequence of strings holds.
pub open spec fn texts(strings: Seq<String>) -> Seq<Seq<char>> {
    strings.map_values(|string: String| string@)
}

/// The model of a command.
pub open spec fn words_of(command: CommandWords) -> Words {
    Words { name: command.0@, args: texts(command.1@) }
}

/// Whether a line break stands at `at`.
pub open spec fn line_break_at(bytes: Seq<u8>, at: int) -> bool {
    0 <= at && at + 1 < bytes.len() && bytes[at] == 13 && bytes[at + 1] == 10
}

/// Where the first line break at or after `from` stands.
pub open spec fn find_line_break(bytes: Seq<u8>, from: int) -> Option<int>
    decreases bytes.len() - from,
{
    if from + 1 >= bytes.len() {
        None
    } else if line_break_at(bytes, from) {
        Some(from)
    } else {
        find_line_break(bytes, from + 1)
    }
}

/// What stands before the first line break, and what stands after it.
pub open spec fn first_line(bytes: Seq<u8>) -> Option<(Seq<u8>, Seq<u8>)> {
    match find_line_break(bytes, 0) {
        Some(at) => Some((bytes.take(at), bytes.skip(at + 2))),
        None => None,
    }
}

/// The first line break is a line break, and none stands before it; where none is found, there
/// is none.
pub proof fn law_first_line_break_is_first(bytes: Seq<u8>, from: int)
    requires
        0 <= from,
    ensures
        match find_line_break(bytes, from) {
            Some(at) => from <= at && line_break_at(bytes, at) && forall|i: int|
                from <= i < at ==> !line_break_at(bytes, i),
            None => forall|i: int| from <= i ==> !line_break_at(bytes, i),
        },
    decreases bytes.len() - from,
{
    if from + 1 < bytes.len() && !line_break_at(bytes, from) {
        law_first_line_break_is_first(bytes, from + 1);
    }
}

/// Splits the input at its first line break. The line break belongs to neither part.
pub fn split_line(input: &str) -> (parts: Option<(&str, &str)>)
    ensures
        match parts {
            Some((line, rest)) => first_line(input.spec_bytes()) == Some(
                (line.spec_bytes(), rest.spec_bytes()),
            ),
            None => first_line(input.spec_bytes()) is None,
        },
{
    let bytes = input.as_bytes();
    let mut at: usize = 0;
    while at < bytes.len() && at + 1 < bytes.len()
        invariant
            bytes@ == input.spec_bytes(),
            at <= bytes.len(),
            find_line_break(bytes@, 0) == find_line_break(bytes@, at as int),
        decreases bytes.len() - at,
    {
        if bytes[at] == 13 && bytes[at + 1] == 10 {
            proof {
                encode_utf8_valid_utf8(input@);
                is_char_boundary_iff_not_is_continuation_byte(bytes@, at as int);
            }
            let (line, tail) = input.split_at(at);
            proof {
                encode_utf8_valid_utf8(tail@);
                lemma_boundary_after_line_break(tail.spec_bytes());
            }
            let (_, rest) = tail.split_at(2);
            assert(rest.spec_bytes() =~= bytes@.skip(at + 2));
            assert(line.spec_bytes() =~= bytes@.take(at as int));
            return Some((line, rest));
        }
        at = at + 1;
    }
    None
}

/// The two bytes of a line break are two characters.
proof fn lemma_boundary_after_line_break(bytes: Seq<u8>)
    requires
        valid_utf8(bytes),
        line_break_at(bytes, 0),
    ensures
        is_char_boundary(bytes, 2),
{
    reveal_with_fuel(is_char_boundary, 3);
    reveal_with_fuel(valid_utf8, 3);
    assert(vstd::utf8::pop_first_scalar(bytes)[0] == bytes[1]);
}

/// The `len` bytes at the front and what follows the line break behind them, if the input is long
/// enough and the line break is there.
pub open spec fn bulk_token(bytes: Seq<u8>, len: int) -> Option<(Seq<u8>, Seq<u8>)> {
    if line_break_at(bytes, len) {
        Some((bytes.take(len), bytes.skip(len + 2)))
    } else {
        None
    }
}

/// Whether a token of `len` bytes would end inside a character of the input, or its end lies
/// beyond any address.
pub open spec fn cuts_character(bytes: Seq<u8>, len: int) -> bool {
    ||| len + 2 > usize::MAX
    ||| len + 2 <= bytes.len() && is_continuation_byte(bytes[len])
}

/// Reads a token of `len` bytes and the line break behind it.
pub fn parse_bulk_token(input: &str, len: usize) -> (parts: Option<(&str, &str)>)
    requires
        !cuts_character(input.spec_bytes(), len as int),
    ensures
        match parts {
            Some((token, rest)) => bulk_token(input.spec_bytes(), len as int) == Some(
                (token.spec_bytes(), rest.spec_bytes()),
            ),
            None => bulk_token(input.spec_bytes(), len as int) is None,
        },
{
    let bytes = input.as_bytes();
    if bytes.len() < len + 2 {
        return None;
    }
    proof {
        encode_utf8_valid_utf8(input@);
        is_char_boundary_iff_not_is_continuation_byte(bytes@, len as int);
    }
    if bytes[len] != 13 || bytes[len + 1] != 10 {
        return None;
    }
    let (token, suffix) = input.split_at(len);
    proof {
        encode_utf8_valid_utf8(suffix@);
        lemma_boundary_after_line_break(suffix.spec_bytes());
    }
    let (_, rest) = suffix.split_at(2);
    assert(rest.spec_bytes() =~= bytes@.skip(len + 2));
    assert(token.spec_bytes() =~= bytes@.take(len as int));
    Some((token, rest))
}

/// What reading an array of bulk strings gives.
pub enum ArrayParse {
    /// The input is not such an array, or not yet all of one.
    Unparsed,
    /// A token would end inside a character, see [`cuts_character`].
    Cut,
    /// The tokens, and what follows them.
    Parsed { tokens: Seq<Seq<char>>, rest: Seq<u8> },
}

/// The same parse with tokens put in front.
pub open spec fn preceded(front: Seq<Seq<char>>, parse: ArrayParse) -> ArrayParse {
    match parse {
        ArrayParse::Parsed { tokens, rest } => ArrayParse::Parsed { tokens: front + tokens, rest },
        other => other,
    }
}

/// Reads one bulk string: a line `$<len>`, then a token of that many bytes.
pub open spec fn bulk_string(bytes: Seq<u8>) -> ArrayParse {
    match first_line(bytes) {
        None => ArrayParse::Unparsed,
        Some((line, after)) => if line.len() == 0 || line[0] != 36 {
            ArrayParse::Unparsed
        } else {
            match decimal_value(line.skip(1)) {
                None => ArrayParse::Unparsed,
                Some(len) => if cuts_character(after, len as int) {
                    ArrayParse::Cut
                } else {
                    match bulk_token(after, len as int) {
                        None => ArrayParse::Unparsed,
                        Some((token, rest)) => ArrayParse::Parsed {
                            tokens: seq![decode_utf8(token)],
                            rest,
                        },
                    }
                },
            }
        },
    }
}

/// Reads `count` bulk strings.
pub open spec fn bulk_strings(bytes: Seq<u8>, count: nat) -> ArrayParse
    decreases count,
{
    if count == 0 {
        ArrayParse::Parsed { tokens: seq![], rest: bytes }
    } else {
        match bulk_string(bytes) {
            ArrayParse::Parsed { tokens, rest } => preceded(
                tokens,
                bulk_strings(rest, (count - 1) as nat),
            ),
            other => other,
        }
    }
}

/// Reads an array of bulk strings: a line `*<count>`, then that many bulk strings.
pub open spec fn resp_array(bytes: Seq<u8>) -> ArrayParse {
    match first_line(bytes) {
        None => ArrayParse::Unparsed,
        Some((line, rest)) => if line.len() == 0 || line[0] != 42 {
            ArrayParse::Unparsed
        } else {
            match decimal_value(line.skip(1)) {
                None => ArrayParse::Unparsed,
                Some(count) => bulk_strings(rest, count as nat),
            }
        },
    }
}

/// What scanning an array of bulk strings gives; see [`ArrayParse`].
pub enum ArrayScan<'a> {
    /// The input is not such an array, or not yet all of one.
    Unparsed,
    /// A token would end inside a character.
    Cut,
    /// The tokens, and what follows them.
    Parsed(Vec<String>, &'a str),
}

/// The model of a scan.
pub open spec fn scanned(scan: ArrayScan) -> ArrayParse {
    match scan {
        ArrayScan::Unparsed => ArrayParse::Unparsed,
        ArrayScan::Cut => ArrayParse::Cut,
        ArrayScan::Parsed(tokens, rest) => ArrayParse::Parsed {
            tokens: texts(tokens@),
            rest: rest.spec_bytes(),
        },
    }
}

/// Reads the number behind the first byte of a line, if that byte is `sigil`.
fn parse_header(line: &str, sigil: u8) -> (number: Option<usize>)
    ensures
        number == (if line.spec_bytes().len() == 0 || line.spec_bytes()[0] != sigil {
            None
        } else {
            decimal_value(line.spec_bytes().skip(1))
        }),
{
    let bytes = line.as_bytes();
    if bytes.len() == 0 || bytes[0] != sigil {
        return None;
    }
    parse_decimal(bytes, 1)
}

/// Scans `count` bulk strings.
fn scan_bulk_strings<'a>(input: &'a str, count: usize) -> (scan: ArrayScan<'a>)
    ensures
        scanned(scan) == bulk_strings(input.spec_bytes(), count as nat),
{
    let mut rest: &'a str = input;
    let mut tokens: Vec<String> = Vec::new();
    let mut left: usize = count;
    assert(texts(tokens@) =~= seq![]);
    assert(preceded(texts(tokens@), bulk_strings(rest.spec_bytes(), left as nat)) =~= bulk_strings(
        input.spec_bytes(),
        count as nat,
    )) by {
        lemma_nothing_precedes(bulk_strings(rest.spec_bytes(), left as nat));
    }
    while left > 0
        invariant
            preceded(texts(tokens@), bulk_strings(rest.spec_bytes(), left as nat)) == bulk_strings(
                input.spec_bytes(),
                count as nat,
            ),
        decreases left,
    {
        let (line, after) = match split_line(rest) {
            Some(parts) => parts,
            None => {
                return ArrayScan::Unparsed;
            },
        };
        let len: usize = match parse_header(line, 36) {
            Some(len) => len,
            None => {
                return ArrayScan::Unparsed;
            },
        };
        if len > usize::MAX - 2 {
            return ArrayScan::Cut;
        }
        let after_bytes = after.as_bytes();
        if len + 2 <= after_bytes.len() && 0x80 <= after_bytes[len] && after_bytes[len] <= 0xbf {
            return ArrayScan::Cut;
        }
        let (token, behind) = match parse_bulk_token(after, len) {
            Some(parts) => parts,
            None => {
                return ArrayScan::Unparsed;
            },
        };
        let ghost before = texts(tokens@);
        tokens.push(token.to_string());
        proof {
            encode_utf8_decode_utf8(token@);
            assert(texts(tokens@) =~= before + seq![token@]);
            let tail = bulk_strings(behind.spec_bytes(), (left - 1) as nat);
            lemma_preceded_twice(before, seq![token@], tail);
        }
        rest = behind;
        left = left - 1;
    }
    proof {
        let all = texts(tokens@);
        assert(all + seq![] =~= all);
    }
    ArrayScan::Parsed(tokens, rest)
}

proof fn lemma_nothing_precedes(parse: ArrayParse)
    ensures
        preceded(seq![], parse) == parse,
{
    if let ArrayParse::Parsed { tokens, rest } = parse {
        assert(seq![] + tokens =~= tokens);
    }
}

proof fn lemma_preceded_twice(first: Seq<Seq<char>>, second: Seq<Seq<char>>, parse: ArrayParse)
    ensures
        preceded(first, preceded(second, parse)) == preceded(first + second, parse),
{
    if let ArrayParse::Parsed { tokens, rest } = parse {
        assert(first + (second + tokens) =~= (first + second) + tokens);
    }
}

/// Scans an array of bulk strings.
pub fn scan_resp_array<'a>(input: &'a str) -> (scan: ArrayScan<'a>)
    ensures
        scanned(scan) == resp_array(input.spec_bytes()),
{
    match split_line(input) {
        None => ArrayScan::Unparsed,
        Some((header, rest)) => match parse_header(header, 42) {
            None => ArrayScan::Unparsed,
            Some(count) => scan_bulk_strings(rest, count),
        },
    }
}

/// The upper-case form of a text that is not all ASCII, which Unicode defines.
pub uninterp spec fn unicode_uppercase(text: Seq<char>) -> Seq<char>;

/// The upper-case form of an ASCII character.
pub open spec fn ascii_uppercase(c: char) -> char {
    if 'a' <= c <= 'z' {
        (c as u32 - 32) as char
    } else {
        c
    }
}

/// The upper-case form of a text.
pub open spec fn uppercase(text: Seq<char>) -> Seq<char> {
    if is_ascii_chars(text) {
        text.map_values(|c: char| ascii_uppercase(c))
    } else {
        unicode_uppercase(text)
    }
}

/// Converts a text to upper case.
///
/// Trusts [`str::to_uppercase`]: of ASCII text it maps each letter, and of any other text the
/// result is a function of the text alone.
#[verifier::external_body]
fn to_uppercase(text: &str) -> (upper: String)
    ensures
        is_ascii_chars(text@) ==> upper@ == text@.map_values(|c: char| ascii_uppercase(c)),
        !is_ascii_chars(text@) ==> upper@ == unicode_uppercase(text@),
{
    text.to_uppercase()
}

/// Whether a character is white space: whether it has the Unicode property `White_Space`.
pub open spec fn is_whitespace(c: char) -> bool {
    ||| c == ' '
    ||| '\t' <= c <= '\r'
    ||| c == '\u{85}'
    ||| c == '\u{a0}'
    ||| c == '\u{1680}'
    ||| '\u{2000}' <= c <= '\u{200a}'
    ||| c == '\u{2028}'
    ||| c == '\u{2029}'
    ||| c == '\u{202f}'
    ||| c == '\u{205f}'
    ||| c == '\u{3000}'
}

/// Tells white space from other characters.
fn char_is_whitespace(c: char) -> (space: bool)
    ensures
        space == is_whitespace(c),
{
    c == ' ' || ('\t' <= c && c <= '\r') || c == '\u{85}' || c == '\u{a0}' || c == '\u{1680}' || (
    '\u{2000}' <= c && c <= '\u{200a}') || c == '\u{2028}' || c == '\u{2029}' || c == '\u{202f}' || c
        == '\u{205f}' || c == '\u{3000}'
}

/// How many characters at the front are not white space.
pub open spec fn word_len(text: Seq<char>) -> nat
    decreases text.len(),
{
    if text.len() == 0 || is_whitespace(text[0]) {
        0
    } else {
        1 + word_len(text.drop_first())
    }
}

/// A word is no longer than the text it stands in.
proof fn lemma_word_len(text: Seq<char>)
    ensures
        word_len(text) <= text.len(),
        text.len() > 0 && !is_whitespace(text[0]) ==> word_len(text) > 0,
    decreases text.len(),
{
    if text.len() > 0 && !is_whitespace(text[0]) {
        lemma_word_len(text.drop_first());
    }
}

/// The words of a text: its longest runs without white space, in order.
pub open spec fn words(text: Seq<char>) -> Seq<Seq<char>>
    decreases text.len(),
    via words_decreases
{
    if text.len() == 0 {
        seq![]
    } else if is_whitespace(text[0]) {
        words(text.drop_first())
    } else {
        seq![text.take(word_len(text) as int)] + words(text.skip(word_len(text) as int))
    }
}

#[via_fn]
proof fn words_decreases(text: Seq<char>) {
    lemma_word_len(text);
}

/// Splits a text into its words.
fn split_words(text: &str) -> (found: Vec<String>)
    ensures
        texts(found@) == words(text@),
{
    let len: usize = text.unicode_len();
    let mut found: Vec<String> = Vec::new();
    let mut at: usize = 0;
    assert(text@.skip(0) =~= text@);
    assert(texts(found@) + words(text@) =~= words(text@));
    while at < len
        invariant
            at <= len,
            len == text@.len(),
            texts(found@) + words(text@.skip(at as int)) == words(text@),
        decreases len - at,
    {
        let ghost ahead = text@.skip(at as int);
        if char_is_whitespace(text.get_char(at)) {
            assert(ahead.drop_first() =~= text@.skip(at + 1));
            at = at + 1;
        } else {
            let mut end: usize = at;
            while end < len && !char_is_whitespace(text.get_char(end))
                invariant
                    at <= end <= len,
                    len == text@.len(),
                    word_len(text@.skip(at as int)) == (end - at) + word_len(
                        text@.skip(end as int),
                    ),
                decreases len - end,
            {
                assert(text@.skip(end as int).drop_first() =~= text@.skip(end + 1));
                end = end + 1;
            }
            assert(word_len(text@.skip(end as int)) == 0);
            let word = text.substring_char(at, end);
            let ghost before = texts(found@);
            found.push(word.to_string());
            proof {
                assert(word@ =~= ahead.take(word_len(ahead) as int));
                assert(texts(found@) =~= before + seq![word@]);
                assert(ahead.skip(end - at) =~= text@.skip(end as int));
                assert(before + (seq![word@] + words(ahead.skip(end - at))) =~= (before + seq![
                    word@,
                ]) + words(text@.skip(end as int)));
                lemma_word_len(ahead);
            }
            at = end;
        }
    }
    assert(texts(found@) + words(text@.skip(at as int)) =~= texts(found@));
    found
}

/// The command that a sequence of tokens writes: the first token names it.
pub open spec fn command_of(tokens: Seq<Seq<char>>) -> Option<Words> {
    if tokens.len() == 0 {
        None
    } else {
        Some(Words { name: uppercase(tokens[0]), args: tokens.skip(1) })
    }
}

/// The model of an optional command.
pub open spec fn words_opt(command: Option<CommandWords>) -> Option<Words> {
    match command {
        Some(command) => Some(words_of(command)),
        None => None,
    }
}

/// Makes a command of its tokens. No token, no command.
pub fn build_command(parts: Vec<String>) -> (command: Option<CommandWords>)
    ensures
        words_opt(command) == command_of(texts(parts@)),
{
    if parts.len() == 0 {
        return None;
    }
    let mut args = parts;
    let name = args.remove(0);
    assert(texts(args@) =~= texts(parts@).skip(1));
    Some((to_uppercase(name.as_str()), args))
}

/// Reads one command from an array of bulk strings, and returns what follows it.
pub fn parse_one_resp_array<'a>(input: &'a str) -> (parsed: Option<(CommandWords, &'a str)>)
    requires
        !(resp_array(input.spec_bytes()) is Cut),
    ensures
        match parsed {
            Some((command, rest)) => resp_array(input.spec_bytes()) matches ArrayParse::Parsed {
                tokens,
                rest: behind,
            } && command_of(tokens) == Some(words_of(command)) && behind == rest.spec_bytes(),
            None => !(resp_array(input.spec_bytes()) matches ArrayParse::Parsed { tokens, .. }
                && command_of(tokens) is Some),
        },
{
    match scan_resp_array(input) {
        ArrayScan::Parsed(tokens, rest) => match build_command(tokens) {
            Some(command) => Some((command, rest)),
            None => None,
        },
        _ => None,
    }
}

/// Reads an inline command: the words of one line.
pub fn parse_resp_command(data: &str) -> (command: Option<CommandWords>)
    ensures
        words_opt(command) == command_of(words(data@)),
{
    build_command(split_words(data))
}

/// What the front of the input holds.
pub enum NextCommand {
    /// No command, or not yet all of one.
    Stop,
    /// A token that would end inside a character.
    Cut,
    /// A command, and what follows it.
    Take { command: Words, rest: Seq<u8> },
}

/// Reads the command at the front of the input, of either form.
pub open spec fn next_command(bytes: Seq<u8>) -> NextCommand {
    if bytes.len() > 0 && bytes[0] == 42 {
        match resp_array(bytes) {
            ArrayParse::Unparsed => NextCommand::Stop,
            ArrayParse::Cut => NextCommand::Cut,
            ArrayParse::Parsed { tokens, rest } => match command_of(tokens) {
                Some(command) => NextCommand::Take { command, rest },
                None => NextCommand::Stop,
            },
        }
    } else {
        match first_line(bytes) {
            None => NextCommand::Stop,
            Some((line, rest)) => match command_of(words(decode_utf8(line))) {
                Some(command) => NextCommand::Take { command, rest },
                None => NextCommand::Stop,
            },
        }
    }
}

/// All the commands at the front of the input.
pub struct Batch {
    /// The commands, in order.
    pub commands: Seq<Words>,
    /// What follows the last of them.
    pub rest: Seq<u8>,
    /// Whether what follows holds a token that would end inside a character.
    pub cut: bool,
}

/// The same batch with commands put in front.
pub open spec fn batch_after(front: Seq<Words>, batch: Batch) -> Batch {
    Batch { commands: front + batch.commands, rest: batch.rest, cut: batch.cut }
}

/// Reads commands until none is left whole.
pub open spec fn command_batch(bytes: Seq<u8>) -> Batch
    decreases bytes.len(),
{
    match next_command(bytes) {
        NextCommand::Stop => Batch { commands: seq![], rest: bytes, cut: false },
        NextCommand::Cut => Batch { commands: seq![], rest: bytes, cut: true },
        NextCommand::Take { command, rest } => if rest.len() < bytes.len() {
            batch_after(seq![command], command_batch(rest))
        } else {
            Batch { commands: seq![], rest: bytes, cut: false }
        },
    }
}

proof fn lemma_no_batch_before(batch: Batch)
    ensures
        batch_after(seq![], batch) == batch,
{
    assert(seq![] + batch.commands =~= batch.commands);
}

/// Whether `end` is what stands at the end of `bytes`.
pub open spec fn ends_with(bytes: Seq<u8>, end: Seq<u8>) -> bool {
    end.len() <= bytes.len() && end == bytes.skip(bytes.len() - end.len())
}

proof fn lemma_ends_with_transitive(bytes: Seq<u8>, middle: Seq<u8>, end: Seq<u8>)
    requires
        ends_with(bytes, middle),
        ends_with(middle, end),
    ensures
        ends_with(bytes, end),
{
    assert(end =~= bytes.skip(bytes.len() - end.len()));
}

proof fn lemma_first_line_end(bytes: Seq<u8>)
    ensures
        first_line(bytes) matches Some((line, rest)) ==> ends_with(bytes, rest) && rest.len()
            < bytes.len(),
{
    law_first_line_break_is_first(bytes, 0);
    if let Some((line, rest)) = first_line(bytes) {
        assert(rest =~= bytes.skip(bytes.len() - rest.len()));
    }
}

proof fn lemma_bulk_string_end(bytes: Seq<u8>)
    ensures
        bulk_string(bytes) matches ArrayParse::Parsed { tokens, rest } ==> ends_with(bytes, rest),
{
    if let ArrayParse::Parsed { tokens, rest } = bulk_string(bytes) {
        lemma_first_line_end(bytes);
        let (line, after) = first_line(bytes)->0;
        assert(rest =~= after.skip(after.len() - rest.len()));
        lemma_ends_with_transitive(bytes, after, rest);
    }
}

proof fn lemma_bulk_strings_end(bytes: Seq<u8>, count: nat)
    ensures
        bulk_strings(bytes, count) matches ArrayParse::Parsed { tokens, rest } ==> ends_with(
            bytes,
            rest,
        ),
    decreases count,
{
    if count == 0 {
        assert(bytes.skip(0) =~= bytes);
    } else if let ArrayParse::Parsed { tokens, rest } = bulk_string(bytes) {
        lemma_bulk_string_end(bytes);
        lemma_bulk_strings_end(rest, (count - 1) as nat);
        if let ArrayParse::Parsed { tokens: more, rest: end } = bulk_strings(
            rest,
            (count - 1) as nat,
        ) {
            lemma_ends_with_transitive(bytes, rest, end);
        }
    }
}

/// A command takes its bytes from the front of the input and leaves the rest as it is.
pub proof fn law_command_is_taken_from_the_front(bytes: Seq<u8>)
    ensures
        next_command(bytes) matches NextCommand::Take { command, rest } ==> ends_with(bytes, rest)
            && rest.len() < bytes.len(),
{
    lemma_first_line_end(bytes);
    if let Some((line, after)) = first_line(bytes) {
        if let Some(count) = decimal_value(line.skip(1)) {
            lemma_bulk_strings_end(after, count as nat);
            if let ArrayParse::Parsed { tokens, rest } = bulk_strings(after, count as nat) {
                lemma_ends_with_transitive(bytes, after, rest);
            }
        }
    }
}

proof fn lemma_line_break_stays(bytes: Seq<u8>, more: Seq<u8>, from: int)
    requires
        0 <= from,
        find_line_break(bytes, from) is Some,
    ensures
        find_line_break(bytes + more, from) == find_line_break(bytes, from),
    decreases bytes.len() - from,
{
    if !line_break_at(bytes, from) {
        lemma_line_break_stays(bytes, more, from + 1);
    }
}

proof fn lemma_first_line_stays(bytes: Seq<u8>, more: Seq<u8>)
    requires
        first_line(bytes) is Some,
    ensures
        first_line(bytes) matches Some((line, rest)) && first_line(bytes + more) == Some(
            (line, rest + more),
        ),
{
    law_first_line_break_is_first(bytes, 0);
    lemma_line_break_stays(bytes, more, 0);
    let at = find_line_break(bytes, 0)->0;
    assert((bytes + more).take(at) =~= bytes.take(at));
    assert((bytes + more).skip(at + 2) =~= bytes.skip(at + 2) + more);
}

proof fn lemma_bulk_string_stays(bytes: Seq<u8>, more: Seq<u8>)
    requires
        bulk_string(bytes) is Parsed,
    ensures
        bulk_string(bytes + more) == (ArrayParse::Parsed {
            tokens: bulk_string(bytes)->tokens,
            rest: bulk_string(bytes)->rest + more,
        }),
{
    lemma_first_line_stays(bytes, more);
    let (line, after) = first_line(bytes)->0;
    let len = decimal_value(line.skip(1))->0 as int;
    assert((after + more).take(len) =~= after.take(len));
    assert((after + more).skip(len + 2) =~= after.skip(len + 2) + more);
}

proof fn lemma_bulk_strings_stay(bytes: Seq<u8>, more: Seq<u8>, count: nat)
    requires
        bulk_strings(bytes, count) is Parsed,
    ensures
        bulk_strings(bytes + more, count) == (ArrayParse::Parsed {
            tokens: bulk_strings(bytes, count)->tokens,
            rest: bulk_strings(bytes, count)->rest + more,
        }),
    decreases count,
{
    if count > 0 {
        lemma_bulk_string_stays(bytes, more);
        lemma_bulk_strings_stay(bulk_string(bytes)->rest, more, (count - 1) as nat);
    }
}

/// A command that is whole stays the same command when more input arrives behind it.
pub proof fn law_whole_command_stays(bytes: Seq<u8>, more: Seq<u8>)
    requires
        next_command(bytes) is Take,
    ensures
        next_command(bytes + more) == (NextCommand::Take {
            command: next_command(bytes)->command,
            rest: next_command(bytes)->rest + more,
        }),
{
    lemma_first_line_stays(bytes, more);
    let (line, after) = first_line(bytes)->0;
    if bytes.len() > 0 && bytes[0] == 42 {
        let count = decimal_value(line.skip(1))->0 as nat;
        lemma_bulk_strings_stay(after, more, count);
    } else {
        law_first_line_break_is_first(bytes, 0);
    }
}

/// How the input is split over reads makes no difference: to read the commands of the first part,
/// keep what is left, and read on when the second part has arrived gives the commands of the whole.
pub proof fn law_input_may_arrive_in_parts(first: Seq<u8>, second: Seq<u8>)
    ensures
        command_batch(first + second) == batch_after(
            command_batch(first).commands,
            command_batch(command_batch(first).rest + second),
        ),
    decreases first.len(),
{
    law_command_is_taken_from_the_front(first);
    match next_command(first) {
        NextCommand::Take { command, rest } => {
            law_whole_command_stays(first, second);
            law_input_may_arrive_in_parts(rest, second);
            let tail = command_batch(command_batch(rest).rest + second);
            assert(seq![command] + (command_batch(rest).commands + tail.commands) =~= (seq![command]
                + command_batch(rest).commands) + tail.commands);
        },
        _ => {
            lemma_no_batch_before(command_batch(first + second));
        },
    }
}

/// The models of a sequence of commands.
pub open spec fn all_words(commands: Seq<CommandWords>) -> Seq<Words> {
    commands.map_values(|command: CommandWords| words_of(command))
}

/// Reads commands until none is left whole, and returns what follows them; nothing where a token
/// would end inside a character.
pub fn scan_resp_commands<'a>(input: &'a str) -> (batch: Option<(Vec<CommandWords>, &'a str)>)
    ensures
        match batch {
            Some((commands, rest)) => {
                let all = command_batch(input.spec_bytes());
                !all.cut && all_words(commands@) == all.commands && all.rest == rest.spec_bytes()
                    && ends_with(input.spec_bytes(), rest.spec_bytes())
            },
            None => command_batch(input.spec_bytes()).cut,
        },
{
    let mut remaining: &'a str = input;
    let mut commands: Vec<CommandWords> = Vec::new();
    let ghost bytes = input.spec_bytes();
    proof {
        assert(bytes.skip(0) =~= bytes);
        assert(all_words(commands@) =~= seq![]);
        lemma_no_batch_before(command_batch(bytes));
    }
    loop
        invariant
            bytes == input.spec_bytes(),
            ends_with(bytes, remaining.spec_bytes()),
            batch_after(all_words(commands@), command_batch(remaining.spec_bytes()))
                == command_batch(bytes),
        decreases remaining.spec_bytes().len(),
    {
        let remaining_bytes = remaining.as_bytes();
        let parsed: Option<(CommandWords, &str)> = if remaining_bytes.len() > 0
            && remaining_bytes[0] == 42 {
            match scan_resp_array(remaining) {
                ArrayScan::Cut => {
                    return None;
                },
                ArrayScan::Unparsed => None,
                ArrayScan::Parsed(tokens, rest) => match build_command(tokens) {
                    Some(command) => Some((command, rest)),
                    None => None,
                },
            }
        } else {
            match split_line(remaining) {
                None => None,
                Some((line, rest)) => {
                    proof {
                        encode_utf8_decode_utf8(line@);
                    }
                    match parse_resp_command(line) {
                        Some(command) => Some((command, rest)),
                        None => None,
                    }
                },
            }
        };
        match parsed {
            None => {
                proof {
                    assert(all_words(commands@) + seq![] =~= all_words(commands@));
                }
                return Some((commands, remaining));
            },
            Some((command, rest)) => {
                let ghost before = all_words(commands@);
                proof {
                    let tail = command_batch(rest.spec_bytes());
                    let front = seq![words_of(command)];
                    assert(before + (front + tail.commands) =~= (before + front) + tail.commands);
                    law_command_is_taken_from_the_front(remaining.spec_bytes());
                    lemma_ends_with_transitive(bytes, remaining.spec_bytes(), rest.spec_bytes());
                }
                commands.push(command);
                assert(all_words(commands@) =~= before + seq![words_of(command)]);
                remaining = rest;
            },
        }
    }
}

/// Reads commands until none is left whole, and counts the bytes that they took.
pub fn parse_resp_commands(input: &str) -> (batch: (Vec<CommandWords>, usize))
    requires
        !command_batch(input.spec_bytes()).cut,
    ensures
        all_words(batch.0@) == command_batch(input.spec_bytes()).commands,
        batch.1 <= input.spec_bytes().len(),
        input.spec_bytes().skip(batch.1 as int) == command_batch(input.spec_bytes()).rest,
{
    match scan_resp_commands(input) {
        Some((commands, rest)) => (commands, input.as_bytes().len() - rest.as_bytes().len()),
        None => (Vec::new(), 0),
    }
}

/// The input is split at its first line break: the line, a line break and the rest are the input, and
/// no line break starts in the line. Where the input is not split, there is no line break in it.
pub proof fn law_line_ends_at_the_first_line_break(input: &str, parts: Option<(&str, &str)>)
    requires
        call_ensures(split_line, (input,), parts),
    ensures
        match parts {
            Some((line, rest)) => {
                &&& input.spec_bytes() == line.spec_bytes() + seq![13u8, 10u8] + rest.spec_bytes()
                &&& forall|i: int|
                    0 <= i < line.spec_bytes().len() ==> !(#[trigger] input.spec_bytes()[i] == 13
                        && input.spec_bytes()[i + 1] == 10)
            },
            None => forall|i: int|
                0 <= i < input.spec_bytes().len() - 1 ==> !(#[trigger] input.spec_bytes()[i] == 13
                    && input.spec_bytes()[i + 1] == 10),
        },
{
    let bytes = input.spec_bytes();
    law_first_line_break_is_first(bytes, 0);
    match parts {
        Some((line, rest)) => {
            let at = find_line_break(bytes, 0)->0;
            assert(line.spec_bytes().len() == at);
            assert(bytes =~= line.spec_bytes() + seq![13u8, 10u8] + rest.spec_bytes());
            assert forall|i: int| 0 <= i < at implies !(#[trigger] bytes[i] == 13 && bytes[i + 1]
                == 10) by {
                assert(!line_break_at(bytes, i));
            }
        },
        None => {
            assert forall|i: int| 0 <= i < bytes.len() - 1 implies !(#[trigger] bytes[i] == 13
                && bytes[i + 1] == 10) by {
                assert(!line_break_at(bytes, i));
            }
        },
    }
}

/// A token has exactly the announced length: the token, a line break and the rest are the input.
/// Where there is no token, the input is too short or the line break is missing.
pub proof fn law_token_has_its_length(input: &str, len: usize, parts: Option<(&str, &str)>)
    requires
        call_ensures(parse_bulk_token, (input, len), parts),
    ensures
        match parts {
            Some((token, rest)) => {
                &&& token.spec_bytes().len() == len
                &&& input.spec_bytes() == token.spec_bytes() + seq![13u8, 10u8] + rest.spec_bytes()
            },
            None => input.spec_bytes().len() < len + 2 || input.spec_bytes()[len as int] != 13
                || input.spec_bytes()[len + 1] != 10,
        },
{
    if let Some((token, rest)) = parts {
        assert(input.spec_bytes() =~= token.spec_bytes() + seq![13u8, 10u8] + rest.spec_bytes());
    }
}

/// The first token of a command names it, in upper case where it is ASCII, and the others are its
/// arguments, as they are and in order. No token, no command.
pub proof fn law_first_token_names_the_command(parts: Vec<String>, command: Option<CommandWords>)
    requires
        call_ensures(build_command, (parts,), command),
    ensures
        command is None <==> parts@.len() == 0,
        command matches Some((name, args)) ==> {
            &&& args@.len() == parts@.len() - 1
            &&& forall|i: int| 0 <= i < args@.len() ==> (#[trigger] args@[i])@ == parts@[i + 1]@
            &&& is_ascii_chars(parts@[0]@) ==> name@.len() == parts@[0]@.len() && forall|i: int|
                0 <= i < name@.len() ==> #[trigger] name@[i] == if 'a' <= parts@[0]@[i] <= 'z' {
                    (parts@[0]@[i] as u32 - 32) as char
                } else {
                    parts@[0]@[i]
                }
        },
{
    let tokens = texts(parts@);
    if let Some((name, args)) = command {
        assert(tokens[0] == parts@[0]@);
        assert(texts(args@) == tokens.skip(1));
        assert(texts(args@).len() == args@.len());
        assert forall|i: int| 0 <= i < args@.len() implies (#[trigger] args@[i])@ == parts@[i
            + 1]@ by {
            assert(texts(args@)[i] == args@[i]@);
            assert(tokens.skip(1)[i] == tokens[i + 1]);
        }
    }
}

proof fn lemma_word_len_is_exact(text: Seq<char>)
    ensures
        word_len(text) <= text.len(),
        forall|i: int| 0 <= i < word_len(text) ==> !is_whitespace(#[trigger] text[i]),
        word_len(text) < text.len() ==> is_whitespace(text[word_len(text) as int]),
    decreases text.len(),
{
    if text.len() > 0 && !is_whitespace(text[0]) {
        lemma_word_len_is_exact(text.drop_first());
        assert forall|i: int| 0 <= i < word_len(text) implies !is_whitespace(
            #[trigger] text[i],
        ) by {
            if i > 0 {
                assert(text.drop_first()[i - 1] == text[i]);
            }
        }
    }
}

proof fn lemma_word_before_space(left: Seq<char>, space: char, right: Seq<char>)
    requires
        is_whitespace(space),
    ensures
        word_len(left + seq![space] + right) == word_len(left),
    decreases left.len(),
{
    let text = left + seq![space] + right;
    if left.len() > 0 {
        assert(text[0] == left[0]);
        assert(text.drop_first() =~= left.drop_first() + seq![space] + right);
        lemma_word_before_space(left.drop_first(), space, right);
    } else {
        assert(text[0] == space);
    }
}

/// White space separates words, and does nothing else: the words of a text with white space in it are
/// those in front of it and those behind it. A text without white space is a word, unless it is
/// empty.
pub proof fn law_words_are_separated_by_white_space(
    left: Seq<char>,
    space: char,
    right: Seq<char>,
    word: Seq<char>,
)
    requires
        is_whitespace(space),
        forall|i: int| 0 <= i < word.len() ==> !is_whitespace(#[trigger] word[i]),
    ensures
        words(left + seq![space] + right) == words(left) + words(right),
        word.len() > 0 ==> words(word) == seq![word],
        word.len() == 0 ==> words(word) == Seq::<Seq<char>>::empty(),
    decreases left.len(),
{
    let text = left + seq![space] + right;
    if left.len() == 0 {
        assert(text[0] == space);
        assert(text.drop_first() =~= right);
        assert(words(left) + words(right) =~= words(right));
    } else if is_whitespace(left[0]) {
        assert(text[0] == left[0]);
        assert(text.drop_first() =~= left.drop_first() + seq![space] + right);
        law_words_are_separated_by_white_space(left.drop_first(), space, right, word);
    } else {
        assert(text[0] == left[0]);
        lemma_word_before_space(left, space, right);
        lemma_word_len(left);
        let len = word_len(left) as int;
        assert(text.take(len) =~= left.take(len));
        assert(text.skip(len) =~= left.skip(len) + seq![space] + right);
        law_words_are_separated_by_white_space(left.skip(len), space, right, word);
        assert(seq![left.take(len)] + (words(left.skip(len)) + words(right)) =~= (seq![
            left.take(len),
        ] + words(left.skip(len))) + words(right));
    }
    if word.len() > 0 {
        lemma_word_len_is_exact(word);
        assert(word_len(word) == word.len());
        assert(word.take(word.len() as int) =~= word);
        assert(!is_whitespace(word[0]));
        assert(words(word.skip(word.len() as int)) =~= seq![]);
        assert(seq![word] + Seq::<Seq<char>>::empty() =~= seq![word]);
    }
}

/// Words with a space between any two of them are read as the command that they write: the first
/// names it, in upper case, and the others are its arguments, as they are and in order.
pub proof fn law_inline_command_is_read_back(
    tokens: Seq<Seq<char>>,
    data: &str,
    command: Option<CommandWords>,
)
    requires
        tokens.len() > 0,
        forall|i: int| 0 <= i < tokens.len() ==> (#[trigger] tokens[i]).len() > 0,
        forall|i: int, k: int|
            0 <= i < tokens.len() && 0 <= k < tokens[i].len() ==> !is_whitespace(
                #[trigger] tokens[i][k],
            ),
        data@ == separated(tokens, seq![' ']),
        call_ensures(parse_resp_command, (data,), command),
    ensures
        command matches Some((name, args)) && name@ == uppercase(tokens[0]) && args@.len()
            == tokens.len() - 1 && forall|i: int|
            0 <= i < args@.len() ==> (#[trigger] args@[i])@ == tokens[i + 1],
{
    lemma_separated_words(tokens);
    if let Some((name, args)) = command {
        assert(texts(args@) == tokens.skip(1));
        assert(texts(args@).len() == args@.len());
        assert forall|i: int| 0 <= i < args@.len() implies (#[trigger] args@[i])@ == tokens[i
            + 1] by {
            assert(texts(args@)[i] == args@[i]@);
        }
    }
}

pub(crate) proof fn lemma_separated_words(tokens: Seq<Seq<char>>)
    requires
        forall|i: int| 0 <= i < tokens.len() ==> (#[trigger] tokens[i]).len() > 0,
        forall|i: int, k: int|
            0 <= i < tokens.len() && 0 <= k < tokens[i].len() ==> !is_whitespace(
                #[trigger] tokens[i][k],
            ),
    ensures
        words(separated(tokens, seq![' '])) == tokens,
    decreases tokens.len(),
{
    if tokens.len() == 0 {
        assert(tokens =~= seq![]);
    } else {
        let front = tokens.drop_last();
        let last = tokens.last();
        assert(last == tokens[tokens.len() - 1]);
        assert forall|k: int| 0 <= k < last.len() implies !is_whitespace(#[trigger] last[k]) by {
            assert(!is_whitespace(tokens[tokens.len() - 1][k]));
        }
        if tokens.len() == 1 {
            law_words_are_separated_by_white_space(seq![], ' ', seq![], last);
            assert(seq![last] =~= tokens);
        } else {
            assert forall|i: int| 0 <= i < front.len() implies (#[trigger] front[i]).len() > 0 by {
                assert(front[i] == tokens[i]);
            }
            assert forall|i: int, k: int|
                0 <= i < front.len() && 0 <= k < front[i].len() implies !is_whitespace(
                #[trigger] front[i][k],
            ) by {
                assert(front[i] == tokens[i]);
                assert(!is_whitespace(tokens[i][k]));
            }
            lemma_separated_words(front);
            law_words_are_separated_by_white_space(
                separated(front, seq![' ']),
                ' ',
                last,
                last,
            );
            assert(front + seq![last] =~= tokens);
        }
    }
}

/// White space is what Unicode says it is: the space and the control characters from the horizontal
/// tabulator to the carriage return, which are all there is in ASCII, and beyond that the next line, the
/// no-break, ogham, typographic, mathematical and ideographic spaces and the two separators.
pub proof fn law_white_space_is_that_of_unicode(c: char)
    ensures
        c <= '\u{7f}' ==> (is_whitespace(c) <==> c == ' ' || '\t' <= c <= '\r'),
        c > '\u{7f}' ==> (is_whitespace(c) <==> {
            let code = c as u32;
            ||| code == 0x85 || code == 0xa0 || code == 0x1680
            ||| 0x2000 <= code <= 0x200a
            ||| code == 0x2028 || code == 0x2029 || code == 0x202f || code == 0x205f
            ||| code == 0x3000
        }),
{
}

} // verus!
