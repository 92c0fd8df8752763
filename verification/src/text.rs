//! Text and bytes: UTF-8 conversion, decimal numbers and string comparison.
use vstd::prelude::*;
use vstd::string::*;
use vstd::utf8::{
    char_u32_cast, decode_first_scalar, decode_utf8, decode_utf8_encode_utf8, encode_utf8,
    encode_utf8_decode_utf8, encode_utf8_first_scalar, encode_utf8_valid_utf8, is_ascii_chars,
    is_ascii_chars_encode_utf8, is_char_boundary_iff_not_is_continuation_byte,
    is_char_boundary_start_end_of_seq, length_of_first_scalar, pop_first_scalar,
    valid_first_scalar, valid_utf8,
};

verus! {

/// The model of an optional value: the model of what it holds.
pub open spec fn view_opt<T: View>(value: Option<T>) -> Option<T::V> {
    match value {
        Some(inner) => Some(inner@),
        None => None,
    }
}

/// What a closure-free `map` gives: `f` applied to the value, if there is one.
pub open spec fn map_opt<A, B>(value: Option<A>, f: spec_fn(A) -> B) -> Option<B> {
    match value {
        Some(inner) => Some(f(inner)),
        None => None,
    }
}

/// Whether `second` may follow `lead` in the encoding of a character that takes three or four bytes.
pub open spec fn may_follow(lead: u8, second: u8) -> bool {
    if lead == 0xe0 {
        0xa0 <= second <= 0xbf
    } else if lead == 0xed {
        0x80 <= second <= 0x9f
    } else if lead == 0xf0 {
        0x90 <= second <= 0xbf
    } else if lead == 0xf4 {
        0x80 <= second <= 0x8f
    } else {
        0xe1 <= lead <= 0xf3 && 0x80 <= second <= 0xbf
    }
}

/// How many bytes an ill-formed part takes at the front of bytes that do not start with a character:
/// as many as begin the encoding of one, and at least one.
pub open spec fn ill_formed_len(bytes: Seq<u8>) -> int {
    if bytes.len() < 2 || !may_follow(bytes[0], bytes[1]) {
        1
    } else if bytes[0] < 0xf0 || bytes.len() < 3 || !(0x80 <= bytes[2] <= 0xbf) {
        2
    } else {
        3
    }
}

/// The text that lossy decoding makes of `bytes`: characters are decoded as they stand, and each
/// ill-formed part becomes one replacement character.
pub open spec fn utf8_lossy(bytes: Seq<u8>) -> Seq<char>
    decreases bytes.len(),
{
    if bytes.len() == 0 {
        seq![]
    } else if valid_first_scalar(bytes) {
        seq![decode_first_scalar(bytes) as char] + utf8_lossy(pop_first_scalar(bytes))
    } else {
        seq!['\u{fffd}'] + utf8_lossy(bytes.skip(ill_formed_len(bytes)))
    }
}

/// Decodes bytes into text, replacing what is not UTF-8.
///
/// Trusts [`String::from_utf8_lossy`]: what is UTF-8 is decoded as it stands, and each ill-formed
/// part, as far as it begins the encoding of a character, is replaced by one replacement character.
#[verifier::external_body]
pub(crate) fn text_from_utf8_lossy(bytes: &[u8]) -> (text: String)
    ensures
        text@ == utf8_lossy(bytes@),
{
    String::from_utf8_lossy(bytes).to_string()
}

/// Bytes that are UTF-8 are decoded as they stand.
pub proof fn law_lossy_decoding_decodes_utf8(bytes: Seq<u8>)
    requires
        valid_utf8(bytes),
    ensures
        utf8_lossy(bytes) == decode_utf8(bytes),
    decreases bytes.len(),
{
    if bytes.len() > 0 {
        law_lossy_decoding_decodes_utf8(pop_first_scalar(bytes));
    }
}

/// Text that was encoded as UTF-8 comes back unchanged from lossy decoding.
pub proof fn law_lossy_decoding_keeps_text(text: Seq<char>)
    ensures
        utf8_lossy(encode_utf8(text)) == text,
{
    encode_utf8_valid_utf8(text);
    encode_utf8_decode_utf8(text);
    law_lossy_decoding_decodes_utf8(encode_utf8(text));
}

/// Bytes that are UTF-8 come back unchanged when they are decoded and encoded again.
pub proof fn law_lossy_decoding_keeps_utf8(bytes: Seq<u8>)
    requires
        valid_utf8(bytes),
    ensures
        encode_utf8(utf8_lossy(bytes)) == bytes,
{
    decode_utf8_encode_utf8(bytes);
    law_lossy_decoding_decodes_utf8(bytes);
}

/// Text at the front of bytes is decoded before what follows it.
proof fn lemma_lossy_front(text: Seq<char>, rest: Seq<u8>)
    ensures
        utf8_lossy(encode_utf8(text) + rest) == text + utf8_lossy(rest),
    decreases text.len(),
{
    let bytes = encode_utf8(text) + rest;
    if text.len() == 0 {
        assert(bytes =~= rest);
        assert(text + utf8_lossy(rest) =~= utf8_lossy(rest));
    } else {
        let tail = encode_utf8(text.drop_first());
        encode_utf8_first_scalar(text);
        assert(valid_first_scalar(bytes));
        assert(decode_first_scalar(bytes) == decode_first_scalar(encode_utf8(text)));
        char_u32_cast(text[0], decode_first_scalar(bytes));
        assert(pop_first_scalar(bytes) =~= tail + rest);
        lemma_lossy_front(text.drop_first(), rest);
        assert(utf8_lossy(bytes) =~= text + utf8_lossy(rest));
    }
}

/// Text at the end of bytes is decoded behind what comes before it.
proof fn lemma_lossy_end(front: Seq<u8>, text: Seq<char>)
    ensures
        utf8_lossy(front + encode_utf8(text)) == utf8_lossy(front) + text,
    decreases front.len(),
{
    let end = encode_utf8(text);
    let bytes = front + end;
    encode_utf8_valid_utf8(text);
    if end.len() > 0 {
        is_char_boundary_start_end_of_seq(end);
        is_char_boundary_iff_not_is_continuation_byte(end, 0);
        assert(bytes[front.len() as int] == end[0]);
    }
    if front.len() == 0 {
        assert(bytes =~= end);
        law_lossy_decoding_keeps_text(text);
        assert(utf8_lossy(front) + text =~= text);
    } else if valid_first_scalar(bytes) {
        assert(length_of_first_scalar(bytes) <= front.len());
        assert(valid_first_scalar(front));
        assert(pop_first_scalar(bytes) =~= pop_first_scalar(front) + end);
        lemma_lossy_end(pop_first_scalar(front), text);
        assert(utf8_lossy(bytes) =~= utf8_lossy(front) + text);
    } else {
        assert(!valid_first_scalar(front));
        let len = ill_formed_len(bytes);
        assert(len <= front.len() && ill_formed_len(front) == len);
        assert(bytes.skip(len) =~= front.skip(len) + end);
        lemma_lossy_end(front.skip(len), text);
        assert(utf8_lossy(bytes) =~= utf8_lossy(front) + text);
    }
}

/// Lossy decoding keeps the text around what is ill-formed: encoded text at the front and at the end
/// of bytes comes back, with what becomes of the bytes between them in the middle.
pub proof fn law_lossy_decoding_keeps_surrounding_text(
    before: Seq<char>,
    middle: Seq<u8>,
    after: Seq<char>,
)
    ensures
        utf8_lossy(encode_utf8(before) + middle + encode_utf8(after)) == before + utf8_lossy(middle)
            + after,
{
    lemma_lossy_end(encode_utf8(before) + middle, after);
    lemma_lossy_front(before, middle);
}

/// Bytes that are not UTF-8 leave a replacement character in the text.
pub proof fn law_lossy_decoding_marks_what_is_ill_formed(bytes: Seq<u8>)
    requires
        !valid_utf8(bytes),
    ensures
        utf8_lossy(bytes).contains('\u{fffd}'),
    decreases bytes.len(),
{
    if valid_first_scalar(bytes) {
        let rest = utf8_lossy(pop_first_scalar(bytes));
        law_lossy_decoding_marks_what_is_ill_formed(pop_first_scalar(bytes));
        let at = choose|at: int| 0 <= at < rest.len() && rest[at] == '\u{fffd}';
        assert(utf8_lossy(bytes)[at + 1] == '\u{fffd}');
    } else {
        assert(utf8_lossy(bytes)[0] == '\u{fffd}');
    }
}

/// Copies the UTF-8 bytes of a text.
pub(crate) fn utf8_bytes(text: &str) -> (bytes: Vec<u8>)
    ensures
        bytes@ == encode_utf8(text@),
{
    vstd::slice::slice_to_vec(text.as_bytes())
}

/// Whether two texts hold the same characters.
pub(crate) fn same_text(left: &str, right: &str) -> (same: bool)
    ensures
        same == (left@ == right@),
{
    let left_bytes = left.as_bytes();
    let right_bytes = right.as_bytes();
    let same = same_bytes(left_bytes, right_bytes);
    proof {
        encode_utf8_decode_utf8(left@);
        encode_utf8_decode_utf8(right@);
    }
    same
}

/// Whether two byte slices hold the same bytes.
pub(crate) fn same_bytes(left: &[u8], right: &[u8]) -> (same: bool)
    ensures
        same == (left@ == right@),
{
    if left.len() != right.len() {
        return false;
    }
    let mut at: usize = 0;
    while at < left.len()
        invariant
            at <= left.len(),
            left.len() == right.len(),
            forall|i: int| 0 <= i < at ==> left@[i] == right@[i],
        decreases left.len() - at,
    {
        if left[at] != right[at] {
            return false;
        }
        at = at + 1;
    }
    assert(left@ =~= right@);
    true
}

/// Items with a separator between them.
pub open spec fn separated(items: Seq<Seq<char>>, separator: Seq<char>) -> Seq<char>
    decreases items.len(),
{
    if items.len() == 0 {
        seq![]
    } else if items.len() == 1 {
        items[0]
    } else {
        separated(items.drop_last(), separator) + separator + items.last()
    }
}

/// Whether a byte is an ASCII digit.
pub open spec fn is_digit(byte: u8) -> bool {
    48 <= byte <= 57
}

/// The number that a sequence of ASCII digits writes.
pub open spec fn digits_value(digits: Seq<u8>) -> nat
    decreases digits.len(),
{
    if digits.len() == 0 {
        0
    } else {
        (digits_value(digits.drop_last()) * 10 + (digits.last() - 48)) as nat
    }
}

/// What stands behind an optional leading plus sign.
pub open spec fn unsigned_digits(bytes: Seq<u8>) -> Seq<u8> {
    if bytes.len() > 0 && bytes[0] == 43 {
        bytes.skip(1)
    } else {
        bytes
    }
}

/// The `usize` that the bytes write in decimal: an optional plus sign and one or more digits, with
/// a value that fits.
pub open spec fn decimal_value(bytes: Seq<u8>) -> Option<usize> {
    let digits = unsigned_digits(bytes);
    if digits.len() > 0 && (forall|i: int| 0 <= i < digits.len() ==> is_digit(#[trigger] digits[i]))
        && digits_value(digits) <= usize::MAX {
        Some(digits_value(digits) as usize)
    } else {
        None
    }
}

/// Dropping digits from the end never makes the number larger.
proof fn lemma_digits_value_grows(digits: Seq<u8>, len: int)
    requires
        0 <= len <= digits.len(),
        forall|i: int| 0 <= i < digits.len() ==> is_digit(#[trigger] digits[i]),
    ensures
        digits_value(digits.take(len)) <= digits_value(digits),
    decreases digits.len(),
{
    if len < digits.len() {
        lemma_digits_value_grows(digits.drop_last(), len);
        assert(digits.drop_last().take(len) =~= digits.take(len));
        assert(is_digit(digits[digits.len() - 1]));
    } else {
        assert(digits.take(len) =~= digits);
    }
}

/// Reads a decimal `usize` from the bytes at and after `from`.
pub(crate) fn parse_decimal(bytes: &[u8], from: usize) -> (value: Option<usize>)
    requires
        from <= bytes.len(),
    ensures
        value == decimal_value(bytes@.skip(from as int)),
{
    let ghost written = bytes@.skip(from as int);
    let start: usize = if from < bytes.len() && bytes[from] == 43 {
        from + 1
    } else {
        from
    };
    let ghost digits = unsigned_digits(written);
    assert(digits =~= bytes@.skip(start as int));
    if start == bytes.len() {
        return None;
    }
    let mut value: usize = 0;
    let mut at: usize = start;
    while at < bytes.len()
        invariant
            start <= at <= bytes.len(),
            start < bytes.len(),
            digits == bytes@.skip(start as int),
            digits == unsigned_digits(written),
            written == bytes@.skip(from as int),
            forall|i: int| 0 <= i < at - start ==> is_digit(#[trigger] digits[i]),
            value == digits_value(digits.take(at - start)),
        decreases bytes.len() - at,
    {
        let byte = bytes[at];
        assert(byte == digits[at - start]);
        if byte < 48 || byte > 57 {
            assert(!is_digit(digits[at - start]));
            return None;
        }
        let ghost upto = digits.take(at - start + 1);
        proof {
            assert(upto.drop_last() =~= digits.take(at - start));
            assert(upto.last() == byte);
            if forall|i: int| 0 <= i < digits.len() ==> is_digit(#[trigger] digits[i]) {
                lemma_digits_value_grows(digits, at - start + 1);
            }
        }
        let digit: usize = (byte - 48) as usize;
        match value.checked_mul(10) {
            None => {
                return None;
            },
            Some(shifted) => match shifted.checked_add(digit) {
                None => {
                    return None;
                },
                Some(next) => {
                    value = next;
                },
            },
        }
        at = at + 1;
    }
    assert(digits.take(at - start) =~= digits);
    Some(value)
}

/// The character of a decimal digit.
pub open spec fn digit_char(digit: int) -> char {
    (48 + digit) as char
}

/// A number written in decimal, without leading zeros.
pub open spec fn decimal_text(number: nat) -> Seq<char>
    decreases number,
{
    if number < 10 {
        seq![digit_char(number as int)]
    } else {
        decimal_text(number / 10).push(digit_char((number % 10) as int))
    }
}

/// The text of one decimal digit.
fn digit_text(digit: u128) -> (text: &'static str)
    requires
        digit < 10,
    ensures
        text@ == seq![digit_char(digit as int)],
{
    proof {
        reveal_strlit("0");
        reveal_strlit("1");
        reveal_strlit("2");
        reveal_strlit("3");
        reveal_strlit("4");
        reveal_strlit("5");
        reveal_strlit("6");
        reveal_strlit("7");
        reveal_strlit("8");
        reveal_strlit("9");
    }
    let text = if digit == 0 {
        "0"
    } else if digit == 1 {
        "1"
    } else if digit == 2 {
        "2"
    } else if digit == 3 {
        "3"
    } else if digit == 4 {
        "4"
    } else if digit == 5 {
        "5"
    } else if digit == 6 {
        "6"
    } else if digit == 7 {
        "7"
    } else if digit == 8 {
        "8"
    } else {
        "9"
    };
    assert(text@ =~= seq![digit_char(digit as int)]);
    text
}

/// Writes a number in decimal.
pub(crate) fn decimal(number: u128) -> (text: String)
    ensures
        text@ == decimal_text(number as nat),
    decreases number,
{
    if number < 10 {
        digit_text(number).to_string()
    } else {
        let mut text = decimal(number / 10);
        text.append(digit_text(number % 10));
        assert(text@ =~= decimal_text(number as nat));
        text
    }
}

/// UTF-8 encodes text character by character, so the encodings of two texts stand side by side.
pub proof fn law_encoding_concatenates(left: Seq<char>, right: Seq<char>)
    ensures
        encode_utf8(left + right) == encode_utf8(left) + encode_utf8(right),
    decreases left.len(),
{
    if left.len() == 0 {
        assert(left + right =~= right);
        assert(encode_utf8(left) + encode_utf8(right) =~= encode_utf8(right));
    } else {
        assert((left + right).drop_first() =~= left.drop_first() + right);
        law_encoding_concatenates(left.drop_first(), right);
        assert(encode_utf8(left + right) =~= encode_utf8(left) + encode_utf8(right));
    }
}

/// The UTF-8 encoding of an ASCII character is the byte of the same number.
pub(crate) proof fn lemma_ascii_encoding(c: char)
    requires
        c <= '\u{7f}',
    ensures
        encode_utf8(seq![c]) == seq![c as u8],
{
    let chars = seq![c];
    assert(is_ascii_chars(chars));
    is_ascii_chars_encode_utf8(chars);
    assert(chars[0] == c);
    assert(encode_utf8(chars) =~= seq![c as u8]);
}

/// What is written in decimal consists of digits, and reads as the number it was written from.
pub proof fn law_decimal_reads_back(number: nat)
    ensures
        encode_utf8(decimal_text(number)).len() > 0,
        forall|i: int|
            0 <= i < encode_utf8(decimal_text(number)).len() ==> is_digit(
                #[trigger] encode_utf8(decimal_text(number))[i],
            ),
        digits_value(encode_utf8(decimal_text(number))) == number,
        number <= usize::MAX ==> decimal_value(encode_utf8(decimal_text(number))) == Some(
            number as usize,
        ),
    decreases number,
{
    let text = decimal_text(number);
    let bytes = encode_utf8(text);
    let digit = digit_char((number % 10) as int);
    lemma_ascii_encoding(digit);
    if number < 10 {
        assert(bytes.drop_last() =~= seq![]);
        assert(digits_value(bytes.drop_last()) == 0);
    } else {
        let front = decimal_text(number / 10);
        law_decimal_reads_back(number / 10);
        assert(text =~= front + seq![digit]);
        law_encoding_concatenates(front, seq![digit]);
        assert(bytes.drop_last() =~= encode_utf8(front));
        assert forall|i: int| 0 <= i < bytes.len() implies is_digit(#[trigger] bytes[i]) by {
            if i < bytes.len() - 1 {
                assert(bytes[i] == encode_utf8(front)[i]);
            }
        }
    }
    assert(is_digit(bytes[0]));
    assert(unsigned_digits(bytes) == bytes);
}

/// What is written in decimal holds no dash.
pub(crate) proof fn lemma_decimal_has_no_dash(number: nat)
    ensures
        decimal_text(number).len() > 0,
        forall|i: int|
            0 <= i < decimal_text(number).len() ==> #[trigger] decimal_text(number)[i] != '-',
    decreases number,
{
    if number >= 10 {
        lemma_decimal_has_no_dash(number / 10);
        assert forall|i: int| 0 <= i < decimal_text(number).len() implies #[trigger] decimal_text(
            number,
        )[i] != '-' by {
            if i < decimal_text(number).len() - 1 {
                assert(decimal_text(number)[i] == decimal_text(number / 10)[i]);
            }
        }
    }
}

/// A decimal number is read digit by digit: a first digit, behind an optional plus sign, is its own
/// value, each further one makes ten times the number and itself, as long as that fits, and nothing
/// but a digit may end it.
pub proof fn law_decimal_is_read_digit_by_digit(bytes: Seq<u8>, next: u8)
    ensures
        !(48 <= next <= 57) ==> decimal_value(bytes.push(next)) is None,
        48 <= next <= 57 && (bytes.len() == 0 || bytes == seq![43u8]) ==> decimal_value(
            bytes.push(next),
        ) == Some((next - 48) as usize),
        48 <= next <= 57 && bytes.len() > 0 && bytes != seq![43u8] ==> decimal_value(
            bytes.push(next),
        ) == match decimal_value(bytes) {
            Some(number) => if number * 10 + (next - 48) <= usize::MAX {
                Some((number * 10 + (next - 48)) as usize)
            } else {
                None
            },
            None => None,
        },
        decimal_value(seq![]) is None,
{
    let longer = bytes.push(next);
    let digits = unsigned_digits(longer);
    let shorter = unsigned_digits(bytes);
    reveal_with_fuel(digits_value, 2);
    if bytes.len() == 0 {
        if next != 43 {
            assert(digits =~= seq![next]);
            assert(digits.drop_last() =~= seq![]);
            assert(digits[0] == next);
        }
    } else {
        assert(longer[0] == bytes[0]);
        assert(digits =~= shorter.push(next));
        assert(digits.drop_last() =~= shorter);
        assert(digits[digits.len() - 1] == next);
        assert(forall|i: int| 0 <= i < shorter.len() ==> #[trigger] shorter[i] == digits[i]);
        assert(forall|i: int| 0 <= i < shorter.len() ==> #[trigger] digits[i] == shorter[i]);
        if bytes[0] == 43 && bytes.len() == 1 {
            assert(bytes =~= seq![43u8]);
            assert(shorter.len() == 0);
        } else {
            assert(shorter.len() > 0);
            if 48 <= next <= 57 {
                assert((forall|i: int| 0 <= i < digits.len() ==> is_digit(#[trigger] digits[i]))
                    <==> (forall|i: int|
                    0 <= i < shorter.len() ==> is_digit(#[trigger] shorter[i])));
            }
        }
    }
}

/// Zero is written as one digit, and no other number starts with a zero.
pub proof fn law_decimal_has_no_leading_zero(number: nat)
    ensures
        number == 0 ==> decimal_text(number) == seq!['0'],
        number > 0 ==> decimal_text(number)[0] != '0',
    decreases number,
{
    lemma_decimal_has_no_dash(number);
    if number >= 10 {
        lemma_decimal_has_no_dash(number / 10);
        law_decimal_has_no_leading_zero(number / 10);
        assert(decimal_text(number)[0] == decimal_text(number / 10)[0]);
    }
}

} // verus!
