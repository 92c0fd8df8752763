//! What a test observes of the mock server.
use vstd::prelude::*;
use vstd::string::*;
use vstd::utf8::encode_utf8;

verus! {

/// Whether the needle occurs in the text at `at`.
pub open spec fn occurs_at(text: Seq<u8>, needle: Seq<u8>, at: int) -> bool {
    0 <= at && at + needle.len() <= text.len() && text.subrange(at, at + needle.len()) == needle
}

/// Whether the needle occurs in the text.
pub open spec fn contains_bytes(text: Seq<u8>, needle: Seq<u8>) -> bool {
    exists|at: int| occurs_at(text, needle, at)
}

/// Whether the needle occurs in the text at `at`.
fn check_at(text: &[u8], needle: &[u8], at: usize) -> (occurs: bool)
    requires
        at + needle@.len() <= text@.len(),
    ensures
        occurs == occurs_at(text@, needle@, at as int),
{
    let ghost found = text@.subrange(at as int, at + needle@.len());
    let mut len: usize = 0;
    while len < needle.len()
        invariant
            len <= needle@.len(),
            at + needle@.len() <= text.len(),
            found == text@.subrange(at as int, at + needle@.len()),
            forall|i: int| 0 <= i < len ==> found[i] == needle@[i],
        decreases needle.len() - len,
    {
        if text[at + len] != needle[len] {
            assert(found[len as int] != needle@[len as int]);
            return false;
        }
        len = len + 1;
    }
    assert(found =~= needle@);
    true
}

/// Whether one text occurs in another.
pub fn contains_text(text: &str, needle: &str) -> (contains: bool)
    ensures
        contains == contains_bytes(text.spec_bytes(), needle.spec_bytes()),
{
    let text_bytes = text.as_bytes();
    let needle_bytes = needle.as_bytes();
    if needle_bytes.len() > text_bytes.len() {
        return false;
    }
    let last: usize = text_bytes.len() - needle_bytes.len();
    let mut at: usize = 0;
    loop
        invariant
            text_bytes@ == text.spec_bytes(),
            needle_bytes@ == needle.spec_bytes(),
            at <= last,
            last + needle_bytes@.len() == text_bytes@.len(),
            forall|i: int| 0 <= i < at ==> !occurs_at(text_bytes@, needle_bytes@, i),
        decreases last - at,
    {
        if check_at(text_bytes, needle_bytes, at) {
            return true;
        }
        if at == last {
            return false;
        }
        at = at + 1;
    }
}

/// What arrives while a test waits for a message.
pub enum Observation {
    /// A message.
    Message(String),
    /// Messages were missed.
    Lagged,
    /// No message will arrive any more.
    Closed,
    /// No message arrived in time.
    TimedOut,
}

/// Seconds that a test waits for a message.
pub const WAIT_SECS: u64 = 1;

/// What a test makes of it.
pub enum Verdict {
    /// The expected message was observed.
    Observed,
    /// Keep waiting.
    Wait,
    /// The expected message will not be observed, for this reason.
    Missed(String),
}

/// The reason for which the expected message will not be observed.
pub open spec fn missed_reason(
    label: Seq<char>,
    middle: Seq<char>,
    expected: Seq<char>,
) -> Seq<char> {
    label + middle + expected
}

/// Makes the reason for which the expected message will not be observed.
fn reason(label: &str, middle: &str, expected: &str) -> (text: String)
    ensures
        text@ == missed_reason(label@, middle@, expected@),
{
    let mut text = label.to_string();
    text.append(middle);
    text.append(expected);
    text
}

/// Decides what a test that waits for a message containing `expected` makes of what arrives. The
/// match is substring-based, so that a test need not know every byte of a frame.
pub fn wait_for_broadcast_message(
    observation: Observation,
    expected: &str,
    label: &str,
) -> (verdict: Verdict)
    ensures
        match observation {
            Observation::Message(message) => if contains_bytes(
                encode_utf8(message@),
                expected.spec_bytes(),
            ) {
                verdict is Observed
            } else {
                verdict is Wait
            },
            Observation::Lagged => verdict is Wait,
            Observation::Closed => verdict matches Verdict::Missed(text) && text@ == missed_reason(
                label@,
                " channel closed before observing "@,
                expected@,
            ),
            Observation::TimedOut => verdict matches Verdict::Missed(text) && text@
                == missed_reason(label@, " not found: "@, expected@),
        },
{
    match observation {
        Observation::Message(message) => if contains_text(message.as_str(), expected) {
            Verdict::Observed
        } else {
            Verdict::Wait
        },
        Observation::Lagged => Verdict::Wait,
        Observation::Closed => Verdict::Missed(
            reason(label, " channel closed before observing ", expected),
        ),
        Observation::TimedOut => Verdict::Missed(reason(label, " not found: ", expected)),
    }
}

/// Makes the connection URI of a server at an address.
pub fn connection_uri(address: &str) -> (uri: String)
    ensures
        uri@ == "redis://"@ + address@,
{
    let mut uri = "redis://".to_string();
    uri.append(address);
    uri
}

/// One text is found in another exactly if it stands somewhere in it, with anything or nothing before
/// and behind it.
pub proof fn law_text_is_found_where_it_stands(text: &str, needle: &str, contains: bool)
    requires
        call_ensures(contains_text, (text, needle), contains),
    ensures
        contains <==> exists|before: Seq<u8>, after: Seq<u8>|
            text.spec_bytes() == #[trigger] (before + needle.spec_bytes() + after),
{
    let bytes = text.spec_bytes();
    let wanted = needle.spec_bytes();
    if contains {
        let at = choose|at: int| occurs_at(bytes, wanted, at);
        let before = bytes.take(at);
        let after = bytes.skip(at + wanted.len());
        assert(bytes =~= before + wanted + after);
    }
    if exists|before: Seq<u8>, after: Seq<u8>| bytes == #[trigger] (before + wanted + after) {
        let (before, after) = choose|before: Seq<u8>, after: Seq<u8>|
            bytes == #[trigger] (before + wanted + after);
        assert(bytes.subrange(before.len() as int, (before.len() + wanted.len()) as int) =~= wanted);
        assert(occurs_at(bytes, wanted, before.len() as int));
    }
}

/// A test that waits for a text observes it in every message that holds it, and in no other: the
/// message may have anything around it. Other messages and a lag keep it waiting; only a closed
/// channel and a time-out end the wait without it, and both say for whom and for what it was.
pub proof fn law_expected_text_is_observed(
    observation: Observation,
    expected: &str,
    label: &str,
    verdict: Verdict,
)
    requires
        call_ensures(wait_for_broadcast_message, (observation, expected, label), verdict),
    ensures
        verdict is Observed <==> (observation matches Observation::Message(message) && exists|
            before: Seq<u8>,
            after: Seq<u8>,
        |
            encode_utf8(message@) == #[trigger] (before + expected.spec_bytes() + after)),
        verdict is Missed <==> observation is Closed || observation is TimedOut,
        verdict matches Verdict::Missed(text) ==> text@ == label@ + (if observation is Closed {
            " channel closed before observing "@
        } else {
            " not found: "@
        }) + expected@,
{
    if let Observation::Message(message) = observation {
        let bytes = encode_utf8(message@);
        let wanted = expected.spec_bytes();
        if contains_bytes(bytes, wanted) {
            let at = choose|at: int| occurs_at(bytes, wanted, at);
            assert(bytes =~= bytes.take(at) + wanted + bytes.skip(at + wanted.len()));
        }
        if exists|before: Seq<u8>, after: Seq<u8>| bytes == #[trigger] (before + wanted + after) {
            let (before, after) = choose|before: Seq<u8>, after: Seq<u8>|
                bytes == #[trigger] (before + wanted + after);
            assert(bytes.subrange(before.len() as int, (before.len() + wanted.len()) as int) =~= wanted);
            assert(occurs_at(bytes, wanted, before.len() as int));
        }
    }
}

/// The connection URI of a server is its address behind the scheme, whatever the address is.
pub proof fn law_uri_names_the_address(address: &str, uri: String)
    requires
        call_ensures(connection_uri, (address,), uri),
    ensures
        uri@ == "redis://"@ + address@,
{
}

} // verus!
