use rust_pubsub_lib::{ByteMessage, Message, PubSubError, StringMessage};

#[test]
fn message_gives_back_what_it_was_made_of() {
    let message = StringMessage::new(Some("key".to_string()), "value".to_string());
    assert_eq!(message.key(), Some("key".to_string()));
    assert_eq!(message.value(), "value".to_string());
    assert_eq!(message.key_ref(), Some("key"));
    assert_eq!(message.value_ref(), "value");
    assert_eq!(
        message.extract_key_value(),
        (Some("key".to_string()), "value".to_string())
    );
}

#[test]
fn message_from_value_has_no_key() {
    let message = StringMessage::from_value("value".to_string());
    assert_eq!(message.value_ref(), "value");
    assert_eq!(message.key_ref(), None);
    assert_eq!(message.clone().extract_key(), None);
    assert_eq!(message.extract_value(), "value");
}

#[test]
fn byte_message_keeps_its_bytes() {
    let message = ByteMessage::from_bytes(Some(&[1, 255]), &[0, 254]);
    assert_eq!(message.key(), Some(vec![1, 255]));
    assert_eq!(message.key_ref(), Some(&[1u8, 255][..]));
    assert_eq!(message.value(), vec![0, 254]);
    assert_eq!(message.value_ref(), &[0u8, 254][..]);
    assert_eq!(message.clone().into_bytes(), message);
    assert_eq!(message.clone().extract_key(), Some(vec![1, 255]));
    assert_eq!(
        message.clone().extract_key_value(),
        (Some(vec![1, 255]), vec![0, 254])
    );
    assert_eq!(message.extract_value(), vec![0, 254]);
    assert_eq!(
        ByteMessage::new(None, vec![3]),
        ByteMessage::from_value(vec![3])
    );
}

#[test]
fn string_message_round_trips() {
    let sent = StringMessage::new(Some("clé".to_string()), "välue".to_string());
    let bytes = sent.clone().into_bytes();
    assert_eq!(bytes.value_ref(), "välue".as_bytes());
    assert_eq!(bytes.key_ref(), Some("clé".as_bytes()));
    assert_eq!(StringMessage::from(bytes.clone()), sent);
    assert_eq!(
        StringMessage::from_bytes(bytes.key_ref(), bytes.value_ref()),
        sent
    );
}

#[test]
fn string_message_replaces_what_is_not_utf8() {
    let message = StringMessage::from_bytes(Some(&[0xff]), &[b'a', 0xc3, b'b']);
    assert_eq!(message.key_ref(), Some("\u{fffd}"));
    assert_eq!(message.value_ref(), "a\u{fffd}b");
}

#[test]
fn text_around_what_is_not_utf8_is_kept() {
    let cases: [(&[u8], &str); 5] = [
        (b"\xff", "\u{fffd}"),
        (b"ab\xff\xffcd", "ab\u{fffd}\u{fffd}cd"),
        (b"\xc3\xa9\xe2\x82z", "é\u{fffd}z"),
        (b"\x80tail", "\u{fffd}tail"),
        (b"head\xf0\x9f\x98", "head\u{fffd}"),
    ];
    for (bytes, text) in cases {
        assert_eq!(StringMessage::from_bytes(None, bytes).value_ref(), text);
    }
}

fn starts_a_character(bytes: &[u8]) -> bool {
    let continues = |byte: u8| (0x80..=0xbf).contains(&byte);
    match bytes {
        [0xc2..=0xf4] => true,
        [0xe0, second] => (0xa0..=0xbf).contains(second),
        [0xed, second] => (0x80..=0x9f).contains(second),
        [0xf0, second] => (0x90..=0xbf).contains(second),
        [0xf4, second] => (0x80..=0x8f).contains(second),
        [0xe1..=0xf3, second] => continues(*second),
        [0xf0..=0xf4, _, third] => starts_a_character(&bytes[..2]) && continues(*third),
        _ => false,
    }
}

fn repaired(bytes: &[u8]) -> String {
    let mut text = String::new();
    let mut rest = bytes;
    while !rest.is_empty() {
        let whole = (1..=rest.len().min(4)).find_map(|len| {
            let read = std::str::from_utf8(&rest[..len]).ok()?;
            Some((read, len))
        });
        let (part, len) = whole.unwrap_or_else(|| {
            let longest = (1..=rest.len().min(3))
                .rev()
                .find(|len| starts_a_character(&rest[..*len]));
            ("\u{fffd}", longest.unwrap_or(1))
        });
        text.push_str(part);
        rest = &rest[len..];
    }
    text
}

#[test]
fn each_ill_formed_part_becomes_one_replacement_character() {
    let bytes = [
        0x00, 0x41, 0x7f, 0x80, 0x8f, 0x90, 0x9f, 0xa0, 0xbf, 0xc0, 0xc1, 0xc2, 0xdf, 0xe0, 0xe1,
        0xec, 0xed, 0xee, 0xef, 0xf0, 0xf1, 0xf3, 0xf4, 0xf5, 0xff,
    ];
    let check = |input: &[u8]| {
        let message = StringMessage::from_bytes(None, input);
        assert_eq!(message.value_ref(), repaired(input), "{input:x?}");
    };
    for a in bytes {
        check(&[a]);
        for b in bytes {
            check(&[a, b]);
            for c in bytes {
                check(&[a, b, c]);
                check(&[b'x', a, b, c, b'y']);
                for d in bytes {
                    check(&[a, b, c, d]);
                }
            }
        }
    }
}

#[test]
fn utf8_passes_through_a_string_message() {
    let bytes = ByteMessage::new(Some(vec![b'k']), "ß".as_bytes().to_vec());
    assert_eq!(StringMessage::from(bytes.clone()).into_bytes(), bytes);
}

#[test]
fn error_shows_a_canned_text_and_keeps_its_cause() {
    let err = PubSubError::from_debug("broken");
    assert_eq!(err.to_string(), "The PubSub library encountered an error.");
    assert_eq!(err.cause_message(), Some("\"broken\""));
    assert_eq!(err.clone().cause_message(), Some("\"broken\""));
    assert_eq!(
        format!("{err:?}"),
        "PubSubError { cause: Some(\"\\\"broken\\\"\") }"
    );
}

#[test]
fn default_error_has_no_cause() {
    let err = PubSubError::default();
    assert_eq!(err.cause_message(), None);
    assert_eq!(err.to_string(), "The PubSub library encountered an error.");
    assert_eq!(format!("{err:?}"), "PubSubError { cause: None }");
    assert_eq!(
        PubSubError::from_cause("why".to_string()).cause_message(),
        Some("why")
    );
}
