use rust_pubsub_lib::redis_impls::testing_utils::command::Command;
use rust_pubsub_lib::redis_impls::testing_utils::connection::Connection;
use rust_pubsub_lib::redis_impls::testing_utils::encode::{
    encode_bulk_string, encode_pubsub_message, encode_subscribe_confirmation,
};
use rust_pubsub_lib::redis_impls::testing_utils::harness::{
    connection_uri, contains_text, wait_for_broadcast_message, Observation, Verdict,
};
use rust_pubsub_lib::redis_impls::testing_utils::resp::{
    parse_bulk_token, parse_one_resp_array, parse_resp_command, parse_resp_commands,
    scan_resp_commands, split_line,
};
use rust_pubsub_lib::redis_impls::testing_utils::server::{
    encode_stream_entries, encode_xread_response, execute_command, StreamState,
};

fn strings(texts: &[&str]) -> Vec<String> {
    texts.iter().map(|text| text.to_string()).collect()
}

fn pairs(texts: &[(&str, &str)]) -> Vec<(String, String)> {
    texts
        .iter()
        .map(|(name, value)| (name.to_string(), value.to_string()))
        .collect()
}

#[test]
fn parse_bulk_token_reads_complete_token() {
    let parsed = parse_bulk_token("hello\r\nrest", 5).unwrap();
    assert_eq!(("hello", "rest"), parsed);
}

#[test]
fn parse_bulk_token_returns_none_for_incomplete_input() {
    assert!(parse_bulk_token("hel", 5).is_none());
    assert!(parse_bulk_token("hello--rest", 5).is_none());
}

#[test]
fn parse_one_resp_array_parses_complete_command() {
    let input = "*3\r\n$7\r\nPUBLISH\r\n$5\r\ntopic\r\n$7\r\npayload\r\nrest";
    let parsed = parse_one_resp_array(input).unwrap();
    assert_eq!("PUBLISH", parsed.0 .0);
    assert_eq!(
        vec!["topic".to_string(), "payload".to_string()],
        parsed.0 .1
    );
    assert_eq!("rest", parsed.1);
}

#[test]
fn parse_one_resp_array_returns_none_for_partial_input() {
    let input = "*2\r\n$7\r\nPUBLISH\r\n$5\r\ntop";
    assert!(parse_one_resp_array(input).is_none());
}

#[test]
fn parse_resp_command_parses_inline_command() {
    let parsed = parse_resp_command("publish topic payload").unwrap();
    assert_eq!("PUBLISH", parsed.0);
    assert_eq!(vec!["topic".to_string(), "payload".to_string()], parsed.1);
}

#[test]
fn parse_resp_commands_parses_mixed_inline_and_resp_input() {
    let input = "PING\r\n*3\r\n$7\r\nPUBLISH\r\n$5\r\ntopic\r\n$7\r\npayload\r\n";
    let (commands, consumed) = parse_resp_commands(input);

    assert_eq!(2, commands.len());
    assert_eq!(("PING".to_string(), vec![]), commands[0]);
    assert_eq!(
        (
            "PUBLISH".to_string(),
            vec!["topic".to_string(), "payload".to_string()]
        ),
        commands[1]
    );
    assert_eq!(input.len(), consumed);
}

#[test]
fn split_line_splits_resp_line() {
    let parsed = split_line("HELLO\r\nWORLD").unwrap();
    assert_eq!(("HELLO", "WORLD"), parsed);
}

#[test]
fn read_stream_dispatches_client_publish_subscribe_and_default() {
    let preloaded = vec![("topic".to_string(), strings(&["queued"]))];
    let mut state = StreamState::new();
    let mut connection = Connection::new();
    let payload = "CLIENT SETINFO LIB-NAME mock\r\n\
        *3\r\n$7\r\nPUBLISH\r\n$5\r\ntopic\r\n$7\r\npayload\r\n\
        *2\r\n$9\r\nSUBSCRIBE\r\n$5\r\ntopic\r\n\
        UNKNOWN stuff\r\n";
    let turn = connection
        .receive(payload.as_bytes(), &preloaded, &mut state)
        .unwrap();

    let response: String = turn
        .replies
        .iter()
        .map(|reply| reply.response.as_str())
        .collect();
    assert!(response.contains("+OK\r\n"));
    assert!(response.contains(":1\r\n"));
    assert!(response.contains("subscribe"));
    assert!(response.contains("message"));
    let published: Vec<String> = turn
        .replies
        .into_iter()
        .filter_map(|reply| reply.published)
        .collect();
    assert_eq!(strings(&["payload"]), published);
    assert_eq!(
        strings(&[
            "CLIENT [\"SETINFO\", \"LIB-NAME\", \"mock\"]",
            "PUBLISH [\"topic\", \"payload\"]",
            "SUBSCRIBE [\"topic\"]",
            "UNKNOWN [\"stuff\"]",
        ]),
        turn.described
    );
}

#[test]
fn read_stream_supports_xadd_xrange_and_xread() {
    let mut state = StreamState::new();
    let mut connection = Connection::new();
    let payload = "*5\r\n$4\r\nXADD\r\n$5\r\ntopic\r\n$1\r\n*\r\n$4\r\ndata\r\n$7\r\npayload\r\n\
        *4\r\n$6\r\nXRANGE\r\n$5\r\ntopic\r\n$1\r\n-\r\n$1\r\n+\r\n\
        *6\r\n$5\r\nXREAD\r\n$5\r\nBLOCK\r\n$1\r\n0\r\n$7\r\nSTREAMS\r\n$5\r\ntopic\r\n$3\r\n1-0\r\n";
    let turn = connection
        .receive(payload.as_bytes(), &vec![], &mut state)
        .unwrap();
    let responses: Vec<&str> = turn
        .replies
        .iter()
        .map(|reply| reply.response.as_str())
        .collect();
    assert_eq!(
        vec![
            "$3\r\n1-0\r\n",
            "*1\r\n*2\r\n$3\r\n1-0\r\n*2\r\n$4\r\ndata\r\n$7\r\npayload\r\n",
            "$-1\r\n",
        ],
        responses
    );
    assert_eq!(Some("payload"), turn.replies[0].published.as_deref());
}

#[test]
fn input_may_arrive_in_parts() {
    let input = "*2\r\n$9\r\nSUBSCRIBE\r\n$2\r\n\u{e9}\r\nPING\r\n";
    let bytes = input.as_bytes();
    for cut in 0..bytes.len() {
        if !input.is_char_boundary(cut) {
            continue;
        }
        let mut state = StreamState::new();
        let mut connection = Connection::new();
        let first = connection
            .receive(&bytes[..cut], &vec![], &mut state)
            .unwrap();
        let second = connection
            .receive(&bytes[cut..], &vec![], &mut state)
            .unwrap();
        let described: Vec<String> = first
            .described
            .into_iter()
            .chain(second.described)
            .collect();
        assert_eq!(strings(&["SUBSCRIBE [\"é\"]", "PING []"]), described);
    }
}

#[test]
fn answers_do_not_depend_on_the_split() {
    let input = "XADD t * f v\r\nXRANGE t\r\n";
    let whole = {
        let mut state = StreamState::new();
        let turn = Connection::new()
            .receive(input.as_bytes(), &vec![], &mut state)
            .unwrap();
        turn.replies
            .into_iter()
            .map(|reply| reply.response)
            .collect::<Vec<_>>()
    };
    let mut state = StreamState::new();
    let mut connection = Connection::new();
    let mut parts = Vec::new();
    for byte in input.as_bytes() {
        let turn = connection.receive(&[*byte], &vec![], &mut state).unwrap();
        parts.extend(turn.replies.into_iter().map(|reply| reply.response));
    }
    assert_eq!(whole, parts);
    assert_eq!(2, parts.len());
}

#[test]
fn token_that_ends_inside_a_character_is_refused() {
    let mut state = StreamState::new();
    let mut connection = Connection::new();
    let input = "*1\r\n$1\r\né\r\n";
    assert!(connection
        .receive(input.as_bytes(), &vec![], &mut state)
        .is_none());
    assert!(scan_resp_commands(input).is_none());
}

#[test]
fn partial_command_is_left_over() {
    let (commands, rest) = scan_resp_commands("PING\r\n*1\r\n$4\r\nPI").unwrap();
    assert_eq!(1, commands.len());
    assert_eq!("*1\r\n$4\r\nPI", rest);
}

#[test]
fn malformed_numbers_are_not_parsed() {
    assert!(parse_one_resp_array("*x\r\n").is_none());
    assert!(parse_one_resp_array("*1\r\n$-1\r\n").is_none());
    assert!(parse_one_resp_array("*99999999999999999999999\r\n").is_none());
    assert!(parse_one_resp_array("*0\r\n").is_none());
    assert!(parse_one_resp_array("PING\r\n").is_none());
    assert_eq!(
        "PING",
        parse_one_resp_array("*+1\r\n$4\r\nping\r\n").unwrap().0 .0
    );
}

#[test]
fn inline_words_are_separated_by_any_white_space() {
    let parsed = parse_resp_command("  straße\u{2003}a\t b ").unwrap();
    assert_eq!("STRASSE", parsed.0);
    assert_eq!(strings(&["a", "b"]), parsed.1);
    assert!(parse_resp_command(" \t ").is_none());
}

#[test]
fn white_space_is_what_unicode_says() {
    let spaces = "\t\u{b}\u{c} \u{85}\u{a0}\u{1680}\u{2000}\u{200a}\u{2028}\u{2029}\u{202f}\u{205f}\u{3000}";
    for space in spaces.chars() {
        let parsed = parse_resp_command(&format!("ping{space}a")).unwrap();
        assert_eq!(("PING".to_string(), strings(&["a"])), parsed);
    }
    for other in ['\u{8}', '\u{e}', '\u{7f}', '\u{180e}', '\u{200b}', '\u{2060}', '\u{feff}'] {
        let parsed = parse_resp_command(&format!("ping{other}a")).unwrap();
        assert!(parsed.1.is_empty());
    }
}

#[test]
fn commands_are_understood() {
    let of = |name: &str, args: &[&str]| Command::from_parts(name.to_string(), strings(args));
    assert_eq!(
        of("PUBLISH", &["t", "x", "p"]),
        Command::Publish {
            topic: "t".to_string(),
            payload: "p".to_string()
        }
    );
    assert_eq!(
        of("PUBLISH", &["t"]),
        Command::Unknown {
            name: "PUBLISH".to_string(),
            args: strings(&["t"])
        }
    );
    assert_eq!(
        of("XADD", &["t", "MAXLEN", "~", "100000", "*", "a", "1", "b", "2", "odd"]),
        Command::Xadd {
            topic: "t".to_string(),
            fields: pairs(&[("a", "1"), ("b", "2")])
        }
    );
    assert_eq!(
        of("XADD", &["t", "1-0", "a-b", "1"]),
        Command::Xadd {
            topic: "t".to_string(),
            fields: pairs(&[("a-b", "1")])
        }
    );
    assert_eq!(
        of("XADD", &["t", "x", "y", "z"]),
        Command::Xadd {
            topic: "t".to_string(),
            fields: vec![]
        }
    );
    assert_eq!(
        of("XREAD", &["BLOCK", "0", "STREAMS", "t", "$"]),
        Command::Xread {
            topic: "t".to_string(),
            last_seen: "$".to_string()
        }
    );
    assert_eq!(
        of("XREAD", &["STREAMS"]),
        Command::Unknown {
            name: "XREAD".to_string(),
            args: strings(&["STREAMS"])
        }
    );
    assert_eq!(
        of("XRANGE", &["t", "-", "+"]),
        Command::Xrange {
            topic: "t".to_string()
        }
    );
    assert_eq!(
        of("XRANGE", &[]),
        Command::Unknown {
            name: "XRANGE".to_string(),
            args: vec![]
        }
    );
}

#[test]
fn commands_are_described() {
    let describe = |name: &str, args: &[&str]| {
        Command::from_parts(name.to_string(), strings(args)).describe()
    };
    assert_eq!(
        describe("XADD", &["t", "*", "a", "q\"\n"]),
        "XADD [\"t\", [(\"a\", \"q\\\"\\n\")]]"
    );
    assert_eq!(describe("XRANGE", &["t"]), "XRANGE [\"t\"]");
    assert_eq!(
        describe("XREAD", &["STREAMS", "t", "1-0"]),
        "XREAD [\"t\", \"1-0\"]"
    );
    assert_eq!(describe("PING", &[]), "PING []");
    assert_eq!(describe("CLIENT", &["a", "b"]), "CLIENT [\"a\", \"b\"]");
}

#[test]
fn stream_entries_are_numbered_and_kept_apart_by_topic() {
    let mut state = StreamState::new();
    assert_eq!("1-0", state.push("a", pairs(&[("f", "1")])));
    assert_eq!("2-0", state.push("a", pairs(&[("f", "2")])));
    assert_eq!("1-0", state.push("b", pairs(&[("f", "3")])));
    assert_eq!(2, state.all("a").len());
    assert_eq!(1, state.all("b").len());
    assert!(state.all("c").is_empty());
    assert_eq!("2-0", state.after("a", "$")[0].id);
    assert_eq!(1, state.after("a", "$").len());
    assert_eq!("2-0", state.after("a", "1-0")[0].id);
    assert!(state.after("a", "2-0").is_empty());
    assert!(state.after("c", "$").is_empty());
}

#[test]
fn identifiers_are_compared_as_texts() {
    let mut state = StreamState::new();
    for _ in 0..10 {
        state.push("t", vec![]);
    }
    assert!(state.after("t", "9-0").is_empty());
    assert_eq!(9, state.after("t", "1-0").len());
    assert_eq!("10-0", state.after("t", "$")[0].id);
}

#[test]
fn replies_are_encoded() {
    assert_eq!("$2\r\né\r\n", encode_bulk_string("é"));
    assert_eq!(
        "*3\r\n$9\r\nsubscribe\r\n$1\r\nt\r\n:2\r\n",
        encode_subscribe_confirmation("t", 2)
    );
    assert_eq!(
        "*3\r\n$7\r\nmessage\r\n$1\r\nt\r\n$3\r\nmsg\r\n",
        encode_pubsub_message("t", "msg")
    );
    assert_eq!("*0\r\n", encode_stream_entries(&vec![]));
    let mut state = StreamState::new();
    state.push("t", pairs(&[("f", "v"), ("g", "")]));
    assert_eq!(
        "*1\r\n*2\r\n$1\r\nt\r\n*1\r\n*2\r\n$3\r\n1-0\r\n*4\r\n$1\r\nf\r\n$1\r\nv\r\n$1\r\ng\r\n$0\r\n\r\n",
        encode_xread_response("t", &state.all("t"))
    );
}

#[test]
fn subscription_is_confirmed_before_preloaded_messages() {
    let preloaded = vec![
        ("a".to_string(), strings(&["one", "two"])),
        ("c".to_string(), strings(&["never"])),
    ];
    let mut state = StreamState::new();
    let reply = execute_command(
        Command::Subscribe {
            topics: strings(&["a", "b"]),
        },
        &preloaded,
        &mut state,
    );
    let expected = [
        encode_subscribe_confirmation("a", 1),
        encode_subscribe_confirmation("b", 2),
        encode_pubsub_message("a", "one"),
        encode_pubsub_message("a", "two"),
    ]
    .concat();
    assert_eq!(expected, reply.response);
    assert_eq!(None, reply.published);
}

#[test]
fn values_of_an_added_entry_are_published_together() {
    let mut state = StreamState::new();
    let reply = execute_command(
        Command::Xadd {
            topic: "t".to_string(),
            fields: pairs(&[("a", "x"), ("b", "y")]),
        },
        &vec![],
        &mut state,
    );
    assert_eq!("$3\r\n1-0\r\n", reply.response);
    assert_eq!(Some("x y"), reply.published.as_deref());
}

#[test]
fn encoded_commands_are_read_back() {
    let parts = ["XADD", "topic", "", "\r\n", "é"];
    let mut input = format!("*{}\r\n", parts.len());
    for part in parts {
        input.push_str(&encode_bulk_string(part));
    }
    input.push_str("rest");
    let (command, rest) = parse_one_resp_array(&input).unwrap();
    assert_eq!("XADD", command.0);
    assert_eq!(strings(&["topic", "", "\r\n", "é"]), command.1);
    assert_eq!("rest", rest);
}

#[test]
fn message_is_matched_by_substring() {
    assert!(contains_text("stream payload", "payload"));
    assert!(contains_text("abc", ""));
    assert!(!contains_text("ab", "abc"));
    assert!(!contains_text("aab", "ba"));
    let wait = |observation| wait_for_broadcast_message(observation, "pay", "Message");
    assert!(matches!(
        wait(Observation::Message("a payload".to_string())),
        Verdict::Observed
    ));
    assert!(matches!(
        wait(Observation::Message("other".to_string())),
        Verdict::Wait
    ));
    assert!(matches!(wait(Observation::Lagged), Verdict::Wait));
    match wait(Observation::Closed) {
        Verdict::Missed(reason) => {
            assert_eq!("Message channel closed before observing pay", reason)
        }
        _ => panic!("a closed channel yields no message"),
    }
    match wait(Observation::TimedOut) {
        Verdict::Missed(reason) => assert_eq!("Message not found: pay", reason),
        _ => panic!("a timeout yields no message"),
    }
}

#[test]
fn connection_uri_names_the_scheme() {
    assert_eq!("redis://127.0.0.1:6379", connection_uri("127.0.0.1:6379"));
}
