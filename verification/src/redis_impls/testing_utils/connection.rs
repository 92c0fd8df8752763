//! One client connection of the mock server.
use vstd::prelude::*;
use vstd::string::*;
use vstd::utf8::{
    decode_utf8, decode_utf8_encode_utf8, encode_utf8, encode_utf8_decode_utf8, valid_utf8,
};

use super::command::{description, understood, Command, CommandModel};
use super::encode::{arrays_text, law_commands_read_back};
use super::resp::{
    all_words, command_batch, law_input_may_arrive_in_parts, next_command, scan_resp_commands,
    texts, uppercase, words_of, Batch, CommandWords, Words,
};
use super::server::{
    execute_command, reply_to, streams_after, Preloaded, Reply, ReplyModel, StreamState, Streams,
};
use crate::queue::Queue;
use crate::text::{
    law_encoding_concatenates, law_lossy_decoding_keeps_text, text_from_utf8_lossy, utf8_lossy,
};

verus! {

/// What has arrived from a client and is not a whole command yet.
pub struct Connection {
    pending: String,
}

/// What a read gave rise to.
pub struct Turn {
    /// How each command shows in the log of commands, in order.
    pub described: Vec<String>,
    /// What each command was answered, in order.
    pub replies: Vec<Reply>,
}

/// The models of a sequence of replies.
pub open spec fn reply_models(replies: Seq<Reply>) -> Seq<ReplyModel> {
    replies.map_values(|reply: Reply| reply@)
}

/// The commands that a client asks for.
pub open spec fn asked(commands: Seq<Words>) -> Seq<CommandModel> {
    commands.map_values(|words: Words| understood(words))
}

/// How commands show in the log.
pub open spec fn descriptions(commands: Seq<CommandModel>) -> Seq<Seq<char>> {
    commands.map_values(|command: CommandModel| description(command))
}

/// What commands are answered when they are carried out one after the other.
pub open spec fn replies_to(
    commands: Seq<CommandModel>,
    streams: Streams,
    preloaded: Seq<(String, Vec<String>)>,
) -> Seq<ReplyModel>
    decreases commands.len(),
{
    if commands.len() == 0 {
        seq![]
    } else {
        seq![reply_to(commands[0], streams, preloaded)] + replies_to(
            commands.skip(1),
            streams_after(commands[0], streams),
            preloaded,
        )
    }
}

/// What commands leave in each topic when they are carried out one after the other.
pub open spec fn streams_after_all(commands: Seq<CommandModel>, streams: Streams) -> Streams
    decreases commands.len(),
{
    if commands.len() == 0 {
        streams
    } else {
        streams_after_all(commands.skip(1), streams_after(commands[0], streams))
    }
}

impl Connection {
    /// What is waiting for the rest of a command.
    pub closed spec fn waiting(&self) -> Seq<char> {
        self.pending@
    }

    /// Starts with nothing waiting.
    pub fn new() -> (connection: Self)
        ensures
            connection.waiting().len() == 0,
    {
        Connection { pending: String::new() }
    }

    /// Takes in what was read from the client and carries out every command that is now whole.
    ///
    /// Returns nothing, and carries nothing out, where a command announces a token that would end
    /// inside a character.
    pub fn receive(
        &mut self,
        bytes: &[u8],
        preloaded: &Preloaded,
        state: &mut StreamState,
    ) -> (turn: Option<Turn>)
        ensures
            ({
                let batch = batch_of(old(self).waiting(), bytes@);
                let commands = asked(batch.commands);
                match turn {
                    Some(turn) => {
                        &&& !batch.cut
                        &&& texts(turn.described@) == descriptions(commands)
                        &&& reply_models(turn.replies@) == replies_to(
                            commands,
                            old(state)@,
                            preloaded@,
                        )
                        &&& final(state)@ == streams_after_all(commands, old(state)@)
                        &&& encode_utf8(final(self).waiting()) == batch.rest
                    },
                    None => batch.cut && final(state)@ == old(state)@ && final(self).waiting()
                        == old(self).waiting() + utf8_lossy(bytes@),
                }
            }),
    {
        self.pending.append(text_from_utf8_lossy(bytes).as_str());
        let (words, rest) = match scan_resp_commands(self.pending.as_str()) {
            Some((words, rest)) => (words, rest.to_string()),
            None => {
                return None;
            },
        };
        self.pending = rest;
        let mut waiting: Queue<CommandWords> = Queue::new(words);
        let ghost commands = asked(all_words(waiting@));
        let ghost mut done: int = 0;
        let mut described: Vec<String> = Vec::new();
        let mut replies: Vec<Reply> = Vec::new();
        proof {
            assert(commands.skip(0) =~= commands);
            assert(texts(described@) =~= descriptions(commands).take(0));
            assert(reply_models(replies@) + replies_to(commands, state@, preloaded@) =~= replies_to(
                commands,
                state@,
                preloaded@,
            ));
        }
        while waiting.len() > 0
            invariant
                0 <= done <= commands.len(),
                asked(all_words(waiting@)) == commands.skip(done),
                texts(described@) == descriptions(commands).take(done),
                reply_models(replies@) + replies_to(commands.skip(done), state@, preloaded@)
                    == replies_to(commands, old(state)@, preloaded@),
                streams_after_all(commands.skip(done), state@) == streams_after_all(
                    commands,
                    old(state)@,
                ),
            decreases waiting@.len(),
        {
            let ghost left = commands.skip(done);
            let ghost listed = waiting@;
            let ghost before = state@;
            let ghost logged = texts(described@);
            let ghost answered = reply_models(replies@);
            let (name, args) = waiting.take();
            let command = Command::from_parts(name, args);
            assert(left[0] == understood(words_of(listed[0])));
            let ghost model = command@;
            let text = command.describe();
            described.push(text);
            let reply = execute_command(command, preloaded, state);
            replies.push(reply);
            proof {
                assert(asked(all_words(waiting@)) =~= commands.skip(done + 1)) by {
                    assert(asked(all_words(waiting@)) =~= left.skip(1));
                }
                assert(left.skip(1) =~= commands.skip(done + 1));
                assert(texts(described@) =~= logged.push(text@));
                assert(descriptions(commands).take(done + 1) =~= descriptions(commands).take(
                    done,
                ).push(description(commands[done])));
                assert(reply_models(replies@) =~= answered.push(reply@));
                let tail = replies_to(left.skip(1), state@, preloaded@);
                assert(answered + (seq![reply@] + tail) =~= answered.push(reply@) + tail);
                done = done + 1;
            }
        }
        proof {
            assert(commands.skip(done).len() == 0);
            assert(descriptions(commands).take(done) =~= descriptions(commands));
            assert(reply_models(replies@) + replies_to(commands.skip(done), state@, preloaded@)
                =~= reply_models(replies@));
        }
        Some(Turn { described, replies })
    }
}

/// How the input is split over reads makes no difference to the answers: carrying out some
/// commands and then others gives the answers of carrying out all of them.
pub proof fn law_answers_do_not_depend_on_the_split(
    first: Seq<CommandModel>,
    second: Seq<CommandModel>,
    streams: Streams,
    preloaded: Seq<(String, Vec<String>)>,
)
    ensures
        replies_to(first + second, streams, preloaded) == replies_to(first, streams, preloaded)
            + replies_to(second, streams_after_all(first, streams), preloaded),
        streams_after_all(first + second, streams) == streams_after_all(
            second,
            streams_after_all(first, streams),
        ),
    decreases first.len(),
{
    if first.len() == 0 {
        assert(first + second =~= second);
        assert(replies_to(first, streams, preloaded) + replies_to(second, streams, preloaded)
            =~= replies_to(second, streams, preloaded));
    } else {
        let after = streams_after(first[0], streams);
        law_answers_do_not_depend_on_the_split(first.skip(1), second, after, preloaded);
        assert((first + second).skip(1) =~= first.skip(1) + second);
        assert((first + second)[0] == first[0]);
        let front = seq![reply_to(first[0], streams, preloaded)];
        let middle = replies_to(first.skip(1), after, preloaded);
        let end = replies_to(second, streams_after_all(first, streams), preloaded);
        assert(front + (middle + end) =~= (front + middle) + end);
    }
}

/// What a connection that is waiting for `waiting` makes of these bytes.
pub open spec fn batch_of(waiting: Seq<char>, bytes: Seq<u8>) -> Batch {
    command_batch(encode_utf8(waiting + utf8_lossy(bytes)))
}

/// How a client's input is split over reads makes no difference, as long as no character is torn
/// apart: two reads carry out the commands of a single read of all the bytes, in the same order, and
/// leave the same input waiting.
pub proof fn law_reads_may_be_split(
    waiting: Seq<char>,
    first: Seq<u8>,
    between: Seq<char>,
    second: Seq<u8>,
)
    requires
        valid_utf8(first),
        valid_utf8(second),
        !batch_of(waiting, first).cut,
        encode_utf8(between) == batch_of(waiting, first).rest,
    ensures
        ({
            let whole = batch_of(waiting, first + second);
            let later = batch_of(between, second);
            &&& asked(whole.commands) == asked(batch_of(waiting, first).commands) + asked(
                later.commands,
            )
            &&& whole.rest == later.rest
            &&& whole.cut == later.cut
        }),
{
    let head = decode_utf8(first);
    let tail = decode_utf8(second);
    decode_utf8_encode_utf8(first);
    decode_utf8_encode_utf8(second);
    law_encoding_concatenates(head, tail);
    law_lossy_decoding_keeps_text(head);
    law_lossy_decoding_keeps_text(tail);
    law_lossy_decoding_keeps_text(head + tail);
    assert(utf8_lossy(first + second) == head + tail);
    law_encoding_concatenates(waiting + head, tail);
    assert(waiting + (head + tail) =~= (waiting + head) + tail);
    law_input_may_arrive_in_parts(encode_utf8(waiting + head), second);
    law_encoding_concatenates(between, tail);
    let earlier = batch_of(waiting, first).commands;
    let later = batch_of(between, second).commands;
    assert(asked(earlier + later) =~= asked(earlier) + asked(later));
}

/// Commands that are carried out one after the other: each is answered from what those before it have
/// left.
proof fn lemma_answered_in_turn(
    commands: Seq<CommandModel>,
    streams: Streams,
    preloaded: Seq<(String, Vec<String>)>,
) -> (states: Seq<Streams>)
    ensures
        states.len() == commands.len() + 1,
        states[0] == streams,
        states.last() == streams_after_all(commands, streams),
        replies_to(commands, streams, preloaded).len() == commands.len(),
        forall|c: int|
            0 <= c < commands.len() ==> states[c + 1] == streams_after(
                #[trigger] commands[c],
                states[c],
            ),
        forall|c: int|
            0 <= c < commands.len() ==> replies_to(commands, streams, preloaded)[c] == reply_to(
                #[trigger] commands[c],
                states[c],
                preloaded,
            ),
    decreases commands.len(),
{
    if commands.len() == 0 {
        seq![streams]
    } else {
        let tail = commands.skip(1);
        let after = streams_after(commands[0], streams);
        let later = lemma_answered_in_turn(tail, after, preloaded);
        let states = seq![streams] + later;
        assert forall|c: int| 0 <= c < commands.len() implies states[c + 1] == streams_after(
            #[trigger] commands[c],
            states[c],
        ) by {
            if c > 0 {
                assert(tail[c - 1] == commands[c]);
            }
        }
        assert forall|c: int| 0 <= c < commands.len() implies replies_to(
            commands,
            streams,
            preloaded,
        )[c] == reply_to(#[trigger] commands[c], states[c], preloaded) by {
            if c > 0 {
                assert(tail[c - 1] == commands[c]);
            }
        }
        states
    }
}

/// Whatever commands a client sends over a new connection, each as an array of bulk strings, all of
/// them are carried out: each shows in the log and has its answer, in the order in which they were
/// sent, each is answered from what those before it have left, and nothing is left waiting.
#[verifier::rlimit(40)]
pub proof fn law_every_command_is_answered(
    commands: Seq<Seq<Seq<char>>>,
    start: Connection,
    connection: &mut Connection,
    bytes: &[u8],
    preloaded: Preloaded,
    state: &mut StreamState,
    turn: Option<Turn>,
)
    requires
        forall|c: int| 0 <= c < commands.len() ==> 0 < (#[trigger] commands[c]).len() <= usize::MAX,
        forall|c: int, i: int|
            0 <= c < commands.len() && 0 <= i < commands[c].len() ==> encode_utf8(
                #[trigger] commands[c][i],
            ).len() + 2 <= usize::MAX,
        call_ensures(Connection::new, (), start),
        *connection == start,
        bytes@ == encode_utf8(arrays_text(commands)),
        call_ensures(Connection::receive, (connection, bytes, &preloaded, state), turn),
    ensures
        ({
            let asked_for = Seq::new(
                commands.len(),
                |c: int|
                    understood(
                        Words { name: uppercase(commands[c][0]), args: commands[c].skip(1) },
                    ),
            );
            &&& turn matches Some(turn)
            &&& turn.described@.len() == commands.len()
            &&& turn.replies@.len() == commands.len()
            &&& forall|c: int|
                0 <= c < commands.len() ==> (#[trigger] turn.described@[c])@ == description(
                    asked_for[c],
                )
            &&& final(connection).waiting().len() == 0
            &&& exists|states: Seq<Streams>|
                {
                    &&& #[trigger] states.len() == commands.len() + 1
                    &&& states[0] == old(state)@
                    &&& states.last() == final(state)@
                    &&& forall|c: int|
                        0 <= c < commands.len() ==> states[c + 1] == streams_after(
                            #[trigger] asked_for[c],
                            states[c],
                        )
                    &&& forall|c: int|
                        0 <= c < commands.len() ==> (#[trigger] turn.replies@[c])@ == reply_to(
                            asked_for[c],
                            states[c],
                            preloaded@,
                        )
                }
        }),
{
    let asked_for = Seq::new(
        commands.len(),
        |c: int| understood(Words { name: uppercase(commands[c][0]), args: commands[c].skip(1) }),
    );
    let text = arrays_text(commands);
    law_lossy_decoding_keeps_text(text);
    assert(start.waiting() + text =~= text);
    law_commands_read_back(commands, seq![]);
    let input = encode_utf8(text);
    assert(input + seq![] =~= input);
    let batch = batch_of(start.waiting(), bytes@);
    assert(batch == command_batch(input));
    lemma_nothing_to_read();
    assert(asked(batch.commands) =~= asked_for);
    let states = lemma_answered_in_turn(asked_for, old(state)@, preloaded@);
    if let Some(turn) = turn {
        assert(texts(turn.described@).len() == turn.described@.len());
        assert(reply_models(turn.replies@).len() == turn.replies@.len());
        assert forall|c: int| 0 <= c < commands.len() implies (#[trigger] turn.described@[c])@
            == description(asked_for[c]) by {
            assert(texts(turn.described@)[c] == turn.described@[c]@);
        }
        assert forall|c: int| 0 <= c < commands.len() implies (#[trigger] turn.replies@[c])@
            == reply_to(asked_for[c], states[c], preloaded@) by {
            assert(reply_models(turn.replies@)[c] == turn.replies@[c]@);
            assert(asked_for[c] == asked_for[c]);
        }
        assert(encode_utf8(final(connection).waiting()).len() == 0);
        encode_utf8_decode_utf8(final(connection).waiting());
        assert(encode_utf8(final(connection).waiting()) =~= seq![]);
        assert(states.len() == commands.len() + 1);
    }
}

proof fn lemma_nothing_to_read()
    ensures
        command_batch(seq![]) == (Batch { commands: seq![], rest: seq![], cut: false }),
{
    assert(next_command(seq![]) is Stop);
}

/// Two reads, one after the other, do what one read of all their bytes does, as long as no character is
/// torn apart: the same commands show in the log, they are answered the same, and the same is left, in
/// the streams and waiting. Where the connection gives up on the input, nothing is carried out.
pub proof fn law_reads_add_up(
    first: &[u8],
    second: &[u8],
    whole: &[u8],
    preloaded: Preloaded,
    early: &mut Connection,
    early_state: &mut StreamState,
    early_turn: Turn,
    late: &mut Connection,
    late_state: &mut StreamState,
    late_turn: Option<Turn>,
    single: &mut Connection,
    single_state: &mut StreamState,
    single_turn: Option<Turn>,
)
    requires
        valid_utf8(first@),
        valid_utf8(second@),
        whole@ == first@ + second@,
        call_ensures(
            Connection::receive,
            (early, first, &preloaded, early_state),
            Some(early_turn),
        ),
        *late == *final(early),
        *late_state == *final(early_state),
        call_ensures(Connection::receive, (late, second, &preloaded, late_state), late_turn),
        *single == *early,
        *single_state == *early_state,
        call_ensures(Connection::receive, (single, whole, &preloaded, single_state), single_turn),
    ensures
        late_turn is None <==> single_turn is None,
        late_turn is None ==> final(single_state)@ == old(single_state)@,
        late_turn matches Some(turn) ==> {
            &&& texts(single_turn->0.described@) == texts(early_turn.described@) + texts(
                turn.described@,
            )
            &&& reply_models(single_turn->0.replies@) == reply_models(early_turn.replies@)
                + reply_models(turn.replies@)
            &&& final(single_state)@ == final(late_state)@
            &&& final(single).waiting() == final(late).waiting()
        },
{
    let waiting = old(early).waiting();
    let between = final(early).waiting();
    law_reads_may_be_split(waiting, first@, between, second@);
    let before = asked(batch_of(waiting, first@).commands);
    let after = asked(batch_of(between, second@).commands);
    law_answers_do_not_depend_on_the_split(before, after, old(early_state)@, preloaded@);
    if late_turn is Some {
        assert(descriptions(before + after) =~= descriptions(before) + descriptions(after));
        encode_utf8_decode_utf8(final(single).waiting());
        encode_utf8_decode_utf8(final(late).waiting());
    }
}

} // verus!
