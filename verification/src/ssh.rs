//! A command on a remote host: the conversation with the host, one event at a time.
use vstd::prelude::*;
use vstd::utf8::{encode_utf8, encode_utf8_decode_utf8, encode_utf8_valid_utf8};

use crate::exec::{all_from, line_texts, ExecResult, Line, Stream};
use crate::lines::{
    law_lines_of_pieces, law_nothing_is_lost_by_cutting, law_partial_line_is_one_line,
    law_transcript_of_both, law_transcript_of_one_line, partial_line, transcript, whole_lines,
    LineSplitter,
};
use crate::text::{
    failed, law_line_end_alone_is_dropped, lossy_text, reads_utf8, texts, trim_end, utf8_lossy,
    without_line_end, without_trailing_space,
};

verus! {

/// What a remote command has left when its channel is closed.
#[derive(Debug)]
pub struct Output {
    pub code: i32,
    pub stdout: String,
    pub stderr: String,
}

/// What is to be run, where, and who asks for it.
pub struct Request {
    pub host: String,
    pub port: u16,
    pub username: String,
    pub password: String,
    pub script: String,
}

/// What the channel can bring.
#[derive(Debug)]
pub enum ChannelMessage {
    Data(Vec<u8>),
    ExtendedData { data: Vec<u8>, ext: u32 },
    ExitStatus(u32),
    Other,
}

/// What came of the last action.
pub enum Event {
    Connected(Result<(), String>),
    Authenticated(Result<bool, String>),
    Opened(Result<(), String>),
    Requested(Result<(), String>),
    Received(ChannelMessage),
    ChannelClosed,
}

/// What is to be done next.
pub enum Action {
    /// Connect to the host.
    Connect { host: String, port: u16 },
    /// Prove who asks.
    Authenticate { username: String, password: String },
    /// Open a channel.
    OpenChannel,
    /// Ask the host to run the script.
    RequestExec { want_reply: bool, script: String },
    /// Wait for the next message of the channel, or for its end.
    Wait,
    /// Give this out: the conversation is over.
    Finish(Result<Output, String>),
}

/// How far a conversation has come.
#[derive(Clone, Copy, Debug, PartialEq, Eq, Structural)]
pub enum Stage {
    Connecting,
    Authenticating,
    Opening,
    Requesting,
    Streaming,
    Finished,
}

/// A conversation with a host.
pub struct Conversation {
    pub request: Request,
    pub stage: Stage,
    pub code: i32,
    pub out: LineSplitter,
    pub err: LineSplitter,
}

/// What one event leads to.
pub struct Progress {
    pub conversation: Conversation,
    pub lines: Vec<Line>,
    pub action: Action,
}

/// Whether an event can come at a stage.
pub open spec fn event_fits(stage: Stage, event: Event) -> bool {
    match event {
        Event::Connected(_) => stage == Stage::Connecting,
        Event::Authenticated(_) => stage == Stage::Authenticating,
        Event::Opened(_) => stage == Stage::Opening,
        Event::Requested(_) => stage == Stage::Requesting,
        Event::Received(_) => stage == Stage::Streaming,
        Event::ChannelClosed => stage == Stage::Streaming,
    }
}

/// The exit code for an exit status: the status where an `i32` holds it, else 2^32 less.
pub open spec fn exit_code(status: u32) -> int {
    if status <= i32::MAX {
        status as int
    } else {
        status - 0x1_0000_0000
    }
}

/// Whether two streams stand alike.
pub open spec fn same_stream(a: LineSplitter, b: LineSplitter) -> bool {
    a.partial@ == b.partial@ && a.kept@ == b.kept@
}

/// Whether a stream has taken in a text and passed on these lines.
pub open spec fn fed(
    before: LineSplitter,
    more: Seq<char>,
    lines: Seq<Seq<char>>,
    after: LineSplitter,
) -> bool {
    &&& lines == whole_lines(before.partial@ + more)
    &&& after.partial@ == partial_line(before.partial@ + more)
    &&& after.kept@ == before.kept@ + transcript(lines)
}

/// Whether a conversation has gone on to the next stage, with nothing passed on.
pub open spec fn advanced(before: Conversation, r: Progress, stage: Stage) -> bool {
    &&& r.conversation.request == before.request
    &&& r.conversation.stage == stage
    &&& r.conversation.code == before.code
    &&& same_stream(r.conversation.out, before.out)
    &&& same_stream(r.conversation.err, before.err)
    &&& r.lines@.len() == 0
}

/// Whether a conversation has ended in an error, with nothing passed on.
pub open spec fn broken_off(before: Conversation, r: Progress, message: Seq<char>) -> bool {
    &&& advanced(before, r, Stage::Finished)
    &&& r.action matches Action::Finish(outcome)
    &&& failed(outcome, message)
}

/// Whether a message has been taken in: data and extended data of type 1 feed the two streams, an
/// exit status sets the code, and anything else changes nothing.
pub open spec fn taken_in(before: Conversation, message: ChannelMessage, r: Progress) -> bool {
    let after = r.conversation;
    &&& after.request == before.request
    &&& after.stage == before.stage
    &&& r.action is Wait
    &&& match message {
        ChannelMessage::Data(data) => {
            &&& fed(before.out, utf8_lossy(data@), line_texts(r.lines@), after.out)
            &&& reads_utf8(data@)
            &&& all_from(r.lines@, Stream::Stdout)
            &&& same_stream(after.err, before.err)
            &&& after.code == before.code
        },
        ChannelMessage::ExtendedData { data, ext } if ext == 1 => {
            &&& fed(before.err, utf8_lossy(data@), line_texts(r.lines@), after.err)
            &&& reads_utf8(data@)
            &&& all_from(r.lines@, Stream::Stderr)
            &&& same_stream(after.out, before.out)
            &&& after.code == before.code
        },
        ChannelMessage::ExtendedData { .. } => advanced(before, r, before.stage),
        ChannelMessage::ExitStatus(status) => {
            &&& after.code == exit_code(status)
            &&& same_stream(after.out, before.out)
            &&& same_stream(after.err, before.err)
            &&& r.lines@.len() == 0
        },
        ChannelMessage::Other => advanced(before, r, before.stage),
    }
}

/// The line that the end of a stream completes, if it is not empty.
pub open spec fn last_line(partial: Seq<char>) -> Seq<Seq<char>> {
    let line = without_line_end(partial);
    if line.len() == 0 {
        Seq::empty()
    } else {
        seq![line]
    }
}

/// What is left of a stream: its transcript with the last line, without the white space at its end.
pub open spec fn remains(s: LineSplitter) -> Seq<char> {
    without_trailing_space(s.kept@ + transcript(last_line(s.partial@)))
}

/// Whether a conversation has ended with the channel: the two streams are closed one after the
/// other, and what they leave is the output.
pub open spec fn channel_ended(before: Conversation, r: Progress) -> bool {
    let out_line = last_line(before.out.partial@);
    let err_line = last_line(before.err.partial@);
    let n = out_line.len() as int;
    &&& r.conversation.request == before.request
    &&& r.conversation.stage == Stage::Finished
    &&& r.conversation.code == before.code
    &&& same_stream(r.conversation.out, before.out)
    &&& same_stream(r.conversation.err, before.err)
    &&& line_texts(r.lines@) == out_line + err_line
    &&& all_from(r.lines@.take(n), Stream::Stdout)
    &&& all_from(r.lines@.skip(n), Stream::Stderr)
    &&& r.action matches Action::Finish(outcome)
    &&& outcome matches Ok(output)
    &&& output.code == before.code
    &&& output.stdout@ == remains(before.out)
    &&& output.stderr@ == remains(before.err)
}

/// What an event leads to.
pub open spec fn follows(before: Conversation, event: Event, r: Progress) -> bool {
    match event {
        Event::Connected(Err(e)) => broken_off(before, r, "connect failed: "@ + e@),
        Event::Connected(Ok(_)) => {
            &&& advanced(before, r, Stage::Authenticating)
            &&& r.action matches Action::Authenticate { username, password }
            &&& username@ == before.request.username@
            &&& password@ == before.request.password@
        },
        Event::Authenticated(Err(e)) => broken_off(before, r, "auth error: "@ + e@),
        Event::Authenticated(Ok(accepted)) => if accepted {
            &&& advanced(before, r, Stage::Opening)
            &&& r.action is OpenChannel
        } else {
            broken_off(before, r, "authentication failed (check username / password)"@)
        },
        Event::Opened(Err(e)) => broken_off(before, r, e@),
        Event::Opened(Ok(_)) => {
            &&& advanced(before, r, Stage::Requesting)
            &&& r.action matches Action::RequestExec { want_reply, script }
            &&& want_reply
            &&& script@ == before.request.script@
        },
        Event::Requested(Err(e)) => broken_off(before, r, e@),
        Event::Requested(Ok(_)) => {
            &&& advanced(before, r, Stage::Streaming)
            &&& r.action is Wait
        },
        Event::Received(message) => taken_in(before, message, r),
        Event::ChannelClosed => channel_ended(before, r),
    }
}

fn code_of(status: u32) -> (r: i32)
    ensures
        r == exit_code(status),
{
    let r: i32 = #[verifier::truncate]
    (status as i32);
    assert(status <= 0x7fff_ffff ==> r == status) by (bit_vector)
        requires
            r == status as i32,
    ;
    assert(status > 0x7fff_ffff ==> r == status - 0x1_0000_0000) by (bit_vector)
        requires
            r == status as i32,
    ;
    r
}

/// Marks lines with the stream that they come from.
fn mark(stream: Stream, list: Vec<String>) -> (lines: Vec<Line>)
    ensures
        line_texts(lines@) == texts(list@),
        all_from(lines@, stream),
{
    let mut lines: Vec<Line> = Vec::new();
    let mut i: usize = 0;
    while i < list.len()
        invariant
            i <= list@.len(),
            lines@.len() == i,
            all_from(lines@, stream),
            forall|j: int| 0 <= j < i ==> (#[trigger] lines@[j]).text@ == list@[j]@,
        decreases list.len() - i,
    {
        lines.push(Line { stream, text: list[i].clone() });
        i += 1;
    }
    assert(line_texts(lines@) =~= texts(list@));
    lines
}

/// Goes on to the next stage.
fn advance(conversation: Conversation, stage: Stage, action: Action) -> (r: Progress)
    ensures
        advanced(conversation, r, stage),
        r.action == action,
{
    let mut conversation = conversation;
    conversation.stage = stage;
    Progress { conversation, lines: Vec::new(), action }
}

/// Ends a conversation in an error.
fn break_off(conversation: Conversation, message: String) -> (r: Progress)
    ensures
        broken_off(conversation, r, message@),
{
    advance(conversation, Stage::Finished, Action::Finish(Err(message)))
}

/// Takes in one message of the channel.
fn take_in(conversation: Conversation, message: ChannelMessage) -> (r: Progress)
    ensures
        taken_in(conversation, message, r),
{
    let mut after = conversation;
    let mut lines: Vec<Line> = Vec::new();
    match message {
        ChannelMessage::Data(data) => {
            let more = lossy_text(data.as_slice());
            lines = mark(Stream::Stdout, after.out.feed(more.as_str()));
        },
        ChannelMessage::ExtendedData { data, ext } => {
            if ext == 1 {
                let more = lossy_text(data.as_slice());
                lines = mark(Stream::Stderr, after.err.feed(more.as_str()));
            }
        },
        ChannelMessage::ExitStatus(status) => {
            after.code = code_of(status);
        },
        ChannelMessage::Other => {},
    }
    Progress { conversation: after, lines, action: Action::Wait }
}

/// Closes both streams once the channel is closed.
fn close(conversation: Conversation) -> (r: Progress)
    ensures
        channel_ended(conversation, r),
{
    let mut ended = conversation;
    ended.stage = Stage::Finished;
    let (out_line, out_kept) = ended.out.close();
    let (err_line, err_kept) = ended.err.close();
    let ghost out_lines = last_line(conversation.out.partial@);
    let ghost err_lines = last_line(conversation.err.partial@);
    let mut lines: Vec<Line> = Vec::new();
    if let Some(text) = out_line {
        lines.push(Line { stream: Stream::Stdout, text });
    }
    let ghost first = lines@;
    if let Some(text) = err_line {
        lines.push(Line { stream: Stream::Stderr, text });
    }
    proof {
        assert(first.len() == out_lines.len());
        assert(lines@.take(out_lines.len() as int) =~= first);
        assert(line_texts(lines@) =~= out_lines + err_lines);
        assert(conversation.out.kept@ + transcript(Seq::empty()) =~= conversation.out.kept@);
        assert(conversation.err.kept@ + transcript(Seq::empty()) =~= conversation.err.kept@);
    }
    let output = Output {
        code: ended.code,
        stdout: trim_end(out_kept.as_str()),
        stderr: trim_end(err_kept.as_str()),
    };
    Progress { conversation: ended, lines, action: Action::Finish(Ok(output)) }
}

/// Runs a conversation one event further: what becomes of it, the lines that the event completes,
/// and what is to be done next.
pub fn run(conversation: Conversation, event: Event) -> (r: Progress)
    requires
        event_fits(conversation.stage, event),
    ensures
        follows(conversation, event, r),
{
    match event {
        Event::Connected(Ok(_)) => {
            let username = conversation.request.username.clone();
            let password = conversation.request.password.clone();
            advance(
                conversation,
                Stage::Authenticating,
                Action::Authenticate { username, password },
            )
        },
        Event::Connected(Err(e)) => break_off(
            conversation,
            "connect failed: ".to_string().concat(e.as_str()),
        ),
        Event::Authenticated(Ok(accepted)) => if accepted {
            advance(conversation, Stage::Opening, Action::OpenChannel)
        } else {
            break_off(
                conversation,
                "authentication failed (check username / password)".to_string(),
            )
        },
        Event::Authenticated(Err(e)) => break_off(
            conversation,
            "auth error: ".to_string().concat(e.as_str()),
        ),
        Event::Opened(Ok(_)) => {
            let script = conversation.request.script.clone();
            advance(
                conversation,
                Stage::Requesting,
                Action::RequestExec { want_reply: true, script },
            )
        },
        Event::Opened(Err(e)) => break_off(conversation, e),
        Event::Requested(Ok(_)) => advance(conversation, Stage::Streaming, Action::Wait),
        Event::Requested(Err(e)) => break_off(conversation, e),
        Event::Received(message) => take_in(conversation, message),
        Event::ChannelClosed => close(conversation),
    }
}

impl Conversation {
    /// A conversation that is still to begin: nothing has arrived, and the exit code is -1 until
    /// the host reports one.
    pub fn new(request: Request) -> (r: Self)
        ensures
            r.request == request,
            r.stage == Stage::Connecting,
            r.code == -1,
            r.out.partial@ == Seq::<char>::empty(),
            r.out.kept@ == Seq::<char>::empty(),
            r.err.partial@ == Seq::<char>::empty(),
            r.err.kept@ == Seq::<char>::empty(),
            has_taken_in(r, Seq::empty()),
    {
        let r = Conversation {
            request,
            stage: Stage::Connecting,
            code: -1,
            out: LineSplitter::new(),
            err: LineSplitter::new(),
        };
        assert(r.out.kept@ =~= Seq::<char>::empty());
        r
    }
}

/// Begins to run a script on a host: a host without a name is refused, any other is to be connected
/// to.
pub fn run_ssh(
    host: String,
    port: u16,
    username: String,
    password: String,
    script: String,
) -> (r: Result<(Conversation, Action), String>)
    ensures
        match r {
            Ok((conversation, action)) => {
                &&& host@.len() > 0
                &&& conversation.request == (Request { host, port, username, password, script })
                &&& conversation.stage == Stage::Connecting
                &&& conversation.code == -1
                &&& conversation.out.partial@ == Seq::<char>::empty()
                &&& conversation.out.kept@ == Seq::<char>::empty()
                &&& conversation.err.partial@ == Seq::<char>::empty()
                &&& conversation.err.kept@ == Seq::<char>::empty()
                &&& has_taken_in(conversation, Seq::empty())
                &&& action matches Action::Connect { host: to_host, port: to_port }
                &&& to_host@ == host@
                &&& to_port == port
            },
            Err(e) => host@.len() == 0 && e@ == "SSH host is empty"@,
        },
{
    if host.as_str().is_empty() {
        return Err("SSH host is empty".to_string());
    }
    let action = Action::Connect { host: host.clone(), port };
    Ok((Conversation::new(Request { host, port, username, password, script }), action))
}

impl ExecResult {
    /// What a remote command has left, as the result of a command.
    pub fn from_output(output: Output) -> (r: Self)
        ensures
            r.stdout == output.stdout,
            r.stderr == output.stderr,
            r.code == output.code,
    {
        ExecResult { stdout: output.stdout, stderr: output.stderr, code: output.code }
    }
}

/// The text that messages have brought on one stream.
pub open spec fn received(messages: Seq<ChannelMessage>, stream: Stream) -> Seq<char>
    decreases messages.len(),
{
    if messages.len() == 0 {
        Seq::empty()
    } else {
        let before = received(messages.drop_last(), stream);
        match messages.last() {
            ChannelMessage::Data(data) if stream == Stream::Stdout => before + utf8_lossy(data@),
            ChannelMessage::ExtendedData { data, ext } if ext == 1 && stream == Stream::Stderr => {
                before + utf8_lossy(data@)
            },
            _ => before,
        }
    }
}

/// The exit code that messages have reported last, -1 where they have reported none.
pub open spec fn reported_code(messages: Seq<ChannelMessage>) -> int
    decreases messages.len(),
{
    if messages.len() == 0 {
        -1
    } else if let ChannelMessage::ExitStatus(status) = messages.last() {
        exit_code(status)
    } else {
        reported_code(messages.drop_last())
    }
}

/// Whether a stream has passed on the whole lines of a text and held back the rest.
pub open spec fn stands_after(s: LineSplitter, text: Seq<char>) -> bool {
    &&& s.kept@ == transcript(whole_lines(text))
    &&& s.partial@ == partial_line(text)
}

/// Whether a conversation stands as these messages, and nothing else, leave it.
pub open spec fn has_taken_in(c: Conversation, messages: Seq<ChannelMessage>) -> bool {
    &&& stands_after(c.out, received(messages, Stream::Stdout))
    &&& stands_after(c.err, received(messages, Stream::Stderr))
    &&& c.code == reported_code(messages)
}

/// The lines of a text, with what follows the last line feed as a line of its own unless it is
/// empty.
pub open spec fn lines_of(text: Seq<char>) -> Seq<Seq<char>> {
    whole_lines(text) + last_line(partial_line(text))
}

proof fn lemma_fed(
    before: LineSplitter,
    text: Seq<char>,
    more: Seq<char>,
    lines: Seq<Seq<char>>,
    after: LineSplitter,
)
    requires
        stands_after(before, text),
        fed(before, more, lines, after),
    ensures
        stands_after(after, text + more),
        whole_lines(text + more) == whole_lines(text) + lines,
{
    law_lines_of_pieces(text, more);
    law_transcript_of_both(whole_lines(text), lines);
}

/// Every message is accounted for: after one more message a conversation stands as all messages
/// so far leave it, and the lines passed on are just those that the message completes.
pub proof fn law_messages_are_accounted_for(
    before: Conversation,
    messages: Seq<ChannelMessage>,
    message: ChannelMessage,
    r: Progress,
)
    requires
        has_taken_in(before, messages),
        follows(before, Event::Received(message), r),
    ensures
        has_taken_in(r.conversation, messages.push(message)),
        forall|stream: Stream| #[trigger]
            whole_lines(received(messages.push(message), stream)) == whole_lines(
                received(messages, stream),
            ) + (if r.lines@.len() > 0 && r.lines@[0].stream == stream {
                line_texts(r.lines@)
            } else {
                Seq::empty()
            }),
{
    let all = messages.push(message);
    assert(all.drop_last() =~= messages);
    match message {
        ChannelMessage::Data(data) => {
            lemma_fed(
                before.out,
                received(messages, Stream::Stdout),
                utf8_lossy(data@),
                line_texts(r.lines@),
                r.conversation.out,
            );
        },
        ChannelMessage::ExtendedData { data, ext } if ext == 1 => {
            lemma_fed(
                before.err,
                received(messages, Stream::Stderr),
                utf8_lossy(data@),
                line_texts(r.lines@),
                r.conversation.err,
            );
        },
        _ => {},
    }
    assert forall|stream: Stream| #[trigger]
        whole_lines(received(all, stream)) == whole_lines(received(messages, stream)) + (if
        r.lines@.len() > 0 && r.lines@[0].stream == stream {
            line_texts(r.lines@)
        } else {
            Seq::empty()
        }) by {
        let old_lines = whole_lines(received(messages, stream));
        assert(old_lines + Seq::<Seq<char>>::empty() =~= old_lines);
        if r.lines@.len() == 0 {
            assert(line_texts(r.lines@) =~= Seq::<Seq<char>>::empty());
        }
    }
}

/// Text that a message brings in UTF-8 is received as it was sent, on either stream.
pub proof fn law_text_is_received_as_sent(
    before: Conversation,
    data: Vec<u8>,
    text: Seq<char>,
    r: Progress,
)
    requires
        data@ == encode_utf8(text),
    ensures
        follows(before, Event::Received(ChannelMessage::Data(data)), r) ==> fed(
            before.out,
            text,
            line_texts(r.lines@),
            r.conversation.out,
        ),
        follows(before, Event::Received(ChannelMessage::ExtendedData { data, ext: 1 }), r) ==> fed(
            before.err,
            text,
            line_texts(r.lines@),
            r.conversation.err,
        ),
{
    encode_utf8_valid_utf8(text);
    encode_utf8_decode_utf8(text);
}

/// Until the channel opens nothing is taken in, whatever the events.
pub proof fn law_nothing_before_the_channel(
    before: Conversation,
    messages: Seq<ChannelMessage>,
    event: Event,
    r: Progress,
)
    requires
        has_taken_in(before, messages),
        follows(before, event, r),
        !(event is Received),
        !(event is ChannelClosed),
    ensures
        has_taken_in(r.conversation, messages),
        r.lines@.len() == 0,
{
}

/// The output of a run is a function of the texts received, however they were cut into messages:
/// their lines one below the other without the white space at the end, and the last code reported.
pub proof fn law_output_of_a_run(
    before: Conversation,
    messages: Seq<ChannelMessage>,
    r: Progress,
)
    requires
        has_taken_in(before, messages),
        follows(before, Event::ChannelClosed, r),
    ensures
        r.action matches Action::Finish(Ok(output)) && {
            &&& output.code == reported_code(messages)
            &&& output.stdout@ == without_trailing_space(
                transcript(lines_of(received(messages, Stream::Stdout))),
            )
            &&& output.stderr@ == without_trailing_space(
                transcript(lines_of(received(messages, Stream::Stderr))),
            )
        },
{
    let out = received(messages, Stream::Stdout);
    let err = received(messages, Stream::Stderr);
    law_transcript_of_both(whole_lines(out), last_line(partial_line(out)));
    law_transcript_of_both(whole_lines(err), last_line(partial_line(err)));
}

/// How many steps a conversation has behind it.
pub open spec fn steps_taken(stage: Stage) -> int {
    match stage {
        Stage::Connecting => 0,
        Stage::Authenticating => 1,
        Stage::Opening => 2,
        Stage::Requesting => 3,
        Stage::Streaming => 4,
        Stage::Finished => 5,
    }
}

/// The steps come one after the other, each only when the one before it has succeeded: a
/// conversation that goes on takes the next step or, while it streams, stays where it is. What is
/// asked for never changes, a channel is opened only once the host has accepted the password, and
/// the script is handed over only on an open channel.
pub proof fn law_steps_in_order(before: Conversation, event: Event, r: Progress)
    requires
        event_fits(before.stage, event),
        follows(before, event, r),
    ensures
        r.conversation.stage == Stage::Finished <==> r.action is Finish,
        r.conversation.stage == Stage::Finished || steps_taken(r.conversation.stage)
            == steps_taken(before.stage) + 1 || (before.stage == Stage::Streaming
            && r.conversation.stage == Stage::Streaming),
        r.conversation.stage == Stage::Opening ==> (event matches Event::Authenticated(Ok(a)) && a),
        r.action is OpenChannel ==> (event matches Event::Authenticated(Ok(a)) && a),
        r.action is RequestExec ==> (event matches Event::Opened(Ok(_))),
        r.conversation.request == before.request,
{
}

/// An exit code is the exit status as a signed number of 32 bits: it is in their range and differs
/// from the status by a multiple of 2^32.
pub proof fn law_exit_code_is_the_status(status: u32)
    ensures
        i32::MIN <= exit_code(status) <= i32::MAX,
        (exit_code(status) - status) % 0x1_0000_0000 == 0,
{
}

/// The last exit status is the one that counts, and without any the code is -1: messages of other
/// kinds change nothing about it.
pub proof fn law_last_status_counts(
    before: Seq<ChannelMessage>,
    status: u32,
    after: Seq<ChannelMessage>,
)
    requires
        forall|i: int| 0 <= i < after.len() ==> !(#[trigger] after[i] is ExitStatus),
    ensures
        reported_code(before.push(ChannelMessage::ExitStatus(status)) + after) == exit_code(status),
        reported_code(after) == -1,
    decreases after.len(),
{
    let all = before.push(ChannelMessage::ExitStatus(status)) + after;
    if after.len() == 0 {
        assert(all.last() == ChannelMessage::ExitStatus(status));
    } else {
        let rest = after.drop_last();
        assert forall|i: int| 0 <= i < rest.len() implies !(#[trigger] rest[i] is ExitStatus) by {
            assert(rest[i] == after[i]);
        }
        law_last_status_counts(before, status, rest);
        assert(all.drop_last() =~= before.push(ChannelMessage::ExitStatus(status)) + rest);
        assert(all.last() == after[after.len() - 1]);
        assert(after.last() == after[after.len() - 1]);
    }
}

/// What is received of a stream is what the messages bring on it, one behind the other: data on the
/// output, extended data of type 1 on the errors, and nothing else on either.
pub proof fn law_messages_bring_their_text(
    a: Seq<ChannelMessage>,
    b: Seq<ChannelMessage>,
    data: Vec<u8>,
    ext: u32,
    status: u32,
    stream: Stream,
)
    ensures
        received(a + b, stream) == received(a, stream) + received(b, stream),
        received(seq![ChannelMessage::Data(data)], Stream::Stdout) == utf8_lossy(data@),
        received(seq![ChannelMessage::Data(data)], Stream::Stderr).len() == 0,
        received(seq![ChannelMessage::ExtendedData { data, ext: 1 }], Stream::Stderr)
            == utf8_lossy(data@),
        received(seq![ChannelMessage::ExtendedData { data, ext }], Stream::Stdout).len() == 0,
        ext != 1 ==> received(
            seq![ChannelMessage::ExtendedData { data, ext }],
            Stream::Stderr,
        ).len() == 0,
        received(seq![ChannelMessage::ExitStatus(status)], stream).len() == 0,
        received(seq![ChannelMessage::Other], stream).len() == 0,
        received(Seq::empty(), stream).len() == 0,
    decreases b.len(),
{
    lemma_received_of_one(ChannelMessage::Data(data), Stream::Stdout);
    lemma_received_of_one(ChannelMessage::Data(data), Stream::Stderr);
    lemma_received_of_one(ChannelMessage::ExtendedData { data, ext: 1 }, Stream::Stderr);
    lemma_received_of_one(ChannelMessage::ExtendedData { data, ext }, Stream::Stdout);
    lemma_received_of_one(ChannelMessage::ExtendedData { data, ext }, Stream::Stderr);
    lemma_received_of_one(ChannelMessage::ExitStatus(status), stream);
    lemma_received_of_one(ChannelMessage::Other, stream);
    if b.len() == 0 {
        assert(a + b =~= a);
        assert(received(a, stream) + received(b, stream) =~= received(a, stream));
    } else {
        assert((a + b).drop_last() =~= a + b.drop_last());
        assert((a + b).last() == b.last());
        law_messages_bring_their_text(a, b.drop_last(), data, ext, status, stream);
        assert(received(a + b, stream) =~= received(a, stream) + received(b, stream));
    }
}

proof fn lemma_received_of_one(message: ChannelMessage, stream: Stream)
    ensures
        received(seq![message], stream) == (match message {
            ChannelMessage::Data(data) if stream == Stream::Stdout => utf8_lossy(data@),
            ChannelMessage::ExtendedData { data, ext } if ext == 1 && stream == Stream::Stderr => {
                utf8_lossy(data@)
            },
            _ => Seq::empty(),
        }),
{
    reveal_with_fuel(received, 2);
    let one = seq![message];
    assert(one.drop_last() =~= Seq::<ChannelMessage>::empty());
    assert(one.last() == message);
    assert(received(one, stream) =~= (match message {
        ChannelMessage::Data(data) if stream == Stream::Stdout => utf8_lossy(data@),
        ChannelMessage::ExtendedData { data, ext } if ext == 1 && stream == Stream::Stderr => {
            utf8_lossy(data@)
        },
        _ => Seq::empty(),
    }));
}

/// A conversation stands as messages leave it just if each stream has kept a transcript of the whole
/// lines received of it and holds back the rest, and the code is the one reported.
pub proof fn law_standing_after_messages(c: Conversation, messages: Seq<ChannelMessage>)
    ensures
        has_taken_in(c, messages) <==> {
            &&& c.out.kept@ == transcript(whole_lines(received(messages, Stream::Stdout)))
            &&& c.out.partial@ == partial_line(received(messages, Stream::Stdout))
            &&& c.err.kept@ == transcript(whole_lines(received(messages, Stream::Stderr)))
            &&& c.err.partial@ == partial_line(received(messages, Stream::Stderr))
            &&& c.code == reported_code(messages)
        },
{
}

/// What each step before the channel leads to: a step that succeeds leads to the next, with just what
/// was asked for handed over, and one that fails ends the conversation and says why. Nothing is passed
/// on, and nothing of what has arrived changes.
pub proof fn law_steps_lead_on_or_end(before: Conversation, event: Event, r: Progress)
    requires
        follows(before, event, r),
        !(event is Received),
        !(event is ChannelClosed),
    ensures
        r.lines@.len() == 0,
        r.conversation.request == before.request,
        r.conversation.code == before.code,
        r.conversation.out.partial@ == before.out.partial@,
        r.conversation.out.kept@ == before.out.kept@,
        r.conversation.err.partial@ == before.err.partial@,
        r.conversation.err.kept@ == before.err.kept@,
        event matches Event::Connected(Ok(_)) ==> r.conversation.stage is Authenticating && (
        r.action matches Action::Authenticate { username, password } && username@
            == before.request.username@ && password@ == before.request.password@),
        event matches Event::Connected(Err(e)) ==> r.conversation.stage is Finished && (
        r.action matches Action::Finish(Err(m)) && m@ == "connect failed: "@ + e@),
        event matches Event::Authenticated(Ok(accepted)) ==> if accepted {
            r.conversation.stage is Opening && r.action is OpenChannel
        } else {
            r.conversation.stage is Finished && (r.action matches Action::Finish(Err(m)) && m@
                == "authentication failed (check username / password)"@)
        },
        event matches Event::Authenticated(Err(e)) ==> r.conversation.stage is Finished && (
        r.action matches Action::Finish(Err(m)) && m@ == "auth error: "@ + e@),
        event matches Event::Opened(Ok(_)) ==> r.conversation.stage is Requesting && (
        r.action matches Action::RequestExec { want_reply, script } && want_reply && script@
            == before.request.script@),
        event matches Event::Opened(Err(e)) ==> r.conversation.stage is Finished && (
        r.action matches Action::Finish(Err(m)) && m@ == e@),
        event matches Event::Requested(Ok(_)) ==> r.conversation.stage is Streaming
            && r.action is Wait,
        event matches Event::Requested(Err(e)) ==> r.conversation.stage is Finished && (
        r.action matches Action::Finish(Err(m)) && m@ == e@),
{
}

/// What a message of the channel leads to: the next is waited for, and
/// - data goes to the output and extended data of type 1 to the errors, where the lines that it
///   completes are passed on and kept, each with its stream, and the rest is held back,
/// - an exit status sets the code,
/// - anything else changes nothing.
pub proof fn law_message_changes_its_stream_alone(
    before: Conversation,
    message: ChannelMessage,
    r: Progress,
)
    requires
        follows(before, Event::Received(message), r),
    ensures
        r.action is Wait,
        r.conversation.request == before.request,
        r.conversation.stage == before.stage,
        message matches ChannelMessage::Data(data) ==> {
            let text = before.out.partial@ + utf8_lossy(data@);
            &&& r.lines@.len() == whole_lines(text).len()
            &&& forall|i: int|
                0 <= i < r.lines@.len() ==> (#[trigger] r.lines@[i]).stream is Stdout
                    && r.lines@[i].text@ == whole_lines(text)[i]
            &&& r.conversation.out.partial@ == partial_line(text)
            &&& r.conversation.out.kept@ == before.out.kept@ + transcript(whole_lines(text))
            &&& r.conversation.err.partial@ == before.err.partial@
            &&& r.conversation.err.kept@ == before.err.kept@
        },
        message matches ChannelMessage::ExtendedData { data, ext } ==> ext == 1 ==> {
            let text = before.err.partial@ + utf8_lossy(data@);
            &&& r.lines@.len() == whole_lines(text).len()
            &&& forall|i: int|
                0 <= i < r.lines@.len() ==> (#[trigger] r.lines@[i]).stream is Stderr
                    && r.lines@[i].text@ == whole_lines(text)[i]
            &&& r.conversation.err.partial@ == partial_line(text)
            &&& r.conversation.err.kept@ == before.err.kept@ + transcript(whole_lines(text))
            &&& r.conversation.out.partial@ == before.out.partial@
            &&& r.conversation.out.kept@ == before.out.kept@
        },
        message matches ChannelMessage::ExitStatus(status) ==> r.conversation.code == exit_code(
            status,
        ),
        !(message is ExitStatus) ==> r.conversation.code == before.code,
        message is ExitStatus || message is Other || (
        message matches ChannelMessage::ExtendedData { data, ext } && ext != 1) ==> {
            &&& r.lines@.len() == 0
            &&& r.conversation.out.partial@ == before.out.partial@
            &&& r.conversation.out.kept@ == before.out.kept@
            &&& r.conversation.err.partial@ == before.err.partial@
            &&& r.conversation.err.kept@ == before.err.kept@
        },
{
    let texts = line_texts(r.lines@);
    assert(texts.len() == r.lines@.len());
    assert forall|i: int| 0 <= i < r.lines@.len() implies (#[trigger] r.lines@[i]).text@
        == texts[i] by {}
}

/// What the end of the channel leads to: what either stream holds back becomes a last line, unless it
/// is empty but for a line end, that of the output first; and what is given out is each transcript,
/// the last line included, without the white space at its end, and the code.
pub proof fn law_end_of_the_channel(
    before: Conversation,
    out: Seq<char>,
    out_end: Seq<char>,
    err: Seq<char>,
    err_end: Seq<char>,
    r: Progress,
)
    requires
        follows(before, Event::ChannelClosed, r),
        before.out.partial@ == out + out_end,
        before.err.partial@ == err + err_end,
        out.len() == 0 || (out.last() != '\n' && out.last() != '\r'),
        err.len() == 0 || (err.last() != '\n' && err.last() != '\r'),
        forall|i: int| 0 <= i < out_end.len() ==> #[trigger] out_end[i] == '\n' || out_end[i] == '\r',
        forall|i: int| 0 <= i < err_end.len() ==> #[trigger] err_end[i] == '\n' || err_end[i] == '\r',
    ensures
        r.conversation.stage is Finished,
        r.lines@.len() == (if out.len() > 0 {
            1int
        } else {
            0
        }) + (if err.len() > 0 {
            1int
        } else {
            0
        }),
        out.len() > 0 ==> r.lines@[0].stream is Stdout && r.lines@[0].text@ == out,
        err.len() > 0 ==> r.lines@.last().stream is Stderr && r.lines@.last().text@ == err,
        r.action matches Action::Finish(Ok(output)) && {
            &&& output.code == before.code
            &&& output.stdout@ == without_trailing_space(
                before.out.kept@ + if out.len() > 0 {
                    out + seq!['\n']
                } else {
                    Seq::empty()
                },
            )
            &&& output.stderr@ == without_trailing_space(
                before.err.kept@ + if err.len() > 0 {
                    err + seq!['\n']
                } else {
                    Seq::empty()
                },
            )
        },
{
    law_line_end_alone_is_dropped(out, out_end);
    law_line_end_alone_is_dropped(err, err_end);
    law_transcript_of_one_line(out);
    law_transcript_of_one_line(err);
    let texts = line_texts(r.lines@);
    let n = last_line(before.out.partial@).len() as int;
    assert(texts.len() == r.lines@.len());
    if out.len() > 0 {
        assert(texts[0] == out);
        assert(r.lines@.take(n)[0] == r.lines@[0]);
    }
    if err.len() > 0 {
        assert(texts[n] == err);
        assert(r.lines@.skip(n)[0] == r.lines@[n]);
    }
}

/// The output of a run is the text received: where a stream has brought no carriage returns, what is
/// given out of it is all that it has brought but for the white space at its end.
pub proof fn law_output_is_the_text_received(
    before: Conversation,
    messages: Seq<ChannelMessage>,
    r: Progress,
)
    requires
        has_taken_in(before, messages),
        follows(before, Event::ChannelClosed, r),
    ensures
        r.action matches Action::Finish(Ok(output)) && {
            &&& !received(messages, Stream::Stdout).contains('\r') ==> output.stdout@
                == without_trailing_space(received(messages, Stream::Stdout))
            &&& !received(messages, Stream::Stderr).contains('\r') ==> output.stderr@
                == without_trailing_space(received(messages, Stream::Stderr))
        },
{
    law_output_of_a_run(before, messages, r);
    let out = received(messages, Stream::Stdout);
    let err = received(messages, Stream::Stderr);
    if !out.contains('\r') {
        lemma_lines_of_text(out);
    }
    if !err.contains('\r') {
        lemma_lines_of_text(err);
    }
}

proof fn lemma_lines_of_text(text: Seq<char>)
    requires
        !text.contains('\r'),
    ensures
        without_trailing_space(transcript(lines_of(text))) == without_trailing_space(text),
{
    let lines = whole_lines(text);
    let tail = partial_line(text);
    law_nothing_is_lost_by_cutting(text);
    law_partial_line_is_one_line(text);
    if tail.len() > 0 {
        let last = tail.last();
        assert(tail.contains(last));
        assert(text[text.len() - 1] == last);
        assert(text.contains(last));
    }
    law_line_end_alone_is_dropped(tail, Seq::empty());
    assert(tail + Seq::<char>::empty() =~= tail);
    law_transcript_of_both(lines, last_line(tail));
    law_transcript_of_one_line(tail);
    if tail.len() == 0 {
        assert(transcript(lines_of(text)) =~= text);
    } else {
        assert(transcript(lines_of(text)) =~= text.push('\n'));
        assert(text.push('\n').drop_last() =~= text);
    }
}

} // verus!
