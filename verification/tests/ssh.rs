use command_runner::exec::{ExecResult, Stream};
use command_runner::ssh::{
    run, run_ssh, Action, ChannelMessage, Conversation, Event, Output, Progress, Stage,
};

fn begun() -> Conversation {
    let (conversation, action) = run_ssh(
        "host".to_string(),
        2222,
        "user".to_string(),
        "pass".to_string(),
        "uptime".to_string(),
    )
    .unwrap();
    match action {
        Action::Connect { host, port } => assert_eq!((host.as_str(), port), ("host", 2222)),
        _ => panic!("the first step is to connect"),
    }
    conversation
}

fn streaming() -> Conversation {
    let step = run(begun(), Event::Connected(Ok(())));
    let step = run(step.conversation, Event::Authenticated(Ok(true)));
    let step = run(step.conversation, Event::Opened(Ok(())));
    run(step.conversation, Event::Requested(Ok(()))).conversation
}

fn lines(progress: &Progress) -> Vec<(Stream, &str)> {
    progress.lines.iter().map(|l| (l.stream, l.text.as_str())).collect()
}

fn error_of(progress: Progress) -> String {
    assert_eq!(progress.conversation.stage, Stage::Finished);
    assert!(progress.lines.is_empty());
    match progress.action {
        Action::Finish(Err(e)) => e,
        _ => panic!("the conversation went on"),
    }
}

fn output_of(progress: Progress) -> Output {
    assert_eq!(progress.conversation.stage, Stage::Finished);
    match progress.action {
        Action::Finish(Ok(output)) => output,
        _ => panic!("there is no output"),
    }
}

fn data(text: &[u8]) -> ChannelMessage {
    ChannelMessage::Data(text.to_vec())
}

fn errors(text: &[u8]) -> ChannelMessage {
    ChannelMessage::ExtendedData { data: text.to_vec(), ext: 1 }
}

fn told(messages: Vec<ChannelMessage>) -> (Vec<(Stream, String)>, Output) {
    let mut conversation = streaming();
    let mut all = Vec::new();
    for message in messages {
        let step = run(conversation, Event::Received(message));
        assert!(matches!(step.action, Action::Wait));
        all.extend(step.lines.into_iter().map(|l| (l.stream, l.text)));
        conversation = step.conversation;
    }
    let mut end = run(conversation, Event::ChannelClosed);
    all.extend(end.lines.drain(..).map(|l| (l.stream, l.text)));
    (all, output_of(end))
}

#[test]
fn a_host_without_a_name_is_refused() {
    let refused = run_ssh(String::new(), 22, "u".to_string(), "p".to_string(), "s".to_string());
    assert_eq!(refused.err(), Some("SSH host is empty".to_string()));
}

#[test]
fn the_steps_come_one_after_the_other() {
    let step = run(begun(), Event::Connected(Ok(())));
    assert_eq!(step.conversation.stage, Stage::Authenticating);
    match step.action {
        Action::Authenticate { username, password } => {
            assert_eq!((username.as_str(), password.as_str()), ("user", "pass"))
        }
        _ => panic!("the password comes next"),
    }
    let step = run(step.conversation, Event::Authenticated(Ok(true)));
    assert_eq!(step.conversation.stage, Stage::Opening);
    assert!(matches!(step.action, Action::OpenChannel));
    let step = run(step.conversation, Event::Opened(Ok(())));
    assert_eq!(step.conversation.stage, Stage::Requesting);
    match step.action {
        Action::RequestExec { want_reply, script } => {
            assert!(want_reply);
            assert_eq!(script, "uptime");
        }
        _ => panic!("the script comes next"),
    }
    let step = run(step.conversation, Event::Requested(Ok(())));
    assert_eq!(step.conversation.stage, Stage::Streaming);
    assert!(matches!(step.action, Action::Wait));
}

#[test]
fn a_step_that_fails_ends_the_conversation() {
    let no = || Err("no".to_string());
    assert_eq!(error_of(run(begun(), Event::Connected(no()))), "connect failed: no");
    let connected = || run(begun(), Event::Connected(Ok(()))).conversation;
    let failed: Result<bool, String> = Err("no".to_string());
    assert_eq!(error_of(run(connected(), Event::Authenticated(failed))), "auth error: no");
    assert_eq!(
        error_of(run(connected(), Event::Authenticated(Ok(false)))),
        "authentication failed (check username / password)"
    );
    let authenticated = || run(connected(), Event::Authenticated(Ok(true))).conversation;
    assert_eq!(error_of(run(authenticated(), Event::Opened(no()))), "no");
    let opened = run(authenticated(), Event::Opened(Ok(()))).conversation;
    assert_eq!(error_of(run(opened, Event::Requested(no()))), "no");
}

#[test]
fn lines_are_passed_on_as_they_become_whole() {
    let step = run(streaming(), Event::Received(data(b"one\r\ntw")));
    assert_eq!(lines(&step), vec![(Stream::Stdout, "one")]);
    let step = run(step.conversation, Event::Received(errors(b"warn\n")));
    assert_eq!(lines(&step), vec![(Stream::Stderr, "warn")]);
    let step = run(step.conversation, Event::Received(data(b"o\n\nx")));
    assert_eq!(lines(&step), vec![(Stream::Stdout, "two"), (Stream::Stdout, "")]);
    let step = run(step.conversation, Event::Received(errors(b"y")));
    assert!(step.lines.is_empty());
    let end = run(step.conversation, Event::ChannelClosed);
    assert_eq!(lines(&end), vec![(Stream::Stdout, "x"), (Stream::Stderr, "y")]);
    let output = output_of(end);
    assert_eq!(output.stdout, "one\ntwo\n\nx");
    assert_eq!(output.stderr, "warn\ny");
    assert_eq!(output.code, -1);
}

#[test]
fn other_messages_change_nothing() {
    let step = run(streaming(), Event::Received(data(b"par")));
    let step = run(step.conversation, Event::Received(ChannelMessage::Other));
    assert!(step.lines.is_empty());
    let other = ChannelMessage::ExtendedData { data: b"lost\n".to_vec(), ext: 2 };
    let step = run(step.conversation, Event::Received(other));
    assert!(step.lines.is_empty());
    let step = run(step.conversation, Event::Received(data(b"t\n")));
    assert_eq!(lines(&step), vec![(Stream::Stdout, "part")]);
    let output = output_of(run(step.conversation, Event::ChannelClosed));
    assert_eq!((output.stdout.as_str(), output.stderr.as_str()), ("part", ""));
}

#[test]
fn the_last_exit_status_is_the_code() {
    for (status, code) in [
        (0_u32, 0_i32),
        (7, 7),
        (0x7fff_ffff, i32::MAX),
        (0x8000_0000, i32::MIN),
        (u32::MAX, -1),
        (0xffff_fffe, -2),
    ] {
        let (_, output) = told(vec![ChannelMessage::ExitStatus(status)]);
        assert_eq!(output.code, code);
    }
    let (_, output) = told(vec![ChannelMessage::ExitStatus(1), data(b"x"), ChannelMessage::ExitStatus(2)]);
    assert_eq!(output.code, 2);
    let (_, output) = told(vec![]);
    assert_eq!(output.code, -1);
}

#[test]
fn the_cut_into_messages_makes_no_difference() {
    let text = b"a\r\nb\n\n c \nlast \r";
    let (whole_lines, whole) = told(vec![data(text)]);
    assert_eq!(whole.stdout, "a\nb\n\n c \nlast");
    for at in 0..=text.len() {
        let (lines, output) = told(vec![data(&text[..at]), ChannelMessage::Other, data(&text[at..])]);
        assert_eq!(lines, whole_lines);
        assert_eq!(output.stdout, whole.stdout);
        assert_eq!(output.stderr, "");
    }
}

#[test]
fn each_message_is_decoded_by_itself() {
    let (lines, output) = told(vec![data(b"\xc3"), data(b"\xa9\n")]);
    assert_eq!(lines, vec![(Stream::Stdout, "\u{fffd}\u{fffd}".to_string())]);
    assert_eq!(output.stdout, "\u{fffd}\u{fffd}");
}

#[test]
fn text_in_utf8_is_received_as_sent() {
    let (lines, output) = told(vec![data("\u{1f600} one\nrest".as_bytes()), errors("\u{e9}\n".as_bytes())]);
    assert_eq!(output.stdout, "\u{1f600} one\nrest");
    assert_eq!(output.stderr, "\u{e9}");
    assert_eq!(lines.len(), 3);
}

#[test]
fn a_rest_of_line_ends_is_no_line() {
    let (lines, output) = told(vec![data(b"a\n\r"), errors(b"\r\r")]);
    assert_eq!(lines, vec![(Stream::Stdout, "a".to_string())]);
    assert_eq!(output.stdout, "a");
    assert_eq!(output.stderr, "");
}

#[test]
fn the_output_becomes_the_result() {
    let result = ExecResult::from_output(Output {
        code: 4,
        stdout: "out".to_string(),
        stderr: "err".to_string(),
    });
    assert_eq!((result.code, result.stdout.as_str(), result.stderr.as_str()), (4, "out", "err"));
}
