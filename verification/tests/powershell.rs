use base64::Engine;
use command_runner::exec::{emit_line, Line, Stream, LINE_EVENT};
use command_runner::powershell::{
    dir_setup, encode_ps, fits, quote, run_powershell, start_error, PowershellRun, Read,
};

/// The script that PowerShell finds in an argument.
fn decoded(argument: &str) -> String {
    let bytes = base64::engine::general_purpose::STANDARD.decode(argument).unwrap();
    let units: Vec<u16> = bytes.chunks(2).map(|b| u16::from_le_bytes([b[0], b[1]])).collect();
    String::from_utf16(&units).unwrap()
}

const PRELUDE: &str = "chcp 65001 > $null;$ErrorActionPreference='Continue';$ProgressPreference='SilentlyContinue';$OutputEncoding=[Console]::OutputEncoding=[Text.Encoding]::UTF8;\n";

#[test]
fn scripts_are_base64_of_utf16() {
    assert_eq!(encode_ps("Get-Date"), "YwBoAGMAcAAgADYANQAwADAAMQAgAD4AIAAkAG4AdQBsAGwAOwAkAEUAcgByAG8AcgBBAGMAdABpAG8AbgBQAHIAZQBmAGUAcgBlAG4AYwBlAD0AJwBDAG8AbgB0AGkAbgB1AGUAJwA7ACQAUAByAG8AZwByAGUAcwBzAFAAcgBlAGYAZQByAGUAbgBjAGUAPQAnAFMAaQBsAGUAbgB0AGwAeQBDAG8AbgB0AGkAbgB1AGUAJwA7ACQATwB1AHQAcAB1AHQARQBuAGMAbwBkAGkAbgBnAD0AWwBDAG8AbgBzAG8AbABlAF0AOgA6AE8AdQB0AHAAdQB0AEUAbgBjAG8AZABpAG4AZwA9AFsAVABlAHgAdAAuAEUAbgBjAG8AZABpAG4AZwBdADoAOgBVAFQARgA4ADsACgAmACAAewAKAEcAZQB0AC0ARABhAHQAZQAKAH0AIAAyAD4AJgAxAAoA");
    assert_eq!(encode_ps("\u{e9}\u{1f600}"), "YwBoAGMAcAAgADYANQAwADAAMQAgAD4AIAAkAG4AdQBsAGwAOwAkAEUAcgByAG8AcgBBAGMAdABpAG8AbgBQAHIAZQBmAGUAcgBlAG4AYwBlAD0AJwBDAG8AbgB0AGkAbgB1AGUAJwA7ACQAUAByAG8AZwByAGUAcwBzAFAAcgBlAGYAZQByAGUAbgBjAGUAPQAnAFMAaQBsAGUAbgB0AGwAeQBDAG8AbgB0AGkAbgB1AGUAJwA7ACQATwB1AHQAcAB1AHQARQBuAGMAbwBkAGkAbgBnAD0AWwBDAG8AbgBzAG8AbABlAF0AOgA6AE8AdQB0AHAAdQB0AEUAbgBjAG8AZABpAG4AZwA9AFsAVABlAHgAdAAuAEUAbgBjAG8AZABpAG4AZwBdADoAOgBVAFQARgA4ADsACgAmACAAewAKAOkAPdgA3goAfQAgADIAPgAmADEACgA=");
}

#[test]
fn scripts_run_in_a_block_behind_the_prelude() {
    for script in ["", "Get-Date", "a\nb", "\u{e9}\u{1f600}\u{ffff}\u{10000}"] {
        assert_eq!(decoded(&encode_ps(script)), format!("{}& {{\n{}\n}} 2>&1\n", PRELUDE, script));
    }
}

#[test]
fn different_scripts_are_different_arguments() {
    assert_ne!(encode_ps("a"), encode_ps("b"));
    assert_ne!(encode_ps("a"), encode_ps("a\n"));
}

#[test]
fn quotes_are_doubled() {
    assert_eq!(quote("it's"), "it''s");
    assert_eq!(quote("''"), "''''");
    assert_eq!(quote("plain \"\u{e9}\""), "plain \"\u{e9}\"");
    assert_eq!(quote("it's").replace("''", "'"), "it's");
}

#[test]
fn the_working_folder_is_made_known() {
    assert_eq!(
        dir_setup(&Ok("C:\\it's\\files".to_string())),
        "$Dir = 'C:\\it''s\\files'; Set-Location -LiteralPath $Dir; $env:Path = \"$Dir;\" + $env:Path;\n"
    );
    assert_eq!(dir_setup(&Err("gone".to_string())), "");
}

#[test]
fn powershell_is_started_without_profile_or_questions() {
    let start = run_powershell(Ok("C:\\it's\\files".to_string()), "dir");
    assert_eq!(start.program, "powershell");
    assert_eq!(
        start.args,
        vec![
            "-NoProfile",
            "-NonInteractive",
            "-ExecutionPolicy",
            "Bypass",
            "-EncodedCommand",
            "YwBoAGMAcAAgADYANQAwADAAMQAgAD4AIAAkAG4AdQBsAGwAOwAkAEUAcgByAG8AcgBBAGMAdABpAG8AbgBQAHIAZQBmAGUAcgBlAG4AYwBlAD0AJwBDAG8AbgB0AGkAbgB1AGUAJwA7ACQAUAByAG8AZwByAGUAcwBzAFAAcgBlAGYAZQByAGUAbgBjAGUAPQAnAFMAaQBsAGUAbgB0AGwAeQBDAG8AbgB0AGkAbgB1AGUAJwA7ACQATwB1AHQAcAB1AHQARQBuAGMAbwBkAGkAbgBnAD0AWwBDAG8AbgBzAG8AbABlAF0AOgA6AE8AdQB0AHAAdQB0AEUAbgBjAG8AZABpAG4AZwA9AFsAVABlAHgAdAAuAEUAbgBjAG8AZABpAG4AZwBdADoAOgBVAFQARgA4ADsACgAmACAAewAKACQARABpAHIAIAA9ACAAJwBDADoAXABpAHQAJwAnAHMAXABmAGkAbABlAHMAJwA7ACAAUwBlAHQALQBMAG8AYwBhAHQAaQBvAG4AIAAtAEwAaQB0AGUAcgBhAGwAUABhAHQAaAAgACQARABpAHIAOwAgACQAZQBuAHYAOgBQAGEAdABoACAAPQAgACIAJABEAGkAcgA7ACIAIAArACAAJABlAG4AdgA6AFAAYQB0AGgAOwAKAGQAaQByAAoAfQAgADIAPgAmADEACgA=",
        ]
    );
    let bare = run_powershell(Err("gone".to_string()), "dir");
    assert_eq!(bare.args[5], encode_ps("dir"));
}

#[test]
fn powershell_that_does_not_start_says_why() {
    assert_eq!(start_error("not found"), "could not start PowerShell: not found");
}

fn text_of(line: Option<Line>, stream: Stream) -> String {
    let line = line.unwrap();
    assert_eq!(line.stream, stream);
    line.text
}

#[test]
fn a_run_passes_its_lines_on_and_keeps_them() {
    let mut run = PowershellRun::new();
    assert!(run.running());
    let mut out = b"one\r\n".to_vec();
    let line = run.on_read(Stream::Stdout, Read::Bytes, &mut out);
    assert_eq!(text_of(line, Stream::Stdout), "one");
    assert!(out.is_empty());
    let mut err = b"bad\n".to_vec();
    let line = run.on_read(Stream::Stderr, Read::Bytes, &mut err);
    assert_eq!(text_of(line, Stream::Stderr), "bad");
    out.extend_from_slice(b"caf\xe9\n");
    let line = run.on_read(Stream::Stdout, Read::Bytes, &mut out);
    assert_eq!(text_of(line, Stream::Stdout), "caf\u{fffd}");
    assert_eq!(run.stdout, "one\ncaf\u{fffd}\n");
    assert_eq!(run.stderr, "bad\n");

    assert!(run.on_read(Stream::Stdout, Read::End, &mut out).is_none());
    assert!(run.running());
    assert!(run.out_done && !run.err_done);
    assert!(run.on_read(Stream::Stderr, Read::Failed, &mut err).is_none());
    assert!(!run.running());

    let result = run.finish(Ok(Some(3))).unwrap();
    assert_eq!(result.stdout, "one\ncaf\u{fffd}");
    assert_eq!(result.stderr, "bad");
    assert_eq!(result.code, 3);
}

#[test]
fn a_last_line_needs_no_line_feed() {
    let mut run = PowershellRun::new();
    let mut buf = b"tail".to_vec();
    assert!(run.on_read(Stream::Stderr, Read::Failed, &mut buf).is_none());
    assert_eq!(buf, b"tail");
    let line = run.on_rest(Stream::Stderr, &mut buf);
    assert_eq!(text_of(line, Stream::Stderr), "tail");
    assert!(buf.is_empty());
    assert!(run.on_rest(Stream::Stderr, &mut buf).is_none());
    assert_eq!(run.stderr, "tail\n");
    assert_eq!(run.stdout, "");
}

#[test]
fn results_end_where_their_text_ends() {
    let mut run = PowershellRun::new();
    for line in [&b"  a  \n"[..], &b"\n"[..], &b" \t\n"[..]] {
        run.on_read(Stream::Stdout, Read::Bytes, &mut line.to_vec());
    }
    let result = run.finish(Ok(None)).unwrap();
    assert_eq!(result.stdout, "  a");
    assert_eq!(result.stderr, "");
    assert_eq!(result.code, -1);
}

#[test]
fn a_run_that_cannot_be_waited_for_fails() {
    let mut run = PowershellRun::new();
    run.on_read(Stream::Stdout, Read::Bytes, &mut b"a\n".to_vec());
    assert_eq!(run.finish(Err("gone".to_string())).err(), Some("gone".to_string()));
}

#[test]
fn the_front_end_is_told_of_a_line() {
    assert_eq!(LINE_EVENT, "exec://line");
    let told = emit_line("run-1", Line { stream: Stream::Stdout, text: "hello".to_string() });
    assert_eq!((told.run_id.as_str(), told.line.as_str(), told.stream.as_str()), ("run-1", "hello", "out"));
    let told = emit_line("run-2", Line { stream: Stream::Stderr, text: String::new() });
    assert_eq!((told.run_id.as_str(), told.line.as_str(), told.stream.as_str()), ("run-2", "", "err"));
}

#[test]
fn scripts_of_any_ordinary_size_fit() {
    assert!(fits(""));
    assert!(fits(&"\u{1f600}".repeat(100_000)));
}

#[test]
fn the_rest_of_the_output_comes_before_that_of_the_errors() {
    let mut run = PowershellRun::new();
    run.on_read(Stream::Stderr, Read::Bytes, &mut b"e1\n".to_vec());
    run.on_read(Stream::Stdout, Read::Bytes, &mut b"o1\n".to_vec());
    let (mut out, mut err) = (b"o2".to_vec(), b"e2\r".to_vec());
    let lines = run.on_rests(&mut out, &mut err);
    let told: Vec<(Stream, &str)> = lines.iter().map(|l| (l.stream, l.text.as_str())).collect();
    assert_eq!(told, vec![(Stream::Stdout, "o2"), (Stream::Stderr, "e2")]);
    assert!(out.is_empty() && err.is_empty());
    assert!(run.on_rests(&mut out, &mut err).is_empty());
    let result = run.finish(Ok(Some(0))).unwrap();
    assert_eq!((result.stdout.as_str(), result.stderr.as_str()), ("o1\no2", "e1\ne2"));
}

#[test]
fn only_apostrophes_are_doubled() {
    assert_eq!(quote("\u{2018}a\u{2019}'"), "\u{2018}a\u{2019}''");
}

#[test]
fn the_turns_of_the_streams_make_no_difference_to_their_lines() {
    let reads = [
        (Stream::Stdout, &b"o1\r\n"[..]),
        (Stream::Stderr, &b"e1\n"[..]),
        (Stream::Stdout, &b"\n"[..]),
        (Stream::Stderr, &b"e2\n"[..]),
        (Stream::Stdout, &b"o3"[..]),
    ];
    let run_in = |order: &[usize]| {
        let mut run = PowershellRun::new();
        for i in order {
            run.on_read(reads[*i].0, Read::Bytes, &mut reads[*i].1.to_vec());
        }
        run.finish(Ok(Some(0))).unwrap()
    };
    for order in [[0, 1, 2, 3, 4], [0, 2, 4, 1, 3], [1, 3, 0, 2, 4], [0, 1, 3, 2, 4]] {
        let result = run_in(&order);
        assert_eq!((result.stdout.as_str(), result.stderr.as_str()), ("o1\n\no3", "e1\ne2"));
    }
}
