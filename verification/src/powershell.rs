//! A PowerShell command on this machine: how it is started, and what becomes of its output.
use vstd::prelude::*;
use vstd::utf8::encode_utf8;

use crate::encoding::{
    base64_decoded, base64_padded_len, base64_standard, encode_standard, law_base64_decodes,
    law_base64_standard_is_injective, law_utf16_is_injective, lemma_char_range, utf16_le,
    utf16_le_bytes,
};
use crate::exec::{all_from, line_texts, ExecResult, Line, Stream};
use crate::lines::{
    bytes_without_line_end, law_line_comes_out_as_written, law_line_end_alone_is_stripped,
    law_transcript_of_both, law_transcript_of_one_line, record, take_line, transcript,
};
use crate::text::{
    failed, is_line_end, is_white_space, law_trimming_drops_white_space_alone, reads_utf8, texts,
    trim_end, utf8_lossy, without_trailing_space,
};

verus! {

/// What every script starts with: the console speaks UTF-8, errors do not stop the script, and
/// progress is not reported.
pub const PRELUDE: &'static str = "chcp 65001 > $null;$ErrorActionPreference='Continue';$ProgressPreference='SilentlyContinue';$OutputEncoding=[Console]::OutputEncoding=[Text.Encoding]::UTF8;\n";

/// A script as PowerShell gets it: after the prelude, in a block whose errors join its output.
pub open spec fn full_script(script: Seq<char>) -> Seq<char> {
    PRELUDE@ + "& {\n"@ + script + "\n} 2>&1\n"@
}

/// Whether the encoded form of a script fits in memory.
pub open spec fn script_fits(script: Seq<char>) -> bool {
    base64_padded_len(utf16_le(full_script(script)).len()) <= isize::MAX
}

fn full_text(script: &str) -> (r: String)
    ensures
        r@ == full_script(script@),
{
    let mut full = String::new();
    full.append(PRELUDE);
    full.append("& {\n");
    full.append(script);
    full.append("\n} 2>&1\n");
    assert(full@ =~= full_script(script@));
    full
}

/// Whether the encoded form of a script fits in memory.
pub fn fits(script: &str) -> (r: bool)
    ensures
        r == script_fits(script@),
{
    let full = full_text(script);
    let len: usize = full.as_str().unicode_len();
    let mut bytes: u128 = 0;
    assert(full@.take(0) =~= Seq::<char>::empty());
    for c in it: full.as_str().chars()
        invariant
            it.seq() == full@,
            len == full@.len(),
            bytes == utf16_le(full@.take(it.index())).len(),
            bytes <= it.index() * 4,
    {
        proof {
            assert(full@.take(it.index() + 1).drop_last() =~= full@.take(it.index()));
            lemma_char_range(c);
        }
        if (c as u32) < 0x1_0000 {
            bytes += 2;
        } else {
            bytes += 4;
        }
    }
    assert(full@.take(full@.len() as int) =~= full@);
    (bytes + 2) / 3 * 4 <= isize::MAX as u128
}

/// A script as one argument: PowerShell wants it as base64 of UTF-16, low bytes first, which leaves
/// nothing to quote or escape.
pub fn encode_ps(script: &str) -> (r: String)
    requires
        script_fits(script@),
    ensures
        r@ == base64_standard(utf16_le(full_script(script@))),
{
    let full = full_text(script);
    let bytes = utf16_le_bytes(full.as_str());
    encode_standard(bytes.as_slice())
}

/// A text between single quotes: each apostrophe (U+0027) in it stands twice.
pub open spec fn quoted(s: Seq<char>) -> Seq<char>
    decreases s.len(),
{
    if s.len() == 0 {
        Seq::empty()
    } else if s.last() == '\'' {
        quoted(s.drop_last()) + seq!['\'', '\'']
    } else {
        quoted(s.drop_last()).push(s.last())
    }
}

/// Doubles the apostrophes of a text.
pub fn quote(s: &str) -> (r: String)
    ensures
        r@ == quoted(s@),
{
    let mut r = String::new();
    assert(s@.take(0) =~= Seq::<char>::empty());
    for c in it: s.chars()
        invariant
            it.seq() == s@,
            r@ == quoted(s@.take(it.index())),
    {
        let ghost before = r@;
        proof {
            assert(s@.take(it.index() + 1).drop_last() =~= s@.take(it.index()));
        }
        if c == '\'' {
            r.push('\'');
            r.push('\'');
            assert(r@ =~= before + seq!['\'', '\'']);
        } else {
            r.push(c);
        }
    }
    assert(s@.take(s@.len() as int) =~= s@);
    r
}

/// The line that makes a folder the working directory, puts it on the path and names it `$Dir`;
/// nothing where there is no such folder.
pub open spec fn dir_line(dir: Result<String, String>) -> Seq<char> {
    match dir {
        Ok(d) => "$Dir = '"@ + quoted(d@)
            + "'; Set-Location -LiteralPath $Dir; $env:Path = \"$Dir;\" + $env:Path;\n"@,
        Err(_) => Seq::empty(),
    }
}

/// The line that makes the working folder known to a script.
pub fn dir_setup(dir: &Result<String, String>) -> (r: String)
    ensures
        r@ == dir_line(*dir),
{
    let mut r = String::new();
    match dir {
        Ok(d) => {
            r.append("$Dir = '");
            let q = quote(d.as_str());
            r.append(q.as_str());
            r.append("'; Set-Location -LiteralPath $Dir; $env:Path = \"$Dir;\" + $env:Path;\n");
            assert(r@ =~= dir_line(*dir));
        },
        Err(_) => {},
    }
    r
}

/// A program to start, and the arguments to start it with.
#[derive(Debug)]
pub struct Invocation {
    pub program: String,
    pub args: Vec<String>,
}

/// What is to be started to run a script in the working folder.
pub fn run_powershell(dir: Result<String, String>, script: &str) -> (r: Invocation)
    requires
        script_fits(dir_line(dir) + script@),
    ensures
        r.program@ == "powershell"@,
        r.args@.len() == 6,
        r.args@[0]@ == "-NoProfile"@,
        r.args@[1]@ == "-NonInteractive"@,
        r.args@[2]@ == "-ExecutionPolicy"@,
        r.args@[3]@ == "Bypass"@,
        r.args@[4]@ == "-EncodedCommand"@,
        r.args@[5]@ == base64_standard(utf16_le(full_script(dir_line(dir) + script@))),
        texts(r.args@) == seq![
            "-NoProfile"@,
            "-NonInteractive"@,
            "-ExecutionPolicy"@,
            "Bypass"@,
            "-EncodedCommand"@,
            base64_standard(utf16_le(full_script(dir_line(dir) + script@))),
        ],
{
    let whole = dir_setup(&dir).concat(script);
    let mut args: Vec<String> = Vec::new();
    args.push("-NoProfile".to_string());
    args.push("-NonInteractive".to_string());
    args.push("-ExecutionPolicy".to_string());
    args.push("Bypass".to_string());
    args.push("-EncodedCommand".to_string());
    args.push(encode_ps(whole.as_str()));
    Invocation { program: "powershell".to_string(), args }
}

/// Why PowerShell could not be started.
pub fn start_error(e: &str) -> (r: String)
    ensures
        r@ == "could not start PowerShell: "@ + e@,
{
    "could not start PowerShell: ".to_string().concat(e)
}

/// What came of reading a stream up to the next line feed.
#[derive(Clone, Copy, Debug, PartialEq, Eq, Structural)]
pub enum Read {
    /// Bytes were read.
    Bytes,
    /// The stream has ended.
    End,
    /// The stream cannot be read any further.
    Failed,
}

/// A PowerShell command that has been started: what its two streams have given, and whether each
/// of them is done.
pub struct PowershellRun {
    pub stdout: String,
    pub stderr: String,
    pub out_done: bool,
    pub err_done: bool,
}

/// The line that a buffer makes.
pub open spec fn line_of(buf: Seq<u8>) -> Seq<char> {
    utf8_lossy(bytes_without_line_end(buf))
}

impl PowershellRun {
    /// What a stream has given so far, each line followed by a line feed.
    pub open spec fn kept(self, stream: Stream) -> Seq<char> {
        match stream {
            Stream::Stdout => self.stdout@,
            Stream::Stderr => self.stderr@,
        }
    }

    /// Whether a stream is done.
    pub open spec fn done(self, stream: Stream) -> bool {
        match stream {
            Stream::Stdout => self.out_done,
            Stream::Stderr => self.err_done,
        }
    }

    /// A command that has given nothing yet.
    pub fn new() -> (r: Self)
        ensures
            forall|stream: Stream| #[trigger] r.kept(stream) == Seq::<char>::empty(),
            forall|stream: Stream| !#[trigger] r.done(stream),
    {
        PowershellRun {
            stdout: String::new(),
            stderr: String::new(),
            out_done: false,
            err_done: false,
        }
    }

    /// Whether either stream can still give something.
    pub fn running(&self) -> (r: bool)
        ensures
            r == !(self.done(Stream::Stdout) && self.done(Stream::Stderr)),
    {
        !(self.out_done && self.err_done)
    }

    fn keep(&mut self, stream: Stream, buf: &mut Vec<u8>) -> (line: Line)
        ensures
            given(*old(self), stream, old(buf)@, line, *final(self), final(buf)@),
    {
        let text = take_line(buf);
        match stream {
            Stream::Stdout => record(&mut self.stdout, text.as_str()),
            Stream::Stderr => record(&mut self.stderr, text.as_str()),
        }
        Line { stream, text }
    }

    /// Takes in what came of reading a stream into its buffer: bytes make a line, and anything else
    /// means that the stream is done.
    pub fn on_read(&mut self, stream: Stream, read: Read, buf: &mut Vec<u8>) -> (line: Option<Line>)
        ensures
            taken_in(*old(self), stream, read, old(buf)@, line, *final(self), final(buf)@),
    {
        match read {
            Read::Bytes => Some(self.keep(stream, buf)),
            Read::End | Read::Failed => {
                match stream {
                    Stream::Stdout => {
                        self.out_done = true;
                    },
                    Stream::Stderr => {
                        self.err_done = true;
                    },
                }
                None
            },
        }
    }

    /// Makes a last line of what a stream has left in its buffer without a line feed, if anything.
    pub fn on_rest(&mut self, stream: Stream, buf: &mut Vec<u8>) -> (line: Option<Line>)
        ensures
            match line {
                Some(l) => {
                    &&& old(buf)@.len() > 0
                    &&& given(*old(self), stream, old(buf)@, l, *final(self), final(buf)@)
                },
                None => {
                    &&& old(buf)@.len() == 0
                    &&& final(buf)@ == old(buf)@
                    &&& *final(self) == *old(self)
                },
            },
    {
        if buf.is_empty() {
            None
        } else {
            Some(self.keep(stream, buf))
        }
    }

    /// Makes last lines of what both streams have left in their buffers, that of the output before
    /// that of the errors.
    pub fn on_rests(&mut self, out_buf: &mut Vec<u8>, err_buf: &mut Vec<u8>) -> (lines: Vec<Line>)
        ensures
            given_rests(*old(self), old(out_buf)@, old(err_buf)@, lines@, *final(self)),
            final(out_buf)@ == Seq::<u8>::empty(),
            final(err_buf)@ == Seq::<u8>::empty(),
    {
        let mut lines: Vec<Line> = Vec::new();
        if let Some(line) = self.on_rest(Stream::Stdout, out_buf) {
            lines.push(line);
        }
        let ghost first = lines@;
        let ghost between = *self;
        if let Some(line) = self.on_rest(Stream::Stderr, err_buf) {
            lines.push(line);
        }
        proof {
            let out_rest = rest_line(old(out_buf)@);
            let err_rest = rest_line(old(err_buf)@);
            reveal_with_fuel(transcript, 2);
            assert(lines@.take(out_rest.len() as int) =~= first);
            assert(line_texts(lines@) =~= out_rest + err_rest);
            assert(between.kept(Stream::Stdout) =~= old(self).kept(Stream::Stdout) + transcript(
                out_rest,
            ));
            assert(between.kept(Stream::Stderr) == old(self).kept(Stream::Stderr));
            assert(self.kept(Stream::Stdout) == between.kept(Stream::Stdout));
            assert(self.kept(Stream::Stderr) =~= between.kept(Stream::Stderr) + transcript(
                err_rest,
            ));
            assert(out_buf@ =~= Seq::<u8>::empty());
            assert(err_buf@ =~= Seq::<u8>::empty());
        }
        lines
    }

    /// What the command has left once it has ended: both outputs without the white space at their
    /// ends, and its exit code, or -1 where it has none.
    pub fn finish(self, status: Result<Option<i32>, String>) -> (r: Result<ExecResult, String>)
        ensures
            results_in(self, status, r),
    {
        match status {
            Err(e) => Err(e),
            Ok(code) => {
                let code: i32 = match code {
                    Some(c) => c,
                    None => -1,
                };
                Ok(
                    ExecResult {
                        stdout: trim_end(self.stdout.as_str()),
                        stderr: trim_end(self.stderr.as_str()),
                        code,
                    },
                )
            },
        }
    }
}

/// What a command results in: the error of waiting for it, or both outputs without the white space
/// at their ends and the exit code, -1 where there is none.
pub open spec fn results_in(
    run: PowershellRun,
    status: Result<Option<i32>, String>,
    r: Result<ExecResult, String>,
) -> bool {
    match status {
        Err(e) => failed(r, e@),
        Ok(code) => r matches Ok(result) && {
            &&& result.stdout@ == without_trailing_space(run.kept(Stream::Stdout))
            &&& result.stderr@ == without_trailing_space(run.kept(Stream::Stderr))
            &&& result.code == (match code {
                Some(c) => c as int,
                None => -1,
            })
        },
    }
}

/// Whether a buffer has become a line of a stream: the line is passed on and kept, the buffer is
/// empty again, and the other stream has not changed.
pub open spec fn given(
    before: PowershellRun,
    stream: Stream,
    buf: Seq<u8>,
    line: Line,
    after: PowershellRun,
    buf_after: Seq<u8>,
) -> bool {
    &&& line.stream == stream
    &&& line.text@ == line_of(buf)
    &&& reads_utf8(bytes_without_line_end(buf))
    &&& buf_after == Seq::<u8>::empty()
    &&& forall|other: Stream| #[trigger]
        after.kept(other) == if other == stream {
            before.kept(other) + line.text@ + seq!['\n']
        } else {
            before.kept(other)
        }
    &&& forall|other: Stream| #[trigger] after.done(other) == before.done(other)
}

/// The line that is left in a buffer, if anything is.
pub open spec fn rest_line(buf: Seq<u8>) -> Seq<Seq<char>> {
    if buf.len() == 0 {
        Seq::empty()
    } else {
        seq![line_of(buf)]
    }
}

/// Whether what two buffers had left has become last lines of the streams: the line of the output is
/// passed on before that of the errors, and each is kept with its stream.
pub open spec fn given_rests(
    before: PowershellRun,
    out_buf: Seq<u8>,
    err_buf: Seq<u8>,
    lines: Seq<Line>,
    after: PowershellRun,
) -> bool {
    let out_rest = rest_line(out_buf);
    let err_rest = rest_line(err_buf);
    let n = out_rest.len() as int;
    &&& line_texts(lines) == out_rest + err_rest
    &&& all_from(lines.take(n), Stream::Stdout)
    &&& all_from(lines.skip(n), Stream::Stderr)
    &&& out_buf.len() > 0 ==> reads_utf8(bytes_without_line_end(out_buf))
    &&& err_buf.len() > 0 ==> reads_utf8(bytes_without_line_end(err_buf))
    &&& after.kept(Stream::Stdout) == before.kept(Stream::Stdout) + transcript(out_rest)
    &&& after.kept(Stream::Stderr) == before.kept(Stream::Stderr) + transcript(err_rest)
    &&& forall|stream: Stream| #[trigger] after.done(stream) == before.done(stream)
}

/// Whether what came of reading a stream into its buffer has been taken in: bytes have become a line,
/// and anything else has left the buffer and what is kept as they were and the stream done.
pub open spec fn taken_in(
    before: PowershellRun,
    stream: Stream,
    read: Read,
    buf: Seq<u8>,
    line: Option<Line>,
    after: PowershellRun,
    buf_after: Seq<u8>,
) -> bool {
    match line {
        Some(l) => {
            &&& read == Read::Bytes
            &&& given(before, stream, buf, l, after, buf_after)
        },
        None => {
            &&& read != Read::Bytes
            &&& buf_after == buf
            &&& forall|other: Stream| #[trigger] after.kept(other) == before.kept(other)
            &&& forall|other: Stream| #[trigger]
                after.done(other) == (other == stream || before.done(other))
        },
    }
}

/// Whether a run has gone through these states, one read after the other: of each read the stream,
/// what came of it and what the buffer held, and the line that it made, if any.
pub open spec fn went_through(
    states: Seq<PowershellRun>,
    reads: Seq<(Stream, Read, Seq<u8>)>,
    lines: Seq<Option<Line>>,
) -> bool {
    &&& states.len() == reads.len() + 1
    &&& lines.len() == reads.len()
    &&& forall|i: int|
        0 <= i < reads.len() ==> taken_in(
            states[i],
            (#[trigger] reads[i]).0,
            reads[i].1,
            reads[i].2,
            lines[i],
            states[i + 1],
            if reads[i].1 == Read::Bytes {
                Seq::empty()
            } else {
                reads[i].2
            },
        )
}

/// The lines that were read of one stream: each time that bytes were read of it, the line that the
/// buffer made.
pub open spec fn lines_read(reads: Seq<(Stream, Read, Seq<u8>)>, stream: Stream) -> Seq<Seq<char>>
    decreases reads.len(),
{
    if reads.len() == 0 {
        Seq::empty()
    } else {
        let before = lines_read(reads.drop_last(), stream);
        let (from, read, buf) = reads.last();
        if from == stream && read == Read::Bytes {
            before.push(line_of(buf))
        } else {
            before
        }
    }
}

/// What was passed on of one stream.
pub open spec fn passed_on(lines: Seq<Option<Line>>, stream: Stream) -> Seq<Seq<char>>
    decreases lines.len(),
{
    if lines.len() == 0 {
        Seq::empty()
    } else {
        let before = passed_on(lines.drop_last(), stream);
        match lines.last() {
            Some(l) if l.stream == stream => before.push(l.text@),
            _ => before,
        }
    }
}

/// What is kept of a stream is always the transcript of the lines passed on: each further line goes
/// below those before it, and nothing is kept that was not passed on.
pub proof fn law_kept_is_the_transcript(
    before: PowershellRun,
    stream: Stream,
    buf: Seq<u8>,
    line: Line,
    after: PowershellRun,
    buf_after: Seq<u8>,
    lines: Seq<Seq<char>>,
)
    requires
        given(before, stream, buf, line, after, buf_after),
        before.kept(stream) == transcript(lines),
    ensures
        after.kept(stream) == transcript(lines.push(line.text@)),
        forall|other: Stream| other != stream ==> #[trigger] after.kept(other) == before.kept(other),
{
    assert(lines.push(line.text@).drop_last() =~= lines);
}

/// Over a whole run, however the reads of the two streams come in turn, the lines passed on of each
/// stream are just those that were read of it, and what is kept of it is their transcript.
pub proof fn law_lines_of_a_run(
    states: Seq<PowershellRun>,
    reads: Seq<(Stream, Read, Seq<u8>)>,
    lines: Seq<Option<Line>>,
    stream: Stream,
)
    requires
        went_through(states, reads, lines),
        states[0].kept(stream) == Seq::<char>::empty(),
    ensures
        passed_on(lines, stream) == lines_read(reads, stream),
        states.last().kept(stream) == transcript(lines_read(reads, stream)),
    decreases reads.len(),
{
    if reads.len() > 0 {
        let n = reads.len() - 1;
        let early_states = states.drop_last();
        let early_reads = reads.drop_last();
        let early_lines = lines.drop_last();
        assert forall|i: int| 0 <= i < early_reads.len() implies taken_in(
            early_states[i],
            (#[trigger] early_reads[i]).0,
            early_reads[i].1,
            early_reads[i].2,
            early_lines[i],
            early_states[i + 1],
            if early_reads[i].1 == Read::Bytes {
                Seq::empty()
            } else {
                early_reads[i].2
            },
        ) by {
            assert(early_reads[i] == reads[i]);
        }
        law_lines_of_a_run(early_states, early_reads, early_lines, stream);
        assert(reads[n] == reads.last());
        let before = lines_read(early_reads, stream);
        if let Some(l) = lines[n] {
            assert(states[n + 1].kept(stream) == if stream == l.stream {
                states[n].kept(stream) + l.text@ + seq!['\n']
            } else {
                states[n].kept(stream)
            });
            assert(before.push(l.text@).drop_last() =~= before);
        }
    }
}

/// The result of a whole run is what was read of each stream, the rests of the buffers as last lines
/// included, one line below the other and without the white space at the end.
pub proof fn law_result_of_a_whole_run(
    states: Seq<PowershellRun>,
    reads: Seq<(Stream, Read, Seq<u8>)>,
    lines: Seq<Option<Line>>,
    out_buf: Seq<u8>,
    err_buf: Seq<u8>,
    last_lines: Seq<Line>,
    ended: PowershellRun,
    code: Option<i32>,
    r: Result<ExecResult, String>,
)
    requires
        forall|stream: Stream| #[trigger] states[0].kept(stream) == Seq::<char>::empty(),
        went_through(states, reads, lines),
        given_rests(states.last(), out_buf, err_buf, last_lines, ended),
        results_in(ended, Ok(code), r),
    ensures
        r matches Ok(result) && {
            &&& result.stdout@ == without_trailing_space(
                transcript(lines_read(reads, Stream::Stdout) + rest_line(out_buf)),
            )
            &&& result.stderr@ == without_trailing_space(
                transcript(lines_read(reads, Stream::Stderr) + rest_line(err_buf)),
            )
        },
{
    law_lines_of_a_run(states, reads, lines, Stream::Stdout);
    law_lines_of_a_run(states, reads, lines, Stream::Stderr);
    law_transcript_of_both(lines_read(reads, Stream::Stdout), rest_line(out_buf));
    law_transcript_of_both(lines_read(reads, Stream::Stderr), rest_line(err_buf));
}

/// A line in UTF-8 is passed on as it was written, whatever line ends follow it.
pub proof fn law_line_is_passed_on_as_written(
    before: PowershellRun,
    stream: Stream,
    written: Seq<char>,
    end: Seq<u8>,
    line: Line,
    after: PowershellRun,
    buf_after: Seq<u8>,
)
    requires
        written.len() == 0 || !is_line_end(written.last()),
        forall|i: int| 0 <= i < end.len() ==> #[trigger] end[i] == 10 || end[i] == 13,
        given(before, stream, encode_utf8(written) + end, line, after, buf_after),
    ensures
        line.text@ == written,
{
    law_line_comes_out_as_written(written, end);
}

/// The result of a run is what was passed on while it ran: the lines of each stream one below the
/// other, without the white space at the end.
pub proof fn law_result_is_what_was_passed_on(
    run: PowershellRun,
    out_lines: Seq<Seq<char>>,
    err_lines: Seq<Seq<char>>,
    code: Option<i32>,
    r: Result<ExecResult, String>,
)
    requires
        run.kept(Stream::Stdout) == transcript(out_lines),
        run.kept(Stream::Stderr) == transcript(err_lines),
        results_in(run, Ok(code), r),
    ensures
        r matches Ok(result) && {
            &&& result.stdout@ == without_trailing_space(transcript(out_lines))
            &&& result.stderr@ == without_trailing_space(transcript(err_lines))
        },
{
}

proof fn lemma_utf16_len(s: Seq<char>)
    ensures
        utf16_le(s).len() <= s.len() * 4,
    decreases s.len(),
{
    if s.len() > 0 {
        lemma_utf16_len(s.drop_last());
    }
}

/// Every script of up to 2^28 characters fits.
pub proof fn law_short_scripts_fit(script: Seq<char>)
    requires
        script.len() <= 0x1000_0000,
    ensures
        script_fits(script),
{
    reveal_strlit(
        "chcp 65001 > $null;$ErrorActionPreference='Continue';$ProgressPreference='SilentlyContinue';$OutputEncoding=[Console]::OutputEncoding=[Text.Encoding]::UTF8;\n",
    );
    reveal_strlit("& {\n");
    reveal_strlit("\n} 2>&1\n");
    lemma_utf16_len(full_script(script));
}

/// Different scripts are different as arguments: the encoding loses nothing.
pub proof fn law_encoded_scripts_differ(a: Seq<char>, b: Seq<char>)
    requires
        base64_standard(utf16_le(full_script(a))) == base64_standard(utf16_le(full_script(b))),
    ensures
        a == b,
{
    law_base64_standard_is_injective(utf16_le(full_script(a)), utf16_le(full_script(b)));
    law_utf16_is_injective(full_script(a), full_script(b));
    let head = PRELUDE@ + "& {\n"@;
    let n = head.len() as int;
    assert(full_script(a).len() == full_script(b).len());
    assert(full_script(a).subrange(n, n + a.len()) =~= a);
    assert(full_script(b).subrange(n, n + b.len()) =~= b);
}

/// The characters that PowerShell takes for a single quote: the apostrophe, and U+2018 to U+201B.
pub open spec fn is_single_quote(c: char) -> bool {
    c == '\'' || 0x2018 <= c as u32 <= 0x201b
}

/// What is read of a text that begins within single quotes, and what follows: two quotes in a row
/// are one quote, the second, and a lone quote is the end.
pub open spec fn unquoted(s: Seq<char>) -> (Seq<char>, Seq<char>)
    decreases s.len(),
{
    if s.len() == 0 {
        (Seq::empty(), Seq::empty())
    } else if !is_single_quote(s[0]) {
        let (value, rest) = unquoted(s.skip(1));
        (seq![s[0]] + value, rest)
    } else if s.len() > 1 && is_single_quote(s[1]) {
        let (value, rest) = unquoted(s.skip(2));
        (seq![s[1]] + value, rest)
    } else {
        (Seq::empty(), s.skip(1))
    }
}

proof fn lemma_quoted_first(s: Seq<char>)
    requires
        s.len() > 0,
    ensures
        quoted(s) == (if s[0] == '\'' {
            seq!['\'', '\'']
        } else {
            seq![s[0]]
        }) + quoted(s.drop_first()),
    decreases s.len(),
{
    if s.len() == 1 {
        assert(s.drop_last() =~= Seq::<char>::empty());
        assert(s.drop_first() =~= Seq::<char>::empty());
        reveal_with_fuel(quoted, 2);
        assert(quoted(s) =~= (if s[0] == '\'' {
            seq!['\'', '\'']
        } else {
            seq![s[0]]
        }) + quoted(s.drop_first()));
    } else {
        lemma_quoted_first(s.drop_last());
        assert(s.drop_last().drop_first() =~= s.drop_first().drop_last());
        assert(quoted(s) =~= (if s[0] == '\'' {
            seq!['\'', '\'']
        } else {
            seq![s[0]]
        }) + quoted(s.drop_first()));
    }
}

/// A quoted text is read back as it was, and the text after its closing quote is left alone. This
/// holds of texts whose only single quotes are apostrophes, since only those are doubled.
pub proof fn law_quoted_reads_back(s: Seq<char>, rest: Seq<char>)
    requires
        forall|i: int| 0 <= i < s.len() && is_single_quote(#[trigger] s[i]) ==> s[i] == '\'',
        rest.len() == 0 || !is_single_quote(rest[0]),
    ensures
        unquoted(quoted(s) + seq!['\''] + rest) == (s, rest),
    decreases s.len(),
{
    let all = quoted(s) + seq!['\''] + rest;
    if s.len() == 0 {
        assert(all.skip(1) =~= rest);
        assert(s =~= Seq::<char>::empty());
    } else {
        lemma_quoted_first(s);
        assert forall|i: int| 0 <= i < s.drop_first().len() && is_single_quote(
            #[trigger] s.drop_first()[i],
        ) implies s.drop_first()[i] == '\'' by {
            assert(is_single_quote(s[i + 1]));
        }
        law_quoted_reads_back(s.drop_first(), rest);
        assert(is_single_quote(s[0]) ==> s[0] == '\'');
        let tail = quoted(s.drop_first()) + seq!['\''] + rest;
        if s[0] == '\'' {
            assert(all.skip(2) =~= tail);
            assert(seq!['\''] + s.drop_first() =~= s);
        } else {
            assert(all.skip(1) =~= tail);
            assert(seq![s[0]] + s.drop_first() =~= s);
        }
    }
}

/// PowerShell gets every script verbatim: behind the opening of fixed length stands each character of
/// the script in its place, and behind the last of them the end of the block.
pub proof fn law_script_is_handed_over_verbatim(script: Seq<char>)
    ensures
        ({
            let full = full_script(script);
            let opening =
                "chcp 65001 > $null;$ErrorActionPreference='Continue';$ProgressPreference='SilentlyContinue';$OutputEncoding=[Console]::OutputEncoding=[Text.Encoding]::UTF8;\n"@
                + "& {\n"@;
            let n = opening.len() as int;
            &&& full.len() == n + script.len() + 8
            &&& full.take(n) == opening
            &&& forall|i: int| 0 <= i < script.len() ==> #[trigger] script[i] == full[n + i]
            &&& full.subrange(n, n + script.len()) == script
            &&& full.skip(n + script.len()) == "\n} 2>&1\n"@
        }),
{
    reveal_strlit("\n} 2>&1\n");
    let full = full_script(script);
    let opening = PRELUDE@ + "& {\n"@;
    let n = opening.len() as int;
    assert(full =~= opening + script + "\n} 2>&1\n"@);
    assert(full.take(n) =~= opening);
    assert(full.subrange(n, n + script.len()) =~= script);
    assert(full.skip(n + script.len()) =~= "\n} 2>&1\n"@);
    assert forall|i: int| 0 <= i < script.len() implies #[trigger] script[i] == full[n + i] by {
        assert(full.subrange(n, n + script.len())[i] == full[n + i]);
    }
}

/// What PowerShell decodes of a script's argument is the script as it gets it, and no other text.
pub proof fn law_argument_decodes_to_the_script(script: Seq<char>, text: Seq<char>)
    ensures
        base64_decoded(base64_standard(utf16_le(full_script(script)))) == Some(
            utf16_le(full_script(script)),
        ),
        utf16_le(text) == utf16_le(full_script(script)) <==> text == full_script(script),
{
    law_base64_decodes(utf16_le(full_script(script)));
    if utf16_le(text) == utf16_le(full_script(script)) {
        law_utf16_is_injective(text, full_script(script));
    }
}

/// Quoting goes character by character: an apostrophe is doubled, and any other stays as it is.
pub proof fn law_quoting_goes_by_characters(a: Seq<char>, b: Seq<char>, c: char)
    ensures
        quoted(a + b) == quoted(a) + quoted(b),
        c != '\'' ==> quoted(seq![c]) == seq![c],
        quoted(seq!['\'']) == seq!['\'', '\''],
        quoted(Seq::empty()) == Seq::<char>::empty(),
    decreases b.len(),
{
    reveal_with_fuel(quoted, 2);
    assert(seq![c].drop_last() =~= Seq::<char>::empty());
    assert(seq!['\''].drop_last() =~= Seq::<char>::empty());
    assert(c != '\'' ==> quoted(seq![c]) =~= seq![c]);
    assert(quoted(seq!['\'']) =~= seq!['\'', '\'']);
    if b.len() == 0 {
        assert(a + b =~= a);
        assert(quoted(a) + quoted(b) =~= quoted(a));
    } else {
        assert((a + b).drop_last() =~= a + b.drop_last());
        law_quoting_goes_by_characters(a, b.drop_last(), c);
        assert(quoted(a + b) =~= quoted(a) + quoted(b));
    }
}

/// A script finds its working folder in `$Dir`: of the line put before it, PowerShell reads the name
/// of the folder as it is (if its only single quotes are apostrophes), then goes there and puts it on
/// the path. Without a folder nothing is put before the script.
pub proof fn law_working_folder_is_made_known(dir: String, e: String)
    ensures
        ({
            let line = dir_line(Ok(dir));
            let tail = "'; Set-Location -LiteralPath $Dir; $env:Path = \"$Dir;\" + $env:Path;\n"@;
            let follows = "; Set-Location -LiteralPath $Dir; $env:Path = \"$Dir;\" + $env:Path;\n"@;
            &&& line.take(8) == "$Dir = '"@
            &&& line == "$Dir = '"@ + quoted(dir@) + tail
            &&& (forall|i: int|
                0 <= i < dir@.len() && is_single_quote(#[trigger] dir@[i]) ==> dir@[i] == '\'')
                ==> unquoted(line.skip(8)) == (dir@, follows)
        }),
        dir_line(Err(e)) == Seq::<char>::empty(),
{
    let line = dir_line(Ok(dir));
    let tail = "'; Set-Location -LiteralPath $Dir; $env:Path = \"$Dir;\" + $env:Path;\n"@;
    let follows = "; Set-Location -LiteralPath $Dir; $env:Path = \"$Dir;\" + $env:Path;\n"@;
    reveal_strlit("$Dir = '");
    reveal_strlit("'; Set-Location -LiteralPath $Dir; $env:Path = \"$Dir;\" + $env:Path;\n");
    reveal_strlit("; Set-Location -LiteralPath $Dir; $env:Path = \"$Dir;\" + $env:Path;\n");
    assert(tail =~= seq!['\''] + follows);
    assert(line.take(8) =~= "$Dir = '"@);
    assert(line.skip(8) =~= quoted(dir@) + seq!['\''] + follows);
    if forall|i: int|
        0 <= i < dir@.len() && is_single_quote(#[trigger] dir@[i]) ==> dir@[i] == '\'' {
        law_quoted_reads_back(dir@, follows);
    }
}

/// The line that a buffer makes is all that it holds but for the line end, decoded.
pub proof fn law_buffer_makes_its_line(bytes: Seq<u8>, end: Seq<u8>)
    requires
        bytes.len() == 0 || (bytes.last() != 10 && bytes.last() != 13),
        forall|i: int| 0 <= i < end.len() ==> #[trigger] end[i] == 10 || end[i] == 13,
    ensures
        line_of(bytes + end) == utf8_lossy(bytes),
{
    law_line_end_alone_is_stripped(bytes, end);
}

/// What a read does to a run: bytes give one line of that stream, which goes below what the stream has
/// given, and empty the buffer; an end or a failure ends that stream and does nothing else.
pub proof fn law_read_changes_its_stream_alone(
    before: PowershellRun,
    stream: Stream,
    read: Read,
    buf: Seq<u8>,
    line: Option<Line>,
    after: PowershellRun,
    buf_after: Seq<u8>,
)
    requires
        taken_in(before, stream, read, buf, line, after, buf_after),
    ensures
        line is Some <==> read is Bytes,
        line matches Some(l) ==> {
            &&& l.stream == stream
            &&& l.text@ == line_of(buf)
            &&& buf_after.len() == 0
            &&& after.out_done == before.out_done
            &&& after.err_done == before.err_done
            &&& stream is Stdout ==> after.stdout@ == before.stdout@ + l.text@ + seq!['\n']
                && after.stderr@ == before.stderr@
            &&& stream is Stderr ==> after.stderr@ == before.stderr@ + l.text@ + seq!['\n']
                && after.stdout@ == before.stdout@
        },
        line is None ==> {
            &&& buf_after == buf
            &&& after.stdout@ == before.stdout@
            &&& after.stderr@ == before.stderr@
            &&& stream is Stdout ==> after.out_done && after.err_done == before.err_done
            &&& stream is Stderr ==> after.err_done && after.out_done == before.out_done
        },
{
    assert(after.kept(Stream::Stdout) == after.stdout@);
    assert(after.kept(Stream::Stderr) == after.stderr@);
    assert(after.done(Stream::Stdout) == after.out_done);
    assert(after.done(Stream::Stderr) == after.err_done);
}

/// What the ends of both streams do to a run: each buffer that is not empty gives one last line, that
/// of the output first, and each line goes below what its stream has given.
pub proof fn law_rests_become_last_lines(
    before: PowershellRun,
    out_buf: Seq<u8>,
    err_buf: Seq<u8>,
    lines: Seq<Line>,
    after: PowershellRun,
)
    requires
        given_rests(before, out_buf, err_buf, lines, after),
    ensures
        lines.len() == (if out_buf.len() > 0 {
            1int
        } else {
            0
        }) + (if err_buf.len() > 0 {
            1int
        } else {
            0
        }),
        out_buf.len() > 0 ==> {
            &&& lines[0].stream is Stdout
            &&& lines[0].text@ == line_of(out_buf)
            &&& after.stdout@ == before.stdout@ + line_of(out_buf) + seq!['\n']
        },
        out_buf.len() == 0 ==> after.stdout@ == before.stdout@,
        err_buf.len() > 0 ==> {
            &&& lines.last().stream is Stderr
            &&& lines.last().text@ == line_of(err_buf)
            &&& after.stderr@ == before.stderr@ + line_of(err_buf) + seq!['\n']
        },
        err_buf.len() == 0 ==> after.stderr@ == before.stderr@,
{
    let texts = line_texts(lines);
    let n = rest_line(out_buf).len() as int;
    assert(texts.len() == lines.len());
    law_transcript_of_one_line(line_of(out_buf));
    law_transcript_of_one_line(line_of(err_buf));
    if out_buf.len() > 0 {
        assert(texts[0] == line_of(out_buf));
        assert(lines.take(n)[0] == lines[0]);
        assert(after.stdout@ =~= before.stdout@ + line_of(out_buf) + seq!['\n']);
    } else {
        assert(after.stdout@ =~= before.stdout@);
    }
    if err_buf.len() > 0 {
        assert(texts[n] == line_of(err_buf));
        assert(lines.skip(n)[0] == lines[n]);
        assert(after.stderr@ =~= before.stderr@ + line_of(err_buf) + seq!['\n']);
    } else {
        assert(after.stderr@ =~= before.stderr@);
    }
}

/// The result of a command loses nothing but white space at the ends: outputs that do not end in white
/// space are the results whole, whatever white space came behind them, and the code is the one that
/// the command ended with, -1 where there is none. Where it could not be waited for, the result is the
/// reason.
pub proof fn law_result_loses_white_space_alone(
    run: PowershellRun,
    out: Seq<char>,
    out_end: Seq<char>,
    err: Seq<char>,
    err_end: Seq<char>,
    status: Result<Option<i32>, String>,
    r: Result<ExecResult, String>,
)
    requires
        run.stdout@ == out + out_end,
        run.stderr@ == err + err_end,
        out.len() == 0 || !is_white_space(out.last()),
        err.len() == 0 || !is_white_space(err.last()),
        forall|i: int| 0 <= i < out_end.len() ==> is_white_space(#[trigger] out_end[i]),
        forall|i: int| 0 <= i < err_end.len() ==> is_white_space(#[trigger] err_end[i]),
        results_in(run, status, r),
    ensures
        r is Ok <==> status is Ok,
        r matches Ok(result) ==> result.stdout@ == out && result.stderr@ == err,
        status matches Ok(Some(code)) ==> (r matches Ok(result) && result.code == code),
        status matches Ok(None) ==> (r matches Ok(result) && result.code == -1),
        status matches Err(e) ==> (r matches Err(m) && m@ == e@),
{
    law_trimming_drops_white_space_alone(out, out_end);
    law_trimming_drops_white_space_alone(err, err_end);
}

} // verus!
