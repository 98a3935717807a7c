//! What a command gives out while it runs and once it has ended.
use vstd::prelude::*;

verus! {

/// The two streams of output of a command.
#[derive(Clone, Copy, Debug, PartialEq, Eq, Structural)]
pub enum Stream {
    Stdout,
    Stderr,
}

impl Stream {
    /// The name that goes with a stream's lines.
    pub open spec fn label(self) -> Seq<char> {
        match self {
            Stream::Stdout => "out"@,
            Stream::Stderr => "err"@,
        }
    }

    /// The name that goes with a stream's lines.
    pub fn name(self) -> (r: &'static str)
        ensures
            r@ == self.label(),
    {
        match self {
            Stream::Stdout => "out",
            Stream::Stderr => "err",
        }
    }
}

/// One line of output, without its line end.
#[derive(Debug)]
pub struct Line {
    pub stream: Stream,
    pub text: String,
}

/// What the lines of a list say.
pub open spec fn line_texts(lines: Seq<Line>) -> Seq<Seq<char>> {
    lines.map_values(|l: Line| l.text@)
}

/// Whether every line of a list comes from one stream.
pub open spec fn all_from(lines: Seq<Line>, stream: Stream) -> bool {
    forall|i: int| 0 <= i < lines.len() ==> (#[trigger] lines[i]).stream == stream
}

/// The name of the event that tells the front end of a line.
pub const LINE_EVENT: &'static str = "exec://line";

/// What the front end is told of a line: the run that it belongs to, its text and its stream.
#[derive(Debug)]
pub struct LineEvent {
    pub run_id: String,
    pub line: String,
    pub stream: String,
}

/// What the front end is to be told of a line of a run.
pub fn emit_line(run_id: &str, line: Line) -> (r: LineEvent)
    ensures
        r.run_id@ == run_id@,
        r.line@ == line.text@,
        r.stream@ == line.stream.label(),
{
    LineEvent {
        run_id: run_id.to_string(),
        line: line.text,
        stream: line.stream.name().to_string(),
    }
}

/// What is left of a command once it has ended.
#[derive(Debug)]
pub struct ExecResult {
    pub stdout: String,
    pub stderr: String,
    pub code: i32,
}

} // verus!
