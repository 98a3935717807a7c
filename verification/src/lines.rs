//! Output cut into lines: a line is passed on as soon as it is whole, and what comes after the last
//! line feed is held back until more arrives.
use vstd::prelude::*;
use vstd::utf8::{
    decode_utf8, encode_scalar, encode_utf8, encode_utf8_decode_utf8, encode_utf8_valid_utf8,
    last_continuation_byte, valid_utf8,
};

use crate::text::{
    is_line_end, lossy_text, reads_utf8, texts, trim_line_end, utf8_lossy, without_line_end,
};

verus! {

/// How many characters of a text come before its first line feed, or in all where it has none.
pub open spec fn first_line_len(s: Seq<char>) -> nat
    decreases s.len(),
{
    if s.len() == 0 || s[0] == '\n' {
        0
    } else {
        1 + first_line_len(s.drop_first())
    }
}

/// The whole lines of a text, each without its line end.
pub open spec fn whole_lines(s: Seq<char>) -> Seq<Seq<char>>
    decreases s.len(),
{
    let n = first_line_len(s);
    if n < s.len() {
        seq![without_line_end(s.take(n as int))] + whole_lines(s.skip(n as int + 1))
    } else {
        Seq::empty()
    }
}

/// What a text holds after its last line feed.
pub open spec fn partial_line(s: Seq<char>) -> Seq<char>
    decreases s.len(),
{
    let n = first_line_len(s);
    if n < s.len() {
        partial_line(s.skip(n as int + 1))
    } else {
        s
    }
}

/// Lines written one below the other, each followed by a line feed.
pub open spec fn transcript(lines: Seq<Seq<char>>) -> Seq<char>
    decreases lines.len(),
{
    if lines.len() == 0 {
        Seq::empty()
    } else {
        transcript(lines.drop_last()) + lines.last() + seq!['\n']
    }
}

proof fn lemma_first_line_len(s: Seq<char>)
    ensures
        first_line_len(s) <= s.len(),
        first_line_len(s) < s.len() ==> s[first_line_len(s) as int] == '\n',
        forall|i: int| 0 <= i < first_line_len(s) ==> s[i] != '\n',
    decreases s.len(),
{
    if s.len() > 0 && s[0] != '\n' {
        let rest = s.drop_first();
        lemma_first_line_len(rest);
        assert forall|i: int| 0 <= i < first_line_len(s) implies s[i] != '\n' by {
            if i > 0 {
                assert(s[i] == rest[i - 1]);
            }
        }
    }
}

proof fn lemma_first_line_len_is(s: Seq<char>, n: int)
    requires
        0 <= n <= s.len(),
        n < s.len() ==> s[n] == '\n',
        forall|i: int| 0 <= i < n ==> s[i] != '\n',
    ensures
        first_line_len(s) == n,
{
    lemma_first_line_len(s);
    let m = first_line_len(s) as int;
    if m < n {
        assert(s[m] != '\n');
    } else if n < m {
        assert(s[n] != '\n');
    }
}

/// How a text is cut into pieces makes no difference to its lines: the lines of two pieces put
/// together are those of the first piece, then those of what it held back with the second piece.
pub proof fn law_lines_of_pieces(a: Seq<char>, b: Seq<char>)
    ensures
        whole_lines(a + b) == whole_lines(a) + whole_lines(partial_line(a) + b),
        partial_line(a + b) == partial_line(partial_line(a) + b),
    decreases a.len(),
{
    lemma_first_line_len(a);
    let n = first_line_len(a) as int;
    if n < a.len() {
        lemma_first_line_len_is(a + b, n);
        assert((a + b).take(n) =~= a.take(n));
        assert((a + b).skip(n + 1) =~= a.skip(n + 1) + b);
        law_lines_of_pieces(a.skip(n + 1), b);
        assert(whole_lines(a + b) =~= whole_lines(a) + whole_lines(partial_line(a) + b));
    } else {
        assert(whole_lines(a + b) =~= whole_lines(a) + whole_lines(partial_line(a) + b));
    }
}

/// What is held back never holds a line feed.
pub proof fn law_partial_line_is_one_line(s: Seq<char>)
    ensures
        !partial_line(s).contains('\n'),
        whole_lines(partial_line(s)) == Seq::<Seq<char>>::empty(),
        partial_line(partial_line(s)) == partial_line(s),
    decreases s.len(),
{
    lemma_first_line_len(s);
    let n = first_line_len(s) as int;
    if n < s.len() {
        law_partial_line_is_one_line(s.skip(n + 1));
    }
}

/// Two transcripts one below the other are the transcript of the lines of both.
pub proof fn law_transcript_of_both(a: Seq<Seq<char>>, b: Seq<Seq<char>>)
    ensures
        transcript(a + b) == transcript(a) + transcript(b),
    decreases b.len(),
{
    if b.len() == 0 {
        assert(a + b =~= a);
        assert(transcript(a + b) =~= transcript(a) + transcript(b));
    } else {
        assert((a + b).drop_last() =~= a + b.drop_last());
        law_transcript_of_both(a, b.drop_last());
        assert(transcript(a + b) =~= transcript(a) + transcript(b));
    }
}

proof fn lemma_whole_lines_push(s: Seq<char>, c: char)
    ensures
        c == '\n' ==> {
            &&& whole_lines(s.push(c)) == whole_lines(s).push(without_line_end(partial_line(s)))
            &&& partial_line(s.push(c)) == Seq::<char>::empty()
        },
        c != '\n' ==> {
            &&& whole_lines(s.push(c)) == whole_lines(s)
            &&& partial_line(s.push(c)) == partial_line(s).push(c)
        },
{
    let one = seq![c];
    assert(s.push(c) =~= s + one);
    law_lines_of_pieces(s, one);
    law_partial_line_is_one_line(s);
    let p = partial_line(s);
    let q = p + one;
    assert(q =~= p.push(c));
    assert forall|i: int| 0 <= i < p.len() implies q[i] != '\n' by {
        assert(q[i] == p[i]);
        assert(p.contains(p[i]));
    }
    if c == '\n' {
        reveal_with_fuel(whole_lines, 2);
        reveal_with_fuel(partial_line, 2);
        lemma_first_line_len_is(q, p.len() as int);
        assert(q.take(p.len() as int) =~= p);
        assert(q.skip(p.len() as int + 1) =~= Seq::<char>::empty());
        assert(whole_lines(s.push(c)) =~= whole_lines(s).push(without_line_end(p)));
    } else {
        lemma_first_line_len_is(q, q.len() as int);
        assert(whole_lines(s.push(c)) =~= whole_lines(s));
    }
}

/// Adds a line and its line feed to the end of a transcript.
pub fn record(kept: &mut String, line: &str)
    ensures
        final(kept)@ == old(kept)@ + line@ + seq!['\n'],
{
    kept.append(line);
    kept.push('\n');
    assert(kept@ =~= old(kept)@ + line@ + seq!['\n']);
}

/// One stream of text on its way to becoming lines.
pub struct LineSplitter {
    /// What has arrived since the last line feed.
    pub partial: String,
    /// Every line passed on so far, each followed by a line feed.
    pub kept: String,
}

impl LineSplitter {
    /// A stream that nothing has arrived on.
    pub fn new() -> (r: Self)
        ensures
            r.partial@ == Seq::<char>::empty(),
            r.kept@ == Seq::<char>::empty(),
    {
        LineSplitter { partial: String::new(), kept: String::new() }
    }

    /// Takes in more text and gives out the lines that it completes.
    pub fn feed(&mut self, more: &str) -> (lines: Vec<String>)
        ensures
            texts(lines@) == whole_lines(old(self).partial@ + more@),
            final(self).partial@ == partial_line(old(self).partial@ + more@),
            final(self).kept@ == old(self).kept@ + transcript(texts(lines@)),
    {
        let mut all = String::new();
        all.append(self.partial.as_str());
        all.append(more);
        let ghost whole = old(self).partial@ + more@;
        assert(all@ =~= whole);
        let mut lines: Vec<String> = Vec::new();
        let mut partial = String::new();
        assert(texts(lines@) =~= Seq::<Seq<char>>::empty());
        assert(whole.take(0) =~= Seq::<char>::empty());
        assert(self.kept@ =~= old(self).kept@ + transcript(texts(lines@)));
        for c in it: all.as_str().chars()
            invariant
                it.seq() == whole,
                texts(lines@) == whole_lines(whole.take(it.index())),
                partial@ == partial_line(whole.take(it.index())),
                self.kept@ == old(self).kept@ + transcript(texts(lines@)),
        {
            proof {
                let before = whole.take(it.index());
                lemma_whole_lines_push(before, c);
                assert(whole.take(it.index() + 1) =~= before.push(c));
            }
            if c == '\n' {
                let ghost lines_before = lines@;
                let line = trim_line_end(partial.as_str());
                record(&mut self.kept, line.as_str());
                lines.push(line);
                partial = String::new();
                proof {
                    assert(texts(lines@) =~= texts(lines_before).push(line@));
                    assert(texts(lines@).drop_last() =~= texts(lines_before));
                    assert(self.kept@ =~= old(self).kept@ + transcript(texts(lines@)));
                }
            } else {
                partial.push(c);
            }
        }
        assert(whole.take(whole.len() as int) =~= whole);
        self.partial = partial;
        lines
    }

    /// Ends the stream: what was held back becomes a last line unless it is empty, and the
    /// transcript is given out with it.
    pub fn close(&self) -> (r: (Option<String>, String))
        ensures
            match r.0 {
                Some(line) => {
                    &&& line@ == without_line_end(self.partial@)
                    &&& line@.len() > 0
                    &&& r.1@ == self.kept@ + transcript(seq![line@])
                },
                None => {
                    &&& without_line_end(self.partial@).len() == 0
                    &&& r.1@ == self.kept@
                },
            },
    {
        let line = trim_line_end(self.partial.as_str());
        let mut kept = self.kept.clone();
        if line.as_str().is_empty() {
            (None, kept)
        } else {
            record(&mut kept, line.as_str());
            proof {
                reveal_with_fuel(transcript, 2);
                assert(seq![line@].drop_last() =~= Seq::<Seq<char>>::empty());
                assert(kept@ =~= self.kept@ + transcript(seq![line@]));
            }
            (Some(line), kept)
        }
    }
}

/// Bytes without the carriage returns and line feeds that they end in.
pub open spec fn bytes_without_line_end(bytes: Seq<u8>) -> Seq<u8>
    decreases bytes.len(),
{
    if bytes.len() > 0 && (bytes.last() == 10 || bytes.last() == 13) {
        bytes_without_line_end(bytes.drop_last())
    } else {
        bytes
    }
}

/// Drops every carriage return and line feed at the end of a buffer.
pub fn strip_line_end(buf: &mut Vec<u8>)
    ensures
        final(buf)@ == bytes_without_line_end(old(buf)@),
{
    let mut n: usize = buf.len();
    assert(buf@.take(n as int) =~= buf@);
    while n > 0 && (buf[n - 1] == 10 || buf[n - 1] == 13)
        invariant
            n <= buf@.len(),
            buf@ == old(buf)@,
            bytes_without_line_end(buf@.take(n as int)) == bytes_without_line_end(buf@),
        decreases n,
    {
        assert(buf@.take(n as int).drop_last() =~= buf@.take(n - 1));
        n -= 1;
    }
    buf.truncate(n);
    assert(buf@ =~= old(buf)@.take(n as int));
}

/// Decodes one accumulated line as UTF-8, replacing what is none, without the line ends that it
/// ends in, and empties the buffer for the next.
pub fn take_line(buf: &mut Vec<u8>) -> (line: String)
    ensures
        line@ == utf8_lossy(bytes_without_line_end(old(buf)@)),
        reads_utf8(bytes_without_line_end(old(buf)@)),
        final(buf)@ == Seq::<u8>::empty(),
{
    strip_line_end(buf);
    let line = lossy_text(buf.as_slice());
    buf.clear();
    line
}

/// Only the two line ends have a byte 10 or 13 at the end of their UTF-8.
proof fn lemma_scalar_ends(c: char)
    ensures
        encode_scalar(c as u32).len() > 0,
        !is_line_end(c) ==> encode_scalar(c as u32).last() != 10 && encode_scalar(c as u32).last()
            != 13,
{
    let v = c as u32;
    assert(last_continuation_byte(v) >= 0x80) by (bit_vector);
    assert(v <= 0x7f ==> v as u8 == v) by (bit_vector);
    assert(v <= 0x7f ==> (v & 0x7f) as u8 == v) by (bit_vector);
}

proof fn lemma_utf8_ends(s: Seq<char>)
    requires
        s.len() > 0,
    ensures
        encode_utf8(s).len() > 0,
        encode_utf8(s).last() == encode_scalar(s.last() as u32).last(),
    decreases s.len(),
{
    lemma_scalar_ends(s[0]);
    if s.len() == 1 {
        assert(s.drop_first() =~= Seq::<char>::empty());
        reveal_with_fuel(encode_utf8, 2);
        assert(encode_utf8(s) =~= encode_scalar(s[0] as u32));
    } else {
        lemma_utf8_ends(s.drop_first());
    }
}

/// A line comes out as it was written: whatever line ends follow its UTF-8, the bytes that are
/// left are that UTF-8 and decode to the line.
pub proof fn law_line_comes_out_as_written(line: Seq<char>, end: Seq<u8>)
    requires
        line.len() == 0 || !is_line_end(line.last()),
        forall|i: int| 0 <= i < end.len() ==> #[trigger] end[i] == 10 || end[i] == 13,
    ensures
        bytes_without_line_end(encode_utf8(line) + end) == encode_utf8(line),
        valid_utf8(encode_utf8(line)),
        decode_utf8(encode_utf8(line)) == line,
    decreases end.len(),
{
    encode_utf8_valid_utf8(line);
    encode_utf8_decode_utf8(line);
    let all = encode_utf8(line) + end;
    if end.len() == 0 {
        assert(all =~= encode_utf8(line));
        if line.len() > 0 {
            lemma_utf8_ends(line);
            lemma_scalar_ends(line.last());
        }
    } else {
        assert(all.last() == end.last());
        assert(end[end.len() - 1] == end.last());
        assert(all.drop_last() =~= encode_utf8(line) + end.drop_last());
        law_line_comes_out_as_written(line, end.drop_last());
    }
}

/// A text is cut at its line feeds: what comes before the first is a line, without its line end, and
/// the rest is cut in the same way. A text without a line feed is no line yet and is held back whole.
pub proof fn law_text_is_cut_at_its_line_feeds(line: Seq<char>, rest: Seq<char>)
    requires
        !line.contains('\n'),
    ensures
        whole_lines(line + seq!['\n'] + rest) == seq![without_line_end(line)] + whole_lines(rest),
        partial_line(line + seq!['\n'] + rest) == partial_line(rest),
        whole_lines(line) == Seq::<Seq<char>>::empty(),
        partial_line(line) == line,
{
    let s = line + seq!['\n'] + rest;
    let n = line.len() as int;
    assert forall|i: int| 0 <= i < n implies s[i] != '\n' && line[i] != '\n' by {
        assert(line.contains(line[i]));
    }
    lemma_first_line_len_is(s, n);
    lemma_first_line_len_is(line, n);
    assert(s.take(n) =~= line);
    assert(s.skip(n + 1) =~= rest);
}

/// A line is passed on as it was received: of a text without line feeds that does not end in a
/// carriage return, nothing but what ends the line is lost.
pub proof fn law_line_is_passed_on_as_received(line: Seq<char>, end: Seq<char>)
    requires
        !line.contains('\n'),
        line.len() == 0 || line.last() != '\r',
        forall|i: int| 0 <= i < end.len() ==> #[trigger] end[i] == '\r',
    ensures
        whole_lines(line + end + seq!['\n']) == seq![line],
        partial_line(line + end + seq!['\n']) == Seq::<char>::empty(),
{
    let text = line + end;
    if line.len() > 0 {
        assert(line.contains(line.last()));
    }
    if text.contains('\n') {
        let i = text.index_of('\n');
        if i < line.len() {
            assert(line.contains(line[i]));
        } else {
            assert(end[i - line.len()] == '\n');
        }
    }
    crate::text::law_line_end_alone_is_dropped(line, end);
    law_text_is_cut_at_its_line_feeds(text, Seq::empty());
    law_text_is_cut_at_its_line_feeds(Seq::empty(), Seq::empty());
    assert(text + seq!['\n'] + Seq::empty() =~= line + end + seq!['\n']);
    assert(seq![line] + Seq::<Seq<char>>::empty() =~= seq![line]);
}

/// The transcript of one line is the line and a line feed.
pub proof fn law_transcript_of_one_line(line: Seq<char>)
    ensures
        transcript(seq![line]) == line + seq!['\n'],
        transcript(Seq::empty()) == Seq::<char>::empty(),
{
    reveal_with_fuel(transcript, 2);
    assert(seq![line].drop_last() =~= Seq::<Seq<char>>::empty());
    assert(transcript(seq![line]) =~= line + seq!['\n']);
}

/// Lines come back from their transcript: cut into lines again it gives the same lines, and what was
/// written behind it without a line feed is held back.
pub proof fn law_lines_come_back(lines: Seq<Seq<char>>, tail: Seq<char>)
    requires
        forall|i: int| 0 <= i < lines.len() ==> !(#[trigger] lines[i]).contains('\n'),
        forall|i: int|
            0 <= i < lines.len() ==> (#[trigger] lines[i]).len() == 0 || lines[i].last() != '\r',
        !tail.contains('\n'),
    ensures
        whole_lines(transcript(lines) + tail) == lines,
        partial_line(transcript(lines) + tail) == tail,
    decreases lines.len(),
{
    if lines.len() == 0 {
        law_text_is_cut_at_its_line_feeds(tail, Seq::empty());
        assert(transcript(lines) + tail =~= tail);
        assert(lines =~= Seq::<Seq<char>>::empty());
    } else {
        let first = lines[0];
        let rest = lines.drop_first();
        assert forall|i: int| 0 <= i < rest.len() implies !(#[trigger] rest[i]).contains('\n') && (
        rest[i].len() == 0 || rest[i].last() != '\r') by {
            assert(rest[i] == lines[i + 1]);
        }
        law_lines_come_back(rest, tail);
        law_transcript_of_both(seq![first], rest);
        law_transcript_of_one_line(first);
        assert(lines =~= seq![first] + rest);
        law_text_is_cut_at_its_line_feeds(first, transcript(rest) + tail);
        assert(transcript(lines) + tail =~= first + seq!['\n'] + (transcript(rest) + tail));
        assert(first + Seq::<char>::empty() =~= first);
        if first.len() > 0 {
            assert(first.contains(first.last()));
        }
        crate::text::law_line_end_alone_is_dropped(first, Seq::empty());
    }
}

/// A buffer loses its line end and nothing else: bytes that end in neither of the two come back
/// whole, whatever carriage returns and line feeds were put behind them.
pub proof fn law_line_end_alone_is_stripped(bytes: Seq<u8>, end: Seq<u8>)
    requires
        bytes.len() == 0 || (bytes.last() != 10 && bytes.last() != 13),
        forall|i: int| 0 <= i < end.len() ==> #[trigger] end[i] == 10 || end[i] == 13,
    ensures
        bytes_without_line_end(bytes + end) == bytes,
    decreases end.len(),
{
    if end.len() == 0 {
        assert(bytes + end =~= bytes);
    } else {
        assert((bytes + end).last() == end[end.len() - 1]);
        assert((bytes + end).drop_last() =~= bytes + end.drop_last());
        assert forall|i: int| 0 <= i < end.drop_last().len() implies #[trigger] end.drop_last()[i]
            == 10 || end.drop_last()[i] == 13 by {
            assert(end.drop_last()[i] == end[i]);
        }
        law_line_end_alone_is_stripped(bytes, end.drop_last());
    }
}

/// Nothing of a text without carriage returns is lost by cutting it: its lines, one below the other,
/// and what is held back are the text.
pub proof fn law_nothing_is_lost_by_cutting(text: Seq<char>)
    requires
        !text.contains('\r'),
    ensures
        transcript(whole_lines(text)) + partial_line(text) == text,
    decreases text.len(),
{
    lemma_first_line_len(text);
    let n = first_line_len(text) as int;
    if n < text.len() {
        let line = text.take(n);
        let rest = text.skip(n + 1);
        if n > 0 {
            assert(line.last() == text[n - 1]);
            assert(text.contains(text[n - 1]));
        }
        crate::text::law_line_end_alone_is_dropped(line, Seq::empty());
        assert(line + Seq::<char>::empty() =~= line);
        if rest.contains('\r') {
            let i = rest.index_of('\r');
            assert(text[n + 1 + i] == '\r');
        }
        law_nothing_is_lost_by_cutting(rest);
        law_transcript_of_both(seq![line], whole_lines(rest));
        law_transcript_of_one_line(line);
        assert(transcript(whole_lines(text)) + partial_line(text) =~= line + seq!['\n'] + rest);
        assert(line + seq!['\n'] + rest =~= text);
    } else {
        assert(transcript(whole_lines(text)) + partial_line(text) =~= text);
    }
}

} // verus!
