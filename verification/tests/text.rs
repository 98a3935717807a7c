use command_runner::lines::{record, strip_line_end, take_line, LineSplitter};
use command_runner::text::{is_blank, trim_end, trim_line_end};

#[test]
fn white_space_is_that_of_unicode() {
    let listed = [
        '\u{9}', '\u{a}', '\u{b}', '\u{c}', '\u{d}', ' ', '\u{85}', '\u{a0}', '\u{1680}', '\u{2000}',
        '\u{2001}', '\u{2002}', '\u{2003}', '\u{2004}', '\u{2005}', '\u{2006}', '\u{2007}', '\u{2008}',
        '\u{2009}', '\u{200a}', '\u{2028}', '\u{2029}', '\u{202f}', '\u{205f}', '\u{3000}',
    ];
    for c in '\0'..=char::MAX {
        assert_eq!(is_blank(&c.to_string()), listed.contains(&c), "{:?}", c);
    }
}

#[test]
fn blank_texts_are_those_that_trim_to_nothing() {
    for text in ["", " ", "\r\n\t", "x", " x", "x ", "\u{3000}\u{a0}", "\u{200b}"] {
        assert_eq!(is_blank(text), text.trim().is_empty());
        assert_eq!(is_blank(text), trim_end(text).is_empty());
    }
}

#[test]
fn trimming_drops_the_white_space_at_the_end_alone() {
    assert_eq!(trim_end("a b \r\n\u{2003}"), "a b");
    assert_eq!(trim_end("  a"), "  a");
    assert_eq!(trim_end("\u{e9}\u{1f600} \n"), "\u{e9}\u{1f600}");
    assert_eq!(trim_end(" \n "), "");
    assert_eq!(trim_end(""), "");
}

#[test]
fn line_ends_are_carriage_returns_and_line_feeds() {
    assert_eq!(trim_line_end("a\r\n"), "a");
    assert_eq!(trim_line_end("a\n\r\n\n"), "a");
    assert_eq!(trim_line_end("a \t\r"), "a \t");
    assert_eq!(trim_line_end("\ra"), "\ra");
    assert_eq!(trim_line_end("\r\n"), "");
}

#[test]
fn recording_puts_a_line_below_the_others() {
    let mut kept = String::new();
    record(&mut kept, "one");
    record(&mut kept, "");
    record(&mut kept, "\u{e9}");
    assert_eq!(kept, "one\n\n\u{e9}\n");
}

#[test]
fn buffers_lose_their_line_ends() {
    let mut buf = b"ab\r\n\n".to_vec();
    strip_line_end(&mut buf);
    assert_eq!(buf, b"ab");
    strip_line_end(&mut buf);
    assert_eq!(buf, b"ab");
    let mut ends = b"\r\n".to_vec();
    strip_line_end(&mut ends);
    assert!(ends.is_empty());
}

#[test]
fn a_line_is_taken_and_the_buffer_is_empty() {
    for (bytes, line) in [
        (&b"hello\r\n"[..], "hello"),
        (&b"hello\n"[..], "hello"),
        (&b"hello"[..], "hello"),
        (&b"\n"[..], ""),
        (&b""[..], ""),
        (&b" a \r\r\n"[..], " a "),
        ("\u{e9}\u{1f600}\n".as_bytes(), "\u{e9}\u{1f600}"),
    ] {
        let mut buf = bytes.to_vec();
        assert_eq!(take_line(&mut buf), line);
        assert!(buf.is_empty());
    }
}

#[test]
fn bytes_that_are_no_utf8_are_replaced() {
    let mut buf = vec![b'a', 0x82, b'b', b'\n'];
    assert_eq!(take_line(&mut buf), "a\u{fffd}b");
    assert!(buf.is_empty());
    let mut cut = vec![0xe2, 0x82, b'\r', b'\n'];
    assert_eq!(take_line(&mut cut), "\u{fffd}");
}

#[test]
fn lines_pass_on_once_they_are_whole() {
    let mut stream = LineSplitter::new();
    assert!(stream.feed("par").is_empty());
    assert_eq!(stream.partial, "par");
    assert_eq!(stream.feed("tial\r\nnext\n\nre"), vec!["partial", "next", ""]);
    assert_eq!(stream.partial, "re");
    assert_eq!(stream.kept, "partial\nnext\n\n");
    assert!(stream.feed("").is_empty());
    assert_eq!(stream.feed("st\n"), vec!["rest"]);
    assert_eq!(stream.kept, "partial\nnext\n\nrest\n");
    assert_eq!(stream.close(), (None, "partial\nnext\n\nrest\n".to_string()));
}

#[test]
fn the_end_completes_what_was_held_back() {
    let mut stream = LineSplitter::new();
    stream.feed("one\ntwo\r");
    assert_eq!(stream.close(), (Some("two".to_string()), "one\ntwo\n".to_string()));
    let mut ends_alone = LineSplitter::new();
    ends_alone.feed("one\n\r");
    assert_eq!(ends_alone.close(), (None, "one\n".to_string()));
}

#[test]
fn the_pieces_make_no_difference_to_the_lines() {
    let text = "a\r\nb\n\n\u{e9} c\nlast";
    let mut whole = LineSplitter::new();
    let lines = whole.feed(text);
    for (at, _) in text.char_indices() {
        let mut pieces = LineSplitter::new();
        let mut both = pieces.feed(&text[..at]);
        both.extend(pieces.feed(&text[at..]));
        assert_eq!(both, lines);
        assert_eq!(pieces.partial, whole.partial);
        assert_eq!(pieces.kept, whole.kept);
    }
}
