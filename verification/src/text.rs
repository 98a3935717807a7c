//! Text as the runner handles it: what counts as blank, and what is trimmed from the end of a line
//! or of a whole output.
use vstd::prelude::*;
use vstd::utf8::{decode_utf8, valid_utf8};

verus! {

/// The characters with the Unicode property `White_Space`.
pub open spec fn is_white_space(c: char) -> bool {
    let p = c as u32;
    ||| 0x9 <= p <= 0xd
    ||| p == 0x20
    ||| p == 0x85
    ||| p == 0xa0
    ||| p == 0x1680
    ||| 0x2000 <= p <= 0x200a
    ||| p == 0x2028
    ||| p == 0x2029
    ||| p == 0x202f
    ||| p == 0x205f
    ||| p == 0x3000
}

/// `char::is_whitespace`: whether a character has the Unicode property `White_Space`, which
/// [`is_white_space`] lists.
pub assume_specification[ char::is_whitespace ](c: char) -> (white: bool)
    ensures
        white == is_white_space(c),
;

/// `String::push`: appends one character to the end of a string.
pub assume_specification[ String::push ](s: &mut String, c: char)
    ensures
        final(s)@ == old(s)@.push(c),
;

/// A text without the white space at its end.
pub open spec fn without_trailing_space(s: Seq<char>) -> Seq<char>
    decreases s.len(),
{
    if s.len() > 0 && is_white_space(s.last()) {
        without_trailing_space(s.drop_last())
    } else {
        s
    }
}

/// Whether a text holds nothing but white space.
pub open spec fn is_blank_text(s: Seq<char>) -> bool {
    forall|i: int| 0 <= i < s.len() ==> is_white_space(#[trigger] s[i])
}

/// Drops the white space at the end of a text.
pub fn trim_end(s: &str) -> (r: String)
    ensures
        r@ == without_trailing_space(s@),
{
    let len: usize = s.unicode_len();
    let mut seen: usize = 0;
    let mut keep: usize = 0;
    assert(s@.take(0) =~= Seq::<char>::empty());
    for c in it: s.chars()
        invariant
            len == s@.len(),
            it.seq() == s@,
            seen == it.index(),
            keep <= seen <= len,
            without_trailing_space(s@.take(seen as int)) == s@.take(keep as int),
    {
        proof {
            assert(s@.take(seen + 1).drop_last() =~= s@.take(seen as int));
        }
        seen += 1;
        if !c.is_whitespace() {
            keep = seen;
        }
    }
    assert(s@.take(len as int) =~= s@);
    s.substring_char(0, keep).to_owned()
}

/// Whether a text holds nothing but white space, the empty text included.
pub fn is_blank(s: &str) -> (r: bool)
    ensures
        r == is_blank_text(s@),
{
    for c in it: s.chars()
        invariant
            it.seq() == s@,
            forall|i: int| 0 <= i < it.index() ==> is_white_space(#[trigger] s@[i]),
    {
        if !c.is_whitespace() {
            assert(!is_white_space(s@[it.index()]));
            return false;
        }
    }
    true
}

/// The two characters that end a line.
pub open spec fn is_line_end(c: char) -> bool {
    c == '\n' || c == '\r'
}

/// A text without the line ends that it ends in.
pub open spec fn without_line_end(s: Seq<char>) -> Seq<char>
    decreases s.len(),
{
    if s.len() > 0 && is_line_end(s.last()) {
        without_line_end(s.drop_last())
    } else {
        s
    }
}

/// Drops every carriage return and line feed at the end of a text.
pub fn trim_line_end(s: &str) -> (r: String)
    ensures
        r@ == without_line_end(s@),
{
    let len: usize = s.unicode_len();
    let mut seen: usize = 0;
    let mut keep: usize = 0;
    assert(s@.take(0) =~= Seq::<char>::empty());
    for c in it: s.chars()
        invariant
            len == s@.len(),
            it.seq() == s@,
            seen == it.index(),
            keep <= seen <= len,
            without_line_end(s@.take(seen as int)) == s@.take(keep as int),
    {
        proof {
            assert(s@.take(seen + 1).drop_last() =~= s@.take(seen as int));
        }
        seen += 1;
        if c != '\n' && c != '\r' {
            keep = seen;
        }
    }
    assert(s@.take(len as int) =~= s@);
    s.substring_char(0, keep).to_owned()
}

/// The text that `String::from_utf8_lossy` makes of bytes.
pub uninterp spec fn utf8_lossy(bytes: Seq<u8>) -> Seq<char>;

/// `String::from_utf8_lossy`: the text that bytes hold as UTF-8, with replacement characters where
/// they are no UTF-8. The text is a function of the bytes alone, and of valid UTF-8 it is just what
/// they encode. How many replacement characters stand for a malformed stretch is left unsaid.
#[verifier::external_body]
pub(crate) fn lossy_text(bytes: &[u8]) -> (r: String)
    ensures
        r@ == utf8_lossy(bytes@),
        valid_utf8(bytes@) ==> r@ == decode_utf8(bytes@),
{
    String::from_utf8_lossy(bytes).into_owned()
}

/// Whether bytes that are UTF-8 throughout are taken for just what they encode.
pub open spec fn reads_utf8(bytes: Seq<u8>) -> bool {
    valid_utf8(bytes) ==> utf8_lossy(bytes) == decode_utf8(bytes)
}

/// The text that `str::to_lowercase` makes of a text.
pub uninterp spec fn lowercase(s: Seq<char>) -> Seq<char>;

/// Whether a text is ASCII throughout.
pub open spec fn is_ascii_text(s: Seq<char>) -> bool {
    forall|i: int| 0 <= i < s.len() ==> (#[trigger] s[i] as u32) < 0x80
}

/// A text with `A` to `Z` turned into `a` to `z`.
pub open spec fn ascii_lowercase(s: Seq<char>) -> Seq<char> {
    s.map_values(
        |c: char|
            if 'A' <= c && c <= 'Z' {
                (c as u32 + 32) as char
            } else {
                c
            },
    )
}

/// `str::to_lowercase`: the text in lower case by the rules of Unicode, whatever the locale. It is
/// a function of the text alone, and of an ASCII text only `A` to `Z` change. What becomes of other
/// characters is left unsaid.
pub assume_specification[ str::to_lowercase ](s: &str) -> (r: String)
    ensures
        r@ == lowercase(s@),
        is_ascii_text(s@) ==> r@ == ascii_lowercase(s@),
;

/// Whether a text, if it is ASCII, is the usual one in lower case.
pub open spec fn lowers_ascii(s: Seq<char>) -> bool {
    is_ascii_text(s) ==> lowercase(s) == ascii_lowercase(s)
}

/// Whether a result is an error with just this message.
pub open spec fn failed<T>(r: Result<T, String>, message: Seq<char>) -> bool {
    r matches Err(e) && e@ == message
}

/// What the strings of a list hold.
pub open spec fn texts(list: Seq<String>) -> Seq<Seq<char>> {
    list.map_values(|s: String| s@)
}

/// Trimming leaves nothing exactly of the blank texts.
pub proof fn law_blank_is_trimmed_away(s: Seq<char>)
    ensures
        is_blank_text(s) <==> without_trailing_space(s).len() == 0,
    decreases s.len(),
{
    if s.len() > 0 {
        if is_white_space(s.last()) {
            law_blank_is_trimmed_away(s.drop_last());
            assert forall|i: int| 0 <= i < s.len() && is_blank_text(s.drop_last()) implies
                is_white_space(#[trigger] s[i]) by {
                if i < s.len() - 1 {
                    assert(s.drop_last()[i] == s[i]);
                }
            }
            assert forall|i: int| 0 <= i < s.len() - 1 && is_blank_text(s) implies
                is_white_space(#[trigger] s.drop_last()[i]) by {
                assert(s.drop_last()[i] == s[i]);
            }
        } else {
            assert(!is_white_space(s[s.len() - 1]));
        }
    }
}

/// Trimming drops the white space at the end and nothing else: a text that does not end in white
/// space comes back whole, whatever white space was put behind it.
pub proof fn law_trimming_drops_white_space_alone(s: Seq<char>, end: Seq<char>)
    requires
        s.len() == 0 || !is_white_space(s.last()),
        forall|i: int| 0 <= i < end.len() ==> is_white_space(#[trigger] end[i]),
    ensures
        without_trailing_space(s + end) == s,
    decreases end.len(),
{
    if end.len() == 0 {
        assert(s + end =~= s);
    } else {
        assert((s + end).last() == end[end.len() - 1]);
        assert((s + end).drop_last() =~= s + end.drop_last());
        assert forall|i: int| 0 <= i < end.drop_last().len() implies is_white_space(
            #[trigger] end.drop_last()[i],
        ) by {
            assert(end.drop_last()[i] == end[i]);
        }
        law_trimming_drops_white_space_alone(s, end.drop_last());
    }
}

/// What is left of any text by trimming is a beginning of it; what was dropped is white space
/// throughout, and no white space is left at the end.
pub proof fn law_trimmed_text_is_a_beginning(s: Seq<char>)
    ensures
        without_trailing_space(s).is_prefix_of(s),
        forall|i: int|
            without_trailing_space(s).len() <= i < s.len() ==> is_white_space(#[trigger] s[i]),
        without_trailing_space(s).len() > 0 ==> !is_white_space(without_trailing_space(s).last()),
    decreases s.len(),
{
    if s.len() > 0 && is_white_space(s.last()) {
        law_trimmed_text_is_a_beginning(s.drop_last());
        assert forall|i: int| without_trailing_space(s).len() <= i < s.len() implies is_white_space(
            #[trigger] s[i],
        ) by {
            if i < s.len() - 1 {
                assert(s.drop_last()[i] == s[i]);
            }
        }
    }
}

/// A line loses its line end and nothing else: a text that ends in neither of the two characters
/// comes back whole, whatever carriage returns and line feeds were put behind it.
pub proof fn law_line_end_alone_is_dropped(s: Seq<char>, end: Seq<char>)
    requires
        s.len() == 0 || (s.last() != '\n' && s.last() != '\r'),
        forall|i: int| 0 <= i < end.len() ==> #[trigger] end[i] == '\n' || end[i] == '\r',
    ensures
        without_line_end(s + end) == s,
    decreases end.len(),
{
    if end.len() == 0 {
        assert(s + end =~= s);
    } else {
        assert((s + end).last() == end[end.len() - 1]);
        assert((s + end).drop_last() =~= s + end.drop_last());
        assert forall|i: int| 0 <= i < end.drop_last().len() implies #[trigger] end.drop_last()[i]
            == '\n' || end.drop_last()[i] == '\r' by {
            assert(end.drop_last()[i] == end[i]);
        }
        law_line_end_alone_is_dropped(s, end.drop_last());
    }
}

/// A blank text is blank in every part, and two blank texts make a blank text; of one character it
/// is a matter of white space.
pub proof fn law_blank_in_every_part(a: Seq<char>, b: Seq<char>, c: char)
    ensures
        is_blank_text(a + b) <==> is_blank_text(a) && is_blank_text(b),
        is_blank_text(seq![c]) <==> is_white_space(c),
        is_blank_text(Seq::empty()),
{
    if is_blank_text(a + b) {
        assert forall|i: int| 0 <= i < a.len() implies is_white_space(#[trigger] a[i]) by {
            assert((a + b)[i] == a[i]);
        }
        assert forall|i: int| 0 <= i < b.len() implies is_white_space(#[trigger] b[i]) by {
            assert((a + b)[a.len() + i] == b[i]);
        }
    }
    assert(seq![c][0] == c);
}

/// An error is known by its message, and by no other; success is no error.
pub proof fn law_an_error_has_one_message<T>(
    r: Result<T, String>,
    e: String,
    a: Seq<char>,
    b: Seq<char>,
)
    ensures
        failed(Err::<T, String>(e), e@),
        failed(r, a) && failed(r, b) ==> a == b,
        failed(r, a) ==> r is Err,
{
}

/// The texts of a list are what each of its strings holds, in order.
pub proof fn law_texts_are_what_the_strings_hold(list: Seq<String>, i: int)
    requires
        0 <= i < list.len(),
    ensures
        texts(list).len() == list.len(),
        texts(list)[i] == list[i]@,
{
}

} // verus!
