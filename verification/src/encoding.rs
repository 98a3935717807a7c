//! Bytes as text (base64) and text as bytes (UTF-16, little end first).
use base64::Engine;
use vstd::prelude::*;

verus! {

/// The character for six bits in the two alphabets of RFC 4648, which differ in the last two.
pub open spec fn base64_symbol(bits: int, url_safe: bool) -> char {
    if bits < 26 {
        ('A' as int + bits) as char
    } else if bits < 52 {
        ('a' as int + bits - 26) as char
    } else if bits < 62 {
        ('0' as int + bits - 52) as char
    } else if bits == 62 {
        if url_safe {
            '-'
        } else {
            '+'
        }
    } else {
        if url_safe {
            '_'
        } else {
            '/'
        }
    }
}

/// A byte, or zero past the end.
pub open spec fn byte_or_zero(bytes: Seq<u8>, i: int) -> int {
    if 0 <= i < bytes.len() {
        bytes[i] as int
    } else {
        0
    }
}

/// The `i`-th six bits of bytes: every three bytes are 24 bits, four times six, the first ones
/// first; zero bits fill up the last group.
pub open spec fn six_bits(bytes: Seq<u8>, i: int) -> int {
    let group = byte_or_zero(bytes, i / 4 * 3) * 0x1_0000 + byte_or_zero(bytes, i / 4 * 3 + 1)
        * 0x100 + byte_or_zero(bytes, i / 4 * 3 + 2);
    if i % 4 == 0 {
        group / 0x4_0000
    } else if i % 4 == 1 {
        group / 0x1000 % 64
    } else if i % 4 == 2 {
        group / 64 % 64
    } else {
        group % 64
    }
}

/// How many characters it takes to write bytes down, six bits each.
pub open spec fn base64_symbols(len: nat) -> nat {
    (len * 4 + 2) / 3
}

/// How many characters padded base64 has: four for every three bytes begun.
pub open spec fn base64_padded_len(len: nat) -> nat {
    (len + 2) / 3 * 4
}

/// Bytes in base64 with the standard alphabet, padded with `=` to a multiple of four.
pub open spec fn base64_standard(bytes: Seq<u8>) -> Seq<char> {
    Seq::new(
        base64_padded_len(bytes.len()),
        |i: int|
            if i < base64_symbols(bytes.len()) {
                base64_symbol(six_bits(bytes, i), false)
            } else {
                '='
            },
    )
}

/// Bytes in base64 with the URL-safe alphabet, without padding.
pub open spec fn base64_url_safe(bytes: Seq<u8>) -> Seq<char> {
    Seq::new(base64_symbols(bytes.len()), |i: int| base64_symbol(six_bits(bytes, i), true))
}

/// The bytes that a text is the padded standard base64 of, if it is that of any.
pub open spec fn base64_decoded(text: Seq<char>) -> Option<Seq<u8>> {
    if exists|bytes: Seq<u8>| #[trigger] base64_standard(bytes) == text {
        Some(choose|bytes: Seq<u8>| #[trigger] base64_standard(bytes) == text)
    } else {
        None
    }
}

/// Why a text is no base64, as the `base64` crate tells it.
#[verifier::external_type_specification]
#[verifier::external_body]
pub struct ExDecodeError(base64::DecodeError);

/// `base64::Engine::encode` of `base64::engine::general_purpose::STANDARD`: the bytes in base64
/// with the standard alphabet, padded. The buffer for the text must fit in memory.
#[verifier::external_body]
pub(crate) fn encode_standard(bytes: &[u8]) -> (text: String)
    requires
        base64_padded_len(bytes@.len()) <= isize::MAX,
    ensures
        text@ == base64_standard(bytes@),
{
    base64::engine::general_purpose::STANDARD.encode(bytes)
}

/// `base64::Engine::encode` of `base64::engine::general_purpose::URL_SAFE_NO_PAD`: the bytes in
/// base64 with the URL-safe alphabet, without padding. The buffer for the text must fit in memory.
#[verifier::external_body]
pub(crate) fn encode_url_safe(bytes: &[u8]) -> (text: String)
    requires
        base64_symbols(bytes@.len()) <= isize::MAX,
    ensures
        text@ == base64_url_safe(bytes@),
{
    base64::engine::general_purpose::URL_SAFE_NO_PAD.encode(bytes)
}

/// `base64::Engine::decode` of `base64::engine::general_purpose::STANDARD`: it undoes `encode` of
/// the same engine and refuses every text that `encode` gives of no bytes (padding must be there,
/// and bits that no byte takes up must be zero). Which error comes is left unsaid.
#[verifier::external_body]
pub(crate) fn decode_standard(text: &str) -> (r: Result<Vec<u8>, base64::DecodeError>)
    ensures
        match r {
            Ok(bytes) => base64_standard(bytes@) == text@,
            Err(_) => forall|bytes: Seq<u8>| #[trigger] base64_standard(bytes) != text@,
        },
{
    base64::engine::general_purpose::STANDARD.decode(text)
}

proof fn lemma_symbol_injective(x: int, y: int, url_safe: bool)
    requires
        0 <= x < 64,
        0 <= y < 64,
        base64_symbol(x, url_safe) == base64_symbol(y, url_safe),
    ensures
        x == y,
{
}

proof fn lemma_symbol_is_no_padding(x: int)
    requires
        0 <= x < 64,
    ensures
        base64_symbol(x, false) != '=',
{
}

proof fn lemma_six_bits_range(bytes: Seq<u8>, i: int)
    requires
        0 <= i,
    ensures
        0 <= six_bits(bytes, i) < 64,
{
}

proof fn lemma_group_bits(a: u32, b: u32, c: u32)
    by (bit_vector)
    requires
        a < 256,
        b < 256,
        c < 256,
    ensures
        ({
            let group = a * 0x1_0000 + b * 0x100 + c;
            &&& a == group / 0x4_0000 * 4 + group / 0x1000 % 64 / 16
            &&& b == group / 0x1000 % 64 % 16 * 16 + group / 64 % 64 / 4
            &&& c == group / 64 % 64 % 4 * 64 + group % 64
        }),
{
}

/// The three bytes of a group come back from its four times six bits.
proof fn lemma_group(bytes: Seq<u8>, g: int)
    requires
        0 <= g,
    ensures
        byte_or_zero(bytes, g * 3) == six_bits(bytes, g * 4) * 4 + six_bits(bytes, g * 4 + 1) / 16,
        byte_or_zero(bytes, g * 3 + 1) == six_bits(bytes, g * 4 + 1) % 16 * 16 + six_bits(
            bytes,
            g * 4 + 2,
        ) / 4,
        byte_or_zero(bytes, g * 3 + 2) == six_bits(bytes, g * 4 + 2) % 4 * 64 + six_bits(
            bytes,
            g * 4 + 3,
        ),
{
    assert(g * 4 / 4 == g && (g * 4 + 1) / 4 == g && (g * 4 + 2) / 4 == g && (g * 4 + 3) / 4 == g);
    lemma_group_bits(
        byte_or_zero(bytes, g * 3) as u32,
        byte_or_zero(bytes, g * 3 + 1) as u32,
        byte_or_zero(bytes, g * 3 + 2) as u32,
    );
}

/// Bytes of one length with the same six bits throughout are the same.
proof fn lemma_six_bits_determine(a: Seq<u8>, b: Seq<u8>)
    requires
        a.len() == b.len(),
        forall|i: int| 0 <= i < base64_symbols(a.len()) ==> six_bits(a, i) == #[trigger] six_bits(b, i),
    ensures
        a == b,
{
    assert forall|k: int| 0 <= k < a.len() implies a[k] == b[k] by {
        let g = k / 3;
        lemma_group(a, g);
        lemma_group(b, g);
        let n = base64_symbols(a.len());
        assert(six_bits(b, g * 4) == six_bits(a, g * 4));
        assert(six_bits(b, g * 4 + 1) == six_bits(a, g * 4 + 1));
        if k % 3 >= 1 {
            assert(six_bits(b, g * 4 + 2) == six_bits(a, g * 4 + 2));
        }
        if k % 3 == 2 {
            assert(six_bits(b, g * 4 + 3) == six_bits(a, g * 4 + 3));
        }
        assert(byte_or_zero(a, k) == byte_or_zero(b, k));
    }
    assert(a =~= b);
}

/// Different bytes are different in padded standard base64.
pub proof fn law_base64_standard_is_injective(a: Seq<u8>, b: Seq<u8>)
    requires
        base64_standard(a) == base64_standard(b),
    ensures
        a == b,
{
    let s = base64_standard(a);
    let t = base64_standard(b);
    let na = base64_symbols(a.len());
    let nb = base64_symbols(b.len());
    assert(s.len() == t.len());
    if na < nb {
        lemma_six_bits_range(b, na as int);
        lemma_symbol_is_no_padding(six_bits(b, na as int));
        assert(s[na as int] == '=');
        assert(t[na as int] != '=');
    } else if nb < na {
        lemma_six_bits_range(a, nb as int);
        lemma_symbol_is_no_padding(six_bits(a, nb as int));
        assert(t[nb as int] == '=');
        assert(s[nb as int] != '=');
    }
    assert(a.len() == b.len());
    assert forall|i: int| 0 <= i < na implies six_bits(a, i) == #[trigger] six_bits(b, i) by {
        assert(s[i] == t[i]);
        lemma_six_bits_range(a, i);
        lemma_six_bits_range(b, i);
        lemma_symbol_injective(six_bits(a, i), six_bits(b, i), false);
    }
    lemma_six_bits_determine(a, b);
}

/// Different bytes are different in URL-safe base64.
pub proof fn law_base64_url_safe_is_injective(a: Seq<u8>, b: Seq<u8>)
    requires
        base64_url_safe(a) == base64_url_safe(b),
    ensures
        a == b,
{
    let s = base64_url_safe(a);
    let t = base64_url_safe(b);
    assert(s.len() == t.len());
    assert(a.len() == b.len());
    assert forall|i: int| 0 <= i < base64_symbols(a.len()) implies six_bits(a, i)
        == #[trigger] six_bits(b, i) by {
        assert(s[i] == t[i]);
        lemma_six_bits_range(a, i);
        lemma_six_bits_range(b, i);
        lemma_symbol_injective(six_bits(a, i), six_bits(b, i), true);
    }
    lemma_six_bits_determine(a, b);
}

/// Decoding gives back what was encoded.
pub proof fn law_base64_decodes(bytes: Seq<u8>)
    ensures
        base64_decoded(base64_standard(bytes)) == Some(bytes),
{
    let text = base64_standard(bytes);
    let found = choose|b: Seq<u8>| #[trigger] base64_standard(b) == text;
    assert(base64_standard(bytes) == text);
    law_base64_standard_is_injective(found, bytes);
}

/// A character in UTF-16: one unit, or a high and a low surrogate from U+10000 on.
pub open spec fn utf16_units(c: char) -> Seq<int> {
    let p = c as int;
    if p < 0x1_0000 {
        seq![p]
    } else {
        seq![0xd800 + (p - 0x1_0000) / 0x400, 0xdc00 + (p - 0x1_0000) % 0x400]
    }
}

/// Units of 16 bits as bytes, the low byte of each first.
pub open spec fn little_endian(units: Seq<int>) -> Seq<u8> {
    Seq::new(
        units.len() * 2,
        |i: int|
            if i % 2 == 0 {
                (units[i / 2] % 256) as u8
            } else {
                (units[i / 2] / 256) as u8
            },
    )
}

/// A text in UTF-16, the low byte of each unit first.
pub open spec fn utf16_le(s: Seq<char>) -> Seq<u8>
    decreases s.len(),
{
    if s.len() == 0 {
        Seq::empty()
    } else {
        utf16_le(s.drop_last()) + little_endian(utf16_units(s.last()))
    }
}

pub(crate) proof fn lemma_char_range(c: char)
    ensures
        0 <= c as int <= 0x10_ffff,
        !(0xd800 <= c as int <= 0xdfff),
        c as u32 == c as int,
{
}

fn push_unit(bytes: &mut Vec<u8>, unit: u32)
    requires
        unit < 0x1_0000,
    ensures
        final(bytes)@ == old(bytes)@ + little_endian(seq![unit as int]),
{
    bytes.push((unit % 256) as u8);
    bytes.push((unit / 256) as u8);
    assert(bytes@ =~= old(bytes)@ + little_endian(seq![unit as int]));
}

/// Writes a text in UTF-16, the low byte of each unit first.
pub fn utf16_le_bytes(s: &str) -> (bytes: Vec<u8>)
    ensures
        bytes@ == utf16_le(s@),
{
    let mut bytes: Vec<u8> = Vec::new();
    assert(s@.take(0) =~= Seq::<char>::empty());
    for c in it: s.chars()
        invariant
            it.seq() == s@,
            bytes@ == utf16_le(s@.take(it.index())),
    {
        let ghost before = bytes@;
        proof {
            lemma_char_range(c);
        }
        let p: u32 = c as u32;
        if p < 0x1_0000 {
            push_unit(&mut bytes, p);
        } else {
            let high: u32 = 0xd800 + (p - 0x1_0000) / 0x400;
            let low: u32 = 0xdc00 + (p - 0x1_0000) % 0x400;
            push_unit(&mut bytes, high);
            push_unit(&mut bytes, low);
            assert(bytes@ =~= before + little_endian(seq![high as int, low as int]));
        }
        proof {
            let next = s@.take(it.index() + 1);
            assert(next.drop_last() =~= s@.take(it.index()));
            assert(next.last() == c);
        }
    }
    assert(s@.take(s@.len() as int) =~= s@);
    bytes
}

/// The last unit of a text in UTF-16, by its two bytes.
proof fn lemma_last_unit(s: Seq<char>)
    requires
        s.len() > 0,
    ensures
        ({
            let units = utf16_units(s.last());
            let bytes = utf16_le(s);
            &&& bytes.len() == utf16_le(s.drop_last()).len() + units.len() * 2
            &&& bytes.take(bytes.len() - units.len() * 2) == utf16_le(s.drop_last())
            &&& forall|k: int|
                0 <= k < units.len() ==> #[trigger] units[k] == bytes[bytes.len() - units.len() * 2
                    + k * 2] + bytes[bytes.len() - units.len() * 2 + k * 2 + 1] * 256
        }),
{
    lemma_char_range(s.last());
    let units = utf16_units(s.last());
    let bytes = utf16_le(s);
    let head = utf16_le(s.drop_last());
    let tail = little_endian(units);
    assert(bytes =~= head + tail);
    assert(bytes.take(bytes.len() - units.len() * 2) =~= head);
    assert forall|k: int| 0 <= k < units.len() implies #[trigger] units[k] == bytes[bytes.len()
        - units.len() * 2 + k * 2] + bytes[bytes.len() - units.len() * 2 + k * 2 + 1] * 256 by {
        assert(bytes[bytes.len() - units.len() * 2 + k * 2] == tail[k * 2]);
        assert(bytes[bytes.len() - units.len() * 2 + k * 2 + 1] == tail[k * 2 + 1]);
        assert(0 <= units[k] < 0x1_0000);
    }
}

/// Different texts are different in UTF-16.
pub proof fn law_utf16_is_injective(a: Seq<char>, b: Seq<char>)
    requires
        utf16_le(a) == utf16_le(b),
    ensures
        a == b,
    decreases a.len(),
{
    if a.len() == 0 {
        if b.len() > 0 {
            lemma_last_unit(b);
        }
        assert(a =~= b);
    } else {
        lemma_last_unit(a);
        if b.len() > 0 {
            lemma_last_unit(b);
            let ua = utf16_units(a.last());
            let ub = utf16_units(b.last());
            lemma_char_range(a.last());
            lemma_char_range(b.last());
            assert(ua[ua.len() - 1] == ub[ub.len() - 1]);
            assert(ua.len() == ub.len());
            assert(ua[0] == ub[0]);
            assert(a.last() == b.last());
            law_utf16_is_injective(a.drop_last(), b.drop_last());
            assert(a =~= a.drop_last().push(a.last()));
            assert(b =~= b.drop_last().push(b.last()));
        }
    }
}

/// Two texts one behind the other are so in UTF-16, too.
pub proof fn law_utf16_of_both(a: Seq<char>, b: Seq<char>)
    ensures
        utf16_le(a + b) == utf16_le(a) + utf16_le(b),
        utf16_le(Seq::empty()) == Seq::<u8>::empty(),
    decreases b.len(),
{
    if b.len() == 0 {
        assert(a + b =~= a);
        assert(utf16_le(a) + utf16_le(b) =~= utf16_le(a));
    } else {
        assert((a + b).drop_last() =~= a + b.drop_last());
        law_utf16_of_both(a, b.drop_last());
        assert(utf16_le(a + b) =~= utf16_le(a) + utf16_le(b));
    }
}

/// A character is told by its units of UTF-16, each by its two bytes with the low one first: one unit
/// that is its code point, or a high and a low surrogate with ten bits each of what it exceeds
/// U+10000 by.
pub proof fn law_utf16_tells_a_character(c: char)
    ensures
        ({
            let bytes = utf16_le(seq![c]);
            let first = bytes[0] + bytes[1] * 256;
            let second = bytes[2] + bytes[3] * 256;
            &&& (c as int) < 0x1_0000 ==> bytes.len() == 2 && first == c as int
            &&& (c as int) >= 0x1_0000 ==> {
                &&& bytes.len() == 4
                &&& 0xd800 <= first < 0xdc00
                &&& 0xdc00 <= second < 0xe000
                &&& 0x1_0000 + (first - 0xd800) * 0x400 + (second - 0xdc00) == c as int
            }
        }),
{
    lemma_char_range(c);
    let s = seq![c];
    reveal_with_fuel(utf16_le, 2);
    assert(s.drop_last() =~= Seq::<char>::empty());
    lemma_last_unit(s);
    let units = utf16_units(c);
    let bytes = utf16_le(s);
    assert(units[0] == bytes[0] + bytes[1] * 256);
    if c as int >= 0x1_0000 {
        assert(units[1] == bytes[2] + bytes[3] * 256);
    }
}

} // verus!
