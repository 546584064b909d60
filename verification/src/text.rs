//! Source text: blanks, and cutting a string at a byte offset.
//!
//! A string is seen as its sequence of characters. Offsets into it are byte
//! offsets into its UTF-8 encoding, as a pattern matcher reports them.

use vstd::prelude::*;
use vstd::string::*;
use vstd::utf8::*;

verus! {

/// The characters that separate lexemes: space, tab and newline.
pub open spec fn is_blank(c: char) -> bool {
    c == ' ' || c == '\t' || c == '\n'
}

/// `text` without the blanks it starts with.
pub open spec fn skip_blanks(text: Seq<char>) -> Seq<char>
    decreases text.len(),
{
    if text.len() > 0 && is_blank(text[0]) {
        skip_blanks(text.drop_first())
    } else {
        text
    }
}

/// Blanks only, or nothing.
pub open spec fn all_blank(text: Seq<char>) -> bool {
    forall|i: int| 0 <= i < text.len() ==> is_blank(#[trigger] text[i])
}

/// Whether the byte offset `end` lies between two characters of `text`, or
/// at one of its ends.
pub open spec fn splits_at(text: Seq<char>, end: int) -> bool {
    is_char_boundary(encode_utf8(text), end)
}

/// The characters of `text` before the byte offset `end`.
pub open spec fn head(text: Seq<char>, end: int) -> Seq<char> {
    decode_utf8(encode_utf8(text).subrange(0, end))
}

/// The characters of `text` from the byte offset `end` on.
pub open spec fn tail(text: Seq<char>, end: int) -> Seq<char> {
    decode_utf8(encode_utf8(text).subrange(end, encode_utf8(text).len() as int))
}

/// A text has at most as many characters as its encoding has bytes, and
/// both are empty together.
pub proof fn lemma_encoding_len(text: Seq<char>)
    ensures
        text.len() <= encode_utf8(text).len(),
        text.len() == 0 <==> encode_utf8(text).len() == 0,
    decreases text.len(),
{
    if text.len() > 0 {
        lemma_encoding_len(text.drop_first());
    }
}

/// Cutting at a character boundary loses nothing: head and tail make up the
/// text, and each is encoded by its part of the bytes.
pub proof fn lemma_split(text: Seq<char>, end: int)
    requires
        splits_at(text, end),
    ensures
        0 <= end <= encode_utf8(text).len(),
        head(text, end) + tail(text, end) == text,
        encode_utf8(head(text, end)) == encode_utf8(text).subrange(0, end),
        encode_utf8(tail(text, end)) == encode_utf8(text).subrange(
            end,
            encode_utf8(text).len() as int,
        ),
{
    let bytes = encode_utf8(text);
    encode_utf8_valid_utf8(text);
    encode_utf8_decode_utf8(text);
    valid_utf8_split(bytes, end);
    decode_utf8_split(bytes, end);
    decode_utf8_encode_utf8(bytes.subrange(0, end));
    decode_utf8_encode_utf8(bytes.subrange(end, bytes.len() as int));
}

/// Cutting at a boundary other than the start leaves a shorter tail.
pub proof fn lemma_tail_shorter(text: Seq<char>, end: int)
    requires
        splits_at(text, end),
        end > 0,
    ensures
        head(text, end).len() > 0,
        tail(text, end).len() < text.len(),
{
    lemma_split(text, end);
    lemma_encoding_len(head(text, end));
}

/// Skipping blanks leaves a suffix that starts with no blank.
pub proof fn lemma_skip_blanks(text: Seq<char>)
    ensures
        skip_blanks(text).len() <= text.len(),
        skip_blanks(text).len() > 0 ==> !is_blank(skip_blanks(text)[0]),
        skip_blanks(skip_blanks(text)) == skip_blanks(text),
    decreases text.len(),
{
    if text.len() > 0 && is_blank(text[0]) {
        lemma_skip_blanks(text.drop_first());
    }
}

/// Blanks before a text that starts with no blank are what skipping
/// blanks takes away; before any text, they make no difference to what is
/// left.
pub proof fn lemma_skip_gap(gap: Seq<char>, behind: Seq<char>)
    requires
        all_blank(gap),
    ensures
        skip_blanks(gap + behind) == skip_blanks(behind),
        behind.len() == 0 || !is_blank(behind[0]) ==> skip_blanks(gap + behind) == behind,
    decreases gap.len(),
{
    let text = gap + behind;
    if gap.len() == 0 {
        assert(text =~= behind);
    } else {
        assert(text[0] == gap[0]);
        assert(text.drop_first() =~= gap.drop_first() + behind);
        lemma_skip_gap(gap.drop_first(), behind);
    }
}

/// The first byte of a text's encoding: it starts a character, and it is
/// below 128 exactly when the first character is, which it then equals.
pub proof fn lemma_first_byte(text: Seq<char>)
    requires
        text.len() > 0,
    ensures
        encode_utf8(text).len() > 0,
        !is_continuation_byte(encode_utf8(text)[0]),
        encode_utf8(text)[0] < 0x80 <==> (text[0] as u32) < 0x80,
        encode_utf8(text)[0] < 0x80 ==> encode_utf8(text)[0] as u32 == text[0] as u32,
        encode_utf8(text)[0] < 0x80 ==> encode_utf8(text.drop_first()) == encode_utf8(
            text,
        ).subrange(1, encode_utf8(text).len() as int),
{
    let c = text[0] as u32;
    let rest = encode_utf8(text.drop_first());
    char_is_scalar(text[0]);
    assert(encode_utf8(text) == encode_scalar(c) + rest);
    assert(has_width_1_encoding(c) ==> leading_byte_width_1(c) as u32 == c && leading_byte_width_1(
        c,
    ) < 0x80) by (bit_vector);
    assert(leading_byte_width_2(c) >= 0xc0) by (bit_vector);
    assert(leading_byte_width_3(c) >= 0xc0) by (bit_vector);
    assert(leading_byte_width_4(c) >= 0xc0) by (bit_vector);
    if has_width_1_encoding(c) {
        assert(encode_scalar(c) =~= seq![leading_byte_width_1(c)]);
        assert(rest =~= encode_utf8(text).subrange(1, encode_utf8(text).len() as int));
    }
}

/// Characters with the same code are the same character.
proof fn lemma_same_code(c: char, d: char)
    requires
        c as u32 == d as u32,
    ensures
        c == d,
{
    char_u32_cast(c, c as u32);
    char_u32_cast(d, d as u32);
}

/// Whether two strings hold the same characters.
pub fn same_text(a: &str, b: &str) -> (same: bool)
    ensures
        same == (a@ == b@),
{
    let x = a.as_bytes();
    let y = b.as_bytes();
    if x.len() != y.len() {
        return false;
    }
    let mut i: usize = 0;
    while i < x.len()
        invariant
            x@ == encode_utf8(a@),
            y@ == encode_utf8(b@),
            x@.len() == y@.len(),
            i <= x@.len(),
            forall|j: int| 0 <= j < i ==> x@[j] == y@[j],
        decreases x@.len() - i,
    {
        if x[i] != y[i] {
            return false;
        }
        i += 1;
    }
    proof {
        assert(x@ =~= y@);
        encode_utf8_decode_utf8(a@);
        encode_utf8_decode_utf8(b@);
    }
    true
}

/// The string without the blanks it starts with.
pub fn trim_blanks(s: &str) -> (trimmed: &str)
    ensures
        trimmed@ == skip_blanks(s@),
{
    let bytes = s.as_bytes();
    let mut i: usize = 0;
    let ghost mut rest: Seq<char> = s@;
    proof {
        encode_utf8_valid_utf8(s@);
        assert(bytes@.subrange(0, bytes@.len() as int) =~= bytes@);
    }
    while i < bytes.len() && (bytes[i] == 0x20 || bytes[i] == 0x09 || bytes[i] == 0x0a)
        invariant
            bytes@ == encode_utf8(s@),
            i <= bytes@.len(),
            encode_utf8(rest) == bytes@.subrange(i as int, bytes@.len() as int),
            skip_blanks(rest) == skip_blanks(s@),
        decreases bytes@.len() - i,
    {
        proof {
            lemma_encoding_len(rest);
            lemma_first_byte(rest);
            assert(encode_utf8(rest)[0] == bytes@[i as int]);
            assert(is_blank(rest[0])) by {
                if bytes@[i as int] == 0x20 {
                    lemma_same_code(rest[0], ' ');
                } else if bytes@[i as int] == 0x09 {
                    lemma_same_code(rest[0], '\t');
                } else {
                    lemma_same_code(rest[0], '\n');
                }
            }
            assert(bytes@.subrange(i as int, bytes@.len() as int).subrange(
                1,
                bytes@.len() - i,
            ) =~= bytes@.subrange(i + 1, bytes@.len() as int));
            rest = rest.drop_first();
        }
        i += 1;
    }
    proof {
        lemma_encoding_len(rest);
        encode_utf8_valid_utf8(s@);
        if i < bytes@.len() {
            lemma_first_byte(rest);
            assert(encode_utf8(rest)[0] == bytes@[i as int]);
            is_char_boundary_iff_not_is_continuation_byte(bytes@, i as int);
            assert(!is_blank(rest[0])) by {
                if is_blank(rest[0]) {
                    assert((rest[0] as u32) < 0x80);
                }
            }
        } else {
            is_char_boundary_start_end_of_seq(bytes@);
        }
        assert(skip_blanks(rest) == rest);
    }
    let (_, trimmed) = s.split_at(i);
    proof {
        encode_utf8_decode_utf8(rest);
        encode_utf8_decode_utf8(trimmed@);
    }
    trimmed
}

/// Cuts the string at the byte offset `end`, where that can be done: where
/// `end` lies on a character boundary.
pub fn cut(s: &str, end: usize) -> (parts: Option<(&str, &str)>)
    ensures
        match parts {
            Some((before, after)) => splits_at(s@, end as int) && before@ == head(s@, end as int)
                && after@ == tail(s@, end as int),
            None => !splits_at(s@, end as int),
        },
{
    if s.is_char_boundary(end) {
        let (before, after) = s.split_at(end);
        proof {
            encode_utf8_decode_utf8(before@);
            encode_utf8_decode_utf8(after@);
        }
        Some((before, after))
    } else {
        None
    }
}

} // verus!
