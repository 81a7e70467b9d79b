//! Byte offsets into UTF-8 text and the character positions they stand for.

use vstd::prelude::*;
use vstd::utf8::*;
use vstd::string::*;

verus! {

/// The number of bytes that one character takes in UTF-8.
pub open spec fn char_width(c: char) -> int {
    encode_scalar(c as u32).len() as int
}

/// How many characters of `text` begin before byte `offset` of its UTF-8 form.
pub open spec fn char_index(text: Seq<char>, offset: int) -> nat
    decreases text.len(),
{
    if text.len() == 0 || offset <= 0 {
        0
    } else {
        1 + char_index(text.drop_first(), offset - char_width(text[0]))
    }
}

/// `offset` is the place of a character boundary in the UTF-8 form of `text`.
pub open spec fn on_boundary(text: Seq<char>, offset: int) -> bool {
    &&& 0 <= offset <= encode_utf8(text).len()
    &&& is_char_boundary(encode_utf8(text), offset)
}

/// A character takes at least one byte.
pub proof fn lemma_char_width_positive(c: char)
    ensures
        1 <= char_width(c) <= 4,
{
    char_is_scalar(c);
}

/// No more characters begin before an offset than the text has, and a later
/// offset has no fewer than an earlier one.
pub proof fn lemma_char_index_monotone(text: Seq<char>, a: int, b: int)
    requires
        a <= b,
    ensures
        char_index(text, a) <= char_index(text, b) <= text.len(),
    decreases text.len(),
{
    if text.len() > 0 && b > 0 {
        let w = char_width(text[0]);
        lemma_char_index_monotone(text.drop_first(), a - w, b - w);
    }
}

/// Before the end of the encoding of `head` begin exactly the characters of
/// `head`, whatever follows it.
pub proof fn lemma_char_index_of_prefix(head: Seq<char>, tail: Seq<char>)
    ensures
        char_index(head + tail, encode_utf8(head).len() as int) == head.len(),
    decreases head.len(),
{
    let text = head + tail;
    if head.len() == 0 {
    } else {
        lemma_char_width_positive(head[0]);
        assert(text[0] == head[0]);
        assert(text.drop_first() =~= head.drop_first() + tail);
        lemma_char_index_of_prefix(head.drop_first(), tail);
    }
}

/// The encoding of a text in two parts is the encoding of the first part
/// followed by that of the second.
pub proof fn lemma_encode_concat(a: Seq<char>, b: Seq<char>)
    ensures
        encode_utf8(a + b) == encode_utf8(a) + encode_utf8(b),
    decreases a.len(),
{
    if a.len() == 0 {
        assert(a + b =~= b);
        assert(encode_utf8(a) + encode_utf8(b) =~= encode_utf8(b));
    } else {
        assert((a + b).drop_first() =~= a.drop_first() + b);
        assert((a + b)[0] == a[0]);
        lemma_encode_concat(a.drop_first(), b);
        assert(encode_utf8(a + b) =~= encode_utf8(a) + encode_utf8(b));
    }
}

/// The characters that begin before a boundary are the ones whose encoding
/// stands before it.
pub proof fn lemma_prefix_before_boundary(text: Seq<char>, offset: int)
    requires
        on_boundary(text, offset),
    ensures
        char_index(text, offset) <= text.len(),
        encode_utf8(text.take(char_index(text, offset) as int)) == encode_utf8(text).take(offset),
{
    let bytes = encode_utf8(text);
    let front = bytes.subrange(0, offset);
    let back = bytes.subrange(offset, bytes.len() as int);
    encode_utf8_valid_utf8(text);
    valid_utf8_split(bytes, offset);
    decode_utf8_split(bytes, offset);
    encode_utf8_decode_utf8(text);
    let head = decode_utf8(front);
    let tail = decode_utf8(back);
    decode_utf8_encode_utf8(front);
    assert(text =~= head + tail);
    lemma_char_index_of_prefix(head, tail);
    assert(text.take(head.len() as int) =~= head);
    assert(bytes.take(offset) =~= front);
}

/// The characters between the positions that two boundaries stand for are
/// the text whose encoding lies between the boundaries: a span counted in
/// characters cuts out what the span counted in bytes does.
pub proof fn lemma_char_span_cuts_same_text(text: Seq<char>, start: int, end: int)
    requires
        start <= end,
        on_boundary(text, start),
        on_boundary(text, end),
    ensures
        char_index(text, start) <= char_index(text, end) <= text.len(),
        encode_utf8(text.subrange(char_index(text, start) as int, char_index(text, end) as int))
            == encode_utf8(text).subrange(start, end),
{
    let bytes = encode_utf8(text);
    let first = char_index(text, start) as int;
    let last = char_index(text, end) as int;
    lemma_char_index_monotone(text, start, end);
    lemma_prefix_before_boundary(text, start);
    lemma_prefix_before_boundary(text, end);
    let inner = text.subrange(first, last);
    assert(text.take(last) =~= text.take(first) + inner);
    lemma_encode_concat(text.take(first), inner);
    let cut = encode_utf8(inner);
    assert(bytes.take(end) == bytes.take(start) + cut);
    assert(bytes.take(end).len() == end);
    assert(bytes.take(start).len() == start);
    assert(cut.len() == end - start);
    assert forall|i: int| 0 <= i < cut.len() implies cut[i] == bytes.subrange(start, end)[i] by {
        assert((bytes.take(start) + cut)[start + i] == cut[i]);
        assert(bytes.take(end)[start + i] == bytes[start + i]);
    }
    assert(cut =~= bytes.subrange(start, end));
}

/// The character position that a byte offset of `text` stands for, where the
/// offset lies on a character boundary.
pub fn char_offset(text: &str, offset: usize) -> (r: Option<usize>)
    ensures
        r is Some <==> on_boundary(text@, offset as int),
        r is Some ==> r->Some_0 == char_index(text@, offset as int),
{
    proof {
        encode_utf8_valid_utf8(text@);
    }
    if offset > text.as_bytes().len() || !text.is_char_boundary(offset) {
        return None;
    }
    let (head, tail) = text.split_at(offset);
    let n = head.unicode_len();
    proof {
        let bytes = encode_utf8(text@);
        decode_utf8_split(bytes, offset as int);
        valid_utf8_split(bytes, offset as int);
        encode_utf8_decode_utf8(text@);
        encode_utf8_decode_utf8(head@);
        encode_utf8_decode_utf8(tail@);
        assert(text@ =~= head@ + tail@);
        assert(encode_utf8(head@).len() == offset);
        lemma_char_index_of_prefix(head@, tail@);
    }
    Some(n)
}

/// The character span that a span of byte offsets stands for.
///
/// `None` where the offsets are out of order or one of them lies inside a
/// character.
pub fn char_span(text: &str, start: usize, end: usize) -> (r: Option<(usize, usize)>)
    ensures
        r is Some <==> start <= end && on_boundary(text@, start as int) && on_boundary(
            text@,
            end as int,
        ),
        r matches Some(span) ==> {
            &&& span.0 == char_index(text@, start as int)
            &&& span.1 == char_index(text@, end as int)
            &&& span.0 <= span.1 <= text@.len()
        },
{
    if start > end {
        return None;
    }
    match (char_offset(text, start), char_offset(text, end)) {
        (Some(first), Some(last)) => {
            proof {
                lemma_char_index_monotone(text@, start as int, end as int);
            }
            Some((first, last))
        },
        _ => None,
    }
}

} // verus!
