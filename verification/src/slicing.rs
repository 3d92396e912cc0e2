//! Cutting a string slice by character positions in constant time.
//!
//! A string is held as UTF-8, so a character position has to be turned
//! into a byte offset before the string can be cut there. The offsets are
//! found once, by adding up the widths of the characters.

use vstd::prelude::*;
use vstd::string::*;
use vstd::utf8::*;

verus! {

/// The number of bytes that the first `count` characters of `chars` take
/// in UTF-8.
#[verifier::opaque]
pub open spec fn byte_offset(chars: Seq<char>, count: int) -> int {
    encode_utf8(chars.take(count)).len() as int
}

/// The encoding of two texts in a row is the two encodings in a row.
pub proof fn lemma_encode_concat(a: Seq<char>, b: Seq<char>)
    ensures
        encode_utf8(a + b) == encode_utf8(a) + encode_utf8(b),
    decreases a.len(),
{
    if a.len() == 0 {
        assert(a + b =~= b);
        assert(encode_utf8(a) + encode_utf8(b) =~= encode_utf8(b));
    } else {
        assert((a + b).drop_first() =~= a.drop_first() + b);
        lemma_encode_concat(a.drop_first(), b);
        assert(encode_utf8(a + b) =~= encode_utf8(a) + encode_utf8(b));
    }
}

/// A character takes the bytes of its encoding.
pub proof fn lemma_offset_step(chars: Seq<char>, count: int)
    requires
        0 <= count < chars.len(),
    ensures
        byte_offset(chars, count + 1) == byte_offset(chars, count) + encode_scalar(
            chars[count] as u32,
        ).len(),
{
    reveal(byte_offset);
    let one = seq![chars[count]];
    assert(chars.take(count + 1) =~= chars.take(count) + one);
    lemma_encode_concat(chars.take(count), one);
    assert(one.drop_first() =~= Seq::<char>::empty());
    assert(encode_utf8(one) =~= encode_scalar(chars[count] as u32)) by {
        reveal_with_fuel(encode_utf8, 2);
    }
}

/// Offsets lie inside the encoding, and the offset behind the last
/// character is its length.
pub proof fn lemma_offset_bounds(chars: Seq<char>, count: int)
    requires
        0 <= count <= chars.len(),
    ensures
        0 <= byte_offset(chars, count) <= byte_offset(chars, chars.len() as int),
        byte_offset(chars, 0) == 0,
        byte_offset(chars, chars.len() as int) == encode_utf8(chars).len(),
{
    reveal(byte_offset);
    assert(chars =~= chars.take(count) + chars.skip(count));
    lemma_encode_concat(chars.take(count), chars.skip(count));
    assert(chars.take(chars.len() as int) =~= chars);
    assert(chars.take(0) =~= Seq::<char>::empty());
}

/// The bytes between two offsets encode the characters between the two
/// positions.
pub proof fn lemma_encoded_subrange(chars: Seq<char>, from: int, to: int)
    requires
        0 <= from <= to <= chars.len(),
    ensures
        byte_offset(chars, from) <= byte_offset(chars, to) <= encode_utf8(chars).len(),
        encode_utf8(chars).subrange(byte_offset(chars, from), byte_offset(chars, to))
            == encode_utf8(chars.subrange(from, to)),
{
    reveal(byte_offset);
    let head = chars.take(from);
    let middle = chars.subrange(from, to);
    let tail = chars.skip(to);
    assert(chars.take(to) =~= head + middle);
    assert(chars =~= chars.take(to) + tail);
    lemma_encode_concat(head, middle);
    lemma_encode_concat(chars.take(to), tail);
    assert(encode_utf8(chars).subrange(byte_offset(chars, from), byte_offset(chars, to))
        =~= encode_utf8(middle));
}

/// Every offset of a character is a character boundary of the encoding.
pub proof fn lemma_offset_is_boundary(chars: Seq<char>, count: int)
    requires
        0 <= count <= chars.len(),
    ensures
        is_char_boundary(encode_utf8(chars), byte_offset(chars, count)),
    decreases count,
{
    reveal(byte_offset);
    broadcast use encode_utf8_valid_utf8;

    let bytes = encode_utf8(chars);
    if count == 0 {
        lemma_offset_bounds(chars, 0);
    } else {
        let rest = chars.drop_first();
        encode_utf8_first_scalar(chars);
        assert(pop_first_scalar(bytes) =~= encode_utf8(rest));
        lemma_offset_is_boundary(rest, count - 1);
        assert(chars.take(count) =~= seq![chars[0]] + rest.take(count - 1));
        lemma_encode_concat(seq![chars[0]], rest.take(count - 1));
        assert(seq![chars[0]].drop_first() =~= Seq::<char>::empty());
        assert(encode_utf8(seq![chars[0]]) =~= encode_scalar(chars[0] as u32)) by {
            reveal_with_fuel(encode_utf8, 2);
        }
        lemma_offset_bounds(chars, count);
        assert(byte_offset(chars, count) == length_of_first_scalar(bytes) + byte_offset(
            rest,
            count - 1,
        ));
    }
}

/// The number of bytes that `c` takes in UTF-8.
pub fn utf8_width(c: char) -> (width: usize)
    ensures
        width == encode_scalar(c as u32).len(),
        1 <= width <= 4,
{
    let v = c as u32;
    if v < 0x80 {
        1
    } else if v < 0x800 {
        2
    } else if v < 0x10000 {
        3
    } else {
        4
    }
}

/// The text of `source` between the characters at `start` and `end`,
/// which lie at the byte offsets `left` and `right`.
pub(crate) fn slice<'a>(
    source: &'a str,
    left: usize,
    right: usize,
    Ghost(start): Ghost<int>,
    Ghost(end): Ghost<int>,
) -> (text: &'a str)
    requires
        0 <= start <= end <= source@.len(),
        left == byte_offset(source@, start),
        right == byte_offset(source@, end),
    ensures
        text@ == source@.subrange(start, end),
{
    broadcast use encode_utf8_valid_utf8;

    proof {
        reveal(byte_offset);
        lemma_offset_is_boundary(source@, end);
        lemma_encoded_subrange(source@, 0, end);
        lemma_offset_bounds(source@, 0);
        assert(source@.subrange(0, end) =~= source@.take(end));
        lemma_offset_is_boundary(source@.take(end), start);
        assert(source@.take(end).take(start) =~= source@.take(start));
        lemma_encoded_subrange(source@, start, end);
    }
    let head = source.split_at(right).0;
    let text = head.split_at(left).1;
    proof {
        assert(text.spec_bytes() =~= encode_utf8(source@.subrange(start, end)));
        encode_utf8_decode_utf8(text@);
        encode_utf8_decode_utf8(source@.subrange(start, end));
    }
    text
}

} // verus!
