//! Characters and strings: case folding, keyword comparison and UTF-8 widths.

use vstd::prelude::*;
use vstd::utf8::*;

verus! {

/// The lower-case form of an ASCII capital; every other character stands for itself.
pub open spec fn lower(c: char) -> char {
    if 'A' <= c && c <= 'Z' {
        ((c as u8) + 32) as char
    } else {
        c
    }
}

/// A sequence of characters with its ASCII capitals in lower case.
pub open spec fn folded(s: Seq<char>) -> Seq<char> {
    Seq::new(s.len(), |i: int| lower(s[i]))
}

/// Computes [`lower`].
pub fn to_lower(c: char) -> (l: char)
    ensures
        l == lower(c),
{
    if 'A' <= c && c <= 'Z' {
        let b: u8 = c as u8;
        (b + 32) as char
    } else {
        c
    }
}

/// The number of bytes that a character takes in UTF-8.
pub open spec fn width(c: char) -> nat {
    encode_scalar(c as u32).len()
}

/// Computes [`width`].
pub fn utf8_width(c: char) -> (w: usize)
    ensures
        w == width(c),
        1 <= w <= 4,
{
    let v: u32 = c as u32;
    if v <= 0x7F {
        1
    } else if v <= 0x7FF {
        2
    } else if v <= 0xFFFF {
        3
    } else {
        4
    }
}

/// The number of bytes that the first `position` characters of `source` take in UTF-8:
/// the byte offset of that position.
pub open spec fn offset(source: Seq<char>, position: int) -> nat {
    encode_utf8(source.take(position)).len()
}

/// The encoding of two sequences, one behind the other, is their encodings one behind
/// the other.
pub proof fn lemma_encode_concat(a: Seq<char>, b: Seq<char>)
    ensures
        encode_utf8(a + b) == encode_utf8(a) + encode_utf8(b),
    decreases a.len(),
{
    if a.len() == 0 {
        assert(a + b =~= b);
        assert(encode_utf8(a) + encode_utf8(b) =~= encode_utf8(b));
    } else {
        lemma_encode_concat(a.drop_first(), b);
        assert((a + b).drop_first() =~= a.drop_first() + b);
        assert(encode_utf8(a + b) =~= encode_utf8(a) + encode_utf8(b));
    }
}

/// One character further, the offset grows by the width of that character.
pub proof fn lemma_offset_step(source: Seq<char>, position: int)
    requires
        0 <= position < source.len(),
    ensures
        offset(source, position + 1) == offset(source, position) + width(source[position]),
{
    let head = source.take(position);
    let one = seq![source[position]];
    assert(source.take(position + 1) =~= head + one);
    lemma_encode_concat(head, one);
    reveal_with_fuel(encode_utf8, 2);
    assert(one.drop_first() =~= Seq::<char>::empty());
    assert(encode_utf8(one) =~= encode_scalar(source[position] as u32));
}

/// No offset lies behind the offset of the end.
pub proof fn lemma_offset_bound(source: Seq<char>, position: int)
    requires
        0 <= position <= source.len(),
    ensures
        offset(source, position) <= offset(source, source.len() as int),
{
    let head = source.take(position);
    let tail = source.skip(position);
    assert(source.take(source.len() as int) =~= head + tail);
    lemma_encode_concat(head, tail);
}

/// The offset of the end is the length of the whole encoding.
pub proof fn lemma_offset_whole(source: Seq<char>)
    ensures
        offset(source, source.len() as int) == encode_utf8(source).len(),
{
    assert(source.take(source.len() as int) =~= source);
}

/// The characters of `source` from position `from` up to position `to`, as a string.
pub fn slice_of(source: &Vec<char>, from: usize, to: usize) -> (text: String)
    requires
        from <= to <= source@.len(),
    ensures
        text@ == source@.subrange(from as int, to as int),
{
    let mut text = String::new();
    let mut i: usize = from;
    while i < to
        invariant
            from <= i <= to <= source@.len(),
            text@ == source@.subrange(from as int, i as int),
        decreases to - i,
    {
        text.push(source[i]);
        assert(source@.subrange(from as int, i + 1) =~= source@.subrange(
            from as int,
            i as int,
        ).push(source@[i as int]));
        i = i + 1;
    }
    text
}

/// [`String::push`] puts the character at the end of the string.
pub assume_specification[ String::push ](string: &mut String, ch: char)
    ensures
        final(string)@ == old(string)@.push(ch),
;

/// The characters of a string, one by one. Their encoding is the string itself, so its
/// length is the length of a slice.
pub fn characters(input: &str) -> (chars: Vec<char>)
    ensures
        chars@ == input@,
        offset(chars@, chars@.len() as int) <= usize::MAX,
{
    let bytes = input.as_bytes();
    let mut chars: Vec<char> = Vec::with_capacity(bytes.len());
    for c in it: input.chars()
        invariant
            it.seq() == input@,
            chars@ == it.seq().take(it.index() as int),
    {
        chars.push(c);
    }
    proof {
        lemma_offset_whole(chars@);
    }
    chars
}

/// Whether `word`, with its capitals folded, reads as `keyword`.
pub fn reads_as(word: &[char], keyword: &str) -> (same: bool)
    ensures
        same == (folded(word@) == keyword@),
{
    let mut i: usize = 0;
    for k in it: keyword.chars()
        invariant
            it.seq() == keyword@,
            i == it.index(),
            i <= word@.len(),
            folded(word@).take(i as int) == keyword@.take(i as int),
    {
        if i >= word.len() {
            return false;
        }
        if to_lower(word[i]) != k {
            assert(folded(word@)[i as int] != keyword@[i as int]);
            return false;
        }
        assert(folded(word@).take(i + 1) =~= folded(word@).take(i as int).push(
            folded(word@)[i as int],
        ));
        assert(keyword@.take(i + 1) =~= keyword@.take(i as int).push(keyword@[i as int]));
        i = i + 1;
    }
    assert(keyword@.take(i as int) =~= keyword@);
    if i == word.len() {
        assert(folded(word@).take(i as int) =~= folded(word@));
        true
    } else {
        false
    }
}

} // verus!
