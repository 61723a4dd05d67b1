//! The offset resolver: conversion between codepoint indices and byte
//! indices of a text's UTF-8 storage, and codepoint-indexed slicing built
//! on top of it.
//!
//! Annotation offsets count Unicode codepoints, while `str` stores UTF-8
//! bytes, so a codepoint count must never be used to index the storage
//! directly; a multi-byte character (an emoji, a non-Latin script) would
//! shift every later byte position. Every slice taken in this crate goes
//! through [`resolve`], which walks the text once and returns the exact
//! byte offset of the requested codepoint boundary.

use vstd::prelude::*;
use vstd::string::StringSliceAdditionalSpecFns;
use vstd::string::StrSliceExecFns;
use vstd::utf8::char_is_scalar;
use vstd::utf8::decode_utf8;
use vstd::utf8::encode_scalar;
use vstd::utf8::encode_utf8;
use vstd::utf8::encode_utf8_decode_utf8;
use vstd::utf8::encode_utf8_first_scalar;
use vstd::utf8::encode_utf8_valid_utf8;
use vstd::utf8::is_char_boundary;
use vstd::utf8::length_of_first_scalar;
use vstd::utf8::pop_first_scalar;

verus! {

broadcast use vstd::slice::group_slice_axioms;

/// The width in bytes of one codepoint's UTF-8 encoding.
pub open spec fn char_bytes(c: char) -> int {
    encode_scalar(c as u32).len() as int
}

/// The byte index of the boundary before codepoint `i` in the UTF-8
/// encoding of `s`; for `i == s.len()` it is the total byte length.
pub open spec fn byte_index_of(s: Seq<char>, i: int) -> int
    recommends
        0 <= i <= s.len(),
{
    encode_utf8(s.take(i)).len() as int
}

/// Encoding a concatenation encodes the parts in order.
pub proof fn lemma_encode_utf8_concat(a: Seq<char>, b: Seq<char>)
    ensures
        encode_utf8(a + b) == encode_utf8(a) + encode_utf8(b),
    decreases a.len(),
{
    if a.len() == 0 {
        assert(a + b =~= b);
        assert(encode_utf8(a) + encode_utf8(b) =~= encode_utf8(b));
    } else {
        assert((a + b).len() > 0);
        assert((a + b)[0] == a[0]);
        assert((a + b).drop_first() =~= a.drop_first() + b);
        lemma_encode_utf8_concat(a.drop_first(), b);
        assert(encode_utf8(a + b) =~= encode_utf8(a) + encode_utf8(b));
    }
}

/// The encoding of a single codepoint.
pub proof fn lemma_encode_utf8_singleton(c: char)
    ensures
        encode_utf8(seq![c]) == encode_scalar(c as u32),
{
    assert(seq![c].len() == 1);
    assert(seq![c][0] == c);
    assert(seq![c].drop_first() =~= Seq::<char>::empty());
    assert(encode_utf8(Seq::<char>::empty()) == Seq::<u8>::empty());
    assert(encode_utf8(seq![c]) == encode_scalar(c as u32) + encode_utf8(Seq::<char>::empty()));
    assert(encode_scalar(c as u32) + Seq::<u8>::empty() =~= encode_scalar(c as u32));
}

/// Moving one codepoint to the right moves the byte index by that
/// codepoint's encoded width.
pub proof fn lemma_byte_index_step(s: Seq<char>, i: int)
    requires
        0 <= i < s.len(),
    ensures
        byte_index_of(s, i + 1) == byte_index_of(s, i) + char_bytes(s[i]),
{
    assert(s.take(i + 1) =~= s.take(i) + seq![s[i]]);
    lemma_encode_utf8_concat(s.take(i), seq![s[i]]);
    lemma_encode_utf8_singleton(s[i]);
}

/// Byte indices grow with the codepoint index, by exactly the encoded
/// width of the codepoints in between.
pub proof fn lemma_byte_index_mono(s: Seq<char>, i: int, j: int)
    requires
        0 <= i <= j <= s.len(),
    ensures
        byte_index_of(s, j) - byte_index_of(s, i) == encode_utf8(s.subrange(i, j)).len(),
        byte_index_of(s, i) <= byte_index_of(s, j),
{
    assert(s.take(j) =~= s.take(i) + s.subrange(i, j));
    lemma_encode_utf8_concat(s.take(i), s.subrange(i, j));
}

/// No byte index passes the total length of the encoding.
pub proof fn lemma_byte_index_le_total(s: Seq<char>, i: int)
    requires
        0 <= i <= s.len(),
    ensures
        0 <= byte_index_of(s, i) <= encode_utf8(s).len(),
{
    assert(s.take(i) + s.skip(i) =~= s);
    lemma_encode_utf8_concat(s.take(i), s.skip(i));
    assert(encode_utf8(s) == encode_utf8(s.take(i)) + encode_utf8(s.skip(i)));
}

/// Removing the first codepoint of `s` removes its encoding from the
/// front of the byte sequence.
proof fn lemma_pop_first_encoding(s: Seq<char>)
    requires
        s.len() > 0,
    ensures
        pop_first_scalar(encode_utf8(s)) == encode_utf8(s.drop_first()),
        length_of_first_scalar(encode_utf8(s)) == encode_scalar(s[0] as u32).len(),
{
    encode_utf8_first_scalar(s);
    let w = encode_scalar(s[0] as u32).len() as int;
    assert(encode_utf8(s) == encode_scalar(s[0] as u32) + encode_utf8(s.drop_first()));
    assert(pop_first_scalar(encode_utf8(s)) =~= encode_utf8(s.drop_first()));
}

/// Every codepoint boundary of `s` is a character boundary of its UTF-8
/// encoding.
pub proof fn lemma_prefix_boundary(s: Seq<char>, i: int)
    requires
        0 <= i <= s.len(),
    ensures
        is_char_boundary(encode_utf8(s), byte_index_of(s, i)),
    decreases i,
{
    broadcast use encode_utf8_valid_utf8;

    let bytes = encode_utf8(s);
    if i == 0 {
        assert(s.take(0) =~= Seq::<char>::empty());
        assert(byte_index_of(s, 0) == 0);
        assert(is_char_boundary(bytes, 0));
    } else {
        lemma_pop_first_encoding(s);
        let w = encode_scalar(s[0] as u32).len() as int;
        assert(w >= 1);
        lemma_prefix_boundary(s.drop_first(), i - 1);
        assert(s.take(i) =~= seq![s[0]] + s.drop_first().take(i - 1));
        lemma_encode_utf8_concat(seq![s[0]], s.drop_first().take(i - 1));
        lemma_encode_utf8_singleton(s[0]);
        assert(byte_index_of(s, i) == w + byte_index_of(s.drop_first(), i - 1));
        lemma_byte_index_le_total(s, i);
        assert(is_char_boundary(bytes, byte_index_of(s, i)));
    }
}

/// The width in bytes of one character's UTF-8 encoding, computed from its
/// scalar value.
pub fn char_width(c: char) -> (w: usize)
    ensures
        w as int == char_bytes(c),
        1 <= w <= 4,
{
    proof {
        char_is_scalar(c);
    }
    let u = c as u32;
    if u < 0x80 {
        1
    } else if u < 0x800 {
        2
    } else if u < 0x10000 {
        3
    } else {
        4
    }
}

/// Converts a codepoint index into the byte index of the same boundary in
/// the text's UTF-8 storage. Total over `0 <= index <= ` the codepoint
/// count; the index one past the last codepoint maps to the byte length.
pub fn resolve(text: &str, index: usize) -> (b: usize)
    requires
        index as int <= text@.len(),
    ensures
        b as int == byte_index_of(text@, index as int),
{
    let total: usize = text.as_bytes().len();
    proof {
        assert(total as int == encode_utf8(text@).len());
        assert(text@.take(0) =~= Seq::<char>::empty());
    }
    let mut b: usize = 0;
    let mut i: usize = 0;
    while i < index
        invariant
            i <= index,
            index as int <= text@.len(),
            b as int == byte_index_of(text@, i as int),
            total as int == encode_utf8(text@).len(),
        decreases index - i,
    {
        let c = text.get_char(i);
        let w = char_width(c);
        proof {
            lemma_byte_index_step(text@, i as int);
            lemma_byte_index_le_total(text@, i as int + 1);
        }
        b = b + w;
        i = i + 1;
    }
    b
}

/// The slice of `text` between two codepoint boundaries, produced by
/// resolving both boundaries to byte indices and splitting the storage
/// there.
pub fn slice_codepoints(text: &str, from: usize, to: usize) -> (r: String)
    requires
        from <= to,
        to as int <= text@.len(),
    ensures
        r@ == text@.subrange(from as int, to as int),
{
    let b1 = resolve(text, from);
    let b2 = resolve(text, to);
    proof {
        broadcast use encode_utf8_valid_utf8;

        lemma_byte_index_mono(text@, from as int, to as int);
        lemma_prefix_boundary(text@, from as int);
        assert(is_char_boundary(text.spec_bytes(), b1 as int));
    }
    let (_, tail) = text.split_at(b1);
    proof {
        broadcast use encode_utf8_valid_utf8;

        assert(text@ =~= text@.take(from as int) + text@.skip(from as int));
        lemma_encode_utf8_concat(text@.take(from as int), text@.skip(from as int));
        assert(tail.spec_bytes() =~= encode_utf8(text@.skip(from as int)));
        assert(text@.skip(from as int).take(to - from) =~= text@.subrange(
            from as int,
            to as int,
        ));
        assert(byte_index_of(text@.skip(from as int), to - from) == b2 - b1);
        lemma_prefix_boundary(text@.skip(from as int), to - from);
        assert(is_char_boundary(tail.spec_bytes(), b2 - b1));
    }
    let (mid, _) = tail.split_at(b2 - b1);
    proof {
        broadcast use encode_utf8_valid_utf8, encode_utf8_decode_utf8;

        assert(text@.skip(from as int) =~= text@.subrange(from as int, to as int) + text@.skip(
            to as int,
        ));
        lemma_encode_utf8_concat(text@.subrange(from as int, to as int), text@.skip(to as int));
        assert(mid.spec_bytes() =~= encode_utf8(text@.subrange(from as int, to as int)));
        assert(mid@ == text@.subrange(from as int, to as int)) by {
            assert(encode_utf8(mid@) == encode_utf8(text@.subrange(from as int, to as int)));
            assert(decode_utf8(encode_utf8(mid@)) == mid@);
            assert(decode_utf8(encode_utf8(text@.subrange(from as int, to as int))) == text@
                .subrange(from as int, to as int));
        };
    }
    mid.to_owned()
}

} // verus!
