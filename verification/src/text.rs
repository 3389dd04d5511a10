//! Characters and positions in source text.
//!
//! Source text is modelled as its sequence of characters. Positions that are
//! handed out (token spans) are byte offsets into the UTF-8 text, so this
//! module relates character indices to byte offsets and cuts slices out of a
//! `&str` at such offsets.
//!
//! Which characters are whitespace, letters or digits, and which may start or
//! continue an identifier is decided by Unicode tables that live in `std` and
//! in `chumsky`. Those decisions are named here, not restated.

use vstd::prelude::*;
use vstd::string::StringSliceAdditionalSpecFns;
use vstd::utf8::*;

verus! {

/// Whether `chumsky`'s `Char::is_whitespace` holds of `c`.
pub uninterp spec fn unicode_whitespace(c: char) -> bool;

/// Whether `char::is_alphanumeric` holds of `c`.
pub uninterp spec fn unicode_alphanumeric(c: char) -> bool;

/// Whether `chumsky`'s `Char::is_ident_start` holds of `c`.
pub uninterp spec fn unicode_ident_start(c: char) -> bool;

/// Whether `chumsky`'s `Char::is_ident_continue` holds of `c`.
pub uninterp spec fn unicode_ident_continue(c: char) -> bool;

/// Trusted: `chumsky::text::Char::is_whitespace` for `char`, a function of
/// the character alone (the Unicode `White_Space` property, less the
/// bidirectional formatting characters).
#[verifier::external_body]
fn is_whitespace(c: char) -> (r: bool)
    ensures
        r == unicode_whitespace(c),
{
    chumsky::text::Char::is_whitespace(&c)
}

/// Trusted: `char::is_alphanumeric`, a function of the character alone (the
/// Unicode `Alphabetic` property or one of the number categories).
pub assume_specification[ char::is_alphanumeric ](c: char) -> (r: bool)
    ensures
        r == unicode_alphanumeric(c),
;

/// Trusted: `chumsky::text::Char::is_ident_start` for `char`, a function of
/// the character alone (the Unicode `XID_Start` property, or an underscore).
#[verifier::external_body]
fn is_ident_start(c: char) -> (r: bool)
    ensures
        r == unicode_ident_start(c),
{
    chumsky::text::Char::is_ident_start(&c)
}

/// Trusted: `chumsky::text::Char::is_ident_continue` for `char`, a function
/// of the character alone (the Unicode `XID_Continue` property).
#[verifier::external_body]
fn is_ident_continue(c: char) -> (r: bool)
    ensures
        r == unicode_ident_continue(c),
{
    chumsky::text::Char::is_ident_continue(&c)
}

/// A character, and what the character tables say of it.
#[derive(Debug, Clone, Copy, PartialEq, Eq)]
pub struct Classified {
    pub value: char,
    /// Whether the character is whitespace.
    pub whitespace: bool,
    /// Whether the character is a letter or a digit.
    pub alphanumeric: bool,
    /// Whether an identifier may start with the character.
    pub ident_start: bool,
    /// Whether an identifier may go on with the character.
    pub ident_continue: bool,
}

/// The character `c` with what the character tables say of it.
pub open spec fn classified(c: char) -> Classified {
    Classified {
        value: c,
        whitespace: unicode_whitespace(c),
        alphanumeric: unicode_alphanumeric(c),
        ident_start: unicode_ident_start(c),
        ident_continue: unicode_ident_continue(c),
    }
}

/// The characters of `text`, each with what the character tables say of it.
pub open spec fn classified_text(text: Seq<char>) -> Seq<Classified> {
    text.map_values(|c: char| classified(c))
}

/// The characters of a classified text.
pub open spec fn values(text: Seq<Classified>) -> Seq<char> {
    text.map_values(|c: Classified| c.value)
}

/// The number of bytes that `c` takes in UTF-8.
pub open spec fn utf8_width(c: char) -> nat {
    encode_scalar(c as u32).len()
}

/// The byte offset at which the character with index `index` starts in the
/// UTF-8 form of `text`; for `index == text.len()`, the length of that form.
pub open spec fn byte_offset(text: Seq<char>, index: int) -> nat {
    encode_utf8(text.take(index)).len()
}

/// The UTF-8 form of a text followed by another is the two forms in a row.
pub proof fn lemma_encode_concat(head: Seq<char>, tail: Seq<char>)
    ensures
        encode_utf8(head + tail) == encode_utf8(head) + encode_utf8(tail),
    decreases head.len(),
{
    if head.len() > 0 {
        lemma_encode_concat(head.drop_first(), tail);
        assert((head + tail).drop_first() =~= head.drop_first() + tail);
    }
}

/// Each character moves the byte offset on by its width, and no character
/// starts after the end of the text's UTF-8 form.
pub proof fn lemma_byte_offset_step(text: Seq<char>, index: int)
    requires
        0 <= index < text.len(),
    ensures
        byte_offset(text, index + 1) == byte_offset(text, index) + utf8_width(text[index]),
        1 <= utf8_width(text[index]) <= 4,
        byte_offset(text, index + 1) <= byte_offset(text, text.len() as int),
{
    let one = seq![text[index]];
    assert(text.take(index + 1) =~= text.take(index) + one);
    lemma_encode_concat(text.take(index), one);
    assert(encode_utf8(one) =~= encode_scalar(text[index] as u32)) by {
        assert(encode_utf8(one.drop_first()) =~= Seq::<u8>::empty());
    }
    assert(text.take(text.len() as int) =~= text.take(index + 1) + text.skip(index + 1));
    lemma_encode_concat(text.take(index + 1), text.skip(index + 1));
}

/// Byte offsets grow with character indices.
pub proof fn lemma_byte_offset_grows(text: Seq<char>, from: int, to: int)
    requires
        0 <= from < to <= text.len(),
    ensures
        byte_offset(text, from) < byte_offset(text, to),
    decreases to - from,
{
    lemma_byte_offset_step(text, to - 1);
    if from < to - 1 {
        lemma_byte_offset_grows(text, from, to - 1);
    }
}

/// The bytes between two character indices are the UTF-8 form of the
/// characters between them, and both offsets are character boundaries.
pub proof fn lemma_byte_range(text: Seq<char>, from: int, to: int)
    requires
        0 <= from <= to <= text.len(),
    ensures
        byte_offset(text, from) <= byte_offset(text, to) <= encode_utf8(text).len(),
        encode_utf8(text).subrange(byte_offset(text, from) as int, byte_offset(text, to) as int)
            == encode_utf8(text.subrange(from, to)),
        is_char_boundary(encode_utf8(text), byte_offset(text, from) as int),
        is_char_boundary(encode_utf8(text), byte_offset(text, to) as int),
{
    let head = text.take(from);
    let middle = text.subrange(from, to);
    let tail = text.skip(to);
    assert(text.take(to) =~= head + middle);
    assert(text =~= text.take(to) + tail);
    lemma_encode_concat(head, middle);
    lemma_encode_concat(text.take(to), tail);
    assert(encode_utf8(text).subrange(
        byte_offset(text, from) as int,
        byte_offset(text, to) as int,
    ) =~= encode_utf8(middle));
    lemma_boundary(text, from);
    lemma_boundary(text, to);
}

/// The byte offset of a character index is a character boundary.
proof fn lemma_boundary(text: Seq<char>, index: int)
    requires
        0 <= index <= text.len(),
    ensures
        is_char_boundary(encode_utf8(text), byte_offset(text, index) as int),
    decreases index,
{
    let bytes = encode_utf8(text);
    encode_utf8_valid_utf8(text);
    if index > 0 {
        let rest = text.drop_first();
        let one = seq![text[0]];
        encode_utf8_first_scalar(text);
        assert(pop_first_scalar(bytes) =~= encode_utf8(rest));
        assert(text.take(index) =~= one + rest.take(index - 1));
        lemma_encode_concat(one, rest.take(index - 1));
        assert(encode_utf8(one) =~= encode_scalar(text[0] as u32)) by {
            assert(encode_utf8(one.drop_first()) =~= Seq::<u8>::empty());
        }
        lemma_boundary(rest, index - 1);
        lemma_encode_concat(text.take(index), text.skip(index));
    }
}

/// The characters of `source`, in order.
pub fn characters(source: &str) -> (chars: Vec<char>)
    ensures
        chars@ == source@,
{
    let mut chars: Vec<char> = Vec::new();
    for c in it: source.chars()
        invariant
            chars@ == it.seq().take(it.index() as int),
    {
        chars.push(c);
    }
    chars
}

/// Looks `c` up in the character tables.
pub fn classify(c: char) -> (looked_up: Classified)
    ensures
        looked_up == classified(c),
{
    Classified {
        value: c,
        whitespace: is_whitespace(c),
        alphanumeric: c.is_alphanumeric(),
        ident_start: is_ident_start(c),
        ident_continue: is_ident_continue(c),
    }
}

/// The characters of `source`, in order, each with what the character
/// tables say of it.
pub fn classify_text(source: &str) -> (chars: Vec<Classified>)
    ensures
        chars@ == classified_text(source@),
        values(chars@) == source@,
{
    let mut chars: Vec<Classified> = Vec::new();
    for c in it: source.chars()
        invariant
            chars@ == classified_text(it.seq().take(it.index() as int)),
    {
        chars.push(classify(c));
    }
    chars
}

/// The number of bytes that `c` takes in UTF-8.
pub fn width(c: char) -> (w: usize)
    ensures
        w == utf8_width(c),
        1 <= w <= 4,
{
    let code: u32 = c as u32;
    proof {
        char_is_scalar(c);
    }
    if code < 0x80 {
        1
    } else if code < 0x800 {
        2
    } else if code < 0x1_0000 {
        3
    } else {
        4
    }
}

/// The part of `source` between two character indices, cut at their byte
/// offsets.
pub(crate) fn slice<'a>(
    source: &'a str,
    Ghost(from): Ghost<int>,
    Ghost(to): Ghost<int>,
    from_byte: usize,
    to_byte: usize,
) -> (part: &'a str)
    requires
        0 <= from <= to <= source@.len(),
        from_byte == byte_offset(source@, from),
        to_byte == byte_offset(source@, to),
    ensures
        part@ == source@.subrange(from, to),
{
    proof {
        lemma_byte_range(source@, from, to);
    }
    let (head, _) = source.split_at(to_byte);
    proof {
        lemma_byte_range(source@, 0, to);
        encode_utf8_decode_utf8(head@);
        encode_utf8_decode_utf8(source@.take(to));
        lemma_byte_range(head@, from, to);
        assert(head@.take(from) =~= source@.take(from));
        assert(head@.take(to) =~= head@);
    }
    let (_, part) = head.split_at(from_byte);
    proof {
        encode_utf8_decode_utf8(part@);
        encode_utf8_decode_utf8(head@.subrange(from, to));
    }
    part
}

/// Whether two texts hold the same characters.
pub fn same_text(a: &str, b: &str) -> (same: bool)
    ensures
        same == (a@ == b@),
{
    let left = a.as_bytes();
    let right = b.as_bytes();
    proof {
        encode_utf8_decode_utf8(a@);
        encode_utf8_decode_utf8(b@);
    }
    if left.len() != right.len() {
        return false;
    }
    let mut i: usize = 0;
    while i < left.len()
        invariant
            i <= left.len(),
            left.len() == right.len(),
            forall|k: int| 0 <= k < i ==> left@[k] == right@[k],
            left@ == encode_utf8(a@),
            right@ == encode_utf8(b@),
        decreases left.len() - i,
    {
        if left[i] != right[i] {
            return false;
        }
        i = i + 1;
    }
    assert(left@ =~= right@);
    true
}

} // verus!
