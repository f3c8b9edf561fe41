//! Positions in UTF-8 text: how the index of a character relates to the
//! offset of its first byte.

use vstd::prelude::*;
use vstd::utf8::*;

verus! {

/// The UTF-8 encoding of one character.
pub open spec fn char_bytes(c: char) -> Seq<u8> {
    encode_scalar(c as u32)
}

/// The offset of the first byte of the character of index `k` in the UTF-8
/// encoding of `s`; for `k == s.len()`, the length of the encoding.
pub open spec fn byte_offset(s: Seq<char>, k: int) -> int {
    encode_utf8(s.take(k)).len() as int
}

/// A single character's encoding is the encoding of the one-character text.
pub proof fn lemma_encode_single(c: char)
    ensures
        encode_utf8(seq![c]) == char_bytes(c),
{
    let s = seq![c];
    assert(s.drop_first() =~= Seq::<char>::empty());
    assert(encode_utf8(s.drop_first()) =~= Seq::<u8>::empty());
    assert(encode_utf8(s) =~= char_bytes(c));
}

/// Encoding distributes over concatenation.
pub proof fn lemma_encode_concat(a: Seq<char>, b: Seq<char>)
    ensures
        encode_utf8(a + b) == encode_utf8(a) + encode_utf8(b),
    decreases a.len(),
{
    if a.len() == 0 {
        assert(a + b =~= b);
        assert(encode_utf8(a) + encode_utf8(b) =~= encode_utf8(b));
    } else {
        assert((a + b).drop_first() =~= a.drop_first() + b);
        lemma_encode_concat(a.drop_first(), b);
        assert(encode_utf8(a + b) =~= encode_utf8(a) + encode_utf8(b));
    }
}

/// The shape of one character's encoding: one leading byte, then
/// continuation bytes, one to four bytes in all; an encoding of one byte is
/// the character's own number.
pub proof fn lemma_char_bytes_shape(c: char)
    ensures
        1 <= char_bytes(c).len() <= 4,
        !is_continuation_byte(char_bytes(c)[0]),
        forall|j: int|
            1 <= j < char_bytes(c).len() ==> is_continuation_byte(#[trigger] char_bytes(c)[j]),
        char_bytes(c).len() == length_of_first_codepoint(char_bytes(c)),
        valid_leading_and_continuation_bytes_first_codepoint(char_bytes(c)),
        decode_first_scalar(char_bytes(c)) == c as u32,
        (c as u32) <= 0x7f <==> char_bytes(c).len() == 1,
        (c as u32) <= 0x7f ==> char_bytes(c) == seq![c as u8],
{
    lemma_encode_single(c);
    encode_utf8_first_scalar(seq![c]);
    let v = c as u32;
    if v <= 0x7f {
        assert(v as u8 == leading_byte_width_1(v)) by (bit_vector)
            requires
                has_width_1_encoding(v),
        ;
        assert(char_bytes(c) =~= seq![c as u8]);
    }
}

/// Two characters with the same encoding are the same character.
pub proof fn lemma_char_bytes_injective(a: char, b: char)
    requires
        char_bytes(a) == char_bytes(b),
    ensures
        a == b,
{
    lemma_char_bytes_shape(a);
    lemma_char_bytes_shape(b);
}

/// An encoding is at least as long as the text.
pub proof fn lemma_encode_len(s: Seq<char>)
    ensures
        encode_utf8(s).len() >= s.len(),
    decreases s.len(),
{
    if s.len() > 0 {
        lemma_char_bytes_shape(s[0]);
        lemma_encode_len(s.drop_first());
    }
}

/// The encoding of a text splits at the offset of any of its characters.
pub proof fn lemma_offset_split(s: Seq<char>, k: int)
    requires
        0 <= k <= s.len(),
    ensures
        0 <= byte_offset(s, k) <= encode_utf8(s).len(),
        encode_utf8(s).take(byte_offset(s, k)) == encode_utf8(s.take(k)),
        encode_utf8(s).skip(byte_offset(s, k)) == encode_utf8(s.skip(k)),
{
    assert(s =~= s.take(k) + s.skip(k));
    lemma_encode_concat(s.take(k), s.skip(k));
    let a = encode_utf8(s.take(k));
    let b = encode_utf8(s.skip(k));
    assert((a + b).take(a.len() as int) =~= a);
    assert((a + b).skip(a.len() as int) =~= b);
}

/// The bytes between the offsets of two characters encode the text between
/// them, and offsets grow with indices.
pub proof fn lemma_encode_subrange(s: Seq<char>, i: int, j: int)
    requires
        0 <= i <= j <= s.len(),
    ensures
        0 <= byte_offset(s, i) <= byte_offset(s, j) <= encode_utf8(s).len(),
        byte_offset(s, j) - byte_offset(s, i) == encode_utf8(s.subrange(i, j)).len(),
        byte_offset(s, j) - byte_offset(s, i) >= j - i,
        encode_utf8(s).subrange(byte_offset(s, i), byte_offset(s, j)) == encode_utf8(
            s.subrange(i, j),
        ),
{
    lemma_offset_split(s, j);
    assert(s.take(j) =~= s.take(i) + s.subrange(i, j));
    lemma_encode_concat(s.take(i), s.subrange(i, j));
    lemma_encode_len(s.subrange(i, j));
    let a = encode_utf8(s.take(i));
    let b = encode_utf8(s.subrange(i, j));
    assert(encode_utf8(s).take(byte_offset(s, j)) == a + b);
    assert(encode_utf8(s).subrange(byte_offset(s, i), byte_offset(s, j)) =~= (a + b).skip(
        a.len() as int,
    ));
    assert((a + b).skip(a.len() as int) =~= b);
}

/// The first and the last offset.
pub proof fn lemma_offset_ends(s: Seq<char>)
    ensures
        byte_offset(s, 0) == 0,
        byte_offset(s, s.len() as int) == encode_utf8(s).len(),
{
    assert(s.take(0) =~= Seq::<char>::empty());
    assert(s.take(s.len() as int) =~= s);
}

/// From one character to the next the offset grows by the length of the
/// character's encoding, and the bytes between the two offsets are that
/// encoding.
pub proof fn lemma_offset_step(s: Seq<char>, k: int)
    requires
        0 <= k < s.len(),
    ensures
        byte_offset(s, k + 1) == byte_offset(s, k) + char_bytes(s[k]).len(),
        0 <= byte_offset(s, k) < byte_offset(s, k + 1) <= encode_utf8(s).len(),
        encode_utf8(s).subrange(byte_offset(s, k), byte_offset(s, k + 1)) == char_bytes(s[k]),
{
    lemma_encode_subrange(s, k, k + 1);
    assert(s.subrange(k, k + 1) =~= seq![s[k]]);
    lemma_encode_single(s[k]);
    lemma_char_bytes_shape(s[k]);
}

/// Every byte of an encoding lies in the encoding of one character.
pub proof fn lemma_locate(s: Seq<char>, o: int) -> (k: int)
    requires
        0 <= o < encode_utf8(s).len(),
    ensures
        0 <= k < s.len(),
        byte_offset(s, k) <= o < byte_offset(s, k + 1),
    decreases s.len(),
{
    let n = s.len() as int;
    lemma_offset_ends(s);
    if o >= byte_offset(s, n - 1) {
        n - 1
    } else {
        let t = s.drop_last();
        assert(t =~= s.take(n - 1));
        lemma_offset_ends(t);
        let k = lemma_locate(t, o);
        assert(t.take(k) =~= s.take(k));
        assert(t.take(k + 1) =~= s.take(k + 1));
        k
    }
}

/// The byte at an offset inside a character's encoding is the matching byte
/// of that encoding: a leading byte at the character's own offset, a
/// continuation byte after it.
pub proof fn lemma_byte_in_char(s: Seq<char>, k: int, o: int)
    requires
        0 <= k < s.len(),
        byte_offset(s, k) <= o < byte_offset(s, k + 1),
    ensures
        0 <= o < encode_utf8(s).len(),
        encode_utf8(s)[o] == char_bytes(s[k])[o - byte_offset(s, k)],
        o == byte_offset(s, k) <==> !is_continuation_byte(encode_utf8(s)[o]),
{
    lemma_offset_step(s, k);
    lemma_char_bytes_shape(s[k]);
    let lo = byte_offset(s, k);
    let hi = byte_offset(s, k + 1);
    assert(encode_utf8(s).subrange(lo, hi)[o - lo] == encode_utf8(s)[o]);
}

/// A byte that is no continuation byte stands at the offset of a character.
pub proof fn lemma_leading_byte_offset(s: Seq<char>, o: int) -> (k: int)
    requires
        0 <= o < encode_utf8(s).len(),
        !is_continuation_byte(encode_utf8(s)[o]),
    ensures
        0 <= k < s.len(),
        byte_offset(s, k) == o,
        encode_utf8(s)[o] == char_bytes(s[k])[0],
{
    let k = lemma_locate(s, o);
    lemma_byte_in_char(s, k, o);
    k
}

/// The offset of a character is a character boundary of the encoding.
pub proof fn lemma_offset_is_boundary(s: Seq<char>, k: int)
    requires
        0 <= k <= s.len(),
    ensures
        is_char_boundary(encode_utf8(s), byte_offset(s, k)),
{
    broadcast use encode_utf8_valid_utf8;

    lemma_offset_ends(s);
    if k == s.len() {
        is_char_boundary_start_end_of_seq(encode_utf8(s));
    } else {
        lemma_offset_step(s, k);
        lemma_byte_in_char(s, k, byte_offset(s, k));
        is_char_boundary_iff_not_is_continuation_byte(encode_utf8(s), byte_offset(s, k));
    }
}

/// A character boundary of the encoding is the offset of a character, or
/// the end.
pub proof fn lemma_boundary_is_offset(s: Seq<char>, o: int) -> (k: int)
    requires
        0 <= o <= encode_utf8(s).len(),
        is_char_boundary(encode_utf8(s), o),
    ensures
        0 <= k <= s.len(),
        byte_offset(s, k) == o,
{
    broadcast use encode_utf8_valid_utf8;

    lemma_offset_ends(s);
    if o == encode_utf8(s).len() {
        s.len() as int
    } else {
        is_char_boundary_iff_not_is_continuation_byte(encode_utf8(s), o);
        lemma_leading_byte_offset(s, o)
    }
}

/// Two texts with the same encoding are the same text.
pub proof fn lemma_encode_injective(a: Seq<char>, b: Seq<char>)
    requires
        encode_utf8(a) == encode_utf8(b),
    ensures
        a == b,
{
    encode_utf8_decode_utf8(a);
    encode_utf8_decode_utf8(b);
}

/// Offsets in the rest of a text after its first `k` characters.
pub proof fn lemma_offset_in_rest(s: Seq<char>, k: int, m: int)
    requires
        0 <= k,
        0 <= m,
        k + m <= s.len(),
    ensures
        byte_offset(s.skip(k), m) == byte_offset(s, k + m) - byte_offset(s, k),
{
    lemma_encode_subrange(s, k, k + m);
    assert(s.skip(k).take(m) =~= s.subrange(k, k + m));
}

/// The first character of a text, if it has one.
pub fn first_char(s: &str) -> (r: Option<char>)
    ensures
        r == (if s@.len() == 0 {
            None
        } else {
            Some(s@[0])
        }),
{
    broadcast use vstd::string::group_string_axioms;

    let mut chars = s.chars();
    chars.next()
}

/// Splits a text at the byte offset `mid`, which is the offset of the
/// character of index `m`.
pub(crate) fn split_at_char<'a>(s: &'a str, mid: usize, Ghost(m): Ghost<int>) -> (r: (
    &'a str,
    &'a str,
))
    requires
        0 <= m <= s@.len(),
        mid == byte_offset(s@, m),
    ensures
        r.0@ == s@.take(m),
        r.1@ == s@.skip(m),
{
    proof {
        lemma_offset_is_boundary(s@, m);
        lemma_offset_split(s@, m);
    }
    let r = s.split_at(mid);
    proof {
        let bytes = encode_utf8(s@);
        assert(bytes.subrange(0, mid as int) =~= bytes.take(mid as int));
        assert(bytes.subrange(mid as int, bytes.len() as int) =~= bytes.skip(mid as int));
        lemma_encode_injective(r.0@, s@.take(m));
        lemma_encode_injective(r.1@, s@.skip(m));
    }
    r
}

/// The last character of a text, if it has one.
pub fn last_char(s: &str) -> (r: Option<char>)
    ensures
        r == (if s@.len() == 0 {
            None
        } else {
            Some(s@.last())
        }),
{
    broadcast use encode_utf8_valid_utf8;

    let n = s.as_bytes().len();
    if n == 0 {
        proof {
            lemma_encode_len(s@);
        }
        return None;
    }
    let mut i: usize = n - 1;
    while !s.is_char_boundary(i)
        invariant
            0 <= i < n,
            n == encode_utf8(s@).len(),
            valid_utf8(encode_utf8(s@)),
            forall|j: int| i < j < n ==> !is_char_boundary(encode_utf8(s@), j),
        decreases i,
    {
        i = i - 1;
    }
    let ghost k = lemma_boundary_is_offset(s@, i as int);
    proof {
        let len = s@.len() as int;
        lemma_offset_ends(s@);
        lemma_encode_subrange(s@, k, len);
        if k < len - 1 {
            lemma_encode_subrange(s@, k, len - 1);
            lemma_encode_subrange(s@, len - 1, len);
            lemma_offset_is_boundary(s@, len - 1);
        }
        assert(k == len - 1);
        assert(s@.skip(k) =~= seq![s@.last()]);
    }
    let parts = split_at_char(s, i, Ghost(k));
    first_char(parts.1)
}

} // verus!
