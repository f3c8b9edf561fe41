//! Multi-pattern search: where the patterns of a table occur in a text.
//!
//! The search itself is done on the bytes of the text by an Aho-Corasick
//! automaton. This module states what the search returns, and shows what
//! that means for the characters of the text.

use crate::encoding::{
    byte_offset, char_bytes, lemma_byte_in_char, lemma_char_bytes_injective,
    lemma_char_bytes_shape, lemma_encode_subrange, lemma_leading_byte_offset, lemma_locate,
    lemma_offset_ends, lemma_offset_step,
};
use aho_corasick::{AhoCorasickBuilder, MatchKind};
use vstd::prelude::*;
use vstd::string::StringSliceAdditionalSpecFns;
use vstd::utf8::{encode_utf8, is_continuation_byte};

verus! {

/// A stretch of a text, by the byte offsets of its start and of its end.
#[derive(Clone, Copy, Debug)]
pub struct Span {
    /// The offset of the first byte of the stretch.
    pub start: usize,
    /// The offset of the first byte after the stretch.
    pub end: usize,
}

/// An ASCII capital letter becomes its small letter; any other byte stays.
pub open spec fn fold_byte(b: u8) -> u8 {
    if 0x41 <= b && b <= 0x5a {
        (b + 0x20) as u8
    } else {
        b
    }
}

/// Whether a byte of the text is taken for a byte of a pattern.
pub open spec fn bytes_agree(fold: bool, a: u8, b: u8) -> bool {
    if fold {
        fold_byte(a) == fold_byte(b)
    } else {
        a == b
    }
}

/// The bytes `pat` stand in `hay` at offset `at`.
pub open spec fn occurs_at(hay: Seq<u8>, pat: Seq<u8>, fold: bool, at: int) -> bool {
    &&& 0 <= at
    &&& at + pat.len() <= hay.len()
    &&& forall|j: int| 0 <= j < pat.len() ==> bytes_agree(fold, hay[at + j], #[trigger] pat[j])
}

/// One of the patterns, `len` bytes long when encoded, stands in `hay` at
/// offset `at`.
pub open spec fn pattern_occurs(
    pats: Seq<Seq<char>>,
    fold: bool,
    hay: Seq<u8>,
    at: int,
    len: int,
) -> bool {
    exists|p: int|
        0 <= p < pats.len() && encode_utf8(#[trigger] pats[p]).len() == len && occurs_at(
            hay,
            encode_utf8(pats[p]),
            fold,
            at,
        )
}

/// Where the stretch of text before the span of index `i` starts; for
/// `i == spans.len()`, where the stretch after the last span starts.
pub open spec fn gap_start(spans: Seq<Span>, i: int) -> int {
    if i == 0 {
        0
    } else {
        spans[i - 1].end as int
    }
}

/// Where the stretch of text before the span of index `i` ends.
pub open spec fn gap_end(spans: Seq<Span>, hay_len: int, i: int) -> int {
    if i == spans.len() {
        hay_len
    } else {
        spans[i].start as int
    }
}

/// The spans are the leftmost-longest occurrences of the patterns, none
/// overlapping another: each span holds an occurrence, no longer pattern
/// occurs at its start, and no pattern occurs at any offset between two
/// spans, before the first or after the last.
#[verifier::opaque]
pub open spec fn leftmost_longest(
    pats: Seq<Seq<char>>,
    fold: bool,
    hay: Seq<u8>,
    spans: Seq<Span>,
) -> bool {
    &&& forall|i: int|
        0 <= i < spans.len() ==> {
            &&& gap_start(spans, i) <= (#[trigger] spans[i]).start < spans[i].end <= hay.len()
            &&& pattern_occurs(
                pats,
                fold,
                hay,
                spans[i].start as int,
                spans[i].end - spans[i].start,
            )
        }
    &&& forall|i: int, n: int|
        0 <= i < spans.len() && n > spans[i].end - spans[i].start ==> !#[trigger] pattern_occurs(
            pats,
            fold,
            hay,
            spans[i].start as int,
            n,
        )
    &&& forall|i: int, at: int, n: int|
        0 <= i <= spans.len() && #[trigger] gap_start(spans, i) <= at < gap_end(
            spans,
            hay.len() as int,
            i,
        ) ==> !#[trigger] pattern_occurs(pats, fold, hay, at, n)
}

/// The texts of the patterns.
pub open spec fn pattern_texts(patterns: Seq<&'static str>) -> Seq<Seq<char>> {
    Seq::new(patterns.len(), |i: int| patterns[i]@)
}

/// Searches `haystack` for the patterns with an automaton of the crate
/// `aho_corasick`: `AhoCorasickBuilder::build` with the match kind
/// `LeftmostLongest` and ASCII case insensitivity as `fold_case` says, then
/// `AhoCorasick::find_iter`, of which each match's `start()` and `end()` are
/// handed out in the order found.
///
/// Believed of that crate, not proved: on patterns of which none is empty,
/// the matches are the leftmost-longest occurrences of the patterns' bytes in
/// the bytes of the haystack, none overlapping another, from left to right
/// (`leftmost_longest`).
#[verifier::external_body]
pub(crate) fn find_spans(patterns: &Vec<&'static str>, fold_case: bool, haystack: &str) -> (spans:
    Vec<Span>)
    requires
        forall|p: int|
            0 <= p < pattern_texts(patterns@).len() ==> (#[trigger] pattern_texts(
                patterns@,
            )[p]).len() > 0,
    ensures
        leftmost_longest(pattern_texts(patterns@), fold_case, haystack.spec_bytes(), spans@),
{
    let automaton = AhoCorasickBuilder::new()
        .ascii_case_insensitive(fold_case)
        .match_kind(MatchKind::LeftmostLongest)
        .build(patterns);
    automaton.find_iter(haystack).map(|m| Span { start: m.start(), end: m.end() }).collect()
}

/// An ASCII capital letter becomes its small letter; any other character
/// stays.
pub open spec fn fold_char(c: char) -> char {
    if 'A' <= c && c <= 'Z' {
        ((c as u8) + 0x20) as char
    } else {
        c
    }
}

/// Whether a character of the text is taken for a character of a pattern.
pub open spec fn chars_agree(fold: bool, a: char, b: char) -> bool {
    if fold {
        fold_char(a) == fold_char(b)
    } else {
        a == b
    }
}

/// The pattern `pat` stands in the text `s` at the character index `k`.
pub open spec fn text_occurs_at(s: Seq<char>, pat: Seq<char>, fold: bool, k: int) -> bool {
    &&& 0 <= k
    &&& k + pat.len() <= s.len()
    &&& forall|j: int| 0 <= j < pat.len() ==> chars_agree(fold, s[k + j], #[trigger] pat[j])
}

/// The length in characters of the longest of the first `upto` patterns
/// that stand in `s` at index `k`; 0 if none does.
pub open spec fn longest_among(
    pats: Seq<Seq<char>>,
    fold: bool,
    s: Seq<char>,
    k: int,
    upto: int,
) -> int
    decreases upto,
{
    if upto <= 0 {
        0
    } else {
        let rest = longest_among(pats, fold, s, k, upto - 1);
        let p = pats[upto - 1];
        if text_occurs_at(s, p, fold, k) && p.len() > rest {
            p.len() as int
        } else {
            rest
        }
    }
}

/// The length in characters of the longest pattern that stands in `s` at
/// index `k`; 0 if none does.
pub open spec fn match_len(pats: Seq<Seq<char>>, fold: bool, s: Seq<char>, k: int) -> int {
    longest_among(pats, fold, s, k, pats.len() as int)
}

/// What `longest_among` returns is the length of a pattern that occurs, and
/// no pattern that occurs is longer.
pub proof fn lemma_longest_among(pats: Seq<Seq<char>>, fold: bool, s: Seq<char>, k: int, upto: int)
    requires
        0 <= upto <= pats.len(),
    ensures
        longest_among(pats, fold, s, k, upto) >= 0,
        longest_among(pats, fold, s, k, upto) > 0 ==> exists|p: int|
            0 <= p < upto && (#[trigger] pats[p]).len() == longest_among(pats, fold, s, k, upto)
                && text_occurs_at(s, pats[p], fold, k),
        forall|p: int|
            0 <= p < upto && text_occurs_at(s, #[trigger] pats[p], fold, k) ==> pats[p].len()
                <= longest_among(pats, fold, s, k, upto),
    decreases upto,
{
    if upto > 0 {
        lemma_longest_among(pats, fold, s, k, upto - 1);
        let rest = longest_among(pats, fold, s, k, upto - 1);
        let here = longest_among(pats, fold, s, k, upto);
        if here > 0 {
            if here == rest {
                let p = choose|p: int|
                    0 <= p < upto - 1 && (#[trigger] pats[p]).len() == rest && text_occurs_at(
                        s,
                        pats[p],
                        fold,
                        k,
                    );
                assert(0 <= p < upto && pats[p].len() == here && text_occurs_at(
                    s,
                    pats[p],
                    fold,
                    k,
                ));
            } else {
                let p = upto - 1;
                assert(0 <= p < upto && pats[p].len() == here && text_occurs_at(
                    s,
                    pats[p],
                    fold,
                    k,
                ));
            }
        }
    }
}

/// Folding leaves a byte in its class: a byte that is taken for a leading
/// byte is one, and one that is taken for a byte above the ASCII range is
/// that byte.
proof fn lemma_bytes_agree_class(fold: bool, a: u8, b: u8)
    requires
        bytes_agree(fold, a, b),
    ensures
        a <= 0x7f <==> b <= 0x7f,
        b > 0x7f ==> a == b,
        is_continuation_byte(a) <==> is_continuation_byte(b),
{
}

/// Characters that agree have encodings that agree byte by byte.
proof fn lemma_agree_chars_to_bytes(fold: bool, a: char, p: char)
    requires
        chars_agree(fold, a, p),
    ensures
        char_bytes(a).len() == char_bytes(p).len(),
        forall|j: int|
            0 <= j < char_bytes(p).len() ==> bytes_agree(
                fold,
                char_bytes(a)[j],
                #[trigger] char_bytes(p)[j],
            ),
{
    lemma_char_bytes_shape(a);
    lemma_char_bytes_shape(p);
    if a != p {
        assert('A' <= a <= 'Z' || 'A' <= p <= 'Z');
        assert(a as u32 <= 0x7f && p as u32 <= 0x7f);
        assert(fold_byte(a as u8) == fold_char(a) as u8);
        assert(fold_byte(p as u8) == fold_char(p) as u8);
    }
}

/// Encodings whose first bytes agree have the same length.
proof fn lemma_agree_first_byte(fold: bool, a: char, p: char)
    requires
        bytes_agree(fold, char_bytes(a)[0], char_bytes(p)[0]),
    ensures
        char_bytes(a).len() == char_bytes(p).len(),
{
    lemma_char_bytes_shape(a);
    lemma_char_bytes_shape(p);
    lemma_bytes_agree_class(fold, char_bytes(a)[0], char_bytes(p)[0]);
}

/// Characters whose encodings agree byte by byte agree.
proof fn lemma_agree_bytes_to_chars(fold: bool, a: char, p: char)
    requires
        char_bytes(a).len() == char_bytes(p).len(),
        forall|j: int|
            0 <= j < char_bytes(p).len() ==> bytes_agree(
                fold,
                char_bytes(a)[j],
                #[trigger] char_bytes(p)[j],
            ),
    ensures
        chars_agree(fold, a, p),
{
    lemma_char_bytes_shape(a);
    lemma_char_bytes_shape(p);
    let ea = char_bytes(a);
    let ep = char_bytes(p);
    assert(bytes_agree(fold, ea[0], ep[0]));
    if ep.len() == 1 {
        assert(a as u32 <= 0x7f && p as u32 <= 0x7f);
        assert(ea[0] == a as u8 && ep[0] == p as u8);
        assert(fold_byte(a as u8) == fold_char(a) as u8);
        assert(fold_byte(p as u8) == fold_char(p) as u8);
    } else {
        assert forall|j: int| 0 <= j < ep.len() implies ea[j] == ep[j] by {
            assert(bytes_agree(fold, ea[j], ep[j]));
            lemma_bytes_agree_class(fold, ea[j], ep[j]);
        }
        assert(ea =~= ep);
        lemma_char_bytes_injective(a, p);
    }
}

/// Where a pattern stands in a text, the offsets in the text run along
/// with the offsets in the pattern.
proof fn lemma_offsets_aligned(s: Seq<char>, pat: Seq<char>, fold: bool, k: int, m: int)
    requires
        text_occurs_at(s, pat, fold, k),
        0 <= m <= pat.len(),
    ensures
        byte_offset(s, k + m) == byte_offset(s, k) + byte_offset(pat, m),
    decreases m,
{
    if m == 0 {
        lemma_offset_ends(pat);
    } else {
        lemma_offsets_aligned(s, pat, fold, k, m - 1);
        lemma_offset_step(s, k + m - 1);
        lemma_offset_step(pat, m - 1);
        assert(chars_agree(fold, s[k + (m - 1)], pat[m - 1]));
        lemma_agree_chars_to_bytes(fold, s[k + m - 1], pat[m - 1]);
    }
}

/// A pattern that stands in a text at a character index stands, encoded, in
/// the encoded text at the offset of that character.
pub proof fn lemma_occurrence_to_bytes(s: Seq<char>, pat: Seq<char>, fold: bool, k: int)
    requires
        text_occurs_at(s, pat, fold, k),
    ensures
        occurs_at(encode_utf8(s), encode_utf8(pat), fold, byte_offset(s, k)),
        byte_offset(s, k + pat.len()) == byte_offset(s, k) + encode_utf8(pat).len(),
{
    let hay = encode_utf8(s);
    let pb = encode_utf8(pat);
    let at = byte_offset(s, k);
    lemma_offsets_aligned(s, pat, fold, k, pat.len() as int);
    lemma_offset_ends(pat);
    lemma_encode_subrange(s, k, k + pat.len());
    assert forall|j: int| 0 <= j < pb.len() implies bytes_agree(
        fold,
        hay[at + j],
        #[trigger] pb[j],
    ) by {
        let m = lemma_locate(pat, j);
        lemma_byte_in_char(pat, m, j);
        lemma_offsets_aligned(s, pat, fold, k, m);
        lemma_offsets_aligned(s, pat, fold, k, m + 1);
        lemma_byte_in_char(s, k + m, at + j);
        assert(chars_agree(fold, s[k + m], pat[m]));
        lemma_agree_chars_to_bytes(fold, s[k + m], pat[m]);
        lemma_offset_step(pat, m);
        let inner = j - byte_offset(pat, m);
        assert(bytes_agree(fold, char_bytes(s[k + m])[inner], char_bytes(pat[m])[inner]));
    }
}

/// Where an encoded pattern stands in an encoded text at the offset of a
/// character, the first `m` characters of the pattern stand in the text at
/// that character.
proof fn lemma_prefix_from_bytes(s: Seq<char>, pat: Seq<char>, fold: bool, k: int, m: int)
    requires
        0 <= k <= s.len(),
        0 <= m <= pat.len(),
        occurs_at(encode_utf8(s), encode_utf8(pat), fold, byte_offset(s, k)),
    ensures
        k + m <= s.len(),
        byte_offset(s, k + m) == byte_offset(s, k) + byte_offset(pat, m),
        forall|j: int| 0 <= j < m ==> chars_agree(fold, s[k + j], #[trigger] pat[j]),
    decreases m,
{
    if m == 0 {
        lemma_offset_ends(pat);
    } else {
        lemma_prefix_from_bytes(s, pat, fold, k, m - 1);
        let hay = encode_utf8(s);
        let pb = encode_utf8(pat);
        let at = byte_offset(s, k);
        let i = m - 1;
        let po = byte_offset(pat, i);
        lemma_offset_step(pat, i);
        lemma_offset_ends(s);
        lemma_char_bytes_shape(pat[i]);
        // the text has a character where the pattern's next character starts
        assert(at + po < hay.len());
        assert(k + i < s.len());
        lemma_offset_step(s, k + i);
        lemma_char_bytes_shape(s[k + i]);
        lemma_byte_in_char(pat, i, po);
        lemma_byte_in_char(s, k + i, at + po);
        assert(bytes_agree(fold, hay[at + po], pb[po]));
        lemma_agree_first_byte(fold, s[k + i], pat[i]);
        let ea = char_bytes(s[k + i]);
        let ep = char_bytes(pat[i]);
        assert forall|j: int| 0 <= j < ep.len() implies bytes_agree(
            fold,
            ea[j],
            #[trigger] ep[j],
        ) by {
            lemma_byte_in_char(pat, i, po + j);
            lemma_byte_in_char(s, k + i, at + po + j);
            assert(bytes_agree(fold, hay[at + (po + j)], pb[po + j]));
        }
        lemma_agree_bytes_to_chars(fold, s[k + i], pat[i]);
    }
}

/// An encoded pattern that stands in an encoded text stands there at the
/// offset of a character, and the pattern stands in the text at that
/// character.
pub proof fn lemma_occurrence_from_bytes(s: Seq<char>, pat: Seq<char>, fold: bool, at: int) -> (k:
    int)
    requires
        pat.len() > 0,
        occurs_at(encode_utf8(s), encode_utf8(pat), fold, at),
    ensures
        byte_offset(s, k) == at,
        text_occurs_at(s, pat, fold, k),
        byte_offset(s, k + pat.len()) == at + encode_utf8(pat).len(),
{
    let hay = encode_utf8(s);
    let pb = encode_utf8(pat);
    lemma_offset_step(pat, 0);
    lemma_offset_ends(pat);
    lemma_byte_in_char(pat, 0, 0);
    assert(bytes_agree(fold, hay[at + 0], pb[0]));
    lemma_bytes_agree_class(fold, hay[at], pb[0]);
    let k = lemma_leading_byte_offset(s, at);
    lemma_prefix_from_bytes(s, pat, fold, k, pat.len() as int);
    k
}

/// No pattern stands in the text at a character whose offset lies between
/// two spans, before the first or after the last.
pub proof fn lemma_gap_no_match(
    pats: Seq<Seq<char>>,
    fold: bool,
    s: Seq<char>,
    spans: Seq<Span>,
    i: int,
    j: int,
)
    requires
        leftmost_longest(pats, fold, encode_utf8(s), spans),
        0 <= i <= spans.len(),
        0 <= j < s.len(),
        gap_start(spans, i) <= byte_offset(s, j) < gap_end(spans, encode_utf8(s).len() as int, i),
    ensures
        match_len(pats, fold, s, j) == 0,
{
    reveal(leftmost_longest);
    let hay = encode_utf8(s);
    lemma_longest_among(pats, fold, s, j, pats.len() as int);
    if match_len(pats, fold, s, j) > 0 {
        let q = choose|q: int|
            0 <= q < pats.len() && (#[trigger] pats[q]).len() == match_len(pats, fold, s, j)
                && text_occurs_at(s, pats[q], fold, j);
        lemma_occurrence_to_bytes(s, pats[q], fold, j);
        assert(pattern_occurs(
            pats,
            fold,
            hay,
            byte_offset(s, j),
            encode_utf8(pats[q]).len() as int,
        ));
    }
}

/// What a span means for the characters of the text. Let `k` be the
/// character at whose offset the stretch before the span of index `i`
/// starts. Then the span starts at the offset of a character `r.0` and ends
/// at the offset of the character `r.0 + r.1`, no pattern stands in the text
/// at a character from `k` up to `r.0`, and the longest pattern that stands
/// at `r.0` is `r.1` characters long.
pub proof fn lemma_span_match(
    pats: Seq<Seq<char>>,
    fold: bool,
    s: Seq<char>,
    spans: Seq<Span>,
    i: int,
    k: int,
) -> (r: (int, int))
    requires
        forall|p: int| 0 <= p < pats.len() ==> (#[trigger] pats[p]).len() > 0,
        leftmost_longest(pats, fold, encode_utf8(s), spans),
        0 <= i < spans.len(),
        0 <= k <= s.len(),
        byte_offset(s, k) == gap_start(spans, i),
    ensures
        k <= r.0,
        0 < r.1,
        r.0 + r.1 <= s.len(),
        gap_start(spans, i) <= spans[i].start < spans[i].end,
        byte_offset(s, r.0) == spans[i].start,
        byte_offset(s, r.0 + r.1) == spans[i].end,
        forall|j: int| k <= j < r.0 ==> match_len(pats, fold, s, j) == 0,
        match_len(pats, fold, s, r.0) == r.1,
{
    reveal(leftmost_longest);
    let hay = encode_utf8(s);
    let st = spans[i].start as int;
    let en = spans[i].end as int;
    assert(pattern_occurs(pats, fold, hay, st, en - st));
    let p = choose|p: int|
        0 <= p < pats.len() && encode_utf8(#[trigger] pats[p]).len() == en - st && occurs_at(
            hay,
            encode_utf8(pats[p]),
            fold,
            st,
        );
    let ks = lemma_occurrence_from_bytes(s, pats[p], fold, st);
    let n = pats[p].len() as int;
    if ks < k {
        lemma_encode_subrange(s, ks, k);
    }
    assert forall|j: int| k <= j < ks implies match_len(pats, fold, s, j) == 0 by {
        lemma_encode_subrange(s, k, j);
        lemma_encode_subrange(s, j, ks);
        lemma_gap_no_match(pats, fold, s, spans, i, j);
    }
    lemma_longest_among(pats, fold, s, ks, pats.len() as int);
    let m = match_len(pats, fold, s, ks);
    assert(m >= n);
    if m > n {
        let q = choose|q: int|
            0 <= q < pats.len() && (#[trigger] pats[q]).len() == m && text_occurs_at(
                s,
                pats[q],
                fold,
                ks,
            );
        lemma_occurrence_to_bytes(s, pats[q], fold, ks);
        lemma_encode_subrange(s, ks + n, ks + m);
        assert(pattern_occurs(pats, fold, hay, st, encode_utf8(pats[q]).len() as int));
    }
    (ks, n)
}

} // verus!
