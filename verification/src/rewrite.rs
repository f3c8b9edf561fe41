//! Rewriting a text: every occurrence of a pattern, taken from left to
//! right and the longest where several start at one place, gives way to
//! its replacement; the text between the occurrences stays as it is.

use crate::alphabet::is_uppercase_char;
use crate::encoding::{
    byte_offset, first_char, last_char, lemma_encode_subrange, lemma_offset_ends,
    lemma_offset_in_rest, split_at_char,
};
use crate::search::{
    find_spans, gap_start, leftmost_longest, lemma_gap_no_match, lemma_longest_among,
    lemma_span_match, match_len,
};
use crate::shape::{replacement, replacement_text};
use crate::table::{folds_case, lemma_patterns_not_empty, patterns_of, Direction, Table};
use vstd::prelude::*;
use vstd::string::StringExecFns;
use vstd::utf8::encode_utf8;

verus! {

/// The text written so far ends in an uppercase letter.
pub open spec fn ends_in_capital(written: Seq<char>) -> bool {
    written.len() > 0 && is_uppercase_char(written.last())
}

/// The rest of the text starts with an uppercase letter.
pub open spec fn starts_with_capital(rest: Seq<char>) -> bool {
    rest.len() > 0 && is_uppercase_char(rest[0])
}

/// The text that results when `written` has been written for the first `k`
/// characters of `s` and the rest of `s` is rewritten. At each character
/// the longest pattern that stands there is replaced; where none does, the
/// character is copied.
pub open spec fn rewrite_from(
    direction: Direction,
    s: Seq<char>,
    k: int,
    written: Seq<char>,
) -> Seq<char>
    decreases s.len() - k,
    via rewrite_from_ends
{
    if k < 0 || k >= s.len() {
        written
    } else {
        let n = match_len(patterns_of(direction), folds_case(direction), s, k);
        if n > 0 {
            rewrite_from(
                direction,
                s,
                k + n,
                written + replacement_text(
                    direction,
                    s.subrange(k, k + n),
                    ends_in_capital(written),
                    starts_with_capital(s.skip(k + n)),
                ),
            )
        } else {
            rewrite_from(direction, s, k + 1, written.push(s[k]))
        }
    }
}

/// A pattern that stands in the text ends within it, so rewriting ends.
#[via_fn]
proof fn rewrite_from_ends(direction: Direction, s: Seq<char>, k: int, written: Seq<char>) {
    let pats = patterns_of(direction);
    lemma_longest_among(pats, folds_case(direction), s, k, pats.len() as int);
}

/// The text `s` rewritten in a direction.
pub open spec fn rewritten(direction: Direction, s: Seq<char>) -> Seq<char> {
    rewrite_from(direction, s, 0, Seq::empty())
}

/// A stretch of the text in which no pattern stands is copied.
pub proof fn lemma_copy_unmatched(
    direction: Direction,
    s: Seq<char>,
    k: int,
    upto: int,
    written: Seq<char>,
)
    requires
        0 <= k <= upto <= s.len(),
        forall|j: int|
            k <= j < upto ==> match_len(patterns_of(direction), folds_case(direction), s, j) == 0,
    ensures
        rewrite_from(direction, s, k, written) == rewrite_from(
            direction,
            s,
            upto,
            written + s.subrange(k, upto),
        ),
    decreases upto - k,
{
    if k == upto {
        assert(written + s.subrange(k, upto) =~= written);
    } else {
        lemma_copy_unmatched(direction, s, k + 1, upto, written.push(s[k]));
        assert(written.push(s[k]) + s.subrange(k + 1, upto) =~= written + s.subrange(k, upto));
    }
}

/// Rewrites a text with the table of a direction.
pub fn replace_all(text: &str, table: &Table) -> (r: String)
    ensures
        r@ == rewritten(table.spec_direction(), text@),
{
    let direction = table.direction();
    let ghost pats = patterns_of(direction);
    let ghost fold = folds_case(direction);
    proof {
        lemma_patterns_not_empty(direction);
    }
    let spans = find_spans(table.patterns(), table.fold_case(), text);
    let mut written = String::new();
    let mut rest: &str = text;
    let mut last: usize = 0;
    let mut after_capital = false;
    let ghost mut k: int = 0;
    let mut i: usize = 0;
    proof {
        lemma_offset_ends(text@);
        assert(text@.skip(0) =~= text@);
    }
    while i < spans.len()
        invariant
            0 <= i <= spans.len(),
            pats == patterns_of(direction),
            fold == folds_case(direction),
            forall|p: int| 0 <= p < pats.len() ==> (#[trigger] pats[p]).len() > 0,
            leftmost_longest(pats, fold, encode_utf8(text@), spans@),
            last == gap_start(spans@, i as int),
            0 <= k <= text@.len(),
            byte_offset(text@, k) == last,
            rest@ == text@.skip(k),
            after_capital == ends_in_capital(written@),
            rewritten(direction, text@) == rewrite_from(direction, text@, k, written@),
        decreases spans.len() - i,
    {
        let span = spans[i];
        let ghost found_at = lemma_span_match(pats, fold, text@, spans@, i as int, k);
        let ghost ks = found_at.0;
        let ghost n = found_at.1;
        proof {
            lemma_copy_unmatched(direction, text@, k, ks, written@);
            lemma_offset_in_rest(text@, k, ks - k);
            lemma_offset_in_rest(text@, ks, n);
            assert(text@.skip(k).take(ks - k) =~= text@.subrange(k, ks));
            assert(text@.skip(k).skip(ks - k) =~= text@.skip(ks));
            assert(text@.skip(ks).take(n) =~= text@.subrange(ks, ks + n));
            assert(text@.skip(ks).skip(n) =~= text@.skip(ks + n));
        }
        let (gap, tail) = split_at_char(rest, span.start - last, Ghost(ks - k));
        let (found, after) = split_at_char(tail, span.end - span.start, Ghost(n));
        written.append(gap);
        match last_char(gap) {
            Some(c) => {
                after_capital = c.is_uppercase();
            },
            None => {},
        }
        let before_capital = match first_char(after) {
            Some(c) => c.is_uppercase(),
            None => false,
        };
        let piece = replacement(direction, found, after_capital, before_capital);
        written.append(piece);
        match last_char(piece) {
            Some(c) => {
                after_capital = c.is_uppercase();
            },
            None => {},
        }
        rest = after;
        last = span.end;
        i = i + 1;
        proof {
            k = ks + n;
        }
    }
    proof {
        let len = text@.len() as int;
        lemma_offset_ends(text@);
        assert forall|j: int| k <= j < len implies match_len(pats, fold, text@, j) == 0 by {
            lemma_encode_subrange(text@, k, j);
            lemma_encode_subrange(text@, j, len);
            lemma_gap_no_match(pats, fold, text@, spans@, spans@.len() as int, j);
        }
        lemma_copy_unmatched(direction, text@, k, len, written@);
        assert(text@.subrange(k, len) =~= text@.skip(k));
    }
    written.append(rest);
    written
}

} // verus!
