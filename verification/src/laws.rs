//! What holds of the conversions for every text.

use crate::alphabet::{is_base, is_diacritic, lemma_base_and_case};
use crate::convert::{convert_result, converted, notation_named, ConvertError, Notation};
use crate::rewrite::{
    ends_in_capital, lemma_copy_unmatched, rewrite_from, rewritten, starts_with_capital,
};
use crate::search::{chars_agree, fold_char, lemma_longest_among, match_len, text_occurs_at};
use crate::shape::{
    digraph_letter, from_x_form, h_form, is_au, is_h_digraph, is_x_digraph, x_form,
};
use crate::table::{
    diacritic_patterns, folds_case, h_patterns, patterns_of, x_patterns, Direction,
};
use vstd::prelude::*;

verus! {

/// The text holds a letter with a diacritic.
pub open spec fn has_diacritic(s: Seq<char>) -> bool {
    exists|i: int| 0 <= i < s.len() && is_diacritic(#[trigger] s[i])
}

/// The text holds an x-system digraph, in any case.
pub open spec fn has_x_digraph(s: Seq<char>) -> bool {
    exists|i: int| 0 <= i < s.len() - 1 && is_x_digraph(#[trigger] s[i], s[i + 1])
}

/// A pattern of the native orthography stands at a character exactly where
/// the character is a letter with a diacritic.
pub proof fn lemma_diacritic_match(s: Seq<char>, k: int)
    ensures
        match_len(diacritic_patterns(), false, s, k) == (if 0 <= k < s.len() && is_diacritic(
            s[k],
        ) {
            1int
        } else {
            0int
        }),
{
    reveal_strlit("ĉ");
    reveal_strlit("ĝ");
    reveal_strlit("ĥ");
    reveal_strlit("ĵ");
    reveal_strlit("ŝ");
    reveal_strlit("ŭ");
    reveal_strlit("Ĉ");
    reveal_strlit("Ĝ");
    reveal_strlit("Ĥ");
    reveal_strlit("Ĵ");
    reveal_strlit("Ŝ");
    reveal_strlit("Ŭ");
    let pats = diacritic_patterns();
    let m = match_len(pats, false, s, k);
    lemma_longest_among(pats, false, s, k, pats.len() as int);
    assert forall|p: int| 0 <= p < pats.len() implies (#[trigger] pats[p]).len() == 1
        && is_diacritic(pats[p][0]) by {}
    if m > 0 {
        let p = choose|p: int|
            0 <= p < pats.len() && (#[trigger] pats[p]).len() == m && text_occurs_at(
                s,
                pats[p],
                false,
                k,
            );
        assert(chars_agree(false, s[k + 0], pats[p][0]));
    }
    if 0 <= k < s.len() && is_diacritic(s[k]) {
        let c = s[k];
        let p: int = if c == 'ĉ' {
            0
        } else if c == 'ĝ' {
            1
        } else if c == 'ĥ' {
            2
        } else if c == 'ĵ' {
            3
        } else if c == 'ŝ' {
            4
        } else if c == 'ŭ' {
            5
        } else if c == 'Ĉ' {
            6
        } else if c == 'Ĝ' {
            7
        } else if c == 'Ĥ' {
            8
        } else if c == 'Ĵ' {
            9
        } else if c == 'Ŝ' {
            10
        } else {
            11
        };
        assert(pats[p].len() == 1 && pats[p][0] == c);
        assert(text_occurs_at(s, pats[p], false, k));
    }
}

/// A pattern of the x-system stands at a character exactly where that
/// character and the next are an x-system digraph.
pub proof fn lemma_x_digraph_match(s: Seq<char>, k: int)
    ensures
        match_len(x_patterns(), true, s, k) == (if 0 <= k && k + 2 <= s.len() && is_x_digraph(
            s[k],
            s[k + 1],
        ) {
            2int
        } else {
            0int
        }),
{
    reveal_strlit("cx");
    reveal_strlit("gx");
    reveal_strlit("hx");
    reveal_strlit("jx");
    reveal_strlit("sx");
    reveal_strlit("ux");
    let pats = x_patterns();
    let m = match_len(pats, true, s, k);
    lemma_longest_among(pats, true, s, k, pats.len() as int);
    assert forall|p: int| 0 <= p < pats.len() implies (#[trigger] pats[p]).len() == 2 && is_base(
        pats[p][0],
    ) && pats[p][1] == 'x' by {}
    if m > 0 {
        let p = choose|p: int|
            0 <= p < pats.len() && (#[trigger] pats[p]).len() == m && text_occurs_at(
                s,
                pats[p],
                true,
                k,
            );
        assert(chars_agree(true, s[k + 0], pats[p][0]));
        assert(chars_agree(true, s[k + 1], pats[p][1]));
    }
    if 0 <= k && k + 2 <= s.len() && is_x_digraph(s[k], s[k + 1]) {
        let b = fold_char(s[k]);
        let p: int = if b == 'c' {
            0
        } else if b == 'g' {
            1
        } else if b == 'h' {
            2
        } else if b == 'j' {
            3
        } else if b == 's' {
            4
        } else {
            5
        };
        assert(pats[p].len() == 2 && pats[p][0] == b && pats[p][1] == 'x');
        assert(text_occurs_at(s, pats[p], true, k));
    }
}

/// What the conversion to the x-system does at one character: a letter with
/// a diacritic gives way to its digraph, cased by what was written before it
/// and by the character after it; any other character is copied.
pub proof fn lemma_to_x_system_step(s: Seq<char>, k: int, written: Seq<char>)
    requires
        0 <= k < s.len(),
    ensures
        rewrite_from(Direction::Utf8ToX, s, k, written) == rewrite_from(
            Direction::Utf8ToX,
            s,
            k + 1,
            if is_diacritic(s[k]) {
                written + x_form(
                    s[k],
                    ends_in_capital(written) || starts_with_capital(s.skip(k + 1)),
                )
            } else {
                written.push(s[k])
            },
        ),
{
    lemma_diacritic_match(s, k);
    assert(s.subrange(k, k + 1) =~= seq![s[k]]);
}

/// What the conversion to the h-system does at one character: a letter with
/// a diacritic gives way to its h-system form; any other character is
/// copied.
pub proof fn lemma_to_h_system_step(s: Seq<char>, k: int, written: Seq<char>)
    requires
        0 <= k < s.len(),
    ensures
        rewrite_from(Direction::Utf8ToH, s, k, written) == rewrite_from(
            Direction::Utf8ToH,
            s,
            k + 1,
            if is_diacritic(s[k]) {
                written + h_form(
                    s[k],
                    ends_in_capital(written) || starts_with_capital(s.skip(k + 1)),
                )
            } else {
                written.push(s[k])
            },
        ),
{
    lemma_diacritic_match(s, k);
    assert(s.subrange(k, k + 1) =~= seq![s[k]]);
}

/// What the conversion from the x-system does at one character: where the
/// character and the next are a digraph, the two give way to the letter of
/// the digraph; else the character is copied.
pub proof fn lemma_from_x_system_step(s: Seq<char>, k: int, written: Seq<char>)
    requires
        0 <= k < s.len(),
    ensures
        rewrite_from(Direction::XToUtf8, s, k, written) == (if k + 2 <= s.len() && is_x_digraph(
            s[k],
            s[k + 1],
        ) {
            rewrite_from(
                Direction::XToUtf8,
                s,
                k + 2,
                written.push(digraph_letter(s[k], s[k + 1])),
            )
        } else {
            rewrite_from(Direction::XToUtf8, s, k + 1, written.push(s[k]))
        }),
{
    lemma_x_digraph_match(s, k);
    if k + 2 <= s.len() && is_x_digraph(s[k], s[k + 1]) {
        let found = s.subrange(k, k + 2);
        assert(found.len() == 2 && found[0] == s[k] && found[1] == s[k + 1]);
        assert(written + from_x_form(found) =~= written.push(digraph_letter(s[k], s[k + 1])));
    }
}

/// A text in which none of the patterns of a direction stands is not
/// changed in that direction; so the empty text stays empty.
pub proof fn lemma_no_match_unchanged(direction: Direction, s: Seq<char>)
    requires
        forall|k: int|
            0 <= k < s.len() ==> match_len(patterns_of(direction), folds_case(direction), s, k)
                == 0,
    ensures
        rewritten(direction, s) == s,
{
    let len = s.len() as int;
    lemma_copy_unmatched(direction, s, 0, len, Seq::empty());
    assert(Seq::<char>::empty() + s.subrange(0, len) =~= s);
}

/// A text without a letter with a diacritic and without an x-system digraph
/// is the same in the native orthography and in the x-system: neither
/// conversion changes it.
pub proof fn lemma_plain_text_unchanged(s: Seq<char>)
    requires
        !has_diacritic(s),
        !has_x_digraph(s),
    ensures
        rewritten(Direction::Utf8ToX, s) == s,
        rewritten(Direction::XToUtf8, s) == s,
{
    assert forall|k: int| 0 <= k < s.len() implies match_len(diacritic_patterns(), false, s, k)
        == 0 by {
        lemma_diacritic_match(s, k);
        assert(!is_diacritic(s[k]));
    }
    assert forall|k: int| 0 <= k < s.len() implies match_len(x_patterns(), true, s, k) == 0 by {
        lemma_x_digraph_match(s, k);
        if k < s.len() - 1 {
            assert(!is_x_digraph(s[k], s[k + 1]));
        }
    }
    lemma_no_match_unchanged(Direction::Utf8ToX, s);
    lemma_no_match_unchanged(Direction::XToUtf8, s);
}

/// Two characters that mark a diacritic in the h-system: a digraph, or
/// "au", in any case.
pub open spec fn is_h_mark(a: char, b: char) -> bool {
    is_h_digraph(a, b) || is_au(a, b)
}

/// The text holds an h-system digraph or "au", in any case.
pub open spec fn has_h_mark(s: Seq<char>) -> bool {
    exists|i: int| 0 <= i < s.len() - 1 && is_h_mark(#[trigger] s[i], s[i + 1])
}

/// For each pattern of the h-system, in the order of the table, where in it
/// a digraph or "au" stands.
spec fn h_pattern_marks() -> Seq<int> {
    seq![
        5int, 4int, 5int, 6int, 3int, 3int, 3int, 3int, 3int,
        5int, 3int, 2int, 3int, 4int, 2int, 1int, 2int, 2int,
        2int, 2int, 3int, 3int, 3int, 5int, 2int, 2int, 2int,
        2int, 7int, 3int, 3int, 2int, 2int, 5int, 5int, 5int,
        3int, 5int, 8int, 3int, 8int, 6int, 1int, 2int, 1int,
        2int, 2int, 3int, 0int, 0int, 0int, 0int, 0int, 0int,
    ]
}

/// The pattern holds a digraph or "au" at the index `at`.
spec fn holds_mark_at(pattern: Seq<char>, at: int) -> bool {
    &&& 0 <= at
    &&& at + 2 <= pattern.len()
    &&& is_h_mark(pattern[at], pattern[at + 1])
}

/// Every pattern of the h-system holds a digraph or "au": the fragments of
/// words are in the table only because of the one they hold.
proof fn lemma_h_patterns_hold_marks()
    ensures
        h_pattern_marks().len() == h_patterns().len(),
        forall|p: int|
            0 <= p < h_patterns().len() ==> holds_mark_at(
                #[trigger] h_patterns()[p],
                h_pattern_marks()[p],
            ),
{
    reveal_strlit("komenchor");
    reveal_strlit("kuracherb");
    reveal_strlit("potenchav");
    reveal_strlit("prononchelp");
    reveal_strlit("senchav");
    reveal_strlit("pruchelp");
    reveal_strlit("drogherb");
    reveal_strlit("flughaven");
    reveal_strlit("longhar");
    reveal_strlit("lesvigholstini");
    reveal_strlit("vanghar");
    reveal_strlit("gajhumor");
    reveal_strlit("amashisteri");
    reveal_strlit("tobushaltej");
    reveal_strlit("bushaltej");
    reveal_strlit("ashund");
    reveal_strlit("dishak");
    reveal_strlit("disharmoni");
    reveal_strlit("dishelig");
    reveal_strlit("dishirtig");
    reveal_strlit("fikshejm");
    reveal_strlit("grashav");
    reveal_strlit("grashepata");
    reveal_strlit("invershav");
    reveal_strlit("kashal");
    reveal_strlit("misharmoni");
    reveal_strlit("mishelp");
    reveal_strlit("mishumor");
    reveal_strlit("neinvershav");
    reveal_strlit("plushor");
    reveal_strlit("sekshontem");
    reveal_strlit("seshektar");
    reveal_strlit("seshor");
    reveal_strlit("sukceshav");
    reveal_strlit("blankaurs");
    reveal_strlit("doganauni");
    reveal_strlit("ropauni");
    reveal_strlit("grandaursin");
    reveal_strlit("imaginaraunu");
    reveal_strlit("kakauj");
    reveal_strlit("malgrandaursin");
    reveal_strlit("matricaunu");
    reveal_strlit("naur");
    reveal_strlit("praul");
    reveal_strlit("saudaarabuj");
    reveal_strlit("tiaul");
    reveal_strlit("traurb");
    reveal_strlit("unuaul");
    reveal_strlit("ch");
    reveal_strlit("gh");
    reveal_strlit("hh");
    reveal_strlit("jh");
    reveal_strlit("sh");
    reveal_strlit("au");
    let pats = h_patterns();
    let marks = h_pattern_marks();
    assert(holds_mark_at(pats[0], marks[0]));
    assert(holds_mark_at(pats[1], marks[1]));
    assert(holds_mark_at(pats[2], marks[2]));
    assert(holds_mark_at(pats[3], marks[3]));
    assert(holds_mark_at(pats[4], marks[4]));
    assert(holds_mark_at(pats[5], marks[5]));
    assert(holds_mark_at(pats[6], marks[6]));
    assert(holds_mark_at(pats[7], marks[7]));
    assert(holds_mark_at(pats[8], marks[8]));
    assert(holds_mark_at(pats[9], marks[9]));
    assert(holds_mark_at(pats[10], marks[10]));
    assert(holds_mark_at(pats[11], marks[11]));
    assert(holds_mark_at(pats[12], marks[12]));
    assert(holds_mark_at(pats[13], marks[13]));
    assert(holds_mark_at(pats[14], marks[14]));
    assert(holds_mark_at(pats[15], marks[15]));
    assert(holds_mark_at(pats[16], marks[16]));
    assert(holds_mark_at(pats[17], marks[17]));
    assert(holds_mark_at(pats[18], marks[18]));
    assert(holds_mark_at(pats[19], marks[19]));
    assert(holds_mark_at(pats[20], marks[20]));
    assert(holds_mark_at(pats[21], marks[21]));
    assert(holds_mark_at(pats[22], marks[22]));
    assert(holds_mark_at(pats[23], marks[23]));
    assert(holds_mark_at(pats[24], marks[24]));
    assert(holds_mark_at(pats[25], marks[25]));
    assert(holds_mark_at(pats[26], marks[26]));
    assert(holds_mark_at(pats[27], marks[27]));
    assert(holds_mark_at(pats[28], marks[28]));
    assert(holds_mark_at(pats[29], marks[29]));
    assert(holds_mark_at(pats[30], marks[30]));
    assert(holds_mark_at(pats[31], marks[31]));
    assert(holds_mark_at(pats[32], marks[32]));
    assert(holds_mark_at(pats[33], marks[33]));
    assert(holds_mark_at(pats[34], marks[34]));
    assert(holds_mark_at(pats[35], marks[35]));
    assert(holds_mark_at(pats[36], marks[36]));
    assert(holds_mark_at(pats[37], marks[37]));
    assert(holds_mark_at(pats[38], marks[38]));
    assert(holds_mark_at(pats[39], marks[39]));
    assert(holds_mark_at(pats[40], marks[40]));
    assert(holds_mark_at(pats[41], marks[41]));
    assert(holds_mark_at(pats[42], marks[42]));
    assert(holds_mark_at(pats[43], marks[43]));
    assert(holds_mark_at(pats[44], marks[44]));
    assert(holds_mark_at(pats[45], marks[45]));
    assert(holds_mark_at(pats[46], marks[46]));
    assert(holds_mark_at(pats[47], marks[47]));
    assert(holds_mark_at(pats[48], marks[48]));
    assert(holds_mark_at(pats[49], marks[49]));
    assert(holds_mark_at(pats[50], marks[50]));
    assert(holds_mark_at(pats[51], marks[51]));
    assert(holds_mark_at(pats[52], marks[52]));
    assert(holds_mark_at(pats[53], marks[53]));
}

/// Where a pattern of the h-system stands in a text, the text holds a
/// digraph or "au".
proof fn lemma_h_match_needs_mark(s: Seq<char>, k: int)
    requires
        match_len(h_patterns(), true, s, k) > 0,
    ensures
        has_h_mark(s),
{
    let pats = h_patterns();
    lemma_longest_among(pats, true, s, k, pats.len() as int);
    let p = choose|p: int|
        0 <= p < pats.len() && (#[trigger] pats[p]).len() == match_len(pats, true, s, k)
            && text_occurs_at(s, pats[p], true, k);
    lemma_h_patterns_hold_marks();
    let at = h_pattern_marks()[p];
    assert(holds_mark_at(pats[p], at));
    assert(chars_agree(true, s[k + at], pats[p][at]));
    assert(chars_agree(true, s[k + (at + 1)], pats[p][at + 1]));
    let i = k + at;
    assert(0 <= i < s.len() - 1 && is_h_mark(s[i], s[i + 1]));
}

/// A text without an h-system digraph and without "au" reads the same in
/// the h-system and in the native orthography: the conversion from the
/// h-system does not change it.
pub proof fn lemma_h_plain_text_unchanged(s: Seq<char>)
    requires
        !has_h_mark(s),
    ensures
        rewritten(Direction::HToUtf8, s) == s,
{
    assert forall|k: int| 0 <= k < s.len() implies match_len(h_patterns(), true, s, k) == 0 by {
        lemma_longest_among(h_patterns(), true, s, k, h_patterns().len() as int);
        if match_len(h_patterns(), true, s, k) > 0 {
            lemma_h_match_needs_mark(s, k);
        }
    }
    lemma_no_match_unchanged(Direction::HToUtf8, s);
}

/// Reading the x-system does not look at what was written before: the
/// text written is what was written so far, followed by what the rest of the
/// text gives.
proof fn lemma_x_written_apart(t: Seq<char>, k: int, written: Seq<char>)
    requires
        0 <= k <= t.len(),
    ensures
        rewrite_from(Direction::XToUtf8, t, k, written) == written + rewrite_from(
            Direction::XToUtf8,
            t,
            k,
            Seq::empty(),
        ),
    decreases t.len() - k,
{
    let none = Seq::<char>::empty();
    if k >= t.len() {
        assert(written + none =~= written);
    } else {
        lemma_from_x_system_step(t, k, written);
        lemma_from_x_system_step(t, k, none);
        let (next, c) = if k + 2 <= t.len() && is_x_digraph(t[k], t[k + 1]) {
            (k + 2, digraph_letter(t[k], t[k + 1]))
        } else {
            (k + 1, t[k])
        };
        lemma_x_written_apart(t, next, written.push(c));
        lemma_x_written_apart(t, next, none.push(c));
        let rest = rewrite_from(Direction::XToUtf8, t, next, none);
        assert(written.push(c) + rest =~= written + (none.push(c) + rest));
    }
}

/// Reading the end of an x-system text does not look at what stands before
/// it.
proof fn lemma_x_rest_alone(t: Seq<char>, u: Seq<char>, j: int, written: Seq<char>)
    requires
        0 <= j <= u.len(),
    ensures
        rewrite_from(Direction::XToUtf8, t + u, t.len() + j, written) == rewrite_from(
            Direction::XToUtf8,
            u,
            j,
            written,
        ),
    decreases u.len() - j,
{
    let both = t + u;
    let at = t.len() + j;
    if j < u.len() {
        lemma_from_x_system_step(both, at, written);
        lemma_from_x_system_step(u, j, written);
        assert(both[at] == u[j]);
        if j + 2 <= u.len() {
            assert(both[at + 1] == u[j + 1]);
        }
        if j + 2 <= u.len() && is_x_digraph(u[j], u[j + 1]) {
            lemma_x_rest_alone(t, u, j + 2, written.push(digraph_letter(u[j], u[j + 1])));
        } else {
            lemma_x_rest_alone(t, u, j + 1, written.push(u[j]));
        }
    }
}

/// Two x-system texts read one after the other give what the two give
/// together, unless the first ends and the second starts with the two
/// halves of a digraph.
proof fn lemma_x_append(t: Seq<char>, u: Seq<char>, k: int, written: Seq<char>)
    requires
        0 <= k <= t.len(),
        !(t.len() > 0 && u.len() > 0 && is_x_digraph(t.last(), u[0])),
    ensures
        rewrite_from(Direction::XToUtf8, t + u, k, written) == rewrite_from(
            Direction::XToUtf8,
            t,
            k,
            written,
        ) + rewritten(Direction::XToUtf8, u),
    decreases t.len() - k,
{
    let both = t + u;
    if k == t.len() {
        lemma_x_rest_alone(t, u, 0, written);
        lemma_x_written_apart(u, 0, written);
    } else {
        lemma_from_x_system_step(both, k, written);
        lemma_from_x_system_step(t, k, written);
        assert(both[k] == t[k]);
        if k + 2 <= t.len() {
            assert(both[k + 1] == t[k + 1]);
        } else if u.len() > 0 {
            assert(both[k + 1] == u[0]);
        }
        if k + 2 <= t.len() && is_x_digraph(t[k], t[k + 1]) {
            lemma_x_append(t, u, k + 2, written.push(digraph_letter(t[k], t[k + 1])));
        } else {
            lemma_x_append(t, u, k + 1, written.push(t[k]));
        }
    }
}

/// A single character is no digraph: read as x-system text it stays.
proof fn lemma_x_single(c: char)
    ensures
        rewritten(Direction::XToUtf8, seq![c]) == seq![c],
{
    let t = seq![c];
    let none = Seq::<char>::empty();
    lemma_from_x_system_step(t, 0, none);
    assert(none.push(c) =~= t);
}

/// The x-system digraph of a letter with a diacritic, in either of its case
/// shapes, is read back as that letter.
pub proof fn lemma_x_form_read_back(letter: char, among_capitals: bool)
    requires
        is_diacritic(letter),
    ensures
        rewritten(Direction::XToUtf8, x_form(letter, among_capitals)) == seq![letter],
{
    let t = x_form(letter, among_capitals);
    let none = Seq::<char>::empty();
    lemma_base_and_case(letter);
    lemma_from_x_system_step(t, 0, none);
    assert(is_x_digraph(t[0], t[1]) && digraph_letter(t[0], t[1]) == letter);
    assert(none.push(letter) =~= seq![letter]);
}

/// The round trip, from the middle of the text on: where what was written
/// for the first `k` characters is read back as those characters, and ends
/// in a letter that can start a digraph only where the text does, the whole
/// text comes back.
proof fn lemma_round_trip_from(s: Seq<char>, k: int, written: Seq<char>)
    requires
        !has_x_digraph(s),
        0 <= k <= s.len(),
        rewritten(Direction::XToUtf8, written) == s.take(k),
        written.len() > 0 && is_base(fold_char(written.last())) ==> {
            &&& k > 0
            &&& written.last() == s[k - 1]
        },
    ensures
        rewritten(Direction::XToUtf8, rewrite_from(Direction::Utf8ToX, s, k, written)) == s,
    decreases s.len() - k,
{
    if k == s.len() {
        assert(s.take(k) =~= s);
    } else {
        lemma_to_x_system_step(s, k, written);
        let piece = if is_diacritic(s[k]) {
            x_form(s[k], ends_in_capital(written) || starts_with_capital(s.skip(k + 1)))
        } else {
            seq![s[k]]
        };
        if is_diacritic(s[k]) {
            lemma_base_and_case(s[k]);
            lemma_x_form_read_back(s[k], true);
            lemma_x_form_read_back(s[k], false);
        } else {
            if k > 0 {
                assert(!is_x_digraph(s[k - 1], s[k - 1 + 1]));
            }
            lemma_x_single(s[k]);
            assert(written.push(s[k]) =~= written + piece);
        }
        lemma_x_append(written, piece, 0, Seq::empty());
        assert(s.take(k) + seq![s[k]] =~= s.take(k + 1));
        assert((written + piece).last() == piece.last());
        lemma_round_trip_from(s, k + 1, written + piece);
    }
}

/// The round trip through the x-system: a text that holds no x-system
/// digraph, as no text in the native orthography does, comes back unchanged
/// when it is converted to the x-system and back.
pub proof fn lemma_x_system_round_trip(s: Seq<char>)
    requires
        !has_x_digraph(s),
    ensures
        rewritten(Direction::XToUtf8, rewritten(Direction::Utf8ToX, s)) == s,
{
    let none = Seq::<char>::empty();
    assert(s.take(0) =~= none);
    assert(rewritten(Direction::XToUtf8, none) == none);
    lemma_round_trip_from(s, 0, none);
}

/// Writing an ASCII convention from the middle of the text on brings in no
/// letter with a diacritic.
proof fn lemma_no_diacritic_from(to_h_system: bool, s: Seq<char>, k: int, written: Seq<char>)
    requires
        0 <= k <= s.len(),
        !has_diacritic(written),
    ensures
        !has_diacritic(
            rewrite_from(
                if to_h_system {
                    Direction::Utf8ToH
                } else {
                    Direction::Utf8ToX
                },
                s,
                k,
                written,
            ),
        ),
    decreases s.len() - k,
{
    if k < s.len() {
        let among_capitals = ends_in_capital(written) || starts_with_capital(s.skip(k + 1));
        let piece = if !is_diacritic(s[k]) {
            seq![s[k]]
        } else if to_h_system {
            h_form(s[k], among_capitals)
        } else {
            x_form(s[k], among_capitals)
        };
        if to_h_system {
            lemma_to_h_system_step(s, k, written);
        } else {
            lemma_to_x_system_step(s, k, written);
        }
        assert(written.push(s[k]) =~= written + seq![s[k]]);
        assert forall|i: int| 0 <= i < piece.len() implies !is_diacritic(#[trigger] piece[i]) by {}
        assert forall|i: int| 0 <= i < (written + piece).len() implies !is_diacritic(
            #[trigger] (written + piece)[i],
        ) by {
            if i < written.len() {
                assert((written + piece)[i] == written[i]);
            } else {
                assert((written + piece)[i] == piece[i - written.len()]);
            }
        }
        lemma_no_diacritic_from(to_h_system, s, k + 1, written + piece);
    }
}

/// A text written in the x-system or in the h-system holds no letter with a
/// diacritic, whatever the text was.
pub proof fn lemma_ascii_forms_hold_no_diacritic(s: Seq<char>)
    ensures
        !has_diacritic(rewritten(Direction::Utf8ToX, s)),
        !has_diacritic(rewritten(Direction::Utf8ToH, s)),
{
    lemma_no_diacritic_from(false, s, 0, Seq::empty());
    lemma_no_diacritic_from(true, s, 0, Seq::empty());
}

/// A conversion from a notation to itself leaves every text as it is.
pub proof fn lemma_same_notation_unchanged(notation: Notation, s: Seq<char>)
    ensures
        converted(notation, notation, s) == s,
{
}

/// A conversion between notations given by the same name leaves every text
/// as it is.
pub proof fn lemma_same_name_unchanged(name: Seq<char>, s: Seq<char>)
    requires
        notation_named(name) is Some,
    ensures
        convert_result(name, name, s) == Ok::<Seq<char>, ConvertError>(s),
{
}

} // verus!
