//! The case shape of a replacement: what stands for a matched piece of
//! text, given the case of the letters in it and around it.

use crate::alphabet::{
    base_of, capital_of, is_ascii_capital, is_base, is_capital, is_diacritic,
    is_small_diacritic, with_diacritic,
};
use crate::search::fold_char;
use crate::table::Direction;
use vstd::prelude::*;

verus! {

/// The x-system digraph of a letter with a diacritic: in small letters for
/// a small letter; for a capital letter all in capitals where the letter
/// stands among capitals, else a capital followed by a small "x".
pub open spec fn x_form(letter: char, among_capitals: bool) -> Seq<char> {
    if is_small_diacritic(letter) {
        seq![base_of(letter), 'x']
    } else if among_capitals {
        seq![capital_of(base_of(letter)), 'X']
    } else {
        seq![capital_of(base_of(letter)), 'x']
    }
}

/// The h-system form of a letter with a diacritic. The letter "ŭ" is
/// written as a plain "u", whatever stands around it; the other five are
/// digraphs, cased as in the x-system.
pub open spec fn h_form(letter: char, among_capitals: bool) -> Seq<char> {
    if letter == 'ŭ' {
        seq!['u']
    } else if letter == 'Ŭ' {
        seq!['U']
    } else if is_small_diacritic(letter) {
        seq![base_of(letter), 'h']
    } else if among_capitals {
        seq![capital_of(base_of(letter)), 'H']
    } else {
        seq![capital_of(base_of(letter)), 'h']
    }
}

/// Two characters that are an x-system digraph, in any case.
pub open spec fn is_x_digraph(a: char, b: char) -> bool {
    is_base(fold_char(a)) && fold_char(b) == 'x'
}

/// Two characters that are an h-system digraph, in any case.
pub open spec fn is_h_digraph(a: char, b: char) -> bool {
    is_base(fold_char(a)) && fold_char(a) != 'u' && fold_char(b) == 'h'
}

/// Two characters that are "au", in any case.
pub open spec fn is_au(a: char, b: char) -> bool {
    fold_char(a) == 'a' && fold_char(b) == 'u'
}

/// The letter that a digraph stands for: capital where either character of
/// the digraph is.
pub open spec fn digraph_letter(a: char, b: char) -> char {
    with_diacritic(fold_char(a), is_ascii_capital(a) || is_ascii_capital(b))
}

/// What stands for a piece of x-system text that a pattern matched.
pub open spec fn from_x_form(found: Seq<char>) -> Seq<char> {
    if found.len() == 2 && is_x_digraph(found[0], found[1]) {
        seq![digraph_letter(found[0], found[1])]
    } else {
        found
    }
}

/// What stands for a piece of h-system text that a pattern matched: the
/// letter of a digraph; for "au" the "a" as it is and "ŭ" in the case of
/// the "u"; any other piece, which is a fragment of a word that is to be
/// left alone, itself.
pub open spec fn from_h_form(found: Seq<char>) -> Seq<char> {
    if found.len() == 2 && is_h_digraph(found[0], found[1]) {
        seq![digraph_letter(found[0], found[1])]
    } else if found.len() == 2 && is_au(found[0], found[1]) {
        seq![found[0], with_diacritic('u', is_ascii_capital(found[1]))]
    } else {
        found
    }
}

/// What a direction puts in the place of the piece of text `found` that one
/// of its patterns matched. `after_capital` says that the last character
/// written before it is an uppercase letter, `before_capital` that the
/// character that follows the piece in the text is one; only the
/// directions from the native orthography look at them.
pub open spec fn replacement_text(
    direction: Direction,
    found: Seq<char>,
    after_capital: bool,
    before_capital: bool,
) -> Seq<char> {
    match direction {
        Direction::Utf8ToX => if found.len() == 1 && is_diacritic(found[0]) {
            x_form(found[0], after_capital || before_capital)
        } else {
            found
        },
        Direction::Utf8ToH => if found.len() == 1 && is_diacritic(found[0]) {
            h_form(found[0], after_capital || before_capital)
        } else {
            found
        },
        Direction::XToUtf8 => from_x_form(found),
        Direction::HToUtf8 => from_h_form(found),
    }
}

/// The x-system digraph of a letter with a diacritic; `None` for any other
/// character.
pub fn x_form_of(letter: char, among_capitals: bool) -> (r: Option<&'static str>)
    ensures
        r is Some <==> is_diacritic(letter),
        r matches Some(t) ==> t@ == x_form(letter, among_capitals),
{
    proof {
        reveal_strlit("cx");
        reveal_strlit("gx");
        reveal_strlit("hx");
        reveal_strlit("jx");
        reveal_strlit("sx");
        reveal_strlit("ux");
        reveal_strlit("CX");
        reveal_strlit("GX");
        reveal_strlit("HX");
        reveal_strlit("JX");
        reveal_strlit("SX");
        reveal_strlit("UX");
        reveal_strlit("Cx");
        reveal_strlit("Gx");
        reveal_strlit("Hx");
        reveal_strlit("Jx");
        reveal_strlit("Sx");
        reveal_strlit("Ux");
    }
    let r = match letter {
        'ĉ' => Some("cx"),
        'ĝ' => Some("gx"),
        'ĥ' => Some("hx"),
        'ĵ' => Some("jx"),
        'ŝ' => Some("sx"),
        'ŭ' => Some("ux"),
        'Ĉ' => Some(if among_capitals { "CX" } else { "Cx" }),
        'Ĝ' => Some(if among_capitals { "GX" } else { "Gx" }),
        'Ĥ' => Some(if among_capitals { "HX" } else { "Hx" }),
        'Ĵ' => Some(if among_capitals { "JX" } else { "Jx" }),
        'Ŝ' => Some(if among_capitals { "SX" } else { "Sx" }),
        'Ŭ' => Some(if among_capitals { "UX" } else { "Ux" }),
        _ => None,
    };
    assert(r matches Some(t) ==> t@ =~= x_form(letter, among_capitals));
    r
}

/// The h-system form of a letter with a diacritic; `None` for any other
/// character.
pub fn h_form_of(letter: char, among_capitals: bool) -> (r: Option<&'static str>)
    ensures
        r is Some <==> is_diacritic(letter),
        r matches Some(t) ==> t@ == h_form(letter, among_capitals),
{
    proof {
        reveal_strlit("ch");
        reveal_strlit("gh");
        reveal_strlit("hh");
        reveal_strlit("jh");
        reveal_strlit("sh");
        reveal_strlit("u");
        reveal_strlit("CH");
        reveal_strlit("GH");
        reveal_strlit("HH");
        reveal_strlit("JH");
        reveal_strlit("SH");
        reveal_strlit("U");
        reveal_strlit("Ch");
        reveal_strlit("Gh");
        reveal_strlit("Hh");
        reveal_strlit("Jh");
        reveal_strlit("Sh");
    }
    let r = match letter {
        'ĉ' => Some("ch"),
        'ĝ' => Some("gh"),
        'ĥ' => Some("hh"),
        'ĵ' => Some("jh"),
        'ŝ' => Some("sh"),
        'ŭ' => Some("u"),
        'Ĉ' => Some(if among_capitals { "CH" } else { "Ch" }),
        'Ĝ' => Some(if among_capitals { "GH" } else { "Gh" }),
        'Ĥ' => Some(if among_capitals { "HH" } else { "Hh" }),
        'Ĵ' => Some(if among_capitals { "JH" } else { "Jh" }),
        'Ŝ' => Some(if among_capitals { "SH" } else { "Sh" }),
        'Ŭ' => Some("U"),
        _ => None,
    };
    assert(r matches Some(t) ==> t@ =~= h_form(letter, among_capitals));
    r
}

/// The letter with a diacritic over an ASCII letter, which stands first in
/// a digraph: capital where `capital` says so; `None` where the letter
/// carries no diacritic in Esperanto.
pub fn letter_over(base: char, capital: bool) -> (r: Option<&'static str>)
    ensures
        r is Some <==> is_base(fold_char(base)),
        r matches Some(t) ==> t@ == seq![with_diacritic(fold_char(base), capital)],
{
    proof {
        reveal_strlit("ĉ");
        reveal_strlit("ĝ");
        reveal_strlit("ĥ");
        reveal_strlit("ĵ");
        reveal_strlit("ŝ");
        reveal_strlit("ŭ");
        reveal_strlit("Ĉ");
        reveal_strlit("Ĝ");
        reveal_strlit("Ĥ");
        reveal_strlit("Ĵ");
        reveal_strlit("Ŝ");
        reveal_strlit("Ŭ");
    }
    let r = match base {
        'c' | 'C' => Some(if capital { "Ĉ" } else { "ĉ" }),
        'g' | 'G' => Some(if capital { "Ĝ" } else { "ĝ" }),
        'h' | 'H' => Some(if capital { "Ĥ" } else { "ĥ" }),
        'j' | 'J' => Some(if capital { "Ĵ" } else { "ĵ" }),
        's' | 'S' => Some(if capital { "Ŝ" } else { "ŝ" }),
        'u' | 'U' => Some(if capital { "Ŭ" } else { "ŭ" }),
        _ => None,
    };
    assert(r matches Some(t) ==> t@ =~= seq![with_diacritic(fold_char(base), capital)]);
    r
}

/// The letter that the two characters stand for as an x-system digraph;
/// `None` where they are no such digraph.
pub fn letter_of_x_digraph(a: char, b: char) -> (r: Option<&'static str>)
    ensures
        r is Some <==> is_x_digraph(a, b),
        r matches Some(t) ==> t@ == seq![digraph_letter(a, b)],
{
    if b == 'x' || b == 'X' {
        letter_over(a, is_capital(a) || is_capital(b))
    } else {
        None
    }
}

/// What the two characters stand for in the h-system: the letter of a
/// digraph, or "aŭ" for "au" with the case of each of the two kept; `None`
/// where they are neither.
pub fn letters_of_h_digraph(a: char, b: char) -> (r: Option<&'static str>)
    ensures
        r is Some <==> is_h_digraph(a, b) || is_au(a, b),
        r matches Some(t) ==> t@ == from_h_form(seq![a, b]),
{
    proof {
        reveal_strlit("aŭ");
        reveal_strlit("AŬ");
        reveal_strlit("Aŭ");
        reveal_strlit("aŬ");
    }
    if b == 'h' || b == 'H' {
        if a == 'u' || a == 'U' {
            None
        } else {
            letter_over(a, is_capital(a) || is_capital(b))
        }
    } else if a == 'a' && b == 'u' {
        assert("aŭ"@ =~= from_h_form(seq![a, b]));
        Some("aŭ")
    } else if a == 'A' && b == 'U' {
        assert("AŬ"@ =~= from_h_form(seq![a, b]));
        Some("AŬ")
    } else if a == 'A' && b == 'u' {
        assert("Aŭ"@ =~= from_h_form(seq![a, b]));
        Some("Aŭ")
    } else if a == 'a' && b == 'U' {
        assert("aŬ"@ =~= from_h_form(seq![a, b]));
        Some("aŬ")
    } else {
        None
    }
}

/// What a direction puts in the place of the piece of text `found` that one
/// of its patterns matched: a function of the piece and of the case of the
/// two characters around it.
pub fn replacement<'a>(
    direction: Direction,
    found: &'a str,
    after_capital: bool,
    before_capital: bool,
) -> (r: &'a str)
    ensures
        r@ == replacement_text(direction, found@, after_capital, before_capital),
{
    broadcast use vstd::string::group_string_axioms;

    let mut chars = found.chars();
    let first = chars.next();
    let second = chars.next();
    let third = chars.next();
    let among_capitals = after_capital || before_capital;
    let known = match (direction, first, second, third) {
        (Direction::Utf8ToX, Some(letter), None, _) => x_form_of(letter, among_capitals),
        (Direction::Utf8ToH, Some(letter), None, _) => h_form_of(letter, among_capitals),
        (Direction::XToUtf8, Some(a), Some(b), None) => {
            assert(found@ =~= seq![a, b]);
            letter_of_x_digraph(a, b)
        },
        (Direction::HToUtf8, Some(a), Some(b), None) => {
            assert(found@ =~= seq![a, b]);
            letters_of_h_digraph(a, b)
        },
        _ => None,
    };
    match known {
        Some(text) => text,
        None => found,
    }
}

} // verus!
