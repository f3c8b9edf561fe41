//! The letters that the conversions deal with: the six letters with a
//! diacritic, the ASCII letters they are written over, and the case of
//! letters.

use vstd::prelude::*;

verus! {

/// Whether a character is an uppercase letter, as `char::is_uppercase` of
/// the standard library tells it from the tables of Unicode.
pub uninterp spec fn is_uppercase_char(c: char) -> bool;

/// `char::is_uppercase` of the standard library. Believed of it, not
/// proved: what it returns depends on the character alone. The contract
/// gives that result a name and says nothing of its value.
pub assume_specification[ char::is_uppercase ](c: char) -> (r: bool)
    ensures
        r == is_uppercase_char(c),
;

/// One of the six small letters with a diacritic.
pub open spec fn is_small_diacritic(c: char) -> bool {
    c == 'ĉ' || c == 'ĝ' || c == 'ĥ' || c == 'ĵ' || c == 'ŝ' || c == 'ŭ'
}

/// One of the six capital letters with a diacritic.
pub open spec fn is_capital_diacritic(c: char) -> bool {
    c == 'Ĉ' || c == 'Ĝ' || c == 'Ĥ' || c == 'Ĵ' || c == 'Ŝ' || c == 'Ŭ'
}

/// One of the twelve letters with a diacritic.
pub open spec fn is_diacritic(c: char) -> bool {
    is_small_diacritic(c) || is_capital_diacritic(c)
}

/// One of the six small ASCII letters that can carry a diacritic.
pub open spec fn is_base(c: char) -> bool {
    c == 'c' || c == 'g' || c == 'h' || c == 'j' || c == 's' || c == 'u'
}

/// The small ASCII letter under a letter with a diacritic.
pub open spec fn base_of(letter: char) -> char {
    if letter == 'ĉ' || letter == 'Ĉ' {
        'c'
    } else if letter == 'ĝ' || letter == 'Ĝ' {
        'g'
    } else if letter == 'ĥ' || letter == 'Ĥ' {
        'h'
    } else if letter == 'ĵ' || letter == 'Ĵ' {
        'j'
    } else if letter == 'ŝ' || letter == 'Ŝ' {
        's'
    } else {
        'u'
    }
}

/// The letter with a diacritic over a small ASCII base letter, small or
/// capital.
pub open spec fn with_diacritic(base: char, capital: bool) -> char {
    if base == 'c' {
        if capital { 'Ĉ' } else { 'ĉ' }
    } else if base == 'g' {
        if capital { 'Ĝ' } else { 'ĝ' }
    } else if base == 'h' {
        if capital { 'Ĥ' } else { 'ĥ' }
    } else if base == 'j' {
        if capital { 'Ĵ' } else { 'ĵ' }
    } else if base == 's' {
        if capital { 'Ŝ' } else { 'ŝ' }
    } else {
        if capital { 'Ŭ' } else { 'ŭ' }
    }
}

/// An ASCII capital letter.
pub open spec fn is_ascii_capital(c: char) -> bool {
    'A' <= c && c <= 'Z'
}

/// Whether a character is an ASCII capital letter.
pub fn is_capital(c: char) -> (r: bool)
    ensures
        r == is_ascii_capital(c),
{
    'A' <= c && c <= 'Z'
}

/// The capital of a small ASCII letter; any other character stays.
pub open spec fn capital_of(c: char) -> char {
    if 'a' <= c && c <= 'z' {
        ((c as u8) - 0x20) as char
    } else {
        c
    }
}

/// A letter with a diacritic is what `with_diacritic` makes of its base
/// and its case.
pub proof fn lemma_base_and_case(letter: char)
    requires
        is_diacritic(letter),
    ensures
        is_base(base_of(letter)),
        with_diacritic(base_of(letter), is_capital_diacritic(letter)) == letter,
        is_small_diacritic(letter) != is_capital_diacritic(letter),
{
}

} // verus!
