//! The conversions: the four between the native orthography and an ASCII
//! convention, the two between the ASCII conventions, and the one that
//! takes the two notations by their names.

use crate::rewrite::{replace_all, rewritten};
use crate::table::{build_table, Direction};
use vstd::prelude::*;

verus! {

/// A way of writing Esperanto.
#[derive(Clone, Copy, PartialEq, Eq, Debug)]
pub enum Notation {
    /// The native orthography, with its six letters with a diacritic.
    Utf8,
    /// The x-system: an "x" after the base letter marks the diacritic.
    XSystem,
    /// The h-system: an "h" after the base letter marks the diacritic, and
    /// "u" stands for "ŭ".
    HSystem,
}

/// Why a conversion was refused.
#[derive(Clone, Copy, PartialEq, Eq, Debug)]
pub enum ConvertError {
    /// One of the two names is not the name of a notation.
    InvalidDirection,
}

/// The notation that a name stands for: "u", "x" or "h".
pub open spec fn notation_named(name: Seq<char>) -> Option<Notation> {
    if name.len() != 1 {
        None
    } else if name[0] == 'u' {
        Some(Notation::Utf8)
    } else if name[0] == 'x' {
        Some(Notation::XSystem)
    } else if name[0] == 'h' {
        Some(Notation::HSystem)
    } else {
        None
    }
}

/// The text `s`, written in the notation `from`, in the notation `to`. A
/// text stays as it is where the two are the same; between the two ASCII
/// conventions the way leads through the native orthography.
pub open spec fn converted(from: Notation, to: Notation, s: Seq<char>) -> Seq<char> {
    match (from, to) {
        (Notation::Utf8, Notation::Utf8) => s,
        (Notation::XSystem, Notation::XSystem) => s,
        (Notation::HSystem, Notation::HSystem) => s,
        (Notation::Utf8, Notation::XSystem) => rewritten(Direction::Utf8ToX, s),
        (Notation::XSystem, Notation::Utf8) => rewritten(Direction::XToUtf8, s),
        (Notation::Utf8, Notation::HSystem) => rewritten(Direction::Utf8ToH, s),
        (Notation::HSystem, Notation::Utf8) => rewritten(Direction::HToUtf8, s),
        (Notation::XSystem, Notation::HSystem) => rewritten(
            Direction::Utf8ToH,
            rewritten(Direction::XToUtf8, s),
        ),
        (Notation::HSystem, Notation::XSystem) => rewritten(
            Direction::Utf8ToX,
            rewritten(Direction::HToUtf8, s),
        ),
    }
}

/// What `convert` returns: the converted text where both names are names
/// of notations, else the error.
pub open spec fn convert_result(from: Seq<char>, to: Seq<char>, s: Seq<char>) -> Result<
    Seq<char>,
    ConvertError,
> {
    match (notation_named(from), notation_named(to)) {
        (Some(f), Some(t)) => Ok(converted(f, t, s)),
        _ => Err(ConvertError::InvalidDirection),
    }
}

/// Converts the native orthography to the x-system: "ĵaŭdo" becomes
/// "jxauxdo".
pub fn utf8_to_x_system(s: &str) -> (r: String)
    ensures
        r@ == rewritten(Direction::Utf8ToX, s@),
{
    let table = build_table(Direction::Utf8ToX);
    replace_all(s, &table)
}

/// Converts the native orthography to the h-system: "ĵaŭdo" becomes
/// "jhaudo".
pub fn utf8_to_h_system(s: &str) -> (r: String)
    ensures
        r@ == rewritten(Direction::Utf8ToH, s@),
{
    let table = build_table(Direction::Utf8ToH);
    replace_all(s, &table)
}

/// Converts the x-system to the native orthography: "jxauxdo" becomes
/// "ĵaŭdo".
pub fn x_system_to_utf8(s: &str) -> (r: String)
    ensures
        r@ == rewritten(Direction::XToUtf8, s@),
{
    let table = build_table(Direction::XToUtf8);
    replace_all(s, &table)
}

/// Converts the h-system to the native orthography: "jhaudo" becomes
/// "ĵaŭdo". The fragments of words in the table of the h-system pass
/// unchanged.
pub fn h_system_to_utf8(s: &str) -> (r: String)
    ensures
        r@ == rewritten(Direction::HToUtf8, s@),
{
    let table = build_table(Direction::HToUtf8);
    replace_all(s, &table)
}

/// Converts the x-system to the h-system, by way of the native
/// orthography.
pub fn x_system_to_h_system(s: &str) -> (r: String)
    ensures
        r@ == converted(Notation::XSystem, Notation::HSystem, s@),
{
    let native = x_system_to_utf8(s);
    utf8_to_h_system(native.as_str())
}

/// Converts the h-system to the x-system, by way of the native
/// orthography.
pub fn h_system_to_x_system(s: &str) -> (r: String)
    ensures
        r@ == converted(Notation::HSystem, Notation::XSystem, s@),
{
    let native = h_system_to_utf8(s);
    utf8_to_x_system(native.as_str())
}

/// The notation that a name stands for: "u" for the native orthography,
/// "x" for the x-system, "h" for the h-system; `None` for any other name.
pub fn parse_notation(name: &str) -> (r: Option<Notation>)
    ensures
        r == notation_named(name@),
{
    broadcast use vstd::string::group_string_axioms;

    let mut chars = name.chars();
    let first = chars.next();
    let second = chars.next();
    match (first, second) {
        (Some('u'), None) => Some(Notation::Utf8),
        (Some('x'), None) => Some(Notation::XSystem),
        (Some('h'), None) => Some(Notation::HSystem),
        _ => None,
    }
}

/// Converts a text from one notation to another.
pub fn convert_between(from: Notation, to: Notation, text: &str) -> (r: String)
    ensures
        r@ == converted(from, to, text@),
{
    match (from, to) {
        (Notation::Utf8, Notation::XSystem) => utf8_to_x_system(text),
        (Notation::XSystem, Notation::Utf8) => x_system_to_utf8(text),
        (Notation::Utf8, Notation::HSystem) => utf8_to_h_system(text),
        (Notation::HSystem, Notation::Utf8) => h_system_to_utf8(text),
        (Notation::XSystem, Notation::HSystem) => x_system_to_h_system(text),
        (Notation::HSystem, Notation::XSystem) => h_system_to_x_system(text),
        _ => text.to_owned(),
    }
}

/// Converts a text from the notation named `from` to the notation named
/// `to`. The names are "u", "x" and "h"; with any other name the conversion
/// is refused.
pub fn convert(from: &str, to: &str, text: &str) -> (r: Result<String, ConvertError>)
    ensures
        r is Ok <==> notation_named(from@) is Some && notation_named(to@) is Some,
        r matches Ok(out) ==> convert_result(from@, to@, text@) == Ok::<Seq<char>, ConvertError>(
            out@,
        ),
        r matches Err(e) ==> e == ConvertError::InvalidDirection,
        notation_named(from@) is Some && from@ == to@ ==> (r matches Ok(out) && out@ == text@),
{
    match (parse_notation(from), parse_notation(to)) {
        (Some(f), Some(t)) => Ok(convert_between(f, t, text)),
        _ => Err(ConvertError::InvalidDirection),
    }
}

} // verus!
