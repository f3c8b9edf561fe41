//! Transliteration of Esperanto text between its native orthography and the
//! ASCII x-system and h-system conventions.
//!
//! Esperanto has six letters with a diacritic: ĉ, ĝ, ĥ, ĵ, ŝ and ŭ. Where
//! they cannot be typed, the x-system writes an "x" after the base letter
//! ("cx"), and the h-system writes an "h" after it ("ch") and a plain "u"
//! for "ŭ". The x-system can be read back without loss. The h-system cannot:
//! an "h" or an "au" in it may also be part of a word, so reading it back
//! goes by a list of word fragments that are left alone.

pub mod alphabet;
pub mod convert;
pub mod encoding;
pub mod laws;
pub mod rewrite;
pub mod search;
pub mod shape;
pub mod table;

pub use convert::{
    convert, convert_between, h_system_to_utf8, h_system_to_x_system, parse_notation,
    utf8_to_h_system, utf8_to_x_system, x_system_to_h_system, x_system_to_utf8, ConvertError,
    Notation,
};
pub use rewrite::replace_all;
pub use shape::replacement;
pub use table::{build_table, Direction, Table};
