//! The pattern tables: which pieces of text each direction of conversion
//! searches for.

use crate::search::pattern_texts;
use vstd::prelude::*;

verus! {

/// A direction of conversion between the native orthography and one of the
/// two ASCII conventions.
#[derive(Clone, Copy, PartialEq, Eq, Debug)]
pub enum Direction {
    /// From the native orthography to the x-system.
    Utf8ToX,
    /// From the x-system to the native orthography.
    XToUtf8,
    /// From the native orthography to the h-system.
    Utf8ToH,
    /// From the h-system to the native orthography.
    HToUtf8,
}

/// The twelve letters with a diacritic, small and capital, each a pattern
/// of its own.
pub open spec fn diacritic_patterns() -> Seq<Seq<char>> {
    seq![
        "ĉ"@, "ĝ"@, "ĥ"@, "ĵ"@, "ŝ"@, "ŭ"@,
        "Ĉ"@, "Ĝ"@, "Ĥ"@, "Ĵ"@, "Ŝ"@, "Ŭ"@,
    ]
}

/// The six digraphs of the x-system, in small letters.
pub open spec fn x_patterns() -> Seq<Seq<char>> {
    seq!["cx"@, "gx"@, "hx"@, "jx"@, "sx"@, "ux"@]
}

/// The patterns of the h-system, in small letters: first the fragments of
/// words in which an "h" or an "au" is no mark of a diacritic and which
/// therefore pass unchanged, then the five digraphs, then "au", which
/// mostly stands for "aŭ".
pub open spec fn h_patterns() -> Seq<Seq<char>> {
    seq![
        "komenchor"@, "kuracherb"@, "potenchav"@, "prononchelp"@, "senchav"@,
        "pruchelp"@, "drogherb"@, "flughaven"@, "longhar"@,
        "lesvigholstini"@, "vanghar"@, "gajhumor"@, "amashisteri"@,
        "tobushaltej"@, "bushaltej"@, "ashund"@, "dishak"@,
        "disharmoni"@, "dishelig"@, "dishirtig"@, "fikshejm"@, "grashav"@,
        "grashepata"@, "invershav"@, "kashal"@, "misharmoni"@, "mishelp"@,
        "mishumor"@, "neinvershav"@, "plushor"@, "sekshontem"@, "seshektar"@,
        "seshor"@, "sukceshav"@,
        "blankaurs"@, "doganauni"@, "ropauni"@, "grandaursin"@,
        "imaginaraunu"@, "kakauj"@, "malgrandaursin"@, "matricaunu"@,
        "naur"@, "praul"@, "saudaarabuj"@, "tiaul"@, "traurb"@, "unuaul"@,
        "ch"@, "gh"@, "hh"@, "jh"@, "sh"@,
        "au"@,
    ]
}

/// The patterns that a direction searches for.
pub open spec fn patterns_of(direction: Direction) -> Seq<Seq<char>> {
    match direction {
        Direction::Utf8ToX | Direction::Utf8ToH => diacritic_patterns(),
        Direction::XToUtf8 => x_patterns(),
        Direction::HToUtf8 => h_patterns(),
    }
}

/// Whether a direction takes a capital ASCII letter of the text for the
/// small letter of a pattern. The ASCII conventions are read so; the
/// letters with a diacritic are searched for as they are.
pub open spec fn folds_case(direction: Direction) -> bool {
    match direction {
        Direction::Utf8ToX | Direction::Utf8ToH => false,
        Direction::XToUtf8 | Direction::HToUtf8 => true,
    }
}

/// No pattern is empty.
pub proof fn lemma_patterns_not_empty(direction: Direction)
    ensures
        forall|p: int|
            0 <= p < patterns_of(direction).len() ==> (#[trigger] patterns_of(direction)[p]).len()
                > 0,
{
    match direction {
        Direction::Utf8ToX | Direction::Utf8ToH => {
            reveal_strlit("ĉ");
            reveal_strlit("ĝ");
            reveal_strlit("ĥ");
            reveal_strlit("ĵ");
            reveal_strlit("ŝ");
            reveal_strlit("ŭ");
            reveal_strlit("Ĉ");
            reveal_strlit("Ĝ");
            reveal_strlit("Ĥ");
            reveal_strlit("Ĵ");
            reveal_strlit("Ŝ");
            reveal_strlit("Ŭ");
        },
        Direction::XToUtf8 => {
            reveal_strlit("cx");
            reveal_strlit("gx");
            reveal_strlit("hx");
            reveal_strlit("jx");
            reveal_strlit("sx");
            reveal_strlit("ux");
        },
        Direction::HToUtf8 => {
            reveal_strlit("komenchor");
            reveal_strlit("kuracherb");
            reveal_strlit("potenchav");
            reveal_strlit("prononchelp");
            reveal_strlit("senchav");
            reveal_strlit("pruchelp");
            reveal_strlit("drogherb");
            reveal_strlit("flughaven");
            reveal_strlit("longhar");
            reveal_strlit("lesvigholstini");
            reveal_strlit("vanghar");
            reveal_strlit("gajhumor");
            reveal_strlit("amashisteri");
            reveal_strlit("tobushaltej");
            reveal_strlit("bushaltej");
            reveal_strlit("ashund");
            reveal_strlit("dishak");
            reveal_strlit("disharmoni");
            reveal_strlit("dishelig");
            reveal_strlit("dishirtig");
            reveal_strlit("fikshejm");
            reveal_strlit("grashav");
            reveal_strlit("grashepata");
            reveal_strlit("invershav");
            reveal_strlit("kashal");
            reveal_strlit("misharmoni");
            reveal_strlit("mishelp");
            reveal_strlit("mishumor");
            reveal_strlit("neinvershav");
            reveal_strlit("plushor");
            reveal_strlit("sekshontem");
            reveal_strlit("seshektar");
            reveal_strlit("seshor");
            reveal_strlit("sukceshav");
            reveal_strlit("blankaurs");
            reveal_strlit("doganauni");
            reveal_strlit("ropauni");
            reveal_strlit("grandaursin");
            reveal_strlit("imaginaraunu");
            reveal_strlit("kakauj");
            reveal_strlit("malgrandaursin");
            reveal_strlit("matricaunu");
            reveal_strlit("naur");
            reveal_strlit("praul");
            reveal_strlit("saudaarabuj");
            reveal_strlit("tiaul");
            reveal_strlit("traurb");
            reveal_strlit("unuaul");
            reveal_strlit("ch");
            reveal_strlit("gh");
            reveal_strlit("hh");
            reveal_strlit("jh");
            reveal_strlit("sh");
            reveal_strlit("au");
        },
    }
}

/// The table of one direction: its patterns, ready to be searched for.
pub struct Table {
    direction: Direction,
    patterns: Vec<&'static str>,
    fold_case: bool,
}

impl Table {
    /// A table holds the patterns of its direction, in their order, and
    /// reads them with the case sensitivity of its direction.
    #[verifier::type_invariant]
    pub closed spec fn well_formed(&self) -> bool {
        &&& pattern_texts(self.patterns@) == patterns_of(self.direction)
        &&& self.fold_case == folds_case(self.direction)
    }

    /// The direction that the table serves.
    pub closed spec fn spec_direction(&self) -> Direction {
        self.direction
    }

    /// The direction that the table serves.
    #[verifier::when_used_as_spec(spec_direction)]
    pub fn direction(&self) -> (d: Direction)
        ensures
            d == self.spec_direction(),
    {
        self.direction
    }

    /// The patterns, in the order of the table.
    pub fn patterns(&self) -> (patterns: &Vec<&'static str>)
        ensures
            pattern_texts(patterns@) == patterns_of(self.spec_direction()),
    {
        proof {
            use_type_invariant(self);
        }
        &self.patterns
    }

    /// Whether the table takes a capital ASCII letter of a text for the
    /// small letter of a pattern.
    pub fn fold_case(&self) -> (fold: bool)
        ensures
            fold == folds_case(self.spec_direction()),
    {
        proof {
            use_type_invariant(self);
        }
        self.fold_case
    }
}

/// Builds the table of a direction.
pub fn build_table(direction: Direction) -> (table: Table)
    ensures
        table.spec_direction() == direction,
{
    match direction {
        Direction::Utf8ToX | Direction::Utf8ToH => {
            let patterns = vec![
                "ĉ", "ĝ", "ĥ", "ĵ", "ŝ", "ŭ",
                "Ĉ", "Ĝ", "Ĥ", "Ĵ", "Ŝ", "Ŭ",
            ];
            assert(pattern_texts(patterns@) =~= diacritic_patterns());
            Table { direction, patterns, fold_case: false }
        },
        Direction::XToUtf8 => {
            let patterns = vec!["cx", "gx", "hx", "jx", "sx", "ux"];
            assert(pattern_texts(patterns@) =~= x_patterns());
            Table { direction, patterns, fold_case: true }
        },
        Direction::HToUtf8 => {
            let patterns = vec![
                "komenchor", "kuracherb", "potenchav", "prononchelp", "senchav",
                "pruchelp", "drogherb", "flughaven", "longhar",
                "lesvigholstini", "vanghar", "gajhumor", "amashisteri",
                "tobushaltej", "bushaltej", "ashund", "dishak",
                "disharmoni", "dishelig", "dishirtig", "fikshejm", "grashav",
                "grashepata", "invershav", "kashal", "misharmoni", "mishelp",
                "mishumor", "neinvershav", "plushor", "sekshontem", "seshektar",
                "seshor", "sukceshav",
                "blankaurs", "doganauni", "ropauni", "grandaursin",
                "imaginaraunu", "kakauj", "malgrandaursin", "matricaunu",
                "naur", "praul", "saudaarabuj", "tiaul", "traurb", "unuaul",
                "ch", "gh", "hh", "jh", "sh",
                "au",
            ];
            assert(pattern_texts(patterns@) =~= h_patterns());
            Table { direction, patterns, fold_case: true }
        },
    }
}

} // verus!
