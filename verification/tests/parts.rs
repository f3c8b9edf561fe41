use esperanto_text::alphabet::is_capital;
use esperanto_text::encoding::{first_char, last_char};
use esperanto_text::shape::{
    h_form_of, letter_of_x_digraph, letter_over, letters_of_h_digraph, x_form_of,
};
use esperanto_text::{build_table, replace_all, replacement, Direction};

#[test]
fn first_and_last_character() {
    assert_eq!(first_char(""), None);
    assert_eq!(last_char(""), None);
    assert_eq!(first_char("a"), Some('a'));
    assert_eq!(last_char("a"), Some('a'));
    assert_eq!(first_char("ĉu"), Some('ĉ'));
    assert_eq!(last_char("aŭ"), Some('ŭ'));
    assert_eq!(last_char("a日"), Some('日'));
    assert_eq!(last_char("a🙂"), Some('🙂'));
    assert_eq!(first_char("🙂a"), Some('🙂'));
}

#[test]
fn tables_hold_their_patterns() {
    let from_utf8 = build_table(Direction::Utf8ToX);
    assert_eq!(from_utf8.direction(), Direction::Utf8ToX);
    assert_eq!(from_utf8.patterns().len(), 12);
    assert!(!from_utf8.fold_case());
    assert_eq!(build_table(Direction::Utf8ToH).patterns(), from_utf8.patterns());

    let from_x = build_table(Direction::XToUtf8);
    assert_eq!(from_x.patterns(), &vec!["cx", "gx", "hx", "jx", "sx", "ux"]);
    assert!(from_x.fold_case());

    let from_h = build_table(Direction::HToUtf8);
    assert_eq!(from_h.direction(), Direction::HToUtf8);
    assert_eq!(from_h.patterns().len(), 54);
    assert_eq!(from_h.patterns()[0], "komenchor");
    assert_eq!(from_h.patterns()[47], "unuaul");
    assert_eq!(from_h.patterns()[53], "au");
    assert!(from_h.fold_case());
}

#[test]
fn replace_all_with_each_table() {
    assert_eq!(replace_all("ŝanĝo", &build_table(Direction::Utf8ToX)), "sxangxo");
    assert_eq!(replace_all("ŝanĝo", &build_table(Direction::Utf8ToH)), "shangho");
    assert_eq!(replace_all("sxangxo", &build_table(Direction::XToUtf8)), "ŝanĝo");
    assert_eq!(replace_all("shangho", &build_table(Direction::HToUtf8)), "ŝanĝo");
    assert_eq!(replace_all("", &build_table(Direction::HToUtf8)), "");
}

#[test]
fn x_forms() {
    assert_eq!(x_form_of('ĉ', false), Some("cx"));
    assert_eq!(x_form_of('ĉ', true), Some("cx"));
    assert_eq!(x_form_of('Ĉ', false), Some("Cx"));
    assert_eq!(x_form_of('Ĉ', true), Some("CX"));
    assert_eq!(x_form_of('ŭ', false), Some("ux"));
    assert_eq!(x_form_of('Ŭ', false), Some("Ux"));
    assert_eq!(x_form_of('Ŭ', true), Some("UX"));
    assert_eq!(x_form_of('c', true), None);
    assert_eq!(x_form_of('x', false), None);
}

#[test]
fn h_forms() {
    assert_eq!(h_form_of('ĝ', false), Some("gh"));
    assert_eq!(h_form_of('Ĝ', false), Some("Gh"));
    assert_eq!(h_form_of('Ĝ', true), Some("GH"));
    assert_eq!(h_form_of('ĥ', true), Some("hh"));
    assert_eq!(h_form_of('ŭ', true), Some("u"));
    assert_eq!(h_form_of('Ŭ', false), Some("U"));
    assert_eq!(h_form_of('Ŭ', true), Some("U"));
    assert_eq!(h_form_of('h', false), None);
}

#[test]
fn letters_over_base_letters() {
    assert_eq!(letter_over('c', false), Some("ĉ"));
    assert_eq!(letter_over('C', false), Some("ĉ"));
    assert_eq!(letter_over('c', true), Some("Ĉ"));
    assert_eq!(letter_over('j', false), Some("ĵ"));
    assert_eq!(letter_over('S', true), Some("Ŝ"));
    assert_eq!(letter_over('u', true), Some("Ŭ"));
    assert_eq!(letter_over('a', false), None);
    assert_eq!(letter_over('x', true), None);
    assert!(is_capital('A') && is_capital('Z'));
    assert!(!is_capital('a') && !is_capital('Ĉ') && !is_capital('['));
}

#[test]
fn digraphs_of_the_x_system() {
    assert_eq!(letter_of_x_digraph('c', 'x'), Some("ĉ"));
    assert_eq!(letter_of_x_digraph('C', 'x'), Some("Ĉ"));
    assert_eq!(letter_of_x_digraph('c', 'X'), Some("Ĉ"));
    assert_eq!(letter_of_x_digraph('C', 'X'), Some("Ĉ"));
    assert_eq!(letter_of_x_digraph('u', 'x'), Some("ŭ"));
    assert_eq!(letter_of_x_digraph('a', 'x'), None);
    assert_eq!(letter_of_x_digraph('c', 'h'), None);
}

#[test]
fn digraphs_of_the_h_system() {
    assert_eq!(letters_of_h_digraph('s', 'h'), Some("ŝ"));
    assert_eq!(letters_of_h_digraph('S', 'h'), Some("Ŝ"));
    assert_eq!(letters_of_h_digraph('s', 'H'), Some("Ŝ"));
    assert_eq!(letters_of_h_digraph('h', 'h'), Some("ĥ"));
    assert_eq!(letters_of_h_digraph('u', 'h'), None);
    assert_eq!(letters_of_h_digraph('a', 'u'), Some("aŭ"));
    assert_eq!(letters_of_h_digraph('A', 'U'), Some("AŬ"));
    assert_eq!(letters_of_h_digraph('A', 'u'), Some("Aŭ"));
    assert_eq!(letters_of_h_digraph('a', 'U'), Some("aŬ"));
    assert_eq!(letters_of_h_digraph('c', 'x'), None);
    assert_eq!(letters_of_h_digraph('a', 'h'), None);
}

#[test]
fn replacement_looks_at_the_case_around() {
    assert_eq!(replacement(Direction::Utf8ToX, "Ĥ", false, false), "Hx");
    assert_eq!(replacement(Direction::Utf8ToX, "Ĥ", false, true), "HX");
    assert_eq!(replacement(Direction::Utf8ToX, "Ĥ", true, false), "HX");
    assert_eq!(replacement(Direction::Utf8ToX, "Ĥ", true, true), "HX");
    assert_eq!(replacement(Direction::Utf8ToX, "ĥ", true, true), "hx");
    assert_eq!(replacement(Direction::Utf8ToH, "Ĵ", false, false), "Jh");
    assert_eq!(replacement(Direction::Utf8ToH, "Ĵ", true, false), "JH");
    assert_eq!(replacement(Direction::Utf8ToH, "Ŭ", false, false), "U");
}

#[test]
fn replacement_leaves_other_pieces() {
    assert_eq!(replacement(Direction::Utf8ToX, "a", false, false), "a");
    assert_eq!(replacement(Direction::Utf8ToX, "ĉĉ", false, false), "ĉĉ");
    assert_eq!(replacement(Direction::Utf8ToX, "", false, false), "");
    assert_eq!(replacement(Direction::XToUtf8, "cx", true, true), "ĉ");
    assert_eq!(replacement(Direction::XToUtf8, "cX", false, false), "Ĉ");
    assert_eq!(replacement(Direction::XToUtf8, "cxx", false, false), "cxx");
    assert_eq!(replacement(Direction::XToUtf8, "ch", false, false), "ch");
    assert_eq!(replacement(Direction::HToUtf8, "ch", false, false), "ĉ");
    assert_eq!(replacement(Direction::HToUtf8, "aU", false, false), "aŬ");
    assert_eq!(replacement(Direction::HToUtf8, "SenChav", false, false), "SenChav");
    assert_eq!(replacement(Direction::HToUtf8, "uh", false, false), "uh");
}
