use esperanto_text::{
    convert, convert_between, h_system_to_utf8, h_system_to_x_system, parse_notation,
    utf8_to_h_system, utf8_to_x_system, x_system_to_h_system, x_system_to_utf8, ConvertError,
    Notation,
};

#[test]
fn round_trip_through_x_system() {
    let texts = [
        "",
        "eĥoŝanĝo ĉiuĵaŭde",
        "EĤOŜANĜO ĈIUĴAŬDE",
        "Ĉiuj estas belaj. Ĥ Ŝ Ĝ Ĉ Ĵ Ŭ ĤO ŜO ĜO ĈO ĴO ŬO",
        "cĉ uŭ Cĉ ĉx ĈX AĤ ĤĈ aĤ",
        "La ŝipo ĉe la haveno. ŜIPO!",
        "ĉĝĥĵŝŭĈĜĤĴŜŬ",
    ];
    for text in texts {
        assert_eq!(x_system_to_utf8(&utf8_to_x_system(text)), text);
    }
}

#[test]
fn round_trip_fails_on_a_digraph_in_the_text() {
    assert_eq!(utf8_to_x_system("cx"), "cx");
    assert_eq!(x_system_to_utf8(&utf8_to_x_system("cx")), "ĉ");
}

#[test]
fn plain_text_is_unchanged() {
    let texts = ["", "x", "axe", "The quick brown fox.", "naïve café Ω", "c x g x"];
    for text in texts {
        assert_eq!(utf8_to_x_system(text), text);
        assert_eq!(x_system_to_utf8(text), text);
    }
}

#[test]
fn empty_text_stays_empty() {
    assert_eq!(utf8_to_x_system(""), "");
    assert_eq!(utf8_to_h_system(""), "");
    assert_eq!(x_system_to_utf8(""), "");
    assert_eq!(h_system_to_utf8(""), "");
}

#[test]
fn case_is_kept_to_x_system() {
    assert_eq!(utf8_to_x_system("eĥoŝanĝo ĉiuĵaŭde"), "ehxosxangxo cxiujxauxde");
    assert_eq!(utf8_to_x_system("EĤOŜANĜO ĈIUĴAŬDE"), "EHXOSXANGXO CXIUJXAUXDE");
}

#[test]
fn mixed_case_digraph_is_read_as_capital() {
    assert_eq!(x_system_to_utf8("eHxoSxanGxo"), "eĤoŜanĜo");
    assert_eq!(x_system_to_utf8("ehXosXangXo"), "eĤoŜanĜo");
    assert_eq!(x_system_to_utf8("EHXO ehxo"), "EĤO eĥo");
}

#[test]
fn fragment_of_a_word_is_left_alone() {
    assert_eq!(h_system_to_utf8("Chiuj estas senchavaj ideoj."), "Ĉiuj estas senchavaj ideoj.");
    assert_eq!(h_system_to_utf8("seshora SESHORA Seshora"), "seshora SESHORA Seshora");
    assert_eq!(h_system_to_utf8("shi"), "ŝi");
}

#[test]
fn longest_fragment_wins() {
    assert_eq!(h_system_to_utf8("tobushaltejo bushaltejo"), "tobushaltejo bushaltejo");
    assert_eq!(h_system_to_utf8("bushalo"), "buŝalo");
    assert_eq!(h_system_to_utf8("neinvershava invershava"), "neinvershava invershava");
}

#[test]
fn au_is_read_as_a_diphthong_but_for_the_fragments() {
    assert_eq!(h_system_to_utf8("Hierau mi vizitis Nauron."), "Hieraŭ mi vizitis Nauron.");
    assert_eq!(h_system_to_utf8("au AU Au aU"), "aŭ AŬ Aŭ aŬ");
    assert_eq!(h_system_to_utf8("praulo antau"), "praulo antaŭ");
}

#[test]
fn capital_at_the_start_of_a_word_in_capitals() {
    assert_eq!(utf8_to_x_system("ĤO"), "HXO");
    assert_eq!(utf8_to_x_system("Ĥo"), "Hxo");
    assert_eq!(utf8_to_x_system("Ĥ"), "Hx");
}

#[test]
fn capital_after_a_capital() {
    assert_eq!(utf8_to_x_system("AĤ"), "AHX");
    assert_eq!(utf8_to_x_system("aĤ"), "aHx");
    assert_eq!(utf8_to_x_system("ĤĈ"), "HXCX");
    assert_eq!(utf8_to_h_system("AĤ"), "AHH");
    assert_eq!(utf8_to_h_system("ĤĈ"), "HHCH");
    assert_eq!(utf8_to_h_system("ŬĈ"), "UCH");
}

#[test]
fn capitals_outside_ascii_count_as_capitals() {
    assert_eq!(utf8_to_x_system("ĤΩ"), "HXΩ");
    assert_eq!(utf8_to_x_system("Ĥω"), "Hxω");
    assert_eq!(utf8_to_x_system("ÉĤ"), "ÉHX");
    assert_eq!(utf8_to_x_system("éĤ"), "éHx");
    assert_eq!(utf8_to_h_system("ŜÄ"), "SHÄ");
}

#[test]
fn capital_u_breve_in_the_h_system() {
    assert_eq!(utf8_to_h_system("Ŭ"), "U");
    assert_eq!(utf8_to_h_system("ŬO"), "UO");
    assert_eq!(utf8_to_h_system("Ŭo ŭo"), "Uo uo");
    assert_eq!(utf8_to_x_system("Ŭo ŬO ŭo"), "Uxo UXO uxo");
}

#[test]
fn text_between_matches_is_copied() {
    assert_eq!(utf8_to_x_system("日本語ĉ日本語"), "日本語cx日本語");
    assert_eq!(x_system_to_utf8("日本語cx日本語gx"), "日本語ĉ日本語ĝ");
    assert_eq!(h_system_to_utf8("🙂sh🙂"), "🙂ŝ🙂");
    assert_eq!(utf8_to_h_system("ĉĉĉ"), "chchch");
}

#[test]
fn between_the_ascii_conventions() {
    assert_eq!(x_system_to_h_system("ehxosxangxo cxiujxauxde"), "ehhoshangho chiujhaude");
    assert_eq!(h_system_to_x_system("ehhoshangho chiujhaude"), "ehxosxangxo cxiujxauxde");
    assert_eq!(h_system_to_x_system("senchava"), "senchava");
}

#[test]
fn names_of_notations() {
    assert_eq!(parse_notation("u"), Some(Notation::Utf8));
    assert_eq!(parse_notation("x"), Some(Notation::XSystem));
    assert_eq!(parse_notation("h"), Some(Notation::HSystem));
    assert_eq!(parse_notation("z"), None);
    assert_eq!(parse_notation(""), None);
    assert_eq!(parse_notation("ux"), None);
    assert_eq!(parse_notation("U"), None);
}

#[test]
fn same_notation_changes_nothing() {
    let texts = ["", "cx ch ĉ", "Ĥo EHXO senchava"];
    for text in texts {
        assert_eq!(convert("u", "u", text), Ok(text.to_owned()));
        assert_eq!(convert("x", "x", text), Ok(text.to_owned()));
        assert_eq!(convert("h", "h", text), Ok(text.to_owned()));
        assert_eq!(convert_between(Notation::Utf8, Notation::Utf8, text), text);
        assert_eq!(convert_between(Notation::XSystem, Notation::XSystem, text), text);
        assert_eq!(convert_between(Notation::HSystem, Notation::HSystem, text), text);
    }
}

#[test]
fn unknown_name_is_refused() {
    assert_eq!(convert("z", "u", "text"), Err(ConvertError::InvalidDirection));
    assert_eq!(convert("u", "z", "text"), Err(ConvertError::InvalidDirection));
    assert_eq!(convert("", "x", "text"), Err(ConvertError::InvalidDirection));
    assert_eq!(convert("ux", "x", "text"), Err(ConvertError::InvalidDirection));
    assert_eq!(convert("z", "z", "text"), Err(ConvertError::InvalidDirection));
}

#[test]
fn convert_goes_by_the_names() {
    assert_eq!(convert("u", "x", "ĵaŭdo"), Ok("jxauxdo".to_owned()));
    assert_eq!(convert("x", "u", "jxauxdo"), Ok("ĵaŭdo".to_owned()));
    assert_eq!(convert("u", "h", "ĵaŭdo"), Ok("jhaudo".to_owned()));
    assert_eq!(convert("h", "u", "jhaudo"), Ok("ĵaŭdo".to_owned()));
    assert_eq!(convert("x", "h", "jxauxdo"), Ok("jhaudo".to_owned()));
    assert_eq!(convert("h", "x", "jhaudo"), Ok("jxauxdo".to_owned()));
}
