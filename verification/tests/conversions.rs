use esperanto_text::{h_system_to_utf8, utf8_to_h_system, utf8_to_x_system, x_system_to_utf8};

#[test]
fn test_x_system_to_utf8_noop() {
    let input = "The quick brown fox jumps over the lazy dog. And my axe.".to_owned();
    assert_eq!(input, x_system_to_utf8(&input));
}

#[test]
fn test_x_system_to_utf8_echo_change() {
    let input = "ehxosxangxo cxiujxauxde EHXOSXANGXO CXIUJXAUXDE";
    let expected = "eĥoŝanĝo ĉiuĵaŭde EĤOŜANĜO ĈIUĴAŬDE";
    assert_eq!(&x_system_to_utf8(input), expected);
}

#[test]
fn test_x_system_to_utf8_mixed_case() {
    let input = "eHxoSxanGxo CxiuJxaUxde ehXosXangXo cXiujXauXde";
    let expected = "eĤoŜanĜo ĈiuĴaŬde eĤoŜanĜo ĈiuĴaŬde";
    assert_eq!(&x_system_to_utf8(input), expected);
}

#[test]
fn test_utf8_to_x_system_noop() {
    let input = "The quick brown fox jumps over the lazy dog. And my axe.".to_owned();
    assert_eq!(input, utf8_to_x_system(&input));
}

#[test]
fn test_utf8_to_x_system_echo_change() {
    let input = "eĥoŝanĝo ĉiuĵaŭde EĤOŜANĜO ĈIUĴAŬDE";
    let expected = "ehxosxangxo cxiujxauxde EHXOSXANGXO CXIUJXAUXDE";
    assert_eq!(&utf8_to_x_system(input), expected);
}

#[test]
fn test_utf8_to_h_system_noop() {
    let input = "The quick brown fox jumps over the lazy dog. And my axe.".to_owned();
    assert_eq!(input, utf8_to_h_system(&input));
}

#[test]
fn test_utf8_to_h_system_echo_change() {
    let input = "eĥoŝanĝo ĉiuĵaŭde EĤOŜANĜO ĈIUĴAŬDE";
    let expected = "ehhoshangho chiujhaude EHHOSHANGHO CHIUJHAUDE";
    assert_eq!(&utf8_to_h_system(input), expected);
}

#[test]
fn test_h_system_to_utf8_noop() {
    let input = "The quick brown fox jumps over the lazy dog. And my axe.".to_owned();
    assert_eq!(input, h_system_to_utf8(&input));
}

#[test]
fn test_h_system_to_utf8_echo_change() {
    let input = "ehhoshangho chiujhaude EHHOSHANGHO CHIUJHAUDE";
    let expected = "eĥoŝanĝo ĉiuĵaŭde EĤOŜANĜO ĈIUĴAŬDE";
    assert_eq!(&h_system_to_utf8(input), expected);
}

#[test]
fn test_h_system_to_utf8_mixed_case() {
    let input = "eHhoShanGho ChiuJhAUde ehHosHangHo cHiujHaUde";
    let expected = "eĤoŜanĜo ĈiuĴAŬde eĤoŜanĜo ĈiuĴaŬde";
    assert_eq!(&h_system_to_utf8(input), expected);
}

#[test]
fn test_h_system_ambiguous_h() {
    let input = "Chiuj estas senchavaj ideoj.";
    let expected = "Ĉiuj estas senchavaj ideoj.";
    assert_eq!(&h_system_to_utf8(input), expected);
}

#[test]
fn test_h_system_ambiguous_u() {
    let input = "Hierau mi vizitis Nauron.";
    let expected = "Hieraŭ mi vizitis Nauron.";
    assert_eq!(&h_system_to_utf8(input), expected);
}

#[test]
fn test_leading_capital_x_system() {
    let input = "Ĉiuj estas belaj. Ĥ Ŝ Ĝ Ĉ Ĵ Ŭ ĤO ŜO ĜO ĈO ĴO ŬO";
    let expected = "Cxiuj estas belaj. Hx Sx Gx Cx Jx Ux HXO SXO GXO CXO JXO UXO";
    assert_eq!(&utf8_to_x_system(input), expected);
}

#[test]
fn test_leading_capital_h_system() {
    let input = "Ĉiuj estas belaj. Ĥ Ŝ Ĝ Ĉ Ĵ Ŭ ĤO ŜO ĜO ĈO ĴO ŬO";
    let expected = "Chiuj estas belaj. Hh Sh Gh Ch Jh U HHO SHO GHO CHO JHO UO";
    assert_eq!(&utf8_to_h_system(input), expected);
}
