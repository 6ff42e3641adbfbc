use nova_engine::text::{char_is_white_space, decimal_string, is_blank};

#[test]
fn decimal_rendering() {
    assert_eq!(decimal_string(0), "0");
    assert_eq!(decimal_string(7), "7");
    assert_eq!(decimal_string(10), "10");
    assert_eq!(decimal_string(1_000_507), "1000507");
    assert_eq!(decimal_string(u128::MAX), u128::MAX.to_string());
}

#[test]
fn blank_matches_trim() {
    for s in ["", " ", "\t\n\r", "\u{85}\u{a0}\u{2003}\u{3000}", " a ", "x", "\u{200b}"] {
        assert_eq!(is_blank(s), s.trim().is_empty(), "{:?}", s);
    }
    for c in ['\u{0}', ' ', '\u{b}', '\u{1680}', '\u{2028}', '\u{202f}', '\u{205f}', 'a', '\u{180e}'] {
        assert_eq!(char_is_white_space(c), c.is_whitespace(), "{:?}", c);
    }
}
