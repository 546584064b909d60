use minimal_compiler::text::{cut, same_text, trim_blanks};

#[test]
fn trim_blanks_skips_space_tab_and_newline() {
    assert_eq!(trim_blanks("  int"), "int");
    assert_eq!(trim_blanks(" \t\n x y "), "x y ");
    assert_eq!(trim_blanks("int "), "int ");
    assert_eq!(trim_blanks(""), "");
    assert_eq!(trim_blanks("   \n\t "), "");
}

#[test]
fn trim_blanks_stops_at_other_white_space() {
    assert_eq!(trim_blanks(" \r\n"), "\r\n");
    assert_eq!(trim_blanks(" \u{a0}x"), "\u{a0}x");
    assert_eq!(trim_blanks("\u{2003}"), "\u{2003}");
}

#[test]
fn same_text_compares_characters() {
    assert!(same_text("int", "int"));
    assert!(same_text("", ""));
    assert!(!same_text("int", "inT"));
    assert!(!same_text("int", "in"));
    assert!(!same_text("in", "int"));
    assert!(same_text("\u{e9}", "\u{e9}"));
    assert!(!same_text("\u{e9}", "e"));
}

#[test]
fn cut_splits_at_a_byte_offset() {
    assert_eq!(cut("return 2", 6), Some(("return", " 2")));
    assert_eq!(cut("return", 0), Some(("", "return")));
    assert_eq!(cut("return", 6), Some(("return", "")));
    assert_eq!(cut("return", 7), None);
}

#[test]
fn cut_refuses_the_middle_of_a_character() {
    assert_eq!(cut("a\u{e9}b", 1), Some(("a", "\u{e9}b")));
    assert_eq!(cut("a\u{e9}b", 2), None);
    assert_eq!(cut("a\u{e9}b", 3), Some(("a\u{e9}", "b")));
}
