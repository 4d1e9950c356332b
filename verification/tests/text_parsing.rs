use backend::template::{read_template, template_literals};
use backend::text::{
    chars_of, is_float_text, parse_unsigned_text, text_eq, trim_end_matches_text, IntErrorKind,
};

#[test]
fn unsigned_parsing_follows_std() {
    assert_eq!(parse_unsigned_text("0", 255), Ok(0));
    assert_eq!(parse_unsigned_text("+255", 255), Ok(255));
    assert_eq!(parse_unsigned_text("007", 255), Ok(7));
    assert_eq!(parse_unsigned_text("256", 255), Err(IntErrorKind::PosOverflow));
    assert_eq!(parse_unsigned_text("", 255), Err(IntErrorKind::Empty));
    assert_eq!(parse_unsigned_text("+", 255), Err(IntErrorKind::InvalidDigit));
    assert_eq!(parse_unsigned_text("-1", 255), Err(IntErrorKind::InvalidDigit));
    assert_eq!(parse_unsigned_text(" 1", 255), Err(IntErrorKind::InvalidDigit));
    // overflow is found before a later bad character
    assert_eq!(parse_unsigned_text("300x", 255), Err(IntErrorKind::PosOverflow));
    assert_eq!(parse_unsigned_text("3x00", 255), Err(IntErrorKind::InvalidDigit));
    assert_eq!(parse_unsigned_text("4294967295", 0xffff_ffff), Ok(4_294_967_295));
    assert_eq!(parse_unsigned_text("4294967296", 0xffff_ffff), Err(IntErrorKind::PosOverflow));
    for s in ["0", "+9", "65535", "65536", "", "+", "a"] {
        assert_eq!(parse_unsigned_text(s, 0xffff).ok(), s.parse::<u16>().ok().map(u64::from), "{s}");
    }
}

#[test]
fn float_grammar_matches_std() {
    for s in [
        "1", "1.", ".5", "1.5", "-1.5", "+2", "1e5", "1E-5", "2.5e+3", "inf", "-INF", "Infinity",
        "nan", "NaN", "", ".", "e5", "1e", "1.2.3", "1..2", "+", "-", " 1", "1 ", "0x10", "infinit",
        "1e5.0", "..", "25.0",
    ] {
        assert_eq!(is_float_text(s), s.parse::<f32>().is_ok(), "{s:?}");
    }
}

#[test]
fn trim_end_matches_repeats() {
    assert_eq!(trim_end_matches_text("12msms", "ms"), "12");
    assert_eq!(trim_end_matches_text("5VVV", "V"), "5");
    assert_eq!(trim_end_matches_text("m", "ms"), "m");
    assert_eq!(trim_end_matches_text("abc", ""), "abc");
    assert_eq!(trim_end_matches_text("", "x"), "");
}

#[test]
fn text_equality_and_chars() {
    assert!(text_eq("Signal", "Signal"));
    assert!(!text_eq("Signal", "signal"));
    assert!(!text_eq("CH", "CHX"));
    assert_eq!(chars_of("añb"), vec!['a', 'ñ', 'b']);
}

#[test]
fn template_reading() {
    let lits = template_literals(&["<", ",", ">"]);
    assert_eq!(read_template("<a,b>", &lits), Some(vec!["a".to_string(), "b".to_string()]));
    // the first field stops at the first comma; the last runs to the final '>'
    assert_eq!(read_template("<a,b,c>>", &lits), Some(vec!["a".to_string(), "b,c>".to_string()]));
    assert_eq!(read_template("<,>", &lits), Some(vec![String::new(), String::new()]));
    assert_eq!(read_template("a,b>", &lits), None);
    assert_eq!(read_template("<ab>", &lits), None);
    assert_eq!(read_template("<a,b", &lits), None);
}
