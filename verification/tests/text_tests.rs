use embed_core::text::{
    contains_char, contains_str, dec_to_string, eq_ignore_ascii_case, hex_string,
    hex_string_spaced, list_has, parse_u64_bounded, parse_usize, str_eq, strip_blanks, to_chars,
    trim,
};

#[test]
fn decimal_numerals() {
    assert_eq!(dec_to_string(0), "0");
    assert_eq!(dec_to_string(7), "7");
    assert_eq!(dec_to_string(1234567890), "1234567890");
    assert_eq!(dec_to_string(u64::MAX), "18446744073709551615");
}

#[test]
fn numerals_are_read_as_the_standard_parser_reads_them() {
    for s in ["0", "7", "007", "+5", "123", "", "+", "-", "-5", "1a", " 1", "1 ", "++1", "٣"] {
        assert_eq!(parse_usize(s), s.parse::<usize>().ok(), "{:?}", s);
    }
    assert_eq!(parse_usize("18446744073709551615"), "18446744073709551615".parse::<usize>().ok());
    assert_eq!(parse_usize("18446744073709551616"), None);
    assert_eq!(parse_usize("99999999999999999999999"), None);
    for s in ["0", "255", "256", "+255", "1000", "25x"] {
        assert_eq!(parse_u64_bounded(s, 255), s.parse::<u8>().ok().map(|v| v as u64), "{:?}", s);
    }
}

#[test]
fn trimming_takes_unicode_white_space() {
    for s in ["", "  a b  ", "\t\nx\r\n", "\u{3000}南网\u{a0}", "   ", "a", "\u{200b}a"] {
        assert_eq!(trim(s), s.trim(), "{:?}", s);
    }
}

#[test]
fn comparison_up_to_ascii_case() {
    assert!(eq_ignore_ascii_case("csg13", "CSG13"));
    assert!(eq_ignore_ascii_case("", ""));
    assert!(!eq_ignore_ascii_case("csg13", "CSG16"));
    assert!(!eq_ignore_ascii_case("csg13", "CSG1"));
    assert!(eq_ignore_ascii_case("南网a", "南网A"));
    assert!(!eq_ignore_ascii_case("ä", "Ä"));
    assert!(str_eq("abc", "abc"));
    assert!(!str_eq("abc", "abC"));
}

#[test]
fn lists_of_comma_separated_entries() {
    assert!(list_has("CSG13, csg16", "CSG16"));
    assert!(list_has("CSG13,csg16", "csg13"));
    assert!(!list_has("CSG13,csg16", "CSG1"));
    assert!(list_has("", ""));
    assert!(list_has("a,,b", ""));
    assert!(!list_has("a,b", ""));
    assert!(list_has(" 南网 ,云南", "云南"));
}

#[test]
fn searching_texts() {
    assert!(contains_char("a,b", ','));
    assert!(!contains_char("ab", ','));
    assert!(contains_str("DLT/645-2007", "DLT/645"));
    assert!(contains_str("abc", ""));
    assert!(!contains_str("MOUDL", "MOUDLE"));
    assert!(contains_str("xxMS", "MS"));
    assert_eq!(strip_blanks(" a b\nc "), vec!['a', 'b', 'c']);
    assert_eq!(to_chars("南a"), vec!['南', 'a']);
    assert_eq!(hex_string(&[0x0A, 0xF0]), "0AF0");
    assert_eq!(hex_string_spaced(&[0x0A, 0xF0]), "0A F0");
}
