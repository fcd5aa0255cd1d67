use port_scanner::text::contains_sub;
use port_scanner::text::parse_u16;

#[test]
fn contains_finds_flag_at_start() {
    assert!(contains_sub("-h", "-h"));
    assert!(contains_sub("-j", "-j"));
}

#[test]
fn contains_finds_flag_inside() {
    assert!(contains_sub("--help", "-h"));
    assert!(contains_sub("--help", "--help"));
    assert!(contains_sub("xx-jyy", "-j"));
}

#[test]
fn contains_rejects_absent_pattern() {
    assert!(!contains_sub("abc", "-j"));
    assert!(!contains_sub("-j", "--help"));
    assert!(!contains_sub("", "-h"));
    assert!(!contains_sub("j-", "-j"));
}

#[test]
fn contains_empty_pattern_always_found() {
    assert!(contains_sub("abc", ""));
    assert!(contains_sub("", ""));
}

#[test]
fn contains_handles_non_ascii_text() {
    assert!(contains_sub("héllo-j", "-j"));
    assert!(!contains_sub("héllo", "-j"));
}

#[test]
fn parse_accepts_plain_numbers() {
    assert_eq!(parse_u16("0"), Some(0));
    assert_eq!(parse_u16("4"), Some(4));
    assert_eq!(parse_u16("100"), Some(100));
    assert_eq!(parse_u16("65535"), Some(65535));
}

#[test]
fn parse_accepts_leading_plus() {
    assert_eq!(parse_u16("+17"), Some(17));
    assert_eq!(parse_u16("+0"), Some(0));
}

#[test]
fn parse_rejects_overflow() {
    assert_eq!(parse_u16("65536"), None);
    assert_eq!(parse_u16("999999999999"), None);
}

#[test]
fn parse_rejects_malformed_numbers() {
    assert_eq!(parse_u16(""), None);
    assert_eq!(parse_u16("+"), None);
    assert_eq!(parse_u16("12a"), None);
    assert_eq!(parse_u16("-4"), None);
    assert_eq!(parse_u16(" 4"), None);
    assert_eq!(parse_u16("4 "), None);
    assert_eq!(parse_u16("++4"), None);
}

#[test]
fn parse_agrees_with_standard_parser() {
    for s in ["0", "0042", "+65535", "65536", "070000", "", "+", "--4", "1e3"] {
        assert_eq!(parse_u16(s), s.parse::<u16>().ok(), "input {:?}", s);
    }
}
