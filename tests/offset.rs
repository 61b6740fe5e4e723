use splash::offset::parse_offset;

#[test]
fn number_with_newline_reads_back() {
    assert_eq!(parse_offset(b"42\n"), Some(42));
}

#[test]
fn text_that_is_no_number_gives_none() {
    assert_eq!(parse_offset(b"abc"), None);
}

#[test]
fn surrounding_whitespace_is_ignored() {
    assert_eq!(parse_offset(b" \t 7 \r\n"), Some(7));
}

#[test]
fn empty_text_gives_none() {
    assert_eq!(parse_offset(b""), None);
    assert_eq!(parse_offset(b" \n"), None);
}

#[test]
fn leading_plus_is_accepted() {
    assert_eq!(parse_offset(b"+5"), Some(5));
    assert_eq!(parse_offset(b"+"), None);
}

#[test]
fn sign_or_inner_space_gives_none() {
    assert_eq!(parse_offset(b"-1"), None);
    assert_eq!(parse_offset(b"1 2"), None);
}

#[test]
fn largest_value_and_overflow() {
    assert_eq!(parse_offset(b"4294967295"), Some(u32::MAX));
    assert_eq!(parse_offset(b"4294967296"), None);
    assert_eq!(parse_offset(b"99999999999999999999"), None);
    assert_eq!(parse_offset(b"007"), Some(7));
}

#[test]
fn unicode_whitespace_is_trimmed() {
    assert_eq!(parse_offset("42\u{a0}".as_bytes()), Some(42));
    assert_eq!(parse_offset("\u{3000}7\u{2028}".as_bytes()), Some(7));
    assert_eq!(parse_offset("\u{85}\u{2009}15\u{1680}\u{202f}\n".as_bytes()), Some(15));
    assert_eq!(parse_offset("\u{205f}3\u{200a}".as_bytes()), Some(3));
}

#[test]
fn non_space_characters_are_kept() {
    assert_eq!(parse_offset("42\u{200b}".as_bytes()), None);
    assert_eq!(parse_offset("\u{e9}1".as_bytes()), None);
}
