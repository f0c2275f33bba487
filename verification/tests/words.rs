use subtake::words::clean;

#[test]
fn whitespace_becomes_single_spaces() {
    assert_eq!(clean("  a \t b\n"), "a b");
    assert_eq!(clean("hello"), "hello");
    assert_eq!(clean(""), "");
    assert_eq!(clean(" \n\t "), "");
    assert_eq!(clean("one  two\u{3000}three"), "one two three");
    for text in ["x  y", " leading", "trailing ", "a\r\nb", "\u{a0}nb\u{a0}sp"] {
        let expected = text.split_whitespace().collect::<Vec<_>>().join(" ");
        assert_eq!(clean(text), expected, "{text:?}");
    }
}

#[test]
fn whitespace_is_the_unicode_white_space_property() {
    for c in (0u32..=0x10ffff).filter_map(char::from_u32) {
        assert_eq!(subtake::words::is_white(c), c.is_whitespace(), "{:x}", c as u32);
    }
}
