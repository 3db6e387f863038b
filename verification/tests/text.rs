use ai_memory::text::{
    chars_of, push_decimal, push_hex, same_text, strip_prefix, trim, white_space,
};

#[test]
fn white_space_is_the_unicode_property() {
    for c in '\u{0}'..=char::MAX {
        assert_eq!(white_space(c), c.is_whitespace(), "{}", c as u32);
    }
}

#[test]
fn trim_takes_white_space_off_both_ends() {
    for s in ["", " ", "a", " a", "a ", " a b ", "\t\u{2003}é\u{3000}", "\u{85}x\u{85}"] {
        assert_eq!(trim(s), s.trim());
        assert_eq!(trim(trim(s)), trim(s));
    }
}

#[test]
fn prefixes_are_stripped() {
    assert_eq!(strip_prefix("sub:é", "sub:"), Some("é"));
    assert_eq!(strip_prefix("sub:", "sub:"), Some(""));
    assert_eq!(strip_prefix("su", "sub:"), None);
    assert_eq!(strip_prefix("user:x", "sub:"), None);
    assert_eq!(strip_prefix("éa", "é"), Some("a"));
}

#[test]
fn texts_are_compared_whole() {
    assert!(same_text("", ""));
    assert!(same_text("é", "é"));
    assert!(!same_text("é", "e"));
    assert!(!same_text("a", "ab"));
}

#[test]
fn characters_come_in_order() {
    assert_eq!(chars_of("aé日"), vec!['a', 'é', '日']);
}

#[test]
fn numbers_in_decimal() {
    for n in [0u64, 7, 10, 99, 100, 4096, u64::MAX] {
        let mut buf = String::from("n=");
        push_decimal(&mut buf, n);
        assert_eq!(buf, format!("n={n}"));
    }
}

#[test]
fn bytes_in_hexadecimal() {
    let mut buf = String::from("x-");
    push_hex(&mut buf, &[0x00, 0x09, 0x0a, 0xaf, 0xf0, 0xff]);
    assert_eq!(buf, "x-00090aaff0ff");
}
