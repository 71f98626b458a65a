use remote_lab::text::{
    chars_of, is_whitespace, lower_chars, push_decimal, push_decimal2, push_decimal4, same_text,
    trim_chars,
};

#[test]
fn numbers_in_decimal() {
    for n in [0, 7, 10, 99, 100, 65535, u64::MAX] {
        let mut out = String::from("n=");
        push_decimal(&mut out, n);
        assert_eq!(out, format!("n={}", n));
    }
}

#[test]
fn numbers_with_leading_zeros() {
    for n in [0, 5, 9, 10, 59, 99, 100, 999, 1000, 1970, 9999, 10000] {
        let mut two = String::new();
        push_decimal2(&mut two, n);
        assert_eq!(two, format!("{:02}", n));
        let mut four = String::new();
        push_decimal4(&mut four, n);
        assert_eq!(four, format!("{:04}", n));
    }
}

#[test]
fn white_space_is_that_of_unicode() {
    for code in 0..=0x10ffff {
        if let Some(c) = char::from_u32(code) {
            assert_eq!(is_whitespace(c), c.is_whitespace());
        }
    }
}

#[test]
fn trimming_takes_white_space_off_both_ends() {
    for s in ["", " ", "\t y \r\n", "yes", "\u{3000}a b\u{2003}", "\u{200b}x"] {
        let kept: String = trim_chars(&chars_of(s)).into_iter().collect();
        assert_eq!(kept, s.trim());
    }
}

#[test]
fn only_ascii_capitals_are_made_small() {
    let s = "AZaz09[`{@ÄÖ\u{212a}";
    let small: String = lower_chars(&chars_of(s)).into_iter().collect();
    assert_eq!(small, s.to_ascii_lowercase());
}

#[test]
fn same_text_compares_characters() {
    assert!(same_text("", ""));
    assert!(same_text("…x", "…x"));
    assert!(!same_text("a", "ab"));
    assert!(!same_text("a", "b"));
}
