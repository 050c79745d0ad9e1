use orbit_pi::text::{bounded_text, char_is_whitespace, join, replace_newlines, trim};

#[test]
fn trim_removes_unicode_white_space_at_both_ends() {
    assert_eq!(trim(" \tscout\n"), "scout");
    assert_eq!(trim("\u{3000}deep scout\u{a0}"), "deep scout");
    assert_eq!(trim("   "), "");
    assert_eq!(trim(""), "");
    assert_eq!(trim("a b"), "a b");
}

#[test]
fn line_breaks_become_spaces() {
    assert_eq!(replace_newlines("Inspect\nfiles\n"), "Inspect files ");
    assert_eq!(replace_newlines("a\r\nb"), "a\r b");
}

#[test]
fn bounded_text_cuts_by_characters() {
    assert_eq!(bounded_text("界界界", 2), ("界界".to_string(), true));
    assert_eq!(bounded_text("界界", 2), ("界界".to_string(), false));
    assert_eq!(bounded_text("", 0), (String::new(), false));
}

#[test]
fn join_puts_the_separator_between_parts() {
    assert_eq!(join(&vec![], " · "), "");
    assert_eq!(join(&vec!["a".to_string()], " · "), "a");
    assert_eq!(join(&vec!["a".to_string(), "b".to_string(), "c".to_string()], ", "), "a, b, c");
}

#[test]
fn white_space_is_what_std_calls_white_space() {
    for code in 0..=0x10FFFFu32 {
        if let Some(c) = char::from_u32(code) {
            assert_eq!(char_is_whitespace(c), c.is_whitespace(), "U+{code:04X}");
        }
    }
}
