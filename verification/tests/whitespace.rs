use block_tokenizer::Tokenizer;

fn has_white_space_property(c: char) -> bool {
    matches!(
        c,
        '\u{9}'..='\u{d}'
            | ' '
            | '\u{85}'
            | '\u{a0}'
            | '\u{1680}'
            | '\u{2000}'..='\u{200a}'
            | '\u{2028}'
            | '\u{2029}'
            | '\u{202f}'
            | '\u{205f}'
            | '\u{3000}'
    )
}

#[test]
fn whitespace_characters_are_the_white_space_property() {
    let mut count = 0;
    for code in 0..=0x10ffffu32 {
        if let Some(c) = char::from_u32(code) {
            assert_eq!(c.is_whitespace(), has_white_space_property(c), "U+{:04X}", code);
            if c.is_whitespace() {
                count += 1;
            }
        }
    }
    assert_eq!(count, 25);
}

#[test]
fn every_whitespace_character_is_trimmed_and_counted() {
    for code in 0..=0x10ffffu32 {
        if let Some(c) = char::from_u32(code) {
            let line = format!("{}x", c);
            let expected = if has_white_space_property(c) { "x" } else { line.as_str() };
            if c == '\t' {
                assert_eq!(Tokenizer::classify_line(&line, None), None);
                continue;
            }
            let token = Tokenizer::classify_line(&line, None);
            assert_eq!(token.map(|t| t.text), Some(String::from(expected)), "U+{:04X}", code);
            let deep = format!("{0}{0}{0}{0}x", c);
            assert_eq!(Tokenizer::too_much_whitespace(&deep), has_white_space_property(c));
        }
    }
}

#[test]
fn empty_line_is_not_over_indented() {
    assert!(!Tokenizer::too_much_whitespace(""));
}

#[test]
fn content_without_indent_is_not_over_indented() {
    assert!(!Tokenizer::too_much_whitespace("x"));
    assert!(!Tokenizer::too_much_whitespace("# Title"));
    assert!(!Tokenizer::too_much_whitespace("x    y"));
    assert!(!Tokenizer::too_much_whitespace("x\ty"));
}

#[test]
fn up_to_three_spaces_are_not_over_indented() {
    assert!(!Tokenizer::too_much_whitespace(" x"));
    assert!(!Tokenizer::too_much_whitespace("  x"));
    assert!(!Tokenizer::too_much_whitespace("   x"));
}

#[test]
fn four_spaces_are_over_indented() {
    assert!(Tokenizer::too_much_whitespace("    x"));
    assert!(Tokenizer::too_much_whitespace("     x"));
    assert!(Tokenizer::too_much_whitespace("        x"));
}

#[test]
fn whitespace_only_below_four_is_not_over_indented() {
    assert!(!Tokenizer::too_much_whitespace(" "));
    assert!(!Tokenizer::too_much_whitespace("  "));
    assert!(!Tokenizer::too_much_whitespace("   "));
}

#[test]
fn whitespace_only_from_four_on_is_over_indented() {
    assert!(Tokenizer::too_much_whitespace("    "));
    assert!(Tokenizer::too_much_whitespace("     "));
}

#[test]
fn tab_in_leading_whitespace_is_over_indented() {
    assert!(Tokenizer::too_much_whitespace("\t"));
    assert!(Tokenizer::too_much_whitespace("\tx"));
    assert!(Tokenizer::too_much_whitespace(" \tx"));
    assert!(Tokenizer::too_much_whitespace("  \tx"));
    assert!(Tokenizer::too_much_whitespace("   \tx"));
    assert!(Tokenizer::too_much_whitespace("   \t"));
}

#[test]
fn tab_after_content_does_not_count() {
    assert!(!Tokenizer::too_much_whitespace("x\t"));
    assert!(!Tokenizer::too_much_whitespace("  x\t\t\t\t"));
}

#[test]
fn other_whitespace_counts_one_each() {
    assert!(!Tokenizer::too_much_whitespace("\u{a0}\u{a0}\u{a0}x"));
    assert!(Tokenizer::too_much_whitespace("\u{a0}\u{a0}\u{a0}\u{a0}x"));
    assert!(Tokenizer::too_much_whitespace(" \u{3000}\r\u{2028}x"));
    assert!(!Tokenizer::too_much_whitespace("\u{b}\u{c}\rx"));
}
