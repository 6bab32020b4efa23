use block_tokenizer::{Token, TokenType, Tokenizer};

fn token(token_type: TokenType, text: &str, open: bool) -> Token {
    Token { token_type, text: String::from(text), open }
}

fn tokenizer(tokens: Vec<Token>, lines: &[&str]) -> Tokenizer {
    let lines: Vec<String> = lines.iter().map(|line| String::from(*line)).collect();
    Tokenizer { tokens, lines: lines.into_boxed_slice() }
}

fn tokenize(lines: &[&str]) -> Vec<Token> {
    let mut pass = tokenizer(vec![], lines);
    assert!(pass.chunk().is_ok());
    pass.tokens
}

#[test]
fn end_to_end_document() {
    let tokens = tokenize(&["# Title", "", "Body text", "---"]);
    assert_eq!(
        tokens,
        vec![
            token(TokenType::Header(1), "# Title", false),
            token(TokenType::BlankLine, "", false),
            token(TokenType::Paragraph, "Body text", false),
            token(TokenType::SetextHeading, "---", false),
        ],
    );
}

#[test]
fn empty_document_has_no_tokens() {
    assert_eq!(tokenize(&[]), vec![]);
}

#[test]
fn pass_succeeds_and_keeps_the_lines() {
    let mut pass = tokenizer(vec![], &["# Title", "    code", "\tcode", "text"]);
    assert!(pass.chunk().is_ok());
    let lines: Vec<&str> = pass.lines.iter().map(|line| line.as_str()).collect();
    assert_eq!(lines, vec!["# Title", "    code", "\tcode", "text"]);
}

#[test]
fn dashes_after_given_paragraph_are_a_setext_heading() {
    let mut pass = tokenizer(vec![token(TokenType::Paragraph, "Title", false)], &["---"]);
    assert!(pass.chunk().is_ok());
    assert_eq!(
        pass.tokens,
        vec![
            token(TokenType::Paragraph, "Title", false),
            token(TokenType::SetextHeading, "---", false),
        ],
    );
}

#[test]
fn dashes_after_given_blank_line_are_a_thematic_break() {
    let mut pass = tokenizer(vec![token(TokenType::BlankLine, "", false)], &["---"]);
    assert!(pass.chunk().is_ok());
    assert_eq!(
        pass.tokens,
        vec![
            token(TokenType::BlankLine, "", false),
            token(TokenType::ThematicBreak, "---", false),
        ],
    );
}

#[test]
fn two_dashes_after_given_blank_line_stay_undetermined() {
    let mut pass = tokenizer(vec![token(TokenType::BlankLine, "", false)], &["--"]);
    assert!(pass.chunk().is_ok());
    assert_eq!(
        pass.tokens,
        vec![
            token(TokenType::BlankLine, "", false),
            token(TokenType::Undetermined('-', 2), "--", true),
        ],
    );
}

#[test]
fn dashes_on_the_first_line_are_a_thematic_break() {
    assert_eq!(tokenize(&["---"]), vec![token(TokenType::ThematicBreak, "---", false)]);
}

#[test]
fn short_run_on_the_first_line_stays_undetermined() {
    assert_eq!(tokenize(&["-"]), vec![token(TokenType::Undetermined('-', 1), "-", true)]);
}

#[test]
fn over_indented_lines_are_skipped() {
    let tokens = tokenize(&["    code", "text", "\tcode", "     ", "more"]);
    assert_eq!(
        tokens,
        vec![
            token(TokenType::Paragraph, "text", false),
            token(TokenType::Paragraph, "more", false),
        ],
    );
}

#[test]
fn lookback_is_the_last_emitted_token() {
    let tokens = tokenize(&["Title", "    skipped", "---"]);
    assert_eq!(
        tokens,
        vec![
            token(TokenType::Paragraph, "Title", false),
            token(TokenType::SetextHeading, "---", false),
        ],
    );
}

#[test]
fn lookback_reaches_one_token_only() {
    let tokens = tokenize(&["Title", "", "---", "---"]);
    assert_eq!(
        tokens,
        vec![
            token(TokenType::Paragraph, "Title", false),
            token(TokenType::BlankLine, "", false),
            token(TokenType::ThematicBreak, "---", false),
            token(TokenType::ThematicBreak, "---", false),
        ],
    );
}

#[test]
fn setext_heading_is_not_a_paragraph_for_the_next_line() {
    let tokens = tokenize(&["Title", "===", "=="]);
    assert_eq!(
        tokens,
        vec![
            token(TokenType::Paragraph, "Title", false),
            token(TokenType::SetextHeading, "===", false),
            token(TokenType::Undetermined('=', 1), "==", true),
        ],
    );
}

#[test]
fn seven_hashes_make_a_paragraph_that_a_run_can_follow() {
    let tokens = tokenize(&["####### Title", "-"]);
    assert_eq!(
        tokens,
        vec![
            token(TokenType::Paragraph, "####### Title", false),
            token(TokenType::SetextHeading, "-", false),
        ],
    );
}

#[test]
fn pass_appends_to_the_tokens_held() {
    let held = vec![
        token(TokenType::Link, "kept", true),
        token(TokenType::Undetermined('*', 4), "kept too", false),
    ];
    let mut pass = tokenizer(held, &["text", "   ## Two"]);
    assert!(pass.chunk().is_ok());
    assert_eq!(
        pass.tokens,
        vec![
            token(TokenType::Link, "kept", true),
            token(TokenType::Undetermined('*', 4), "kept too", false),
            token(TokenType::Paragraph, "text", false),
            token(TokenType::Header(2), "## Two", false),
        ],
    );
}

#[test]
fn second_pass_reads_the_lines_again() {
    let mut pass = tokenizer(vec![], &["Title", "--"]);
    assert!(pass.chunk().is_ok());
    assert!(pass.chunk().is_ok());
    assert_eq!(
        pass.tokens,
        vec![
            token(TokenType::Paragraph, "Title", false),
            token(TokenType::SetextHeading, "--", false),
            token(TokenType::Paragraph, "Title", false),
            token(TokenType::SetextHeading, "--", false),
        ],
    );
}

#[test]
fn repeated_passes_give_identical_tokens() {
    let lines = ["# Title", "", "Body text", "---", "--", "  * item", "\tcode", "=-", "####### x"];
    let first = tokenize(&lines);
    let second = tokenize(&lines);
    assert_eq!(first, second);
    assert_eq!(format!("{:?}", first), format!("{:?}", second));
}

#[test]
fn resolved_document_has_no_undetermined_token() {
    let tokens = tokenize(&["# Title", "", "Body text", "---", "", "-----", "text", "=", "   "]);
    assert_eq!(tokens.len(), 9);
    for token in &tokens {
        assert!(!matches!(token.token_type, TokenType::Undetermined(_, _)));
        assert!(!token.open);
    }
}

#[test]
fn unresolved_lines_are_the_open_tokens() {
    let tokens = tokenize(&["", "--", "text", "--", "***", "+ item", "_", "=-", "---"]);
    let open: Vec<bool> = tokens.iter().map(|token| token.open).collect();
    assert_eq!(open, vec![false, true, false, false, true, true, true, true, false]);
    for token in &tokens {
        assert_eq!(token.open, matches!(token.token_type, TokenType::Undetermined(_, _)));
    }
    assert_eq!(tokens[1].token_type, TokenType::Undetermined('-', 2));
    assert_eq!(tokens[4].token_type, TokenType::Undetermined('*', 1));
    assert_eq!(tokens[5].token_type, TokenType::Undetermined('+', 1));
    assert_eq!(tokens[6].token_type, TokenType::Undetermined('_', 1));
    assert_eq!(tokens[7].token_type, TokenType::Undetermined('=', 2));
    assert_eq!(tokens[8].token_type, TokenType::ThematicBreak);
}

#[test]
fn header_levels_stay_within_one_and_six() {
    let lines = ["#", "##", "###", "####", "#####", "######", "#######", "# # # # # #", "# # # # # # #"];
    let tokens = tokenize(&lines);
    let kinds: Vec<TokenType> = tokens.into_iter().map(|token| token.token_type).collect();
    assert_eq!(
        kinds,
        vec![
            TokenType::Header(1),
            TokenType::Header(2),
            TokenType::Header(3),
            TokenType::Header(4),
            TokenType::Header(5),
            TokenType::Header(6),
            TokenType::Paragraph,
            TokenType::Header(6),
            TokenType::Paragraph,
        ],
    );
}

#[test]
fn one_token_for_each_line_that_is_not_over_indented() {
    let lines = ["a", "", " b", "  c", "   d", "    e", "\tf", " \tg", "-", "#"];
    assert_eq!(tokenize(&lines).len(), 7);
}
