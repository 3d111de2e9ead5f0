use scanner::error::LexError;
use scanner::error::LexErrorKind;
use scanner::lexer::tokenize;
use scanner::lexer::try_tokenize;
use scanner::span::Span;
use scanner::token::Token;
use scanner::token::TokenType;
use scanner::token::TS;

fn tok(kind: TokenType, value: &str, beg: u32, end: u32) -> TS {
    TS { token: Token { kind, value: String::from(value) }, span: Span { beg, end } }
}

fn err(kind: LexErrorKind, line: u32, column: u32) -> LexError {
    LexError { kind, line, column }
}

#[test]
fn unterminated_block_comment_points_at_its_opening() {
    let (tokens, errors) = tokenize("a\n  /* b\nc");
    assert_eq!(
        tokens,
        vec![tok(TokenType::Identifier, "a", 0, 1), tok(TokenType::EOF, "", 10, 10)]
    );
    assert_eq!(errors, vec![err(LexErrorKind::UnterminatedBlockComment, 2, 3)]);
}

#[test]
fn slash_star_slash_does_not_close_itself() {
    let (tokens, errors) = tokenize("/*/");
    assert_eq!(tokens, vec![tok(TokenType::EOF, "", 3, 3)]);
    assert_eq!(errors, vec![err(LexErrorKind::UnterminatedBlockComment, 1, 1)]);
}

#[test]
fn shortest_block_comment() {
    let (tokens, errors) = tokenize("/**/a");
    assert_eq!(
        tokens,
        vec![tok(TokenType::Identifier, "a", 4, 5), tok(TokenType::EOF, "", 5, 5)]
    );
    assert!(errors.is_empty());
}

#[test]
fn block_comment_ends_at_the_first_close() {
    let (tokens, errors) = tokenize("/* a */ b */");
    assert_eq!(
        tokens,
        vec![
            tok(TokenType::Identifier, "b", 8, 9),
            tok(TokenType::Star, "", 10, 11),
            tok(TokenType::FwdSlash, "", 11, 12),
            tok(TokenType::EOF, "", 12, 12),
        ]
    );
    assert!(errors.is_empty());
}

#[test]
fn block_comment_with_stars_inside() {
    let (tokens, errors) = tokenize("/***/x/* ** */y");
    assert_eq!(
        tokens,
        vec![
            tok(TokenType::Identifier, "x", 5, 6),
            tok(TokenType::Identifier, "y", 14, 15),
            tok(TokenType::EOF, "", 15, 15),
        ]
    );
    assert!(errors.is_empty());
}

#[test]
fn line_comment_without_a_newline_runs_to_the_end() {
    let (tokens, errors) = tokenize("a // b");
    assert_eq!(
        tokens,
        vec![tok(TokenType::Identifier, "a", 0, 1), tok(TokenType::EOF, "", 6, 6)]
    );
    assert!(errors.is_empty());
}

#[test]
fn line_comment_counts_its_newline() {
    let (_, errors) = tokenize("// a\n// b\n ~");
    assert_eq!(errors, vec![err(LexErrorKind::UnexpectedCharacter('~'), 3, 2)]);
}

#[test]
fn unterminated_string_takes_the_rest_of_the_text() {
    let (tokens, errors) = tokenize("a \"b c\nd ~");
    assert_eq!(
        tokens,
        vec![tok(TokenType::Identifier, "a", 0, 1), tok(TokenType::EOF, "", 10, 10)]
    );
    assert_eq!(errors, vec![err(LexErrorKind::UnterminatedString, 1, 3)]);
}

#[test]
fn a_lone_quote_is_an_unterminated_string() {
    let (tokens, errors) = tokenize("\"");
    assert_eq!(tokens, vec![tok(TokenType::EOF, "", 1, 1)]);
    assert_eq!(errors, vec![err(LexErrorKind::UnterminatedString, 1, 1)]);
}

#[test]
fn errors_come_in_the_order_met() {
    let (tokens, errors) = tokenize("~ [\n] `\n\"x");
    assert_eq!(tokens, vec![tok(TokenType::EOF, "", 10, 10)]);
    assert_eq!(
        errors,
        vec![
            err(LexErrorKind::UnexpectedCharacter('~'), 1, 1),
            err(LexErrorKind::UnexpectedCharacter('['), 1, 3),
            err(LexErrorKind::UnexpectedCharacter(']'), 2, 1),
            err(LexErrorKind::UnexpectedCharacter('`'), 2, 3),
            err(LexErrorKind::UnterminatedString, 3, 1),
        ]
    );
}

#[test]
fn carriage_return_is_no_blank() {
    let (tokens, errors) = tokenize("a\r\nb");
    assert_eq!(
        tokens,
        vec![
            tok(TokenType::Identifier, "a", 0, 1),
            tok(TokenType::Identifier, "b", 3, 4),
            tok(TokenType::EOF, "", 4, 4),
        ]
    );
    assert_eq!(errors, vec![err(LexErrorKind::UnexpectedCharacter('\r'), 1, 2)]);
}

#[test]
fn a_character_outside_ascii_is_reported_whole() {
    let (tokens, errors) = tokenize("a \u{1F600}\u{e9} b");
    assert_eq!(
        tokens,
        vec![
            tok(TokenType::Identifier, "a", 0, 1),
            tok(TokenType::Identifier, "b", 9, 10),
            tok(TokenType::EOF, "", 10, 10),
        ]
    );
    assert_eq!(
        errors,
        vec![
            err(LexErrorKind::UnexpectedCharacter('\u{1F600}'), 1, 3),
            err(LexErrorKind::UnexpectedCharacter('\u{e9}'), 1, 4),
        ]
    );
}

#[test]
fn tabs_and_spaces_give_nothing() {
    let (tokens, errors) = tokenize(" \t \t\n\n \t");
    assert_eq!(tokens, vec![tok(TokenType::EOF, "", 8, 8)]);
    assert!(errors.is_empty());
}

#[test]
fn every_repeated_character_is_passed() {
    let samples = [
        ' ', '\t', '\n', '\r', '/', '*', '"', '\'', '&', '|', '=', '!', '<', '>', '+', '-', '_',
        'a', 'Z', '0', '9', '~', '[', '?', '\u{e9}', '\u{0}',
    ];
    for c in samples.iter() {
        let source: String = std::iter::repeat(*c).take(64).collect();
        let (tokens, errors) = tokenize(&source);
        assert!(tokens.len() + errors.len() <= 65, "too much out of {:?}", source);
        let last = &tokens[tokens.len() - 1];
        assert_eq!(last.token.kind, TokenType::EOF);
        assert_eq!(last.span.beg as usize, source.len());
        assert_eq!(last.span.end as usize, source.len());
    }
}

#[test]
fn try_tokenize_agrees_with_tokenize() {
    let source = "a && \"b\" ~ /* c";
    let (tokens, errors) = tokenize(source);
    assert_eq!(try_tokenize(source), Some((tokens, errors)));
    assert_eq!(
        try_tokenize(""),
        Some((vec![tok(TokenType::EOF, "", 0, 0)], Vec::<LexError>::new()))
    );
}
