use scanner::error::LexError;
use scanner::error::LexErrorKind;
use scanner::lexer::tokenize;
use scanner::span::Span;
use scanner::token::Token;
use scanner::token::TokenType;
use scanner::token::TS;

fn tok(kind: TokenType, value: &str, beg: u32, end: u32) -> TS {
    TS { token: Token { kind, value: String::from(value) }, span: Span { beg, end } }
}

#[test]
fn empty_input_gives_only_the_end_marker() {
    let (tokens, errors) = tokenize("");
    assert_eq!(tokens, vec![tok(TokenType::EOF, "", 0, 0)]);
    assert_eq!(errors, Vec::<LexError>::new());
}

#[test]
fn line_comment_is_skipped() {
    let (tokens, errors) = tokenize("// ignore\nfoo");
    assert_eq!(
        tokens,
        vec![tok(TokenType::Identifier, "foo", 10, 13), tok(TokenType::EOF, "", 13, 13)]
    );
    assert!(errors.is_empty());
}

#[test]
fn block_comment_with_newline_is_skipped_and_counted() {
    let (tokens, errors) = tokenize("/* a\nb */x");
    assert_eq!(
        tokens,
        vec![tok(TokenType::Identifier, "x", 9, 10), tok(TokenType::EOF, "", 10, 10)]
    );
    assert!(errors.is_empty());
    let (_, later) = tokenize("/* a\nb */ ~");
    assert_eq!(
        later,
        vec![LexError { kind: LexErrorKind::UnexpectedCharacter('~'), line: 2, column: 6 }]
    );
}

#[test]
fn double_ampersand_is_one_token() {
    let (tokens, errors) = tokenize("a && b");
    assert_eq!(
        tokens,
        vec![
            tok(TokenType::Identifier, "a", 0, 1),
            tok(TokenType::LogicalAnd, "", 2, 4),
            tok(TokenType::Identifier, "b", 5, 6),
            tok(TokenType::EOF, "", 6, 6),
        ]
    );
    assert!(errors.is_empty());
}

#[test]
fn unterminated_string_keeps_earlier_tokens() {
    let (tokens, errors) = tokenize("x = \"abc");
    assert_eq!(
        tokens,
        vec![
            tok(TokenType::Identifier, "x", 0, 1),
            tok(TokenType::Equals, "", 2, 3),
            tok(TokenType::EOF, "", 8, 8),
        ]
    );
    assert_eq!(
        errors,
        vec![LexError { kind: LexErrorKind::UnterminatedString, line: 1, column: 5 }]
    );
}

#[test]
fn unknown_character_does_not_stop_the_pass() {
    let (tokens, errors) = tokenize("a ~ b");
    assert_eq!(
        tokens,
        vec![
            tok(TokenType::Identifier, "a", 0, 1),
            tok(TokenType::Identifier, "b", 4, 5),
            tok(TokenType::EOF, "", 5, 5),
        ]
    );
    assert_eq!(
        errors,
        vec![LexError { kind: LexErrorKind::UnexpectedCharacter('~'), line: 1, column: 3 }]
    );
}

#[test]
fn digits_then_letters_are_two_tokens() {
    let (tokens, errors) = tokenize("123abc");
    assert_eq!(
        tokens,
        vec![
            tok(TokenType::NumberLiteral, "123", 0, 3),
            tok(TokenType::Identifier, "abc", 3, 6),
            tok(TokenType::EOF, "", 6, 6),
        ]
    );
    assert!(errors.is_empty());
}
