use scanner::lexer::double_op;
use scanner::lexer::single_op;
use scanner::lexer::tokenize;
use scanner::token::TokenType;

fn kinds(source: &str) -> Vec<TokenType> {
    let (tokens, errors) = tokenize(source);
    assert!(errors.is_empty(), "unexpected errors in {:?}: {:?}", source, errors);
    tokens.iter().map(|t| t.token.kind).collect()
}

#[test]
fn every_single_character_token() {
    assert_eq!(
        kinds("( ) { } | \\ * ! & % ^ + , . - # = : ; < > / '"),
        vec![
            TokenType::OpenParen,
            TokenType::ClosedParen,
            TokenType::OpenBracket,
            TokenType::ClosedBracket,
            TokenType::Or,
            TokenType::BackSlash,
            TokenType::Star,
            TokenType::Bang,
            TokenType::And,
            TokenType::Modulo,
            TokenType::Caret,
            TokenType::Plus,
            TokenType::Comma,
            TokenType::Period,
            TokenType::Minus,
            TokenType::Hashtag,
            TokenType::Equals,
            TokenType::Colon,
            TokenType::Semicolon,
            TokenType::LeftCaret,
            TokenType::RightCaret,
            TokenType::FwdSlash,
            TokenType::SingleQuote,
            TokenType::EOF,
        ]
    );
}

#[test]
fn every_two_character_operator() {
    assert_eq!(
        kinds("&& || == != <= >="),
        vec![
            TokenType::LogicalAnd,
            TokenType::LogicalOr,
            TokenType::EqualEqual,
            TokenType::NotEqual,
            TokenType::LessEqual,
            TokenType::GreaterEqual,
            TokenType::EOF,
        ]
    );
}

#[test]
fn two_character_operators_need_no_blank_around_them() {
    assert_eq!(
        kinds("a<=b"),
        vec![TokenType::Identifier, TokenType::LessEqual, TokenType::Identifier, TokenType::EOF]
    );
    assert_eq!(
        kinds("x!=1"),
        vec![TokenType::Identifier, TokenType::NotEqual, TokenType::NumberLiteral, TokenType::EOF]
    );
}

#[test]
fn longest_operator_is_taken_first() {
    assert_eq!(kinds("&&&"), vec![TokenType::LogicalAnd, TokenType::And, TokenType::EOF]);
    assert_eq!(kinds("==="), vec![TokenType::EqualEqual, TokenType::Equals, TokenType::EOF]);
    assert_eq!(kinds("|||"), vec![TokenType::LogicalOr, TokenType::Or, TokenType::EOF]);
    assert_eq!(kinds("<=="), vec![TokenType::LessEqual, TokenType::Equals, TokenType::EOF]);
    assert_eq!(kinds("!!="), vec![TokenType::Bang, TokenType::NotEqual, TokenType::EOF]);
}

#[test]
fn operator_at_the_end_of_the_text_stands_alone() {
    assert_eq!(kinds("&"), vec![TokenType::And, TokenType::EOF]);
    assert_eq!(kinds("a ="), vec![TokenType::Identifier, TokenType::Equals, TokenType::EOF]);
    assert_eq!(kinds("/"), vec![TokenType::FwdSlash, TokenType::EOF]);
}

#[test]
fn a_blank_parts_two_operators() {
    assert_eq!(kinds("& &"), vec![TokenType::And, TokenType::And, TokenType::EOF]);
    assert_eq!(kinds("= ="), vec![TokenType::Equals, TokenType::Equals, TokenType::EOF]);
}

#[test]
fn plus_and_minus_never_pair() {
    assert_eq!(kinds("++"), vec![TokenType::Plus, TokenType::Plus, TokenType::EOF]);
    assert_eq!(kinds("-="), vec![TokenType::Minus, TokenType::Equals, TokenType::EOF]);
}

#[test]
fn operand_characters_keep_their_text() {
    let (tokens, errors) = tokenize("?@$");
    assert!(errors.is_empty());
    let seen: Vec<(TokenType, &str)> =
        tokens.iter().map(|t| (t.token.kind, t.token.value.as_str())).collect();
    assert_eq!(
        seen,
        vec![
            (TokenType::Operand, "?"),
            (TokenType::Operand, "@"),
            (TokenType::Operand, "$"),
            (TokenType::EOF, ""),
        ]
    );
}

#[test]
fn fixed_tokens_have_no_text() {
    let (tokens, _) = tokenize("( && ; <=");
    for t in tokens.iter() {
        assert_eq!(t.token.value, "");
    }
}

#[test]
fn double_op_knows_six_pairs() {
    assert_eq!(double_op('&', '&'), Some(TokenType::LogicalAnd));
    assert_eq!(double_op('|', '|'), Some(TokenType::LogicalOr));
    assert_eq!(double_op('=', '='), Some(TokenType::EqualEqual));
    assert_eq!(double_op('!', '='), Some(TokenType::NotEqual));
    assert_eq!(double_op('<', '='), Some(TokenType::LessEqual));
    assert_eq!(double_op('>', '='), Some(TokenType::GreaterEqual));
    assert_eq!(double_op('&', '|'), None);
    assert_eq!(double_op('=', '<'), None);
    assert_eq!(double_op('+', '+'), None);
    assert_eq!(double_op('a', 'b'), None);
}

#[test]
fn single_op_knows_no_letter_digit_or_quote() {
    assert_eq!(single_op('('), Some(TokenType::OpenParen));
    assert_eq!(single_op('\\'), Some(TokenType::BackSlash));
    assert_eq!(single_op('\''), Some(TokenType::SingleQuote));
    assert_eq!(single_op('?'), Some(TokenType::Operand));
    assert_eq!(single_op('a'), None);
    assert_eq!(single_op('7'), None);
    assert_eq!(single_op('"'), None);
    assert_eq!(single_op('_'), None);
    assert_eq!(single_op('~'), None);
    assert_eq!(single_op('['), None);
    assert_eq!(single_op(' '), None);
}
