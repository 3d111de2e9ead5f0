//! Tokens: what the scanner hands to a parser.

use vstd::prelude::*;
use vstd::string::*;
use crate::span::Span;
use crate::span::Spanner;

verus! {

/// The closed set of token classes.
#[derive(Debug, PartialEq, Clone, Copy, Eq, Structural)]
pub enum TokenType {
    /// No token yet: the kind of a freshly made token.
    Unset,
    Identifier,
    StringLiteral,
    NumberLiteral,
    /// One of `?`, `@`, `$`; the token's value holds the character.
    Operand,
    Caret,
    Period,
    Colon,
    Semicolon,
    Hashtag,
    Star,
    Modulo,
    BackSlash,
    FwdSlash,
    Bang,
    Comma,
    Or,
    LeftCaret,
    RightCaret,
    ClosedParen,
    OpenParen,
    OpenBracket,
    ClosedBracket,
    Equals,
    Plus,
    Minus,
    SingleQuote,
    And,
    LogicalAnd,
    LogicalOr,
    EqualEqual,
    NotEqual,
    LessEqual,
    GreaterEqual,
    EOF,
}

impl TokenType {
    /// The kind that stands for "no token yet".
    pub fn new() -> (k: TokenType)
        ensures
            k == TokenType::Unset,
    {
        TokenType::Unset
    }

    /// The printable name of the kind.
    pub open spec fn name(self) -> Seq<char> {
        match self {
            TokenType::Unset => "Unset"@,
            TokenType::Identifier => "Identifier"@,
            TokenType::StringLiteral => "String Literal"@,
            TokenType::NumberLiteral => "Number Literal"@,
            TokenType::Operand => "Operand/Symbol"@,
            TokenType::Caret => "Caret"@,
            TokenType::Period => "Period"@,
            TokenType::Colon => "Colon"@,
            TokenType::Semicolon => "Semi-Colon"@,
            TokenType::Hashtag => "Hashtag"@,
            TokenType::Star => "Star/Asterisk"@,
            TokenType::Modulo => "Modulo"@,
            TokenType::BackSlash => "Backslash"@,
            TokenType::FwdSlash => "Forwardslash"@,
            TokenType::Bang => "Bang"@,
            TokenType::Comma => "Comma"@,
            TokenType::Or => "Pipe"@,
            TokenType::LeftCaret => "Left Caret/Less than"@,
            TokenType::RightCaret => "Right Caret/Greater than"@,
            TokenType::ClosedParen => "Closed Parenthesis"@,
            TokenType::OpenParen => "Open Parenthesis"@,
            TokenType::OpenBracket => "Open Bracket"@,
            TokenType::ClosedBracket => "Closed Bracket"@,
            TokenType::Equals => "Equals"@,
            TokenType::Plus => "Plus"@,
            TokenType::Minus => "Minus/Dash"@,
            TokenType::SingleQuote => "Single Quote"@,
            TokenType::And => "Ampersand"@,
            TokenType::LogicalAnd => "Logical And"@,
            TokenType::LogicalOr => "Logical Or"@,
            TokenType::EqualEqual => "Equal Equal"@,
            TokenType::NotEqual => "Not Equal"@,
            TokenType::LessEqual => "Less than or Equal"@,
            TokenType::GreaterEqual => "Greater than or Equal"@,
            TokenType::EOF => "EOF"@,
        }
    }

    pub fn to_string(&self) -> (s: String)
        ensures
            s@ == self.name(),
    {
        match self {
            TokenType::Unset => String::from_str("Unset"),
            TokenType::Identifier => String::from_str("Identifier"),
            TokenType::StringLiteral => String::from_str("String Literal"),
            TokenType::NumberLiteral => String::from_str("Number Literal"),
            TokenType::Operand => String::from_str("Operand/Symbol"),
            TokenType::Caret => String::from_str("Caret"),
            TokenType::Period => String::from_str("Period"),
            TokenType::Colon => String::from_str("Colon"),
            TokenType::Semicolon => String::from_str("Semi-Colon"),
            TokenType::Hashtag => String::from_str("Hashtag"),
            TokenType::Star => String::from_str("Star/Asterisk"),
            TokenType::Modulo => String::from_str("Modulo"),
            TokenType::BackSlash => String::from_str("Backslash"),
            TokenType::FwdSlash => String::from_str("Forwardslash"),
            TokenType::Bang => String::from_str("Bang"),
            TokenType::Comma => String::from_str("Comma"),
            TokenType::Or => String::from_str("Pipe"),
            TokenType::LeftCaret => String::from_str("Left Caret/Less than"),
            TokenType::RightCaret => String::from_str("Right Caret/Greater than"),
            TokenType::ClosedParen => String::from_str("Closed Parenthesis"),
            TokenType::OpenParen => String::from_str("Open Parenthesis"),
            TokenType::OpenBracket => String::from_str("Open Bracket"),
            TokenType::ClosedBracket => String::from_str("Closed Bracket"),
            TokenType::Equals => String::from_str("Equals"),
            TokenType::Plus => String::from_str("Plus"),
            TokenType::Minus => String::from_str("Minus/Dash"),
            TokenType::SingleQuote => String::from_str("Single Quote"),
            TokenType::And => String::from_str("Ampersand"),
            TokenType::LogicalAnd => String::from_str("Logical And"),
            TokenType::LogicalOr => String::from_str("Logical Or"),
            TokenType::EqualEqual => String::from_str("Equal Equal"),
            TokenType::NotEqual => String::from_str("Not Equal"),
            TokenType::LessEqual => String::from_str("Less than or Equal"),
            TokenType::GreaterEqual => String::from_str("Greater than or Equal"),
            TokenType::EOF => String::from_str("EOF"),
        }
    }
}

/// What a token is, with its text as a sequence of characters.
pub struct TokenModel {
    pub kind: TokenType,
    pub value: Seq<char>,
}

/// A classified piece of source text. `value` holds the captured text of an
/// identifier, a number, the inside of a string literal or an operand
/// character, and is empty for every other kind.
#[derive(Debug, PartialEq, Clone, Eq)]
pub struct Token {
    pub kind: TokenType,
    pub value: String,
}

impl View for Token {
    type V = TokenModel;

    open spec fn view(&self) -> TokenModel {
        TokenModel { kind: self.kind, value: self.value@ }
    }
}

impl TokenModel {
    /// The text a token is shown as. A word or a literal (an identifier, a
    /// string literal, a number literal) is shown as a label followed by its
    /// captured text; a token of any other kind by its kind's name alone.
    pub open spec fn shown(self) -> Seq<char> {
        match self.kind {
            TokenType::Identifier => "Identifier: "@ + self.value,
            TokenType::StringLiteral => "StringLiteral: "@ + self.value,
            TokenType::NumberLiteral => "NumberLiteral: "@ + self.value,
            _ => self.kind.name(),
        }
    }
}

impl Token {
    /// A token that stands for "nothing scanned yet".
    pub fn new() -> (t: Token)
        ensures
            t@ == (TokenModel { kind: TokenType::Unset, value: Seq::<char>::empty() }),
    {
        Token { kind: TokenType::new(), value: String::new() }
    }

    pub fn to_string(&self) -> (s: String)
        ensures
            s@ == self@.shown(),
    {
        match self.kind {
            TokenType::Identifier => String::from_str("Identifier: ").concat(self.value.as_str()),
            TokenType::StringLiteral => String::from_str("StringLiteral: ").concat(
                self.value.as_str(),
            ),
            TokenType::NumberLiteral => String::from_str("NumberLiteral: ").concat(
                self.value.as_str(),
            ),
            _ => self.kind.to_string(),
        }
    }
}

/// A token with its place in the source.
pub struct SpannedModel {
    pub token: TokenModel,
    pub span: Span,
}

/// A token together with the span of source it was read from.
#[derive(Debug, PartialEq, Clone, Eq)]
pub struct TS {
    pub token: Token,
    pub span: Span,
}

impl View for TS {
    type V = SpannedModel;

    open spec fn view(&self) -> SpannedModel {
        SpannedModel { token: self.token@, span: self.span }
    }
}

impl Spanner for TS {
    open spec fn place(&self) -> Span {
        self.span
    }

    fn span(&self) -> (r: Span) {
        self.span
    }
}

} // verus!
