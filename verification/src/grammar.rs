//! The lexical grammar, as a mathematical description of what the scanner
//! makes of a text: the text falls into consecutive pieces, each a blank, a
//! newline, a comment, a token or a stretch of malformed input.
//!
//! Positions here are indices of characters; a piece's span in bytes is had
//! from them by `byte_offset`.

use vstd::prelude::*;
use crate::chars::byte_offset;
use crate::chars::is_blank;
use crate::chars::is_digit;
use crate::chars::is_ident_part;
use crate::chars::is_ident_start;
use crate::error::LexError;
use crate::error::LexErrorKind;
use crate::span::Span;
use crate::token::SpannedModel;
use crate::token::TokenModel;
use crate::token::TokenType;

verus! {

/// What a piece of source text is.
pub enum PieceKind {
    /// A space or a tab.
    Blank,
    /// A line feed.
    Newline,
    /// `//` up to and including the end of the line.
    LineComment,
    /// `/*` up to and including the next `*/`.
    BlockComment,
    /// A token of the given kind.
    Token(TokenType),
    /// Malformed input, reported as the given error.
    Bad(LexErrorKind),
}

/// A piece of source text: the characters of index `beg` up to, not
/// including, `end`.
pub struct Piece {
    pub kind: PieceKind,
    pub beg: int,
    pub end: int,
}

/// The end of the longest run of digits that begins at `i`.
pub open spec fn digits_end(s: Seq<char>, i: int) -> int
    decreases s.len() - i,
{
    if 0 <= i < s.len() && is_digit(s[i]) {
        digits_end(s, i + 1)
    } else {
        i
    }
}

/// The end of the longest run of identifier characters that begins at `i`.
pub open spec fn ident_end(s: Seq<char>, i: int) -> int
    decreases s.len() - i,
{
    if 0 <= i < s.len() && is_ident_part(s[i]) {
        ident_end(s, i + 1)
    } else {
        i
    }
}

/// The position after the first line feed at or after `i`, or the end of the
/// text where there is none.
pub open spec fn line_end(s: Seq<char>, i: int) -> int
    decreases s.len() - i,
{
    if 0 <= i < s.len() {
        if s[i] == '\n' {
            i + 1
        } else {
            line_end(s, i + 1)
        }
    } else {
        s.len() as int
    }
}

/// The position after the first `"` at or after `i`, if there is one.
pub open spec fn string_end(s: Seq<char>, i: int) -> Option<int>
    decreases s.len() - i,
{
    if 0 <= i < s.len() {
        if s[i] == '"' {
            Some(i + 1)
        } else {
            string_end(s, i + 1)
        }
    } else {
        None
    }
}

/// The position after the first `*/` that begins at or after `i`, if there
/// is one.
pub open spec fn block_end(s: Seq<char>, i: int) -> Option<int>
    decreases s.len() - i,
{
    if 0 <= i && i + 1 < s.len() {
        if s[i] == '*' && s[i + 1] == '/' {
            Some(i + 2)
        } else {
            block_end(s, i + 1)
        }
    } else {
        None
    }
}

/// The operator that `c` and the character after it form together, if any.
pub open spec fn double_operator(c: char, d: char) -> Option<TokenType> {
    if c == '&' && d == '&' {
        Some(TokenType::LogicalAnd)
    } else if c == '|' && d == '|' {
        Some(TokenType::LogicalOr)
    } else if c == '=' && d == '=' {
        Some(TokenType::EqualEqual)
    } else if c == '!' && d == '=' {
        Some(TokenType::NotEqual)
    } else if c == '<' && d == '=' {
        Some(TokenType::LessEqual)
    } else if c == '>' && d == '=' {
        Some(TokenType::GreaterEqual)
    } else {
        None
    }
}

/// The token that `c` is by itself, if any.
pub open spec fn single_operator(c: char) -> Option<TokenType> {
    if c == '(' {
        Some(TokenType::OpenParen)
    } else if c == ')' {
        Some(TokenType::ClosedParen)
    } else if c == '{' {
        Some(TokenType::OpenBracket)
    } else if c == '}' {
        Some(TokenType::ClosedBracket)
    } else if c == '|' {
        Some(TokenType::Or)
    } else if c == '\\' {
        Some(TokenType::BackSlash)
    } else if c == '*' {
        Some(TokenType::Star)
    } else if c == '!' {
        Some(TokenType::Bang)
    } else if c == '&' {
        Some(TokenType::And)
    } else if c == '%' {
        Some(TokenType::Modulo)
    } else if c == '^' {
        Some(TokenType::Caret)
    } else if c == '+' {
        Some(TokenType::Plus)
    } else if c == ',' {
        Some(TokenType::Comma)
    } else if c == '.' {
        Some(TokenType::Period)
    } else if c == '-' {
        Some(TokenType::Minus)
    } else if c == '#' {
        Some(TokenType::Hashtag)
    } else if c == '=' {
        Some(TokenType::Equals)
    } else if c == ':' {
        Some(TokenType::Colon)
    } else if c == ';' {
        Some(TokenType::Semicolon)
    } else if c == '<' {
        Some(TokenType::LeftCaret)
    } else if c == '>' {
        Some(TokenType::RightCaret)
    } else if c == '/' {
        Some(TokenType::FwdSlash)
    } else if c == '\'' {
        Some(TokenType::SingleQuote)
    } else if c == '?' || c == '@' || c == '$' {
        Some(TokenType::Operand)
    } else {
        None
    }
}

/// The piece that begins at `i`. Exactly one rule applies, chosen by the
/// character at `i` and, for comments and two-character operators, the one
/// after it; the piece reaches as far as its rule can take it.
pub open spec fn piece_at(s: Seq<char>, i: int) -> Piece
    recommends
        0 <= i < s.len(),
{
    let c = s[i];
    let n = s.len() as int;
    if is_blank(c) {
        Piece { kind: PieceKind::Blank, beg: i, end: i + 1 }
    } else if c == '\n' {
        Piece { kind: PieceKind::Newline, beg: i, end: i + 1 }
    } else if c == '/' && i + 1 < n && s[i + 1] == '/' {
        Piece { kind: PieceKind::LineComment, beg: i, end: line_end(s, i + 2) }
    } else if c == '/' && i + 1 < n && s[i + 1] == '*' {
        match block_end(s, i + 2) {
            Some(e) => Piece { kind: PieceKind::BlockComment, beg: i, end: e },
            None => Piece {
                kind: PieceKind::Bad(LexErrorKind::UnterminatedBlockComment),
                beg: i,
                end: n,
            },
        }
    } else if c == '"' {
        match string_end(s, i + 1) {
            Some(e) => Piece { kind: PieceKind::Token(TokenType::StringLiteral), beg: i, end: e },
            None => Piece { kind: PieceKind::Bad(LexErrorKind::UnterminatedString), beg: i, end: n },
        }
    } else if is_digit(c) {
        Piece { kind: PieceKind::Token(TokenType::NumberLiteral), beg: i, end: digits_end(s, i) }
    } else if is_ident_start(c) {
        Piece { kind: PieceKind::Token(TokenType::Identifier), beg: i, end: ident_end(s, i) }
    } else if i + 1 < n && double_operator(c, s[i + 1]) is Some {
        Piece { kind: PieceKind::Token(double_operator(c, s[i + 1])->0), beg: i, end: i + 2 }
    } else if single_operator(c) is Some {
        Piece { kind: PieceKind::Token(single_operator(c)->0), beg: i, end: i + 1 }
    } else {
        Piece { kind: PieceKind::Bad(LexErrorKind::UnexpectedCharacter(c)), beg: i, end: i + 1 }
    }
}

/// The line, counted from one, on which the character of index `i` stands:
/// one more than the number of line feeds before it.
pub open spec fn line_of(s: Seq<char>, i: int) -> int
    decreases i,
{
    if i <= 0 || i > s.len() {
        1
    } else if s[i - 1] == '\n' {
        line_of(s, i - 1) + 1
    } else {
        line_of(s, i - 1)
    }
}

/// The column, counted from one, at which the character of index `i` stands:
/// one more than the number of characters between it and the line feed
/// before it, or the beginning of the text.
pub open spec fn column_of(s: Seq<char>, i: int) -> int
    decreases i,
{
    if i <= 0 || i > s.len() {
        1
    } else if s[i - 1] == '\n' {
        1
    } else {
        column_of(s, i - 1) + 1
    }
}

/// The bytes that the characters from `beg` up to `end` take in the buffer.
pub open spec fn byte_span(s: Seq<char>, beg: int, end: int) -> Span {
    Span { beg: byte_offset(s, beg) as u32, end: byte_offset(s, end) as u32 }
}

impl Piece {
    /// The piece begins inside the text, is not empty and ends inside it.
    pub open spec fn within(self, s: Seq<char>) -> bool {
        0 <= self.beg < self.end <= s.len()
    }

    /// The bytes of the buffer that the piece takes.
    pub open spec fn span(self, s: Seq<char>) -> Span {
        byte_span(s, self.beg, self.end)
    }

    /// The text that a token made of this piece carries: the piece itself for
    /// an identifier, a number or an operand character, what stands between
    /// the quotes for a string literal, and nothing otherwise.
    pub open spec fn text(self, s: Seq<char>) -> Seq<char> {
        match self.kind {
            PieceKind::Token(TokenType::Identifier)
            | PieceKind::Token(TokenType::NumberLiteral)
            | PieceKind::Token(TokenType::Operand) => s.subrange(self.beg, self.end),
            PieceKind::Token(TokenType::StringLiteral) => s.subrange(self.beg + 1, self.end - 1),
            _ => Seq::<char>::empty(),
        }
    }

    /// The token that the piece gives, if it is one.
    pub open spec fn token(self, s: Seq<char>) -> Option<SpannedModel> {
        match self.kind {
            PieceKind::Token(k) => Some(
                SpannedModel {
                    token: TokenModel { kind: k, value: self.text(s) },
                    span: self.span(s),
                },
            ),
            _ => None,
        }
    }

    /// The error that the piece gives, if it is malformed: it points at the
    /// piece's first character.
    pub open spec fn error(self, s: Seq<char>) -> Option<LexError> {
        match self.kind {
            PieceKind::Bad(e) => Some(
                LexError {
                    kind: e,
                    line: line_of(s, self.beg) as u32,
                    column: column_of(s, self.beg) as u32,
                },
            ),
            _ => None,
        }
    }
}

/// A run of digits ends inside the text, holds digits only and cannot be
/// made longer.
pub proof fn lemma_digits_end(s: Seq<char>, i: int)
    requires
        0 <= i <= s.len(),
    ensures
        i <= digits_end(s, i) <= s.len(),
        forall|k: int| i <= k < digits_end(s, i) ==> is_digit(#[trigger] s[k]),
        digits_end(s, i) < s.len() ==> !is_digit(s[digits_end(s, i)]),
    decreases s.len() - i,
{
    if i < s.len() && is_digit(s[i]) {
        lemma_digits_end(s, i + 1);
    }
}

/// A run of identifier characters ends inside the text, holds identifier
/// characters only and cannot be made longer.
pub proof fn lemma_ident_end(s: Seq<char>, i: int)
    requires
        0 <= i <= s.len(),
    ensures
        i <= ident_end(s, i) <= s.len(),
        forall|k: int| i <= k < ident_end(s, i) ==> is_ident_part(#[trigger] s[k]),
        ident_end(s, i) < s.len() ==> !is_ident_part(s[ident_end(s, i)]),
    decreases s.len() - i,
{
    if i < s.len() && is_ident_part(s[i]) {
        lemma_ident_end(s, i + 1);
    }
}

/// A line ends inside the text, right after its line feed if it has one, and
/// holds no other line feed.
pub proof fn lemma_line_end(s: Seq<char>, i: int)
    requires
        0 <= i <= s.len(),
    ensures
        i <= line_end(s, i) <= s.len(),
        i < s.len() ==> i < line_end(s, i),
        forall|k: int| i <= k < line_end(s, i) - 1 ==> #[trigger] s[k] != '\n',
        line_end(s, i) < s.len() ==> s[line_end(s, i) - 1] == '\n',
    decreases s.len() - i,
{
    if i < s.len() && s[i] != '\n' {
        lemma_line_end(s, i + 1);
    }
}

/// A string ends right after the first `"` found, and is unterminated only
/// where the rest of the text holds none.
pub proof fn lemma_string_end(s: Seq<char>, i: int)
    requires
        0 <= i <= s.len(),
    ensures
        match string_end(s, i) {
            Some(e) => {
                &&& i < e <= s.len()
                &&& s[e - 1] == '"'
                &&& forall|k: int| i <= k < e - 1 ==> #[trigger] s[k] != '"'
            },
            None => forall|k: int| i <= k < s.len() ==> #[trigger] s[k] != '"',
        },
    decreases s.len() - i,
{
    if i < s.len() && s[i] != '"' {
        lemma_string_end(s, i + 1);
    }
}

/// A block comment ends right after the first `*/` found, and is
/// unterminated only where the rest of the text holds none.
pub proof fn lemma_block_end(s: Seq<char>, i: int)
    requires
        0 <= i <= s.len(),
    ensures
        match block_end(s, i) {
            Some(e) => {
                &&& i + 2 <= e <= s.len()
                &&& s[e - 2] == '*'
                &&& s[e - 1] == '/'
                &&& forall|k: int| i <= k < e - 2 ==> !(#[trigger] s[k] == '*' && s[k + 1] == '/')
            },
            None => forall|k: int|
                i <= k < s.len() - 1 ==> !(#[trigger] s[k] == '*' && s[k + 1] == '/'),
        },
    decreases s.len() - i,
{
    if i + 1 < s.len() && !(s[i] == '*' && s[i + 1] == '/') {
        lemma_block_end(s, i + 1);
    }
}

/// The piece that begins at `i` begins there, is not empty and ends inside
/// the text: every rule consumes at least one character.
pub proof fn lemma_piece_within(s: Seq<char>, i: int)
    requires
        0 <= i < s.len(),
    ensures
        piece_at(s, i).beg == i,
        piece_at(s, i).within(s),
{
    lemma_digits_end(s, i + 1);
    lemma_ident_end(s, i + 1);
    if i + 2 <= s.len() {
        lemma_line_end(s, i + 2);
        lemma_block_end(s, i + 2);
    }
    lemma_string_end(s, i + 1);
}

/// The pieces into which the text falls from position `i` on, in order.
pub open spec fn pieces(s: Seq<char>, i: int) -> Seq<Piece>
    decreases s.len() - i,
    via pieces_decreases
{
    if 0 <= i < s.len() {
        seq![piece_at(s, i)] + pieces(s, piece_at(s, i).end)
    } else {
        Seq::<Piece>::empty()
    }
}

#[via_fn]
proof fn pieces_decreases(s: Seq<char>, i: int) {
    if 0 <= i < s.len() {
        lemma_piece_within(s, i);
    }
}

/// The tokens among the given pieces, in order.
pub open spec fn tokens_in(ps: Seq<Piece>, s: Seq<char>) -> Seq<SpannedModel> {
    ps.filter(|p: Piece| p.token(s) is Some).map_values(|p: Piece| p.token(s)->0)
}

/// The errors among the given pieces, in order.
pub open spec fn errors_in(ps: Seq<Piece>, s: Seq<char>) -> Seq<LexError> {
    ps.filter(|p: Piece| p.error(s) is Some).map_values(|p: Piece| p.error(s)->0)
}

/// The marker that ends every token stream: it has no text and sits, empty,
/// at the end of the buffer.
pub open spec fn end_marker(s: Seq<char>) -> SpannedModel {
    SpannedModel {
        token: TokenModel { kind: TokenType::EOF, value: Seq::<char>::empty() },
        span: byte_span(s, s.len() as int, s.len() as int),
    }
}

/// The tokens of a text: those of its pieces, in order, then the end marker.
pub open spec fn token_stream(s: Seq<char>) -> Seq<SpannedModel> {
    tokens_in(pieces(s, 0), s).push(end_marker(s))
}

/// The errors of a text: those of its pieces, in order.
pub open spec fn diagnostics(s: Seq<char>) -> Seq<LexError> {
    errors_in(pieces(s, 0), s)
}

/// Lines and columns begin at one, and neither runs ahead of the position
/// by more than one.
pub proof fn lemma_line_column_bounds(s: Seq<char>, i: int)
    requires
        0 <= i <= s.len(),
    ensures
        1 <= line_of(s, i) <= i + 1,
        1 <= column_of(s, i) <= i + 1,
    decreases i,
{
    if i > 0 {
        lemma_line_column_bounds(s, i - 1);
    }
}

/// One more piece adds its token, if it is one, to the tokens, and its
/// error, if it is malformed, to the errors; it adds nothing else.
pub proof fn lemma_streams_push(ps: Seq<Piece>, p: Piece, s: Seq<char>)
    ensures
        tokens_in(ps.push(p), s) == match p.token(s) {
            Some(t) => tokens_in(ps, s).push(t),
            None => tokens_in(ps, s),
        },
        errors_in(ps.push(p), s) == match p.error(s) {
            Some(e) => errors_in(ps, s).push(e),
            None => errors_in(ps, s),
        },
{
    reveal(Seq::filter);
    let is_token = |q: Piece| q.token(s) is Some;
    let is_error = |q: Piece| q.error(s) is Some;
    assert(ps.push(p).drop_last() =~= ps);
    assert(ps.push(p).last() == p);
    match p.token(s) {
        Some(t) => {
            assert(ps.push(p).filter(is_token) == ps.filter(is_token).push(p));
            assert(tokens_in(ps.push(p), s) =~= tokens_in(ps, s).push(t));
        },
        None => {
            assert(ps.push(p).filter(is_token) == ps.filter(is_token));
        },
    }
    match p.error(s) {
        Some(e) => {
            assert(ps.push(p).filter(is_error) == ps.filter(is_error).push(p));
            assert(errors_in(ps.push(p), s) =~= errors_in(ps, s).push(e));
        },
        None => {
            assert(ps.push(p).filter(is_error) == ps.filter(is_error));
        },
    }
}

} // verus!
