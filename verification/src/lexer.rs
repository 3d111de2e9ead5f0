//! The scanner: a cursor over the text that reads one piece at a time, and
//! the pass that reads a whole text.

use vstd::prelude::*;
use vstd::string::*;
use crate::chars::blank;
use crate::chars::byte_len;
use crate::chars::byte_offset;
use crate::chars::digit;
use crate::chars::ident_part;
use crate::chars::ident_start;
use crate::chars::lemma_byte_offset_monotone;
use crate::chars::lemma_byte_offset_step;
use crate::chars::width;
use crate::error::LexError;
use crate::error::LexErrorKind;
use crate::grammar::block_end;
use crate::grammar::column_of;
use crate::grammar::diagnostics;
use crate::grammar::digits_end;
use crate::grammar::double_operator;
use crate::grammar::end_marker;
use crate::grammar::errors_in;
use crate::grammar::ident_end;
use crate::grammar::lemma_line_column_bounds;
use crate::grammar::lemma_piece_within;
use crate::grammar::lemma_streams_push;
use crate::grammar::lemma_string_end;
use crate::grammar::line_end;
use crate::grammar::line_of;
use crate::grammar::Piece;
use crate::grammar::piece_at;
use crate::grammar::pieces;
use crate::grammar::single_operator;
use crate::grammar::string_end;
use crate::grammar::token_stream;
use crate::grammar::tokens_in;
use crate::laws::lemma_end_marker;
use crate::span::Span;
use crate::token::SpannedModel;
use crate::token::Token;
use crate::token::TokenModel;
use crate::token::TokenType;
use crate::token::TS;

verus! {

/// A cursor over a text, with the errors met so far. `position` counts
/// characters, `offset` bytes; `line` and `column` count from one.
#[derive(Debug, Clone)]
pub struct Lexer {
    pub input: Vec<char>,
    pub position: usize,
    pub offset: u32,
    pub line: u32,
    pub column: u32,
    pub errors: Vec<LexError>,
}

/// The characters of a text, one by one.
fn chars_of(text: &str) -> (v: Vec<char>)
    ensures
        v@ == text@,
{
    let mut v: Vec<char> = Vec::new();
    for c in it: text.chars()
        invariant
            it.seq() == text@,
            v@ == text@.take(it.index() as int),
    {
        v.push(c);
        assert(text@.take(it.index() + 1) =~= text@.take(it.index() as int).push(c));
    }
    assert(text@.take(text@.len() as int) =~= text@);
    v
}

/// Appends one character to a string: `String::push` of the standard
/// library. Believed, not proved: the string afterwards is the string before
/// followed by `c`.
#[verifier::external_body]
fn push_char(text: &mut String, c: char)
    ensures
        final(text)@ == old(text)@.push(c),
{
    text.push(c)
}

/// The characters of index `from` up to, not including, `to`, as a string.
fn text_of(chars: &Vec<char>, from: usize, to: usize) -> (text: String)
    requires
        from <= to <= chars@.len(),
    ensures
        text@ == chars@.subrange(from as int, to as int),
{
    let mut text = String::new();
    let mut i: usize = from;
    while i < to
        invariant
            from <= i <= to <= chars@.len(),
            text@ == chars@.subrange(from as int, i as int),
        decreases to - i,
    {
        push_char(&mut text, chars[i]);
        assert(chars@.subrange(from as int, i + 1) =~= chars@.subrange(from as int, i as int).push(
            chars@[i as int],
        ));
        i = i + 1;
    }
    text
}

/// The operator that `c` and `d` form together, if any.
pub fn double_op(c: char, d: char) -> (k: Option<TokenType>)
    ensures
        k == double_operator(c, d),
{
    if c == '&' && d == '&' {
        Some(TokenType::LogicalAnd)
    } else if c == '|' && d == '|' {
        Some(TokenType::LogicalOr)
    } else if c == '=' && d == '=' {
        Some(TokenType::EqualEqual)
    } else if c == '!' && d == '=' {
        Some(TokenType::NotEqual)
    } else if c == '<' && d == '=' {
        Some(TokenType::LessEqual)
    } else if c == '>' && d == '=' {
        Some(TokenType::GreaterEqual)
    } else {
        None
    }
}

/// The token that `c` is by itself, if any.
pub fn single_op(c: char) -> (k: Option<TokenType>)
    ensures
        k == single_operator(c),
{
    match c {
        '(' => Some(TokenType::OpenParen),
        ')' => Some(TokenType::ClosedParen),
        '{' => Some(TokenType::OpenBracket),
        '}' => Some(TokenType::ClosedBracket),
        '|' => Some(TokenType::Or),
        '\\' => Some(TokenType::BackSlash),
        '*' => Some(TokenType::Star),
        '!' => Some(TokenType::Bang),
        '&' => Some(TokenType::And),
        '%' => Some(TokenType::Modulo),
        '^' => Some(TokenType::Caret),
        '+' => Some(TokenType::Plus),
        ',' => Some(TokenType::Comma),
        '.' => Some(TokenType::Period),
        '-' => Some(TokenType::Minus),
        '#' => Some(TokenType::Hashtag),
        '=' => Some(TokenType::Equals),
        ':' => Some(TokenType::Colon),
        ';' => Some(TokenType::Semicolon),
        '<' => Some(TokenType::LeftCaret),
        '>' => Some(TokenType::RightCaret),
        '/' => Some(TokenType::FwdSlash),
        '\'' => Some(TokenType::SingleQuote),
        '?' | '@' | '$' => Some(TokenType::Operand),
        _ => None,
    }
}

/// What a scanned token is, if one was scanned.
pub open spec fn model_of(r: Option<TS>) -> Option<SpannedModel> {
    match r {
        Some(t) => Some(t@),
        None => None,
    }
}

impl Lexer {
    /// The cursor's byte offset, line and column are those of its position,
    /// and the text is short enough for all three to be counted.
    pub open spec fn wf(&self) -> bool {
        &&& byte_len(self.input@) < u32::MAX
        &&& self.position <= self.input@.len()
        &&& self.offset == byte_offset(self.input@, self.position as int)
        &&& self.line == line_of(self.input@, self.position as int)
        &&& self.column == column_of(self.input@, self.position as int)
    }

    /// A cursor at the beginning of the given characters.
    fn over(chars: Vec<char>) -> (lexer: Lexer)
        requires
            byte_len(chars@) < u32::MAX,
        ensures
            lexer.wf(),
            lexer.input@ == chars@,
            lexer.position == 0,
            lexer.errors@ == Seq::<LexError>::empty(),
    {
        proof {
            lemma_byte_offset_monotone(chars@, 0, 0);
        }
        Lexer { input: chars, position: 0, offset: 0, line: 1, column: 1, errors: Vec::new() }
    }

    /// A cursor at the beginning of `file`, with no error met yet.
    pub fn new(file: String) -> (lexer: Lexer)
        requires
            byte_len(file@) < u32::MAX,
        ensures
            lexer.wf(),
            lexer.input@ == file@,
            lexer.position == 0,
            lexer.errors@ == Seq::<LexError>::empty(),
    {
        Lexer::over(chars_of(file.as_str()))
    }

    /// The character under the cursor, or the NUL character where the
    /// cursor is at the end of the text. The cursor stays where it is.
    pub fn peek_token(&self) -> (c: Option<char>)
        ensures
            c == Some(
                if self.position < self.input@.len() {
                    self.input@[self.position as int]
                } else {
                    '\0'
                },
            ),
    {
        if self.position < self.input.len() {
            Some(self.input[self.position])
        } else {
            Some('\0')
        }
    }

    /// Moves the cursor over one character.
    fn bump(&mut self)
        requires
            old(self).wf(),
            old(self).position < old(self).input@.len(),
        ensures
            final(self).wf(),
            final(self).input == old(self).input,
            final(self).errors == old(self).errors,
            final(self).position == old(self).position + 1,
    {
        let c: char = self.input[self.position];
        proof {
            let s = self.input@;
            let i = self.position as int;
            lemma_byte_offset_step(s, i);
            lemma_byte_offset_monotone(s, i + 1, s.len() as int);
            lemma_byte_offset_monotone(s, 0, s.len() as int);
            lemma_line_column_bounds(s, i + 1);
        }
        self.offset = self.offset + width(c);
        if c == '\n' {
            self.line = self.line + 1;
            self.column = 1;
        } else {
            self.column = self.column + 1;
        }
        self.position = self.position + 1;
    }

    /// Moves the cursor to the end of the run of digits it stands on.
    fn skip_digits(&mut self)
        requires
            old(self).wf(),
        ensures
            final(self).wf(),
            final(self).input == old(self).input,
            final(self).errors == old(self).errors,
            final(self).position == digits_end(old(self).input@, old(self).position as int),
    {
        while self.position < self.input.len() && digit(self.input[self.position])
            invariant
                self.wf(),
                self.input == old(self).input,
                self.errors == old(self).errors,
                digits_end(self.input@, self.position as int) == digits_end(
                    old(self).input@,
                    old(self).position as int,
                ),
            decreases self.input@.len() - self.position,
        {
            self.bump();
        }
    }

    /// Moves the cursor to the end of the run of identifier characters it
    /// stands on.
    fn skip_ident(&mut self)
        requires
            old(self).wf(),
        ensures
            final(self).wf(),
            final(self).input == old(self).input,
            final(self).errors == old(self).errors,
            final(self).position == ident_end(old(self).input@, old(self).position as int),
    {
        while self.position < self.input.len() && ident_part(self.input[self.position])
            invariant
                self.wf(),
                self.input == old(self).input,
                self.errors == old(self).errors,
                ident_end(self.input@, self.position as int) == ident_end(
                    old(self).input@,
                    old(self).position as int,
                ),
            decreases self.input@.len() - self.position,
        {
            self.bump();
        }
    }

    /// Moves the cursor past the next line feed, or to the end of the text.
    fn skip_line(&mut self)
        requires
            old(self).wf(),
        ensures
            final(self).wf(),
            final(self).input == old(self).input,
            final(self).errors == old(self).errors,
            final(self).position == line_end(old(self).input@, old(self).position as int),
    {
        while self.position < self.input.len()
            invariant
                self.wf(),
                self.input == old(self).input,
                self.errors == old(self).errors,
                line_end(self.input@, self.position as int) == line_end(
                    old(self).input@,
                    old(self).position as int,
                ),
            decreases self.input@.len() - self.position,
        {
            let c: char = self.input[self.position];
            self.bump();
            if c == '\n' {
                return ;
            }
        }
    }

    /// Moves the cursor past the next `"`, or to the end of the text where
    /// there is none; says whether one was found.
    fn skip_string(&mut self) -> (closed: bool)
        requires
            old(self).wf(),
        ensures
            final(self).wf(),
            final(self).input == old(self).input,
            final(self).errors == old(self).errors,
            closed == (string_end(old(self).input@, old(self).position as int) is Some),
            final(self).position == match string_end(
                old(self).input@,
                old(self).position as int,
            ) {
                Some(e) => e,
                None => old(self).input@.len() as int,
            },
    {
        while self.position < self.input.len()
            invariant
                self.wf(),
                self.input == old(self).input,
                self.errors == old(self).errors,
                string_end(self.input@, self.position as int) == string_end(
                    old(self).input@,
                    old(self).position as int,
                ),
            decreases self.input@.len() - self.position,
        {
            let c: char = self.input[self.position];
            self.bump();
            if c == '"' {
                return true;
            }
        }
        false
    }

    /// Moves the cursor past the next `*/`, or to the end of the text where
    /// there is none; says whether one was found.
    fn skip_block(&mut self) -> (closed: bool)
        requires
            old(self).wf(),
        ensures
            final(self).wf(),
            final(self).input == old(self).input,
            final(self).errors == old(self).errors,
            closed == (block_end(old(self).input@, old(self).position as int) is Some),
            final(self).position == match block_end(
                old(self).input@,
                old(self).position as int,
            ) {
                Some(e) => e,
                None => old(self).input@.len() as int,
            },
    {
        while self.position < self.input.len()
            invariant
                self.wf(),
                self.input == old(self).input,
                self.errors == old(self).errors,
                block_end(self.input@, self.position as int) == block_end(
                    old(self).input@,
                    old(self).position as int,
                ),
            decreases self.input@.len() - self.position,
        {
            let c: char = self.input[self.position];
            self.bump();
            if c == '*' && self.position < self.input.len() && self.input[self.position] == '/' {
                self.bump();
                return true;
            }
        }
        false
    }

    /// The token of the given kind and text that reaches from byte `beg` to
    /// the cursor.
    fn token_here(&self, kind: TokenType, value: String, beg: u32) -> (t: TS)
        ensures
            t@ == (SpannedModel {
                token: TokenModel { kind: kind, value: value@ },
                span: Span { beg: beg, end: self.offset },
            }),
    {
        TS { token: Token { kind: kind, value: value }, span: Span { beg: beg, end: self.offset } }
    }

    /// Reads the piece that begins under the cursor and moves the cursor to
    /// its end. A token is returned; a blank, a newline or a comment is
    /// passed over; malformed input is passed over and its error added to
    /// `errors`. At the end of the text the end marker is returned and
    /// nothing moves.
    pub fn parse_token(&mut self) -> (r: Option<TS>)
        requires
            old(self).wf(),
        ensures
            final(self).wf(),
            final(self).input == old(self).input,
            old(self).position >= old(self).input@.len() ==> {
                &&& final(self).position == old(self).position
                &&& final(self).errors == old(self).errors
                &&& model_of(r) == Some(end_marker(old(self).input@))
            },
            old(self).position < old(self).input@.len() ==> {
                let p = piece_at(old(self).input@, old(self).position as int);
                &&& final(self).position == p.end
                &&& model_of(r) == p.token(old(self).input@)
                &&& final(self).errors@ == match p.error(old(self).input@) {
                    Some(e) => old(self).errors@.push(e),
                    None => old(self).errors@,
                }
            },
    {
        let n: usize = self.input.len();
        let start: usize = self.position;
        let beg: u32 = self.offset;
        let line: u32 = self.line;
        let column: u32 = self.column;
        if start >= n {
            return Some(self.token_here(TokenType::EOF, String::new(), beg));
        }
        let c: char = self.input[start];
        proof {
            lemma_piece_within(self.input@, start as int);
        }
        if blank(c) || c == '\n' {
            self.bump();
            None
        } else if c == '/' && start + 1 < n && self.input[start + 1] == '/' {
            self.bump();
            self.bump();
            self.skip_line();
            None
        } else if c == '/' && start + 1 < n && self.input[start + 1] == '*' {
            self.bump();
            self.bump();
            let closed: bool = self.skip_block();
            if !closed {
                self.errors.push(
                    LexError {
                        kind: LexErrorKind::UnterminatedBlockComment,
                        line: line,
                        column: column,
                    },
                );
            }
            None
        } else if c == '"' {
            self.bump();
            let closed: bool = self.skip_string();
            if closed {
                proof {
                    lemma_string_end(self.input@, start + 1);
                }
                let value: String = text_of(&self.input, start + 1, self.position - 1);
                Some(self.token_here(TokenType::StringLiteral, value, beg))
            } else {
                self.errors.push(
                    LexError { kind: LexErrorKind::UnterminatedString, line: line, column: column },
                );
                None
            }
        } else if digit(c) {
            self.skip_digits();
            let value: String = text_of(&self.input, start, self.position);
            Some(self.token_here(TokenType::NumberLiteral, value, beg))
        } else if ident_start(c) {
            self.skip_ident();
            let value: String = text_of(&self.input, start, self.position);
            Some(self.token_here(TokenType::Identifier, value, beg))
        } else {
            let double: Option<TokenType> = if start + 1 < n {
                double_op(c, self.input[start + 1])
            } else {
                None
            };
            match double {
                Some(kind) => {
                    self.bump();
                    self.bump();
                    Some(self.token_here(kind, String::new(), beg))
                },
                None => {
                    self.bump();
                    match single_op(c) {
                        Some(TokenType::Operand) => {
                            let value: String = text_of(&self.input, start, self.position);
                            Some(self.token_here(TokenType::Operand, value, beg))
                        },
                        Some(kind) => Some(self.token_here(kind, String::new(), beg)),
                        None => {
                            self.errors.push(
                                LexError {
                                    kind: LexErrorKind::UnexpectedCharacter(c),
                                    line: line,
                                    column: column,
                                },
                            );
                            None
                        },
                    }
                },
            }
        }
    }
}

/// What the tokens of a list are, one by one.
pub open spec fn models(tokens: Seq<TS>) -> Seq<SpannedModel> {
    tokens.map_values(|t: TS| t@)
}

/// Scans a whole text in one pass. The first list holds the tokens in the
/// order of the text, ended by the end marker; the second the errors in the
/// order in which they were met. Malformed input never stops the pass.
pub fn tokenize(source: &str) -> (out: (Vec<TS>, Vec<LexError>))
    requires
        byte_len(source@) < u32::MAX,
    ensures
        models(out.0@) == token_stream(source@),
        out.1@ == diagnostics(source@),
        out.0@.len() >= 1,
        out.0@.last().token.kind == TokenType::EOF,
        forall|k: int| 0 <= k < out.0@.len() - 1 ==> (#[trigger] out.0@[k]).token.kind != TokenType::EOF,
{
    let mut lexer = Lexer::over(chars_of(source));
    let mut tokens: Vec<TS> = Vec::new();
    let ghost s = source@;
    let ghost mut done: Seq<Piece> = Seq::empty();
    proof {
        assert(done + pieces(s, 0) =~= pieces(s, 0));
        assert(models(tokens@) =~= tokens_in(done, s));
        assert(lexer.errors@ =~= errors_in(done, s));
    }
    while lexer.position < lexer.input.len()
        invariant
            lexer.wf(),
            lexer.input@ == s,
            done + pieces(s, lexer.position as int) == pieces(s, 0),
            models(tokens@) == tokens_in(done, s),
            lexer.errors@ == errors_in(done, s),
        decreases s.len() - lexer.position,
    {
        let ghost p = piece_at(s, lexer.position as int);
        let ghost before = tokens@;
        proof {
            lemma_piece_within(s, lexer.position as int);
            lemma_streams_push(done, p, s);
            assert(done.push(p) + pieces(s, p.end) =~= done + pieces(s, lexer.position as int));
        }
        match lexer.parse_token() {
            Some(t) => {
                tokens.push(t);
                assert(models(tokens@) =~= models(before).push(t@));
            },
            None => {},
        }
        proof {
            done = done.push(p);
        }
    }
    proof {
        assert(done =~= pieces(s, 0));
    }
    let ghost before = tokens@;
    match lexer.parse_token() {
        Some(t) => {
            tokens.push(t);
            assert(models(tokens@) =~= models(before).push(t@));
        },
        None => {},
    }
    proof {
        lemma_end_marker(s);
        assert(models(tokens@).len() == tokens@.len());
        assert(models(tokens@).last() == tokens@.last()@);
        assert forall|k: int| 0 <= k < tokens@.len() - 1 implies (#[trigger] tokens@[k]).token.kind
            != TokenType::EOF by {
            assert(models(tokens@)[k] == tokens@[k]@);
        }
    }
    (tokens, lexer.errors)
}

/// Scans a text of any length: `tokenize` where the text is short enough for
/// its offsets, lines and columns to be counted, and nothing where it is
/// not.
pub fn try_tokenize(source: &str) -> (out: Option<(Vec<TS>, Vec<LexError>)>)
    ensures
        match out {
            Some((tokens, errors)) => {
                &&& byte_len(source@) < u32::MAX
                &&& models(tokens@) == token_stream(source@)
                &&& errors@ == diagnostics(source@)
            },
            None => byte_len(source@) >= u32::MAX,
        },
{
    if source.as_bytes().len() < u32::MAX as usize {
        Some(tokenize(source))
    } else {
        None
    }
}

} // verus!
