//! Lexer for the probe language.
//!
//! Converts source text into a stream of tokens with position tracking.  The
//! lexer never fails: malformed input yields a best-effort token, and the
//! stream always ends with exactly one Eof token.

use vstd::prelude::*;
use vstd::string::StringSliceAdditionalSpecFns;
use crate::floats::parse_float_bits;
use crate::text::string_of_chars;

verus! {

/// Position in source code (line and column are 1-indexed; offset counts
/// bytes).
#[derive(Debug, Clone, Copy, PartialEq, Eq, Structural)]
pub struct Position {
    pub line: usize,
    pub column: usize,
    pub offset: usize,
}

impl Position {
    /// A position with the given coordinates.
    pub fn new(line: usize, column: usize, offset: usize) -> (r: Self)
        ensures
            r == (Position { line, column, offset }),
    {
        Position { line, column, offset }
    }

    /// The position of the first character of a source.
    pub fn start() -> (r: Self)
        ensures
            r == (Position { line: 1usize, column: 1usize, offset: 0usize }),
    {
        Position { line: 1, column: 1, offset: 0 }
    }

    /// "line:column" rendering of the position.
    pub fn to_text(&self) -> String {
        let mut m = String::new();
        m.append(crate::text::usize_text(self.line).as_str());
        m.append(":");
        m.append(crate::text::usize_text(self.column).as_str());
        m
    }
}

/// Span of a token or node in source code.
#[derive(Debug, Clone, Copy, PartialEq, Eq, Structural)]
pub struct Span {
    pub start: Position,
    pub end: Position,
}

impl Span {
    /// A span between two positions.
    pub fn new(start: Position, end: Position) -> (r: Self)
        ensures
            r == (Span { start, end }),
    {
        Span { start, end }
    }

    /// A zero-length span at one position.
    pub fn single(pos: Position) -> (r: Self)
        ensures
            r == (Span { start: pos, end: pos }),
    {
        Span { start: pos, end: pos }
    }

    /// Rendering of the span, "line:colstart-colend" within one line.
    pub fn to_text(&self) -> String {
        let mut m = String::new();
        if self.start.line == self.end.line {
            m.append(crate::text::usize_text(self.start.line).as_str());
            m.append(":");
            m.append(crate::text::usize_text(self.start.column).as_str());
            m.append("-");
            m.append(crate::text::usize_text(self.end.column).as_str());
        } else {
            m.append(self.start.to_text().as_str());
            m.append("-");
            m.append(self.end.to_text().as_str());
        }
        m
    }
}

/// Token kinds of the probe language.
#[derive(Debug, Clone, PartialEq)]
pub enum TokenKind {
    /// Integer literal
    Int(i64),
    /// Float literal, as its IEEE-754 bit pattern
    Float(u64),
    /// String literal, with escapes already resolved
    String(String),
    /// Boolean literal (True / False)
    Bool(bool),
    /// The literal None
    NoneValue,
    /// Identifier
    Ident(String),
    /// fn
    Fn,
    /// py
    Py,
    /// entry
    Entry,
    /// exit
    Exit,
    /// capture
    Capture,
    /// send
    Send,
    /// sample
    Sample,
    /// $req
    Req,
    /// $request
    Request,
    /// +
    Plus,
    /// -
    Minus,
    /// *
    Star,
    /// /
    Slash,
    /// %
    Percent,
    /// <
    Lt,
    /// >
    Gt,
    /// <=
    LtEq,
    /// >=
    GtEq,
    /// ==
    EqEq,
    /// !=
    NotEq,
    /// &&
    And,
    /// ||
    Or,
    /// !
    Not,
    /// =
    Eq,
    /// (
    LParen,
    /// )
    RParen,
    /// {
    LBrace,
    /// }
    RBrace,
    /// [
    LBracket,
    /// ]
    RBracket,
    /// :
    Colon,
    /// ;
    Semi,
    /// ,
    Comma,
    /// .
    Dot,
    /// $
    Dollar,
    /// / at the edge of a predicate
    FSlash,
    /// * as a wildcard in module paths
    Wildcard,
    /// End of file
    Eof,
}

impl TokenKind {
    /// Human-readable rendering of the token kind, for error messages.
    pub fn to_text(&self) -> String {
        let mut m = String::new();
        match self {
            TokenKind::Int(n) => {
                m.append("integer '");
                m.append(crate::text::i64_text(*n).as_str());
                m.append("'");
            }
            TokenKind::Float(b) => {
                m.append("float '");
                m.append(crate::floats::float_bits_text(*b).as_str());
                m.append("'");
            }
            TokenKind::String(s) => {
                m.append("string \"");
                m.append(s.as_str());
                m.append("\"");
            }
            TokenKind::Bool(b) => {
                m.append("boolean '");
                m.append(if *b { "true" } else { "false" });
                m.append("'");
            }
            TokenKind::NoneValue => m.append("None"),
            TokenKind::Ident(s) => {
                m.append("identifier '");
                m.append(s.as_str());
                m.append("'");
            }
            TokenKind::Fn => m.append("'fn'"),
            TokenKind::Py => m.append("'py'"),
            TokenKind::Entry => m.append("'entry'"),
            TokenKind::Exit => m.append("'exit'"),
            TokenKind::Capture => m.append("'capture'"),
            TokenKind::Send => m.append("'send'"),
            TokenKind::Sample => m.append("'sample'"),
            TokenKind::Req => m.append("'$req'"),
            TokenKind::Request => m.append("'$request'"),
            TokenKind::Plus => m.append("'+'"),
            TokenKind::Minus => m.append("'-'"),
            TokenKind::Star => m.append("'*'"),
            TokenKind::Slash => m.append("'/'"),
            TokenKind::Percent => m.append("'%'"),
            TokenKind::Lt => m.append("'<'"),
            TokenKind::Gt => m.append("'>'"),
            TokenKind::LtEq => m.append("'<='"),
            TokenKind::GtEq => m.append("'>='"),
            TokenKind::EqEq => m.append("'=='"),
            TokenKind::NotEq => m.append("'!='"),
            TokenKind::And => m.append("'&&'"),
            TokenKind::Or => m.append("'||'"),
            TokenKind::Not => m.append("'!'"),
            TokenKind::Eq => m.append("'='"),
            TokenKind::LParen => m.append("'('"),
            TokenKind::RParen => m.append("')'"),
            TokenKind::LBrace => m.append("'{'"),
            TokenKind::RBrace => m.append("'}'"),
            TokenKind::LBracket => m.append("'['"),
            TokenKind::RBracket => m.append("']'"),
            TokenKind::Colon => m.append("':'"),
            TokenKind::Semi => m.append("';'"),
            TokenKind::Comma => m.append("','"),
            TokenKind::Dot => m.append("'.'"),
            TokenKind::Dollar => m.append("'$'"),
            TokenKind::FSlash => m.append("'/'"),
            TokenKind::Wildcard => m.append("'*'"),
            TokenKind::Eof => m.append("end of file"),
        }
        m
    }
}

/// A token with its kind and source location.
#[derive(Debug, Clone, PartialEq)]
pub struct Token {
    pub kind: TokenKind,
    pub span: Span,
}

impl Token {
    /// A token from a kind and a span.
    pub fn new(kind: TokenKind, span: Span) -> (r: Self)
        ensures
            r.kind == kind,
            r.span == span,
    {
        Token { kind, span }
    }
}

/// Relies on char::is_alphanumeric, a Unicode property of the character
/// alone.
pub uninterp spec fn is_alnum(c: char) -> bool;

/// Relies on char::is_alphanumeric for identifier continuation characters;
/// ASCII letters and digits are always alphanumeric.
#[verifier::external_body]
fn char_alnum(c: char) -> (r: bool)
    ensures
        r == is_alnum(c),
        ('a' <= c && c <= 'z') || ('A' <= c && c <= 'Z') || ('0' <= c && c <= '9') ==> r,
{
    c.is_alphanumeric()
}

/// The characters of a string slice, in order.
pub fn chars_of(s: &str) -> (r: Vec<char>)
    ensures
        r@ == s@,
{
    let n = s.unicode_len();
    let mut v: Vec<char> = Vec::new();
    let mut i: usize = 0;
    while i < n
        invariant
            n == s@.len(),
            i <= n,
            v@ == s@.subrange(0, i as int),
        decreases n - i,
    {
        v.push(s.get_char(i));
        i = i + 1;
        proof {
            assert(v@ =~= s@.subrange(0, i as int));
        }
    }
    proof {
        assert(v@ =~= s@);
    }
    v
}

/// The lexer walks the source character by character and hands out tokens.
pub struct Lexer<'a> {
    source: &'a str,
    chars: Vec<char>,
    pos: usize,
    position: Position,
    token_start: Position,
}

impl<'a> Lexer<'a> {
    /// The lexer's cursor never passes the end of the character sequence;
    /// the byte offset equals the encoded length of the consumed prefix, and
    /// the pending token start lies inside the source's byte length.
    pub closed spec fn wf(&self) -> bool {
        &&& self.pos <= self.chars@.len()
        &&& self.chars@ == self.source@
        &&& self.position.offset == vstd::utf8::encode_utf8(
            self.chars@.take(self.pos as int),
        ).len()
        &&& self.token_start.offset <= vstd::utf8::encode_utf8(self.chars@).len()
        &&& vstd::utf8::encode_utf8(self.chars@).len() <= usize::MAX
    }

    /// Index of the next character to read.
    pub closed spec fn cursor(&self) -> int {
        self.pos as int
    }

    /// Number of characters of the source.
    pub closed spec fn input_len(&self) -> int {
        self.chars@.len() as int
    }

    /// Create a new lexer for the given source.
    pub fn new(source: &'a str) -> (r: Self)
        ensures
            r.wf(),
            r.cursor() == 0,
            r.input_len() == source@.len(),
            r.source_view() == source@,
    {
        let bytes = source.as_bytes();
        let byte_len = bytes.len();
        let r = Lexer {
            source,
            chars: chars_of(source),
            pos: 0,
            position: Position::start(),
            token_start: Position::start(),
        };
        proof {
            assert(r.chars@.take(0) =~= Seq::<char>::empty());
            assert(vstd::utf8::encode_utf8(Seq::<char>::empty()) =~= Seq::<u8>::empty());
            vstd::slice::axiom_spec_len(bytes);
            assert(source.spec_bytes() == vstd::utf8::encode_utf8(source@));
            assert(vstd::utf8::encode_utf8(source@).len() == byte_len);
        }
        r
    }

    /// The characters of the source being lexed.
    pub closed spec fn source_view(&self) -> Seq<char> {
        self.source@
    }

    /// Get the source code (useful for error reporting).
    pub fn source(&self) -> (r: &'a str)
        ensures
            r@ == self.source_view(),
    {
        self.source
    }

    /// The character under the cursor, if any.
    fn current(&self) -> (r: Option<char>)
        requires
            self.wf(),
        ensures
            self.cursor() < self.input_len() ==> r == Some(self.char_at(self.cursor())),
            self.cursor() >= self.input_len() ==> r is None,
    {
        if self.pos < self.chars.len() {
            Some(self.chars[self.pos])
        } else {
            Option::<char>::None
        }
    }

    /// The character after the cursor, if any.
    fn peek(&self) -> (r: Option<char>)
        requires
            self.wf(),
        ensures
            self.cursor() + 1 < self.input_len() ==> r == Some(self.char_at(self.cursor() + 1)),
            self.cursor() + 1 >= self.input_len() ==> r is None,
    {
        if self.pos < self.chars.len() && self.pos + 1 < self.chars.len() {
            Some(self.chars[self.pos + 1])
        } else {
            Option::<char>::None
        }
    }

    /// The source character at an index.
    pub closed spec fn char_at(&self, i: int) -> char {
        self.chars@[i]
    }

    /// Advance past the current character, updating line, column and byte
    /// offset; at the end of input this does nothing.
    fn advance(&mut self)
        requires
            old(self).wf(),
        ensures
            final(self).wf(),
            final(self).input_len() == old(self).input_len(),
            final(self).source_view() == old(self).source_view(),
            old(self).cursor() < old(self).input_len() ==> final(self).cursor() == old(self).cursor() + 1,
            old(self).cursor() >= old(self).input_len() ==> final(self).cursor() == old(self).cursor(),
            final(self).token_start_spec() == old(self).token_start_spec(),
    {
        if self.pos < self.chars.len() {
            let ch = self.chars[self.pos];
            if ch == '\n' {
                self.position.line = self.position.line.wrapping_add(1);
                self.position.column = 1;
            } else {
                self.position.column = self.position.column.wrapping_add(1);
            }
            let d = char_utf8_len(ch);
            proof {
                lemma_enc_take_snoc(self.chars@, self.pos as int);
                lemma_enc_prefix_mono(self.chars@, self.pos + 1, self.chars@.len() as int);
                assert(self.chars@.take(self.chars@.len() as int) =~= self.chars@);
            }
            self.position.offset = self.position.offset + d;
            self.pos = self.pos + 1;
        }
    }

    /// Where the token being built started.
    pub closed spec fn token_start_spec(&self) -> Position {
        self.token_start
    }

    /// Create a token from the current token start to the current position;
    /// both span offsets stay within the source's byte length.
    fn make_token(&self, kind: TokenKind) -> (r: Token)
        requires
            self.wf(),
        ensures
            r.kind == kind,
            r.span.start.offset <= vstd::utf8::encode_utf8(self.source_view()).len(),
            r.span.end.offset <= vstd::utf8::encode_utf8(self.source_view()).len(),
    {
        proof {
            lemma_enc_prefix_mono(self.chars@, self.pos as int, self.chars@.len() as int);
            assert(self.chars@.take(self.chars@.len() as int) =~= self.chars@);
        }
        Token::new(kind, Span::new(self.token_start, self.position))
    }

    /// Consume a single character and wrap it as a token.
    fn single_char_token(&mut self, kind: TokenKind) -> (r: Token)
        requires
            old(self).wf(),
        ensures
            final(self).wf(),
            final(self).input_len() == old(self).input_len(),
            final(self).source_view() == old(self).source_view(),
            old(self).cursor() < old(self).input_len() ==> final(self).cursor() == old(self).cursor() + 1,
            old(self).cursor() >= old(self).input_len() ==> final(self).cursor() == old(self).cursor(),
            r.kind == kind,
            r.span.start.offset <= vstd::utf8::encode_utf8(final(self).source_view()).len(),
            r.span.end.offset <= vstd::utf8::encode_utf8(final(self).source_view()).len(),
    {
        self.advance();
        self.make_token(kind)
    }

    /// Skip whitespace, `#` line comments, and `/* ... */` block comments.
    fn skip_whitespace_and_comments(&mut self)
        requires
            old(self).wf(),
        ensures
            final(self).wf(),
            final(self).input_len() == old(self).input_len(),
            final(self).source_view() == old(self).source_view(),
            final(self).cursor() >= old(self).cursor(),
    {
        loop
            invariant
                self.wf(),
                self.input_len() == old(self).input_len(),
                self.source_view() == old(self).source_view(),
                self.cursor() >= old(self).cursor(),
            decreases self.input_len() - self.cursor(),
        {
            let cur = self.current();
            match cur {
                Some(' ') | Some('\t') | Some('\r') | Some('\n') => {
                    self.advance();
                }
                Some('#') => {
                    self.advance();
                    let ghost mark: int = self.cursor();
                    loop
                        invariant
                            self.wf(),
                            self.input_len() == old(self).input_len(),
                            self.source_view() == old(self).source_view(),
                self.source_view() == old(self).source_view(),
                            self.cursor() >= mark,
                        decreases self.input_len() - self.cursor(),
                    {
                        let c = self.current();
                        if c.is_none() {
                            break;
                        }
                        if c == Some('\n') {
                            break;
                        }
                        self.advance();
                    }
                }
                Some('/') => {
                    if self.peek() == Some('*') {
                        self.advance();
                        self.advance();
                        let ghost mark: int = self.cursor();
                        loop
                            invariant
                                self.wf(),
                                self.input_len() == old(self).input_len(),
                                self.source_view() == old(self).source_view(),
                            self.source_view() == old(self).source_view(),
                self.source_view() == old(self).source_view(),
                                self.cursor() >= mark,
                            decreases self.input_len() - self.cursor(),
                        {
                            let c = self.current();
                            if c.is_none() {
                                break;
                            }
                            if c == Some('*') && self.peek() == Some('/') {
                                self.advance();
                                self.advance();
                                break;
                            }
                            self.advance();
                        }
                    } else {
                        break;
                    }
                }
                _ => {
                    break;
                }
            }
        }
    }

    /// Get the next token.  The lexer is total: it always returns a token,
    /// makes progress on every token but Eof, and returns Eof exactly at the
    /// end of input.
    pub fn next_token(&mut self) -> (r: Token)
        requires
            old(self).wf(),
        ensures
            final(self).wf(),
            final(self).input_len() == old(self).input_len(),
            final(self).source_view() == old(self).source_view(),
            final(self).cursor() >= old(self).cursor(),
            r.kind is Eof ==> final(self).cursor() == final(self).input_len(),
            !(r.kind is Eof) ==> final(self).cursor() > old(self).cursor(),
            r.span.start.offset <= vstd::utf8::encode_utf8(final(self).source_view()).len(),
            r.span.end.offset <= vstd::utf8::encode_utf8(final(self).source_view()).len(),
    {
        self.skip_whitespace_and_comments();
        proof {
            lemma_enc_prefix_mono(self.chars@, self.pos as int, self.chars@.len() as int);
            assert(self.chars@.take(self.chars@.len() as int) =~= self.chars@);
        }
        self.token_start = self.position;

        let cur = self.current();
        match cur {
            Option::None => self.make_token(TokenKind::Eof),
            Some(ch) => match ch {
                '(' => self.single_char_token(TokenKind::LParen),
                ')' => self.single_char_token(TokenKind::RParen),
                '{' => self.single_char_token(TokenKind::LBrace),
                '}' => self.single_char_token(TokenKind::RBrace),
                '[' => self.single_char_token(TokenKind::LBracket),
                ']' => self.single_char_token(TokenKind::RBracket),
                ';' => self.single_char_token(TokenKind::Semi),
                ',' => self.single_char_token(TokenKind::Comma),
                '.' => self.single_char_token(TokenKind::Dot),
                '%' => self.single_char_token(TokenKind::Percent),
                ':' => self.single_char_token(TokenKind::Colon),
                '+' => self.single_char_token(TokenKind::Plus),
                '-' => self.single_char_token(TokenKind::Minus),
                '*' => self.single_char_token(TokenKind::Star),
                '/' => self.single_char_token(TokenKind::Slash),
                '!' => {
                    self.advance();
                    if self.current() == Some('=') {
                        self.advance();
                        self.make_token(TokenKind::NotEq)
                    } else {
                        self.make_token(TokenKind::Not)
                    }
                }
                '=' => {
                    self.advance();
                    if self.current() == Some('=') {
                        self.advance();
                        self.make_token(TokenKind::EqEq)
                    } else {
                        self.make_token(TokenKind::Eq)
                    }
                }
                '<' => {
                    self.advance();
                    if self.current() == Some('=') {
                        self.advance();
                        self.make_token(TokenKind::LtEq)
                    } else {
                        self.make_token(TokenKind::Lt)
                    }
                }
                '>' => {
                    self.advance();
                    if self.current() == Some('=') {
                        self.advance();
                        self.make_token(TokenKind::GtEq)
                    } else {
                        self.make_token(TokenKind::Gt)
                    }
                }
                '&' => {
                    self.advance();
                    if self.current() == Some('&') {
                        self.advance();
                        self.make_token(TokenKind::And)
                    } else {
                        let mut s = String::new();
                        s.append("&");
                        self.make_token(TokenKind::Ident(s))
                    }
                }
                '|' => {
                    self.advance();
                    if self.current() == Some('|') {
                        self.advance();
                        self.make_token(TokenKind::Or)
                    } else {
                        let mut s = String::new();
                        s.append("|");
                        self.make_token(TokenKind::Ident(s))
                    }
                }
                '$' => self.lex_dollar_ident(),
                '"' | '\'' => self.lex_string(ch),
                _ => {
                    if '0' <= ch && ch <= '9' {
                        self.lex_number()
                    } else if ('a' <= ch && ch <= 'z') || ('A' <= ch && ch <= 'Z') || ch == '_' {
                        self.lex_ident()
                    } else {
                        self.advance();
                        let mut v: Vec<char> = Vec::new();
                        v.push(ch);
                        self.make_token(TokenKind::Ident(string_of_chars(&v)))
                    }
                }
            },
        }
    }

    /// Lex a string literal delimited by the given quote, resolving the
    /// escapes \n \r \t \\ \" \' and passing unknown escapes through.
    fn lex_string(&mut self, quote: char) -> (r: Token)
        requires
            old(self).wf(),
            old(self).cursor() < old(self).input_len(),
        ensures
            final(self).wf(),
            final(self).input_len() == old(self).input_len(),
            final(self).source_view() == old(self).source_view(),
            final(self).cursor() > old(self).cursor(),
            !(r.kind is Eof),
            r.span.start.offset <= vstd::utf8::encode_utf8(final(self).source_view()).len(),
            r.span.end.offset <= vstd::utf8::encode_utf8(final(self).source_view()).len(),
    {
        self.advance();
        let mut value: Vec<char> = Vec::new();

        loop
            invariant
                self.wf(),
                self.input_len() == old(self).input_len(),
                self.source_view() == old(self).source_view(),
                self.cursor() > old(self).cursor(),
            decreases self.input_len() - self.cursor(),
        {
            let cur = self.current();
            if cur.is_none() {
                break;
            }
            if cur == Some(quote) {
                break;
            }
            if cur == Some('\\') {
                self.advance();
                let esc = self.current();
                match esc {
                    Some('n') => value.push('\n'),
                    Some('r') => value.push('\r'),
                    Some('t') => value.push('\t'),
                    Some('\\') => value.push('\\'),
                    Some('"') => value.push('"'),
                    Some('\'') => value.push('\''),
                    Some(c) => value.push(c),
                    Option::None => {
                        break;
                    }
                }
                self.advance();
            } else {
                match cur {
                    Some(c) => value.push(c),
                    Option::None => (),
                }
                self.advance();
            }
        }

        if self.current() == Some(quote) {
            self.advance();
        }

        self.make_token(TokenKind::String(string_of_chars(&value)))
    }

    /// Lex a number: decimal integers, and floats with a decimal point
    /// and/or an exponent.  An integer too large for i64 becomes 0, as does
    /// a float text that does not parse.
    fn lex_number(&mut self) -> (r: Token)
        requires
            old(self).wf(),
            old(self).cursor() < old(self).input_len(),
            '0' <= old(self).char_at(old(self).cursor()) && old(self).char_at(old(self).cursor())
                <= '9',
        ensures
            final(self).wf(),
            final(self).input_len() == old(self).input_len(),
            final(self).source_view() == old(self).source_view(),
            final(self).cursor() > old(self).cursor(),
            !(r.kind is Eof),
            r.span.start.offset <= vstd::utf8::encode_utf8(final(self).source_view()).len(),
            r.span.end.offset <= vstd::utf8::encode_utf8(final(self).source_view()).len(),
    {
        let mut value: Vec<char> = Vec::new();
        let mut is_float = false;

        let first = self.chars[self.pos];
        value.push(first);
        self.advance();

        loop
            invariant
                self.wf(),
                self.input_len() == old(self).input_len(),
                self.source_view() == old(self).source_view(),
                self.cursor() > old(self).cursor(),
            decreases self.input_len() - self.cursor(),
        {
            match self.current() {
                Some(c) => {
                    if '0' <= c && c <= '9' {
                        value.push(c);
                        self.advance();
                    } else {
                        break;
                    }
                }
                Option::None => {
                    break;
                }
            }
        }

        let dot_digit = self.current() == Some('.') && match self.peek() {
            Some(c) => '0' <= c && c <= '9',
            Option::None => false,
        };
        if dot_digit {
            is_float = true;
            value.push('.');
            self.advance();
            loop
                invariant
                    self.wf(),
                    self.input_len() == old(self).input_len(),
                self.source_view() == old(self).source_view(),
                    self.cursor() > old(self).cursor(),
                decreases self.input_len() - self.cursor(),
            {
                match self.current() {
                    Some(c) => {
                        if '0' <= c && c <= '9' {
                            value.push(c);
                            self.advance();
                        } else {
                            break;
                        }
                    }
                    Option::None => {
                        break;
                    }
                }
            }
        }

        let exp = match self.current() {
            Some(c) => c == 'e' || c == 'E',
            Option::None => false,
        };
        if exp {
            is_float = true;
            match self.current() {
                Some(c) => value.push(c),
                Option::None => (),
            }
            self.advance();
            let sign = match self.current() {
                Some(c) => c == '+' || c == '-',
                Option::None => false,
            };
            if sign {
                match self.current() {
                    Some(c) => value.push(c),
                    Option::None => (),
                }
                self.advance();
            }
            loop
                invariant
                    self.wf(),
                    self.input_len() == old(self).input_len(),
                self.source_view() == old(self).source_view(),
                    self.cursor() > old(self).cursor(),
                decreases self.input_len() - self.cursor(),
            {
                match self.current() {
                    Some(c) => {
                        if '0' <= c && c <= '9' {
                            value.push(c);
                            self.advance();
                        } else {
                            break;
                        }
                    }
                    Option::None => {
                        break;
                    }
                }
            }
        }

        if is_float {
            let text = string_of_chars(&value);
            let bits = parse_float_bits(text.as_str());
            self.make_token(TokenKind::Float(bits))
        } else {
            let n = parse_i64_digits(&value);
            self.make_token(TokenKind::Int(n))
        }
    }

    /// Lex an identifier or keyword.
    fn lex_ident(&mut self) -> (r: Token)
        requires
            old(self).wf(),
            old(self).cursor() < old(self).input_len(),
        ensures
            final(self).wf(),
            final(self).input_len() == old(self).input_len(),
            final(self).source_view() == old(self).source_view(),
            final(self).cursor() > old(self).cursor(),
            !(r.kind is Eof),
            r.span.start.offset <= vstd::utf8::encode_utf8(final(self).source_view()).len(),
            r.span.end.offset <= vstd::utf8::encode_utf8(final(self).source_view()).len(),
    {
        let mut value: Vec<char> = Vec::new();

        let first = self.chars[self.pos];
        value.push(first);
        self.advance();

        loop
            invariant
                self.wf(),
                self.input_len() == old(self).input_len(),
                self.source_view() == old(self).source_view(),
                self.cursor() > old(self).cursor(),
            decreases self.input_len() - self.cursor(),
        {
            match self.current() {
                Some(c) => {
                    if char_alnum(c) || c == '_' {
                        value.push(c);
                        self.advance();
                    } else {
                        break;
                    }
                }
                Option::None => {
                    break;
                }
            }
        }

        let text = string_of_chars(&value);
        let kind = keyword_or_ident(text);
        self.make_token(kind)
    }

    /// Lex $req, $request, or another $-prefixed identifier.
    fn lex_dollar_ident(&mut self) -> (r: Token)
        requires
            old(self).wf(),
            old(self).cursor() < old(self).input_len(),
        ensures
            final(self).wf(),
            final(self).input_len() == old(self).input_len(),
            final(self).source_view() == old(self).source_view(),
            final(self).cursor() > old(self).cursor(),
            !(r.kind is Eof),
            r.span.start.offset <= vstd::utf8::encode_utf8(final(self).source_view()).len(),
            r.span.end.offset <= vstd::utf8::encode_utf8(final(self).source_view()).len(),
    {
        self.advance();

        let mut value: Vec<char> = Vec::new();
        loop
            invariant
                self.wf(),
                self.input_len() == old(self).input_len(),
                self.source_view() == old(self).source_view(),
                self.cursor() > old(self).cursor(),
            decreases self.input_len() - self.cursor(),
        {
            match self.current() {
                Some(c) => {
                    if char_alnum(c) || c == '_' {
                        value.push(c);
                        self.advance();
                    } else {
                        break;
                    }
                }
                Option::None => {
                    break;
                }
            }
        }

        let text = string_of_chars(&value);
        let kind = if crate::text::str_eq(text.as_str(), "req") {
            TokenKind::Req
        } else if crate::text::str_eq(text.as_str(), "request") {
            TokenKind::Request
        } else {
            let mut s = String::new();
            s.append("$");
            s.append(text.as_str());
            TokenKind::Ident(s)
        };
        self.make_token(kind)
    }
}

/// Keyword table lookup: the fixed keywords map to their kinds, everything
/// else stays an identifier.
fn keyword_or_ident(text: String) -> (r: TokenKind)
    ensures
        !(r is Eof),
{
    if crate::text::str_eq(text.as_str(), "fn") {
        TokenKind::Fn
    } else if crate::text::str_eq(text.as_str(), "py") {
        TokenKind::Py
    } else if crate::text::str_eq(text.as_str(), "entry") {
        TokenKind::Entry
    } else if crate::text::str_eq(text.as_str(), "exit") {
        TokenKind::Exit
    } else if crate::text::str_eq(text.as_str(), "capture") {
        TokenKind::Capture
    } else if crate::text::str_eq(text.as_str(), "send") {
        TokenKind::Send
    } else if crate::text::str_eq(text.as_str(), "sample") {
        TokenKind::Sample
    } else if crate::text::str_eq(text.as_str(), "True") {
        TokenKind::Bool(true)
    } else if crate::text::str_eq(text.as_str(), "False") {
        TokenKind::Bool(false)
    } else if crate::text::str_eq(text.as_str(), "None") {
        TokenKind::NoneValue
    } else {
        TokenKind::Ident(text)
    }
}

/// Encoding a concatenation encodes the halves in order.
proof fn lemma_encode_append(a: Seq<char>, b: Seq<char>)
    ensures
        vstd::utf8::encode_utf8(a + b) == vstd::utf8::encode_utf8(a) + vstd::utf8::encode_utf8(b),
    decreases a.len(),
{
    if a.len() == 0 {
        assert(a + b =~= b);
        assert(vstd::utf8::encode_utf8(a) =~= Seq::<u8>::empty());
        assert(vstd::utf8::encode_utf8(a) + vstd::utf8::encode_utf8(b) =~= vstd::utf8::encode_utf8(
            b,
        ));
    } else {
        assert((a + b)[0] == a[0]);
        assert((a + b).drop_first() =~= a.drop_first() + b);
        lemma_encode_append(a.drop_first(), b);
        assert(vstd::utf8::encode_utf8(a + b) =~= vstd::utf8::encode_utf8(a)
            + vstd::utf8::encode_utf8(b));
    }
}

/// Consuming one more character extends the encoded prefix by that
/// character's encoding.
proof fn lemma_enc_take_snoc(chars: Seq<char>, p: int)
    requires
        0 <= p < chars.len(),
    ensures
        vstd::utf8::encode_utf8(chars.take(p + 1)) == vstd::utf8::encode_utf8(chars.take(p))
            + vstd::utf8::encode_scalar(chars[p] as u32),
{
    assert(chars.take(p + 1) =~= chars.take(p) + seq![chars[p]]);
    lemma_encode_append(chars.take(p), seq![chars[p]]);
    assert(vstd::utf8::encode_utf8(seq![chars[p]]) =~= vstd::utf8::encode_scalar(chars[p] as u32))
        by {
        assert(seq![chars[p]].drop_first() =~= Seq::<char>::empty());
        assert(vstd::utf8::encode_utf8(seq![chars[p]]) == vstd::utf8::encode_scalar(
            chars[p] as u32,
        ) + vstd::utf8::encode_utf8(Seq::<char>::empty()));
        assert(vstd::utf8::encode_scalar(chars[p] as u32) + Seq::<u8>::empty()
            =~= vstd::utf8::encode_scalar(chars[p] as u32));
    }
}

/// A longer consumed prefix never has a shorter encoding.
proof fn lemma_enc_prefix_mono(chars: Seq<char>, p: int, q: int)
    requires
        0 <= p <= q <= chars.len(),
    ensures
        vstd::utf8::encode_utf8(chars.take(p)).len() <= vstd::utf8::encode_utf8(
            chars.take(q),
        ).len(),
{
    assert(chars.take(q) =~= chars.take(p) + chars.subrange(p, q));
    lemma_encode_append(chars.take(p), chars.subrange(p, q));
}

/// UTF-8 byte length of one character.
fn char_utf8_len(c: char) -> (r: usize)
    ensures
        1 <= r <= 4,
        r == vstd::utf8::encode_scalar(c as u32).len(),
{
    proof {
        vstd::utf8::char_is_scalar(c);
    }
    let u = c as u32;
    if u < 0x80 {
        1
    } else if u < 0x800 {
        2
    } else if u < 0x10000 {
        3
    } else {
        4
    }
}

/// The value of decimal digit text, or 0 where it does not fit in i64.
fn parse_i64_digits(digits: &Vec<char>) -> (r: i64)
{
    let mut acc: i64 = 0;
    let mut i: usize = 0;
    while i < digits.len()
        invariant
            i <= digits@.len(),
            acc >= 0,
        decreases digits@.len() - i,
    {
        let c = digits[i];
        if c < '0' || c > '9' {
            return 0;
        }
        let d: i64 = ((c as u32) - 0x30) as i64;
        let next = match acc.checked_mul(10) {
            Some(x) => match x.checked_add(d) {
                Some(y) => y,
                Option::None => {
                    return 0;
                }
            },
            Option::None => {
                return 0;
            }
        };
        if next < 0 {
            return 0;
        }
        acc = next;
        i = i + 1;
    }
    acc
}

/// The whole token stream of a source text: a finite sequence that ends in
/// exactly one Eof token and contains no other Eof.
pub fn tokenize(source: &str) -> (r: Vec<Token>)
    ensures
        r@.len() >= 1,
        r@.last().kind is Eof,
        forall|i: int| 0 <= i < r@.len() - 1 ==> !(#[trigger] r@[i].kind is Eof),
        forall|i: int| 0 <= i < r@.len() ==> (#[trigger] r@[i]).span.start.offset
            <= vstd::utf8::encode_utf8(source@).len() && r@[i].span.end.offset
            <= vstd::utf8::encode_utf8(source@).len(),
{
    let mut lexer = Lexer::new(source);
    let mut tokens: Vec<Token> = Vec::new();
    loop
        invariant_except_break
            forall|i: int| 0 <= i < tokens@.len() ==> !(#[trigger] tokens@[i].kind is Eof),
        invariant
            lexer.wf(),
            lexer.source_view() == source@,
            forall|i: int| 0 <= i < tokens@.len() ==> (#[trigger] tokens@[i]).span.start.offset
                <= vstd::utf8::encode_utf8(source@).len() && tokens@[i].span.end.offset
                <= vstd::utf8::encode_utf8(source@).len(),
        ensures
            tokens@.len() >= 1,
            tokens@.last().kind is Eof,
            forall|i: int| 0 <= i < tokens@.len() - 1 ==> !(#[trigger] tokens@[i].kind is Eof),
            forall|i: int| 0 <= i < tokens@.len() ==> (#[trigger] tokens@[i]).span.start.offset
                <= vstd::utf8::encode_utf8(source@).len() && tokens@[i].span.end.offset
                <= vstd::utf8::encode_utf8(source@).len(),
        decreases lexer.input_len() - lexer.cursor(),
    {
        let tok = lexer.next_token();
        let is_eof = match tok.kind {
            TokenKind::Eof => true,
            _ => false,
        };
        tokens.push(tok);
        if is_eof {
            break;
        }
    }
    tokens
}

} // verus!
