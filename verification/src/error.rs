//! Error values of the parser, with location information and helpful
//! context for display.

use vstd::prelude::*;
use crate::lexer::{Span, Token, TokenKind};
use crate::text::push_char;

verus! {

/// Result type for parser operations.
pub type ParseResult<T> = Result<T, ParseError>;

/// Error severity level.
#[derive(Debug, Clone, Copy, PartialEq, Eq, Structural)]
pub enum ErrorLevel {
    Error,
    Warning,
}

/// Error kind for categorization and better messages.
#[derive(Debug, Clone, Copy, PartialEq, Eq, Structural)]
pub enum ErrorKind {
    UnexpectedToken,
    UnexpectedEof,
    InvalidToken,
    MissingDelimiter,
    InvalidProbeSpec,
    InvalidExpression,
    InvalidStatement,
    Other,
}

/// Parse error with location information and helpful context.
#[derive(Debug, Clone)]
pub struct ParseError {
    pub kind: ErrorKind,
    pub level: ErrorLevel,
    pub message: String,
    pub span: Span,
    pub suggestion: Option<String>,
    pub source: Option<String>,
}

impl ParseError {
    /// Create a new parse error.
    pub fn new(message: String, span: Span) -> (r: Self)
        ensures
            r.kind is Other,
            r.level is Error,
            r.message@ == message@,
            r.span == span,
            r.suggestion is None,
            r.source is None,
    {
        ParseError {
            kind: ErrorKind::Other,
            level: ErrorLevel::Error,
            message,
            span,
            suggestion: Option::<String>::None,
            source: Option::<String>::None,
        }
    }

    /// Create an "expected token" error, with an UnexpectedEof kind when the
    /// stray token is the end of the file and a targeted suggestion for
    /// common cases.
    pub fn expected(expected: TokenKind, found: Token) -> (r: Self)
        ensures
            r.kind is UnexpectedEof <==> found.kind is Eof,
            !(found.kind is Eof) ==> r.kind is UnexpectedToken,
            r.level is Error,
            r.span == found.span,
            r.source is None,
    {
        let mut message = String::new();
        message.append("Expected ");
        message.append(expected.to_text().as_str());
        message.append(", found ");
        message.append(found.kind.to_text().as_str());

        let suggestion = Self::suggest_for_expected(&expected, &found.kind);

        let is_eof = match found.kind {
            TokenKind::Eof => true,
            _ => false,
        };
        ParseError {
            kind: if is_eof {
                ErrorKind::UnexpectedEof
            } else {
                ErrorKind::UnexpectedToken
            },
            level: ErrorLevel::Error,
            message,
            span: found.span,
            suggestion,
            source: Option::<String>::None,
        }
    }

    /// Create a custom error at a specific span.
    pub fn at_span(message: &str, span: Span) -> (r: Self)
        ensures
            r.kind is Other,
            r.level is Error,
            r.message@ == message@,
            r.span == span,
            r.suggestion is None,
            r.source is None,
    {
        let mut m = String::new();
        m.append(message);
        ParseError {
            kind: ErrorKind::Other,
            level: ErrorLevel::Error,
            message: m,
            span,
            suggestion: Option::<String>::None,
            source: Option::<String>::None,
        }
    }

    /// Create an error with a specific kind.
    pub fn with_kind(kind: ErrorKind, message: &str, span: Span) -> (r: Self)
        ensures
            r.kind == kind,
            r.level is Error,
            r.message@ == message@,
            r.span == span,
            r.suggestion is None,
            r.source is None,
    {
        let mut m = String::new();
        m.append(message);
        ParseError {
            kind,
            level: ErrorLevel::Error,
            message: m,
            span,
            suggestion: Option::<String>::None,
            source: Option::<String>::None,
        }
    }

    /// Add a suggestion to the error.
    pub fn with_suggestion(self, suggestion: &str) -> (r: Self)
        ensures
            r.kind == self.kind,
            r.level == self.level,
            r.message == self.message,
            r.span == self.span,
            (r.suggestion matches Some(s) && s@ == suggestion@),
            r.source == self.source,
    {
        let mut s = String::new();
        s.append(suggestion);
        ParseError { suggestion: Some(s), ..self }
    }

    /// Add source code reference for better error display.
    pub fn with_source(self, source: &str) -> (r: Self)
        ensures
            r.kind == self.kind,
            r.level == self.level,
            r.message == self.message,
            r.span == self.span,
            r.suggestion == self.suggestion,
            (r.source matches Some(s) && s@ == source@),
    {
        let mut s = String::new();
        s.append(source);
        ParseError { source: Some(s), ..self }
    }

    /// Convert into a boxed error.
    pub fn boxed(self) -> Box<Self> {
        Box::new(self)
    }

    /// Suggest fixes for common "expected token" errors.
    fn suggest_for_expected(expected: &TokenKind, found: &TokenKind) -> Option<String> {
        let mut s = String::new();
        match (expected, found) {
            (TokenKind::Semi, _) => {
                s.append("Add a semicolon ';' at the end of the statement");
                Some(s)
            }
            (TokenKind::RBrace, TokenKind::Eof) => {
                s.append("Add a closing brace '}' to match the opening brace");
                Some(s)
            }
            (TokenKind::RParen, TokenKind::Eof) => {
                s.append("Add a closing parenthesis ')' to match the opening parenthesis");
                Some(s)
            }
            (TokenKind::RBracket, TokenKind::Eof) => {
                s.append("Add a closing bracket ']' to match the opening bracket");
                Some(s)
            }
            _ => Option::<String>::None,
        }
    }

    /// Format the error with source code context.
    pub fn format_with_source(&self, filename: &str) -> String {
        let mut output = String::new();

        output.append(match self.level {
            ErrorLevel::Error => "Error",
            ErrorLevel::Warning => "Warning",
        });
        output.append(": ");
        output.append(self.message.as_str());
        output.append("\n");

        output.append("  --> ");
        output.append(filename);
        output.append(":");
        output.append(crate::text::usize_text(self.span.start.line).as_str());
        output.append(":");
        output.append(crate::text::usize_text(self.span.start.column).as_str());
        output.append("\n");

        match &self.source {
            Some(source) => {
                let lines = split_lines(source.as_str());
                let line_idx: usize = if self.span.start.line == 0 {
                    0
                } else {
                    self.span.start.line - 1
                };

                if line_idx < lines.len() {
                    let line = &lines[line_idx];
                    let line_num = self.span.start.line;
                    let line_num_width = crate::text::usize_text(line_num).as_str().unicode_len();

                    output.append(repeat_char(' ', line_num_width).as_str());
                    output.append(" |\n");
                    output.append(crate::text::usize_text(line_num).as_str());
                    output.append(" | ");
                    output.append(line.as_str());
                    output.append("\n");

                    let start_col: usize = if self.span.start.column == 0 {
                        0
                    } else {
                        self.span.start.column - 1
                    };
                    let end_col: usize = if self.span.start.line == self.span.end.line {
                        if self.span.end.column == 0 {
                            0
                        } else {
                            self.span.end.column - 1
                        }
                    } else {
                        line.as_str().unicode_len()
                    };

                    let diff: usize = if end_col > start_col {
                        end_col - start_col
                    } else {
                        0
                    };
                    let indicator_len: usize = if diff > 1 {
                        diff
                    } else {
                        1
                    };
                    output.append(repeat_char(' ', line_num_width).as_str());
                    output.append(" | ");
                    let pad: usize = match start_col.checked_add(1) {
                        Some(p) => p,
                        Option::None => start_col,
                    };
                    output.append(repeat_char(' ', pad).as_str());
                    output.append(repeat_char('^', indicator_len).as_str());
                    output.append("\n");
                }
            }
            Option::None => (),
        }

        match &self.suggestion {
            Some(suggestion) => {
                output.append("   = help: ");
                output.append(suggestion.as_str());
                output.append("\n");
            }
            Option::None => (),
        }

        output
    }

    /// Plain rendering of the error: "Parse error at span: message", with
    /// the suggestion on a second line when there is one.
    pub fn to_text(&self) -> String {
        let mut m = String::new();
        m.append("Parse error at ");
        m.append(self.span.to_text().as_str());
        m.append(": ");
        m.append(self.message.as_str());
        match &self.suggestion {
            Some(suggestion) => {
                m.append("\n  help: ");
                m.append(suggestion.as_str());
            }
            Option::None => (),
        }
        m
    }
}

/// A string of one character repeated.
fn repeat_char(c: char, n: usize) -> (r: String)
    ensures
        r@.len() == n,
{
    let mut s = String::new();
    let mut i: usize = 0;
    while i < n
        invariant
            i <= n,
            s@.len() == i,
        decreases n - i,
    {
        push_char(&mut s, c);
        i = i + 1;
    }
    s
}

/// The lines of a text, split at newlines, with a trailing carriage return
/// stripped from each.
fn split_lines(s: &str) -> Vec<String> {
    let n = s.unicode_len();
    let mut lines: Vec<String> = Vec::new();
    let mut cur: Vec<char> = Vec::new();
    let mut i: usize = 0;
    while i < n
        invariant
            n == s@.len(),
            i <= n,
        decreases n - i,
    {
        let c = s.get_char(i);
        if c == '\n' {
            lines.push(finish_line(&cur));
            cur = Vec::new();
        } else {
            cur.push(c);
        }
        i = i + 1;
    }
    if cur.len() > 0 {
        lines.push(finish_line(&cur));
    }
    lines
}

/// One split line as a string, without a trailing carriage return.
fn finish_line(cur: &Vec<char>) -> String {
    let mut chars: Vec<char> = Vec::new();
    let keep: usize = if cur.len() > 0 && cur[cur.len() - 1] == '\r' {
        cur.len() - 1
    } else {
        cur.len()
    };
    let mut i: usize = 0;
    while i < keep
        invariant
            keep <= cur@.len(),
            i <= keep,
        decreases keep - i,
    {
        chars.push(cur[i]);
        i = i + 1;
    }
    crate::text::string_of_chars(&chars)
}

} // verus!
