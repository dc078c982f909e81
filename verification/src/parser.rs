//! Recursive descent parser for the probe language, with precedence
//! climbing for expressions and two-token lookahead.
//!
//! The parser is total: on every token stream it either returns a node or an
//! error value, and it stops at the first error.

use vstd::prelude::*;
use crate::ast::{
    AstExpr, AstProbe, AstProgram, AstStatement, BinaryOp, CaptureArgs, ModuleFunction,
    ModulePart, NamedArg, ProbePoint, ProbeSpec, Provider, RequestVar, SampleSpec, UnaryOp,
};
use crate::error::{ErrorKind, ParseError, ParseResult};
use crate::lexer::{Lexer, Span, Token, TokenKind, tokenize};
use crate::program::Program;
use crate::text::str_eq;

verus! {

/// Parse probe source code into a compiled program: the lexer, parser and
/// compiler in sequence.  A successful result carries the compiler's
/// guarantees: version 1, full sampling, one probe per probe block with ids
/// "probe_0", "probe_1", ... in order, and well-formed bytecode with a
/// one-value predicate and a zero-effect body over the shared pool.
pub fn parse(source: &str) -> (r: ParseResult<Program>)
    ensures
        r matches Ok(prog) ==> ({
            &&& prog.version == 1
            &&& prog.sampling == 0x3F80_0000u32
            &&& forall|j: int| 0 <= j < prog.probes@.len() ==> ({
                let pb = #[trigger] prog.probes@[j];
                &&& pb.id@ == "probe_"@ + crate::text::spec_u64_digits(j as u64)
                &&& (pb.predicate@.len() == 0 || crate::compiler::chunk_eff(pb.predicate@, 0, 1))
                &&& crate::compiler::ops_ok(pb.predicate@, 0, prog.constant_pool@.len() as int)
                &&& crate::compiler::chunk_eff(pb.body@, 0, 0)
                &&& crate::compiler::ops_ok(pb.body@, 0, prog.constant_pool@.len() as int)
            })
        }),
{
    let lexer = Lexer::new(source);
    let ast = match Parser::new(lexer).parse_program() {
        Ok(a) => a,
        Err(e) => {
            return Err(e);
        }
    };
    let mut compiler = crate::compiler::Compiler::new();
    compiler.compile(ast)
}

/// The main parser struct; works through the token stream of one source.
pub struct Parser<'a> {
    tokens: Vec<Token>,
    idx: usize,
    source: &'a str,
}

impl<'a> Parser<'a> {
    /// The token stream ends in exactly one Eof token and the cursor stays
    /// on it at the end.
    pub closed spec fn wf(&self) -> bool {
        &&& self.tokens@.len() >= 1
        &&& self.tokens@.last().kind is Eof
        &&& (forall|i: int| 0 <= i < self.tokens@.len() - 1 ==> !(#[trigger] self.tokens@[i].kind
            is Eof))
        &&& self.idx < self.tokens@.len()
    }

    /// Number of tokens not yet consumed.
    pub closed spec fn remaining(&self) -> int {
        self.tokens@.len() - self.idx
    }

    /// Create a new parser from a lexer.
    pub fn new(lexer: Lexer<'a>) -> (r: Self)
        ensures
            r.wf(),
    {
        let source = lexer.source();
        let tokens = tokenize(source);
        Parser { tokens, idx: 0, source }
    }

    /// The token under the cursor.
    fn current(&self) -> (r: &Token)
        requires
            self.wf(),
        ensures
            *r == self.tokens@[self.idx as int],
            r.kind is Eof <==> self.idx == self.tokens@.len() - 1,
    {
        proof {
            if self.idx + 1 < self.tokens@.len() {
                assert(!(self.tokens@[self.idx as int].kind is Eof));
            } else {
                assert(self.tokens@[self.idx as int] == self.tokens@.last());
            }
        }
        &self.tokens[self.idx]
    }

    /// The token after the cursor (Eof repeats at the end).
    fn peek_token(&self) -> (r: &Token)
        requires
            self.wf(),
    {
        if self.idx < self.tokens.len() - 1 {
            &self.tokens[self.idx + 1]
        } else {
            &self.tokens[self.idx]
        }
    }

    /// Advance to the next token; at the final Eof this stays put.
    fn advance(&mut self)
        requires
            old(self).wf(),
        ensures
            final(self).wf(),
            final(self).tokens == old(self).tokens,
            final(self).remaining() <= old(self).remaining(),
            !(old(self).tokens@[old(self).idx as int].kind is Eof) ==> final(self).remaining()
                == old(self).remaining() - 1,
    {
        proof {
            if self.idx + 1 >= self.tokens@.len() {
                assert(self.tokens@[self.idx as int] == self.tokens@.last());
            }
        }
        if self.idx < self.tokens.len() - 1 {
            self.idx = self.idx + 1;
        }
    }

    /// Does the current token match the kind?  Any identifier matches an
    /// identifier pattern; other kinds match structurally.
    fn check(&self, kind: &TokenKind) -> (r: bool)
        requires
            self.wf(),
        ensures
            r && !(kind is Eof) ==> !(self.tokens@[self.idx as int].kind is Eof),
    {
        let cur = &self.tokens[self.idx];
        kinds_match(kind, &cur.kind)
    }

    /// Expect a specific token kind and advance past it.
    fn expect(&mut self, kind: TokenKind) -> (r: ParseResult<Token>)
        requires
            old(self).wf(),
        ensures
            final(self).wf(),
            final(self).remaining() <= old(self).remaining(),
            r is Ok && !(kind is Eof) ==> final(self).remaining() < old(self).remaining(),
    {
        if self.check(&kind) {
            let tok = self.current().clone();
            self.advance();
            Ok(tok)
        } else {
            Err(ParseError::expected(kind, self.current().clone()))
        }
    }

    /// Add source context to an error.
    fn enrich_error(&self, error: ParseError) -> ParseError {
        error.with_source(self.source)
    }

    /// Parse a complete probe program: a sequence of probes up to the end of
    /// the file.
    pub fn parse_program(&mut self) -> (r: ParseResult<AstProgram>)
        requires
            old(self).wf(),
        ensures
            final(self).wf(),
    {
        let start = self.current().span.start;
        let mut probes: Vec<AstProbe> = Vec::new();

        loop
            invariant
                self.wf(),
            decreases self.remaining(),
        {
            let at_eof = match self.current().kind {
                TokenKind::Eof => true,
                _ => false,
            };
            if at_eof {
                break;
            }
            match self.parse_probe() {
                Ok(p) => probes.push(p),
                Err(e) => {
                    return Err(e);
                }
            }
        }

        let end = if probes.len() > 0 {
            probes[probes.len() - 1].span.end
        } else {
            start
        };

        Ok(AstProgram { probes, span: Span::new(start, end) })
    }

    /// Parse a single probe definition: spec, optional predicate, body.
    fn parse_probe(&mut self) -> (r: ParseResult<AstProbe>)
        requires
            old(self).wf(),
        ensures
            final(self).wf(),
            final(self).remaining() <= old(self).remaining(),
            r is Ok ==> final(self).remaining() < old(self).remaining(),
        decreases old(self).remaining(), 9int,
    {
        let start = self.current().span.start;

        let spec = match self.parse_probe_spec() {
            Ok(s) => s,
            Err(e) => {
                return Err(e);
            }
        };

        let predicate = if self.check(&TokenKind::Slash) {
            match self.parse_predicate() {
                Ok(p) => Some(p),
                Err(e) => {
                    return Err(e);
                }
            }
        } else {
            Option::<AstExpr>::None
        };

        match self.expect(TokenKind::LBrace) {
            Ok(_) => (),
            Err(e) => {
                return Err(e);
            }
        }
        let mut body: Vec<AstStatement> = Vec::new();
        loop
            invariant
                self.wf(),
                self.remaining() < old(self).remaining(),
            decreases self.remaining(),
        {
            let done = self.check(&TokenKind::RBrace) || match self.current().kind {
                TokenKind::Eof => true,
                _ => false,
            };
            if done {
                break;
            }
            match self.parse_statement() {
                Ok(s) => body.push(s),
                Err(e) => {
                    return Err(e);
                }
            }
        }
        let close = match self.expect(TokenKind::RBrace) {
            Ok(t) => t,
            Err(e) => {
                return Err(e);
            }
        };

        Ok(AstProbe { spec, predicate, body, span: Span::new(start, close.span.end) })
    }

    /// Parse a probe specification: (fn|py) ':' module.function ':' point.
    fn parse_probe_spec(&mut self) -> (r: ParseResult<ProbeSpec>)
        requires
            old(self).wf(),
        ensures
            final(self).wf(),
            final(self).remaining() <= old(self).remaining(),
            r is Ok ==> final(self).remaining() < old(self).remaining(),
        decreases old(self).remaining(), 8int,
    {
        let start = self.current().span.start;

        let provider = match self.current().kind {
            TokenKind::Fn => {
                self.advance();
                Provider::Fn
            }
            TokenKind::Py => {
                self.advance();
                Provider::Py
            }
            _ => {
                let e = ParseError::with_kind(
                    ErrorKind::InvalidProbeSpec,
                    "Expected 'fn' or 'py' at start of probe specification",
                    self.current().span,
                ).with_suggestion("Probe specifications must start with 'fn:' or 'py:'");
                return Err(self.enrich_error(e));
            }
        };

        match self.expect(TokenKind::Colon) {
            Ok(_) => (),
            Err(e) => {
                return Err(e);
            }
        }

        let module_function = match self.parse_module_function() {
            Ok(m) => m,
            Err(e) => {
                return Err(e);
            }
        };

        match self.expect(TokenKind::Colon) {
            Ok(_) => (),
            Err(e) => {
                return Err(e);
            }
        }

        let probe_point = match self.parse_probe_point() {
            Ok(p) => p,
            Err(e) => {
                return Err(e);
            }
        };

        let end = self.current().span.start;

        Ok(ProbeSpec { provider, module_function, probe_point, span: Span::new(start, end) })
    }

    /// Parse a dotted module.function path with optional `*` wildcards.
    fn parse_module_function(&mut self) -> (r: ParseResult<ModuleFunction>)
        requires
            old(self).wf(),
        ensures
            final(self).wf(),
            final(self).remaining() <= old(self).remaining(),
        decreases old(self).remaining(), 7int,
    {
        let start = self.current().span.start;
        let mut parts: Vec<ModulePart> = Vec::new();

        loop
            invariant
                self.wf(),
                self.remaining() <= old(self).remaining(),
            decreases self.remaining(),
        {
            match &self.current().kind {
                TokenKind::Ident(name) => {
                    let part = ModulePart::Ident(crate::constant_pool::clone_string(name));
                    parts.push(part);
                    self.advance();
                }
                TokenKind::Star => {
                    parts.push(ModulePart::Wildcard);
                    self.advance();
                }
                _ => {
                    return Err(ParseError::at_span(
                        "Expected identifier or '*'",
                        self.current().span,
                    ));
                }
            }

            if !self.check(&TokenKind::Dot) {
                break;
            }
            self.advance();
        }

        if parts.len() == 0 {
            return Err(ParseError::at_span("Expected module/function path", self.current().span));
        }

        Ok(ModuleFunction { parts, span: Span::new(start, self.current().span.start) })
    }

    /// Parse a probe point: entry, exit, entry+N or exit+N, with targeted
    /// hints for near misses.
    fn parse_probe_point(&mut self) -> (r: ParseResult<ProbePoint>)
        requires
            old(self).wf(),
        ensures
            final(self).wf(),
            final(self).remaining() <= old(self).remaining(),
        decreases old(self).remaining(), 7int,
    {
        match &self.current().kind {
            TokenKind::Entry => {
                self.advance();
                if self.check(&TokenKind::Plus) {
                    self.advance();
                    let n_opt = match self.current().kind {
                        TokenKind::Int(n) => Some(n),
                        _ => Option::<i64>::None,
                    };
                    match n_opt {
                        Some(offset) => {
                            self.advance();
                            Ok(ProbePoint::EntryOffset(offset))
                        }
                        Option::None => Err(ParseError::at_span(
                            "Expected integer offset",
                            self.current().span,
                        )),
                    }
                } else {
                    Ok(ProbePoint::Entry)
                }
            }
            TokenKind::Exit => {
                self.advance();
                if self.check(&TokenKind::Plus) {
                    self.advance();
                    let n_opt = match self.current().kind {
                        TokenKind::Int(n) => Some(n),
                        _ => Option::<i64>::None,
                    };
                    match n_opt {
                        Some(offset) => {
                            self.advance();
                            Ok(ProbePoint::ExitOffset(offset))
                        }
                        Option::None => Err(ParseError::at_span(
                            "Expected integer offset",
                            self.current().span,
                        )),
                    }
                } else {
                    Ok(ProbePoint::Exit)
                }
            }
            _ => {
                let suggestion: &str = match &self.current().kind {
                    TokenKind::Ident(s) => {
                        if str_eq(s.as_str(), "entr") || str_eq(s.as_str(), "entyr") || str_eq(
                            s.as_str(),
                            "entre",
                        ) {
                            "Did you mean 'entry'?"
                        } else if str_eq(s.as_str(), "exi") || str_eq(s.as_str(), "ext") || str_eq(
                            s.as_str(),
                            "exti",
                        ) {
                            "Did you mean 'exit'?"
                        } else {
                            "Probe points must be 'entry', 'exit', 'entry+N', or 'exit+N'"
                        }
                    }
                    _ => "Probe points must be 'entry', 'exit', 'entry+N', or 'exit+N'",
                };

                let mut msg = String::new();
                msg.append("Expected 'entry' or 'exit', found ");
                msg.append(self.current().kind.to_text().as_str());
                let e = ParseError::with_kind(
                    ErrorKind::InvalidProbeSpec,
                    msg.as_str(),
                    self.current().span,
                ).with_suggestion(suggestion);
                Err(self.enrich_error(e))
            }
        }
    }

    /// Parse a predicate: the expression between two '/' delimiters.
    fn parse_predicate(&mut self) -> (r: ParseResult<AstExpr>)
        requires
            old(self).wf(),
        ensures
            final(self).wf(),
            final(self).remaining() <= old(self).remaining(),
        decreases old(self).remaining(), 8int,
    {
        self.advance();
        let expr = match self.parse_predicate_expr_with_precedence(0) {
            Ok(e) => e,
            Err(e) => {
                return Err(e);
            }
        };
        self.advance();
        Ok(expr)
    }

    /// Parse a predicate expression; a '/' at bracket depth zero ends the
    /// predicate instead of dividing.  Depth is tracked through the variant
    /// parsing functions below: only the delimited sub-expressions treat '/'
    /// as division again.
    fn parse_predicate_expr_with_precedence(&mut self, min_precedence: u8) -> (r: ParseResult<
        AstExpr,
    >)
        requires
            old(self).wf(),
        ensures
            final(self).wf(),
            final(self).remaining() <= old(self).remaining(),
            r is Ok ==> final(self).remaining() < old(self).remaining(),
        decreases old(self).remaining(), 6int,
    {
        let mut left = match self.parse_unary_expr_for_predicate() {
            Ok(e) => e,
            Err(e) => {
                return Err(e);
            }
        };
        left = match self.parse_postfix_expr_for_predicate(left) {
            Ok(e) => e,
            Err(e) => {
                return Err(e);
            }
        };

        loop
            invariant
                self.wf(),
                self.remaining() < old(self).remaining(),
            decreases self.remaining(),
        {
            let op_prec = self.current_binary_op_for_predicate();
            match op_prec {
                Some((op, precedence)) => {
                    if precedence < min_precedence {
                        break;
                    }
                    self.advance();
                    let right = match self.parse_predicate_expr_with_precedence(precedence + 1) {
                        Ok(e) => e,
                        Err(e) => {
                            return Err(e);
                        }
                    };
                    let span = Span::new(left.span().start, right.span().end);
                    left = AstExpr::Binary {
                        op,
                        left: Box::new(left),
                        right: Box::new(right),
                        span,
                    };
                }
                Option::None => {
                    break;
                }
            }
        }

        Ok(left)
    }

    /// Parse a unary expression inside a predicate.
    fn parse_unary_expr_for_predicate(&mut self) -> (r: ParseResult<AstExpr>)
        requires
            old(self).wf(),
        ensures
            final(self).wf(),
            final(self).remaining() <= old(self).remaining(),
            r is Ok ==> final(self).remaining() < old(self).remaining(),
        decreases old(self).remaining(), 5int,
    {
        match &self.current().kind {
            TokenKind::Not => {
                let start = self.current().span.start;
                self.advance();
                let expr = match self.parse_unary_expr_for_predicate() {
                    Ok(e) => e,
                    Err(e) => {
                        return Err(e);
                    }
                };
                let span = Span::new(start, expr.span().end);
                Ok(AstExpr::Unary { op: UnaryOp::Not, expr: Box::new(expr), span })
            }
            TokenKind::LParen => {
                self.advance();
                let expr = match self.parse_expr_with_precedence(0) {
                    Ok(e) => e,
                    Err(e) => {
                        return Err(e);
                    }
                };
                match self.expect(TokenKind::RParen) {
                    Ok(_) => (),
                    Err(e) => {
                        return Err(e);
                    }
                }
                Ok(expr)
            }
            _ => self.parse_primary_expr(),
        }
    }

    /// Parse postfix accesses on a predicate expression.
    fn parse_postfix_expr_for_predicate(&mut self, expr: AstExpr) -> (r: ParseResult<AstExpr>)
        requires
            old(self).wf(),
        ensures
            final(self).wf(),
            final(self).remaining() <= old(self).remaining(),
        decreases old(self).remaining(), 5int,
    {
        let mut e = expr;
        loop
            invariant
                self.wf(),
                self.remaining() <= old(self).remaining(),
            decreases self.remaining(),
        {
            let is_dot = self.check(&TokenKind::Dot);
            let is_bracket = self.check(&TokenKind::LBracket);
            if is_dot {
                self.advance();
                let field_tok = match self.expect(TokenKind::Ident(String::new())) {
                    Ok(t) => t,
                    Err(err) => {
                        return Err(err);
                    }
                };
                let field = match field_tok.kind {
                    TokenKind::Ident(s) => s,
                    _ => {
                        return Err(ParseError::at_span(
                            "Expected field name after '.'",
                            field_tok.span,
                        ));
                    }
                };
                let span = Span::new(e.span().start, field_tok.span.end);
                e = AstExpr::FieldAccess { object: Box::new(e), field, span };
            } else if is_bracket {
                self.advance();
                let index = match self.parse_expr_with_precedence(0) {
                    Ok(x) => x,
                    Err(err) => {
                        return Err(err);
                    }
                };
                let close = match self.expect(TokenKind::RBracket) {
                    Ok(t) => t,
                    Err(err) => {
                        return Err(err);
                    }
                };
                let span = Span::new(e.span().start, close.span.end);
                e = AstExpr::IndexAccess { object: Box::new(e), index: Box::new(index), span };
            } else {
                break;
            }
        }
        Ok(e)
    }

    /// The binary operator under the cursor inside a predicate: '/' at depth
    /// zero ends the predicate, so it is not an operator here.
    fn current_binary_op_for_predicate(&self) -> (r: Option<(BinaryOp, u8)>)
        requires
            self.wf(),
        ensures
            r is Some ==> !(self.tokens@[self.idx as int].kind is Eof),
            r matches Some(p) ==> p.1 <= 6,
    {
        match self.current().kind {
            TokenKind::Slash => Option::<(BinaryOp, u8)>::None,
            _ => self.current_binary_op(),
        }
    }

    /// Parse a statement: assignment, sample directive, or capture/send.
    pub fn parse_statement(&mut self) -> (r: ParseResult<AstStatement>)
        requires
            old(self).wf(),
        ensures
            final(self).wf(),
            final(self).remaining() <= old(self).remaining(),
            r is Ok ==> final(self).remaining() < old(self).remaining(),
        decreases old(self).remaining(), 8int,
    {
        match self.current().kind {
            TokenKind::Req | TokenKind::Request => self.parse_assignment(),
            TokenKind::Sample => self.parse_sample_directive(),
            TokenKind::Capture | TokenKind::Send => self.parse_capture_statement(),
            _ => {
                let mut msg = String::new();
                msg.append("Expected statement, found ");
                msg.append(self.current().kind.to_text().as_str());
                Err(ParseError::at_span(msg.as_str(), self.current().span))
            }
        }
    }

    /// Parse an assignment statement: $req.field = expr;
    fn parse_assignment(&mut self) -> (r: ParseResult<AstStatement>)
        requires
            old(self).wf(),
            old(self).tokens@[old(self).idx as int].kind is Req || old(self).tokens@[old(
                self,
            ).idx as int].kind is Request,
        ensures
            final(self).wf(),
            final(self).remaining() <= old(self).remaining(),
            r is Ok ==> final(self).remaining() < old(self).remaining(),
        decreases old(self).remaining(), 7int,
    {
        let start = self.current().span.start;
        let is_request = match self.current().kind {
            TokenKind::Request => true,
            _ => false,
        };
        self.advance();

        match self.expect(TokenKind::Dot) {
            Ok(_) => (),
            Err(e) => {
                return Err(e);
            }
        }
        let field_tok = match self.expect(TokenKind::Ident(String::new())) {
            Ok(t) => t,
            Err(e) => {
                return Err(e);
            }
        };
        let field = match field_tok.kind {
            TokenKind::Ident(s) => s,
            _ => {
                return Err(ParseError::at_span("Expected field name", field_tok.span));
            }
        };

        let var_span = Span::new(start, field_tok.span.end);
        let var = RequestVar { is_request, field, span: var_span };

        match self.expect(TokenKind::Eq) {
            Ok(_) => (),
            Err(e) => {
                return Err(e);
            }
        }
        let value = match self.parse_expr_with_precedence(0) {
            Ok(e) => e,
            Err(e) => {
                return Err(e);
            }
        };
        let semi = match self.expect(TokenKind::Semi) {
            Ok(t) => t,
            Err(e) => {
                return Err(e);
            }
        };

        Ok(AstStatement::Assignment { var, value, span: Span::new(start, semi.span.end) })
    }

    /// Parse a sample directive: sample N%; or sample N/M;
    fn parse_sample_directive(&mut self) -> (r: ParseResult<AstStatement>)
        requires
            old(self).wf(),
            old(self).tokens@[old(self).idx as int].kind is Sample,
        ensures
            final(self).wf(),
            final(self).remaining() <= old(self).remaining(),
            r is Ok ==> final(self).remaining() < old(self).remaining(),
        decreases old(self).remaining(), 7int,
    {
        let start = self.current().span.start;
        self.advance();

        let numerator = match self.current().kind {
            TokenKind::Int(n) => {
                self.advance();
                n
            }
            _ => {
                return Err(ParseError::at_span("Expected integer", self.current().span));
            }
        };

        let spec = if self.check(&TokenKind::Percent) {
            self.advance();
            SampleSpec::Percentage(numerator)
        } else if self.check(&TokenKind::Slash) {
            self.advance();
            let denominator = match self.current().kind {
                TokenKind::Int(n) => {
                    self.advance();
                    n
                }
                _ => {
                    return Err(ParseError::at_span("Expected integer", self.current().span));
                }
            };
            SampleSpec::Ratio { numerator, denominator }
        } else {
            return Err(ParseError::at_span(
                "Expected '%' or '/' after sample number",
                self.current().span,
            ));
        };

        let semi = match self.expect(TokenKind::Semi) {
            Ok(t) => t,
            Err(e) => {
                return Err(e);
            }
        };

        Ok(AstStatement::Sample { spec, span: Span::new(start, semi.span.end) })
    }

    /// Parse a capture/send statement: capture(...); or send(...);
    fn parse_capture_statement(&mut self) -> (r: ParseResult<AstStatement>)
        requires
            old(self).wf(),
            old(self).tokens@[old(self).idx as int].kind is Capture || old(self).tokens@[old(
                self,
            ).idx as int].kind is Send,
        ensures
            final(self).wf(),
            final(self).remaining() <= old(self).remaining(),
            r is Ok ==> final(self).remaining() < old(self).remaining(),
        decreases old(self).remaining(), 7int,
    {
        let start = self.current().span.start;
        let is_send = match self.current().kind {
            TokenKind::Send => true,
            _ => false,
        };
        self.advance();

        match self.expect(TokenKind::LParen) {
            Ok(_) => (),
            Err(e) => {
                return Err(e);
            }
        }

        let args = if self.check(&TokenKind::RParen) {
            CaptureArgs::Positional(Vec::new())
        } else {
            match self.parse_capture_args() {
                Ok(a) => a,
                Err(e) => {
                    return Err(e);
                }
            }
        };

        match self.expect(TokenKind::RParen) {
            Ok(_) => (),
            Err(e) => {
                return Err(e);
            }
        }
        let semi = match self.expect(TokenKind::Semi) {
            Ok(t) => t,
            Err(e) => {
                return Err(e);
            }
        };

        Ok(AstStatement::Capture { is_send, args, span: Span::new(start, semi.span.end) })
    }

    /// Parse capture arguments, which are either all named or all
    /// positional; a first `ident =` decides.
    fn parse_capture_args(&mut self) -> (r: ParseResult<CaptureArgs>)
        requires
            old(self).wf(),
        ensures
            final(self).wf(),
            final(self).remaining() <= old(self).remaining(),
        decreases old(self).remaining(), 7int,
    {
        let current_is_ident = match self.current().kind {
            TokenKind::Ident(_) => true,
            _ => false,
        };
        let peek_is_eq = match self.peek_token().kind {
            TokenKind::Eq => true,
            _ => false,
        };
        if current_is_ident && peek_is_eq {
            return self.parse_named_capture_args();
        }

        let mut args: Vec<AstExpr> = Vec::new();
        loop
            invariant
                self.wf(),
                self.remaining() <= old(self).remaining(),
            decreases self.remaining(),
        {
            match self.parse_expr_with_precedence(0) {
                Ok(e) => args.push(e),
                Err(e) => {
                    return Err(e);
                }
            }
            if !self.check(&TokenKind::Comma) {
                break;
            }
            self.advance();
        }
        Ok(CaptureArgs::Positional(args))
    }

    /// Parse named capture arguments: name = expr, name = expr, ...
    fn parse_named_capture_args(&mut self) -> (r: ParseResult<CaptureArgs>)
        requires
            old(self).wf(),
        ensures
            final(self).wf(),
            final(self).remaining() <= old(self).remaining(),
        decreases old(self).remaining(), 5int,
    {
        let mut args: Vec<NamedArg> = Vec::new();
        loop
            invariant
                self.wf(),
                self.remaining() <= old(self).remaining(),
            decreases self.remaining(),
        {
            let start = self.current().span.start;
            let name_tok = match self.expect(TokenKind::Ident(String::new())) {
                Ok(t) => t,
                Err(e) => {
                    return Err(e);
                }
            };
            let name = match name_tok.kind {
                TokenKind::Ident(s) => s,
                _ => {
                    return Err(ParseError::at_span("Expected identifier", name_tok.span));
                }
            };

            match self.expect(TokenKind::Eq) {
                Ok(_) => (),
                Err(e) => {
                    return Err(e);
                }
            }
            let value = match self.parse_expr_with_precedence(0) {
                Ok(e) => e,
                Err(e) => {
                    return Err(e);
                }
            };
            let span = Span::new(start, value.span().end);

            args.push(NamedArg { name, value, span });

            if !self.check(&TokenKind::Comma) {
                break;
            }
            self.advance();
        }
        Ok(CaptureArgs::Named(args))
    }

    /// Parse an expression.
    pub fn parse_expr(&mut self) -> (r: ParseResult<AstExpr>)
        requires
            old(self).wf(),
        ensures
            final(self).wf(),
            final(self).remaining() <= old(self).remaining(),
            r is Ok ==> final(self).remaining() < old(self).remaining(),
        decreases old(self).remaining(), 7int,
    {
        self.parse_expr_with_precedence(0)
    }

    /// Parse an expression with operator precedence climbing.
    fn parse_expr_with_precedence(&mut self, min_precedence: u8) -> (r: ParseResult<AstExpr>)
        requires
            old(self).wf(),
        ensures
            final(self).wf(),
            final(self).remaining() <= old(self).remaining(),
            r is Ok ==> final(self).remaining() < old(self).remaining(),
        decreases old(self).remaining(), 6int,
    {
        let mut left = match self.parse_unary_expr() {
            Ok(e) => e,
            Err(e) => {
                return Err(e);
            }
        };
        left = match self.parse_postfix_expr(left) {
            Ok(e) => e,
            Err(e) => {
                return Err(e);
            }
        };

        loop
            invariant
                self.wf(),
                self.remaining() < old(self).remaining(),
            decreases self.remaining(),
        {
            let op_prec = self.current_binary_op();
            match op_prec {
                Some((op, precedence)) => {
                    if precedence < min_precedence {
                        break;
                    }
                    self.advance();
                    let right = match self.parse_expr_with_precedence(precedence + 1) {
                        Ok(e) => e,
                        Err(e) => {
                            return Err(e);
                        }
                    };
                    let span = Span::new(left.span().start, right.span().end);
                    left = AstExpr::Binary {
                        op,
                        left: Box::new(left),
                        right: Box::new(right),
                        span,
                    };
                }
                Option::None => {
                    break;
                }
            }
        }

        Ok(left)
    }

    /// Parse a unary expression: `!`-prefixed or primary.
    fn parse_unary_expr(&mut self) -> (r: ParseResult<AstExpr>)
        requires
            old(self).wf(),
        ensures
            final(self).wf(),
            final(self).remaining() <= old(self).remaining(),
            r is Ok ==> final(self).remaining() < old(self).remaining(),
        decreases old(self).remaining(), 5int,
    {
        match self.current().kind {
            TokenKind::Not => {
                let start = self.current().span.start;
                self.advance();
                let expr = match self.parse_unary_expr() {
                    Ok(e) => e,
                    Err(e) => {
                        return Err(e);
                    }
                };
                let span = Span::new(start, expr.span().end);
                Ok(AstExpr::Unary { op: UnaryOp::Not, expr: Box::new(expr), span })
            }
            _ => self.parse_primary_expr(),
        }
    }

    /// Parse a primary expression: literals, identifiers, request variables,
    /// calls, and parenthesized expressions.
    fn parse_primary_expr(&mut self) -> (r: ParseResult<AstExpr>)
        requires
            old(self).wf(),
        ensures
            final(self).wf(),
            final(self).remaining() <= old(self).remaining(),
            r is Ok ==> final(self).remaining() < old(self).remaining(),
        decreases old(self).remaining(), 4int,
    {
        let tok = dup_token(self.current());
        match tok.kind {
            TokenKind::Int(value) => {
                self.advance();
                Ok(AstExpr::Int { value, span: tok.span })
            }
            TokenKind::Float(value) => {
                self.advance();
                Ok(AstExpr::Float { value, span: tok.span })
            }
            TokenKind::String(value) => {
                self.advance();
                Ok(AstExpr::String { value, span: tok.span })
            }
            TokenKind::Bool(value) => {
                self.advance();
                Ok(AstExpr::Bool { value, span: tok.span })
            }
            TokenKind::NoneValue => {
                self.advance();
                Ok(AstExpr::NoneValue { span: tok.span })
            }
            TokenKind::Req | TokenKind::Request => self.parse_request_var_expr(),
            TokenKind::Ident(name) => {
                self.advance();
                if self.check(&TokenKind::LParen) {
                    self.parse_function_call(name, tok.span)
                } else {
                    Ok(AstExpr::Ident { name, span: tok.span })
                }
            }
            TokenKind::LParen => {
                self.advance();
                let expr = match self.parse_expr_with_precedence(0) {
                    Ok(e) => e,
                    Err(e) => {
                        return Err(e);
                    }
                };
                match self.expect(TokenKind::RParen) {
                    Ok(_) => (),
                    Err(e) => {
                        return Err(e);
                    }
                }
                Ok(expr)
            }
            _ => {
                let mut msg = String::new();
                msg.append("Expected expression, found ");
                msg.append(tok.kind.to_text().as_str());
                Err(ParseError::at_span(msg.as_str(), tok.span))
            }
        }
    }

    /// Parse postfix accesses: field access and indexing, tightest-binding.
    fn parse_postfix_expr(&mut self, expr: AstExpr) -> (r: ParseResult<AstExpr>)
        requires
            old(self).wf(),
        ensures
            final(self).wf(),
            final(self).remaining() <= old(self).remaining(),
        decreases old(self).remaining(), 5int,
    {
        let mut e = expr;
        loop
            invariant
                self.wf(),
                self.remaining() <= old(self).remaining(),
            decreases self.remaining(),
        {
            let is_dot = self.check(&TokenKind::Dot);
            let is_bracket = self.check(&TokenKind::LBracket);
            if is_dot {
                self.advance();
                let field_tok = match self.expect(TokenKind::Ident(String::new())) {
                    Ok(t) => t,
                    Err(err) => {
                        return Err(err);
                    }
                };
                let field = match field_tok.kind {
                    TokenKind::Ident(s) => s,
                    _ => {
                        return Err(ParseError::at_span(
                            "Expected field name after '.'",
                            field_tok.span,
                        ));
                    }
                };
                let span = Span::new(e.span().start, field_tok.span.end);
                e = AstExpr::FieldAccess { object: Box::new(e), field, span };
            } else if is_bracket {
                self.advance();
                let index = match self.parse_expr_with_precedence(0) {
                    Ok(x) => x,
                    Err(err) => {
                        return Err(err);
                    }
                };
                let close = match self.expect(TokenKind::RBracket) {
                    Ok(t) => t,
                    Err(err) => {
                        return Err(err);
                    }
                };
                let span = Span::new(e.span().start, close.span.end);
                e = AstExpr::IndexAccess { object: Box::new(e), index: Box::new(index), span };
            } else {
                break;
            }
        }
        Ok(e)
    }

    /// Parse a request variable expression: $req.field or $request.field.
    fn parse_request_var_expr(&mut self) -> (r: ParseResult<AstExpr>)
        requires
            old(self).wf(),
            old(self).tokens@[old(self).idx as int].kind is Req || old(self).tokens@[old(
                self,
            ).idx as int].kind is Request,
        ensures
            final(self).wf(),
            final(self).remaining() <= old(self).remaining(),
            r is Ok ==> final(self).remaining() < old(self).remaining(),
        decreases old(self).remaining(), 3int,
    {
        let start = self.current().span.start;
        let is_request = match self.current().kind {
            TokenKind::Request => true,
            _ => false,
        };
        self.advance();

        match self.expect(TokenKind::Dot) {
            Ok(_) => (),
            Err(e) => {
                return Err(e);
            }
        }
        let field_tok = match self.expect(TokenKind::Ident(String::new())) {
            Ok(t) => t,
            Err(e) => {
                return Err(e);
            }
        };
        let field = match field_tok.kind {
            TokenKind::Ident(s) => s,
            _ => {
                return Err(ParseError::at_span(
                    "Expected field name after $req. or $request.",
                    field_tok.span,
                ));
            }
        };

        let span = Span::new(start, field_tok.span.end);
        let var = RequestVar { is_request, field, span };

        Ok(AstExpr::RequestVar { var, span })
    }

    /// Parse a function call; the name has already been consumed.
    fn parse_function_call(&mut self, name: String, name_span: Span) -> (r: ParseResult<AstExpr>)
        requires
            old(self).wf(),
        ensures
            final(self).wf(),
            final(self).remaining() <= old(self).remaining(),
        decreases old(self).remaining(), 3int,
    {
        match self.expect(TokenKind::LParen) {
            Ok(_) => (),
            Err(e) => {
                return Err(e);
            }
        }

        let mut args: Vec<AstExpr> = Vec::new();
        if !self.check(&TokenKind::RParen) {
            loop
                invariant
                    self.wf(),
                    self.remaining() < old(self).remaining(),
                decreases self.remaining(),
            {
                match self.parse_expr_with_precedence(0) {
                    Ok(e) => args.push(e),
                    Err(e) => {
                        return Err(e);
                    }
                }
                if !self.check(&TokenKind::Comma) {
                    break;
                }
                self.advance();
            }
        }

        let close = match self.expect(TokenKind::RParen) {
            Ok(t) => t,
            Err(e) => {
                return Err(e);
            }
        };
        let span = Span::new(name_span.start, close.span.end);

        Ok(AstExpr::Call { function: name, args, span })
    }

    /// The binary operator under the cursor and its precedence, if any.
    fn current_binary_op(&self) -> (r: Option<(BinaryOp, u8)>)
        requires
            self.wf(),
        ensures
            r is Some ==> !(self.tokens@[self.idx as int].kind is Eof),
            r matches Some(p) ==> p.1 <= 6,
    {
        match self.current().kind {
            TokenKind::Or => Some((BinaryOp::Or, 1u8)),
            TokenKind::And => Some((BinaryOp::And, 2u8)),
            TokenKind::EqEq => Some((BinaryOp::Eq, 3u8)),
            TokenKind::NotEq => Some((BinaryOp::NotEq, 3u8)),
            TokenKind::Lt => Some((BinaryOp::Lt, 4u8)),
            TokenKind::Gt => Some((BinaryOp::Gt, 4u8)),
            TokenKind::LtEq => Some((BinaryOp::LtEq, 4u8)),
            TokenKind::GtEq => Some((BinaryOp::GtEq, 4u8)),
            TokenKind::Plus => Some((BinaryOp::Add, 5u8)),
            TokenKind::Minus => Some((BinaryOp::Sub, 5u8)),
            TokenKind::Star => Some((BinaryOp::Mul, 6u8)),
            TokenKind::Slash => Some((BinaryOp::Div, 6u8)),
            TokenKind::Percent => Some((BinaryOp::Mod, 6u8)),
            _ => Option::<(BinaryOp, u8)>::None,
        }
    }
}


/// A distinct tag per token kind, letting a rebuilt token keep its shape.
pub open spec fn kind_tag(k: TokenKind) -> int {
    match k {
        TokenKind::Int(_) => 0,
        TokenKind::Float(_) => 1,
        TokenKind::String(_) => 2,
        TokenKind::Bool(_) => 3,
        TokenKind::NoneValue => 4,
        TokenKind::Ident(_) => 5,
        TokenKind::Fn => 6,
        TokenKind::Py => 7,
        TokenKind::Entry => 8,
        TokenKind::Exit => 9,
        TokenKind::Capture => 10,
        TokenKind::Send => 11,
        TokenKind::Sample => 12,
        TokenKind::Req => 13,
        TokenKind::Request => 14,
        TokenKind::Plus => 15,
        TokenKind::Minus => 16,
        TokenKind::Star => 17,
        TokenKind::Slash => 18,
        TokenKind::Percent => 19,
        TokenKind::Lt => 20,
        TokenKind::Gt => 21,
        TokenKind::LtEq => 22,
        TokenKind::GtEq => 23,
        TokenKind::EqEq => 24,
        TokenKind::NotEq => 25,
        TokenKind::And => 26,
        TokenKind::Or => 27,
        TokenKind::Not => 28,
        TokenKind::Eq => 29,
        TokenKind::LParen => 30,
        TokenKind::RParen => 31,
        TokenKind::LBrace => 32,
        TokenKind::RBrace => 33,
        TokenKind::LBracket => 34,
        TokenKind::RBracket => 35,
        TokenKind::Colon => 36,
        TokenKind::Semi => 37,
        TokenKind::Comma => 38,
        TokenKind::Dot => 39,
        TokenKind::Dollar => 40,
        TokenKind::FSlash => 41,
        TokenKind::Wildcard => 42,
        TokenKind::Eof => 43,
    }
}

/// A copy of a token that keeps its span and its kind's shape.
fn dup_token(t: &Token) -> (r: Token)
    ensures
        r.span == t.span,
        kind_tag(r.kind) == kind_tag(t.kind),
        r.kind is Eof <==> t.kind is Eof,
        r.kind is Req <==> t.kind is Req,
        r.kind is Request <==> t.kind is Request,
{
    let kind = match &t.kind {
        TokenKind::Int(n) => TokenKind::Int(*n),
        TokenKind::Float(b) => TokenKind::Float(*b),
        TokenKind::String(s) => TokenKind::String(crate::constant_pool::clone_string(s)),
        TokenKind::Bool(b) => TokenKind::Bool(*b),
        TokenKind::NoneValue => TokenKind::NoneValue,
        TokenKind::Ident(s) => TokenKind::Ident(crate::constant_pool::clone_string(s)),
        TokenKind::Fn => TokenKind::Fn,
        TokenKind::Py => TokenKind::Py,
        TokenKind::Entry => TokenKind::Entry,
        TokenKind::Exit => TokenKind::Exit,
        TokenKind::Capture => TokenKind::Capture,
        TokenKind::Send => TokenKind::Send,
        TokenKind::Sample => TokenKind::Sample,
        TokenKind::Req => TokenKind::Req,
        TokenKind::Request => TokenKind::Request,
        TokenKind::Plus => TokenKind::Plus,
        TokenKind::Minus => TokenKind::Minus,
        TokenKind::Star => TokenKind::Star,
        TokenKind::Slash => TokenKind::Slash,
        TokenKind::Percent => TokenKind::Percent,
        TokenKind::Lt => TokenKind::Lt,
        TokenKind::Gt => TokenKind::Gt,
        TokenKind::LtEq => TokenKind::LtEq,
        TokenKind::GtEq => TokenKind::GtEq,
        TokenKind::EqEq => TokenKind::EqEq,
        TokenKind::NotEq => TokenKind::NotEq,
        TokenKind::And => TokenKind::And,
        TokenKind::Or => TokenKind::Or,
        TokenKind::Not => TokenKind::Not,
        TokenKind::Eq => TokenKind::Eq,
        TokenKind::LParen => TokenKind::LParen,
        TokenKind::RParen => TokenKind::RParen,
        TokenKind::LBrace => TokenKind::LBrace,
        TokenKind::RBrace => TokenKind::RBrace,
        TokenKind::LBracket => TokenKind::LBracket,
        TokenKind::RBracket => TokenKind::RBracket,
        TokenKind::Colon => TokenKind::Colon,
        TokenKind::Semi => TokenKind::Semi,
        TokenKind::Comma => TokenKind::Comma,
        TokenKind::Dot => TokenKind::Dot,
        TokenKind::Dollar => TokenKind::Dollar,
        TokenKind::FSlash => TokenKind::FSlash,
        TokenKind::Wildcard => TokenKind::Wildcard,
        TokenKind::Eof => TokenKind::Eof,
    };
    Token { kind, span: t.span }
}

/// Structural match of two token kinds, with any identifier matching an
/// identifier pattern.
fn kinds_match(pattern: &TokenKind, actual: &TokenKind) -> (r: bool)
    ensures
        r ==> (pattern is Eof <==> actual is Eof),
{
    match (pattern, actual) {
        (TokenKind::Ident(_), TokenKind::Ident(_)) => true,
        (TokenKind::Int(a), TokenKind::Int(b)) => *a == *b,
        (TokenKind::Float(a), TokenKind::Float(b)) => *a == *b,
        (TokenKind::String(a), TokenKind::String(b)) => str_eq(a.as_str(), b.as_str()),
        (TokenKind::Bool(a), TokenKind::Bool(b)) => *a == *b,
        (TokenKind::NoneValue, TokenKind::NoneValue) => true,
        (TokenKind::Fn, TokenKind::Fn) => true,
        (TokenKind::Py, TokenKind::Py) => true,
        (TokenKind::Entry, TokenKind::Entry) => true,
        (TokenKind::Exit, TokenKind::Exit) => true,
        (TokenKind::Capture, TokenKind::Capture) => true,
        (TokenKind::Send, TokenKind::Send) => true,
        (TokenKind::Sample, TokenKind::Sample) => true,
        (TokenKind::Req, TokenKind::Req) => true,
        (TokenKind::Request, TokenKind::Request) => true,
        (TokenKind::Plus, TokenKind::Plus) => true,
        (TokenKind::Minus, TokenKind::Minus) => true,
        (TokenKind::Star, TokenKind::Star) => true,
        (TokenKind::Slash, TokenKind::Slash) => true,
        (TokenKind::Percent, TokenKind::Percent) => true,
        (TokenKind::Lt, TokenKind::Lt) => true,
        (TokenKind::Gt, TokenKind::Gt) => true,
        (TokenKind::LtEq, TokenKind::LtEq) => true,
        (TokenKind::GtEq, TokenKind::GtEq) => true,
        (TokenKind::EqEq, TokenKind::EqEq) => true,
        (TokenKind::NotEq, TokenKind::NotEq) => true,
        (TokenKind::And, TokenKind::And) => true,
        (TokenKind::Or, TokenKind::Or) => true,
        (TokenKind::Not, TokenKind::Not) => true,
        (TokenKind::Eq, TokenKind::Eq) => true,
        (TokenKind::LParen, TokenKind::LParen) => true,
        (TokenKind::RParen, TokenKind::RParen) => true,
        (TokenKind::LBrace, TokenKind::LBrace) => true,
        (TokenKind::RBrace, TokenKind::RBrace) => true,
        (TokenKind::LBracket, TokenKind::LBracket) => true,
        (TokenKind::RBracket, TokenKind::RBracket) => true,
        (TokenKind::Colon, TokenKind::Colon) => true,
        (TokenKind::Semi, TokenKind::Semi) => true,
        (TokenKind::Comma, TokenKind::Comma) => true,
        (TokenKind::Dot, TokenKind::Dot) => true,
        (TokenKind::Dollar, TokenKind::Dollar) => true,
        (TokenKind::FSlash, TokenKind::FSlash) => true,
        (TokenKind::Wildcard, TokenKind::Wildcard) => true,
        (TokenKind::Eof, TokenKind::Eof) => true,
        _ => false,
    }
}

} // verus!
