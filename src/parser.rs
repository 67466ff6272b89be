//! The parser: a recursive descent over the tokens, producing statements.
//! On an error it reports it and skips to the next token that can start a
//! statement.

pub mod instruction;

use crate::ast::{AliasableThing, SpanStmt, Stmt};
use crate::bytes::copy_bytes;
use crate::diagnostics::{report_error, Diagnostics, SeverityLevel};
use crate::span::{Span, WithSpan};
use crate::tokens::{Token, TokenSpan, TokenView};
use self::instruction::{arg_end, arg_token, args_from, instr_outcome, lemma_arg_index, mnemonic_of};
use vstd::prelude::*;

verus! {

/// An error found while parsing.
#[derive(Clone, Debug, PartialEq, Eq)]
pub struct ParseError {
    /// The token that caused the error.
    pub token: TokenSpan,
    /// The span of related tokens before this error.
    pub previous_span: Option<Span>,
    /// The message to show to the user.
    pub message: &'static str,
}

impl ParseError {
    /// The span that the report of this error points at.
    pub open spec fn spec_span(&self) -> Span {
        match self.previous_span {
            Some(p) => p.spec_union(self.token.span),
            None => self.token.span,
        }
    }

    /// Report the parsing error.
    fn report(&self, diag: &mut Diagnostics)
        ensures
            final(diag).reports@.len() == old(diag).reports@.len() + 1,
            final(diag).reports@.subrange(0, old(diag).reports@.len() as int) == old(diag).reports@,
            final(diag).reports@.last().span == self.spec_span(),
            final(diag).reports@.last().severity == SeverityLevel::Error,
            final(diag).had_error,
            final(diag).source == old(diag).source,
    {
        let span = match self.previous_span {
            Some(p) => p.union(&self.token.span),
            None => self.token.span,
        };
        report_error(diag, span, self.message);
        assert(diag.reports@.subrange(0, old(diag).reports@.len() as int) =~= old(diag).reports@);
    }
}

/// A copy of a token.
pub fn copy_token(t: &TokenSpan) -> (r: TokenSpan)
    ensures
        r.span == t.span,
        r.value@ == t.value@,
{
    let value = match &t.value {
        Token::Colon => Token::Colon,
        Token::Identifier(n) => Token::Identifier(copy_bytes(n)),
        Token::InstructionName(i) => Token::InstructionName(*i),
        Token::GeneralRegisterName(g) => Token::GeneralRegisterName(*g),
        Token::SpecialRegisterName(r) => Token::SpecialRegisterName(*r),
        Token::Define => Token::Define,
        Token::DefineBytes => Token::DefineBytes,
        Token::DefineWords => Token::DefineWords,
        Token::NumericLiteral(v) => Token::NumericLiteral(*v),
        Token::Include => Token::Include,
        Token::StringLiteral(b) => Token::StringLiteral(copy_bytes(b)),
        Token::Text => Token::Text,
    };
    WithSpan { span: t.span, value }
}

/// Whether a token can begin a statement.
pub open spec fn starts_statement(t: TokenView) -> bool {
    t is Identifier || t is InstructionName || t is Define || t is DefineBytes || t is DefineWords
        || t is Text || t is Include
}

/// A simple recursive descent parser for the assembly.
pub struct Parser {
    /// The tokens being parsed.
    tokens: Vec<TokenSpan>,
    /// The index of the token currently being considered.
    current: usize,
    /// The statements parsed so far.
    statements: Vec<SpanStmt>,
}

/// The index after advancing from `current` over `len` tokens: one more,
/// but never past the end.
pub open spec fn advanced(current: int, len: int) -> int {
    if current < len { current + 1 } else { current }
}

impl Parser {
    /// The invariant of the parser: it has tokens, and is at most at their end.
    pub closed spec fn wf(&self) -> bool {
        self.tokens@.len() > 0 && self.current <= self.tokens@.len()
    }

    /// The tokens being parsed.
    pub closed spec fn toks(&self) -> Seq<TokenSpan> {
        self.tokens@
    }

    /// The token at index `k`.
    pub open spec fn token_at(&self, k: int) -> TokenSpan {
        self.toks()[k]
    }

    /// The number of tokens.
    pub open spec fn len(&self) -> int {
        self.toks().len() as int
    }

    /// The index of the token being considered.
    pub closed spec fn pos(&self) -> int {
        self.current as int
    }

    /// The statements parsed so far.
    pub closed spec fn parsed(&self) -> Seq<SpanStmt> {
        self.statements@
    }

    /// The token being considered, if any.
    fn peek(&self) -> (r: Option<&TokenSpan>)
        ensures
            r is Some <==> self.pos() < self.len(),
            r is Some ==> *r->Some_0 == self.token_at(self.pos()),
    {
        if self.current < self.tokens.len() {
            Some(&self.tokens[self.current])
        } else {
            None
        }
    }

    /// The token before the one being considered.
    fn previous(&self) -> (r: &TokenSpan)
        requires
            self.wf(),
            self.pos() >= 1,
        ensures
            *r == self.token_at(self.pos() - 1),
    {
        &self.tokens[self.current - 1]
    }

    /// Are we at the end of the token list?
    fn is_at_end(&self) -> (r: bool)
        ensures
            r == (self.pos() >= self.len()),
    {
        self.current >= self.tokens.len()
    }

    /// The union of the spans of the tokens from `start` up to the current one.
    fn span_from(&self, start: usize) -> (r: Span)
        requires
            self.wf(),
            start < self.pos(),
        ensures
            r == span_over(self.toks(), start as int, self.pos()),
    {
        let mut span = self.tokens[start].span;
        let mut k: usize = start + 1;
        while k < self.current
            invariant
                self.wf(),
                start < k <= self.pos(),
                span == span_over(self.toks(), start as int, k as int),
            decreases self.pos() - k,
        {
            span = span.union(&self.tokens[k].span);
            k = k + 1;
        }
        span
    }

    /// Move to the next token, never past the end, and return a copy of the
    /// token before the new position (the last one when at the end).
    fn advance(&mut self) -> (r: TokenSpan)
        requires
            old(self).wf(),
        ensures
            final(self).wf(),
            final(self).pos() == advanced(old(self).pos(), old(self).len()),
            final(self).len() == old(self).len(),
            final(self).toks() == old(self).toks(),
            final(self).parsed() == old(self).parsed(),
            r.span == old(self).token_at(final(self).pos() - 1).span,
            r.value@ == old(self).token_at(final(self).pos() - 1).value@,
    {
        if self.current < self.tokens.len() {
            self.current = self.current + 1;
        }
        copy_token(self.previous())
    }

    /// The value of the token being considered, if it is a numeric literal.
    fn peek_literal(&self) -> (r: Option<u16>)
        ensures
            r is Some <==> (self.pos() < self.len() && self.token_at(self.pos()).value is NumericLiteral),
            r is Some ==> self.token_at(self.pos()).value == Token::NumericLiteral(r->Some_0),
    {
        if self.current < self.tokens.len() {
            match &self.tokens[self.current].value {
                Token::NumericLiteral(v) => Some(*v),
                _ => None,
            }
        } else {
            None
        }
    }

    /// Step back by one token, undoing an [`Self::advance`].
    fn step_back(&mut self)
        requires
            old(self).wf(),
            old(self).pos() >= 1,
        ensures
            final(self).wf(),
            final(self).pos() == old(self).pos() - 1,
            final(self).len() == old(self).len(),
            final(self).toks() == old(self).toks(),
            final(self).parsed() == old(self).parsed(),
    {
        self.current = self.current - 1;
    }

    /// Skip to the next token that can begin a statement, after the current one.
    fn synchronize(&mut self)
        requires
            old(self).wf(),
        ensures
            final(self).wf(),
            final(self).pos() > old(self).pos() || final(self).pos() == final(self).len(),
            final(self).pos() < final(self).len() ==> starts_statement(final(self).token_at(final(self).pos()).value@),
            final(self).pos() == sync_pos(old(self).toks(), old(self).pos()),
            final(self).len() == old(self).len(),
            final(self).toks() == old(self).toks(),
            final(self).parsed() == old(self).parsed(),
    {
        self.advance();
        while !self.is_at_end()
            invariant
                self.wf(),
                self.pos() > old(self).pos() || self.pos() == self.len(),
                self.len() == old(self).len(),
                self.toks() == old(self).toks(),
                self.parsed() == old(self).parsed(),
                skip_to_start(self.toks(), self.pos()) == sync_pos(old(self).toks(), old(self).pos()),
            decreases self.len() - self.pos(),
        {
            let starts = match &self.tokens[self.current].value {
                Token::Identifier(_) | Token::InstructionName(_) | Token::Define | Token::DefineBytes
                | Token::DefineWords | Token::Text | Token::Include => true,
                _ => false,
            };
            if starts {
                return;
            }
            self.advance();
        }
    }
}


/// The parser moved on over the same tokens, with no statement added.
pub open spec fn same_input(a: Parser, b: Parser) -> bool {
    &&& b.wf()
    &&& b.len() == a.len()
    &&& b.toks() == a.toks()
    &&& b.parsed() == a.parsed()
}

/// The token that the next advance returns.
pub open spec fn next_token(p: Parser) -> TokenSpan {
    p.token_at(advanced(p.pos(), p.len()) - 1)
}

/// The union of the spans of the tokens in `[from, to)`, joined in order:
/// the span of a statement whose rule reads exactly those tokens.
pub open spec fn span_over(toks: Seq<TokenSpan>, from: int, to: int) -> Span
    decreases to - from,
{
    if to <= from + 1 {
        toks[from].span
    } else {
        span_over(toks, from, to - 1).spec_union(toks[to - 1].span)
    }
}

/// The index just past the run of numeric literals that starts at `k`.
pub open spec fn literal_run_end(toks: Seq<TokenSpan>, k: int) -> int
    decreases toks.len() - k,
{
    if 0 <= k < toks.len() && toks[k].value is NumericLiteral {
        literal_run_end(toks, k + 1)
    } else {
        k
    }
}

/// The index of the first literal from `k` on that does not fit in a byte,
/// or of the first token from `k` on that is not a literal.
pub open spec fn first_wide(toks: Seq<TokenSpan>, k: int) -> int
    decreases toks.len() - k,
{
    if 0 <= k < toks.len() && toks[k].value is NumericLiteral && toks[k].value->NumericLiteral_0 <= 255 {
        first_wide(toks, k + 1)
    } else {
        k
    }
}

/// The first index from `k` on whose token can begin a statement, or the end.
pub open spec fn skip_to_start(toks: Seq<TokenSpan>, k: int) -> int
    decreases toks.len() - k,
{
    if 0 <= k < toks.len() && !starts_statement(toks[k].value@) {
        skip_to_start(toks, k + 1)
    } else {
        k
    }
}

/// Where the parser resumes after an error that left it at `q`: past at
/// least one token, at the next token that can begin a statement.
pub open spec fn sync_pos(toks: Seq<TokenSpan>, q: int) -> int {
    skip_to_start(toks, advanced(q, toks.len() as int))
}

/// The value of the numeric literal at index `k`.
pub open spec fn literal_at(toks: Seq<TokenSpan>, k: int) -> u16 {
    toks[k].value->NumericLiteral_0
}

/// The bytes of `db` over the literals in `[from, to)`.
pub open spec fn byte_data(toks: Seq<TokenSpan>, from: int, to: int) -> Seq<u8>
    decreases to - from,
{
    if to <= from {
        Seq::empty()
    } else {
        byte_data(toks, from, to - 1).push(literal_at(toks, to - 1) as u8)
    }
}

/// The bytes of `dw` over the literals in `[from, to)`: each big-endian.
pub open spec fn word_data(toks: Seq<TokenSpan>, from: int, to: int) -> Seq<u8>
    decreases to - from,
{
    if to <= from {
        Seq::empty()
    } else {
        word_data(toks, from, to - 1) + seq![
            (literal_at(toks, to - 1) as int / 0x100) as u8,
            (literal_at(toks, to - 1) as int % 0x100) as u8,
        ]
    }
}

/// Tokens with the same view are the same kind of token.
proof fn lemma_same_kind(a: Token, b: Token)
    requires
        a@ == b@,
    ensures
        a is DefineBytes <==> b is DefineBytes,
        a is DefineWords <==> b is DefineWords,
        a is Text <==> b is Text,
{
    match a {
        Token::DefineBytes => {},
        Token::DefineWords => {},
        Token::Text => {},
        _ => { assert(!(b is DefineBytes) && !(b is DefineWords) && !(b is Text)); },
    }
}

/// A run of numeric literals ends at or after where it starts, and within the tokens.
proof fn lemma_literal_run_end(toks: Seq<TokenSpan>, k: int)
    requires
        0 <= k <= toks.len(),
    ensures
        k <= literal_run_end(toks, k) <= toks.len(),
    decreases toks.len() - k,
{
    if k < toks.len() && toks[k].value is NumericLiteral {
        lemma_literal_run_end(toks, k + 1);
    }
}

impl Parser {
    /// label → IDENTIFIER ":";
    fn parse_label(&mut self) -> (r: Result<SpanStmt, ParseError>)
        requires
            old(self).wf(),
            old(self).pos() < old(self).len(),
            old(self).token_at(old(self).pos()).value is Identifier,
        ensures
            same_input(*old(self), *final(self)),
            final(self).pos() == advanced(old(self).pos() + 1, old(self).len()),
            ({
                let ident = old(self).token_at(old(self).pos());
                let colon = old(self).token_at(final(self).pos() - 1);
                if colon.value is Colon {
                    &&& r is Ok
                    &&& r->Ok_0.span == span_over(old(self).toks(), old(self).pos(), final(self).pos())
                    &&& r->Ok_0.value is Label
                    &&& r->Ok_0.value->Label_0@ == ident.value->Identifier_0@
                } else {
                    &&& r is Err
                    &&& r->Err_0.token.span == colon.span
                    &&& r->Err_0.token.value@ == colon.value@
                    &&& r->Err_0.previous_span == Some(ident.span)
                }
            }),
    {
        let start = self.current;
        let ident = self.advance();
        let next = self.advance();
        match (&ident.value, &next.value) {
            (Token::Identifier(name), Token::Colon) => Ok(WithSpan {
                span: self.span_from(start),
                value: Stmt::Label(copy_bytes(name)),
            }),
            _ => Err(ParseError {
                token: next,
                previous_span: Some(ident.span),
                message: "Label must be followed by `:`",
            }),
        }
    }

    /// A file directive: the `Include` keyword, then a string literal.
    fn parse_include(&mut self) -> (r: Result<SpanStmt, ParseError>)
        requires
            old(self).wf(),
            old(self).pos() < old(self).len(),
            old(self).token_at(old(self).pos()).value is Include,
        ensures
            same_input(*old(self), *final(self)),
            final(self).pos() == advanced(old(self).pos() + 1, old(self).len()),
            ({
                let inc = old(self).token_at(old(self).pos());
                let name = old(self).token_at(final(self).pos() - 1);
                if name.value is StringLiteral {
                    &&& r is Ok
                    &&& r->Ok_0.span == span_over(old(self).toks(), old(self).pos(), final(self).pos())
                    &&& r->Ok_0.value is Include
                    &&& r->Ok_0.value->Include_0@ == name.value->StringLiteral_0@
                } else {
                    &&& r is Err
                    &&& r->Err_0.token.span == name.span
                    &&& r->Err_0.token.value@ == name.value@
                    &&& r->Err_0.previous_span == Some(inc.span)
                }
            }),
    {
        let start = self.current;
        let directive = self.advance();
        let next = self.advance();
        match &next.value {
            Token::StringLiteral(filename) => Ok(WithSpan {
                span: self.span_from(start),
                value: Stmt::Include(copy_bytes(filename)),
            }),
            _ => Err(ParseError {
                token: next,
                previous_span: Some(directive.span),
                message: "A file directive must be followed with a string literal",
            }),
        }
    }

    /// rawDataDefinition → "db" NUMERIC_LITERAL* | "dw" NUMERIC_LITERAL* | "text" STRING_LITERAL;
    #[verifier::spinoff_prover]
    #[verifier::rlimit(100)]
    fn parse_raw_data_definition(&mut self) -> (r: Result<SpanStmt, ParseError>)
        requires
            old(self).wf(),
            old(self).pos() < old(self).len(),
            old(self).token_at(old(self).pos()).value is DefineBytes
                || old(self).token_at(old(self).pos()).value is DefineWords
                || old(self).token_at(old(self).pos()).value is Text,
        ensures
            same_input(*old(self), *final(self)),
            final(self).pos() > old(self).pos(),
            r is Ok ==> r->Ok_0.span == span_over(old(self).toks(), old(self).pos(), final(self).pos()),
            ({
                let decl = old(self).token_at(old(self).pos());
                let from = old(self).pos() + 1;
                let to = literal_run_end(old(self).toks(), from);
                &&& (decl.value is DefineBytes ==> (r is Ok <==> first_wide(old(self).toks(), from) >= to))
                &&& (decl.value is DefineBytes && r is Err ==> final(self).pos() == first_wide(old(self).toks(), from) + 1)
                &&& match decl.value {
                    Token::DefineBytes => if forall|k: int| from <= k < to ==> #[trigger] literal_at(old(self).toks(), k) <= 255 {
                        &&& r is Ok
                        &&& final(self).pos() == to
                        &&& r->Ok_0.value is RawDataDefinition
                        &&& r->Ok_0.value->RawDataDefinition_0@ == byte_data(old(self).toks(), from, to)
                    } else {
                        r is Err && r->Err_0.previous_span is None
                            && literal_at(old(self).toks(), final(self).pos() - 1) > 255
                            && r->Err_0.token.value@ == old(self).token_at(final(self).pos() - 1).value@
                    },
                    Token::DefineWords => {
                        &&& r is Ok
                        &&& final(self).pos() == to
                        &&& r->Ok_0.value is RawDataDefinition
                        &&& r->Ok_0.value->RawDataDefinition_0@ == word_data(old(self).toks(), from, to)
                    },
                    _ => {
                        let text = old(self).token_at(final(self).pos() - 1);
                        &&& final(self).pos() == advanced(from, old(self).len())
                        &&& if text.value is StringLiteral {
                            &&& r is Ok
                            &&& r->Ok_0.value is RawDataDefinition
                            &&& r->Ok_0.value->RawDataDefinition_0@ == text.value->StringLiteral_0@
                        } else {
                            r is Err && r->Err_0.token.value@ == text.value@ && r->Err_0.previous_span == Some(decl.span)
                        }
                    },
                }
            }),
    {
        let start_index = self.current;
        let decl = self.advance();
        let mut bytes: Vec<u8> = Vec::new();
        let ghost start = *self;
        proof { lemma_same_kind(decl.value, old(self).token_at(old(self).pos()).value); }
        match &decl.value {
            Token::DefineBytes | Token::DefineWords => {
                let words = match &decl.value {
                    Token::DefineWords => true,
                    _ => false,
                };
                proof { lemma_literal_run_end(old(self).toks(), start.pos()); }
                let mut next = self.peek_literal();
                while next.is_some()
                    invariant
                        next is Some <==> (self.pos() < self.len() && self.token_at(self.pos()).value is NumericLiteral),
                        next is Some ==> self.token_at(self.pos()).value == Token::NumericLiteral(next->Some_0),
                        same_input(start, *self),
                        start.pos() == old(self).pos() + 1,
                        start.pos() <= self.pos() <= literal_run_end(old(self).toks(), start.pos()),
                        literal_run_end(old(self).toks(), self.pos()) == literal_run_end(old(self).toks(), start.pos()),
                        forall|k: int| start.pos() <= k < self.pos() ==> #[trigger] literal_at(old(self).toks(), k) <= 255 || words,
                        words ==> bytes@ == word_data(old(self).toks(), start.pos(), self.pos()),
                        !words ==> bytes@ == byte_data(old(self).toks(), start.pos(), self.pos()),
                        words == (decl.value is DefineWords),
                        decl.value is DefineBytes || decl.value is DefineWords,
                        !words ==> first_wide(old(self).toks(), start.pos()) == first_wide(old(self).toks(), self.pos()),
                        decl.value@ == old(self).token_at(old(self).pos()).value@,
                        same_input(*old(self), *self),
                    decreases self.len() - self.pos(),
                {
                    let value = match next {
                        Some(v) => v,
                        None => 0,
                    };
                    let ghost k = self.pos();
                    proof {
                        assert(literal_run_end(old(self).toks(), k) == literal_run_end(old(self).toks(), k + 1));
                        lemma_literal_run_end(old(self).toks(), k + 1);
                        assert(literal_at(old(self).toks(), k) == value);
                    }
                    let token = self.advance();
                    if !words && value > 255 {
                        proof {
                            assert(literal_at(old(self).toks(), k) > 255);
                            assert(start.pos() <= k < literal_run_end(old(self).toks(), start.pos()));
                            assert(!(forall|j: int| start.pos() <= j < literal_run_end(old(self).toks(), start.pos())
                                ==> #[trigger] literal_at(old(self).toks(), j) <= 255));
                            lemma_same_kind(decl.value, old(self).token_at(old(self).pos()).value);
                        }
                        return Err(ParseError {
                            token,
                            previous_span: None,
                            message: "Number in byte definition must only be 8 bit",
                        });
                    }
                    if words {
                        bytes.push((value / 0x100) as u8);
                        bytes.push((value % 0x100) as u8);
                        assert(bytes@ =~= word_data(old(self).toks(), start.pos(), self.pos()));
                    } else {
                        bytes.push(value as u8);
                        assert(bytes@ =~= byte_data(old(self).toks(), start.pos(), self.pos()));
                    }
                    next = self.peek_literal();
                }
                proof {
                    assert(literal_run_end(old(self).toks(), self.pos()) == self.pos());
                }
            },
            _ => {
                let token = self.advance();
                match &token.value {
                    Token::StringLiteral(text) => {
                            bytes = copy_bytes(text);
                    },
                    _ => {
                        return Err(ParseError {
                            token,
                            previous_span: Some(decl.span),
                            message: "Expected string literal after text data definition",
                        });
                    },
                }
            },
        }
        Ok(WithSpan { span: self.span_from(start_index), value: Stmt::RawDataDefinition(bytes) })
    }

    /// aliasDefinition → "define" IDENTIFIER (NUMERIC_LITERAL | GENERAL_REGISTER);
    #[verifier::spinoff_prover]
    #[verifier::rlimit(100)]
    fn parse_alias_definition(&mut self) -> (r: Result<SpanStmt, ParseError>)
        requires
            old(self).wf(),
            old(self).pos() < old(self).len(),
            old(self).token_at(old(self).pos()).value is Define,
        ensures
            same_input(*old(self), *final(self)),
            ({
                let define = old(self).token_at(old(self).pos());
                let i1 = advanced(old(self).pos() + 1, old(self).len());
                let ident = old(self).token_at(i1 - 1);
                let thing = old(self).token_at(final(self).pos() - 1);
                let prev = define.span.spec_union(ident.span);
                if !(ident.value is Identifier) {
                    &&& final(self).pos() == i1
                    &&& r is Err
                    &&& r->Err_0.token.value@ == ident.value@
                    &&& r->Err_0.token.span == ident.span
                    &&& r->Err_0.previous_span == Some(define.span)
                } else {
                    &&& final(self).pos() == advanced(i1, old(self).len())
                    &&& match thing.value {
                        Token::NumericLiteral(v) => r is Ok && r->Ok_0.span == span_over(old(self).toks(), old(self).pos(), final(self).pos())
                            && r->Ok_0.value is AliasDefinition
                            && r->Ok_0.value->AliasDefinition_0@ == ident.value->Identifier_0@
                            && r->Ok_0.value->AliasDefinition_1 == AliasableThing::RawData(v),
                        Token::GeneralRegisterName(g) => r is Ok && r->Ok_0.span == span_over(old(self).toks(), old(self).pos(), final(self).pos())
                            && r->Ok_0.value is AliasDefinition
                            && r->Ok_0.value->AliasDefinition_0@ == ident.value->Identifier_0@
                            && r->Ok_0.value->AliasDefinition_1 == AliasableThing::Register(g),
                        _ => r is Err && r->Err_0.token.value@ == thing.value@ && r->Err_0.token.span == thing.span
                            && r->Err_0.previous_span == Some(prev),
                    }
                }
            }),
    {
        let start = self.current;
        let define = self.advance();
        let ident = self.advance();
        let name = match &ident.value {
            Token::Identifier(name) => copy_bytes(name),
            _ => {
                return Err(ParseError {
                    token: ident,
                    previous_span: Some(define.span),
                    message: "`define` keyword must be followed by an identifier",
                });
            },
        };
        let next = self.advance();
        let prev_span = define.span.union(&ident.span);
        match &next.value {
            Token::NumericLiteral(number) => Ok(WithSpan {
                span: self.span_from(start),
                value: Stmt::AliasDefinition(name, AliasableThing::RawData(*number)),
            }),
            Token::GeneralRegisterName(reg) => Ok(WithSpan {
                span: self.span_from(start),
                value: Stmt::AliasDefinition(name, AliasableThing::Register(*reg)),
            }),
            _ => Err(ParseError {
                token: next,
                previous_span: Some(prev_span),
                message: "Can only create aliases for raw data or general registers",
            }),
        }
    }
}


/// Whether a statement is what the rule for its first token, at index `i`,
/// makes of the tokens: from `define`, an alias of the next identifier to the
/// number or register after it; from `db` and `dw`, the bytes of the run of
/// literals after it; from `text`, the bytes of the string after it; from an
/// identifier, a label of that name; from a mnemonic, that instruction with
/// the arguments that the following tokens write; and from a file directive,
/// the name in the string after it.
pub open spec fn made_by_rule(st: Stmt, toks: Seq<TokenSpan>, i: int) -> bool {
    let a1 = arg_token(toks, i, 1);
    let a2 = arg_token(toks, i, 2);
    match toks[i].value@ {
        TokenView::Define => st is AliasDefinition && a1 is Identifier
            && st->AliasDefinition_0@ == a1->Identifier_0
            && match a2 {
                TokenView::NumericLiteral(v) => st->AliasDefinition_1 == AliasableThing::RawData(v),
                TokenView::GeneralRegisterName(g) => st->AliasDefinition_1 == AliasableThing::Register(g),
                _ => false,
            },
        TokenView::DefineBytes => st is RawDataDefinition
            && st->RawDataDefinition_0@ == byte_data(toks, i + 1, literal_run_end(toks, i + 1)),
        TokenView::DefineWords => st is RawDataDefinition
            && st->RawDataDefinition_0@ == word_data(toks, i + 1, literal_run_end(toks, i + 1)),
        TokenView::Text => st is RawDataDefinition && a1 is StringLiteral
            && st->RawDataDefinition_0@ == a1->StringLiteral_0,
        TokenView::Identifier(n) => st is Label && st->Label_0@ == n && a1 is Colon,
        TokenView::InstructionName(m) => st is PseudoInstruction && mnemonic_of(st->PseudoInstruction_0) == m
            && args_from(st->PseudoInstruction_0, toks, i),
        TokenView::Include => st is Include && a1 is StringLiteral && st->Include_0@ == a1->StringLiteral_0,
        _ => false,
    }
}

/// Whether parsing the statement that starts at index `i` succeeds, and the
/// index where its rule stops.
pub open spec fn stmt_outcome(toks: Seq<TokenSpan>, i: int) -> (bool, int) {
    let a1 = arg_token(toks, i, 1);
    let a2 = arg_token(toks, i, 2);
    let e1 = arg_end(toks, i, 1);
    let e2 = arg_end(toks, i, 2);
    match toks[i].value@ {
        TokenView::Define => if !(a1 is Identifier) {
            (false, e1)
        } else {
            (a2 is NumericLiteral || a2 is GeneralRegisterName, e2)
        },
        TokenView::DefineBytes => {
            let to = literal_run_end(toks, i + 1);
            if first_wide(toks, i + 1) >= to { (true, to) } else { (false, first_wide(toks, i + 1) + 1) }
        },
        TokenView::DefineWords => (true, literal_run_end(toks, i + 1)),
        TokenView::Text => (a1 is StringLiteral, e1),
        TokenView::Identifier(_) => (a1 is Colon, e1),
        TokenView::InstructionName(_) => instr_outcome(toks, i),
        TokenView::Include => (a1 is StringLiteral, e1),
        _ => (false, i),
    }
}

/// The index of the next statement after the one at `i`: where its rule
/// stopped if it succeeded, else where the parser resumes after the error.
pub open spec fn walk_next(toks: Seq<TokenSpan>, i: int) -> int {
    let (ok, e) = stmt_outcome(toks, i);
    if ok { e } else { sync_pos(toks, e) }
}

/// The walk of the parser over the tokens from index `i`: the start indices
/// of the statements that parse, in order, and the number that fail.
pub open spec fn walk(toks: Seq<TokenSpan>, i: int) -> (Seq<int>, nat)
    decreases toks.len() - i,
{
    if i < 0 || i >= toks.len() {
        (Seq::empty(), 0)
    } else {
        let n = walk_next(toks, i);
        if n <= i || n > toks.len() {
            (Seq::empty(), 0)
        } else {
            let rest = walk(toks, n);
            if stmt_outcome(toks, i).0 {
                (seq![i] + rest.0, rest.1)
            } else {
                (rest.0, rest.1 + 1)
            }
        }
    }
}

/// The reports only grew by errors, and `had_error` tells whether there are any.
pub open spec fn reported_errors(od: Diagnostics, nd: Diagnostics) -> bool {
    &&& nd.reports@.len() >= od.reports@.len()
    &&& nd.reports@.subrange(0, od.reports@.len() as int) == od.reports@
    &&& forall|k: int| od.reports@.len() <= k < nd.reports@.len() ==> (#[trigger] nd.reports@[k]).severity == SeverityLevel::Error
    &&& nd.had_error == (od.had_error || nd.reports@.len() > od.reports@.len())
    &&& nd.source == od.source
}

/// Reporting errors twice in a row is reporting errors once.
proof fn lemma_reported_errors_trans(a: Diagnostics, b: Diagnostics, c: Diagnostics)
    requires
        reported_errors(a, b),
        reported_errors(b, c),
    ensures
        reported_errors(a, c),
{
    assert(c.reports@.subrange(0, a.reports@.len() as int) =~= b.reports@.subrange(0, a.reports@.len() as int));
    assert forall|k: int| a.reports@.len() <= k < c.reports@.len() implies (#[trigger] c.reports@[k]).severity == SeverityLevel::Error by {
        if k < b.reports@.len() {
            assert(c.reports@[k] == c.reports@.subrange(0, b.reports@.len() as int)[k]);
        }
    }
}

impl Parser {
    /// statement → aliasDefinition | rawDataDefinition | label | instruction | fileDirective;
    /// on an error, report it, skip to the next statement, and return nothing.
    fn parse_statement(&mut self, diag: &mut Diagnostics) -> (r: Option<SpanStmt>)
        requires
            old(self).wf(),
            old(self).pos() < old(self).len(),
        ensures
            same_input(*old(self), *final(self)),
            final(self).pos() > old(self).pos(),
            reported_errors(*old(diag), *final(diag)),
            r is None <==> final(diag).reports@.len() == old(diag).reports@.len() + 1,
            r is Some ==> *final(diag) == *old(diag),
            r is Some ==> made_by_rule(r->Some_0.value, old(self).toks(), old(self).pos()),
            (r is Some) == stmt_outcome(old(self).toks(), old(self).pos()).0,
            r is Some ==> r->Some_0.span == span_over(old(self).toks(), old(self).pos(),
                stmt_outcome(old(self).toks(), old(self).pos()).1),
            final(self).pos() == walk_next(old(self).toks(), old(self).pos()),
    {
        proof {
            lemma_arg_index(old(self).len(), old(self).pos());
        }
        let result = match &self.tokens[self.current].value {
            Token::Define => self.parse_alias_definition(),
            Token::DefineBytes | Token::DefineWords | Token::Text => self.parse_raw_data_definition(),
            Token::Identifier(_) => self.parse_label(),
            Token::InstructionName(_) => self.parse_instruction(),
            Token::Include => self.parse_include(),
            _ => Err(ParseError {
                token: copy_token(&self.tokens[self.current]),
                previous_span: None,
                message: "Invalid start of statement",
            }),
        };
        match result {
            Ok(stmt) => {
                assert(diag.reports@.subrange(0, diag.reports@.len() as int) =~= diag.reports@);
                Some(stmt)
            },
            Err(error) => {
                error.report(diag);
                self.synchronize();
                None
            },
        }
    }

    /// program → statement*;
    fn parse_program(&mut self, diag: &mut Diagnostics)
        requires
            old(self).wf(),
            old(self).pos() == 0,
            old(self).parsed().len() == 0,
        ensures
            final(self).wf(),
            final(self).toks() == old(self).toks(),
            parsed_by_walk(final(self).parsed(), old(self).toks(), *old(diag), *final(diag)),
    {
        let ghost toks = self.toks();
        let ghost base = *old(diag);
        let ghost mut starts: Seq<int> = Seq::empty();
        let ghost mut errors: nat = 0;
        assert(diag.reports@.subrange(0, base.reports@.len() as int) =~= base.reports@);
        assert(walk(toks, 0) == (starts + walk(toks, 0).0, errors + walk(toks, 0).1)) by {
            assert(starts + walk(toks, 0).0 =~= walk(toks, 0).0);
        }
        while !self.is_at_end()
            invariant
                self.wf(),
                self.toks() == toks,
                walk(toks, 0) == (starts + walk(toks, self.pos()).0, errors + walk(toks, self.pos()).1),
                self.parsed().len() == starts.len(),
                forall|k: int| 0 <= k < starts.len() ==> made_by_rule(#[trigger] self.parsed()[k].value, toks, starts[k]),
                forall|k: int| 0 <= k < starts.len() ==> (#[trigger] self.parsed()[k]).span == stmt_span(toks, starts[k]),
                reported_errors(base, *diag),
                diag.reports@.len() == base.reports@.len() + errors,
            decreases self.len() - self.pos(),
        {
            let ghost d0 = *diag;
            let ghost p = self.pos();
            let result = self.parse_statement(diag);
            proof {
                lemma_reported_errors_trans(base, d0, *diag);
                let rest = walk(toks, self.pos());
                assert(walk(toks, p) == (if result is Some { (seq![p] + rest.0, rest.1) } else { (rest.0, rest.1 + 1) }));
            }
            if let Some(stmt) = result {
                self.statements.push(stmt);
                proof {
                    let rest = walk(toks, self.pos());
                    assert(starts + (seq![p] + rest.0) =~= starts.push(p) + rest.0);
                    starts = starts.push(p);
                }
            } else {
                proof {
                    errors = errors + 1;
                }
            }
        }
        proof {
            assert(walk(toks, self.pos()).0 =~= Seq::<int>::empty());
            assert(starts + Seq::<int>::empty() =~= starts);
        }
    }

    /// Parse the tokens into statements, reporting each syntax error and
    /// resuming at the next token that can start a statement.
    pub fn parse(tokens: Vec<TokenSpan>, diag: &mut Diagnostics) -> (r: Vec<SpanStmt>)
        ensures
            parsed_by_walk(r@, tokens@, *old(diag), *final(diag)),
    {
        if tokens.len() == 0 {
            assert(old(diag).reports@.subrange(0, old(diag).reports@.len() as int) =~= old(diag).reports@);
            return Vec::new();
        }
        let ghost toks = tokens@;
        let mut parser = Parser { tokens, current: 0, statements: Vec::new() };
        parser.parse_program(diag);
        parser.statements
    }
}

/// The span of the statement that starts at index `i` and parses: the union
/// of the spans of all the tokens its rule reads.
pub open spec fn stmt_span(toks: Seq<TokenSpan>, i: int) -> Span {
    span_over(toks, i, stmt_outcome(toks, i).1)
}

/// Whether the statements and the reports are those of the parser's walk
/// over the tokens: one statement for each statement that parses, made by
/// the rule for its first token, in order; one error report for each that
/// fails.
pub open spec fn parsed_by_walk(stmts: Seq<SpanStmt>, toks: Seq<TokenSpan>, od: Diagnostics, nd: Diagnostics) -> bool {
    &&& stmts.len() == walk(toks, 0).0.len()
    &&& forall|k: int| 0 <= k < stmts.len() ==> made_by_rule(#[trigger] stmts[k].value, toks, walk(toks, 0).0[k])
    &&& forall|k: int| 0 <= k < stmts.len() ==> (#[trigger] stmts[k].span) == stmt_span(toks, walk(toks, 0).0[k])
    &&& nd.reports@.len() == od.reports@.len() + walk(toks, 0).1
    &&& reported_errors(od, nd)
}

} // verus!
