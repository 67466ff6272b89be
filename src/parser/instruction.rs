//! Parsing instructions and their arguments.

use super::{advanced, next_token, same_input, span_over, ParseError, Parser};
use crate::ast::{OrAlias, PseudoInstruction, RegOrByte, RegOrByteA, SpanStmt, Stmt};
use crate::bytes::copy_bytes;
use crate::span::{Span, WithSpan};
use crate::tokens::{GeneralRegisterName, InstructionName, SpecialRegisterName, Token, TokenSpan, TokenView};
use vstd::prelude::*;

verus! {

/// The mnemonic that a pseudo-instruction is written with.
pub open spec fn mnemonic_of(pi: PseudoInstruction) -> InstructionName {
    match pi {
        PseudoInstruction::Nop => InstructionName::Nop,
        PseudoInstruction::Cls => InstructionName::Cls,
        PseudoInstruction::Ret => InstructionName::Ret,
        PseudoInstruction::Jmp(_) => InstructionName::Jmp,
        PseudoInstruction::JmpPlus(_, _) => InstructionName::Jmpp,
        PseudoInstruction::Call(_) => InstructionName::Call,
        PseudoInstruction::Se(_, _) => InstructionName::Se,
        PseudoInstruction::Sne(_, _) => InstructionName::Sne,
        PseudoInstruction::Ld(_, _) => InstructionName::Ld,
        PseudoInstruction::LdIndex(_) => InstructionName::Ld,
        PseudoInstruction::LdFromK(_) => InstructionName::Ld,
        PseudoInstruction::LdFromDt(_) => InstructionName::Ld,
        PseudoInstruction::Add(_, _) => InstructionName::Add,
        PseudoInstruction::AddIndex(_) => InstructionName::Add,
        PseudoInstruction::Or(_, _) => InstructionName::Or,
        PseudoInstruction::And(_, _) => InstructionName::And,
        PseudoInstruction::Xor(_, _) => InstructionName::Xor,
        PseudoInstruction::Sub(_, _) => InstructionName::Sub,
        PseudoInstruction::Subn(_, _) => InstructionName::Subn,
        PseudoInstruction::Shr(_) => InstructionName::Shr,
        PseudoInstruction::Shl(_) => InstructionName::Shl,
        PseudoInstruction::Rnd(_, _) => InstructionName::Rnd,
        PseudoInstruction::Drw(_, _, _) => InstructionName::Drw,
        PseudoInstruction::Skp(_) => InstructionName::Skp,
        PseudoInstruction::Sknp(_) => InstructionName::Sknp,
        PseudoInstruction::Delay(_) => InstructionName::Delay,
        PseudoInstruction::Sound(_) => InstructionName::Sound,
        PseudoInstruction::Font(_) => InstructionName::Font,
        PseudoInstruction::Bcd(_) => InstructionName::Bcd,
        PseudoInstruction::Stor(_) => InstructionName::Stor,
        PseudoInstruction::Rstr(_) => InstructionName::Rstr,
    }
}

/// Whether a register argument is what its token says.
pub open spec fn reg_arg_from(a: OrAlias<GeneralRegisterName>, t: TokenView) -> bool {
    match t {
        TokenView::Identifier(n) => a is Alias && a->Alias_0@ == n,
        TokenView::GeneralRegisterName(g) => a == OrAlias::<GeneralRegisterName>::Concrete(g),
        _ => false,
    }
}

/// Whether an address argument is what its token says.
pub open spec fn addr_arg_from(a: OrAlias<u16>, t: TokenView) -> bool {
    match t {
        TokenView::Identifier(n) => a is Alias && a->Alias_0@ == n,
        TokenView::NumericLiteral(v) => v <= 0xFFF && a == OrAlias::<u16>::Concrete(v),
        _ => false,
    }
}

/// Whether a byte argument of at most `max` is what its token says.
pub open spec fn small_arg_from(a: OrAlias<u8>, t: TokenView, max: u16) -> bool {
    match t {
        TokenView::Identifier(n) => a is Alias && a->Alias_0@ == n,
        TokenView::NumericLiteral(v) => v <= max && a == OrAlias::<u8>::Concrete(v as u8),
        _ => false,
    }
}

/// Whether a register-or-byte argument is what its token says.
pub open spec fn reg_or_byte_arg_from(a: RegOrByteA, t: TokenView) -> bool {
    match t {
        TokenView::Identifier(n) => a is Alias && a->Alias_0@ == n,
        TokenView::GeneralRegisterName(g) => a == OrAlias::<RegOrByte>::Concrete(RegOrByte::Register(g)),
        TokenView::NumericLiteral(v) => v <= 255 && a == OrAlias::<RegOrByte>::Concrete(RegOrByte::LiteralByte(v as u8)),
        _ => false,
    }
}

/// The index of the token that the `k`-th advance from `pos` returns, over
/// `len` tokens.
pub open spec fn arg_index(len: int, pos: int, k: nat) -> int
    decreases k,
{
    if k == 0 {
        pos
    } else {
        advanced(arg_index(len, pos, (k - 1) as nat) + 1, len) - 1
    }
}

/// The view of the `k`-th token read after the one at `pos`.
pub open spec fn arg_token(toks: Seq<TokenSpan>, pos: int, k: nat) -> TokenView {
    toks[arg_index(toks.len() as int, pos, k)].value@
}

/// Whether the arguments of a pseudo-instruction are those written by the
/// tokens after its mnemonic at `pos`.
pub open spec fn args_from(pi: PseudoInstruction, toks: Seq<TokenSpan>, pos: int) -> bool {
    let t1 = arg_token(toks, pos, 1);
    let t2 = arg_token(toks, pos, 2);
    let t3 = arg_token(toks, pos, 3);
    match pi {
        PseudoInstruction::Nop | PseudoInstruction::Cls | PseudoInstruction::Ret => true,
        PseudoInstruction::Jmp(w) | PseudoInstruction::Call(w) => addr_arg_from(w, t1),
        PseudoInstruction::JmpPlus(a, w) => reg_arg_from(a, t1) && addr_arg_from(w, t2),
        PseudoInstruction::Se(a, x) | PseudoInstruction::Sne(a, x) | PseudoInstruction::Add(a, x)
            | PseudoInstruction::Ld(a, x) => reg_arg_from(a, t1) && reg_or_byte_arg_from(x, t2),
        PseudoInstruction::LdIndex(w) => t1 == TokenView::SpecialRegisterName(SpecialRegisterName::I) && addr_arg_from(w, t2),
        PseudoInstruction::LdFromK(a) => reg_arg_from(a, t1) && t2 == TokenView::SpecialRegisterName(SpecialRegisterName::K),
        PseudoInstruction::LdFromDt(a) => reg_arg_from(a, t1) && t2 == TokenView::SpecialRegisterName(SpecialRegisterName::Dt),
        PseudoInstruction::AddIndex(a) => t1 == TokenView::SpecialRegisterName(SpecialRegisterName::I) && reg_arg_from(a, t2),
        PseudoInstruction::Or(a, b) | PseudoInstruction::And(a, b) | PseudoInstruction::Xor(a, b)
            | PseudoInstruction::Sub(a, b) | PseudoInstruction::Subn(a, b) => reg_arg_from(a, t1) && reg_arg_from(b, t2),
        PseudoInstruction::Rnd(a, b) => reg_arg_from(a, t1) && small_arg_from(b, t2, 255),
        PseudoInstruction::Drw(a, b, c) => reg_arg_from(a, t1) && reg_arg_from(b, t2) && small_arg_from(c, t3, 15),
        PseudoInstruction::Shr(a) | PseudoInstruction::Shl(a) | PseudoInstruction::Skp(a) | PseudoInstruction::Sknp(a)
            | PseudoInstruction::Delay(a) | PseudoInstruction::Sound(a) | PseudoInstruction::Font(a)
            | PseudoInstruction::Bcd(a) | PseudoInstruction::Stor(a) | PseudoInstruction::Rstr(a) => reg_arg_from(a, t1),
    }
}

/// Whether a token can be a register argument.
pub open spec fn reg_ok(t: TokenView) -> bool {
    t is Identifier || t is GeneralRegisterName
}

/// Whether a token can be an argument of at most `max`.
pub open spec fn small_ok(t: TokenView, max: u16) -> bool {
    t is Identifier || (t is NumericLiteral && t->NumericLiteral_0 <= max)
}

/// Whether a token can be a register-or-byte argument.
pub open spec fn reg_or_byte_ok(t: TokenView) -> bool {
    reg_ok(t) || small_ok(t, 255)
}

/// The index just past the `k`-th token read after the one at `pos`.
pub open spec fn arg_end(toks: Seq<TokenSpan>, pos: int, k: nat) -> int {
    arg_index(toks.len() as int, pos, k) + 1
}

/// Whether parsing `ld` whose mnemonic is at `pos` succeeds, and where it
/// stops. `ld I, addr` is chosen when the token after the mnemonic is `I`;
/// `ld Vx, K` and `ld Vx, DT` when the token after the register is `K` or
/// `DT`; otherwise the second argument is a register or a byte.
pub open spec fn load_outcome(toks: Seq<TokenSpan>, pos: int) -> (bool, int) {
    let t1 = arg_token(toks, pos, 1);
    let t2 = arg_token(toks, pos, 2);
    let e1 = arg_end(toks, pos, 1);
    let e2 = arg_end(toks, pos, 2);
    if pos + 1 < toks.len() && t1 == TokenView::SpecialRegisterName(SpecialRegisterName::I) {
        (small_ok(t2, 0xFFF), e2)
    } else if !reg_ok(t1) {
        (false, e1)
    } else if e1 < toks.len() && (t2 == TokenView::SpecialRegisterName(SpecialRegisterName::K)
        || t2 == TokenView::SpecialRegisterName(SpecialRegisterName::Dt)) {
        (true, e2)
    } else {
        (reg_or_byte_ok(t2), e2)
    }
}

/// Whether parsing the instruction whose mnemonic is at `pos` succeeds, and
/// the index where it stops: just past its last argument, or just past the
/// first argument that the mnemonic does not accept there.
pub open spec fn instr_outcome(toks: Seq<TokenSpan>, pos: int) -> (bool, int) {
    let t1 = arg_token(toks, pos, 1);
    let t2 = arg_token(toks, pos, 2);
    let t3 = arg_token(toks, pos, 3);
    let e1 = arg_end(toks, pos, 1);
    let e2 = arg_end(toks, pos, 2);
    let e3 = arg_end(toks, pos, 3);
    match toks[pos].value->InstructionName_0 {
        InstructionName::Nop | InstructionName::Cls | InstructionName::Ret => (true, pos + 1),
        InstructionName::Jmp | InstructionName::Call => (small_ok(t1, 0xFFF), e1),
        InstructionName::Jmpp => if !reg_ok(t1) { (false, e1) } else { (small_ok(t2, 0xFFF), e2) },
        InstructionName::Se | InstructionName::Sne => if !reg_ok(t1) { (false, e1) } else { (reg_or_byte_ok(t2), e2) },
        InstructionName::Ld => load_outcome(toks, pos),
        InstructionName::Add => if pos + 1 < toks.len() && t1 == TokenView::SpecialRegisterName(SpecialRegisterName::I) {
            (reg_ok(t2), e2)
        } else if !reg_ok(t1) {
            (false, e1)
        } else {
            (reg_or_byte_ok(t2), e2)
        },
        InstructionName::Or | InstructionName::And | InstructionName::Xor | InstructionName::Sub
            | InstructionName::Subn => if !reg_ok(t1) { (false, e1) } else { (reg_ok(t2), e2) },
        InstructionName::Rnd => if !reg_ok(t1) { (false, e1) } else { (small_ok(t2, 255), e2) },
        InstructionName::Drw => if !reg_ok(t1) {
            (false, e1)
        } else if !reg_ok(t2) {
            (false, e2)
        } else {
            (small_ok(t3, 15), e3)
        },
        _ => (reg_ok(t1), e1),
    }
}

/// The indices of the first three arguments after a mnemonic at `pos`.
pub(super) proof fn lemma_arg_index(len: int, pos: int)
    ensures
        arg_index(len, pos, 1) == advanced(pos + 1, len) - 1,
        arg_index(len, pos, 2) == advanced(arg_index(len, pos, 1) + 1, len) - 1,
        arg_index(len, pos, 3) == advanced(arg_index(len, pos, 2) + 1, len) - 1,
{
    reveal_with_fuel(arg_index, 4);
}

impl Parser {
    /// An argument that is an alias or a nibble.
    pub(super) fn parse_arg_nibble(&mut self, previous_span: Span) -> (r: Result<(OrAlias<u8>, Span), ParseError>)
        requires
            old(self).wf(),
        ensures
            same_input(*old(self), *final(self)),
            final(self).pos() == advanced(old(self).pos(), old(self).len()),
            ({
                let t = next_token(*old(self));
                match t.value {
                    Token::Identifier(n) => r is Ok && r->Ok_0.0 is Alias && r->Ok_0.0->Alias_0@ == n@ && r->Ok_0.1 == t.span,
                    Token::NumericLiteral(v) => if v <= 15 {
                        r is Ok && r->Ok_0.0 == OrAlias::<u8>::Concrete(v as u8) && r->Ok_0.1 == t.span
                    } else {
                        r is Err && r->Err_0.token.value@ == t.value@ && r->Err_0.token.span == t.span
                            && r->Err_0.previous_span == Some(previous_span)
                    },
                    _ => r is Err && r->Err_0.token.value@ == t.value@ && r->Err_0.token.span == t.span
                        && r->Err_0.previous_span == Some(previous_span),
                }
            }),
    {
        let token = self.advance();
        match &token.value {
            Token::Identifier(name) => Ok((OrAlias::Alias(copy_bytes(name)), token.span)),
            Token::NumericLiteral(num) => {
                let num = *num;
                if num <= 15 {
                    Ok((OrAlias::Concrete(num as u8), token.span))
                } else {
                    Err(ParseError {
                        token,
                        previous_span: Some(previous_span),
                        message: "Numeric literal too large for argument which was expected to be 1 nibble",
                    })
                }
            },
            _ => Err(ParseError {
                token,
                previous_span: Some(previous_span),
                message: "Expected alias or numeric literal (nibble) for this argument",
            }),
        }
    }

    /// An argument that is an alias or a byte.
    pub(super) fn parse_arg_byte(&mut self, previous_span: Span) -> (r: Result<(OrAlias<u8>, Span), ParseError>)
        requires
            old(self).wf(),
        ensures
            same_input(*old(self), *final(self)),
            final(self).pos() == advanced(old(self).pos(), old(self).len()),
            ({
                let t = next_token(*old(self));
                match t.value {
                    Token::Identifier(n) => r is Ok && r->Ok_0.0 is Alias && r->Ok_0.0->Alias_0@ == n@ && r->Ok_0.1 == t.span,
                    Token::NumericLiteral(v) => if v <= 255 {
                        r is Ok && r->Ok_0.0 == OrAlias::<u8>::Concrete(v as u8) && r->Ok_0.1 == t.span
                    } else {
                        r is Err && r->Err_0.token.value@ == t.value@ && r->Err_0.token.span == t.span
                            && r->Err_0.previous_span == Some(previous_span)
                    },
                    _ => r is Err && r->Err_0.token.value@ == t.value@ && r->Err_0.token.span == t.span
                        && r->Err_0.previous_span == Some(previous_span),
                }
            }),
    {
        let token = self.advance();
        match &token.value {
            Token::Identifier(name) => Ok((OrAlias::Alias(copy_bytes(name)), token.span)),
            Token::NumericLiteral(num) => {
                let num = *num;
                if num <= 255 {
                    Ok((OrAlias::Concrete(num as u8), token.span))
                } else {
                    Err(ParseError {
                        token,
                        previous_span: Some(previous_span),
                        message: "Numeric literal too large for argument which was expected to be 1 byte",
                    })
                }
            },
            _ => Err(ParseError {
                token,
                previous_span: Some(previous_span),
                message: "Expected alias or numeric literal (byte) for this argument",
            }),
        }
    }

    /// An argument that is an alias or a 12-bit address.
    pub(super) fn parse_arg_addr(&mut self, previous_span: Span) -> (r: Result<(OrAlias<u16>, Span), ParseError>)
        requires
            old(self).wf(),
        ensures
            same_input(*old(self), *final(self)),
            final(self).pos() == advanced(old(self).pos(), old(self).len()),
            ({
                let t = next_token(*old(self));
                match t.value {
                    Token::Identifier(n) => r is Ok && r->Ok_0.0 is Alias && r->Ok_0.0->Alias_0@ == n@ && r->Ok_0.1 == t.span,
                    Token::NumericLiteral(v) => if v <= 0xFFF {
                        r is Ok && r->Ok_0.0 == OrAlias::<u16>::Concrete(v as u16) && r->Ok_0.1 == t.span
                    } else {
                        r is Err && r->Err_0.token.value@ == t.value@ && r->Err_0.token.span == t.span
                            && r->Err_0.previous_span == Some(previous_span)
                    },
                    _ => r is Err && r->Err_0.token.value@ == t.value@ && r->Err_0.token.span == t.span
                        && r->Err_0.previous_span == Some(previous_span),
                }
            }),
    {
        let token = self.advance();
        match &token.value {
            Token::Identifier(name) => Ok((OrAlias::Alias(copy_bytes(name)), token.span)),
            Token::NumericLiteral(num) => {
                let num = *num;
                if num <= 0xFFF {
                    Ok((OrAlias::Concrete(num), token.span))
                } else {
                    Err(ParseError {
                        token,
                        previous_span: Some(previous_span),
                        message: "Numeric literal too large for argument which was expected to be 12 bits",
                    })
                }
            },
            _ => Err(ParseError {
                token,
                previous_span: Some(previous_span),
                message: "Expected alias or numeric literal (12-bit) for this argument",
            }),
        }
    }

    /// An argument that is an alias or a general register.
    pub(super) fn parse_arg_general_register(&mut self, previous_span: Span) -> (r: Result<(OrAlias<GeneralRegisterName>, Span), ParseError>)
        requires
            old(self).wf(),
        ensures
            same_input(*old(self), *final(self)),
            final(self).pos() == advanced(old(self).pos(), old(self).len()),
            ({
                let t = next_token(*old(self));
                match t.value {
                    Token::Identifier(n) => r is Ok && r->Ok_0.0 is Alias && r->Ok_0.0->Alias_0@ == n@ && r->Ok_0.1 == t.span,
                    Token::GeneralRegisterName(g) => r is Ok && r->Ok_0.0 == OrAlias::<GeneralRegisterName>::Concrete(g) && r->Ok_0.1 == t.span,
                    _ => r is Err && r->Err_0.token.value@ == t.value@ && r->Err_0.token.span == t.span
                        && r->Err_0.previous_span == Some(previous_span),
                }
            }),
    {
        let token = self.advance();
        match &token.value {
            Token::Identifier(name) => Ok((OrAlias::Alias(copy_bytes(name)), token.span)),
            Token::GeneralRegisterName(reg) => Ok((OrAlias::Concrete(*reg), token.span)),
            _ => Err(ParseError {
                token,
                previous_span: Some(previous_span),
                message: "Expected alias or general register name for this argument",
            }),
        }
    }

    /// A second argument that is a register or a byte: a register is tried
    /// first, and on failure the token is read again as a byte.
    fn parse_reg_or_byte(&mut self, instr_span: Span, r1_span: Span) -> (r: Result<(RegOrByteA, Span), ParseError>)
        requires
            old(self).wf(),
        ensures
            same_input(*old(self), *final(self)),
            final(self).pos() == advanced(old(self).pos(), old(self).len()),
            ({
                let t = next_token(*old(self));
                match t.value {
                    Token::Identifier(n) => r is Ok && r->Ok_0.0 is Alias && r->Ok_0.0->Alias_0@ == n@ && r->Ok_0.1 == t.span,
                    Token::GeneralRegisterName(g) => r is Ok && r->Ok_0.0 == OrAlias::<RegOrByte>::Concrete(RegOrByte::Register(g))
                        && r->Ok_0.1 == t.span,
                    Token::NumericLiteral(v) => if v <= 255 {
                        r is Ok && r->Ok_0.0 == OrAlias::<RegOrByte>::Concrete(RegOrByte::LiteralByte(v as u8)) && r->Ok_0.1 == t.span
                    } else {
                        r is Err && r->Err_0.token.value@ == t.value@ && r->Err_0.previous_span == Some(instr_span)
                    },
                    _ => r is Err && r->Err_0.token.value@ == t.value@ && r->Err_0.previous_span == Some(instr_span),
                }
            }),
    {
        match self.parse_arg_general_register(instr_span.union(&r1_span)) {
            Ok((r2, r2_span)) => {
                let arg = match r2 {
                    OrAlias::Alias(a) => OrAlias::Alias(a),
                    OrAlias::Concrete(g) => OrAlias::Concrete(RegOrByte::Register(g)),
                };
                Ok((arg, r2_span))
            },
            Err(_) => {
                self.step_back();
                let (byte, byte_span) = self.parse_arg_byte(instr_span)?;
                let arg = match byte {
                    OrAlias::Alias(a) => OrAlias::Alias(a),
                    OrAlias::Concrete(b) => OrAlias::Concrete(RegOrByte::LiteralByte(b)),
                };
                Ok((arg, byte_span))
            },
        }
    }

    /// The forms of `ld`: `ld I, addr`, `ld Vx, K`, `ld Vx, DT`, and
    /// `ld Vx, Vy` or `ld Vx, byte`.
    #[verifier::spinoff_prover]
    #[verifier::rlimit(100)]
    fn parse_load(&mut self, instr_span: Span) -> (r: Result<PseudoInstruction, ParseError>)
        requires
            old(self).wf(),
        ensures
            same_input(*old(self), *final(self)),
            final(self).pos() >= old(self).pos(),
            r is Ok ==> mnemonic_of(r->Ok_0) == InstructionName::Ld,
            old(self).pos() >= 1 && r is Ok ==> args_from(r->Ok_0, old(self).toks(), old(self).pos() - 1),
            old(self).pos() >= 1 ==> (r is Ok, final(self).pos()) == load_outcome(old(self).toks(), old(self).pos() - 1),
            r is Ok && old(self).pos() < old(self).len()
                && old(self).token_at(old(self).pos()).value == Token::SpecialRegisterName(SpecialRegisterName::I)
                ==> r->Ok_0 is LdIndex,
    {
        proof {
            lemma_arg_index(old(self).len(), old(self).pos() - 1);
        }
        let index_span = match self.peek() {
            Some(t) => match &t.value {
                Token::SpecialRegisterName(SpecialRegisterName::I) => Some(t.span),
                _ => None,
            },
            None => None,
        };
        if let Some(span) = index_span {
            self.advance();
            let (addr, _) = self.parse_arg_addr(instr_span.union(&span))?;
            return Ok(PseudoInstruction::LdIndex(addr));
        }
        let (r1, r1_span) = self.parse_arg_general_register(instr_span)?;
        let special = match self.peek() {
            Some(t) => match &t.value {
                Token::SpecialRegisterName(SpecialRegisterName::K) => Some((true, t.span)),
                Token::SpecialRegisterName(SpecialRegisterName::Dt) => Some((false, t.span)),
                _ => None,
            },
            None => None,
        };
        match special {
            Some((true, span)) => {
                self.advance();
                Ok(PseudoInstruction::LdFromK(r1))
            },
            Some((false, span)) => {
                self.advance();
                Ok(PseudoInstruction::LdFromDt(r1))
            },
            None => {
                let (arg2, _) = self.parse_reg_or_byte(instr_span, r1_span)?;
                Ok(PseudoInstruction::Ld(r1, arg2))
            },
        }
    }

    /// instruction → INSTRUCTION_NAME argument*; the arguments that the
    /// mnemonic takes.
    #[verifier::spinoff_prover]
    #[verifier::rlimit(100)]
    pub(super) fn parse_instruction(&mut self) -> (r: Result<SpanStmt, ParseError>)
        requires
            old(self).wf(),
            old(self).pos() < old(self).len(),
            old(self).token_at(old(self).pos()).value is InstructionName,
        ensures
            same_input(*old(self), *final(self)),
            final(self).pos() > old(self).pos(),
            r is Ok ==> r->Ok_0.value is PseudoInstruction
                && mnemonic_of(r->Ok_0.value->PseudoInstruction_0) == old(self).token_at(old(self).pos()).value->InstructionName_0
                && args_from(r->Ok_0.value->PseudoInstruction_0, old(self).toks(), old(self).pos()),
            (r is Ok, final(self).pos()) == instr_outcome(old(self).toks(), old(self).pos()),
            r is Ok ==> r->Ok_0.span == span_over(old(self).toks(), old(self).pos(), final(self).pos()),
            ({
                let name = old(self).token_at(old(self).pos());
                let pi = match name.value->InstructionName_0 {
                    InstructionName::Nop => Some(PseudoInstruction::Nop),
                    InstructionName::Cls => Some(PseudoInstruction::Cls),
                    InstructionName::Ret => Some(PseudoInstruction::Ret),
                    _ => None,
                };
                pi is Some ==> r is Ok && r->Ok_0.span == name.span
                    && r->Ok_0.value == Stmt::PseudoInstruction(pi->Some_0)
                    && final(self).pos() == old(self).pos() + 1
            }),
    {
        proof {
            lemma_arg_index(old(self).len(), old(self).pos());
        }
        let start = self.current;
        let instr = self.advance();
        let instr_span = instr.span;
        let instr_name = match instr.value {
            Token::InstructionName(name) => name,
            _ => InstructionName::Nop,
        };
        let pseudo_instr = match instr_name {
            InstructionName::Nop => PseudoInstruction::Nop,
            InstructionName::Cls => PseudoInstruction::Cls,
            InstructionName::Ret => PseudoInstruction::Ret,
            InstructionName::Jmp => {
                let (addr, _) = self.parse_arg_addr(instr_span)?;
                PseudoInstruction::Jmp(addr)
            },
            InstructionName::Jmpp => {
                let (reg, reg_span) = self.parse_arg_general_register(instr_span)?;
                let (addr, _) = self.parse_arg_addr(instr_span.union(&reg_span))?;
                PseudoInstruction::JmpPlus(reg, addr)
            },
            InstructionName::Call => {
                let (addr, _) = self.parse_arg_addr(instr_span)?;
                PseudoInstruction::Call(addr)
            },
            InstructionName::Se => {
                let (r1, r1_span) = self.parse_arg_general_register(instr_span)?;
                let (arg2, _) = self.parse_reg_or_byte(instr_span, r1_span)?;
                PseudoInstruction::Se(r1, arg2)
            },
            InstructionName::Sne => {
                let (r1, r1_span) = self.parse_arg_general_register(instr_span)?;
                let (arg2, _) = self.parse_reg_or_byte(instr_span, r1_span)?;
                PseudoInstruction::Sne(r1, arg2)
            },
            InstructionName::Ld => {
                self.parse_load(instr_span)?
            },
            InstructionName::Add => {
                let index_span = match self.peek() {
                    Some(t) => match &t.value {
                        Token::SpecialRegisterName(SpecialRegisterName::I) => Some(t.span),
                        _ => None,
                    },
                    None => None,
                };
                match index_span {
                    Some(span) => {
                        self.advance();
                        let (r2, _) = self.parse_arg_general_register(instr_span.union(&span))?;
                        PseudoInstruction::AddIndex(r2)
                    },
                    None => {
                        let (r1, r1_span) = self.parse_arg_general_register(instr_span)?;
                        let (arg2, _) = self.parse_reg_or_byte(instr_span, r1_span)?;
                        PseudoInstruction::Add(r1, arg2)
                    },
                }
            },
            InstructionName::Rnd => {
                let (reg, reg_span) = self.parse_arg_general_register(instr_span)?;
                let (byte, _) = self.parse_arg_byte(instr_span.union(&reg_span))?;
                PseudoInstruction::Rnd(reg, byte)
            },
            InstructionName::Drw => {
                let (r1, r1_span) = self.parse_arg_general_register(instr_span)?;
                let (r2, r2_span) = self.parse_arg_general_register(instr_span.union(&r1_span))?;
                let (nibble, _) = self.parse_arg_nibble(instr_span.union(&r2_span))?;
                PseudoInstruction::Drw(r1, r2, nibble)
            },
            InstructionName::Or => {
                let (r1, r1_span) = self.parse_arg_general_register(instr_span)?;
                let (r2, _) = self.parse_arg_general_register(instr_span.union(&r1_span))?;
                PseudoInstruction::Or(r1, r2)
            },
            InstructionName::And => {
                let (r1, r1_span) = self.parse_arg_general_register(instr_span)?;
                let (r2, _) = self.parse_arg_general_register(instr_span.union(&r1_span))?;
                PseudoInstruction::And(r1, r2)
            },
            InstructionName::Xor => {
                let (r1, r1_span) = self.parse_arg_general_register(instr_span)?;
                let (r2, _) = self.parse_arg_general_register(instr_span.union(&r1_span))?;
                PseudoInstruction::Xor(r1, r2)
            },
            InstructionName::Sub => {
                let (r1, r1_span) = self.parse_arg_general_register(instr_span)?;
                let (r2, _) = self.parse_arg_general_register(instr_span.union(&r1_span))?;
                PseudoInstruction::Sub(r1, r2)
            },
            InstructionName::Subn => {
                let (r1, r1_span) = self.parse_arg_general_register(instr_span)?;
                let (r2, _) = self.parse_arg_general_register(instr_span.union(&r1_span))?;
                PseudoInstruction::Subn(r1, r2)
            },
            InstructionName::Shr => {
                let (reg, _) = self.parse_arg_general_register(instr_span)?;
                PseudoInstruction::Shr(reg)
            },
            InstructionName::Shl => {
                let (reg, _) = self.parse_arg_general_register(instr_span)?;
                PseudoInstruction::Shl(reg)
            },
            InstructionName::Skp => {
                let (reg, _) = self.parse_arg_general_register(instr_span)?;
                PseudoInstruction::Skp(reg)
            },
            InstructionName::Sknp => {
                let (reg, _) = self.parse_arg_general_register(instr_span)?;
                PseudoInstruction::Sknp(reg)
            },
            InstructionName::Delay => {
                let (reg, _) = self.parse_arg_general_register(instr_span)?;
                PseudoInstruction::Delay(reg)
            },
            InstructionName::Sound => {
                let (reg, _) = self.parse_arg_general_register(instr_span)?;
                PseudoInstruction::Sound(reg)
            },
            InstructionName::Font => {
                let (reg, _) = self.parse_arg_general_register(instr_span)?;
                PseudoInstruction::Font(reg)
            },
            InstructionName::Bcd => {
                let (reg, _) = self.parse_arg_general_register(instr_span)?;
                PseudoInstruction::Bcd(reg)
            },
            InstructionName::Stor => {
                let (reg, _) = self.parse_arg_general_register(instr_span)?;
                PseudoInstruction::Stor(reg)
            },
            InstructionName::Rstr => {
                let (reg, _) = self.parse_arg_general_register(instr_span)?;
                PseudoInstruction::Rstr(reg)
            },
        };
        let span = self.span_from(start);
        Ok(WithSpan { span, value: Stmt::PseudoInstruction(pseudo_instr) })
    }
}

} // verus!
