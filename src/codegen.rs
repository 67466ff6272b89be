//! Code generation: resolve aliases and labels in two passes, then encode
//! every statement into the bytes of the ROM.

use crate::ast::{AliasableThing, Byte, OrAlias, PseudoInstruction, Reg, RegOrByte, RegOrByteA, SpanStmt, Stmt, Word};
use crate::bytes::{bytes_eq, copy_bytes};
use crate::diagnostics::{report_warning, Diagnostics, SeverityLevel};
use crate::instruction::{encode, spec_encode, EncodingError, Instruction, Operand};
use crate::interpreter::PROGRAM_START;
use crate::span::{Span, WithSpan};
use vstd::prelude::*;

verus! {

/// An error found while generating code.
#[derive(Clone, Debug, PartialEq, Eq)]
pub enum CodegenError {
    /// An alias definition reused a name that was already defined.
    AliasAlreadyDefined(Vec<u8>),
    /// A label reused a name that was already defined.
    LabelAlreadyDefined(Vec<u8>),
    /// An argument named an alias that is never defined.
    AliasNotDefined(Vec<u8>),
    /// An alias stood where a register is needed, but names a number.
    AliasShouldBeRegister(Vec<u8>),
    /// An alias stood where a number is needed, but names a register.
    AliasShouldBeNumber(Vec<u8>),
    /// The resolved instruction could not be encoded.
    EncodingError(EncodingError),
    /// An alias named a number larger than the argument allows: the name, the
    /// number and the largest allowed value.
    AliasedLiteralTooBig(Vec<u8>, u16, u16),
    /// `jmpp` names a base register other than V0 (its number is given).
    JumpBaseNotV0(u8),
}

/// What a [`CodegenError`] says, with names as byte sequences.
pub enum CodegenErrorView {
    AliasAlreadyDefined(Seq<u8>),
    LabelAlreadyDefined(Seq<u8>),
    AliasNotDefined(Seq<u8>),
    AliasShouldBeRegister(Seq<u8>),
    AliasShouldBeNumber(Seq<u8>),
    EncodingError(EncodingError),
    AliasedLiteralTooBig(Seq<u8>, u16, u16),
    JumpBaseNotV0(u8),
}

impl View for CodegenError {
    type V = CodegenErrorView;

    open spec fn view(&self) -> CodegenErrorView {
        match self {
            CodegenError::AliasAlreadyDefined(n) => CodegenErrorView::AliasAlreadyDefined(n@),
            CodegenError::LabelAlreadyDefined(n) => CodegenErrorView::LabelAlreadyDefined(n@),
            CodegenError::AliasNotDefined(n) => CodegenErrorView::AliasNotDefined(n@),
            CodegenError::AliasShouldBeRegister(n) => CodegenErrorView::AliasShouldBeRegister(n@),
            CodegenError::AliasShouldBeNumber(n) => CodegenErrorView::AliasShouldBeNumber(n@),
            CodegenError::EncodingError(e) => CodegenErrorView::EncodingError(*e),
            CodegenError::AliasedLiteralTooBig(n, v, m) => CodegenErrorView::AliasedLiteralTooBig(n@, *v, *m),
            CodegenError::JumpBaseNotV0(r) => CodegenErrorView::JumpBaseNotV0(*r),
        }
    }
}

/// The bindings of names to things, in order of definition.
pub type Bindings = Seq<(Seq<u8>, AliasableThing)>;

/// The thing bound to a name, if any.
pub open spec fn lookup(m: Bindings, k: Seq<u8>) -> Option<AliasableThing> {
    if exists|i: int| 0 <= i < m.len() && #[trigger] m[i].0 == k {
        Some(m[choose|i: int| 0 <= i < m.len() && #[trigger] m[i].0 == k].1)
    } else {
        None
    }
}

/// Whether no name is bound twice.
pub open spec fn names_unique(m: Bindings) -> bool {
    forall|i: int, j: int| 0 <= i < j < m.len() ==> #[trigger] m[i].0 != #[trigger] m[j].0
}

/// The number of ROM bytes that one statement produces.
pub open spec fn stmt_size(s: Stmt) -> int {
    match s {
        Stmt::RawDataDefinition(data) => data@.len() as int,
        Stmt::PseudoInstruction(_) => 2,
        _ => 0,
    }
}

/// The number of ROM bytes that a list of statements produces: all its raw
/// data, and two bytes for each instruction.
pub open spec fn rom_size(stmts: Seq<SpanStmt>) -> int
    decreases stmts.len(),
{
    if stmts.len() == 0 {
        0
    } else {
        rom_size(stmts.drop_last()) + stmt_size(stmts.last().value)
    }
}

/// The first pass: the bindings that the definitions make, in order, or the
/// first definition that reuses a name.
pub open spec fn collect_bindings(stmts: Seq<SpanStmt>) -> Result<Bindings, WithSpan<CodegenErrorView>>
    decreases stmts.len(),
{
    if stmts.len() == 0 {
        Ok(Seq::empty())
    } else {
        match collect_bindings(stmts.drop_last()) {
            Err(e) => Err(e),
            Ok(m) => {
                let span = stmts.last().span;
                match stmts.last().value {
                    Stmt::AliasDefinition(name, thing) => {
                        if lookup(m, name@) is Some {
                            Err(WithSpan { span, value: CodegenErrorView::AliasAlreadyDefined(name@) })
                        } else {
                            Ok(m.push((name@, thing)))
                        }
                    },
                    Stmt::Label(name) => {
                        if lookup(m, name@) is Some {
                            Err(WithSpan { span, value: CodegenErrorView::LabelAlreadyDefined(name@) })
                        } else {
                            let offset = PROGRAM_START as int + rom_size(stmts.drop_last());
                            Ok(m.push((name@, AliasableThing::RawData(offset as u16))))
                        }
                    },
                    _ => Ok(m),
                }
            },
        }
    }
}

/// A register argument, resolved.
pub open spec fn resolve_reg(r: Reg, m: Bindings) -> Result<u8, CodegenErrorView> {
    match r {
        OrAlias::Concrete(g) => Ok(g.spec_number()),
        OrAlias::Alias(a) => match lookup(m, a@) {
            None => Err(CodegenErrorView::AliasNotDefined(a@)),
            Some(AliasableThing::RawData(_)) => Err(CodegenErrorView::AliasShouldBeRegister(a@)),
            Some(AliasableThing::Register(g)) => Ok(g.spec_number()),
        },
    }
}

/// An address argument, resolved.
pub open spec fn resolve_addr(w: Word, m: Bindings) -> Result<u16, CodegenErrorView> {
    match w {
        OrAlias::Concrete(a) => Ok(a),
        OrAlias::Alias(a) => match lookup(m, a@) {
            None => Err(CodegenErrorView::AliasNotDefined(a@)),
            Some(AliasableThing::RawData(d)) => Ok(d),
            Some(AliasableThing::Register(_)) => Err(CodegenErrorView::AliasShouldBeNumber(a@)),
        },
    }
}

/// A byte or nibble argument, resolved; an alias must name a number of at most `max`.
pub open spec fn resolve_small(b: Byte, m: Bindings, max: u16) -> Result<u8, CodegenErrorView> {
    match b {
        OrAlias::Concrete(k) => Ok(k),
        OrAlias::Alias(a) => match lookup(m, a@) {
            None => Err(CodegenErrorView::AliasNotDefined(a@)),
            Some(AliasableThing::RawData(d)) => {
                if d > max {
                    Err(CodegenErrorView::AliasedLiteralTooBig(a@, d, max))
                } else {
                    Ok(d as u8)
                }
            },
            Some(AliasableThing::Register(_)) => Err(CodegenErrorView::AliasShouldBeNumber(a@)),
        },
    }
}

/// An argument that is a register or a byte, resolved.
pub open spec fn resolve_reg_or_byte(x: RegOrByteA, m: Bindings) -> Result<RegOrByte, CodegenErrorView> {
    match x {
        OrAlias::Concrete(rb) => Ok(rb),
        OrAlias::Alias(a) => match lookup(m, a@) {
            None => Err(CodegenErrorView::AliasNotDefined(a@)),
            Some(AliasableThing::RawData(d)) => {
                if d > 0xFF {
                    Err(CodegenErrorView::AliasedLiteralTooBig(a@, d, 0xFF))
                } else {
                    Ok(RegOrByte::LiteralByte(d as u8))
                }
            },
            Some(AliasableThing::Register(g)) => Ok(RegOrByte::Register(g)),
        },
    }
}

/// The operand that a resolved register-or-byte argument stands for.
pub open spec fn operand_of(rb: RegOrByte) -> Operand {
    match rb {
        RegOrByte::Register(g) => Operand::Register(g.spec_number()),
        RegOrByte::LiteralByte(k) => Operand::Literal(k),
    }
}

/// An instruction with one register argument.
pub open spec fn lower_one(r: Reg, m: Bindings, f: spec_fn(u8) -> Instruction) -> Result<Instruction, CodegenErrorView> {
    match resolve_reg(r, m) {
        Err(e) => Err(e),
        Ok(x) => Ok(f(x)),
    }
}

/// An instruction with two register arguments.
pub open spec fn lower_two(r1: Reg, r2: Reg, m: Bindings, f: spec_fn(u8, u8) -> Instruction) -> Result<Instruction, CodegenErrorView> {
    match resolve_reg(r1, m) {
        Err(e) => Err(e),
        Ok(x) => match resolve_reg(r2, m) {
            Err(e) => Err(e),
            Ok(y) => Ok(f(x, y)),
        },
    }
}

/// An instruction with a register and a register-or-byte argument.
pub open spec fn lower_operand(r: Reg, rb: RegOrByteA, m: Bindings, f: spec_fn(u8, Operand) -> Instruction) -> Result<Instruction, CodegenErrorView> {
    match resolve_reg(r, m) {
        Err(e) => Err(e),
        Ok(x) => match resolve_reg_or_byte(rb, m) {
            Err(e) => Err(e),
            Ok(v) => Ok(f(x, operand_of(v))),
        },
    }
}

/// An instruction with an address argument.
pub open spec fn lower_addr(w: Word, m: Bindings, f: spec_fn(u16) -> Instruction) -> Result<Instruction, CodegenErrorView> {
    match resolve_addr(w, m) {
        Err(e) => Err(e),
        Ok(a) => Ok(f(a)),
    }
}

/// The instruction that a pseudo-instruction stands for under the bindings.
pub open spec fn lower(pi: PseudoInstruction, m: Bindings) -> Result<Instruction, CodegenErrorView> {
    match pi {
        PseudoInstruction::Nop => Ok(Instruction::Nop),
        PseudoInstruction::Cls => Ok(Instruction::ClearScreen),
        PseudoInstruction::Ret => Ok(Instruction::Return),
        PseudoInstruction::Jmp(a) => lower_addr(a, m, |a: u16| Instruction::Jump(a)),
        PseudoInstruction::JmpPlus(r, a) => match resolve_reg(r, m) {
            Err(e) => Err(e),
            Ok(x) => {
                if x != 0 {
                    Err(CodegenErrorView::JumpBaseNotV0(x))
                } else {
                    lower_addr(a, m, |a: u16| Instruction::JumpPlusV0(a))
                }
            },
        },
        PseudoInstruction::Call(a) => lower_addr(a, m, |a: u16| Instruction::Call(a)),
        PseudoInstruction::Se(r, rb) => lower_operand(r, rb, m, |x: u8, o: Operand| Instruction::SkipIfEqual(x, o)),
        PseudoInstruction::Sne(r, rb) => lower_operand(r, rb, m, |x: u8, o: Operand| Instruction::SkipIfNotEqual(x, o)),
        PseudoInstruction::Ld(r, rb) => lower_operand(r, rb, m, |x: u8, o: Operand| Instruction::LoadRegister(x, o)),
        PseudoInstruction::LdIndex(a) => lower_addr(a, m, |a: u16| Instruction::LoadMemoryRegister(a)),
        PseudoInstruction::LdFromK(r) => lower_one(r, m, |x: u8| Instruction::WaitForKeyPress(x)),
        PseudoInstruction::LdFromDt(r) => lower_one(r, m, |x: u8| Instruction::LoadFromDelayTimer(x)),
        PseudoInstruction::Add(r, rb) => lower_operand(r, rb, m, |x: u8, o: Operand| match o {
            Operand::Register(y) => Instruction::AddWithCarry(x, y),
            Operand::Literal(k) => Instruction::AddNoCarry(x, k),
        }),
        PseudoInstruction::AddIndex(r) => lower_one(r, m, |x: u8| Instruction::AddToMemoryRegister(x)),
        PseudoInstruction::Or(r1, r2) => lower_two(r1, r2, m, |x: u8, y: u8| Instruction::Or(x, y)),
        PseudoInstruction::And(r1, r2) => lower_two(r1, r2, m, |x: u8, y: u8| Instruction::And(x, y)),
        PseudoInstruction::Xor(r1, r2) => lower_two(r1, r2, m, |x: u8, y: u8| Instruction::Xor(x, y)),
        PseudoInstruction::Sub(r1, r2) => lower_two(r1, r2, m, |x: u8, y: u8| Instruction::Sub(x, y)),
        PseudoInstruction::Subn(r1, r2) => lower_two(r1, r2, m, |x: u8, y: u8| Instruction::SubN(x, y)),
        PseudoInstruction::Shr(r) => lower_one(r, m, |x: u8| Instruction::ShiftRight(x)),
        PseudoInstruction::Shl(r) => lower_one(r, m, |x: u8| Instruction::ShiftLeft(x)),
        PseudoInstruction::Rnd(r, b) => match resolve_reg(r, m) {
            Err(e) => Err(e),
            Ok(x) => match resolve_small(b, m, 0xFF) {
                Err(e) => Err(e),
                Ok(k) => Ok(Instruction::LoadRandomWithMask(x, k)),
            },
        },
        PseudoInstruction::Drw(r1, r2, b) => match resolve_reg(r1, m) {
            Err(e) => Err(e),
            Ok(x) => match resolve_reg(r2, m) {
                Err(e) => Err(e),
                Ok(y) => match resolve_small(b, m, 0xF) {
                    Err(e) => Err(e),
                    Ok(n) => Ok(Instruction::Draw(x, y, n)),
                },
            },
        },
        PseudoInstruction::Skp(r) => lower_one(r, m, |x: u8| Instruction::SkipIfKeyPressed(x)),
        PseudoInstruction::Sknp(r) => lower_one(r, m, |x: u8| Instruction::SkipIfKeyNotPressed(x)),
        PseudoInstruction::Delay(r) => lower_one(r, m, |x: u8| Instruction::LoadIntoDelayTimer(x)),
        PseudoInstruction::Sound(r) => lower_one(r, m, |x: u8| Instruction::LoadIntoSoundTimer(x)),
        PseudoInstruction::Font(r) => lower_one(r, m, |x: u8| Instruction::LoadDigitAddress(x)),
        PseudoInstruction::Bcd(r) => lower_one(r, m, |x: u8| Instruction::StoreBcdInMemory(x)),
        PseudoInstruction::Stor(r) => lower_one(r, m, |x: u8| Instruction::StoreRegistersInMemory(x)),
        PseudoInstruction::Rstr(r) => lower_one(r, m, |x: u8| Instruction::ReadRegistersFromMemory(x)),
    }
}

/// The two bytes of a word, big-endian.
pub open spec fn word_bytes(w: u16) -> Seq<u8> {
    seq![(w as int / 0x100) as u8, (w as int % 0x100) as u8]
}

/// The bytes that one statement emits under the bindings, or its error.
pub open spec fn emit_stmt(s: Stmt, m: Bindings) -> Result<Seq<u8>, CodegenErrorView> {
    match s {
        Stmt::RawDataDefinition(data) => Ok(data@),
        Stmt::PseudoInstruction(pi) => match lower(pi, m) {
            Err(e) => Err(e),
            Ok(i) => match spec_encode(i) {
                Err(e) => Err(CodegenErrorView::EncodingError(e)),
                Ok(w) => Ok(word_bytes(w)),
            },
        },
        _ => Ok(Seq::empty()),
    }
}

/// The second pass: the bytes that the statements emit under the bindings, or
/// the first error.
pub open spec fn emit(stmts: Seq<SpanStmt>, m: Bindings) -> Result<Seq<u8>, WithSpan<CodegenErrorView>>
    decreases stmts.len(),
{
    if stmts.len() == 0 {
        Ok(Seq::empty())
    } else {
        match emit(stmts.drop_last(), m) {
            Err(e) => Err(e),
            Ok(bytes) => match emit_stmt(stmts.last().value, m) {
                Err(e) => Err(WithSpan { span: stmts.last().span, value: e }),
                Ok(more) => Ok(bytes + more),
            },
        }
    }
}

/// The ROM that a list of statements assembles to, or the first error.
pub open spec fn spec_codegen(stmts: Seq<SpanStmt>) -> Result<Seq<u8>, WithSpan<CodegenErrorView>> {
    match collect_bindings(stmts) {
        Err(e) => Err(e),
        Ok(m) => emit(stmts, m),
    }
}


/// Whether an executable result agrees with a specified one, errors compared by their views.
pub open spec fn agrees<T>(r: Result<T, CodegenError>, s: Result<T, CodegenErrorView>) -> bool {
    match s {
        Ok(v) => r == Ok::<T, CodegenError>(v),
        Err(e) => r is Err && r->Err_0@ == e,
    }
}

/// Append bytes to a vector.
fn append_bytes(dst: &mut Vec<u8>, src: &Vec<u8>)
    ensures
        final(dst)@ == old(dst)@ + src@,
{
    let mut i: usize = 0;
    while i < src.len()
        invariant
            i <= src.len(),
            dst@ == old(dst)@ + src@.subrange(0, i as int),
        decreases src.len() - i,
    {
        dst.push(src[i]);
        i = i + 1;
        assert(dst@ =~= old(dst)@ + src@.subrange(0, i as int));
    }
    assert(src@.subrange(0, src@.len() as int) =~= src@);
}

/// The names that are bound so far, each once, in order of definition.
struct AliasMap {
    entries: Vec<(Vec<u8>, AliasableThing)>,
}

impl View for AliasMap {
    type V = Bindings;

    closed spec fn view(&self) -> Bindings {
        Seq::new(self.entries.len() as nat, |i: int| (self.entries[i].0@, self.entries[i].1))
    }
}

impl AliasMap {
    fn new() -> (r: AliasMap)
        ensures
            r@ == Seq::<(Seq<u8>, AliasableThing)>::empty(),
    {
        let r = AliasMap { entries: Vec::new() };
        assert(r@ =~= Seq::<(Seq<u8>, AliasableThing)>::empty());
        r
    }

    /// The thing bound to the name, if any.
    fn get(&self, name: &Vec<u8>) -> (r: Option<AliasableThing>)
        requires
            names_unique(self@),
        ensures
            r == lookup(self@, name@),
    {
        let mut i: usize = 0;
        while i < self.entries.len()
            invariant
                i <= self.entries.len(),
                names_unique(self@),
                forall|j: int| 0 <= j < i ==> #[trigger] self@[j].0 != name@,
            decreases self.entries.len() - i,
        {
            if bytes_eq(&self.entries[i].0, name) {
                assert(self@[i as int].0 == name@);
                proof {
                    let k = choose|k: int| 0 <= k < self@.len() && #[trigger] self@[k].0 == name@;
                    assert(k == i) by {
                        if k < i {
                        } else if k > i {
                            assert(self@[i as int].0 != self@[k].0);
                        }
                    }
                }
                return Some(self.entries[i].1);
            }
            i = i + 1;
        }
        assert(!(exists|k: int| 0 <= k < self@.len() && #[trigger] self@[k].0 == name@));
        None
    }

    /// Bind a name that is not bound yet.
    fn insert(&mut self, name: Vec<u8>, thing: AliasableThing)
        requires
            names_unique(old(self)@),
            lookup(old(self)@, name@) is None,
        ensures
            final(self)@ == old(self)@.push((name@, thing)),
            names_unique(final(self)@),
    {
        self.entries.push((name, thing));
        assert(self@ =~= old(self)@.push((name@, thing)));
        assert forall|i: int| 0 <= i < self@.len() - 1 implies #[trigger] self@[i].0 != name@ by {
            assert(old(self)@[i].0 == self@[i].0);
        }
    }
}

fn resolve_reg_exec(r: &Reg, m: &AliasMap) -> (res: Result<u8, CodegenError>)
    requires
        names_unique(m@),
    ensures
        agrees(res, resolve_reg(*r, m@)),
{
    match r {
        OrAlias::Concrete(g) => Ok(g.number()),
        OrAlias::Alias(a) => match m.get(a) {
            None => Err(CodegenError::AliasNotDefined(copy_bytes(a))),
            Some(AliasableThing::RawData(_)) => Err(CodegenError::AliasShouldBeRegister(copy_bytes(a))),
            Some(AliasableThing::Register(g)) => Ok(g.number()),
        },
    }
}

fn resolve_addr_exec(w: &Word, m: &AliasMap) -> (res: Result<u16, CodegenError>)
    requires
        names_unique(m@),
    ensures
        agrees(res, resolve_addr(*w, m@)),
{
    match w {
        OrAlias::Concrete(a) => Ok(*a),
        OrAlias::Alias(a) => match m.get(a) {
            None => Err(CodegenError::AliasNotDefined(copy_bytes(a))),
            Some(AliasableThing::RawData(d)) => Ok(d),
            Some(AliasableThing::Register(_)) => Err(CodegenError::AliasShouldBeNumber(copy_bytes(a))),
        },
    }
}

fn resolve_small_exec(b: &Byte, m: &AliasMap, max: u16) -> (res: Result<u8, CodegenError>)
    requires
        names_unique(m@),
        max <= 0xFF,
    ensures
        agrees(res, resolve_small(*b, m@, max)),
{
    match b {
        OrAlias::Concrete(k) => Ok(*k),
        OrAlias::Alias(a) => match m.get(a) {
            None => Err(CodegenError::AliasNotDefined(copy_bytes(a))),
            Some(AliasableThing::RawData(d)) => {
                if d > max {
                    Err(CodegenError::AliasedLiteralTooBig(copy_bytes(a), d, max))
                } else {
                    Ok(d as u8)
                }
            },
            Some(AliasableThing::Register(_)) => Err(CodegenError::AliasShouldBeNumber(copy_bytes(a))),
        },
    }
}

fn resolve_reg_or_byte_exec(x: &RegOrByteA, m: &AliasMap) -> (res: Result<Operand, CodegenError>)
    requires
        names_unique(m@),
    ensures
        match resolve_reg_or_byte(*x, m@) {
            Ok(v) => res == Ok::<Operand, CodegenError>(operand_of(v)),
            Err(e) => res is Err && res->Err_0@ == e,
        },
{
    match x {
        OrAlias::Concrete(RegOrByte::Register(g)) => Ok(Operand::Register(g.number())),
        OrAlias::Concrete(RegOrByte::LiteralByte(k)) => Ok(Operand::Literal(*k)),
        OrAlias::Alias(a) => match m.get(a) {
            None => Err(CodegenError::AliasNotDefined(copy_bytes(a))),
            Some(AliasableThing::RawData(d)) => {
                if d > 0xFF {
                    Err(CodegenError::AliasedLiteralTooBig(copy_bytes(a), d, 0xFF))
                } else {
                    Ok(Operand::Literal(d as u8))
                }
            },
            Some(AliasableThing::Register(g)) => Ok(Operand::Register(g.number())),
        },
    }
}


/// The instruction that a pseudo-instruction stands for under the bindings.
#[verifier::spinoff_prover]
#[verifier::rlimit(100)]
fn lower_exec(pi: &PseudoInstruction, m: &AliasMap) -> (res: Result<Instruction, CodegenError>)
    requires
        names_unique(m@),
    ensures
        agrees(res, lower(*pi, m@)),
{
    match pi {
        PseudoInstruction::Nop => Ok(Instruction::Nop),
        PseudoInstruction::Cls => Ok(Instruction::ClearScreen),
        PseudoInstruction::Ret => Ok(Instruction::Return),
        PseudoInstruction::Jmp(a) => match resolve_addr_exec(a, m) {
            Ok(a) => Ok(Instruction::Jump(a)),
            Err(e) => Err(e),
        },
        PseudoInstruction::Call(a) => match resolve_addr_exec(a, m) {
            Ok(a) => Ok(Instruction::Call(a)),
            Err(e) => Err(e),
        },
        PseudoInstruction::LdIndex(a) => match resolve_addr_exec(a, m) {
            Ok(a) => Ok(Instruction::LoadMemoryRegister(a)),
            Err(e) => Err(e),
        },
        PseudoInstruction::JmpPlus(r, a) => match resolve_reg_exec(r, m) {
            Ok(x) => {
                if x != 0 {
                    Err(CodegenError::JumpBaseNotV0(x))
                } else {
                    match resolve_addr_exec(a, m) {
                        Ok(a) => Ok(Instruction::JumpPlusV0(a)),
                        Err(e) => Err(e),
                    }
                }
            },
            Err(e) => Err(e),
        },
        PseudoInstruction::Se(r, rb) => match resolve_reg_exec(r, m) {
            Ok(x) => match resolve_reg_or_byte_exec(rb, m) {
                Ok(o) => Ok(Instruction::SkipIfEqual(x, o)),
                Err(e) => Err(e),
            },
            Err(e) => Err(e),
        },
        PseudoInstruction::Sne(r, rb) => match resolve_reg_exec(r, m) {
            Ok(x) => match resolve_reg_or_byte_exec(rb, m) {
                Ok(o) => Ok(Instruction::SkipIfNotEqual(x, o)),
                Err(e) => Err(e),
            },
            Err(e) => Err(e),
        },
        PseudoInstruction::Ld(r, rb) => match resolve_reg_exec(r, m) {
            Ok(x) => match resolve_reg_or_byte_exec(rb, m) {
                Ok(o) => Ok(Instruction::LoadRegister(x, o)),
                Err(e) => Err(e),
            },
            Err(e) => Err(e),
        },
        PseudoInstruction::Add(r, rb) => match resolve_reg_exec(r, m) {
            Ok(x) => match resolve_reg_or_byte_exec(rb, m) {
                Ok(Operand::Register(y)) => Ok(Instruction::AddWithCarry(x, y)),
                Ok(Operand::Literal(k)) => Ok(Instruction::AddNoCarry(x, k)),
                Err(e) => Err(e),
            },
            Err(e) => Err(e),
        },
        PseudoInstruction::Or(r1, r2) => match resolve_reg_exec(r1, m) {
            Ok(x) => match resolve_reg_exec(r2, m) {
                Ok(y) => Ok(Instruction::Or(x, y)),
                Err(e) => Err(e),
            },
            Err(e) => Err(e),
        },
        PseudoInstruction::And(r1, r2) => match resolve_reg_exec(r1, m) {
            Ok(x) => match resolve_reg_exec(r2, m) {
                Ok(y) => Ok(Instruction::And(x, y)),
                Err(e) => Err(e),
            },
            Err(e) => Err(e),
        },
        PseudoInstruction::Xor(r1, r2) => match resolve_reg_exec(r1, m) {
            Ok(x) => match resolve_reg_exec(r2, m) {
                Ok(y) => Ok(Instruction::Xor(x, y)),
                Err(e) => Err(e),
            },
            Err(e) => Err(e),
        },
        PseudoInstruction::Sub(r1, r2) => match resolve_reg_exec(r1, m) {
            Ok(x) => match resolve_reg_exec(r2, m) {
                Ok(y) => Ok(Instruction::Sub(x, y)),
                Err(e) => Err(e),
            },
            Err(e) => Err(e),
        },
        PseudoInstruction::Subn(r1, r2) => match resolve_reg_exec(r1, m) {
            Ok(x) => match resolve_reg_exec(r2, m) {
                Ok(y) => Ok(Instruction::SubN(x, y)),
                Err(e) => Err(e),
            },
            Err(e) => Err(e),
        },
        PseudoInstruction::Rnd(r, b) => match resolve_reg_exec(r, m) {
            Ok(x) => match resolve_small_exec(b, m, 0xFF) {
                Ok(k) => Ok(Instruction::LoadRandomWithMask(x, k)),
                Err(e) => Err(e),
            },
            Err(e) => Err(e),
        },
        PseudoInstruction::Drw(r1, r2, b) => match resolve_reg_exec(r1, m) {
            Ok(x) => match resolve_reg_exec(r2, m) {
                Ok(y) => match resolve_small_exec(b, m, 0xF) {
                    Ok(n) => Ok(Instruction::Draw(x, y, n)),
                    Err(e) => Err(e),
                },
                Err(e) => Err(e),
            },
            Err(e) => Err(e),
        },
        PseudoInstruction::LdFromK(r) => match resolve_reg_exec(r, m) {
            Ok(x) => Ok(Instruction::WaitForKeyPress(x)),
            Err(e) => Err(e),
        },
        PseudoInstruction::LdFromDt(r) => match resolve_reg_exec(r, m) {
            Ok(x) => Ok(Instruction::LoadFromDelayTimer(x)),
            Err(e) => Err(e),
        },
        PseudoInstruction::AddIndex(r) => match resolve_reg_exec(r, m) {
            Ok(x) => Ok(Instruction::AddToMemoryRegister(x)),
            Err(e) => Err(e),
        },
        PseudoInstruction::Shr(r) => match resolve_reg_exec(r, m) {
            Ok(x) => Ok(Instruction::ShiftRight(x)),
            Err(e) => Err(e),
        },
        PseudoInstruction::Shl(r) => match resolve_reg_exec(r, m) {
            Ok(x) => Ok(Instruction::ShiftLeft(x)),
            Err(e) => Err(e),
        },
        PseudoInstruction::Skp(r) => match resolve_reg_exec(r, m) {
            Ok(x) => Ok(Instruction::SkipIfKeyPressed(x)),
            Err(e) => Err(e),
        },
        PseudoInstruction::Sknp(r) => match resolve_reg_exec(r, m) {
            Ok(x) => Ok(Instruction::SkipIfKeyNotPressed(x)),
            Err(e) => Err(e),
        },
        PseudoInstruction::Delay(r) => match resolve_reg_exec(r, m) {
            Ok(x) => Ok(Instruction::LoadIntoDelayTimer(x)),
            Err(e) => Err(e),
        },
        PseudoInstruction::Sound(r) => match resolve_reg_exec(r, m) {
            Ok(x) => Ok(Instruction::LoadIntoSoundTimer(x)),
            Err(e) => Err(e),
        },
        PseudoInstruction::Font(r) => match resolve_reg_exec(r, m) {
            Ok(x) => Ok(Instruction::LoadDigitAddress(x)),
            Err(e) => Err(e),
        },
        PseudoInstruction::Bcd(r) => match resolve_reg_exec(r, m) {
            Ok(x) => Ok(Instruction::StoreBcdInMemory(x)),
            Err(e) => Err(e),
        },
        PseudoInstruction::Stor(r) => match resolve_reg_exec(r, m) {
            Ok(x) => Ok(Instruction::StoreRegistersInMemory(x)),
            Err(e) => Err(e),
        },
        PseudoInstruction::Rstr(r) => match resolve_reg_exec(r, m) {
            Ok(x) => Ok(Instruction::ReadRegistersFromMemory(x)),
            Err(e) => Err(e),
        },
    }
}

/// The size of a prefix of the statements is at most the size of all of them.
pub(crate) proof fn lemma_rom_size_prefix(stmts: Seq<SpanStmt>, i: int)
    requires
        0 <= i <= stmts.len(),
    ensures
        0 <= rom_size(stmts.take(i)) <= rom_size(stmts),
    decreases stmts.len(),
{
    if stmts.len() > 0 {
        if i == stmts.len() {
            assert(stmts.take(i) =~= stmts);
            lemma_rom_size_prefix(stmts.drop_last(), i - 1);
            assert(stmts.drop_last().take(i - 1) =~= stmts.take(i - 1));
        } else {
            lemma_rom_size_prefix(stmts.drop_last(), i);
            assert(stmts.drop_last().take(i) =~= stmts.take(i));
        }
    }
}

/// Once the first pass fails on a prefix, it fails with the same error on
/// every longer prefix.
proof fn lemma_collect_error_persists(stmts: Seq<SpanStmt>, i: int)
    requires
        0 <= i <= stmts.len(),
        collect_bindings(stmts.take(i)) is Err,
    ensures
        collect_bindings(stmts) == collect_bindings(stmts.take(i)),
    decreases stmts.len() - i,
{
    if i < stmts.len() {
        assert(stmts.take(i + 1).drop_last() =~= stmts.take(i));
        lemma_collect_error_persists(stmts, i + 1);
    } else {
        assert(stmts.take(i) =~= stmts);
    }
}

/// Once the second pass fails on a prefix, it fails with the same error on
/// every longer prefix.
proof fn lemma_emit_error_persists(stmts: Seq<SpanStmt>, m: Bindings, i: int)
    requires
        0 <= i <= stmts.len(),
        emit(stmts.take(i), m) is Err,
    ensures
        emit(stmts, m) == emit(stmts.take(i), m),
    decreases stmts.len() - i,
{
    if i < stmts.len() {
        assert(stmts.take(i + 1).drop_last() =~= stmts.take(i));
        lemma_emit_error_persists(stmts, m, i + 1);
    } else {
        assert(stmts.take(i) =~= stmts);
    }
}

/// Append the two bytes of an instruction, resolved under the bindings.
#[verifier::spinoff_prover]
#[verifier::rlimit(100)]
fn emit_instruction(pi: &PseudoInstruction, map: &AliasMap, blob: &mut Vec<u8>) -> (r: Result<(), CodegenError>)
    requires
        names_unique(map@),
    ensures
        match emit_stmt(Stmt::PseudoInstruction(*pi), map@) {
            Ok(more) => r is Ok && final(blob)@ == old(blob)@ + more,
            Err(e) => r is Err && r->Err_0@ == e,
        },
{
    match lower_exec(pi, map) {
        Ok(instruction) => match encode(instruction) {
            Ok(bytes) => {
                blob.push(bytes[0]);
                blob.push(bytes[1]);
                proof {
                    let w = spec_encode(instruction)->Ok_0;
                    assert(word_bytes(w) =~= seq![bytes[0], bytes[1]]);
                    assert(final(blob)@ =~= old(blob)@ + word_bytes(w));
                }
                Ok(())
            },
            Err(e) => Err(CodegenError::EncodingError(e)),
        },
        Err(e) => Err(e),
    }
}

/// Append the bytes that one statement emits under the bindings.
#[verifier::spinoff_prover]
#[verifier::rlimit(100)]
fn emit_stmt_exec(stmt: &Stmt, map: &AliasMap, blob: &mut Vec<u8>) -> (r: Result<(), CodegenError>)
    requires
        names_unique(map@),
    ensures
        match emit_stmt(*stmt, map@) {
            Ok(more) => r is Ok && final(blob)@ == old(blob)@ + more,
            Err(e) => r is Err && r->Err_0@ == e,
        },
{
    match stmt {
        Stmt::RawDataDefinition(data) => {
            append_bytes(blob, data);
            Ok(())
        },
        Stmt::PseudoInstruction(pi) => emit_instruction(pi, map, blob),
        _ => {
            assert(blob@ + Seq::<u8>::empty() =~= blob@);
            Ok(())
        },
    }
}

/// The spans of the file directives (`Include` statements), in order.
pub open spec fn include_spans(stmts: Seq<SpanStmt>) -> Seq<Span>
    decreases stmts.len(),
{
    if stmts.len() == 0 {
        Seq::empty()
    } else if stmts.last().value is Include {
        include_spans(stmts.drop_last()).push(stmts.last().span)
    } else {
        include_spans(stmts.drop_last())
    }
}

/// Warn that each file directive is ignored.
fn warn_includes(statements: &Vec<SpanStmt>, diag: &mut Diagnostics)
    ensures
        final(diag).reports@.len() == old(diag).reports@.len() + include_spans(statements@).len(),
        final(diag).reports@.subrange(0, old(diag).reports@.len() as int) == old(diag).reports@,
        forall|k: int| 0 <= k < include_spans(statements@).len() ==> {
            &&& (#[trigger] final(diag).reports@[old(diag).reports@.len() + k]).span == include_spans(statements@)[k]
            &&& final(diag).reports@[old(diag).reports@.len() + k].severity == SeverityLevel::Warning
        },
        final(diag).had_error == old(diag).had_error,
        final(diag).source == old(diag).source,
{
    let ghost base = old(diag).reports@;
    let mut idx: usize = 0;
    while idx < statements.len()
        invariant
            idx <= statements@.len(),
            diag.reports@.len() == base.len() + include_spans(statements@.take(idx as int)).len(),
            diag.reports@.subrange(0, base.len() as int) == base,
            forall|k: int| 0 <= k < include_spans(statements@.take(idx as int)).len() ==> {
                &&& (#[trigger] diag.reports@[base.len() + k]).span == include_spans(statements@.take(idx as int))[k]
                &&& diag.reports@[base.len() + k].severity == SeverityLevel::Warning
            },
            diag.had_error == old(diag).had_error,
            diag.source == old(diag).source,
        decreases statements@.len() - idx,
    {
        proof {
            assert(statements@.take(idx + 1).drop_last() =~= statements@.take(idx as int));
            assert(statements@.take(idx + 1).last() == statements@[idx as int]);
        }
        if let Stmt::Include(_) = &statements[idx].value {
            report_warning(diag, statements[idx].span,
                "Including other files is not implemented, so this will be ignored");
            assert(diag.reports@.subrange(0, base.len() as int) =~= base);
        }
        idx = idx + 1;
    }
    assert(statements@.take(statements@.len() as int) =~= statements@);
}

/// Resolve the aliases and labels in the statements and encode them: the ROM,
/// or the first error with the span of its statement.
#[verifier::spinoff_prover]
#[verifier::rlimit(100)]
fn generate(statements: &Vec<SpanStmt>) -> (r: Result<Vec<u8>, WithSpan<CodegenError>>)
    requires
        PROGRAM_START as int + rom_size(statements@) <= 0xFFFF,
    ensures
        match spec_codegen(statements@) {
            Ok(bytes) => r is Ok && r->Ok_0@ == bytes,
            Err(e) => r is Err && r->Err_0.span == e.span && r->Err_0.value@ == e.value,
        },
{
    let ghost stmts = statements@;
    let mut offset: u16 = PROGRAM_START;
    let mut map = AliasMap::new();
    let mut idx: usize = 0;
    while idx < statements.len()
        invariant
            stmts == statements@,
            PROGRAM_START as int + rom_size(stmts) <= 0xFFFF,
            idx <= stmts.len(),
            collect_bindings(stmts.take(idx as int)) == Ok::<Bindings, WithSpan<CodegenErrorView>>(map@),
            names_unique(map@),
            offset as int == PROGRAM_START as int + rom_size(stmts.take(idx as int)),
        decreases stmts.len() - idx,
    {
        proof {
            assert(stmts.take(idx + 1).drop_last() =~= stmts.take(idx as int));
            assert(stmts.take(idx + 1).last() == stmts[idx as int]);
            lemma_rom_size_prefix(stmts, idx + 1);
        }
        let span = statements[idx].span;
        match &statements[idx].value {
            Stmt::AliasDefinition(name, thing) => {
                if map.get(name).is_some() {
                    proof { lemma_collect_error_persists(stmts, idx + 1); }
                    return Err(WithSpan { span, value: CodegenError::AliasAlreadyDefined(copy_bytes(name)) });
                }
                map.insert(copy_bytes(name), *thing);
            },
            Stmt::RawDataDefinition(data) => {
                offset = offset + data.len() as u16;
            },
            Stmt::Label(name) => {
                if map.get(name).is_some() {
                    proof { lemma_collect_error_persists(stmts, idx + 1); }
                    return Err(WithSpan { span, value: CodegenError::LabelAlreadyDefined(copy_bytes(name)) });
                }
                map.insert(copy_bytes(name), AliasableThing::RawData(offset));
            },
            Stmt::PseudoInstruction(_) => {
                offset = offset + 2;
            },
            Stmt::Include(_) => {},
        }
        idx = idx + 1;
    }
    proof {
        assert(stmts.take(stmts.len() as int) =~= stmts);
    }
    let ghost bindings = map@;

    let mut blob: Vec<u8> = Vec::new();
    let mut idx: usize = 0;
    while idx < statements.len()
        invariant
            stmts == statements@,
            idx <= stmts.len(),
            names_unique(map@),
            map@ == bindings,
            collect_bindings(stmts) == Ok::<Bindings, WithSpan<CodegenErrorView>>(bindings),
            emit(stmts.take(idx as int), bindings) == Ok::<Seq<u8>, WithSpan<CodegenErrorView>>(blob@),
        decreases stmts.len() - idx,
    {
        proof {
            assert(stmts.take(idx + 1).drop_last() =~= stmts.take(idx as int));
            assert(stmts.take(idx + 1).last() == stmts[idx as int]);
        }
        let span = statements[idx].span;
        match emit_stmt_exec(&statements[idx].value, &map, &mut blob) {
            Ok(()) => {},
            Err(e) => {
                proof { lemma_emit_error_persists(stmts, bindings, idx + 1); }
                return Err(WithSpan { span, value: e });
            },
        }
        idx = idx + 1;
    }
    proof {
        assert(stmts.take(stmts.len() as int) =~= stmts);
    }
    Ok(blob)
}

/// Resolve all the aliases and labels in the statements and encode them into
/// the bytes of a ROM loaded at `0x200`, or return the first error with the
/// span of its statement. Each file directive is reported as a warning
/// and otherwise ignored.
pub fn codegen(statements: Vec<SpanStmt>, diag: &mut Diagnostics) -> (r: Result<Vec<u8>, WithSpan<CodegenError>>)
    requires
        PROGRAM_START as int + rom_size(statements@) <= 0xFFFF,
    ensures
        final(diag).reports@.len() == old(diag).reports@.len() + include_spans(statements@).len(),
        final(diag).reports@.subrange(0, old(diag).reports@.len() as int) == old(diag).reports@,
        forall|k: int| 0 <= k < include_spans(statements@).len() ==> {
            &&& (#[trigger] final(diag).reports@[old(diag).reports@.len() + k]).span == include_spans(statements@)[k]
            &&& final(diag).reports@[old(diag).reports@.len() + k].severity == SeverityLevel::Warning
        },
        final(diag).had_error == old(diag).had_error,
        final(diag).source == old(diag).source,
        match spec_codegen(statements@) {
            Ok(bytes) => r is Ok && r->Ok_0@ == bytes,
            Err(e) => r is Err && r->Err_0.span == e.span && r->Err_0.value@ == e.value,
        },
{
    warn_includes(&statements, diag);
    generate(&statements)
}


/// The name that a statement defines, if it is an alias definition or a label.
pub open spec fn defined_name(s: Stmt) -> Option<Seq<u8>> {
    match s {
        Stmt::AliasDefinition(name, _) => Some(name@),
        Stmt::Label(name) => Some(name@),
        _ => None,
    }
}

/// Whether one of the first `k` statements defines the name.
pub open spec fn defined_before(stmts: Seq<SpanStmt>, k: int, x: Seq<u8>) -> bool {
    exists|i: int| 0 <= i < k && defined_name(#[trigger] stmts[i].value) == Some(x)
}

/// The error that a statement defining an already defined name gives.
pub open spec fn redefinition_error(s: Stmt) -> CodegenErrorView {
    match s {
        Stmt::Label(name) => CodegenErrorView::LabelAlreadyDefined(name@),
        Stmt::AliasDefinition(name, _) => CodegenErrorView::AliasAlreadyDefined(name@),
        _ => CodegenErrorView::JumpBaseNotV0(0),
    }
}

/// The bindings that the first pass makes on a prefix that it accepts form an
/// injective map in definition order: each name defined in the prefix is
/// bound exactly once, and no other name is bound.
pub proof fn lemma_bindings_names(stmts: Seq<SpanStmt>, k: int)
    requires
        0 <= k <= stmts.len(),
        collect_bindings(stmts.take(k)) is Ok,
    ensures
        names_unique(collect_bindings(stmts.take(k))->Ok_0),
        forall|x: Seq<u8>| #[trigger] lookup(collect_bindings(stmts.take(k))->Ok_0, x) is Some
            <==> defined_before(stmts, k, x),
    decreases k,
{
    let m = collect_bindings(stmts.take(k))->Ok_0;
    if k == 0 {
        assert(m =~= Seq::<(Seq<u8>, AliasableThing)>::empty());
    } else {
        assert(stmts.take(k).drop_last() =~= stmts.take(k - 1));
        assert(stmts.take(k).last() == stmts[k - 1]);
        lemma_bindings_names(stmts, k - 1);
        let m0 = collect_bindings(stmts.take(k - 1))->Ok_0;
        assert forall|x: Seq<u8>| #[trigger] lookup(m, x) is Some <==> defined_before(stmts, k, x) by {
            if defined_before(stmts, k, x) {
                let i = choose|i: int| 0 <= i < k && defined_name(#[trigger] stmts[i].value) == Some(x);
                if i < k - 1 {
                    assert(defined_before(stmts, k - 1, x));
                    let p = choose|p: int| 0 <= p < m0.len() && #[trigger] m0[p].0 == x;
                    assert(m[p].0 == x);
                } else {
                    assert(m[m.len() - 1].0 == x);
                }
            }
            if lookup(m, x) is Some {
                let p = choose|p: int| 0 <= p < m.len() && #[trigger] m[p].0 == x;
                if p < m0.len() {
                    assert(m0[p].0 == x);
                    assert(lookup(m0, x) is Some);
                    let i = choose|i: int| 0 <= i < k - 1 && defined_name(#[trigger] stmts[i].value) == Some(x);
                    assert(defined_name(stmts[i].value) == Some(x));
                } else {
                    assert(defined_name(stmts[k - 1].value) == Some(x));
                }
            }
        }
    }
}

/// The first pass accepts a prefix in which no name is defined twice.
proof fn lemma_bindings_accepted(stmts: Seq<SpanStmt>, k: int)
    requires
        0 <= k <= stmts.len(),
        forall|p: int, q: int| 0 <= p < q < k && #[trigger] defined_name(stmts[p].value) is Some
            ==> defined_name(stmts[p].value) != #[trigger] defined_name(stmts[q].value),
    ensures
        collect_bindings(stmts.take(k)) is Ok,
    decreases k,
{
    if k > 0 {
        assert(stmts.take(k).drop_last() =~= stmts.take(k - 1));
        assert(stmts.take(k).last() == stmts[k - 1]);
        lemma_bindings_accepted(stmts, k - 1);
        lemma_bindings_names(stmts, k - 1);
        let m0 = collect_bindings(stmts.take(k - 1))->Ok_0;
        if let Some(x) = defined_name(stmts[k - 1].value) {
            if lookup(m0, x) is Some {
                let i = choose|i: int| 0 <= i < k - 1 && defined_name(#[trigger] stmts[i].value) == Some(x);
                assert(defined_name(stmts[i].value) is Some);
            }
        }
    }
}

/// A name is never bound twice: whenever two statements define the same name,
/// as aliases, labels or one of each, code generation fails.
pub proof fn lemma_redefinition_detected(stmts: Seq<SpanStmt>, i: int, j: int)
    requires
        0 <= i < j < stmts.len(),
        defined_name(stmts[i].value) is Some,
        defined_name(stmts[i].value) == defined_name(stmts[j].value),
    ensures
        spec_codegen(stmts) is Err,
{
    let x = defined_name(stmts[j].value)->Some_0;
    assert(stmts.take(j + 1).drop_last() =~= stmts.take(j));
    assert(stmts.take(j + 1).last() == stmts[j]);
    if collect_bindings(stmts.take(j)) is Ok {
        lemma_bindings_names(stmts, j);
        assert(defined_before(stmts, j, x));
    } else {
        lemma_collect_error_persists(stmts.take(j + 1), j);
        assert(stmts.take(j + 1).take(j) =~= stmts.take(j));
    }
    lemma_collect_error_persists(stmts, j + 1);
}

/// A name defined twice is reported at its second definition, whichever of
/// the two is an alias and whichever a label: the error has the span of the
/// second definition and names its kind.
pub proof fn lemma_redefinition_reported_at_second(stmts: Seq<SpanStmt>, i: int, j: int)
    requires
        0 <= i < j < stmts.len(),
        defined_name(stmts[i].value) is Some,
        defined_name(stmts[i].value) == defined_name(stmts[j].value),
        forall|p: int, q: int| 0 <= p < q < j && #[trigger] defined_name(stmts[p].value) is Some
            ==> defined_name(stmts[p].value) != #[trigger] defined_name(stmts[q].value),
    ensures
        spec_codegen(stmts) == Err::<Seq<u8>, WithSpan<CodegenErrorView>>(
            WithSpan { span: stmts[j].span, value: redefinition_error(stmts[j].value) },
        ),
{
    let x = defined_name(stmts[j].value)->Some_0;
    lemma_bindings_accepted(stmts, j);
    lemma_bindings_names(stmts, j);
    assert(defined_before(stmts, j, x));
    assert(stmts.take(j + 1).drop_last() =~= stmts.take(j));
    assert(stmts.take(j + 1).last() == stmts[j]);
    lemma_collect_error_persists(stmts, j + 1);
}

/// The bytes that the second pass emits: all the raw data, and two bytes for
/// each instruction.
proof fn lemma_emit_size(stmts: Seq<SpanStmt>, m: Bindings)
    requires
        emit(stmts, m) is Ok,
    ensures
        emit(stmts, m)->Ok_0.len() == rom_size(stmts),
    decreases stmts.len(),
{
    if stmts.len() > 0 {
        lemma_emit_size(stmts.drop_last(), m);
    }
}

/// Every instruction occupies exactly two bytes of the ROM: its size is the
/// number of raw data bytes plus two for each instruction.
pub proof fn lemma_rom_size(stmts: Seq<SpanStmt>)
    requires
        spec_codegen(stmts) is Ok,
    ensures
        spec_codegen(stmts)->Ok_0.len() == rom_size(stmts),
{
    lemma_emit_size(stmts, collect_bindings(stmts)->Ok_0);
}

} // verus!
