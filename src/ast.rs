//! The statements that the parser produces and codegen consumes.

use crate::span::WithSpan;
use crate::tokens::GeneralRegisterName;
use vstd::prelude::*;

verus! {

/// Something that can be aliased.
#[derive(Clone, Copy, Debug, PartialEq, Eq, Structural)]
pub enum AliasableThing {
    RawData(u16),
    Register(GeneralRegisterName),
}

/// Either an argument to an instruction, or the name of an alias for one.
#[derive(Clone, Debug, PartialEq, Eq)]
pub enum OrAlias<T> {
    Alias(Vec<u8>),
    Concrete(T),
}

impl<T> OrAlias<T> {
    /// Apply `func` to a concrete argument; an alias stays as it is.
    pub fn map<U, F>(self, func: F) -> (r: OrAlias<U>)
        where
            F: FnOnce(T) -> U,
        requires
            self is Concrete ==> func.requires((self->Concrete_0,)),
        ensures
            self is Alias ==> r is Alias && r->Alias_0 == self->Alias_0,
            self is Concrete ==> r is Concrete && func.ensures((self->Concrete_0,), r->Concrete_0),
    {
        match self {
            OrAlias::Alias(alias) => OrAlias::Alias(alias),
            OrAlias::Concrete(t) => OrAlias::Concrete(func(t)),
        }
    }
}

/// A register or a literal byte.
#[derive(Clone, Copy, Debug, PartialEq, Eq, Structural)]
pub enum RegOrByte {
    Register(GeneralRegisterName),
    LiteralByte(u8),
}

/// A byte or an alias.
pub type Byte = OrAlias<u8>;

/// A 16-bit word or an alias.
pub type Word = OrAlias<u16>;

/// A general register or an alias.
pub type Reg = OrAlias<GeneralRegisterName>;

/// A register, a literal byte, or an alias.
pub type RegOrByteA = OrAlias<RegOrByte>;

/// An instruction whose operands may still be unresolved aliases.
#[derive(Clone, Debug, PartialEq, Eq)]
pub enum PseudoInstruction {
    Nop,
    Cls,
    Ret,
    Jmp(Word),
    JmpPlus(Reg, Word),
    Call(Word),
    Se(Reg, RegOrByteA),
    Sne(Reg, RegOrByteA),
    Ld(Reg, RegOrByteA),
    LdIndex(Word),
    LdFromK(Reg),
    LdFromDt(Reg),
    Add(Reg, RegOrByteA),
    AddIndex(Reg),
    Or(Reg, Reg),
    And(Reg, Reg),
    Xor(Reg, Reg),
    Sub(Reg, Reg),
    Subn(Reg, Reg),
    Shr(Reg),
    Shl(Reg),
    Rnd(Reg, Byte),
    Drw(Reg, Reg, Byte),
    Skp(Reg),
    Sknp(Reg),
    Delay(Reg),
    Sound(Reg),
    Font(Reg),
    Bcd(Reg),
    Stor(Reg),
    Rstr(Reg),
}

/// A statement together with its span.
pub type SpanStmt = WithSpan<Stmt>;

/// All the possible statements.
#[derive(Clone, Debug, PartialEq, Eq)]
pub enum Stmt {
    /// `define name thing`: bind a name to a number or a register.
    AliasDefinition(Vec<u8>, AliasableThing),
    /// Raw bytes from `db`, `dw` or `text`.
    RawDataDefinition(Vec<u8>),
    /// `name:`: bind a name to the current offset.
    Label(Vec<u8>),
    /// An instruction.
    PseudoInstruction(PseudoInstruction),
    /// A file directive: accepted and ignored.
    Include(Vec<u8>),
}

} // verus!
