//! The tokens of the assembly language.

use crate::span::WithSpan;
use vstd::prelude::*;

verus! {

/// A token together with its span.
pub type TokenSpan = WithSpan<Token>;

/// The tokens of the assembly language.
#[derive(Clone, Debug, PartialEq, Eq)]
pub enum Token {
    Colon,
    /// A name that is not a keyword, as its bytes.
    Identifier(Vec<u8>),
    InstructionName(InstructionName),
    GeneralRegisterName(GeneralRegisterName),
    SpecialRegisterName(SpecialRegisterName),
    Define,
    DefineBytes,
    DefineWords,
    NumericLiteral(u16),
    Include,
    /// The bytes between the quotes of a string literal.
    StringLiteral(Vec<u8>),
    Text,
}

/// All the instruction mnemonics.
#[derive(Clone, Copy, Debug, PartialEq, Eq, Structural)]
pub enum InstructionName {
    Nop,
    Cls,
    Ret,
    Jmp,
    Jmpp,
    Call,
    Se,
    Sne,
    Ld,
    Add,
    Or,
    And,
    Xor,
    Sub,
    Subn,
    Shr,
    Shl,
    Rnd,
    Drw,
    Skp,
    Sknp,
    Delay,
    Sound,
    Font,
    Bcd,
    Stor,
    Rstr,
}

/// All the names of the general registers.
#[derive(Clone, Copy, Debug, PartialEq, Eq, Structural)]
pub enum GeneralRegisterName {
    V0,
    V1,
    V2,
    V3,
    V4,
    V5,
    V6,
    V7,
    V8,
    V9,
    Va,
    Vb,
    Vc,
    Vd,
    Ve,
    Vf,
}

/// The special registers used in mnemonics.
#[derive(Clone, Copy, Debug, PartialEq, Eq, Structural)]
pub enum SpecialRegisterName {
    /// The memory register, or "index".
    I,
    /// The delay timer.
    Dt,
    /// The keyboard. Only used to wait for a keypress.
    K,
}

impl GeneralRegisterName {
    /// The number of the register: 0 for V0 up to 15 for VF.
    pub open spec fn spec_number(self) -> u8 {
        match self {
            GeneralRegisterName::V0 => 0,
            GeneralRegisterName::V1 => 1,
            GeneralRegisterName::V2 => 2,
            GeneralRegisterName::V3 => 3,
            GeneralRegisterName::V4 => 4,
            GeneralRegisterName::V5 => 5,
            GeneralRegisterName::V6 => 6,
            GeneralRegisterName::V7 => 7,
            GeneralRegisterName::V8 => 8,
            GeneralRegisterName::V9 => 9,
            GeneralRegisterName::Va => 10,
            GeneralRegisterName::Vb => 11,
            GeneralRegisterName::Vc => 12,
            GeneralRegisterName::Vd => 13,
            GeneralRegisterName::Ve => 14,
            GeneralRegisterName::Vf => 15,
        }
    }

    /// The number of the register: 0 for V0 up to 15 for VF.
    #[verifier::when_used_as_spec(spec_number)]
    pub fn number(self) -> (r: u8)
        ensures
            r == self.spec_number(),
            r <= 15,
    {
        match self {
            GeneralRegisterName::V0 => 0,
            GeneralRegisterName::V1 => 1,
            GeneralRegisterName::V2 => 2,
            GeneralRegisterName::V3 => 3,
            GeneralRegisterName::V4 => 4,
            GeneralRegisterName::V5 => 5,
            GeneralRegisterName::V6 => 6,
            GeneralRegisterName::V7 => 7,
            GeneralRegisterName::V8 => 8,
            GeneralRegisterName::V9 => 9,
            GeneralRegisterName::Va => 10,
            GeneralRegisterName::Vb => 11,
            GeneralRegisterName::Vc => 12,
            GeneralRegisterName::Vd => 13,
            GeneralRegisterName::Ve => 14,
            GeneralRegisterName::Vf => 15,
        }
    }
}


/// What a [`Token`] says, with names and strings as byte sequences.
pub enum TokenView {
    Colon,
    Identifier(Seq<u8>),
    InstructionName(InstructionName),
    GeneralRegisterName(GeneralRegisterName),
    SpecialRegisterName(SpecialRegisterName),
    Define,
    DefineBytes,
    DefineWords,
    NumericLiteral(u16),
    Include,
    StringLiteral(Seq<u8>),
    Text,
}

impl View for Token {
    type V = TokenView;

    open spec fn view(&self) -> TokenView {
        match self {
            Token::Colon => TokenView::Colon,
            Token::Identifier(n) => TokenView::Identifier(n@),
            Token::InstructionName(i) => TokenView::InstructionName(*i),
            Token::GeneralRegisterName(g) => TokenView::GeneralRegisterName(*g),
            Token::SpecialRegisterName(r) => TokenView::SpecialRegisterName(*r),
            Token::Define => TokenView::Define,
            Token::DefineBytes => TokenView::DefineBytes,
            Token::DefineWords => TokenView::DefineWords,
            Token::NumericLiteral(v) => TokenView::NumericLiteral(*v),
            Token::Include => TokenView::Include,
            Token::StringLiteral(b) => TokenView::StringLiteral(b@),
            Token::Text => TokenView::Text,
        }
    }
}

} // verus!
