//! The CHIP-8 instruction set, and its encoding to and decoding from 16-bit words.

use vstd::arithmetic::div_mod::{
    lemma_div_denominator, lemma_fundamental_div_mod, lemma_fundamental_div_mod_converse,
    lemma_mod_mod,
};
use vstd::prelude::*;

verus! {

/// The set of instructions that are supported by the interpreter.
#[derive(Clone, Copy, Debug, PartialEq, Eq, Structural)]
pub enum Instruction {
    /// Do nothing. Only the assembler produces it; it encodes to `0x0000`.
    Nop,
    /// Clear the display.
    ClearScreen,
    /// Return from the current subroutine.
    Return,
    /// Jump to the given address.
    Jump(u16),
    /// Call the subroutine at the given address.
    Call(u16),
    /// Skip the next instruction if the register equals the operand.
    SkipIfEqual(u8, Operand),
    /// Skip the next instruction if the register does not equal the operand.
    SkipIfNotEqual(u8, Operand),
    /// Load the value of the operand into the register.
    LoadRegister(u8, Operand),
    /// Add the byte to the register, without a carry flag.
    AddNoCarry(u8, u8),
    /// Bitwise OR of two registers, stored in the left one.
    Or(u8, u8),
    /// Bitwise AND of two registers, stored in the left one.
    And(u8, u8),
    /// Bitwise XOR of two registers, stored in the left one.
    Xor(u8, u8),
    /// Add two registers, storing the carry in VF.
    AddWithCarry(u8, u8),
    /// Set Vx = Vx - Vy, storing the borrow in VF.
    Sub(u8, u8),
    /// Shift the register right by one place, the dropped bit going to VF.
    ShiftRight(u8),
    /// Set Vx = Vy - Vx, storing the borrow in VF.
    SubN(u8, u8),
    /// Shift the register left by one place, the dropped bit going to VF.
    ShiftLeft(u8),
    /// Load the address into the memory register I.
    LoadMemoryRegister(u16),
    /// Jump to the address plus V0.
    JumpPlusV0(u16),
    /// Load a random byte masked with the given byte into the register.
    LoadRandomWithMask(u8, u8),
    /// Draw an n-byte sprite from memory at I at coordinates (Vx, Vy); VF is set on collision.
    Draw(u8, u8, u8),
    /// Skip the next instruction if the key numbered Vx is pressed.
    SkipIfKeyPressed(u8),
    /// Skip the next instruction if the key numbered Vx is not pressed.
    SkipIfKeyNotPressed(u8),
    /// Set Vx to the delay timer.
    LoadFromDelayTimer(u8),
    /// Wait for a key press and store its number in Vx.
    WaitForKeyPress(u8),
    /// Set the delay timer to Vx.
    LoadIntoDelayTimer(u8),
    /// Set the sound timer to Vx.
    LoadIntoSoundTimer(u8),
    /// Add Vx to the memory register I.
    AddToMemoryRegister(u8),
    /// Point I at the font sprite of the low nibble of Vx.
    LoadDigitAddress(u8),
    /// Store the decimal digits of Vx at I, I+1 and I+2.
    StoreBcdInMemory(u8),
    /// Store V0 through Vx in memory starting at I.
    StoreRegistersInMemory(u8),
    /// Read V0 through Vx from memory starting at I.
    ReadRegistersFromMemory(u8),
}

/// An operand that can be used in an instruction.
#[derive(Clone, Copy, Debug, PartialEq, Eq, Structural)]
pub enum Operand {
    /// A general purpose register.
    Register(u8),
    /// A literal byte value.
    Literal(u8),
}

/// A potential error when encoding.
#[derive(Clone, Copy, Debug, PartialEq, Eq, Structural)]
pub enum EncodingError {
    /// CHIP-8 has 12-bit addresses; this one was larger.
    AddressTooBig(u16),
    /// There are only 16 registers; this register number was larger.
    RegisterTooBig(u8),
    /// The sprite height of `Draw` must fit in a nibble.
    NibbleTooBig(u8),
}

/// A potential error when decoding.
#[derive(Clone, Copy, Debug, PartialEq, Eq, Structural)]
pub enum DecodingError {
    /// The word was not recognised as a valid instruction.
    UnrecognisedBytecode(u16),
}

impl EncodingError {
    /// A human-readable description of the error.
    pub fn message(&self) -> (r: String)
        ensures
            r@ == (match self {
                EncodingError::AddressTooBig(_) => "This address is more than 12 bits"@,
                EncodingError::RegisterTooBig(_) => "This register number is more than 4 bits"@,
                EncodingError::NibbleTooBig(_) => "This number should be one nibble"@,
            }),
    {
        match self {
            EncodingError::AddressTooBig(_) => "This address is more than 12 bits".to_owned(),
            EncodingError::RegisterTooBig(_) => "This register number is more than 4 bits".to_owned(),
            EncodingError::NibbleTooBig(_) => "This number should be one nibble".to_owned(),
        }
    }
}

/// The word `base + a` for a 12-bit address `a`.
pub open spec fn addr_word(base: int, a: u16) -> Result<u16, EncodingError> {
    if a < 0x1000 {
        Ok((base + a) as u16)
    } else {
        Err(EncodingError::AddressTooBig(a))
    }
}

/// The word `base + x * 0x100 + low` for a register `x`.
pub open spec fn reg_word(base: int, x: u8, low: int) -> Result<u16, EncodingError> {
    if x > 15 {
        Err(EncodingError::RegisterTooBig(x))
    } else {
        Ok((base + x * 0x100 + low) as u16)
    }
}

/// The word `base + x * 0x100 + y * 0x10` for two registers `x` and `y`.
pub open spec fn two_reg_word(base: int, x: u8, y: u8) -> Result<u16, EncodingError> {
    if x > 15 {
        Err(EncodingError::RegisterTooBig(x))
    } else if y > 15 {
        Err(EncodingError::RegisterTooBig(y))
    } else {
        Ok((base + x * 0x100 + y * 0x10) as u16)
    }
}

/// The word that an instruction encodes to, or why it cannot be encoded.
pub open spec fn spec_encode(i: Instruction) -> Result<u16, EncodingError> {
    match i {
        Instruction::Nop => Ok(0x0000),
        Instruction::ClearScreen => Ok(0x00E0),
        Instruction::Return => Ok(0x00EE),
        Instruction::Jump(a) => addr_word(0x1000, a),
        Instruction::Call(a) => addr_word(0x2000, a),
        Instruction::SkipIfEqual(x, Operand::Register(y)) => two_reg_word(0x5000, x, y),
        Instruction::SkipIfEqual(x, Operand::Literal(k)) => reg_word(0x3000, x, k as int),
        Instruction::SkipIfNotEqual(x, Operand::Register(y)) => two_reg_word(0x9000, x, y),
        Instruction::SkipIfNotEqual(x, Operand::Literal(k)) => reg_word(0x4000, x, k as int),
        Instruction::LoadRegister(x, Operand::Register(y)) => two_reg_word(0x8000, x, y),
        Instruction::LoadRegister(x, Operand::Literal(k)) => reg_word(0x6000, x, k as int),
        Instruction::AddNoCarry(x, k) => reg_word(0x7000, x, k as int),
        Instruction::Or(x, y) => two_reg_word(0x8001, x, y),
        Instruction::And(x, y) => two_reg_word(0x8002, x, y),
        Instruction::Xor(x, y) => two_reg_word(0x8003, x, y),
        Instruction::AddWithCarry(x, y) => two_reg_word(0x8004, x, y),
        Instruction::Sub(x, y) => two_reg_word(0x8005, x, y),
        Instruction::ShiftRight(x) => reg_word(0x8006, x, 0),
        Instruction::SubN(x, y) => two_reg_word(0x8007, x, y),
        Instruction::ShiftLeft(x) => reg_word(0x800E, x, 0),
        Instruction::LoadMemoryRegister(a) => addr_word(0xA000, a),
        Instruction::JumpPlusV0(a) => addr_word(0xB000, a),
        Instruction::LoadRandomWithMask(x, k) => reg_word(0xC000, x, k as int),
        Instruction::Draw(x, y, n) => {
            if x > 15 {
                Err(EncodingError::RegisterTooBig(x))
            } else if y > 15 {
                Err(EncodingError::RegisterTooBig(y))
            } else if n > 15 {
                Err(EncodingError::NibbleTooBig(n))
            } else {
                Ok((0xD000 + x * 0x100 + y * 0x10 + n) as u16)
            }
        },
        Instruction::SkipIfKeyPressed(x) => reg_word(0xE000, x, 0x9E),
        Instruction::SkipIfKeyNotPressed(x) => reg_word(0xE000, x, 0xA1),
        Instruction::LoadFromDelayTimer(x) => reg_word(0xF000, x, 0x07),
        Instruction::WaitForKeyPress(x) => reg_word(0xF000, x, 0x0A),
        Instruction::LoadIntoDelayTimer(x) => reg_word(0xF000, x, 0x15),
        Instruction::LoadIntoSoundTimer(x) => reg_word(0xF000, x, 0x18),
        Instruction::AddToMemoryRegister(x) => reg_word(0xF000, x, 0x1E),
        Instruction::LoadDigitAddress(x) => reg_word(0xF000, x, 0x29),
        Instruction::StoreBcdInMemory(x) => reg_word(0xF000, x, 0x33),
        Instruction::StoreRegistersInMemory(x) => reg_word(0xF000, x, 0x55),
        Instruction::ReadRegistersFromMemory(x) => reg_word(0xF000, x, 0x65),
    }
}

/// The high nibble of a word: its opcode family.
pub open spec fn nib1(w: u16) -> int {
    w as int / 0x1000
}

/// The second nibble of a word: most often the register `x`.
pub open spec fn nib2(w: u16) -> int {
    (w as int / 0x100) % 0x10
}

/// The third nibble of a word: most often the register `y`.
pub open spec fn nib3(w: u16) -> int {
    (w as int / 0x10) % 0x10
}

/// The low nibble of a word.
pub open spec fn nib4(w: u16) -> int {
    w as int % 0x10
}

/// The instruction that a word decodes to, or the error if no pattern matches.
pub open spec fn spec_decode(w: u16) -> Result<Instruction, DecodingError> {
    let x = nib2(w) as u8;
    let y = nib3(w) as u8;
    let n = nib4(w);
    let kk = (w as int % 0x100) as u8;
    let addr = (w as int % 0x1000) as u16;
    let err = Err(DecodingError::UnrecognisedBytecode(w));
    if nib1(w) == 0x0 {
        if w == 0x00E0 {
            Ok(Instruction::ClearScreen)
        } else if w == 0x00EE {
            Ok(Instruction::Return)
        } else {
            err
        }
    } else if nib1(w) == 0x1 {
        Ok(Instruction::Jump(addr))
    } else if nib1(w) == 0x2 {
        Ok(Instruction::Call(addr))
    } else if nib1(w) == 0x3 {
        Ok(Instruction::SkipIfEqual(x, Operand::Literal(kk)))
    } else if nib1(w) == 0x4 {
        Ok(Instruction::SkipIfNotEqual(x, Operand::Literal(kk)))
    } else if nib1(w) == 0x5 {
        if n == 0 {
            Ok(Instruction::SkipIfEqual(x, Operand::Register(y)))
        } else {
            err
        }
    } else if nib1(w) == 0x6 {
        Ok(Instruction::LoadRegister(x, Operand::Literal(kk)))
    } else if nib1(w) == 0x7 {
        Ok(Instruction::AddNoCarry(x, kk))
    } else if nib1(w) == 0x8 {
        if n == 0x0 {
            Ok(Instruction::LoadRegister(x, Operand::Register(y)))
        } else if n == 0x1 {
            Ok(Instruction::Or(x, y))
        } else if n == 0x2 {
            Ok(Instruction::And(x, y))
        } else if n == 0x3 {
            Ok(Instruction::Xor(x, y))
        } else if n == 0x4 {
            Ok(Instruction::AddWithCarry(x, y))
        } else if n == 0x5 {
            Ok(Instruction::Sub(x, y))
        } else if n == 0x6 {
            Ok(Instruction::ShiftRight(x))
        } else if n == 0x7 {
            Ok(Instruction::SubN(x, y))
        } else if n == 0xE {
            Ok(Instruction::ShiftLeft(x))
        } else {
            err
        }
    } else if nib1(w) == 0x9 {
        if n == 0 {
            Ok(Instruction::SkipIfNotEqual(x, Operand::Register(y)))
        } else {
            err
        }
    } else if nib1(w) == 0xA {
        Ok(Instruction::LoadMemoryRegister(addr))
    } else if nib1(w) == 0xB {
        Ok(Instruction::JumpPlusV0(addr))
    } else if nib1(w) == 0xC {
        Ok(Instruction::LoadRandomWithMask(x, kk))
    } else if nib1(w) == 0xD {
        Ok(Instruction::Draw(x, y, n as u8))
    } else if nib1(w) == 0xE {
        if kk == 0x9E {
            Ok(Instruction::SkipIfKeyPressed(x))
        } else if kk == 0xA1 {
            Ok(Instruction::SkipIfKeyNotPressed(x))
        } else {
            err
        }
    } else {
        if kk == 0x07 {
            Ok(Instruction::LoadFromDelayTimer(x))
        } else if kk == 0x0A {
            Ok(Instruction::WaitForKeyPress(x))
        } else if kk == 0x15 {
            Ok(Instruction::LoadIntoDelayTimer(x))
        } else if kk == 0x18 {
            Ok(Instruction::LoadIntoSoundTimer(x))
        } else if kk == 0x1E {
            Ok(Instruction::AddToMemoryRegister(x))
        } else if kk == 0x29 {
            Ok(Instruction::LoadDigitAddress(x))
        } else if kk == 0x33 {
            Ok(Instruction::StoreBcdInMemory(x))
        } else if kk == 0x55 {
            Ok(Instruction::StoreRegistersInMemory(x))
        } else if kk == 0x65 {
            Ok(Instruction::ReadRegistersFromMemory(x))
        } else {
            err
        }
    }
}

/// The big-endian word held by a pair of bytes.
pub open spec fn word_of(b: [u8; 2]) -> u16 {
    (b[0] as int * 0x100 + b[1] as int) as u16
}


/// Return an error if the address does not fit in 12 bits.
fn assert_addr(addr: u16) -> (r: Result<(), EncodingError>)
    ensures
        r is Ok <==> addr < 0x1000,
        r is Err ==> r->Err_0 == EncodingError::AddressTooBig(addr),
{
    if addr < 0x1000 {
        Ok(())
    } else {
        Err(EncodingError::AddressTooBig(addr))
    }
}

/// Return an error if the register number is larger than 15.
fn assert_reg(reg: u8) -> (r: Result<(), EncodingError>)
    ensures
        r is Ok <==> reg <= 15,
        r is Err ==> r->Err_0 == EncodingError::RegisterTooBig(reg),
{
    if reg > 15 {
        Err(EncodingError::RegisterTooBig(reg))
    } else {
        Ok(())
    }
}

fn addr_word_exec(base: u16, a: u16) -> (r: Result<u16, EncodingError>)
    requires
        base % 0x1000 == 0,
    ensures
        r == addr_word(base as int, a),
{
    match assert_addr(a) {
        Ok(()) => Ok(base + a),
        Err(e) => Err(e),
    }
}

fn reg_word_exec(base: u16, x: u8, low: u16) -> (r: Result<u16, EncodingError>)
    requires
        base as int + 0xF00 + low <= 0xFFFF,
    ensures
        r == reg_word(base as int, x, low as int),
{
    match assert_reg(x) {
        Ok(()) => Ok(base + x as u16 * 0x100 + low),
        Err(e) => Err(e),
    }
}

fn two_reg_word_exec(base: u16, x: u8, y: u8) -> (r: Result<u16, EncodingError>)
    requires
        base as int + 0xFF0 <= 0xFFFF,
    ensures
        r == two_reg_word(base as int, x, y),
{
    match assert_reg(x) {
        Ok(()) => match assert_reg(y) {
            Ok(()) => Ok(base + x as u16 * 0x100 + y as u16 * 0x10),
            Err(e) => Err(e),
        },
        Err(e) => Err(e),
    }
}

/// Encode an instruction into a pair of bytes, big-endian.
pub fn encode(instruction: Instruction) -> (r: Result<[u8; 2], EncodingError>)
    ensures
        match spec_encode(instruction) {
            Ok(w) => r is Ok && word_of(r->Ok_0) == w,
            Err(e) => r == Err::<[u8; 2], EncodingError>(e),
        },
{
    let word = match instruction {
        Instruction::Nop => Ok(0x0000u16),
        Instruction::ClearScreen => Ok(0x00E0u16),
        Instruction::Return => Ok(0x00EEu16),
        Instruction::Jump(a) => addr_word_exec(0x1000, a),
        Instruction::Call(a) => addr_word_exec(0x2000, a),
        Instruction::SkipIfEqual(x, Operand::Register(y)) => two_reg_word_exec(0x5000, x, y),
        Instruction::SkipIfEqual(x, Operand::Literal(k)) => reg_word_exec(0x3000, x, k as u16),
        Instruction::SkipIfNotEqual(x, Operand::Register(y)) => two_reg_word_exec(0x9000, x, y),
        Instruction::SkipIfNotEqual(x, Operand::Literal(k)) => reg_word_exec(0x4000, x, k as u16),
        Instruction::LoadRegister(x, Operand::Register(y)) => two_reg_word_exec(0x8000, x, y),
        Instruction::LoadRegister(x, Operand::Literal(k)) => reg_word_exec(0x6000, x, k as u16),
        Instruction::AddNoCarry(x, k) => reg_word_exec(0x7000, x, k as u16),
        Instruction::Or(x, y) => two_reg_word_exec(0x8001, x, y),
        Instruction::And(x, y) => two_reg_word_exec(0x8002, x, y),
        Instruction::Xor(x, y) => two_reg_word_exec(0x8003, x, y),
        Instruction::AddWithCarry(x, y) => two_reg_word_exec(0x8004, x, y),
        Instruction::Sub(x, y) => two_reg_word_exec(0x8005, x, y),
        Instruction::ShiftRight(x) => reg_word_exec(0x8006, x, 0),
        Instruction::SubN(x, y) => two_reg_word_exec(0x8007, x, y),
        Instruction::ShiftLeft(x) => reg_word_exec(0x800E, x, 0),
        Instruction::LoadMemoryRegister(a) => addr_word_exec(0xA000, a),
        Instruction::JumpPlusV0(a) => addr_word_exec(0xB000, a),
        Instruction::LoadRandomWithMask(x, k) => reg_word_exec(0xC000, x, k as u16),
        Instruction::Draw(x, y, n) => {
            match two_reg_word_exec(0xD000, x, y) {
                Ok(w) => {
                    if n > 15 {
                        Err(EncodingError::NibbleTooBig(n))
                    } else {
                        Ok(w + n as u16)
                    }
                },
                Err(e) => Err(e),
            }
        },
        Instruction::SkipIfKeyPressed(x) => reg_word_exec(0xE000, x, 0x9E),
        Instruction::SkipIfKeyNotPressed(x) => reg_word_exec(0xE000, x, 0xA1),
        Instruction::LoadFromDelayTimer(x) => reg_word_exec(0xF000, x, 0x07),
        Instruction::WaitForKeyPress(x) => reg_word_exec(0xF000, x, 0x0A),
        Instruction::LoadIntoDelayTimer(x) => reg_word_exec(0xF000, x, 0x15),
        Instruction::LoadIntoSoundTimer(x) => reg_word_exec(0xF000, x, 0x18),
        Instruction::AddToMemoryRegister(x) => reg_word_exec(0xF000, x, 0x1E),
        Instruction::LoadDigitAddress(x) => reg_word_exec(0xF000, x, 0x29),
        Instruction::StoreBcdInMemory(x) => reg_word_exec(0xF000, x, 0x33),
        Instruction::StoreRegistersInMemory(x) => reg_word_exec(0xF000, x, 0x55),
        Instruction::ReadRegistersFromMemory(x) => reg_word_exec(0xF000, x, 0x65),
    };
    match word {
        Ok(w) => Ok([(w / 0x100) as u8, (w % 0x100) as u8]),
        Err(e) => Err(e),
    }
}

/// Decode a pair of bytes, big-endian, into an instruction.
pub fn decode(bytes: [u8; 2]) -> (r: Result<Instruction, DecodingError>)
    ensures
        r == spec_decode(word_of(bytes)),
{
    let w: u16 = bytes[0] as u16 * 0x100 + bytes[1] as u16;
    let n1: u16 = w / 0x1000;
    let x: u8 = ((w / 0x100) % 0x10) as u8;
    let y: u8 = ((w / 0x10) % 0x10) as u8;
    let n: u16 = w % 0x10;
    let kk: u8 = (w % 0x100) as u8;
    let addr: u16 = w % 0x1000;
    let err = Err(DecodingError::UnrecognisedBytecode(w));
    if n1 == 0x0 {
        if w == 0x00E0 {
            Ok(Instruction::ClearScreen)
        } else if w == 0x00EE {
            Ok(Instruction::Return)
        } else {
            err
        }
    } else if n1 == 0x1 {
        Ok(Instruction::Jump(addr))
    } else if n1 == 0x2 {
        Ok(Instruction::Call(addr))
    } else if n1 == 0x3 {
        Ok(Instruction::SkipIfEqual(x, Operand::Literal(kk)))
    } else if n1 == 0x4 {
        Ok(Instruction::SkipIfNotEqual(x, Operand::Literal(kk)))
    } else if n1 == 0x5 {
        if n == 0 {
            Ok(Instruction::SkipIfEqual(x, Operand::Register(y)))
        } else {
            err
        }
    } else if n1 == 0x6 {
        Ok(Instruction::LoadRegister(x, Operand::Literal(kk)))
    } else if n1 == 0x7 {
        Ok(Instruction::AddNoCarry(x, kk))
    } else if n1 == 0x8 {
        if n == 0x0 {
            Ok(Instruction::LoadRegister(x, Operand::Register(y)))
        } else if n == 0x1 {
            Ok(Instruction::Or(x, y))
        } else if n == 0x2 {
            Ok(Instruction::And(x, y))
        } else if n == 0x3 {
            Ok(Instruction::Xor(x, y))
        } else if n == 0x4 {
            Ok(Instruction::AddWithCarry(x, y))
        } else if n == 0x5 {
            Ok(Instruction::Sub(x, y))
        } else if n == 0x6 {
            Ok(Instruction::ShiftRight(x))
        } else if n == 0x7 {
            Ok(Instruction::SubN(x, y))
        } else if n == 0xE {
            Ok(Instruction::ShiftLeft(x))
        } else {
            err
        }
    } else if n1 == 0x9 {
        if n == 0 {
            Ok(Instruction::SkipIfNotEqual(x, Operand::Register(y)))
        } else {
            err
        }
    } else if n1 == 0xA {
        Ok(Instruction::LoadMemoryRegister(addr))
    } else if n1 == 0xB {
        Ok(Instruction::JumpPlusV0(addr))
    } else if n1 == 0xC {
        Ok(Instruction::LoadRandomWithMask(x, kk))
    } else if n1 == 0xD {
        Ok(Instruction::Draw(x, y, n as u8))
    } else if n1 == 0xE {
        if kk == 0x9E {
            Ok(Instruction::SkipIfKeyPressed(x))
        } else if kk == 0xA1 {
            Ok(Instruction::SkipIfKeyNotPressed(x))
        } else {
            err
        }
    } else {
        if kk == 0x07 {
            Ok(Instruction::LoadFromDelayTimer(x))
        } else if kk == 0x0A {
            Ok(Instruction::WaitForKeyPress(x))
        } else if kk == 0x15 {
            Ok(Instruction::LoadIntoDelayTimer(x))
        } else if kk == 0x18 {
            Ok(Instruction::LoadIntoSoundTimer(x))
        } else if kk == 0x1E {
            Ok(Instruction::AddToMemoryRegister(x))
        } else if kk == 0x29 {
            Ok(Instruction::LoadDigitAddress(x))
        } else if kk == 0x33 {
            Ok(Instruction::StoreBcdInMemory(x))
        } else if kk == 0x55 {
            Ok(Instruction::StoreRegistersInMemory(x))
        } else if kk == 0x65 {
            Ok(Instruction::ReadRegistersFromMemory(x))
        } else {
            err
        }
    }
}


/// The nibbles of a word assembled from four nibbles.
proof fn lemma_word_nibbles(a: int, b: int, c: int, d: int)
    requires
        0 <= a < 16,
        0 <= b < 16,
        0 <= c < 16,
        0 <= d < 16,
    ensures
        ({
            let w = (a * 0x1000 + b * 0x100 + c * 0x10 + d) as u16;
            &&& w as int == a * 0x1000 + b * 0x100 + c * 0x10 + d
            &&& nib1(w) == a
            &&& nib2(w) == b
            &&& nib3(w) == c
            &&& nib4(w) == d
            &&& w as int % 0x100 == c * 0x10 + d
            &&& w as int % 0x1000 == b * 0x100 + c * 0x10 + d
        }),
{
    let w = a * 0x1000 + b * 0x100 + c * 0x10 + d;
    lemma_fundamental_div_mod_converse(w, 0x1000, a, b * 0x100 + c * 0x10 + d);
    lemma_fundamental_div_mod_converse(w, 0x100, a * 0x10 + b, c * 0x10 + d);
    lemma_fundamental_div_mod_converse(a * 0x10 + b, 0x10, a, b);
    lemma_fundamental_div_mod_converse(w, 0x10, a * 0x100 + b * 0x10 + c, d);
    lemma_fundamental_div_mod_converse(a * 0x100 + b * 0x10 + c, 0x10, a * 0x10 + b, c);
}

/// The nibbles of a word made of an opcode nibble, a register and a byte.
proof fn lemma_byte_nibbles(a: int, x: int, k: int)
    requires
        0 <= a < 16,
        0 <= x < 16,
        0 <= k < 0x100,
    ensures
        ({
            let w = (a * 0x1000 + x * 0x100 + k) as u16;
            &&& w as int == a * 0x1000 + x * 0x100 + k
            &&& nib1(w) == a
            &&& nib2(w) == x
            &&& w as int % 0x100 == k
        }),
{
    lemma_fundamental_div_mod(k, 0x10);
    lemma_word_nibbles(a, x, k / 0x10, k % 0x10);
}

/// The nibbles of a word made of an opcode nibble and a 12-bit address.
proof fn lemma_addr_nibbles(a: int, addr: int)
    requires
        0 <= a < 16,
        0 <= addr < 0x1000,
    ensures
        addr == (addr / 0x100) * 0x100 + ((addr % 0x100) / 0x10) * 0x10 + addr % 0x10,
        0 <= addr / 0x100 < 16,
        0 <= (addr % 0x100) / 0x10 < 16,
        0 <= addr % 0x10 < 16,
{
    lemma_fundamental_div_mod(addr, 0x100);
    lemma_fundamental_div_mod(addr % 0x100, 0x10);
    lemma_mod_mod(addr, 0x100, 0x10);
    assert(0x100 * 0x10 == 0x1000) by (nonlinear_arith);
    lemma_word_nibbles(a, addr / 0x100, (addr % 0x100) / 0x10, addr % 0x10);
}

/// A word is the sum of its nibbles, shifted into place.
proof fn lemma_word_split(w: u16)
    ensures
        w as int == nib1(w) * 0x1000 + nib2(w) * 0x100 + nib3(w) * 0x10 + nib4(w),
        0 <= nib1(w) < 16,
        0 <= nib2(w) < 16,
        0 <= nib3(w) < 16,
        0 <= nib4(w) < 16,
        w as int % 0x100 == nib3(w) * 0x10 + nib4(w),
        w as int % 0x1000 == nib2(w) * 0x100 + nib3(w) * 0x10 + nib4(w),
{
    lemma_word_nibbles(
        w as int / 0x1000,
        (w as int / 0x100) % 0x10,
        (w as int / 0x10) % 0x10,
        w as int % 0x10,
    );
    assert(w as int == nib1(w) * 0x1000 + nib2(w) * 0x100 + nib3(w) * 0x10 + nib4(w)) by {
        lemma_fundamental_div_mod(w as int, 0x10);
        lemma_fundamental_div_mod(w as int / 0x10, 0x10);
        lemma_fundamental_div_mod(w as int / 0x100, 0x10);
        lemma_div_denominator(w as int, 0x10, 0x10);
        lemma_div_denominator(w as int, 0x100, 0x10);
        assert(0x10 * 0x10 == 0x100) by (nonlinear_arith);
        assert(0x100 * 0x10 == 0x1000) by (nonlinear_arith);
    }
}

/// Whether a word is in the canonical form of its instruction: the shift
/// instructions `8xy6` and `8xyE` ignore `y`, and only `y = 0` is canonical.
pub open spec fn is_canonical_word(w: u16) -> bool {
    !(nib1(w) == 0x8 && (nib4(w) == 0x6 || nib4(w) == 0xE) && nib3(w) != 0)
}

/// Round trip of the instructions whose operands are an address.
#[verifier::spinoff_prover]
proof fn lemma_decode_encode_addr(i: Instruction)
    requires
        i is Jump
            || i is Call
            || i is LoadMemoryRegister
            || i is JumpPlusV0,
        spec_encode(i) is Ok,
    ensures
        spec_decode(spec_encode(i)->Ok_0) == Ok::<Instruction, DecodingError>(i),
{
    match i {
        Instruction::Jump(a) => {
            lemma_addr_nibbles(1, a as int);
        },
        Instruction::Call(a) => {
            lemma_addr_nibbles(2, a as int);
        },
        Instruction::LoadMemoryRegister(a) => {
            lemma_addr_nibbles(0xA, a as int);
        },
        Instruction::JumpPlusV0(a) => {
            lemma_addr_nibbles(0xB, a as int);
        },
        _ => {},
    }
}

/// Round trip of the instructions whose operands are a register and a byte.
#[verifier::spinoff_prover]
proof fn lemma_decode_encode_byte(i: Instruction)
    requires
        (i is SkipIfEqual && i->SkipIfEqual_1 is Literal)
            || (i is SkipIfNotEqual && i->SkipIfNotEqual_1 is Literal)
            || (i is LoadRegister && i->LoadRegister_1 is Literal)
            || i is AddNoCarry
            || i is LoadRandomWithMask,
        spec_encode(i) is Ok,
    ensures
        spec_decode(spec_encode(i)->Ok_0) == Ok::<Instruction, DecodingError>(i),
{
    match i {
        Instruction::SkipIfEqual(x, Operand::Literal(k)) => {
            lemma_byte_nibbles(3, x as int, k as int);
        },
        Instruction::SkipIfNotEqual(x, Operand::Literal(k)) => {
            lemma_byte_nibbles(4, x as int, k as int);
        },
        Instruction::LoadRegister(x, Operand::Literal(k)) => {
            lemma_byte_nibbles(6, x as int, k as int);
        },
        Instruction::AddNoCarry(x, k) => {
            lemma_byte_nibbles(7, x as int, k as int);
        },
        Instruction::LoadRandomWithMask(x, k) => {
            lemma_byte_nibbles(0xC, x as int, k as int);
        },
        _ => {},
    }
}

/// Round trip of the instructions whose operands are two registers.
#[verifier::spinoff_prover]
proof fn lemma_decode_encode_pair(i: Instruction)
    requires
        (i is SkipIfEqual && i->SkipIfEqual_1 is Register)
            || (i is SkipIfNotEqual && i->SkipIfNotEqual_1 is Register)
            || (i is LoadRegister && i->LoadRegister_1 is Register)
            || i is Or
            || i is And
            || i is Xor
            || i is AddWithCarry
            || i is Sub
            || i is SubN
            || i is Draw,
        spec_encode(i) is Ok,
    ensures
        spec_decode(spec_encode(i)->Ok_0) == Ok::<Instruction, DecodingError>(i),
{
    match i {
        Instruction::SkipIfEqual(x, Operand::Register(y)) => {
            lemma_word_nibbles(5, x as int, y as int, 0);
        },
        Instruction::SkipIfNotEqual(x, Operand::Register(y)) => {
            lemma_word_nibbles(9, x as int, y as int, 0);
        },
        Instruction::LoadRegister(x, Operand::Register(y)) => {
            lemma_word_nibbles(8, x as int, y as int, 0);
        },
        Instruction::Or(x, y) => {
            lemma_word_nibbles(8, x as int, y as int, 1);
        },
        Instruction::And(x, y) => {
            lemma_word_nibbles(8, x as int, y as int, 2);
        },
        Instruction::Xor(x, y) => {
            lemma_word_nibbles(8, x as int, y as int, 3);
        },
        Instruction::AddWithCarry(x, y) => {
            lemma_word_nibbles(8, x as int, y as int, 4);
        },
        Instruction::Sub(x, y) => {
            lemma_word_nibbles(8, x as int, y as int, 5);
        },
        Instruction::SubN(x, y) => {
            lemma_word_nibbles(8, x as int, y as int, 7);
        },
        Instruction::Draw(x, y, n) => {
            lemma_word_nibbles(0xD, x as int, y as int, n as int);
        },
        _ => {},
    }
}

/// Round trip of the instructions whose operands are at most one register.
#[verifier::spinoff_prover]
proof fn lemma_decode_encode_single(i: Instruction)
    requires
        i is ClearScreen
            || i is Return
            || i is ShiftRight
            || i is ShiftLeft
            || i is SkipIfKeyPressed
            || i is SkipIfKeyNotPressed
            || i is LoadFromDelayTimer
            || i is WaitForKeyPress
            || i is LoadIntoDelayTimer
            || i is LoadIntoSoundTimer
            || i is AddToMemoryRegister
            || i is LoadDigitAddress
            || i is StoreBcdInMemory
            || i is StoreRegistersInMemory
            || i is ReadRegistersFromMemory,
        spec_encode(i) is Ok,
    ensures
        spec_decode(spec_encode(i)->Ok_0) == Ok::<Instruction, DecodingError>(i),
{
    match i {
        Instruction::ClearScreen => {
            lemma_word_nibbles(0, 0, 0xE, 0);
        },
        Instruction::Return => {
            lemma_word_nibbles(0, 0, 0xE, 0xE);
        },
        Instruction::ShiftRight(x) => {
            lemma_word_nibbles(8, x as int, 0, 6);
        },
        Instruction::ShiftLeft(x) => {
            lemma_word_nibbles(8, x as int, 0, 0xE);
        },
        Instruction::SkipIfKeyPressed(x) => {
            lemma_word_nibbles(0xE, x as int, 0x9, 0xE);
        },
        Instruction::SkipIfKeyNotPressed(x) => {
            lemma_word_nibbles(0xE, x as int, 0xA, 0x1);
        },
        Instruction::LoadFromDelayTimer(x) => {
            lemma_word_nibbles(0xF, x as int, 0x0, 0x7);
        },
        Instruction::WaitForKeyPress(x) => {
            lemma_word_nibbles(0xF, x as int, 0x0, 0xA);
        },
        Instruction::LoadIntoDelayTimer(x) => {
            lemma_word_nibbles(0xF, x as int, 0x1, 0x5);
        },
        Instruction::LoadIntoSoundTimer(x) => {
            lemma_word_nibbles(0xF, x as int, 0x1, 0x8);
        },
        Instruction::AddToMemoryRegister(x) => {
            lemma_word_nibbles(0xF, x as int, 0x1, 0xE);
        },
        Instruction::LoadDigitAddress(x) => {
            lemma_word_nibbles(0xF, x as int, 0x2, 0x9);
        },
        Instruction::StoreBcdInMemory(x) => {
            lemma_word_nibbles(0xF, x as int, 0x3, 0x3);
        },
        Instruction::StoreRegistersInMemory(x) => {
            lemma_word_nibbles(0xF, x as int, 0x5, 0x5);
        },
        Instruction::ReadRegistersFromMemory(x) => {
            lemma_word_nibbles(0xF, x as int, 0x6, 0x5);
        },
        _ => {},
    }
}

/// Decoding inverts encoding: every instruction but `Nop` that encodes to a
/// word decodes back from that word to itself.
pub proof fn lemma_decode_encode(i: Instruction)
    requires
        i != Instruction::Nop,
        spec_encode(i) is Ok,
    ensures
        spec_decode(spec_encode(i)->Ok_0) == Ok::<Instruction, DecodingError>(i),
{
    if i is Jump || i is Call || i is LoadMemoryRegister || i is JumpPlusV0 {
        lemma_decode_encode_addr(i);
    } else if i is AddNoCarry || i is LoadRandomWithMask || (i is SkipIfEqual && i->SkipIfEqual_1 is Literal)
        || (i is SkipIfNotEqual && i->SkipIfNotEqual_1 is Literal) || (i is LoadRegister && i->LoadRegister_1 is Literal) {
        lemma_decode_encode_byte(i);
    } else if i is ClearScreen || i is Return || i is ShiftRight || i is ShiftLeft || i is SkipIfKeyPressed
        || i is SkipIfKeyNotPressed || i is LoadFromDelayTimer || i is WaitForKeyPress || i is LoadIntoDelayTimer
        || i is LoadIntoSoundTimer || i is AddToMemoryRegister || i is LoadDigitAddress || i is StoreBcdInMemory
        || i is StoreRegistersInMemory || i is ReadRegistersFromMemory {
        lemma_decode_encode_single(i);
    } else {
        lemma_decode_encode_pair(i);
    }
}

/// Encoding inverts decoding on canonical words: a canonical word that decodes
/// to an instruction is the word that the instruction encodes to.
pub proof fn lemma_encode_decode(w: u16)
    requires
        spec_decode(w) is Ok,
        is_canonical_word(w),
    ensures
        spec_encode(spec_decode(w)->Ok_0) == Ok::<u16, EncodingError>(w),
{
    lemma_word_split(w);
}


/// The canonical form of a word: for the shift instructions `8xy6` and
/// `8xyE`, which ignore `y`, the word with `y` cleared (`w & 0xFF0F`); any
/// other word is its own canonical form.
pub open spec fn canonical_word(w: u16) -> u16 {
    if nib1(w) == 0x8 && (nib4(w) == 0x6 || nib4(w) == 0xE) {
        (w as int - nib3(w) * 0x10) as u16
    } else {
        w
    }
}

/// Clearing the third nibble of a word with a mask subtracts it.
proof fn lemma_clear_third_nibble(w: u16)
    ensures
        (w & 0xFF0F) as int == w as int - nib3(w) * 0x10,
{
    let y: u16 = (w / 16) % 16;
    assert(w & 0xFF0F == w - ((w / 16) % 16) * 16) by (bit_vector);
    assert(((w / 16) % 16) * 16 <= w) by (bit_vector);
    assert(y as int == nib3(w));
}

/// The encoder never yields a word whose decoding differs: every decoded
/// instruction encodes to the canonical form of its word, which decodes to
/// the same instruction.
pub proof fn lemma_encode_decode_canonical(w: u16)
    requires
        spec_decode(w) is Ok,
    ensures
        spec_encode(spec_decode(w)->Ok_0) == Ok::<u16, EncodingError>(canonical_word(w)),
        spec_decode(canonical_word(w)) == spec_decode(w),
        canonical_word(w) == (if nib1(w) == 0x8 && (nib4(w) == 0x6 || nib4(w) == 0xE) { w & 0xFF0F } else { w }),
{
    lemma_word_split(w);
    lemma_clear_third_nibble(w);
    if nib1(w) == 0x8 && (nib4(w) == 0x6 || nib4(w) == 0xE) {
        lemma_word_nibbles(8, nib2(w), 0, nib4(w));
    }
}

/// A decoded instruction can be encoded again: its registers, addresses and
/// nibbles are in range.
pub proof fn lemma_decoded_in_range(w: u16)
    requires
        spec_decode(w) is Ok,
    ensures
        spec_encode(spec_decode(w)->Ok_0) is Ok,
{
    lemma_word_split(w);
}

} // verus!
