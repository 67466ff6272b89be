//! The CHIP-8 virtual machine: memory, registers, timers and display, advanced
//! one instruction per step.

use crate::instruction::{
    decode, lemma_decoded_in_range, spec_decode, spec_encode, word_of, DecodingError, Instruction, Operand,
};
use vstd::prelude::*;

verus! {

/// The number of bytes of memory.
pub const MEMORY_SIZE: usize = 4096;

/// The address at which the ROM is loaded, and where execution starts.
pub const PROGRAM_START: u16 = 0x200;

/// The address of the built-in hexadecimal font: 16 sprites of 5 bytes each.
pub const FONT_ADDRESS_START: u16 = 0x050;

/// The number of nanoseconds between two decrements of the timers (60 Hz).
pub const TIMER_PERIOD_NANOS: u64 = 16_666_667;

/// The width of the display in pixels.
pub const DISPLAY_WIDTH: usize = 64;

/// The height of the display in pixels.
pub const DISPLAY_HEIGHT: usize = 32;

/// One pixel of the display.
#[derive(Clone, Copy, Debug, PartialEq, Eq, Structural)]
pub enum Pixel {
    Black,
    White,
}

/// The display: 32 rows of 64 pixels.
pub type Display = [[Pixel; 64]; 32];

/// Which of the 16 keys are pressed.
pub type Keys = [bool; 16];

impl Pixel {
    /// Exclusive or, with Black as 0 and White as 1.
    pub open spec fn spec_xor(self, other: Pixel) -> Pixel {
        if self == other {
            Pixel::Black
        } else {
            Pixel::White
        }
    }

    /// Exclusive or, with Black as 0 and White as 1.
    #[verifier::when_used_as_spec(spec_xor)]
    pub fn xor(self, other: Pixel) -> (r: Pixel)
        ensures
            r == self.spec_xor(other),
    {
        if self == other {
            Pixel::Black
        } else {
            Pixel::White
        }
    }

    /// And, with Black as 0 and White as 1: whether both are White.
    pub open spec fn spec_and(self, other: Pixel) -> bool {
        self == Pixel::White && other == Pixel::White
    }

    /// And, with Black as 0 and White as 1: whether both are White.
    #[verifier::when_used_as_spec(spec_and)]
    pub fn and(self, other: Pixel) -> (r: bool)
        ensures
            r == self.spec_and(other),
    {
        self == Pixel::White && other == Pixel::White
    }
}

/// The bytes of the hexadecimal font, five per digit from 0 to F.
pub open spec fn font_spec() -> Seq<u8> {
    seq![
        0xF0, 0x90, 0x90, 0x90, 0xF0, 0x20, 0x60, 0x20, 0x20, 0x70,
        0xF0, 0x10, 0xF0, 0x80, 0xF0, 0xF0, 0x10, 0xF0, 0x10, 0xF0,
        0x90, 0x90, 0xF0, 0x10, 0x10, 0xF0, 0x80, 0xF0, 0x10, 0xF0,
        0xF0, 0x80, 0xF0, 0x90, 0xF0, 0xF0, 0x10, 0x20, 0x40, 0x40,
        0xF0, 0x90, 0xF0, 0x90, 0xF0, 0xF0, 0x90, 0xF0, 0x10, 0xF0,
        0xF0, 0x90, 0xF0, 0x90, 0x90, 0xE0, 0x90, 0xE0, 0x90, 0xE0,
        0xF0, 0x80, 0x80, 0x80, 0xF0, 0xE0, 0x90, 0x90, 0x90, 0xE0,
        0xF0, 0x80, 0xF0, 0x80, 0xF0, 0xF0, 0x80, 0xF0, 0x80, 0x80,
    ]
}

/// The bytes of the hexadecimal font, five per digit from 0 to F.
fn font() -> (r: Vec<u8>)
    ensures
        r@ == font_spec(),
{
    let r = vec![
        0xF0, 0x90, 0x90, 0x90, 0xF0, 0x20, 0x60, 0x20, 0x20, 0x70,
        0xF0, 0x10, 0xF0, 0x80, 0xF0, 0xF0, 0x10, 0xF0, 0x10, 0xF0,
        0x90, 0x90, 0xF0, 0x10, 0x10, 0xF0, 0x80, 0xF0, 0x10, 0xF0,
        0xF0, 0x80, 0xF0, 0x90, 0xF0, 0xF0, 0x10, 0x20, 0x40, 0x40,
        0xF0, 0x90, 0xF0, 0x90, 0xF0, 0xF0, 0x90, 0xF0, 0x10, 0xF0,
        0xF0, 0x90, 0xF0, 0x90, 0x90, 0xE0, 0x90, 0xE0, 0x90, 0xE0,
        0xF0, 0x80, 0x80, 0x80, 0xF0, 0xE0, 0x90, 0x90, 0x90, 0xE0,
        0xF0, 0x80, 0xF0, 0x80, 0xF0, 0xF0, 0x80, 0xF0, 0x80, 0x80,
    ];
    assert(r@ =~= font_spec());
    r
}

/// The memory image of a ROM: the font at its address, the ROM at `0x200`,
/// and zeros elsewhere.
pub open spec fn initial_memory(rom: Seq<u8>) -> Seq<u8> {
    Seq::new(
        MEMORY_SIZE as nat,
        |a: int|
            if FONT_ADDRESS_START as int <= a < FONT_ADDRESS_START as int + 80 {
                font_spec()[a - FONT_ADDRESS_START as int]
            } else if PROGRAM_START as int <= a < PROGRAM_START as int + rom.len() {
                rom[a - PROGRAM_START as int]
            } else {
                0u8
            },
    )
}

/// Initialize a 4 KiB block of memory with the font and the given ROM loaded
/// at address `0x200`.
pub fn init_memory(rom: &[u8]) -> (mem: [u8; 4096])
    requires
        PROGRAM_START as int + rom@.len() <= MEMORY_SIZE,
    ensures
        mem@ == initial_memory(rom@),
{
    let mut mem = [0u8; 4096];
    let font = font();
    let mut i: usize = 0;
    while i < 80
        invariant
            i <= 80,
            font@ == font_spec(),
            forall|a: int| 0 <= a < MEMORY_SIZE ==> #[trigger] mem@[a] == (
                if FONT_ADDRESS_START as int <= a < FONT_ADDRESS_START as int + i {
                    font_spec()[a - FONT_ADDRESS_START as int]
                } else {
                    0u8
                }),
        decreases 80 - i,
    {
        mem[FONT_ADDRESS_START as usize + i] = font[i];
        i = i + 1;
    }
    let mut j: usize = 0;
    while j < rom.len()
        invariant
            PROGRAM_START as int + rom@.len() <= MEMORY_SIZE,
            j <= rom@.len(),
            forall|a: int| 0 <= a < MEMORY_SIZE ==> #[trigger] mem@[a] == (
                if FONT_ADDRESS_START as int <= a < FONT_ADDRESS_START as int + 80 {
                    font_spec()[a - FONT_ADDRESS_START as int]
                } else if PROGRAM_START as int <= a < PROGRAM_START as int + j {
                    rom@[a - PROGRAM_START as int]
                } else {
                    0u8
                }),
        decreases rom@.len() - j,
    {
        mem[PROGRAM_START as usize + j] = rom[j];
        j = j + 1;
    }
    assert(mem@ =~= initial_memory(rom@));
    mem
}


/// A simple CHIP-8 interpreter.
pub struct Chip8Interpreter {
    /// All the memory of the interpreter.
    pub memory: [u8; 4096],
    /// The stack of return addresses.
    pub stack: [u16; 16],
    /// The general purpose registers V0 to VF.
    pub v_registers: [u8; 16],
    /// The `I` register, holding a memory address.
    pub memory_register: u16,
    /// The delay timer (DT).
    pub delay_timer: u8,
    /// The sound timer (ST).
    pub sound_timer: u8,
    /// The address of the next instruction to execute.
    pub program_counter: u16,
    /// The number of return addresses on the stack.
    pub stack_pointer: u8,
    /// The current display.
    pub display: Display,
    /// The duration of one step, in nanoseconds.
    pub speed_nanos: u64,
    /// When the timers were last decremented, in nanoseconds on the host's clock.
    pub last_timer_decrement: u64,
    /// The register that the next key press goes into, while waiting for one.
    pub waiting_for_key_press: Option<u8>,
}

/// What a fault of the machine stopped on; the machine cannot go on from it.
#[derive(Clone, Copy, Debug, PartialEq, Eq, Structural)]
pub enum Fault {
    /// The program counter (given) leaves no room for a whole instruction.
    ProgramCounterOutOfRange(u16),
    /// The word fetched (first) at the address (second) is no instruction.
    UnrecognisedBytecode(u16, u16),
    /// A return with an empty stack.
    StackUnderflow,
    /// A call with a full stack.
    StackOverflow,
    /// An access beyond the end of memory, starting at the given address.
    MemoryOutOfRange(u16),
    /// A key instruction named a key (given) that does not exist.
    KeyOutOfRange(u8),
}

/// The state of the machine, as mathematical values.
pub struct MachineState {
    pub memory: Seq<u8>,
    pub stack: Seq<u16>,
    pub v: Seq<u8>,
    pub i: u16,
    pub dt: u8,
    pub st: u8,
    pub pc: u16,
    pub sp: u8,
    pub display: Seq<Seq<Pixel>>,
    pub speed: u64,
    pub last_tick: u64,
    pub waiting: Option<u8>,
}

impl View for Chip8Interpreter {
    type V = MachineState;

    open spec fn view(&self) -> MachineState {
        MachineState {
            memory: self.memory@,
            stack: self.stack@,
            v: self.v_registers@,
            i: self.memory_register,
            dt: self.delay_timer,
            st: self.sound_timer,
            pc: self.program_counter,
            sp: self.stack_pointer,
            display: Seq::new(32, |y: int| self.display[y]@),
            speed: self.speed_nanos,
            last_tick: self.last_timer_decrement,
            waiting: self.waiting_for_key_press,
        }
    }
}

/// A display with every pixel Black.
pub open spec fn blank_display() -> Seq<Seq<Pixel>> {
    Seq::new(32, |y: int| Seq::new(64, |x: int| Pixel::Black))
}

impl MachineState {
    /// The invariant of a running machine: the program counter is at most two
    /// bytes past the end of memory, the stack holds at most 16 addresses,
    /// all within memory, `I` holds a 12-bit address, and a register waiting
    /// for a key exists.
    pub open spec fn wf(self) -> bool {
        &&& self.memory.len() == MEMORY_SIZE
        &&& self.stack.len() == 16
        &&& self.v.len() == 16
        &&& self.display.len() == 32
        &&& forall|y: int| 0 <= y < 32 ==> (#[trigger] self.display[y]).len() == 64
        &&& self.pc < MEMORY_SIZE + 2
        &&& self.sp <= 16
        &&& forall|k: int| 0 <= k < 16 ==> (#[trigger] self.stack[k]) < MEMORY_SIZE
        &&& self.i < 0x1000
        &&& (self.waiting matches Some(x) ==> x < 16)
    }

    /// The value of an operand.
    pub open spec fn operand(self, o: Operand) -> u8 {
        match o {
            Operand::Register(y) => self.v[y as int],
            Operand::Literal(k) => k,
        }
    }

    /// The state with the program counter moved past one more instruction.
    pub open spec fn skip(self) -> MachineState {
        MachineState { pc: (self.pc + 2) as u16, ..self }
    }

    /// The state with register `x` set to `value`.
    pub open spec fn set_v(self, x: u8, value: u8) -> MachineState {
        MachineState { v: self.v.update(x as int, value), ..self }
    }
}

/// Bit `c` of a sprite row, counting from the most significant bit.
pub open spec fn sprite_bit(row: u8, c: int) -> bool {
    (row as int / col_divisor(c)) % 2 == 1
}

/// The power of two that selects bit `c` of a row, counting from the most
/// significant bit.
pub open spec fn col_divisor(c: int) -> int {
    if c <= 0 {
        128
    } else if c == 1 {
        64
    } else if c == 2 {
        32
    } else if c == 3 {
        16
    } else if c == 4 {
        8
    } else if c == 5 {
        4
    } else if c == 6 {
        2
    } else {
        1
    }
}

/// Whether the sprite of `Draw` with `n` rows at `(x0, y0)` covers the pixel
/// `(px, py)` with a set bit, clipped to the display.
pub open spec fn sprite_hits(s: MachineState, x0: int, y0: int, n: int, px: int, py: int) -> bool {
    &&& y0 <= py < y0 + n
    &&& py < 32
    &&& x0 <= px < x0 + 8
    &&& px < 64
    &&& sprite_bit(s.memory[s.i as int + (py - y0)], px - x0)
}

/// The state after `Draw(x, y, n)`: each covered pixel is flipped, and VF
/// tells whether a White pixel was erased.
pub open spec fn spec_draw(s: MachineState, x: u8, y: u8, n: u8) -> MachineState {
    let x0 = s.v[x as int] as int % 64;
    let y0 = s.v[y as int] as int % 32;
    let collision = exists|px: int, py: int|
        0 <= px < 64 && 0 <= py < 32 && #[trigger] sprite_hits(s, x0, y0, n as int, px, py)
            && s.display[py][px] == Pixel::White;
    MachineState {
        display: Seq::new(
            32,
            |py: int|
                Seq::new(
                    64,
                    |px: int|
                        if sprite_hits(s, x0, y0, n as int, px, py) {
                            s.display[py][px].spec_xor(Pixel::White)
                        } else {
                            s.display[py][px]
                        },
                ),
        ),
        v: s.v.update(15, if collision { 1u8 } else { 0u8 }),
        ..s
    }
}

/// Whether the sprite covers the pixel with a set bit, and the pixel comes
/// before column `c` of sprite row `r` in drawing order.
pub open spec fn hits_before(s: MachineState, x0: int, y0: int, n: int, px: int, py: int, r: int, c: int) -> bool {
    &&& sprite_hits(s, x0, y0, n, px, py)
    &&& (py - y0 < r || (py - y0 == r && px - x0 < c))
}

/// The number of sprite rows that `Draw` reads: it stops after reading the
/// first row that falls below the display.
pub open spec fn draw_rows_read(y0: int, n: int) -> int {
    if n < 33 - y0 {
        n
    } else {
        33 - y0
    }
}

/// The fault that executing an instruction in a state runs into, if any.
pub open spec fn execute_fault(s: MachineState, instr: Instruction) -> Option<Fault> {
    match instr {
        Instruction::Return => if s.sp == 0 { Some(Fault::StackUnderflow) } else { None },
        Instruction::Call(_) => if s.sp >= 16 { Some(Fault::StackOverflow) } else { None },
        Instruction::Draw(_, y, n) => {
            if s.i as int + draw_rows_read(s.v[y as int] as int % 32, n as int) > MEMORY_SIZE {
                Some(Fault::MemoryOutOfRange(s.i))
            } else {
                None
            }
        },
        Instruction::SkipIfKeyPressed(x) => if s.v[x as int] >= 16 { Some(Fault::KeyOutOfRange(s.v[x as int])) } else { None },
        Instruction::SkipIfKeyNotPressed(x) => if s.v[x as int] >= 16 { Some(Fault::KeyOutOfRange(s.v[x as int])) } else { None },
        Instruction::StoreBcdInMemory(_) => if s.i as int + 3 > MEMORY_SIZE { Some(Fault::MemoryOutOfRange(s.i)) } else { None },
        Instruction::StoreRegistersInMemory(x) => if s.i as int + x + 1 > MEMORY_SIZE { Some(Fault::MemoryOutOfRange(s.i)) } else { None },
        Instruction::ReadRegistersFromMemory(x) => if s.i as int + x + 1 > MEMORY_SIZE { Some(Fault::MemoryOutOfRange(s.i)) } else { None },
        _ => None,
    }
}

/// The state after executing an instruction that runs into no fault, where
/// `random` is the byte that `LoadRandomWithMask` draws.
pub open spec fn spec_execute(s: MachineState, instr: Instruction, keys: Seq<bool>, random: u8) -> MachineState {
    match instr {
        Instruction::Nop => s,
        Instruction::ClearScreen => MachineState { display: blank_display(), ..s },
        Instruction::Return => MachineState { sp: (s.sp - 1) as u8, pc: s.stack[s.sp - 1], ..s },
        Instruction::Jump(a) => MachineState { pc: a, ..s },
        Instruction::Call(a) => MachineState {
            stack: s.stack.update(s.sp as int, s.pc),
            sp: (s.sp + 1) as u8,
            pc: a,
            ..s
        },
        Instruction::SkipIfEqual(x, o) => if s.v[x as int] == s.operand(o) { s.skip() } else { s },
        Instruction::SkipIfNotEqual(x, o) => if s.v[x as int] != s.operand(o) { s.skip() } else { s },
        Instruction::LoadRegister(x, o) => s.set_v(x, s.operand(o)),
        Instruction::AddNoCarry(x, k) => s.set_v(x, ((s.v[x as int] + k) % 256) as u8),
        Instruction::Or(x, y) => s.set_v(x, s.v[x as int] | s.v[y as int]),
        Instruction::And(x, y) => s.set_v(x, s.v[x as int] & s.v[y as int]),
        Instruction::Xor(x, y) => s.set_v(x, s.v[x as int] ^ s.v[y as int]),
        Instruction::AddWithCarry(x, y) => {
            let sum = s.v[x as int] + s.v[y as int];
            s.set_v(x, (sum % 256) as u8).set_v(15, if sum > 255 { 1 } else { 0 })
        },
        Instruction::Sub(x, y) => {
            let diff = s.v[x as int] - s.v[y as int];
            s.set_v(x, ((diff + 256) % 256) as u8).set_v(15, if diff < 0 { 1 } else { 0 })
        },
        Instruction::ShiftRight(x) => {
            let t = s.set_v(15, s.v[x as int] & 1);
            t.set_v(x, t.v[x as int] / 2)
        },
        Instruction::SubN(x, y) => {
            let diff = s.v[y as int] - s.v[x as int];
            s.set_v(x, ((diff + 256) % 256) as u8).set_v(15, if diff < 0 { 1 } else { 0 })
        },
        Instruction::ShiftLeft(x) => {
            let t = s.set_v(15, s.v[x as int] & 0x80);
            t.set_v(x, ((t.v[x as int] * 2) % 256) as u8)
        },
        Instruction::LoadMemoryRegister(a) => MachineState { i: a, ..s },
        Instruction::JumpPlusV0(a) => MachineState { pc: ((a + s.v[0]) % 0x1000) as u16, ..s },
        Instruction::LoadRandomWithMask(x, k) => s.set_v(x, random & k),
        Instruction::Draw(x, y, n) => spec_draw(s, x, y, n),
        Instruction::SkipIfKeyPressed(x) => if keys[s.v[x as int] as int] { s.skip() } else { s },
        Instruction::SkipIfKeyNotPressed(x) => if !keys[s.v[x as int] as int] { s.skip() } else { s },
        Instruction::LoadFromDelayTimer(x) => s.set_v(x, s.dt),
        Instruction::WaitForKeyPress(x) => MachineState { waiting: Some(x), ..s },
        Instruction::LoadIntoDelayTimer(x) => MachineState { dt: s.v[x as int], ..s },
        Instruction::LoadIntoSoundTimer(x) => MachineState { st: s.v[x as int], ..s },
        Instruction::AddToMemoryRegister(x) => MachineState { i: ((s.i + s.v[x as int]) % 0x1000) as u16, ..s },
        Instruction::LoadDigitAddress(x) => MachineState {
            i: (FONT_ADDRESS_START + 5 * (s.v[x as int] % 16)) as u16,
            ..s
        },
        Instruction::StoreBcdInMemory(x) => {
            let num = s.v[x as int];
            MachineState {
                memory: s.memory.update(s.i as int, num / 100).update(s.i + 1, (num / 10) % 10).update(s.i + 2, num % 10),
                ..s
            }
        },
        Instruction::StoreRegistersInMemory(x) => MachineState {
            memory: Seq::new(
                MEMORY_SIZE as nat,
                |a: int| if s.i <= a <= s.i + x { s.v[a - s.i] } else { s.memory[a] },
            ),
            ..s
        },
        Instruction::ReadRegistersFromMemory(x) => MachineState {
            v: Seq::new(16, |r: int| if r <= x { s.memory[s.i + r] } else { s.v[r] }),
            ..s
        },
    }
}


impl Chip8Interpreter {
    /// The value of a register.
    fn reg(&self, x: u8) -> (r: u8)
        requires
            x < 16,
        ensures
            r == self.v_registers@[x as int],
    {
        self.v_registers[x as usize]
    }

    /// Set a register.
    fn set_reg(&mut self, x: u8, value: u8)
        requires
            x < 16,
        ensures
            final(self)@ == old(self)@.set_v(x, value),
    {
        self.v_registers[x as usize] = value;
        assert(self@.v =~= old(self)@.v.update(x as int, value));
        assert(self@.display =~= old(self)@.display);
    }

    /// The value of an operand.
    fn get_operand(&self, op: Operand) -> (r: u8)
        requires
            op matches Operand::Register(y) ==> y < 16,
        ensures
            r == self@.operand(op),
    {
        match op {
            Operand::Register(y) => self.reg(y),
            Operand::Literal(byte) => byte,
        }
    }

    /// Move the program counter past one more instruction.
    fn skip(&mut self)
        requires
            old(self).program_counter < MEMORY_SIZE,
        ensures
            final(self)@ == old(self)@.skip(),
    {
        self.program_counter = self.program_counter + 2;
        assert(self@.display =~= old(self)@.display);
    }

    /// Execute an instruction that runs into no fault, with `random` as the
    /// byte that `LoadRandomWithMask` draws.
    pub fn execute_with(&mut self, instruction: Instruction, keys: &Keys, random: u8)
        requires
            old(self)@.wf(),
            old(self).program_counter < MEMORY_SIZE,
            spec_encode(instruction) is Ok,
            execute_fault(old(self)@, instruction) is None,
        ensures
            final(self)@ == spec_execute(old(self)@, instruction, keys@, random),
            final(self)@.wf(),
    {
        let _ = self.try_execute(instruction, keys, random);
    }

    /// Execute an instruction, or return the fault it runs into, changing nothing.
    fn try_execute(&mut self, instruction: Instruction, keys: &Keys, random: u8) -> (r: Result<(), Fault>)
        requires
            old(self)@.wf(),
            old(self).program_counter < MEMORY_SIZE,
            spec_encode(instruction) is Ok,
        ensures
            match execute_fault(old(self)@, instruction) {
                Some(f) => r == Err::<(), Fault>(f) && final(self)@ == old(self)@,
                None => r is Ok && final(self)@ == spec_execute(old(self)@, instruction, keys@, random),
            },
            final(self)@.wf(),
    {
        match instruction {
            Instruction::Nop | Instruction::ClearScreen | Instruction::Return | Instruction::Jump(_)
            | Instruction::Call(_) | Instruction::SkipIfEqual(_, _) | Instruction::SkipIfNotEqual(_, _)
            | Instruction::JumpPlusV0(_) | Instruction::SkipIfKeyPressed(_) | Instruction::SkipIfKeyNotPressed(_)
            | Instruction::WaitForKeyPress(_) => self.execute_flow(instruction, keys, random),
            Instruction::LoadRegister(_, _) | Instruction::AddNoCarry(_, _) | Instruction::Or(_, _)
            | Instruction::And(_, _) | Instruction::Xor(_, _) | Instruction::LoadRandomWithMask(_, _)
            | Instruction::LoadFromDelayTimer(_) => self.execute_alu(instruction, keys, random),
            Instruction::AddWithCarry(_, _) | Instruction::Sub(_, _) | Instruction::ShiftRight(_)
            | Instruction::SubN(_, _) | Instruction::ShiftLeft(_) => self.execute_flags(instruction, keys, random),
            _ => self.execute_mem(instruction, keys, random),
        }
    }

    /// Execute an instruction that moves the program counter or clears the screen.
    #[verifier::spinoff_prover]
    #[verifier::rlimit(100)]
    fn execute_flow(&mut self, instruction: Instruction, keys: &Keys, random: u8) -> (r: Result<(), Fault>)
        requires
            old(self)@.wf(),
            old(self).program_counter < MEMORY_SIZE,
            spec_encode(instruction) is Ok,
            instruction is Nop || instruction is ClearScreen || instruction is Return || instruction is Jump || instruction is Call || instruction is SkipIfEqual || instruction is SkipIfNotEqual || instruction is JumpPlusV0 || instruction is SkipIfKeyPressed || instruction is SkipIfKeyNotPressed || instruction is WaitForKeyPress,
        ensures
            match execute_fault(old(self)@, instruction) {
                Some(f) => r == Err::<(), Fault>(f) && final(self)@ == old(self)@,
                None => r is Ok && final(self)@ == spec_execute(old(self)@, instruction, keys@, random),
            },
            final(self)@.wf(),
    {
        let ghost s = self@;
        match instruction {
            Instruction::Nop => {},
            Instruction::ClearScreen => {
                self.display = [[Pixel::Black; 64]; 32];
                assert forall|y: int| 0 <= y < 32 implies #[trigger] self@.display[y] == blank_display()[y] by {
                    assert(self@.display[y] =~= blank_display()[y]);
                }
                assert(self@.display =~= blank_display());
            },
            Instruction::Return => {
                if self.stack_pointer == 0 {
                    return Err(Fault::StackUnderflow);
                }
                self.stack_pointer = self.stack_pointer - 1;
                self.program_counter = self.stack[self.stack_pointer as usize];
                assert(self@.display =~= s.display);
            },
            Instruction::Jump(address) => {
                self.program_counter = address;
                assert(self@.display =~= s.display);
            },
            Instruction::Call(address) => {
                if self.stack_pointer >= 16 {
                    return Err(Fault::StackOverflow);
                }
                self.stack[self.stack_pointer as usize] = self.program_counter;
                self.stack_pointer = self.stack_pointer + 1;
                self.program_counter = address;
                assert(self@.display =~= s.display);
                assert(self@.stack =~= s.stack.update(s.sp as int, s.pc));
            },
            Instruction::SkipIfEqual(x, op) => {
                if self.reg(x) == self.get_operand(op) {
                    self.skip();
                }
            },
            Instruction::SkipIfNotEqual(x, op) => {
                if self.reg(x) != self.get_operand(op) {
                    self.skip();
                }
            },
            Instruction::JumpPlusV0(address) => {
                self.program_counter = (address + self.reg(0) as u16) % 0x1000;
                assert(self@.display =~= s.display);
            },
            Instruction::SkipIfKeyPressed(x) => {
                let key = self.reg(x);
                if key >= 16 {
                    return Err(Fault::KeyOutOfRange(key));
                }
                if keys[key as usize] {
                    self.skip();
                }
            },
            Instruction::SkipIfKeyNotPressed(x) => {
                let key = self.reg(x);
                if key >= 16 {
                    return Err(Fault::KeyOutOfRange(key));
                }
                if !keys[key as usize] {
                    self.skip();
                }
            },
            Instruction::WaitForKeyPress(x) => {
                self.waiting_for_key_press = Some(x);
                assert(self@.display =~= s.display);
            },
            _ => {},
        }
        Ok(())
    }

    /// Execute an instruction that computes a register.
    #[verifier::spinoff_prover]
    #[verifier::rlimit(100)]
    fn execute_alu(&mut self, instruction: Instruction, keys: &Keys, random: u8) -> (r: Result<(), Fault>)
        requires
            old(self)@.wf(),
            old(self).program_counter < MEMORY_SIZE,
            spec_encode(instruction) is Ok,
            instruction is LoadRegister || instruction is AddNoCarry || instruction is Or || instruction is And || instruction is Xor || instruction is LoadRandomWithMask || instruction is LoadFromDelayTimer,
        ensures
            match execute_fault(old(self)@, instruction) {
                Some(f) => r == Err::<(), Fault>(f) && final(self)@ == old(self)@,
                None => r is Ok && final(self)@ == spec_execute(old(self)@, instruction, keys@, random),
            },
            final(self)@.wf(),
    {
        let ghost s = self@;
        match instruction {
            Instruction::LoadRegister(x, op) => {
                let value = self.get_operand(op);
                self.set_reg(x, value);
            },
            Instruction::AddNoCarry(x, byte) => {
                let value = self.reg(x).wrapping_add(byte);
                self.set_reg(x, value);
            },
            Instruction::Or(x, y) => {
                let value = self.reg(x) | self.reg(y);
                self.set_reg(x, value);
            },
            Instruction::And(x, y) => {
                let value = self.reg(x) & self.reg(y);
                self.set_reg(x, value);
            },
            Instruction::Xor(x, y) => {
                let value = self.reg(x) ^ self.reg(y);
                self.set_reg(x, value);
            },
            Instruction::LoadRandomWithMask(x, mask) => {
                self.set_reg(x, random & mask);
            },
            Instruction::LoadFromDelayTimer(x) => {
                let value = self.delay_timer;
                self.set_reg(x, value);
            },
            _ => {},
        }
        Ok(())
    }

    /// Execute an instruction that computes a register and sets the flag VF.
    #[verifier::spinoff_prover]
    #[verifier::rlimit(100)]
    fn execute_flags(&mut self, instruction: Instruction, keys: &Keys, random: u8) -> (r: Result<(), Fault>)
        requires
            old(self)@.wf(),
            old(self).program_counter < MEMORY_SIZE,
            spec_encode(instruction) is Ok,
            instruction is AddWithCarry || instruction is Sub || instruction is ShiftRight || instruction is SubN || instruction is ShiftLeft,
        ensures
            match execute_fault(old(self)@, instruction) {
                Some(f) => r == Err::<(), Fault>(f) && final(self)@ == old(self)@,
                None => r is Ok && final(self)@ == spec_execute(old(self)@, instruction, keys@, random),
            },
            final(self)@.wf(),
    {
        let ghost s = self@;
        match instruction {
            Instruction::AddWithCarry(x, y) => {
                let a = self.reg(x);
                let b = self.reg(y);
                let value = a.wrapping_add(b);
                let carry: u8 = if a as u16 + b as u16 > 255 { 1 } else { 0 };
                self.set_reg(x, value);
                self.set_reg(0xF, carry);
            },
            Instruction::Sub(x, y) => {
                let a = self.reg(x);
                let b = self.reg(y);
                let value = a.wrapping_sub(b);
                let borrow: u8 = if a < b { 1 } else { 0 };
                self.set_reg(x, value);
                self.set_reg(0xF, borrow);
            },
            Instruction::ShiftRight(x) => {
                let low = self.reg(x) & 1;
                self.set_reg(0xF, low);
                let value = self.reg(x) / 2;
                self.set_reg(x, value);
            },
            Instruction::SubN(x, y) => {
                let a = self.reg(x);
                let b = self.reg(y);
                let value = b.wrapping_sub(a);
                let borrow: u8 = if b < a { 1 } else { 0 };
                self.set_reg(x, value);
                self.set_reg(0xF, borrow);
            },
            Instruction::ShiftLeft(x) => {
                let high = self.reg(x) & 0x80;
                self.set_reg(0xF, high);
                let value = self.reg(x).wrapping_mul(2);
                self.set_reg(x, value);
            },
            _ => {},
        }
        Ok(())
    }

    /// Execute an instruction on memory, `I`, the timers or the display.
    #[verifier::spinoff_prover]
    #[verifier::rlimit(100)]
    fn execute_mem(&mut self, instruction: Instruction, keys: &Keys, random: u8) -> (r: Result<(), Fault>)
        requires
            old(self)@.wf(),
            old(self).program_counter < MEMORY_SIZE,
            spec_encode(instruction) is Ok,
            instruction is LoadMemoryRegister || instruction is Draw || instruction is LoadIntoDelayTimer || instruction is LoadIntoSoundTimer || instruction is AddToMemoryRegister || instruction is LoadDigitAddress || instruction is StoreBcdInMemory || instruction is StoreRegistersInMemory || instruction is ReadRegistersFromMemory,
        ensures
            match execute_fault(old(self)@, instruction) {
                Some(f) => r == Err::<(), Fault>(f) && final(self)@ == old(self)@,
                None => r is Ok && final(self)@ == spec_execute(old(self)@, instruction, keys@, random),
            },
            final(self)@.wf(),
    {
        let ghost s = self@;
        match instruction {
            Instruction::LoadMemoryRegister(address) => {
                self.memory_register = address;
                assert(self@.display =~= s.display);
            },
            Instruction::Draw(x, y, n) => {
                return self.draw(x, y, n);
            },
            Instruction::LoadIntoDelayTimer(x) => {
                self.delay_timer = self.reg(x);
                assert(self@.display =~= s.display);
            },
            Instruction::LoadIntoSoundTimer(x) => {
                self.sound_timer = self.reg(x);
                assert(self@.display =~= s.display);
            },
            Instruction::AddToMemoryRegister(x) => {
                self.memory_register = (self.memory_register + self.reg(x) as u16) % 0x1000;
                assert(self@.display =~= s.display);
            },
            Instruction::LoadDigitAddress(x) => {
                self.memory_register = FONT_ADDRESS_START + 5 * (self.reg(x) % 16) as u16;
                assert(self@.display =~= s.display);
            },
            Instruction::StoreBcdInMemory(x) => {
                let i = self.memory_register as usize;
                if i + 3 > MEMORY_SIZE {
                    return Err(Fault::MemoryOutOfRange(self.memory_register));
                }
                let num = self.reg(x);
                self.memory[i] = num / 100;
                self.memory[i + 1] = (num / 10) % 10;
                self.memory[i + 2] = num % 10;
                assert(self@.display =~= s.display);
                assert(self@.memory =~= s.memory.update(s.i as int, num / 100).update(s.i + 1, (num / 10) % 10).update(s.i + 2, num % 10));
            },
            Instruction::StoreRegistersInMemory(n) => {
                return self.store_registers(n);
            },
            Instruction::ReadRegistersFromMemory(n) => {
                return self.read_registers(n);
            },

            _ => {},
        }
        Ok(())
    }

    /// Draw the `n`-row sprite at I onto the display at `(Vx, Vy)`, clipped
    /// to the display; VF tells whether a White pixel was erased.
    #[verifier::spinoff_prover]
    #[verifier::rlimit(100)]
    fn draw(&mut self, x: u8, y: u8, n: u8) -> (r: Result<(), Fault>)
        requires
            old(self)@.wf(),
            x < 16,
            y < 16,
            n < 16,
        ensures
            match execute_fault(old(self)@, Instruction::Draw(x, y, n)) {
                Some(f) => r == Err::<(), Fault>(f) && final(self)@ == old(self)@,
                None => r is Ok && final(self)@ == spec_draw(old(self)@, x, y, n),
            },
            final(self)@.wf(),
    {
        let ghost s = self@;
        let first_x = (self.reg(x) % 64) as usize;
        let y0 = (self.reg(y) % 32) as usize;
        let i = self.memory_register as usize;
        let rows_read: usize = if (n as usize) < 33 - y0 { n as usize } else { 33 - y0 };
        if i + rows_read > MEMORY_SIZE {
            return Err(Fault::MemoryOutOfRange(self.memory_register));
        }
        let ghost x0 = first_x as int;
        let ghost yy0 = y0 as int;
        let mut collision = false;
        let mut offset: usize = 0;
        while offset < n as usize
            invariant
                s.wf(),
                n < 16,
                x0 == first_x,
                yy0 == y0,
                first_x < 64,
                y0 < 32,
                x0 == s.v[x as int] as int % 64,
                yy0 == s.v[y as int] as int % 32,
                i == s.i,
                i + draw_rows_read(yy0, n as int) <= MEMORY_SIZE,
                offset <= n,
                y0 + offset <= 32,
                self@ == (MachineState { display: self@.display, ..s }),
                self@.display.len() == 32,
                forall|py: int| 0 <= py < 32 ==> (#[trigger] self@.display[py]).len() == 64,
                forall|px: int, py: int| 0 <= px < 64 && 0 <= py < 32 ==> #[trigger] self@.display[py][px] == (
                    if hits_before(s, x0, yy0, n as int, px, py, offset as int, 0) {
                        s.display[py][px].spec_xor(Pixel::White)
                    } else {
                        s.display[py][px]
                    }),
                collision == exists|px: int, py: int| 0 <= px < 64 && 0 <= py < 32
                    && #[trigger] hits_before(s, x0, yy0, n as int, px, py, offset as int, 0)
                    && s.display[py][px] == Pixel::White,
            ensures
                offset == n || y0 + offset >= 32,
                self@ == (MachineState { display: self@.display, ..s }),
            decreases n - offset,
        {
            let row = self.memory[i + offset];
            if y0 + offset >= 32 {
                break;
            }
            let py = y0 + offset;
            let mut line = self.display[py];
            let ghost old_line = line@;
            proof {
                assert forall|px: int| 0 <= px < 64 implies #[trigger] line@[px] == s.display[py as int][px] by {
                    assert(line@[px] == self@.display[py as int][px]);
                }
                assert(line@ =~= s.display[py as int]);
            }
            let mut c: usize = 0;
            let mut div: u8 = 128;
            while c < 8
                invariant
                    s.wf(),
                    n < 16,
                    x0 == first_x,
                    yy0 == y0,
                    first_x < 64,
                    py == y0 + offset,
                    py < 32,
                    offset < n,
                    i == s.i,
                    i + offset < MEMORY_SIZE,
                    row == s.memory[i + offset],
                    c <= 8,
                    c < 8 ==> div as int == col_divisor(c as int),
                    old_line == s.display[py as int],
                    self@ == (MachineState { display: self@.display, ..s }),
                    forall|py2: int| 0 <= py2 < 32 ==> (#[trigger] self@.display[py2]).len() == 64,
                    forall|px: int, py2: int| 0 <= px < 64 && 0 <= py2 < 32 ==> #[trigger] self@.display[py2][px] == (
                        if hits_before(s, x0, yy0, n as int, px, py2, offset as int, 0) {
                            s.display[py2][px].spec_xor(Pixel::White)
                        } else {
                            s.display[py2][px]
                        }),
                    forall|px: int| 0 <= px < 64 ==> #[trigger] line@[px] == (
                        if hits_before(s, x0, yy0, n as int, px, py as int, offset as int, c as int) {
                            s.display[py as int][px].spec_xor(Pixel::White)
                        } else {
                            s.display[py as int][px]
                        }),
                    collision == exists|px: int, py2: int| 0 <= px < 64 && 0 <= py2 < 32
                        && #[trigger] hits_before(s, x0, yy0, n as int, px, py2, offset as int, c as int)
                        && s.display[py2][px] == Pixel::White,
                ensures
                    c == 8 || first_x + c >= 64,
                decreases 8 - c,
            {
                let px = first_x + c;
                if px >= 64 {
                    break;
                }
                let ghost was = collision;
                if (row / div) % 2 == 1 {
                    let old_pixel = line[px];
                    line[px] = old_pixel.xor(Pixel::White);
                    if old_pixel == Pixel::White {
                        collision = true;
                    }
                }
                proof {
                    assert(hits_before(s, x0, yy0, n as int, px as int, py as int, offset as int, c + 1)
                        == sprite_bit(row, c as int));
                    if was {
                        let (wx, wy) = choose|wx: int, wy: int| 0 <= wx < 64 && 0 <= wy < 32
                            && #[trigger] hits_before(s, x0, yy0, n as int, wx, wy, offset as int, c as int)
                            && s.display[wy][wx] == Pixel::White;
                        assert(hits_before(s, x0, yy0, n as int, wx, wy, offset as int, c + 1));
                    }
                    if collision && !was {
                        assert(hits_before(s, x0, yy0, n as int, px as int, py as int, offset as int, c + 1));
                    }
                    if exists|wx: int, wy: int| 0 <= wx < 64 && 0 <= wy < 32
                        && #[trigger] hits_before(s, x0, yy0, n as int, wx, wy, offset as int, c + 1)
                        && s.display[wy][wx] == Pixel::White {
                        let (wx, wy) = choose|wx: int, wy: int| 0 <= wx < 64 && 0 <= wy < 32
                            && #[trigger] hits_before(s, x0, yy0, n as int, wx, wy, offset as int, c + 1)
                            && s.display[wy][wx] == Pixel::White;
                        if wx != px || wy != py {
                            assert(hits_before(s, x0, yy0, n as int, wx, wy, offset as int, c as int));
                        }
                    }
                }
                c = c + 1;
                if c < 8 {
                    div = div / 2;
                }
            }
            proof {
                assert forall|px: int, py2: int| 0 <= px < 64 && 0 <= py2 < 32 implies
                    hits_before(s, x0, yy0, n as int, px, py2, offset as int, c as int)
                    == hits_before(s, x0, yy0, n as int, px, py2, offset + 1, 0) by {}
            }
            let ghost before = self@.display;
            self.display[py] = line;
            proof {
                assert forall|py2: int| 0 <= py2 < 32 implies (#[trigger] self@.display[py2]).len() == 64 by {}
                assert(self@ == (MachineState { display: self@.display, ..s }));
                assert forall|px: int, py2: int| 0 <= px < 64 && 0 <= py2 < 32 implies #[trigger] self@.display[py2][px] == (
                    if hits_before(s, x0, yy0, n as int, px, py2, offset + 1, 0) {
                        s.display[py2][px].spec_xor(Pixel::White)
                    } else {
                        s.display[py2][px]
                    }) by {
                    if py2 == py {
                        assert(self@.display[py2][px] == line@[px]);
                    } else {
                        assert(self@.display[py2][px] == before[py2][px]);
                    }
                }
                if collision {
                    let (wx, wy) = choose|wx: int, wy: int| 0 <= wx < 64 && 0 <= wy < 32
                        && #[trigger] hits_before(s, x0, yy0, n as int, wx, wy, offset as int, c as int)
                        && s.display[wy][wx] == Pixel::White;
                    assert(hits_before(s, x0, yy0, n as int, wx, wy, offset + 1, 0));
                }
                if exists|wx: int, wy: int| 0 <= wx < 64 && 0 <= wy < 32
                    && #[trigger] hits_before(s, x0, yy0, n as int, wx, wy, offset + 1, 0)
                    && s.display[wy][wx] == Pixel::White {
                    let (wx, wy) = choose|wx: int, wy: int| 0 <= wx < 64 && 0 <= wy < 32
                        && #[trigger] hits_before(s, x0, yy0, n as int, wx, wy, offset + 1, 0)
                        && s.display[wy][wx] == Pixel::White;
                    assert(hits_before(s, x0, yy0, n as int, wx, wy, offset as int, c as int));
                }
            }
            offset = offset + 1;
        }
        proof {
            assert forall|px: int, py: int| 0 <= px < 64 && 0 <= py < 32 implies
                hits_before(s, x0, yy0, n as int, px, py, offset as int, 0)
                == sprite_hits(s, x0, yy0, n as int, px, py) by {}
        }
        self.v_registers[15] = if collision { 1 } else { 0 };
        proof {
            let t = spec_draw(s, x, y, n);
            assert forall|py: int| 0 <= py < 32 implies #[trigger] self@.display[py] == t.display[py] by {
                assert(self@.display[py] =~= t.display[py]);
            }
            assert(self@.display =~= t.display);
            assert(self@.v =~= t.v);
        }
        Ok(())
    }

    /// Store V0 through Vn in memory starting at I.
    fn store_registers(&mut self, n: u8) -> (r: Result<(), Fault>)
        requires
            old(self)@.wf(),
            n < 16,
        ensures
            match execute_fault(old(self)@, Instruction::StoreRegistersInMemory(n)) {
                Some(f) => r == Err::<(), Fault>(f) && final(self)@ == old(self)@,
                None => r is Ok && final(self)@ == spec_execute(old(self)@, Instruction::StoreRegistersInMemory(n), Seq::empty(), 0),
            },
    {
        let ghost s = self@;
        let i = self.memory_register as usize;
        if i + n as usize + 1 > MEMORY_SIZE {
            return Err(Fault::MemoryOutOfRange(self.memory_register));
        }
        let mut k: u8 = 0;
        while k <= n
            invariant
                s.wf(),
                n < 16,
                k <= n + 1,
                i == s.i,
                i + n + 1 <= MEMORY_SIZE,
                self@ == (MachineState { memory: self@.memory, ..s }),
                self@.memory.len() == MEMORY_SIZE,
                forall|a: int| 0 <= a < MEMORY_SIZE ==> #[trigger] self@.memory[a] == (
                    if i <= a < i + k { s.v[a - i] } else { s.memory[a] }),
            decreases n + 1 - k,
        {
            self.memory[i + k as usize] = self.v_registers[k as usize];
            k = k + 1;
            assert(self@.display =~= s.display);
        }
        assert(self@.memory =~= spec_execute(s, Instruction::StoreRegistersInMemory(n), Seq::empty(), 0).memory);
        Ok(())
    }

    /// Read V0 through Vn from memory starting at I.
    fn read_registers(&mut self, n: u8) -> (r: Result<(), Fault>)
        requires
            old(self)@.wf(),
            n < 16,
        ensures
            match execute_fault(old(self)@, Instruction::ReadRegistersFromMemory(n)) {
                Some(f) => r == Err::<(), Fault>(f) && final(self)@ == old(self)@,
                None => r is Ok && final(self)@ == spec_execute(old(self)@, Instruction::ReadRegistersFromMemory(n), Seq::empty(), 0),
            },
    {
        let ghost s = self@;
        let i = self.memory_register as usize;
        if i + n as usize + 1 > MEMORY_SIZE {
            return Err(Fault::MemoryOutOfRange(self.memory_register));
        }
        let mut k: u8 = 0;
        while k <= n
            invariant
                s.wf(),
                n < 16,
                k <= n + 1,
                i == s.i,
                i + n + 1 <= MEMORY_SIZE,
                self@ == (MachineState { v: self@.v, ..s }),
                self@.v.len() == 16,
                forall|r: int| 0 <= r < 16 ==> #[trigger] self@.v[r] == (
                    if r < k { s.memory[i + r] } else { s.v[r] }),
            decreases n + 1 - k,
        {
            self.v_registers[k as usize] = self.memory[i + k as usize];
            k = k + 1;
            assert(self@.display =~= s.display);
        }
        assert(self@.v =~= spec_execute(s, Instruction::ReadRegistersFromMemory(n), Seq::empty(), 0).v);
        Ok(())
    }
}


/// The index of the first pressed key at or after `k`, if any.
pub open spec fn first_pressed_from(keys: Seq<bool>, k: int) -> Option<u8>
    decreases 16 - k,
{
    if k >= 16 {
        None
    } else if keys[k] {
        Some(k as u8)
    } else {
        first_pressed_from(keys, k + 1)
    }
}

/// The big-endian word at the program counter.
pub open spec fn word_at_pc(s: MachineState) -> u16 {
    (s.memory[s.pc as int] as int * 0x100 + s.memory[s.pc + 1] as int) as u16
}

/// The state after fetching an instruction: the program counter moved past it.
pub open spec fn fetched(s: MachineState) -> MachineState {
    MachineState { pc: ((s.pc + 2) % MEMORY_SIZE as int) as u16, ..s }
}

/// The fault that a step runs into, if any.
pub open spec fn step_fault(s: MachineState) -> Option<Fault> {
    if s.waiting is Some {
        None
    } else if s.pc + 1 >= MEMORY_SIZE {
        Some(Fault::ProgramCounterOutOfRange(s.pc))
    } else {
        match spec_decode(word_at_pc(s)) {
            Err(_) => Some(Fault::UnrecognisedBytecode(word_at_pc(s), s.pc)),
            Ok(i) => execute_fault(fetched(s), i),
        }
    }
}

/// The state after the timers are decremented, if a 60th of a second has
/// passed since they last were.
pub open spec fn tick(s: MachineState, now: u64) -> MachineState {
    if now >= s.last_tick && now - s.last_tick >= TIMER_PERIOD_NANOS {
        MachineState {
            dt: if s.dt > 0 { (s.dt - 1) as u8 } else { 0 },
            st: if s.st > 0 { (s.st - 1) as u8 } else { 0 },
            last_tick: now,
            ..s
        }
    } else {
        s
    }
}

/// The state after the work of a step, before the timers: while waiting for a
/// key, the first pressed key (if any) goes into the register; otherwise the
/// instruction at the program counter is fetched and executed.
#[verifier::opaque]
pub open spec fn spec_advance(s: MachineState, keys: Seq<bool>, random: u8) -> MachineState {
    match s.waiting {
        Some(x) => match first_pressed_from(keys, 0) {
            Some(k) => MachineState { waiting: None, ..s.set_v(x, k) },
            None => s,
        },
        None => spec_execute(fetched(s), spec_decode(word_at_pc(s))->Ok_0, keys, random),
    }
}

/// The state after a step at time `now` that runs into no fault.
pub open spec fn spec_step(s: MachineState, keys: Seq<bool>, now: u64, random: u8) -> MachineState {
    tick(spec_advance(s, keys, random), now)
}

/// Relies on `rand::random`: a byte from the thread-local generator; nothing
/// is known of its value.
#[verifier::external_body]
fn random_byte() -> (r: u8) {
    rand::random::<u8>()
}

impl Chip8Interpreter {
    /// A new machine with the ROM loaded at `0x200`, taking `speed_nanos`
    /// nanoseconds per step, and whose timers were last decremented at `now`.
    pub fn new(rom: &[u8], speed_nanos: u64, now: u64) -> (r: Chip8Interpreter)
        requires
            PROGRAM_START as int + rom@.len() <= MEMORY_SIZE,
        ensures
            r@ == (MachineState {
                memory: initial_memory(rom@),
                stack: Seq::new(16, |k: int| 0u16),
                v: Seq::new(16, |k: int| 0u8),
                i: 0,
                dt: 0,
                st: 0,
                pc: PROGRAM_START,
                sp: 0,
                display: blank_display(),
                speed: speed_nanos,
                last_tick: now,
                waiting: None,
            }),
            r@.wf(),
    {
        let r = Chip8Interpreter {
            memory: init_memory(rom),
            stack: [0u16; 16],
            v_registers: [0u8; 16],
            memory_register: 0,
            delay_timer: 0,
            sound_timer: 0,
            program_counter: PROGRAM_START,
            stack_pointer: 0,
            display: [[Pixel::Black; 64]; 32],
            speed_nanos,
            last_timer_decrement: now,
            waiting_for_key_press: None,
        };
        assert forall|y: int| 0 <= y < 32 implies #[trigger] r@.display[y] == blank_display()[y] by {
            assert(r@.display[y] =~= blank_display()[y]);
        }
        assert(r@.display =~= blank_display());
        assert(r@.stack =~= Seq::new(16, |k: int| 0u16));
        assert(r@.v =~= Seq::new(16, |k: int| 0u8));
        r
    }

    /// The duration of one step, in nanoseconds.
    pub fn speed(&self) -> (r: u64)
        ensures
            r == self.speed_nanos,
    {
        self.speed_nanos
    }

    /// Whether the buzzer sounds: the sound timer is not zero.
    pub fn buzzer_active(&self) -> (r: bool)
        ensures
            r == (self.sound_timer > 0),
    {
        self.sound_timer > 0
    }

    /// Decrement the timers if a 60th of a second has passed since they last were.
    fn decrement_timers(&mut self, now: u64)
        ensures
            final(self)@ == tick(old(self)@, now),
    {
        if now >= self.last_timer_decrement && now - self.last_timer_decrement >= TIMER_PERIOD_NANOS {
            self.last_timer_decrement = now;
            self.delay_timer = if self.delay_timer > 0 { self.delay_timer - 1 } else { 0 };
            self.sound_timer = if self.sound_timer > 0 { self.sound_timer - 1 } else { 0 };
        }
        assert(self@.display =~= old(self)@.display);
    }

    /// The first pressed key, if any.
    fn first_pressed(keys: &Keys) -> (r: Option<u8>)
        ensures
            r == first_pressed_from(keys@, 0),
    {
        let mut k: usize = 0;
        while k < 16
            invariant
                k <= 16,
                first_pressed_from(keys@, 0) == first_pressed_from(keys@, k as int),
            decreases 16 - k,
        {
            if keys[k] {
                return Some(k as u8);
            }
            k = k + 1;
        }
        None
    }

    /// Fetch the next instruction: the word at the program counter, and the
    /// program counter moved past it.
    fn fetch(&mut self) -> (r: [u8; 2])
        requires
            old(self).program_counter + 1 < MEMORY_SIZE,
        ensures
            word_of(r) == word_at_pc(old(self)@),
            final(self)@ == fetched(old(self)@),
    {
        let pc = self.program_counter as usize;
        let instruction = [self.memory[pc], self.memory[pc + 1]];
        self.program_counter = ((self.program_counter + 2) as usize % MEMORY_SIZE) as u16;
        assert(self@.display =~= old(self)@.display);
        instruction
    }

    /// The instruction at the program counter, if the machine is not waiting
    /// for a key and the word there decodes.
    fn peek_instruction(&self) -> (r: Option<Instruction>)
        ensures
            r is Some ==> self@.waiting is None && self@.pc + 1 < MEMORY_SIZE
                && spec_decode(word_at_pc(self@)) == Ok::<Instruction, DecodingError>(r->Some_0),
    {
        if self.waiting_for_key_press.is_some() || self.program_counter as usize + 1 >= MEMORY_SIZE {
            return None;
        }
        let pc = self.program_counter as usize;
        match decode([self.memory[pc], self.memory[pc + 1]]) {
            Ok(i) => Some(i),
            Err(_) => None,
        }
    }

    /// Advance the machine by one step at time `now`, with `random` as the
    /// byte that `LoadRandomWithMask` draws, or return the fault that the step
    /// runs into, changing nothing.
    fn try_step(&mut self, keys: &Keys, now: u64, random: u8) -> (r: Result<Option<Display>, Fault>)
        requires
            old(self)@.wf(),
        ensures
            match step_fault(old(self)@) {
                Some(f) => r == Err::<Option<Display>, Fault>(f) && final(self)@ == old(self)@,
                None => r == Ok::<Option<Display>, Fault>(Some(final(self).display))
                    && final(self)@ == spec_step(old(self)@, keys@, now, random),
            },
            final(self)@.wf(),
    {
        proof {
            reveal(spec_advance);
        }
        match self.waiting_for_key_press {
            Some(x) => {
                match Self::first_pressed(keys) {
                    Some(k) => {
                        self.v_registers[x as usize] = k;
                        self.waiting_for_key_press = None;
                        assert(self@.display =~= old(self)@.display);
                        assert(self@.v =~= old(self)@.v.update(x as int, k));
                    },
                    None => {},
                }
            },
            None => {
                if self.program_counter as usize + 1 >= MEMORY_SIZE {
                    return Err(Fault::ProgramCounterOutOfRange(self.program_counter));
                }
                let pc = self.program_counter;
                let bytes = [self.memory[pc as usize], self.memory[pc as usize + 1]];
                let instruction = match decode(bytes) {
                    Ok(instruction) => instruction,
                    Err(DecodingError::UnrecognisedBytecode(bytecode)) => {
                        return Err(Fault::UnrecognisedBytecode(bytecode, pc));
                    },
                };
                proof {
                    lemma_decoded_in_range(word_of(bytes));
                }
                let ghost before = self@;
                self.fetch();
                match self.try_execute(instruction, keys, random) {
                    Ok(()) => {},
                    Err(f) => {
                        *self = Chip8Interpreter { program_counter: pc, ..*self };
                        assert(self@.display =~= before.display);
                        return Err(f);
                    },
                }
            },
        }
        self.decrement_timers(now);
        Ok(Some(self.display))
    }

    /// The fault that the next step would run into, if any: the program
    /// counter leaves no room for an instruction, the word there is no
    /// instruction, or executing it would underflow or overflow the stack, or
    /// reach past memory or the keys.
    pub fn fault(&self) -> (r: Option<Fault>)
        requires
            self@.wf(),
        ensures
            r == step_fault(self@),
    {
        let mut probe = Chip8Interpreter {
            memory: self.memory,
            stack: self.stack,
            v_registers: self.v_registers,
            memory_register: self.memory_register,
            delay_timer: self.delay_timer,
            sound_timer: self.sound_timer,
            program_counter: self.program_counter,
            stack_pointer: self.stack_pointer,
            display: self.display,
            speed_nanos: self.speed_nanos,
            last_timer_decrement: self.last_timer_decrement,
            waiting_for_key_press: self.waiting_for_key_press,
        };
        assert(probe@ == self@);
        match probe.try_step(&[false; 16], 0, 0) {
            Ok(_) => None,
            Err(f) => Some(f),
        }
    }

    /// Advance the machine by one step at time `now`, with `random` as the
    /// byte that `LoadRandomWithMask` draws, and return the display.
    pub fn step_with(&mut self, keys: &Keys, now: u64, random: u8) -> (r: Option<Display>)
        requires
            old(self)@.wf(),
            step_fault(old(self)@) is None,
        ensures
            r == Some(final(self).display),
            final(self)@ == spec_step(old(self)@, keys@, now, random),
            final(self)@.wf(),
    {
        match self.try_step(keys, now, random) {
            Ok(display) => display,
            Err(_) => None,
        }
    }

    /// Advance the machine by one step at time `now` and return the display;
    /// a random byte is drawn when the instruction is `LoadRandomWithMask`.
    pub fn step(&mut self, keys: &Keys, now: u64) -> (r: Option<Display>)
        requires
            old(self)@.wf(),
            step_fault(old(self)@) is None,
        ensures
            r == Some(final(self).display),
            exists|random: u8| final(self)@ == spec_step(old(self)@, keys@, now, random),
            final(self)@.wf(),
    {
        let random = match self.peek_instruction() {
            Some(Instruction::LoadRandomWithMask(_, _)) => random_byte(),
            _ => 0,
        };
        self.step_with(keys, now, random)
    }
}


/// Whether an instruction is one of the four that skip the next one.
pub open spec fn is_skip(i: Instruction) -> bool {
    i is SkipIfEqual || i is SkipIfNotEqual || i is SkipIfKeyPressed || i is SkipIfKeyNotPressed
}

/// At every step boundary the program counter is within memory and the stack
/// pointer is at most 16. The one exception is a skip instruction in the last
/// four bytes of memory, which skips past the end.
#[verifier::spinoff_prover]
#[verifier::rlimit(100)]
pub proof fn lemma_step_bounds(s: MachineState, keys: Seq<bool>, now: u64, random: u8)
    requires
        s.wf(),
        s.pc < MEMORY_SIZE,
        step_fault(s) is None,
        keys.len() == 16,
        !(s.waiting is None && s.pc >= MEMORY_SIZE - 4 && is_skip(spec_decode(word_at_pc(s))->Ok_0)),
    ensures
        spec_step(s, keys, now, random).pc < MEMORY_SIZE,
        spec_step(s, keys, now, random).sp <= 16,
        spec_step(s, keys, now, random).wf(),
{
    if s.waiting is None {
        lemma_decoded_in_range(word_at_pc(s));
        let i = spec_decode(word_at_pc(s))->Ok_0;
        let f = fetched(s);
        if i is Nop || i is ClearScreen || i is Return || i is Jump || i is Call || i is SkipIfEqual
            || i is SkipIfNotEqual || i is JumpPlusV0 || i is SkipIfKeyPressed || i is SkipIfKeyNotPressed
            || i is WaitForKeyPress {
            lemma_execute_bounds_flow(f, i, keys, random);
        } else if i is LoadRegister || i is AddNoCarry || i is Or || i is And || i is Xor
            || i is LoadRandomWithMask || i is LoadFromDelayTimer {
            lemma_execute_bounds_alu(f, i, keys, random);
        } else if i is AddWithCarry || i is Sub || i is ShiftRight || i is SubN || i is ShiftLeft {
            lemma_execute_bounds_flags(f, i, keys, random);
        } else {
            lemma_execute_bounds_mem(f, i, keys, random);
        }
    }
    reveal(spec_advance);
}

/// Executing an instruction of one family keeps the machine well formed,
/// and the program counter within memory unless a skip runs past its end.
#[verifier::spinoff_prover]
#[verifier::rlimit(100)]
proof fn lemma_execute_bounds_flow(s: MachineState, i: Instruction, keys: Seq<bool>, random: u8)
    requires
        s.wf(),
        s.pc < MEMORY_SIZE,
        spec_encode(i) is Ok,
        execute_fault(s, i) is None,
        keys.len() == 16,
        i is Nop || i is ClearScreen || i is Return || i is Jump || i is Call || i is SkipIfEqual || i is SkipIfNotEqual || i is JumpPlusV0 || i is SkipIfKeyPressed || i is SkipIfKeyNotPressed || i is WaitForKeyPress,
    ensures
        spec_execute(s, i, keys, random).wf(),
        !(is_skip(i) && s.pc >= MEMORY_SIZE - 2) ==> spec_execute(s, i, keys, random).pc < MEMORY_SIZE,
{
    let t = spec_execute(s, i, keys, random);
    assert forall|y: int| 0 <= y < 32 implies (#[trigger] t.display[y]).len() == 64 by {}
    assert forall|k: int| 0 <= k < 16 implies (#[trigger] t.stack[k]) < MEMORY_SIZE by {}
}

/// Executing an instruction of one family keeps the machine well formed,
/// and the program counter within memory unless a skip runs past its end.
#[verifier::spinoff_prover]
#[verifier::rlimit(100)]
proof fn lemma_execute_bounds_alu(s: MachineState, i: Instruction, keys: Seq<bool>, random: u8)
    requires
        s.wf(),
        s.pc < MEMORY_SIZE,
        spec_encode(i) is Ok,
        execute_fault(s, i) is None,
        keys.len() == 16,
        i is LoadRegister || i is AddNoCarry || i is Or || i is And || i is Xor || i is LoadRandomWithMask || i is LoadFromDelayTimer,
    ensures
        spec_execute(s, i, keys, random).wf(),
        !(is_skip(i) && s.pc >= MEMORY_SIZE - 2) ==> spec_execute(s, i, keys, random).pc < MEMORY_SIZE,
{
    let t = spec_execute(s, i, keys, random);
    assert forall|y: int| 0 <= y < 32 implies (#[trigger] t.display[y]).len() == 64 by {}
    assert forall|k: int| 0 <= k < 16 implies (#[trigger] t.stack[k]) < MEMORY_SIZE by {}
}

/// Executing an instruction of one family keeps the machine well formed,
/// and the program counter within memory unless a skip runs past its end.
#[verifier::spinoff_prover]
#[verifier::rlimit(100)]
proof fn lemma_execute_bounds_flags(s: MachineState, i: Instruction, keys: Seq<bool>, random: u8)
    requires
        s.wf(),
        s.pc < MEMORY_SIZE,
        spec_encode(i) is Ok,
        execute_fault(s, i) is None,
        keys.len() == 16,
        i is AddWithCarry || i is Sub || i is ShiftRight || i is SubN || i is ShiftLeft,
    ensures
        spec_execute(s, i, keys, random).wf(),
        !(is_skip(i) && s.pc >= MEMORY_SIZE - 2) ==> spec_execute(s, i, keys, random).pc < MEMORY_SIZE,
{
    let t = spec_execute(s, i, keys, random);
    assert forall|y: int| 0 <= y < 32 implies (#[trigger] t.display[y]).len() == 64 by {}
    assert forall|k: int| 0 <= k < 16 implies (#[trigger] t.stack[k]) < MEMORY_SIZE by {}
}

/// Executing an instruction of one family keeps the machine well formed,
/// and the program counter within memory unless a skip runs past its end.
#[verifier::spinoff_prover]
#[verifier::rlimit(100)]
proof fn lemma_execute_bounds_mem(s: MachineState, i: Instruction, keys: Seq<bool>, random: u8)
    requires
        s.wf(),
        s.pc < MEMORY_SIZE,
        spec_encode(i) is Ok,
        execute_fault(s, i) is None,
        keys.len() == 16,
        i is LoadMemoryRegister || i is Draw || i is LoadIntoDelayTimer || i is LoadIntoSoundTimer || i is AddToMemoryRegister || i is LoadDigitAddress || i is StoreBcdInMemory || i is StoreRegistersInMemory || i is ReadRegistersFromMemory,
    ensures
        spec_execute(s, i, keys, random).wf(),
        !(is_skip(i) && s.pc >= MEMORY_SIZE - 2) ==> spec_execute(s, i, keys, random).pc < MEMORY_SIZE,
{
    let t = spec_execute(s, i, keys, random);
    assert forall|y: int| 0 <= y < 32 implies (#[trigger] t.display[y]).len() == 64 by {}
    assert forall|k: int| 0 <= k < 16 implies (#[trigger] t.stack[k]) < MEMORY_SIZE by {}
}

/// Drawing a sprite of no rows changes no pixel and clears VF.
pub proof fn lemma_draw_empty(s: MachineState, x: u8, y: u8)
    requires
        s.wf(),
        x < 16,
        y < 16,
    ensures
        spec_draw(s, x, y, 0).display == s.display,
        spec_draw(s, x, y, 0).v[15] == 0,
{
    let t = spec_draw(s, x, y, 0);
    assert forall|py: int| 0 <= py < 32 implies #[trigger] t.display[py] == s.display[py] by {
        assert(t.display[py] =~= s.display[py]);
    }
    assert(t.display =~= s.display);
}

/// A sprite is clipped, not wrapped: after the start coordinates are taken
/// modulo the display size, only pixels to the right of and below the start,
/// within eight columns and `n` rows of it, can change.
pub proof fn lemma_draw_clips(s: MachineState, x: u8, y: u8, n: u8, px: int, py: int)
    requires
        s.wf(),
        x < 16,
        y < 16,
        0 <= px < 64,
        0 <= py < 32,
        spec_draw(s, x, y, n).display[py][px] != s.display[py][px],
    ensures
        s.v[x as int] as int % 64 <= px < s.v[x as int] as int % 64 + 8,
        s.v[y as int] as int % 32 <= py < s.v[y as int] as int % 32 + n,
{
}

/// Whether a step executes an instruction that loads the delay timer.
pub open spec fn loads_delay_timer(s: MachineState) -> bool {
    s.waiting is None && spec_decode(word_at_pc(s))->Ok_0 is LoadIntoDelayTimer
}

/// The state after a run of steps, each with its keys, time and random byte.
pub open spec fn run(s: MachineState, inputs: Seq<(Seq<bool>, u64, u8)>) -> MachineState
    decreases inputs.len(),
{
    if inputs.len() == 0 {
        s
    } else {
        let t = inputs.last();
        spec_step(run(s, inputs.drop_last()), t.0, t.1, t.2)
    }
}

/// The work of a step leaves the time of the last timer decrement alone, and
/// the delay timer too unless it loads it.
proof fn lemma_advance_timers(s: MachineState, keys: Seq<bool>, random: u8)
    ensures
        spec_advance(s, keys, random).last_tick == s.last_tick,
        !loads_delay_timer(s) ==> spec_advance(s, keys, random).dt == s.dt,
{
    reveal(spec_advance);
}

/// The delay timer only counts down in a run without loads of it, and the
/// last decrement is at least `d - 1` periods after the first step, where `d`
/// is how far it counted down.
proof fn lemma_timer_run(s: MachineState, inputs: Seq<(Seq<bool>, u64, u8)>)
    requires
        inputs.len() > 0,
        s.last_tick <= inputs[0].1,
        forall|j: int| 0 <= j < inputs.len() - 1 ==> #[trigger] inputs[j].1 <= inputs[j + 1].1,
        forall|j: int| 0 <= j < inputs.len() ==> !loads_delay_timer(#[trigger] run(s, inputs.take(j))),
    ensures
        inputs[0].1 <= inputs.last().1,
        run(s, inputs).dt <= s.dt,
        run(s, inputs).last_tick <= inputs.last().1,
        s.dt - run(s, inputs).dt >= 1 ==> run(s, inputs).last_tick >= inputs[0].1
            + (s.dt - run(s, inputs).dt - 1) * TIMER_PERIOD_NANOS,
    decreases inputs.len(),
{
    let pre = inputs.drop_last();
    let t = inputs.last();
    assert(inputs.take(inputs.len() - 1) =~= pre);
    assert(!loads_delay_timer(run(s, pre)));
    let prev = run(s, pre);
    if pre.len() > 0 {
        assert forall|j: int| 0 <= j < pre.len() - 1 implies #[trigger] pre[j].1 <= pre[j + 1].1 by {
            assert(inputs[j].1 <= inputs[j + 1].1);
        }
        assert forall|j: int| 0 <= j < pre.len() implies !loads_delay_timer(#[trigger] run(s, pre.take(j))) by {
            assert(pre.take(j) =~= inputs.take(j));
            assert(!loads_delay_timer(run(s, inputs.take(j))));
        }
        lemma_timer_run(s, pre);
        assert(pre.last() == inputs[inputs.len() - 2]);
        assert(inputs[inputs.len() - 2].1 <= inputs[inputs.len() - 1].1);
        assert(pre[0] == inputs[0]);
    } else {
        assert(pre =~= Seq::<(Seq<bool>, u64, u8)>::empty());
        assert(prev == s);
    }
    assert(prev.last_tick <= t.1);
    lemma_advance_timers(prev, t.0, t.2);
    let a = spec_advance(prev, t.0, t.2);
    assert(run(s, inputs) == tick(a, t.1));
    let d0 = s.dt - prev.dt;
    if t.1 >= a.last_tick && t.1 - a.last_tick >= TIMER_PERIOD_NANOS {
        if d0 >= 1 {
            assert(t.1 >= inputs[0].1 + d0 * TIMER_PERIOD_NANOS) by (nonlinear_arith)
                requires
                    t.1 >= prev.last_tick + TIMER_PERIOD_NANOS,
                    prev.last_tick >= inputs[0].1 + (d0 - 1) * TIMER_PERIOD_NANOS;
        }
    }
}

/// The delay timer counts down at most once per 60th of a second: over a run
/// of steps at nondecreasing times without loads of the delay timer, it
/// changes by `d` with `d - 1 <= 60 * Δt`, so `|d| <= ⌈60 * Δt⌉ + 1`, where
/// `Δt` is the time from the first step to the last, in seconds.
pub proof fn lemma_timer_rate(s: MachineState, inputs: Seq<(Seq<bool>, u64, u8)>)
    requires
        inputs.len() > 0,
        s.last_tick <= inputs[0].1,
        forall|j: int| 0 <= j < inputs.len() - 1 ==> #[trigger] inputs[j].1 <= inputs[j + 1].1,
        forall|j: int| 0 <= j < inputs.len() ==> !loads_delay_timer(#[trigger] run(s, inputs.take(j))),
    ensures
        0 <= s.dt - run(s, inputs).dt,
        (s.dt - run(s, inputs).dt - 1) * 1_000_000_000 <= 60 * (inputs.last().1 - inputs[0].1),
{
    lemma_timer_run(s, inputs);
    let d = s.dt - run(s, inputs).dt;
    let span = inputs.last().1 - inputs[0].1;
    if d >= 1 {
        assert((d - 1) * 1_000_000_000 <= 60 * span) by (nonlinear_arith)
            requires
                d >= 1,
                (d - 1) * TIMER_PERIOD_NANOS <= span;
    }
}

} // verus!
