use chip8_toolchain::instruction::Instruction;
use chip8_toolchain::interpreter::{init_memory, Chip8Interpreter, Fault, Keys, Pixel, FONT_ADDRESS_START, TIMER_PERIOD_NANOS};

const NO_KEYS: Keys = [false; 16];

fn machine(rom: &[u8]) -> Chip8Interpreter {
    Chip8Interpreter::new(rom, 1_000_000, 0)
}

#[test]
fn store_bcd_in_memory() {
    let mut m = machine(&[]);
    m.v_registers[3] = 123;
    m.memory_register = 0x300;
    m.execute_with(Instruction::StoreBcdInMemory(3), &NO_KEYS, 0);
    assert_eq!(&m.memory[0x300..0x303], &[1, 2, 3]);

    let mut m = machine(&[0xF3, 0x33]);
    m.v_registers[3] = 123;
    m.memory_register = 0x300;
    assert!(m.step(&NO_KEYS, 0).is_some());
    assert_eq!(&m.memory[0x300..0x303], &[1, 2, 3]);
    assert_eq!(m.program_counter, 0x202);
}

#[test]
fn memory_holds_font_and_rom() {
    let mem = init_memory(&[0xAB, 0xCD]);
    assert_eq!(mem[0x200], 0xAB);
    assert_eq!(mem[0x201], 0xCD);
    assert_eq!(mem[0x202], 0);
    let f = FONT_ADDRESS_START as usize;
    assert_eq!(&mem[f..f + 5], &[0xF0, 0x90, 0x90, 0x90, 0xF0]);
    assert_eq!(&mem[f + 75..f + 80], &[0xF0, 0x80, 0xF0, 0x80, 0x80]);
}

#[test]
fn draw_with_no_rows_changes_nothing() {
    let mut m = machine(&[]);
    m.display[0][0] = Pixel::White;
    m.v_registers[0xF] = 7;
    m.execute_with(Instruction::Draw(0, 1, 0), &NO_KEYS, 0);
    assert_eq!(m.display[0][0], Pixel::White);
    assert_eq!(m.v_registers[0xF], 0);
    let lit = m.display.iter().flatten().filter(|p| **p == Pixel::White).count();
    assert_eq!(lit, 1);
}

#[test]
fn draw_clips_at_the_edges() {
    let mut m = machine(&[]);
    m.memory_register = 0x300;
    m.memory[0x300] = 0xFF;
    m.memory[0x301] = 0xFF;
    m.v_registers[0] = 60 + 64;
    m.v_registers[1] = 31;
    m.execute_with(Instruction::Draw(0, 1, 2), &NO_KEYS, 0);
    for x in 60..64 {
        assert_eq!(m.display[31][x], Pixel::White);
    }
    for x in 0..4 {
        assert_eq!(m.display[31][x], Pixel::Black);
        assert_eq!(m.display[0][x], Pixel::Black);
    }
    assert_eq!(m.display[0][60], Pixel::Black);
    assert_eq!(m.v_registers[0xF], 0);
}

#[test]
fn draw_twice_erases_and_sets_collision() {
    let mut m = machine(&[]);
    m.memory_register = FONT_ADDRESS_START;
    m.v_registers[2] = 10;
    m.v_registers[3] = 5;
    m.execute_with(Instruction::Draw(2, 3, 5), &NO_KEYS, 0);
    assert_eq!(m.v_registers[0xF], 0);
    assert_eq!(m.display[5][10], Pixel::White);
    assert_eq!(m.display[6][11], Pixel::Black);
    m.execute_with(Instruction::Draw(2, 3, 5), &NO_KEYS, 0);
    assert_eq!(m.v_registers[0xF], 1);
    assert!(m.display.iter().flatten().all(|p| *p == Pixel::Black));
}

#[test]
fn arithmetic_flags() {
    let mut m = machine(&[]);
    m.v_registers[1] = 200;
    m.v_registers[2] = 100;
    m.execute_with(Instruction::AddWithCarry(1, 2), &NO_KEYS, 0);
    assert_eq!((m.v_registers[1], m.v_registers[0xF]), (44, 1));
    m.v_registers[1] = 5;
    m.v_registers[2] = 10;
    m.execute_with(Instruction::Sub(1, 2), &NO_KEYS, 0);
    assert_eq!((m.v_registers[1], m.v_registers[0xF]), (251, 1));
    m.v_registers[1] = 5;
    m.execute_with(Instruction::SubN(1, 2), &NO_KEYS, 0);
    assert_eq!((m.v_registers[1], m.v_registers[0xF]), (5, 0));
    m.v_registers[4] = 0b1000_0011;
    m.execute_with(Instruction::ShiftRight(4), &NO_KEYS, 0);
    assert_eq!((m.v_registers[4], m.v_registers[0xF]), (0b0100_0001, 1));
    m.v_registers[4] = 0b1000_0011;
    m.execute_with(Instruction::ShiftLeft(4), &NO_KEYS, 0);
    assert_eq!((m.v_registers[4], m.v_registers[0xF]), (0b0000_0110, 0x80));
    m.v_registers[5] = 0xF0;
    m.execute_with(Instruction::LoadRandomWithMask(5, 0x0F), &NO_KEYS, 0xAB);
    assert_eq!(m.v_registers[5], 0x0B);
}

#[test]
fn call_and_return() {
    let mut m = machine(&[0x23, 0x00]);
    m.memory[0x300] = 0x00;
    m.memory[0x301] = 0xEE;
    m.step(&NO_KEYS, 0).unwrap();
    assert_eq!((m.program_counter, m.stack_pointer), (0x300, 1));
    m.step(&NO_KEYS, 0).unwrap();
    assert_eq!((m.program_counter, m.stack_pointer), (0x202, 0));
    m.memory[0x202] = 0x00;
    m.memory[0x203] = 0xEE;
    assert_eq!(m.fault(), Some(Fault::StackUnderflow));
    assert_eq!(m.program_counter, 0x202);
}

#[test]
fn unknown_word_is_a_fault() {
    let mut m = machine(&[0xFF, 0xFF]);
    assert_eq!(m.fault(), Some(Fault::UnrecognisedBytecode(0xFFFF, 0x200)));
    let mut m = machine(&[]);
    m.program_counter = 0xFFF;
    assert_eq!(m.fault(), Some(Fault::ProgramCounterOutOfRange(0xFFF)));
}

#[test]
fn skips_and_keys() {
    let mut m = machine(&[0x30, 0x07, 0x00, 0x00, 0xE1, 0x9E]);
    m.v_registers[0] = 7;
    m.step(&NO_KEYS, 0).unwrap();
    assert_eq!(m.program_counter, 0x204);
    m.v_registers[1] = 3;
    let mut keys = NO_KEYS;
    keys[3] = true;
    m.step(&keys, 0).unwrap();
    assert_eq!(m.program_counter, 0x208);
    m.program_counter = 0x204;
    m.v_registers[1] = 20;
    assert_eq!(m.fault(), Some(Fault::KeyOutOfRange(20)));
}

#[test]
fn wait_for_key_press() {
    let mut m = machine(&[0xF5, 0x0A]);
    m.step(&NO_KEYS, 0).unwrap();
    assert_eq!(m.waiting_for_key_press, Some(5));
    m.step(&NO_KEYS, 0).unwrap();
    assert_eq!(m.waiting_for_key_press, Some(5));
    let mut keys = NO_KEYS;
    keys[9] = true;
    keys[12] = true;
    m.step(&keys, 0).unwrap();
    assert_eq!((m.v_registers[5], m.waiting_for_key_press), (9, None));
}

#[test]
fn timers_count_down_at_sixty_hertz() {
    let mut m = machine(&[0x12, 0x00]);
    m.delay_timer = 10;
    m.sound_timer = 1;
    assert!(m.buzzer_active());
    m.step(&NO_KEYS, TIMER_PERIOD_NANOS - 1).unwrap();
    assert_eq!(m.delay_timer, 10);
    m.step(&NO_KEYS, TIMER_PERIOD_NANOS).unwrap();
    assert_eq!((m.delay_timer, m.sound_timer), (9, 0));
    assert!(!m.buzzer_active());
    m.step(&NO_KEYS, TIMER_PERIOD_NANOS + 1).unwrap();
    assert_eq!(m.delay_timer, 9);
    let mut t = TIMER_PERIOD_NANOS;
    for _ in 0..100 {
        t += 1_000_000;
        m.step(&NO_KEYS, t).unwrap();
    }
    // 100 ms later: at most six more decrements.
    assert!(m.delay_timer >= 3);
    assert_eq!(m.speed(), 1_000_000);
}

#[test]
fn program_counter_stays_in_memory() {
    let mut m = machine(&[]);
    m.memory[0xFFE] = 0x12;
    m.memory[0xFFF] = 0x00;
    m.program_counter = 0xFFE;
    m.step(&NO_KEYS, 0).unwrap();
    assert_eq!(m.program_counter, 0x200);
    m.v_registers[0] = 0xFF;
    m.execute_with(Instruction::JumpPlusV0(0xFFF), &NO_KEYS, 0);
    assert_eq!(m.program_counter, 0x0FE);
}

#[test]
fn digit_address_and_index() {
    let mut m = machine(&[]);
    m.v_registers[1] = 0x1A;
    m.execute_with(Instruction::LoadDigitAddress(1), &NO_KEYS, 0);
    assert_eq!(m.memory_register, FONT_ADDRESS_START + 50);
    m.memory_register = 0xFFF;
    m.execute_with(Instruction::AddToMemoryRegister(1), &NO_KEYS, 0);
    assert_eq!(m.memory_register, 0x019);
}

#[test]
fn store_and_read_registers() {
    let mut m = machine(&[]);
    for r in 0..16 {
        m.v_registers[r] = r as u8 + 1;
    }
    m.memory_register = 0x400;
    m.execute_with(Instruction::StoreRegistersInMemory(3), &NO_KEYS, 0);
    assert_eq!(&m.memory[0x400..0x405], &[1, 2, 3, 4, 0]);
    assert_eq!(m.memory_register, 0x400);
    m.memory[0x400] = 42;
    m.execute_with(Instruction::ReadRegistersFromMemory(0), &NO_KEYS, 0);
    assert_eq!((m.v_registers[0], m.v_registers[1]), (42, 2));
    m.memory_register = 0xFFE;
    m.memory[0x200] = 0xF0;
    m.memory[0x201] = 0x33;
    m.program_counter = 0x200;
    assert_eq!(m.fault(), Some(Fault::MemoryOutOfRange(0xFFE)));
}

#[test]
fn call_with_a_full_stack_is_a_fault() {
    let mut m = machine(&[0x22, 0x00]);
    for depth in 1..=16 {
        m.step(&NO_KEYS, 0).unwrap();
        assert_eq!(m.stack_pointer, depth);
    }
    assert_eq!(m.fault(), Some(Fault::StackOverflow));
    assert_eq!(m.stack_pointer, 16);
}

#[test]
fn random_byte_is_masked() {
    let mut m = machine(&[0xC5, 0x00, 0xC6, 0x0F]);
    m.v_registers[5] = 0xAA;
    m.step(&NO_KEYS, 0).unwrap();
    assert_eq!(m.v_registers[5], 0);
    m.step(&NO_KEYS, 0).unwrap();
    assert!(m.v_registers[6] <= 0x0F);
    assert_eq!(m.program_counter, 0x204);
}
