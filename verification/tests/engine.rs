use lc3::bytes::{concatenate_bytes, sign_extend};
use lc3::host::{ByteSink, ByteSource};
use lc3::vm::{ConditionFlag, VMError, VM};

/// A keyboard handing out a script of bytes, then zeroes.
struct ScriptedKeyboard {
    bytes: Vec<u8>,
    pos: usize,
}

impl ScriptedKeyboard {
    fn new(bytes: &[u8]) -> ScriptedKeyboard {
        ScriptedKeyboard { bytes: bytes.to_vec(), pos: 0 }
    }
}

impl ByteSource for ScriptedKeyboard {
    fn read_one(&mut self) -> Result<u8, VMError> {
        if self.pos < self.bytes.len() {
            let b = self.bytes[self.pos];
            self.pos += 1;
            Ok(b)
        } else {
            Ok(0)
        }
    }
}

/// A keyboard whose read always fails.
struct BrokenKeyboard;

impl ByteSource for BrokenKeyboard {
    fn read_one(&mut self) -> Result<u8, VMError> {
        Err(VMError::StandardIO)
    }
}

/// A console that keeps every byte it is handed.
struct RecordingConsole {
    written: Vec<u8>,
}

impl RecordingConsole {
    fn new() -> RecordingConsole {
        RecordingConsole { written: Vec::new() }
    }
}

impl ByteSink for RecordingConsole {
    fn write_one(&mut self, b: u8) -> Result<(), VMError> {
        self.written.push(b);
        Ok(())
    }

    fn flush(&mut self) -> Result<(), VMError> {
        Ok(())
    }
}

#[test]
fn sign_extend_agrees_with_twos_complement() -> Result<(), VMError> {
    // Low n bits read as signed, represented in 16 bits.
    assert_eq!(sign_extend(0b01111, 5)?, 0x000F); // +15
    assert_eq!(sign_extend(0b10000, 5)?, 0xFFF0); // -16
    assert_eq!(sign_extend(0x3F, 6)?, 0xFFFF); // -1
    assert_eq!(sign_extend(0x1FF, 9)?, 0xFFFF); // -1
    assert_eq!(sign_extend(0x100, 9)?, 0xFF00); // -256
    assert_eq!(sign_extend(0x7FF, 11)?, 0xFFFF); // -1
    assert_eq!(sign_extend(1, 1)?, 0xFFFF); // -1 in one bit
    assert_eq!(sign_extend(0x8000, 16)?, 0x8000); // 16 bits are left as they are
    assert_eq!(sign_extend(0x1234, 16)?, 0x1234);
    Ok(())
}

#[test]
fn sign_extend_zero_bits_overflows() {
    assert_eq!(sign_extend(0x42, 0), Err(VMError::Overflow));
}

#[test]
fn concatenate_rejects_wrong_length() {
    let one: [u8; 1] = [0x12];
    let three: [u8; 3] = [0x12, 0x34, 0x56];
    assert_eq!(concatenate_bytes(&one), Err(VMError::ConcatenatingBytes));
    assert_eq!(concatenate_bytes(&three), Err(VMError::ConcatenatingBytes));
}

#[test]
fn add_immediate_wraps_modulo_two_to_the_sixteen() -> Result<(), VMError> {
    let mut vm = VM::new();
    vm.registers[1] = 0xFFFF;
    vm.add(0b0001_0000_0110_0001)?; // ADD R0, R1, #1
    assert_eq!(vm.registers[0], 0x0000);
    assert_eq!(vm.cond, ConditionFlag::Zro);
    Ok(())
}

#[test]
fn not_twice_on_same_register_restores_it() -> Result<(), VMError> {
    let mut vm = VM::new();
    vm.registers[2] = 0x1234;
    let instr: u16 = 0b1001_0100_1011_1111; // NOT R2, R2
    vm.not(instr)?;
    assert_eq!(vm.registers[2], 0xEDCB);
    vm.not(instr)?;
    assert_eq!(vm.registers[2], 0x1234);
    assert_eq!(vm.cond, ConditionFlag::Pos);
    Ok(())
}

#[test]
fn jsr_stores_return_address_in_r7() -> Result<(), VMError> {
    let mut vm = VM::new();
    let instr: u16 = 0b0100_1000_0100_0010; // JSR 0x42
    vm.jsr(instr)?;
    assert_eq!(vm.registers[7], 0x3000);
    assert_eq!(vm.pc, 0x3042);
    Ok(())
}

#[test]
fn execute_rejects_rti_and_res() {
    let mut vm = VM::new();
    let mut keyboard = ScriptedKeyboard::new(&[]);
    let mut console = RecordingConsole::new();
    assert_eq!(
        vm.execute(&mut keyboard, &mut console, 0x8000),
        Err(VMError::InvalidOpcode)
    );
    assert_eq!(
        vm.execute(&mut keyboard, &mut console, 0xD000),
        Err(VMError::InvalidOpcode)
    );
}

#[test]
fn trap_rejects_unknown_vector_after_writing_r7() {
    let mut vm = VM::new();
    let mut keyboard = ScriptedKeyboard::new(&[]);
    let mut console = RecordingConsole::new();
    let r = vm.execute(&mut keyboard, &mut console, 0xF026);
    assert_eq!(r, Err(VMError::InvalidTrapCode));
    assert_eq!(vm.registers[7], 0x3000);
}

#[test]
fn out_rejects_wide_character() {
    let mut vm = VM::new();
    let mut console = RecordingConsole::new();
    vm.registers[0] = 0x0100;
    assert_eq!(vm.out(&mut console), Err(VMError::InvalidCharacter));
    assert!(console.written.is_empty());
}

#[test]
fn out_writes_the_low_byte_and_keeps_cond() -> Result<(), VMError> {
    let mut vm = VM::new();
    let mut console = RecordingConsole::new();
    vm.registers[0] = 0x41;
    vm.cond = ConditionFlag::Neg;
    vm.out(&mut console)?;
    assert_eq!(console.written, vec![0x41]);
    assert_eq!(vm.cond, ConditionFlag::Neg);
    Ok(())
}

#[test]
fn mem_write_rejects_out_of_range_index() {
    let mut vm = VM::new();
    assert_eq!(vm.mem_write(7, 0x10000), Err(VMError::MemoryIndex));
}

#[test]
fn loader_rejects_missing_origin() {
    let mut vm = VM::new();
    let image: [u8; 1] = [0x30];
    assert_eq!(vm.read_image(&image), Err(VMError::ConcatenatingBytes));
}

#[test]
fn loader_stores_what_fits_then_fails_past_the_end() -> Result<(), VMError> {
    let mut vm = VM::new();
    let mut keyboard = ScriptedKeyboard::new(&[]);
    // origin 0xFFFF with two words: the second has no cell to go to
    let image: [u8; 6] = [0xFF, 0xFF, 0x11, 0x22, 0x33, 0x44];
    assert_eq!(vm.read_image(&image), Err(VMError::MemoryIndex));
    assert_eq!(vm.memory.mem_read(&mut keyboard, 0xFFFF)?, 0x1122);
    Ok(())
}

#[test]
fn loader_leaves_other_cells_alone() -> Result<(), VMError> {
    let mut vm = VM::new();
    let mut keyboard = ScriptedKeyboard::new(&[]);
    vm.mem_write(0xBEEF, 0x2FFF)?;
    vm.mem_write(0xCAFE, 0x3002)?;
    let image: [u8; 6] = [0x30, 0x00, 0x12, 0x34, 0x56, 0x78];
    vm.read_image(&image)?;
    assert_eq!(vm.memory.mem_read(&mut keyboard, 0x3000)?, 0x1234);
    assert_eq!(vm.memory.mem_read(&mut keyboard, 0x3001)?, 0x5678);
    assert_eq!(vm.memory.mem_read(&mut keyboard, 0x2FFF)?, 0xBEEF);
    assert_eq!(vm.memory.mem_read(&mut keyboard, 0x3002)?, 0xCAFE);
    Ok(())
}

#[test]
fn loader_accepts_an_origin_only_image() -> Result<(), VMError> {
    let mut vm = VM::new();
    let mut keyboard = ScriptedKeyboard::new(&[]);
    let image: [u8; 2] = [0x30, 0x00];
    vm.read_image(&image)?;
    assert_eq!(vm.memory.mem_read(&mut keyboard, 0x3000)?, 0);
    Ok(())
}

#[test]
fn reading_kbsr_with_a_key_pending_sets_both_registers() -> Result<(), VMError> {
    let mut vm = VM::new();
    let mut keyboard = ScriptedKeyboard::new(&[0x41]);
    let status = vm.memory.mem_read(&mut keyboard, 0xFE00)?;
    assert_eq!(status, 0x8000);
    assert_eq!(vm.memory.mem_read(&mut keyboard, 0xFE02)?, 0x0041);
    Ok(())
}

#[test]
fn reading_kbsr_with_no_key_clears_the_status() -> Result<(), VMError> {
    let mut vm = VM::new();
    let mut keyboard = ScriptedKeyboard::new(&[]);
    vm.mem_write(0x8000, 0xFE00)?;
    let status = vm.memory.mem_read(&mut keyboard, 0xFE00)?;
    assert_eq!(status, 0);
    Ok(())
}

#[test]
fn ldr_from_kbsr_probes_the_keyboard() -> Result<(), VMError> {
    let mut vm = VM::new();
    let mut keyboard = ScriptedKeyboard::new(&[0x07]);
    vm.registers[1] = 0xFE00;
    let instr: u16 = 0b0110_0000_0100_0000; // LDR R0, R1, #0
    vm.ldr(&mut keyboard, instr)?;
    assert_eq!(vm.registers[0], 0x8000);
    assert_eq!(vm.cond, ConditionFlag::Neg);
    Ok(())
}

#[test]
fn getc_reads_into_r0_and_updates_cond() -> Result<(), VMError> {
    let mut vm = VM::new();
    let mut keyboard = ScriptedKeyboard::new(&[0x61]);
    vm.getc(&mut keyboard)?;
    assert_eq!(vm.registers[0], 0x61);
    assert_eq!(vm.cond, ConditionFlag::Pos);
    let mut empty = ScriptedKeyboard::new(&[]);
    vm.getc(&mut empty)?;
    assert_eq!(vm.registers[0], 0);
    assert_eq!(vm.cond, ConditionFlag::Zro);
    Ok(())
}

#[test]
fn getc_propagates_a_broken_keyboard() {
    let mut vm = VM::new();
    let mut keyboard = BrokenKeyboard;
    assert_eq!(vm.getc(&mut keyboard), Err(VMError::StandardIO));
    assert_eq!(vm.registers[0], 0);
}

#[test]
fn puts_writes_each_word_as_one_byte() -> Result<(), VMError> {
    let mut vm = VM::new();
    let mut keyboard = ScriptedKeyboard::new(&[]);
    let mut console = RecordingConsole::new();
    vm.mem_write(0x0064, 0x4000)?;
    vm.mem_write(0x0065, 0x4001)?;
    vm.mem_write(0x0066, 0x4002)?;
    vm.mem_write(0x0067, 0x4003)?;
    vm.registers[0] = 0x4000;
    vm.puts(&mut keyboard, &mut console)?;
    assert_eq!(console.written, vec![0x64, 0x65, 0x66, 0x67]);
    Ok(())
}

#[test]
fn puts_rejects_a_wide_word() -> Result<(), VMError> {
    let mut vm = VM::new();
    let mut keyboard = ScriptedKeyboard::new(&[]);
    let mut console = RecordingConsole::new();
    vm.mem_write(0x0041, 0x4000)?;
    vm.mem_write(0x0141, 0x4001)?;
    vm.registers[0] = 0x4000;
    assert_eq!(
        vm.puts(&mut keyboard, &mut console),
        Err(VMError::InvalidCharacter)
    );
    // only the words before the wide one were written
    assert_eq!(console.written, vec![0x41]);
    Ok(())
}

#[test]
fn puts_fails_past_the_end_of_memory() -> Result<(), VMError> {
    let mut vm = VM::new();
    let mut keyboard = ScriptedKeyboard::new(&[]);
    let mut console = RecordingConsole::new();
    vm.mem_write(0x0041, 0xFFFF)?;
    vm.registers[0] = 0xFFFF;
    assert_eq!(
        vm.puts(&mut keyboard, &mut console),
        Err(VMError::MemoryIndex)
    );
    Ok(())
}

#[test]
fn putsp_fails_past_the_end_of_memory() -> Result<(), VMError> {
    let mut vm = VM::new();
    let mut keyboard = ScriptedKeyboard::new(&[]);
    let mut console = RecordingConsole::new();
    vm.mem_write(0x6564, 0xFFFF)?;
    vm.registers[0] = 0xFFFF;
    assert_eq!(
        vm.putsp(&mut keyboard, &mut console),
        Err(VMError::MemoryIndex)
    );
    assert_eq!(console.written, vec![0x64, 0x65]);
    Ok(())
}

#[test]
fn putsp_writes_two_bytes_per_word_low_first() -> Result<(), VMError> {
    let mut vm = VM::new();
    let mut keyboard = ScriptedKeyboard::new(&[]);
    let mut console = RecordingConsole::new();
    vm.mem_write(0x6564, 0x4000)?; // d e
    vm.mem_write(0x6766, 0x4001)?; // f g
    vm.registers[0] = 0x4000;
    vm.putsp(&mut keyboard, &mut console)?;
    assert_eq!(console.written, vec![0x64, 0x65, 0x66, 0x67]);
    Ok(())
}

#[test]
fn putsp_writes_a_zero_high_byte_inside_a_nonzero_word() -> Result<(), VMError> {
    let mut vm = VM::new();
    let mut keyboard = ScriptedKeyboard::new(&[]);
    let mut console = RecordingConsole::new();
    vm.mem_write(0x0064, 0x4000)?; // d then NUL
    vm.registers[0] = 0x4000;
    vm.putsp(&mut keyboard, &mut console)?;
    assert_eq!(console.written, vec![0x64, 0x00]);
    Ok(())
}

#[test]
fn in_trap_prompts_echoes_and_sets_r0() -> Result<(), VMError> {
    let mut vm = VM::new();
    let mut keyboard = ScriptedKeyboard::new(&[0x78]);
    let mut console = RecordingConsole::new();
    vm.in_trap(&mut keyboard, &mut console)?;
    let mut expected: Vec<u8> = b"Enter a character: \n".to_vec();
    expected.push(0x78);
    assert_eq!(console.written, expected);
    assert_eq!(vm.registers[0], 0x78);
    assert_eq!(vm.cond, ConditionFlag::Pos);
    Ok(())
}

#[test]
fn halt_prints_its_message() -> Result<(), VMError> {
    let mut vm = VM::new();
    let mut console = RecordingConsole::new();
    vm.running = true;
    vm.halt(&mut console)?;
    assert_eq!(console.written, b"HALT\n".to_vec());
    assert!(!vm.running);
    Ok(())
}

#[test]
fn trap_halt_leaves_r7_at_the_return_address() -> Result<(), VMError> {
    let mut vm = VM::new();
    let mut keyboard = ScriptedKeyboard::new(&[]);
    let mut console = RecordingConsole::new();
    vm.running = true;
    vm.trap(&mut keyboard, &mut console, 0xF025)?;
    assert_eq!(vm.registers[7], 0x3000);
    assert!(!vm.running);
    Ok(())
}

#[test]
fn step_fetches_increments_and_executes() -> Result<(), VMError> {
    let mut vm = VM::new();
    let mut keyboard = ScriptedKeyboard::new(&[]);
    let mut console = RecordingConsole::new();
    vm.mem_write(0b0001_0000_0110_0010, 0x3000)?; // ADD R0, R1, #2
    vm.registers[1] = 5;
    vm.step(&mut keyboard, &mut console)?;
    assert_eq!(vm.pc, 0x3001);
    assert_eq!(vm.registers[0], 7);
    assert_eq!(vm.cond, ConditionFlag::Pos);
    Ok(())
}

#[test]
fn step_fails_when_the_pc_cannot_advance() -> Result<(), VMError> {
    let mut vm = VM::new();
    let mut keyboard = ScriptedKeyboard::new(&[]);
    let mut console = RecordingConsole::new();
    vm.pc = 0xFFFF;
    assert_eq!(
        vm.step(&mut keyboard, &mut console),
        Err(VMError::MemoryIndex)
    );
    Ok(())
}

#[test]
fn stepping_a_loaded_program_until_halt() -> Result<(), VMError> {
    let mut vm = VM::new();
    let mut keyboard = ScriptedKeyboard::new(&[]);
    let mut console = RecordingConsole::new();
    // at 0x3000: ADD R0, R0, #5; TRAP HALT
    let image: [u8; 6] = [0x30, 0x00, 0x10, 0x25, 0xF0, 0x25];
    vm.read_image(&image)?;
    vm.running = true;
    while vm.running {
        vm.step(&mut keyboard, &mut console)?;
    }
    assert_eq!(vm.registers[0], 5);
    assert_eq!(vm.pc, 0x3002);
    assert_eq!(console.written, b"HALT\n".to_vec());
    Ok(())
}

#[test]
fn run_executes_a_program_until_halt() -> Result<(), VMError> {
    let mut vm = VM::new();
    let mut keyboard = ScriptedKeyboard::new(&[]);
    let mut console = RecordingConsole::new();
    // at 0x3000: ADD R0, R0, #5; TRAP OUT; TRAP HALT
    let image: [u8; 8] = [0x30, 0x00, 0x10, 0x25, 0xF0, 0x21, 0xF0, 0x25];
    vm.read_image(&image)?;
    let halted = vm.run(&mut keyboard, &mut console, 100)?;
    assert!(halted);
    assert!(!vm.running);
    assert_eq!(vm.registers[0], 5);
    assert_eq!(console.written, b"\x05HALT\n".to_vec());
    Ok(())
}

#[test]
fn run_stops_when_its_step_budget_is_spent() -> Result<(), VMError> {
    let mut vm = VM::new();
    let mut keyboard = ScriptedKeyboard::new(&[]);
    let mut console = RecordingConsole::new();
    // at 0x3000: a branch-to-self loop (BRnzp #-1)
    let image: [u8; 4] = [0x30, 0x00, 0x0F, 0xFF];
    vm.read_image(&image)?;
    let halted = vm.run(&mut keyboard, &mut console, 10)?;
    assert!(!halted);
    assert!(vm.running);
    assert_eq!(vm.pc, 0x3000);
    Ok(())
}
