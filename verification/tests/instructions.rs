use lc3::bytes::sign_extend;
use lc3::host::ByteSource;
use lc3::vm::{ConditionFlag, VMError, VM};

/// A keyboard that always reports "no byte pending": enough for tests whose
/// reads never touch the keyboard status register.
struct IdleKeyboard;

impl ByteSource for IdleKeyboard {
    fn read_one(&mut self) -> Result<u8, VMError> {
        Ok(0)
    }
}

#[test]
fn instructions_sign_extend_mantains_sign() -> Result<(), VMError> {
    let x = 0b11111;
    let y = 0b01111;
    assert_eq!(sign_extend(x, 5)?, 0xFFFF);
    assert_eq!(sign_extend(y, 5)?, 0x000F);
    Ok(())
}

#[test]
fn instructions_add_to_registers_and_store() -> Result<(), VMError> {
    let instr: u16 = 0b0001_0000_0100_0010;
    let mut vm = VM::new();
    vm.registers[1] = 1;
    vm.registers[2] = 3;
    vm.add(instr)?;
    assert_eq!(vm.registers[0], 4);
    assert_eq!(vm.cond, ConditionFlag::Pos);
    Ok(())
}

#[test]
fn instructions_add_to_negative_value() -> Result<(), VMError> {
    let instr: u16 = 0b0001_0000_0100_0010;
    let mut vm = VM::new();
    vm.registers[1] = 1;
    vm.registers[2] = 0xFFFE; // -2
    vm.add(instr)?;
    assert_eq!(vm.registers[0], 0xFFFF); // -1
    assert_eq!(vm.cond, ConditionFlag::Neg);
    Ok(())
}

#[test]
fn instructions_add_to_zero() -> Result<(), VMError> {
    let instr: u16 = 0b0001_0000_0100_0010;
    let mut vm = VM::new();
    vm.registers[1] = 1;
    vm.registers[2] = 0xFFFF;
    vm.add(instr)?;
    assert_eq!(vm.registers[0], 0x0);
    assert_eq!(vm.cond, ConditionFlag::Zro);
    Ok(())
}

#[test]
fn instructions_add_with_immediate() -> Result<(), VMError> {
    let instr: u16 = 0b0001_0000_0110_0010; // add 2
    let mut vm = VM::new();
    vm.registers[1] = 1;
    vm.add(instr)?;
    assert_eq!(vm.registers[0], 0x3);
    assert_eq!(vm.cond, ConditionFlag::Pos);
    Ok(())
}

#[test]
fn instructions_and_register() -> Result<(), VMError> {
    let instr: u16 = 0b0101_0000_0100_0010;
    let mut vm = VM::new();
    vm.registers[1] = 0x0F0F;
    vm.registers[2] = 0xFFFF;
    vm.and(instr)?;
    assert_eq!(vm.registers[0], 0x0F0F);
    assert_eq!(vm.cond, ConditionFlag::Pos);
    Ok(())
}

#[test]
fn instructions_and_with_immediate() -> Result<(), VMError> {
    let instr: u16 = 0b0001_0000_0110_0111;
    let mut vm = VM::new();
    vm.registers[1] = 0xFFFF;
    vm.and(instr)?;
    assert_eq!(vm.registers[0], 0b0111);
    assert_eq!(vm.cond, ConditionFlag::Pos);
    Ok(())
}

#[test]
fn instructions_not_register() -> Result<(), VMError> {
    let instr: u16 = 0b1001_0000_0111_1111;
    let mut vm = VM::new();
    vm.registers[1] = 0x0F0F;
    vm.not(instr)?;
    assert_eq!(vm.registers[0], 0xF0F0);
    assert_eq!(vm.cond, ConditionFlag::Neg);
    Ok(())
}

#[test]
fn instructions_branch_on_flag() -> Result<(), VMError> {
    let mut vm = VM::new();
    vm.cond = ConditionFlag::Pos;
    let instr: u16 = 0b0000_0010_0000_1010; // jump 10 places on positive flag
    vm.br(instr)?;
    assert_eq!(vm.pc, 0x300A);
    Ok(())
}

#[test]
fn instructions_dont_branch_on_flag() -> Result<(), VMError> {
    let mut vm = VM::new();
    vm.cond = ConditionFlag::Neg;
    let instr: u16 = 0b0000_0010_0000_1010; // jump 10 places on positive flag
    vm.br(instr)?;
    assert_eq!(vm.pc, 0x3000);
    Ok(())
}

#[test]
fn instructions_jump_to_correct_value() -> Result<(), VMError> {
    let mut vm = VM::new();
    let instr: u16 = 0b1100_0000_0100_0000; // jump to value in R1
    vm.registers[1] = 0x4242;
    vm.jmp(instr)?;
    assert_eq!(vm.pc, 0x4242);
    Ok(())
}

#[test]
fn instructions_jump_to_subroutine() -> Result<(), VMError> {
    let mut vm = VM::new();
    let instr: u16 = 0b0100_1000_0100_0010; // add to PC 0x42
    vm.jsr(instr)?;
    assert_eq!(vm.pc, 0x3042);
    Ok(())
}

#[test]
fn instructions_jump_to_subroutine_register() -> Result<(), VMError> {
    let mut vm = VM::new();
    let instr: u16 = 0b0100_0000_1100_0000; // set PC to R3 value
    vm.registers[3] = 0x4242;
    vm.jsr(instr)?;
    assert_eq!(vm.pc, 0x4242);
    Ok(())
}

#[test]
fn instructions_lea_store_address() -> Result<(), VMError> {
    let mut vm = VM::new();
    let instr: u16 = 0b1110_0000_0100_0010; // store in R0, PC + 0x42
    vm.lea(instr)?;
    assert_eq!(vm.registers[0], 0x3042);
    Ok(())
}

#[test]
fn instructions_load_to_register() -> Result<(), VMError> {
    let mut vm = VM::new();
    let mut keyboard = IdleKeyboard;
    let instr: u16 = 0b0010_0000_0100_0010; // load in R0, value stored in PC + 0x42
    vm.mem_write(0x4242, 0x3042)?;
    vm.ld(&mut keyboard, instr)?;
    assert_eq!(vm.registers[0], 0x4242);
    Ok(())
}

#[test]
fn instructions_load_register_to_register() -> Result<(), VMError> {
    let mut vm = VM::new();
    let mut keyboard = IdleKeyboard;
    let instr: u16 = 0b0110_0000_0100_0010; // load in R0, value stored in R1 + 0x02
    vm.registers[1] = 0x3040;
    vm.mem_write(0x4242, 0x3042)?;
    vm.ld(&mut keyboard, instr)?;
    assert_eq!(vm.registers[0], 0x4242);
    Ok(())
}

#[test]
fn instructions_load_indirect() -> Result<(), VMError> {
    let mut vm = VM::new();
    let mut keyboard = IdleKeyboard;
    let instr: u16 = 0b1010_0000_0100_0010; // pc_offset is 0x42, will look for address in 0x3042
    vm.mem_write(0x4242, 0x3042)?;
    vm.mem_write(0x5353, 0x4242)?;
    vm.ldi(&mut keyboard, instr)?;
    assert_eq!(vm.registers[0], 0x5353);
    Ok(())
}

#[test]
fn instructions_store_value() -> Result<(), VMError> {
    let mut vm = VM::new();
    let mut keyboard = IdleKeyboard;
    let instr: u16 = 0b0011_0000_0100_0010; // pc_offset is 0x42, store in 0x3042 what is in R0
    vm.registers[0] = 0x4242;
    vm.st(instr)?;
    assert_eq!(vm.memory.mem_read(&mut keyboard, 0x3042)?, 0x4242);
    Ok(())
}

#[test]
fn instructions_store_indirect_value() -> Result<(), VMError> {
    let mut vm = VM::new();
    let mut keyboard = IdleKeyboard;
    let instr: u16 = 0b1011_0000_0100_0010; // pc_offset is 0x42, store what is in R0 in [0x3042]
    vm.mem_write(0x5353, 0x3042)?;
    vm.registers[0] = 0x4242;
    vm.sti(&mut keyboard, instr)?;
    assert_eq!(vm.memory.mem_read(&mut keyboard, 0x5353)?, 0x4242);
    Ok(())
}

#[test]
fn instructions_store_register_value() -> Result<(), VMError> {
    let mut vm = VM::new();
    let mut keyboard = IdleKeyboard;
    let instr: u16 = 0b0111_0000_0100_0010; // px_offset is 0x02 this plus what is in R1 is the address,
                                            //store there what is in R0
    vm.registers[0] = 0x4242;
    vm.registers[1] = 0x1234;
    vm.str(instr)?;
    assert_eq!(vm.memory.mem_read(&mut keyboard, 0x1236)?, 0x4242);
    Ok(())
}
