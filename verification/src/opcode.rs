use vstd::prelude::*;

use crate::vm::VMError;

verus! {

/// The sixteen instruction tags, one for each value of the top 4 bits of an
/// instruction word, in encoding order starting from 0.
#[derive(Debug, Clone, Copy, PartialEq, Eq, Structural)]
pub enum Opcode {
    /// branch
    BR,
    /// add
    Add,
    /// load
    LD,
    /// store
    ST,
    /// jump register
    Jsr,
    /// bitwise and
    And,
    /// load register
    Ldr,
    /// store register
    Str,
    /// unused
    Rti,
    /// bitwise not
    Not,
    /// load indirect
    Ldi,
    /// store indirect
    Sti,
    /// jump
    Jmp,
    /// reserved (unused)
    Res,
    /// load effective address
    Lea,
    /// execute trap
    Trap,
}

/// The opcode denoted by a 4-bit field value; values 16 and above decode to
/// no opcode.
pub open spec fn opcode_of(value: u16) -> Option<Opcode> {
    match value {
        0 => Some(Opcode::BR),
        1 => Some(Opcode::Add),
        2 => Some(Opcode::LD),
        3 => Some(Opcode::ST),
        4 => Some(Opcode::Jsr),
        5 => Some(Opcode::And),
        6 => Some(Opcode::Ldr),
        7 => Some(Opcode::Str),
        8 => Some(Opcode::Rti),
        9 => Some(Opcode::Not),
        10 => Some(Opcode::Ldi),
        11 => Some(Opcode::Sti),
        12 => Some(Opcode::Jmp),
        13 => Some(Opcode::Res),
        14 => Some(Opcode::Lea),
        15 => Some(Opcode::Trap),
        _ => None,
    }
}

impl Opcode {
    /// Decode the top-4-bit field of an instruction. The mapping is total on
    /// 0..=15; any larger value fails with `InvalidOpcode`.
    pub fn try_from(value: u16) -> (r: Result<Opcode, VMError>)
        ensures
            r matches Ok(op) ==> opcode_of(value) == Some(op),
            r is Err ==> r == Err::<Opcode, VMError>(VMError::InvalidOpcode) && opcode_of(value)
                is None,
    {
        match value {
            0 => Ok(Opcode::BR),
            1 => Ok(Opcode::Add),
            2 => Ok(Opcode::LD),
            3 => Ok(Opcode::ST),
            4 => Ok(Opcode::Jsr),
            5 => Ok(Opcode::And),
            6 => Ok(Opcode::Ldr),
            7 => Ok(Opcode::Str),
            8 => Ok(Opcode::Rti),
            9 => Ok(Opcode::Not),
            10 => Ok(Opcode::Ldi),
            11 => Ok(Opcode::Sti),
            12 => Ok(Opcode::Jmp),
            13 => Ok(Opcode::Res),
            14 => Ok(Opcode::Lea),
            15 => Ok(Opcode::Trap),
            _ => Err(VMError::InvalidOpcode),
        }
    }
}

} // verus!
