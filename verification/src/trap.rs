use vstd::prelude::*;

use crate::vm::VMError;

verus! {

/// The six service routines a TRAP instruction can request.
#[derive(Debug, Clone, Copy, PartialEq, Eq, Structural)]
pub enum TrapCode {
    /// Read one character into R0 (vector 0x20).
    Getc,
    /// Write R0's character to the console (vector 0x21).
    Out,
    /// Write the zero-terminated string at R0, one character per word
    /// (vector 0x22).
    Puts,
    /// Prompt for and read one character into R0, echoing it (vector 0x23).
    IN,
    /// Write the zero-terminated string at R0, two characters per word
    /// (vector 0x24).
    Putsp,
    /// Stop the machine (vector 0x25).
    Halt,
}

/// The service routine denoted by an 8-bit TRAP vector; vectors outside
/// 0x20..=0x25 denote none.
pub open spec fn trap_code_of(value: u16) -> Option<TrapCode> {
    match value {
        0x20 => Some(TrapCode::Getc),
        0x21 => Some(TrapCode::Out),
        0x22 => Some(TrapCode::Puts),
        0x23 => Some(TrapCode::IN),
        0x24 => Some(TrapCode::Putsp),
        0x25 => Some(TrapCode::Halt),
        _ => None,
    }
}

impl TrapCode {
    /// Decode a TRAP vector. Vectors outside 0x20..=0x25 fail with
    /// `InvalidTrapCode`.
    pub fn try_from(value: u16) -> (r: Result<TrapCode, VMError>)
        ensures
            r matches Ok(t) ==> trap_code_of(value) == Some(t),
            r is Err ==> r == Err::<TrapCode, VMError>(VMError::InvalidTrapCode) && trap_code_of(
                value,
            ) is None,
    {
        match value {
            0x20 => Ok(TrapCode::Getc),
            0x21 => Ok(TrapCode::Out),
            0x22 => Ok(TrapCode::Puts),
            0x23 => Ok(TrapCode::IN),
            0x24 => Ok(TrapCode::Putsp),
            0x25 => Ok(TrapCode::Halt),
            _ => Err(VMError::InvalidTrapCode),
        }
    }
}

} // verus!
