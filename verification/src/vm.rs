use vstd::prelude::*;

use crate::bytes::{lemma_sign_extend_agrees, sign_extend, sign_extended};
use crate::host::{ByteSink, ByteSource};
use crate::opcode::{opcode_of, Opcode};
use crate::trap::{trap_code_of, TrapCode};
use crate::memory::{key_probed, loaded, image_origin, image_words, image_word_count, probed, Memory, MEMORY_MAX, MR_KBDR, MR_KBSR};

verus! {

/// Number of general-purpose registers.
pub const TOTAL_REGISTERS: usize = 8;

/// The kinds of failure the interpreter can report. All of them are fatal
/// to the current run: the fetch/execute loop returns the error to the
/// caller, which prints it and exits.
#[derive(Debug, Clone, Copy, PartialEq, Eq, Structural)]
pub enum VMError {
    /// The image path could not be opened or read.
    ReadingFile,
    /// The image byte stream is malformed (missing origin word).
    ConcatenatingBytes,
    /// `sign_extend` was asked for a 0-bit field.
    Overflow,
    /// An address walked past the end of memory, or an access was out of range.
    MemoryIndex,
    /// RTI or RES was executed.
    InvalidOpcode,
    /// A register index of 8 or more was used.
    InvalidRegister,
    /// A TRAP vector outside 0x20..=0x25 was requested.
    InvalidTrapCode,
    /// A host byte channel reported an error.
    StandardIO,
    /// An output character value exceeded 255.
    InvalidCharacter,
}

/// The condition code: set by every operation that writes a general
/// register, according to the sign of the value written.
#[derive(Debug, Clone, Copy, PartialEq, Eq, Structural)]
pub enum ConditionFlag {
    Pos,
    Zro,
    Neg,
}

/// The machine as mathematics: what the contracts below speak of. The view
/// of a [`VM`] is one of these.
pub ghost struct VmState {
    /// The eight general registers.
    pub regs: Seq<u16>,
    /// The program counter.
    pub pc: u16,
    /// The condition code.
    pub cond: ConditionFlag,
    /// Whether the fetch/execute loop keeps going.
    pub running: bool,
    /// The 65,536 memory words.
    pub mem: Seq<u16>,
    /// Every byte successfully handed to the host output so far.
    pub out: Seq<u8>,
}

impl VmState {
    /// The shape every reachable machine state has: eight registers and a
    /// full memory.
    pub open spec fn wf(self) -> bool {
        self.regs.len() == TOTAL_REGISTERS && self.mem.len() == MEMORY_MAX
    }
}

/// The LC-3 machine: registers, program counter, condition code, running
/// flag, and memory. The `out_log` field is ghost bookkeeping: the bytes
/// the machine has successfully written to the host output.
pub struct VM {
    pub registers: Vec<u16>,
    pub pc: u16,
    pub cond: ConditionFlag,
    pub running: bool,
    pub memory: Memory,
    pub out_log: Ghost<Seq<u8>>,
}

impl View for VM {
    type V = VmState;

    open spec fn view(&self) -> VmState {
        VmState {
            regs: self.registers@,
            pc: self.pc,
            cond: self.cond,
            running: self.running,
            mem: self.memory@,
            out: self.out_log@,
        }
    }
}

/// The destination-register field, bits 11..9 (for stores: the source).
pub open spec fn dr_of(instr: u16) -> u16 {
    (instr >> 9) & 0b111
}

/// The first source-register field, bits 8..6 (also the base register).
pub open spec fn sr1_of(instr: u16) -> u16 {
    (instr >> 6) & 0b111
}

/// The second source-register field, bits 2..0.
pub open spec fn sr2_of(instr: u16) -> u16 {
    instr & 0b111
}

/// Bit 5: when set, the second operand is an immediate.
pub open spec fn imm_flag_of(instr: u16) -> bool {
    (instr >> 5) & 1 == 1
}

/// Bit 11 of JSR: when set, the target is pc-relative.
pub open spec fn long_flag_of(instr: u16) -> bool {
    (instr >> 11) & 1 == 1
}

/// The condition mask of BR, bits 11..9: negative, zero, positive.
pub open spec fn cond_mask_of(instr: u16) -> u16 {
    (instr >> 9) & 0b111
}

/// The sign-extended 5-bit immediate.
pub open spec fn imm5_of(instr: u16) -> u16 {
    sign_extended(instr & 0x1F, 5)
}

/// The sign-extended 6-bit offset.
pub open spec fn offset6_of(instr: u16) -> u16 {
    sign_extended(instr & 0x3F, 6)
}

/// The sign-extended 9-bit pc-relative offset.
pub open spec fn pc_offset9_of(instr: u16) -> u16 {
    sign_extended(instr & 0x1FF, 9)
}

/// The sign-extended 11-bit pc-relative offset.
pub open spec fn pc_offset11_of(instr: u16) -> u16 {
    sign_extended(instr & 0x7FF, 11)
}

/// 16-bit wrapping addition: all PC and address offset arithmetic is taken
/// modulo 2^16.
pub open spec fn wrap_add(x: u16, y: u16) -> u16 {
    ((x + y) % 0x10000) as u16
}

/// The condition code a value sets: `Zro` for zero, `Neg` when bit 15 is
/// set (the value is negative in two's complement), `Pos` otherwise.
pub open spec fn flag_for(v: u16) -> ConditionFlag {
    if v == 0 {
        ConditionFlag::Zro
    } else if v >= 0x8000 {
        ConditionFlag::Neg
    } else {
        ConditionFlag::Pos
    }
}

/// Every instruction field is in range: register fields are below 8, the
/// opcode field below 16, and each immediate fits its bit count.
proof fn lemma_field_bounds(instr: u16)
    by (bit_vector)
    ensures
        (instr >> 9) & 0b111 < 8,
        (instr >> 6) & 0b111 < 8,
        instr & 0b111 < 8,
        instr >> 12 < 16,
        ((instr & 0x1F) as u32) < (1u32 << 5u32),
        ((instr & 0x3F) as u32) < (1u32 << 6u32),
        ((instr & 0x1FF) as u32) < (1u32 << 9u32),
        ((instr & 0x7FF) as u32) < (1u32 << 11u32),
{
}

/// What `u16::wrapping_add` returns is addition modulo 2^16.
proof fn lemma_wrapping_add_is_mod(x: u16, y: u16)
    ensures
        vstd::wrapping::u16_specs::wrapping_add(x, y) == wrap_add(x, y),
{
    if x + y > 0xFFFF {
        assert((x + y) % 0x10000 == x + y - 0x10000);
    }
}

/// Whether BR's condition mask selects the current condition code: bit 11
/// matches `Neg`, bit 10 matches `Zro`, bit 9 matches `Pos`.
pub open spec fn branch_taken(cond: ConditionFlag, instr: u16) -> bool {
    (match cond {
        ConditionFlag::Neg => cond_mask_of(instr) & 0b100,
        ConditionFlag::Zro => cond_mask_of(instr) & 0b010,
        ConditionFlag::Pos => cond_mask_of(instr) & 0b001,
    }) != 0
}

/// ADD: DR holds SR1 plus the second operand (SR2 or imm5), modulo 2^16,
/// and the condition code follows the stored value.
pub open spec fn add_post(pre: VmState, post: VmState, instr: u16) -> bool {
    let a = pre.regs[sr1_of(instr) as int];
    let b = if imm_flag_of(instr) {
        imm5_of(instr)
    } else {
        pre.regs[sr2_of(instr) as int]
    };
    let v = wrap_add(a, b);
    post == (VmState { regs: pre.regs.update(dr_of(instr) as int, v), cond: flag_for(v), ..pre })
}

/// AND: DR holds the bitwise and of SR1 and the second operand (SR2 or
/// imm5), and the condition code follows the stored value.
pub open spec fn and_post(pre: VmState, post: VmState, instr: u16) -> bool {
    let a = pre.regs[sr1_of(instr) as int];
    let b = if imm_flag_of(instr) {
        imm5_of(instr)
    } else {
        pre.regs[sr2_of(instr) as int]
    };
    let v = a & b;
    post == (VmState { regs: pre.regs.update(dr_of(instr) as int, v), cond: flag_for(v), ..pre })
}

/// NOT: DR holds the bitwise complement of SR1, and the condition code
/// follows the stored value.
pub open spec fn not_post(pre: VmState, post: VmState, instr: u16) -> bool {
    let v = !pre.regs[sr1_of(instr) as int];
    post == (VmState { regs: pre.regs.update(dr_of(instr) as int, v), cond: flag_for(v), ..pre })
}

/// BR: when the condition mask selects the current condition code, PC moves
/// by the sign-extended 9-bit offset (modulo 2^16); otherwise nothing
/// changes.
pub open spec fn br_post(pre: VmState, post: VmState, instr: u16) -> bool {
    post == (VmState {
        pc: if branch_taken(pre.cond, instr) {
            wrap_add(pre.pc, pc_offset9_of(instr))
        } else {
            pre.pc
        },
        ..pre
    })
}

/// JMP: PC holds the value of the base register (RET is JMP R7).
pub open spec fn jmp_post(pre: VmState, post: VmState, instr: u16) -> bool {
    post == (VmState { pc: pre.regs[sr1_of(instr) as int], ..pre })
}

/// JSR/JSRR: R7 holds the return address (the PC), then PC moves by the
/// sign-extended 11-bit offset (JSR) or takes the base register's value
/// (JSRR). The base register is read after R7 is written, so JSRR R7 jumps
/// to the return address itself.
pub open spec fn jsr_post(pre: VmState, post: VmState, instr: u16) -> bool {
    let regs1 = pre.regs.update(7, pre.pc);
    post == (VmState {
        regs: regs1,
        pc: if long_flag_of(instr) {
            wrap_add(pre.pc, pc_offset11_of(instr))
        } else {
            regs1[sr1_of(instr) as int]
        },
        ..pre
    })
}

/// LEA: DR holds the PC moved by the sign-extended 9-bit offset (modulo
/// 2^16), and the condition code follows the stored value.
pub open spec fn lea_post(pre: VmState, post: VmState, instr: u16) -> bool {
    let v = wrap_add(pre.pc, pc_offset9_of(instr));
    post == (VmState { regs: pre.regs.update(dr_of(instr) as int, v), cond: flag_for(v), ..pre })
}

/// A load from `addr` went through, with `b` the byte a keyboard probe
/// sampled (irrelevant when `addr` is not the status register): DR holds
/// the word read from the possibly probed memory, and the condition code
/// follows it.
pub open spec fn load_ok_at(pre: VmState, post: VmState, instr: u16, addr: u16, b: u8) -> bool {
    let m1 = probed(pre.mem, addr, b);
    let v = m1[addr as int];
    post == (VmState {
        regs: pre.regs.update(dr_of(instr) as int, v),
        cond: flag_for(v),
        mem: m1,
        ..pre
    })
}

/// LD: DR holds `mem[PC + PCoffset9]`. Reading the keyboard status register
/// probes the host input first; only a failed probe fails, leaving the
/// machine as it was.
pub open spec fn ld_post(pre: VmState, post: VmState, instr: u16, r: Result<(), VMError>) -> bool {
    let addr = wrap_add(pre.pc, pc_offset9_of(instr));
    ||| (r == Ok::<(), VMError>(()) && exists|b: u8| load_ok_at(pre, post, instr, addr, b))
    ||| (r == Err::<(), VMError>(VMError::StandardIO) && addr == MR_KBSR && post == pre)
}

/// LDR: DR holds `mem[BaseR + offset6]`, with the same keyboard-probe
/// behaviour as LD.
pub open spec fn ldr_post(pre: VmState, post: VmState, instr: u16, r: Result<(), VMError>) -> bool {
    let addr = wrap_add(pre.regs[sr1_of(instr) as int], offset6_of(instr));
    ||| (r == Ok::<(), VMError>(()) && exists|b: u8| load_ok_at(pre, post, instr, addr, b))
    ||| (r == Err::<(), VMError>(VMError::StandardIO) && addr == MR_KBSR && post == pre)
}

/// Both LDI reads went through, with `b1` and `b2` the bytes the two
/// possible keyboard probes sampled: DR holds the word the pointer at
/// `PC + PCoffset9` leads to, and the condition code follows it.
pub open spec fn ldi_ok_at(pre: VmState, post: VmState, instr: u16, b1: u8, b2: u8) -> bool {
    let addr = wrap_add(pre.pc, pc_offset9_of(instr));
    let m1 = probed(pre.mem, addr, b1);
    let p = m1[addr as int];
    let m2 = probed(m1, p, b2);
    let v = m2[p as int];
    post == (VmState {
        regs: pre.regs.update(dr_of(instr) as int, v),
        cond: flag_for(v),
        mem: m2,
        ..pre
    })
}

/// LDI's first read went through (possibly probing, with `b1` the sampled
/// byte), but the pointer it fetched names the keyboard status register and
/// the probe there failed.
pub open spec fn ldi_mid_err_at(pre: VmState, post: VmState, instr: u16, b1: u8) -> bool {
    let addr = wrap_add(pre.pc, pc_offset9_of(instr));
    let m1 = probed(pre.mem, addr, b1);
    &&& m1[addr as int] == MR_KBSR
    &&& post == (VmState { mem: m1, ..pre })
}

/// LDI: DR holds `mem[mem[PC + PCoffset9]]`. Either read may hit the
/// keyboard status register and probe the host input; only a failed probe
/// fails.
pub open spec fn ldi_post(pre: VmState, post: VmState, instr: u16, r: Result<(), VMError>) -> bool {
    let addr = wrap_add(pre.pc, pc_offset9_of(instr));
    ||| (r == Ok::<(), VMError>(()) && exists|b1: u8, b2: u8| ldi_ok_at(pre, post, instr, b1, b2))
    ||| (r == Err::<(), VMError>(VMError::StandardIO) && addr == MR_KBSR && post == pre)
    ||| (r == Err::<(), VMError>(VMError::StandardIO) && exists|b1: u8|
        ldi_mid_err_at(pre, post, instr, b1))
}

/// ST: `mem[PC + PCoffset9]` holds SR (the bits 11..9 register). Stores
/// never probe, so nothing else changes.
pub open spec fn st_post(pre: VmState, post: VmState, instr: u16) -> bool {
    let addr = wrap_add(pre.pc, pc_offset9_of(instr));
    post == (VmState { mem: pre.mem.update(addr as int, pre.regs[dr_of(instr) as int]), ..pre })
}

/// STR: `mem[BaseR + offset6]` holds SR (the bits 11..9 register).
pub open spec fn str_post(pre: VmState, post: VmState, instr: u16) -> bool {
    let addr = wrap_add(pre.regs[sr1_of(instr) as int], offset6_of(instr));
    post == (VmState { mem: pre.mem.update(addr as int, pre.regs[dr_of(instr) as int]), ..pre })
}

/// STI's read of the pointer went through, with `b` the byte a keyboard
/// probe sampled: the cell the pointer names holds SR.
pub open spec fn sti_ok_at(pre: VmState, post: VmState, instr: u16, b: u8) -> bool {
    let addr = wrap_add(pre.pc, pc_offset9_of(instr));
    let m1 = probed(pre.mem, addr, b);
    let p = m1[addr as int];
    post == (VmState { mem: m1.update(p as int, pre.regs[dr_of(instr) as int]), ..pre })
}

/// STI: `mem[mem[PC + PCoffset9]]` holds SR. The pointer read may probe the
/// keyboard status register; only a failed probe fails.
pub open spec fn sti_post(pre: VmState, post: VmState, instr: u16, r: Result<(), VMError>) -> bool {
    let addr = wrap_add(pre.pc, pc_offset9_of(instr));
    ||| (r == Ok::<(), VMError>(()) && exists|b: u8| sti_ok_at(pre, post, instr, b))
    ||| (r == Err::<(), VMError>(VMError::StandardIO) && addr == MR_KBSR && post == pre)
}

/// GETC read the byte `b`: R0 holds it (zero-extended) and the condition
/// code follows it. Nothing is echoed.
pub open spec fn getc_ok_at(pre: VmState, post: VmState, b: u8) -> bool {
    post == (VmState {
        regs: pre.regs.update(0, b as u16),
        cond: flag_for(b as u16),
        ..pre
    })
}

/// GETC: one byte is read from the host input into R0; a failed read
/// changes nothing.
pub open spec fn getc_post(pre: VmState, post: VmState, r: Result<(), VMError>) -> bool {
    ||| (r == Ok::<(), VMError>(()) && exists|b: u8| getc_ok_at(pre, post, b))
    ||| (r == Err::<(), VMError>(VMError::StandardIO) && post == pre)
}

/// OUT: R0's value, which must fit in a byte, goes to the host output. A
/// value above 255 fails with `InvalidCharacter` before anything is
/// written; a sink failure may leave the byte unsent or sent-but-unflushed.
pub open spec fn out_post(pre: VmState, post: VmState, r: Result<(), VMError>) -> bool {
    let w = pre.regs[0];
    ||| (w > 255 && r == Err::<(), VMError>(VMError::InvalidCharacter) && post == pre)
    ||| (w <= 255 && r == Ok::<(), VMError>(()) && post == (VmState {
        out: pre.out.push(w as u8),
        ..pre
    }))
    ||| (w <= 255 && r == Err::<(), VMError>(VMError::StandardIO) && (post == pre || post
        == (VmState { out: pre.out.push(w as u8), ..pre })))
}

/// The string walk from address `a` reaches a zero terminator after `n`
/// words, entirely inside memory and never touching the keyboard status
/// register (whose read would have side effects).
pub open spec fn clean_zstr(m: Seq<u16>, a: u16, n: int) -> bool {
    &&& 0 <= n
    &&& a + n < 0x10000
    &&& m[a + n] == 0
    &&& (forall|k: int| 0 <= k < n ==> #[trigger] m[a + k] != 0)
    &&& !(a <= MR_KBSR <= a + n)
}

/// Every word of the string fits in a byte, as PUTS demands.
pub open spec fn puts_chars_ok(m: Seq<u16>, a: u16, n: int) -> bool {
    forall|k: int| 0 <= k < n ==> #[trigger] m[a + k] <= 255
}

/// The low byte of each of the `n` words starting at `a`: what PUTS emits.
pub open spec fn zstr_low_bytes(m: Seq<u16>, a: u16, n: int) -> Seq<u8> {
    Seq::new(n as nat, |k: int| m[a + k] as u8)
}

/// `f` is the first index of the walk from `a` whose word does not fit in a
/// byte.
pub open spec fn first_wide_at(m: Seq<u16>, a: u16, f: int) -> bool {
    &&& 0 <= f
    &&& m[a + f] > 255
    &&& (forall|k: int| 0 <= k < f ==> #[trigger] m[a + k] <= 255)
}

/// The walk from `a` never finds a zero word before running off the top of
/// memory, and starts above the keyboard status register (so it never
/// probes).
pub open spec fn unterminated_clean(m: Seq<u16>, a: u16) -> bool {
    &&& (forall|k: int| a <= k < 0x10000 ==> #[trigger] m[k] != 0)
    &&& MR_KBSR < a
}

/// The two bytes of each of the `n` words starting at `a`, low byte first:
/// what PUTSP emits.
pub open spec fn zstr_packed_bytes(m: Seq<u16>, a: u16, n: int) -> Seq<u8> {
    Seq::new(
        (2 * n) as nat,
        |j: int|
            if j % 2 == 0 {
                (m[a + j / 2] & 0xFF) as u8
            } else {
                (m[a + j / 2] >> 8) as u8
            },
    )
}

/// PUTS: starting at the address in R0, each nonzero word's low byte goes
/// to the host output until a zero word; a word above 255 fails with
/// `InvalidCharacter`, and a walk past the end of memory with
/// `MemoryIndex`. On a string that terminates cleanly (no keyboard-probe
/// side effects) memory is untouched; when every word fits in a byte,
/// exactly the string's bytes are written; when one does not, the result is
/// an error -- `InvalidCharacter` with precisely the bytes before the first
/// wide word written, unless a host write failed before reaching it -- and
/// a walk that finds no terminator up through the top of memory fails too.
pub open spec fn puts_post(pre: VmState, post: VmState, r: Result<(), VMError>) -> bool {
    let a = pre.regs[0];
    &&& post.regs == pre.regs
    &&& post.pc == pre.pc
    &&& post.cond == pre.cond
    &&& post.running == pre.running
    &&& (r is Err ==> r == Err::<(), VMError>(VMError::StandardIO) || r == Err::<(), VMError>(
        VMError::InvalidCharacter,
    ) || r == Err::<(), VMError>(VMError::MemoryIndex))
    &&& (forall|n: int| #[trigger] clean_zstr(pre.mem, a, n) ==> post.mem == pre.mem)
    &&& (forall|n: int|
        #[trigger] clean_zstr(pre.mem, a, n) && puts_chars_ok(pre.mem, a, n) ==> {
            &&& (r == Ok::<(), VMError>(()) ==> post.out == pre.out + zstr_low_bytes(
                pre.mem,
                a,
                n,
            ))
            &&& (r is Err ==> r == Err::<(), VMError>(VMError::StandardIO) && exists|j: int|
                0 <= j <= n && post.out == pre.out + zstr_low_bytes(pre.mem, a, j))
        })
    &&& (forall|n: int|
        #[trigger] clean_zstr(pre.mem, a, n) && !puts_chars_ok(pre.mem, a, n) ==> r is Err)
    &&& (forall|n: int, f: int|
        #[trigger] clean_zstr(pre.mem, a, n) && 0 <= f < n && #[trigger] first_wide_at(
            pre.mem,
            a,
            f,
        ) ==> {
            &&& (r == Err::<(), VMError>(VMError::InvalidCharacter) || r == Err::<(), VMError>(
                VMError::StandardIO,
            ))
            &&& (r == Err::<(), VMError>(VMError::InvalidCharacter) ==> post.out == pre.out
                + zstr_low_bytes(pre.mem, a, f))
            &&& (r == Err::<(), VMError>(VMError::StandardIO) ==> exists|j: int|
                0 <= j <= f && post.out == pre.out + zstr_low_bytes(pre.mem, a, j))
        })
    &&& (unterminated_clean(pre.mem, a) ==> r is Err && post.mem == pre.mem)
}

/// PUTSP: like PUTS, but each word carries two characters, low byte first,
/// and a zero high byte inside a nonzero word is written as NUL. No word
/// value is rejected, and a walk that finds no terminator up through the
/// top of memory fails.
pub open spec fn putsp_post(pre: VmState, post: VmState, r: Result<(), VMError>) -> bool {
    let a = pre.regs[0];
    &&& post.regs == pre.regs
    &&& post.pc == pre.pc
    &&& post.cond == pre.cond
    &&& post.running == pre.running
    &&& (r is Err ==> r == Err::<(), VMError>(VMError::StandardIO) || r == Err::<(), VMError>(
        VMError::MemoryIndex,
    ))
    &&& (forall|n: int|
        #[trigger] clean_zstr(pre.mem, a, n) ==> {
            &&& post.mem == pre.mem
            &&& (r == Ok::<(), VMError>(()) ==> post.out == pre.out + zstr_packed_bytes(
                pre.mem,
                a,
                n,
            ))
            &&& (r is Err ==> r == Err::<(), VMError>(VMError::StandardIO) && exists|j: int|
                0 <= j <= 2 * n && post.out == pre.out + zstr_packed_bytes(pre.mem, a, n).take(j))
        })
    &&& (unterminated_clean(pre.mem, a) ==> r is Err && post.mem == pre.mem)
}

/// The prompt IN prints before reading, newline included.
pub open spec fn in_prompt() -> Seq<u8> {
    seq![
        0x45u8, 0x6Eu8, 0x74u8, 0x65u8, 0x72u8, 0x20u8, 0x61u8, 0x20u8, 0x63u8, 0x68u8, 0x61u8, 0x72u8, 0x61u8, 0x63u8, 0x74u8,
        0x65u8, 0x72u8, 0x3Au8, 0x20u8, 0x0Au8,
    ]
}

/// IN went through, reading the byte `b`: the prompt and the echoed byte
/// were written, R0 holds the byte, and the condition code follows it.
pub open spec fn in_ok_at(pre: VmState, post: VmState, b: u8) -> bool {
    post == (VmState {
        regs: pre.regs.update(0, b as u16),
        cond: flag_for(b as u16),
        out: (pre.out + in_prompt()).push(b),
        ..pre
    })
}

/// IN read the byte `b` into R0, but echoing it failed: the condition code
/// is not yet updated and only the prompt was written.
pub open spec fn in_echo_err_at(pre: VmState, post: VmState, b: u8) -> bool {
    post == (VmState { regs: pre.regs.update(0, b as u16), out: pre.out + in_prompt(), ..pre })
}

/// IN: print the prompt, read one byte into R0, echo it, update the
/// condition code, flush. A host failure can leave the prompt partially
/// written, the byte read but not echoed, or everything done but unflushed.
pub open spec fn in_post(pre: VmState, post: VmState, r: Result<(), VMError>) -> bool {
    ||| (r == Ok::<(), VMError>(()) && exists|b: u8| in_ok_at(pre, post, b))
    ||| (r == Err::<(), VMError>(VMError::StandardIO) && {
        ||| (exists|j: int|
            0 <= j <= in_prompt().len() && post == (VmState {
                out: pre.out + in_prompt().take(j),
                ..pre
            }))
        ||| (exists|b: u8| in_echo_err_at(pre, post, b))
        ||| (exists|b: u8| in_ok_at(pre, post, b))
    })
}

/// The message HALT prints, newline included.
pub open spec fn halt_message() -> Seq<u8> {
    seq![0x48u8, 0x41u8, 0x4Cu8, 0x54u8, 0x0Au8]
}

/// TRAP: R7 takes the return address (the PC) first, whatever follows; then
/// the low 8 bits of the instruction select the service routine, and an
/// unknown vector fails with `InvalidTrapCode`.
pub open spec fn trap_post(pre: VmState, post: VmState, instr: u16, r: Result<(), VMError>) -> bool {
    let mid = (VmState { regs: pre.regs.update(7, pre.pc), ..pre });
    match trap_code_of(instr & 0xFF) {
        Option::None => r == Err::<(), VMError>(VMError::InvalidTrapCode) && post == mid,
        Option::Some(t) => match t {
            TrapCode::Getc => getc_post(mid, post, r),
            TrapCode::Out => out_post(mid, post, r),
            TrapCode::Puts => puts_post(mid, post, r),
            TrapCode::IN => in_post(mid, post, r),
            TrapCode::Putsp => putsp_post(mid, post, r),
            TrapCode::Halt => halt_post(mid, post, r),
        },
    }
}

/// One decoded instruction's whole effect: the top 4 bits select the
/// semantics, RTI and RES fail with `InvalidOpcode` and change nothing.
pub open spec fn execute_post(pre: VmState, post: VmState, instr: u16, r: Result<(), VMError>) -> bool {
    match opcode_of(instr >> 12) {
        Option::Some(op) => match op {
            Opcode::BR => r == Ok::<(), VMError>(()) && br_post(pre, post, instr),
            Opcode::Add => r == Ok::<(), VMError>(()) && add_post(pre, post, instr),
            Opcode::LD => ld_post(pre, post, instr, r),
            Opcode::ST => r == Ok::<(), VMError>(()) && st_post(pre, post, instr),
            Opcode::Jsr => r == Ok::<(), VMError>(()) && jsr_post(pre, post, instr),
            Opcode::And => r == Ok::<(), VMError>(()) && and_post(pre, post, instr),
            Opcode::Ldr => ldr_post(pre, post, instr, r),
            Opcode::Str => r == Ok::<(), VMError>(()) && str_post(pre, post, instr),
            Opcode::Rti => r == Err::<(), VMError>(VMError::InvalidOpcode) && post == pre,
            Opcode::Not => r == Ok::<(), VMError>(()) && not_post(pre, post, instr),
            Opcode::Ldi => ldi_post(pre, post, instr, r),
            Opcode::Sti => sti_post(pre, post, instr, r),
            Opcode::Jmp => r == Ok::<(), VMError>(()) && jmp_post(pre, post, instr),
            Opcode::Res => r == Err::<(), VMError>(VMError::InvalidOpcode) && post == pre,
            Opcode::Lea => r == Ok::<(), VMError>(()) && lea_post(pre, post, instr),
            Opcode::Trap => trap_post(pre, post, instr, r),
        },
        Option::None => false,
    }
}

/// One fetch/execute step whose fetch sampled the keyboard byte `b` (which
/// matters only when the PC names the keyboard status register): the
/// instruction is the fetched word; a PC at the last cell cannot be
/// incremented and fails with `MemoryIndex`; otherwise the instruction runs
/// against the incremented PC.
pub open spec fn step_fetched(pre: VmState, post: VmState, b: u8, r: Result<(), VMError>) -> bool {
    let m1 = probed(pre.mem, pre.pc, b);
    let instr = m1[pre.pc as int];
    if pre.pc == 0xFFFF {
        r == Err::<(), VMError>(VMError::MemoryIndex) && post == (VmState { mem: m1, ..pre })
    } else {
        execute_post((VmState { mem: m1, pc: (pre.pc + 1) as u16, ..pre }), post, instr, r)
    }
}

/// One step of the fetch/execute loop: fetch the word at the PC (possibly
/// probing the keyboard), increment the PC, execute. A failed probe at the
/// fetch changes nothing.
pub open spec fn step_post(pre: VmState, post: VmState, r: Result<(), VMError>) -> bool {
    ||| (r == Err::<(), VMError>(VMError::StandardIO) && pre.pc == MR_KBSR && post == pre)
    ||| exists|b: u8| step_fetched(pre, post, b, r)
}

/// HALT: print the halt message, flush, and stop the machine. On a host
/// failure the machine keeps its running flag and the message may be
/// partially written.
pub open spec fn halt_post(pre: VmState, post: VmState, r: Result<(), VMError>) -> bool {
    ||| (r == Ok::<(), VMError>(()) && post == (VmState {
        running: false,
        out: pre.out + halt_message(),
        ..pre
    }))
    ||| (r == Err::<(), VMError>(VMError::StandardIO) && exists|j: int|
        0 <= j <= halt_message().len() && post == (VmState {
            out: pre.out + #[trigger] halt_message().take(j),
            ..pre
        }))
}

/// The machine as `run` starts it: the running flag set, the rest as it
/// was.
pub open spec fn started(pre: VmState) -> VmState {
    VmState { running: true, ..pre }
}

/// `post` is reachable from `pre` by exactly `n` fetch/execute steps, every
/// one of which went through.
pub open spec fn runs_to(pre: VmState, post: VmState, n: nat) -> bool
    decreases n,
{
    if n == 0 {
        post == pre
    } else {
        exists|mid: VmState|
            #[trigger] step_post(pre, mid, Ok::<(), VMError>(())) && runs_to(
                mid,
                post,
                (n - 1) as nat,
            )
    }
}

/// A step taken after a run of successful steps extends the run by one.
proof fn lemma_runs_to_snoc(pre: VmState, mid: VmState, post: VmState, n: nat)
    requires
        runs_to(pre, mid, n),
        step_post(mid, post, Ok::<(), VMError>(())),
    ensures
        runs_to(pre, post, n + 1),
    decreases n,
{
    if n == 0 {
        assert(step_post(pre, post, Ok::<(), VMError>(())));
        assert(runs_to(post, post, 0));
        assert(runs_to(pre, post, 1));
    } else {
        let mid0 = choose|mid0: VmState|
            #[trigger] step_post(pre, mid0, Ok::<(), VMError>(())) && runs_to(
                mid0,
                mid,
                (n - 1) as nat,
            );
        lemma_runs_to_snoc(mid0, mid, post, (n - 1) as nat);
        assert(runs_to(mid0, post, n));
        assert(runs_to(pre, post, n + 1));
    }
}

/// Law: the condition code a value sets is determined by its bits. It is
/// `Zro` exactly for zero, `Neg` exactly when bit 15 is set, and `Pos`
/// otherwise.
pub proof fn lemma_flag_characterization(v: u16)
    ensures
        flag_for(v) == ConditionFlag::Zro <==> v == 0,
        flag_for(v) == ConditionFlag::Neg <==> v & 0x8000 != 0,
        flag_for(v) == ConditionFlag::Neg <==> v >> 15 == 1,
        flag_for(v) == ConditionFlag::Pos <==> (v != 0 && v & 0x8000 == 0),
{
    assert(v >= 0x8000 <==> v & 0x8000 != 0) by (bit_vector);
    assert(v >= 0x8000 <==> v >> 15 == 1) by (bit_vector);
}

/// Law: after any register-writing register instruction (ADD, AND, NOT,
/// LEA), the condition code is `Zro` exactly when the written register is
/// zero and `Neg` exactly when its bit 15 is set.
pub proof fn lemma_write_sets_cond(pre: VmState, post: VmState, instr: u16)
    requires
        pre.wf(),
        add_post(pre, post, instr) || and_post(pre, post, instr) || not_post(pre, post, instr)
            || lea_post(pre, post, instr),
    ensures
        post.cond == flag_for(post.regs[dr_of(instr) as int]),
        post.cond == ConditionFlag::Zro <==> post.regs[dr_of(instr) as int] == 0,
        post.cond == ConditionFlag::Neg <==> post.regs[dr_of(instr) as int] & 0x8000 != 0,
{
    lemma_field_bounds(instr);
    lemma_flag_characterization(post.regs[dr_of(instr) as int]);
}

/// Law: after a load (LD, LDR, LDI) that went through, the condition code
/// is `Zro` exactly when the loaded register is zero and `Neg` exactly when
/// its bit 15 is set.
pub proof fn lemma_load_sets_cond(pre: VmState, post: VmState, instr: u16)
    requires
        pre.wf(),
        ld_post(pre, post, instr, Ok::<(), VMError>(())) || ldr_post(
            pre,
            post,
            instr,
            Ok::<(), VMError>(()),
        ) || ldi_post(pre, post, instr, Ok::<(), VMError>(())),
    ensures
        post.cond == flag_for(post.regs[dr_of(instr) as int]),
        post.cond == ConditionFlag::Zro <==> post.regs[dr_of(instr) as int] == 0,
        post.cond == ConditionFlag::Neg <==> post.regs[dr_of(instr) as int] & 0x8000 != 0,
{
    lemma_field_bounds(instr);
    if ld_post(pre, post, instr, Ok::<(), VMError>(())) {
        let addr = wrap_add(pre.pc, pc_offset9_of(instr));
        let b = choose|b: u8| load_ok_at(pre, post, instr, addr, b);
        assert(post.regs[dr_of(instr) as int] == probed(pre.mem, addr, b)[addr as int]);
    } else if ldr_post(pre, post, instr, Ok::<(), VMError>(())) {
        let addr = wrap_add(pre.regs[sr1_of(instr) as int], offset6_of(instr));
        let b = choose|b: u8| load_ok_at(pre, post, instr, addr, b);
        assert(post.regs[dr_of(instr) as int] == probed(pre.mem, addr, b)[addr as int]);
    } else {
        let (b1, b2) = choose|b1: u8, b2: u8| ldi_ok_at(pre, post, instr, b1, b2);
        assert(ldi_ok_at(pre, post, instr, b1, b2));
    }
    lemma_flag_characterization(post.regs[dr_of(instr) as int]);
}

/// Law: every instruction that writes a general register sets the condition
/// code from the written value. After a successful ADD, AND, NOT, LEA, LD,
/// LDR or LDI the condition code tracks DR, and after TRAP GETC or TRAP IN
/// it tracks R0: `Zro` exactly on zero, `Neg` exactly when bit 15 is set,
/// `Pos` otherwise. (No other instruction touches the condition code, as
/// each one's post relation states.)
pub proof fn lemma_execute_sets_cond(pre: VmState, post: VmState, instr: u16)
    requires
        pre.wf(),
        execute_post(pre, post, instr, Ok::<(), VMError>(())),
    ensures
        ({
            let op = opcode_of(instr >> 12);
            let dr = post.regs[dr_of(instr) as int];
            (op == Some(Opcode::Add) || op == Some(Opcode::And) || op == Some(Opcode::Not) || op
                == Some(Opcode::Lea) || op == Some(Opcode::LD) || op == Some(Opcode::Ldr) || op
                == Some(Opcode::Ldi)) ==> {
                &&& post.cond == flag_for(dr)
                &&& (post.cond == ConditionFlag::Zro <==> dr == 0)
                &&& (post.cond == ConditionFlag::Neg <==> dr & 0x8000 != 0)
            }
        }),
        ({
            let op = opcode_of(instr >> 12);
            let t = trap_code_of(instr & 0xFF);
            let r0 = post.regs[0];
            (op == Some(Opcode::Trap) && (t == Some(TrapCode::Getc) || t == Some(TrapCode::IN)))
                ==> {
                &&& post.cond == flag_for(r0)
                &&& (post.cond == ConditionFlag::Zro <==> r0 == 0)
                &&& (post.cond == ConditionFlag::Neg <==> r0 & 0x8000 != 0)
            }
        }),
{
    lemma_field_bounds(instr);
    let op = opcode_of(instr >> 12);
    if op == Some(Opcode::Add) || op == Some(Opcode::And) || op == Some(Opcode::Not) || op == Some(
        Opcode::Lea,
    ) {
        lemma_write_sets_cond(pre, post, instr);
    } else if op == Some(Opcode::LD) || op == Some(Opcode::Ldr) || op == Some(Opcode::Ldi) {
        lemma_load_sets_cond(pre, post, instr);
    } else if op == Some(Opcode::Trap) {
        let t = trap_code_of(instr & 0xFF);
        let mid = (VmState { regs: pre.regs.update(7, pre.pc), ..pre });
        if t == Some(TrapCode::Getc) {
            let b = choose|b: u8| getc_ok_at(mid, post, b);
            assert(getc_ok_at(mid, post, b));
            assert(post.regs[0] == b as u16);
            lemma_flag_characterization(post.regs[0]);
        } else if t == Some(TrapCode::IN) {
            let b = choose|b: u8| in_ok_at(mid, post, b);
            assert(in_ok_at(mid, post, b));
            assert(post.regs[0] == b as u16);
            lemma_flag_characterization(post.regs[0]);
        }
    }
}

/// Law: ADD in immediate form stores the 16-bit wrapping sum of SR1 and the
/// sign-extended immediate, for every register value and immediate.
pub proof fn lemma_add_immediate_wraps(pre: VmState, post: VmState, instr: u16)
    requires
        pre.wf(),
        imm_flag_of(instr),
        add_post(pre, post, instr),
    ensures
        post.regs[dr_of(instr) as int] == (pre.regs[sr1_of(instr) as int] + imm5_of(instr))
            % 0x10000,
{
    lemma_field_bounds(instr);
}

/// Law: running the same NOT instruction twice, when its DR and SR name the
/// same register, restores that register's original value. (With distinct
/// DR and SR both runs store the complement of an unchanged source, so the
/// restoration does not hold.)
pub proof fn lemma_not_twice_restores(s0: VmState, s1: VmState, s2: VmState, instr: u16)
    requires
        s0.wf(),
        dr_of(instr) == sr1_of(instr),
        not_post(s0, s1, instr),
        not_post(s1, s2, instr),
    ensures
        s2.regs[dr_of(instr) as int] == s0.regs[sr1_of(instr) as int],
        s2.regs =~= s0.regs,
        s2.cond == flag_for(s0.regs[sr1_of(instr) as int]),
{
    lemma_field_bounds(instr);
    assert(forall|x: u16| #[trigger] (!!x) == x) by (bit_vector);
    assert(s2.regs =~= s0.regs);
}

impl VM {
    /// The view is well-formed: eight registers, a full memory.
    pub open spec fn wf(&self) -> bool {
        self@.wf()
    }

    /// A fresh machine: zeroed registers and memory, PC at 0x3000, condition
    /// code `Zro`, not running, nothing written yet.
    pub fn new() -> (r: VM)
        ensures
            r.wf(),
            r@.regs =~= Seq::new(8, |i: int| 0u16),
            r@.pc == 0x3000,
            r@.cond == ConditionFlag::Zro,
            r@.running == false,
            r@.mem =~= Seq::new(MEMORY_MAX as nat, |i: int| 0u16),
            r@.out =~= Seq::<u8>::empty(),
    {
        let vm = VM {
            registers: vec![0u16; TOTAL_REGISTERS],
            pc: 0x3000,
            cond: ConditionFlag::Zro,
            running: false,
            memory: Memory::new(),
            out_log: Ghost(Seq::empty()),
        };
        proof {
            assert(vm@.regs =~= Seq::new(8, |i: int| 0u16));
            assert(vm@.mem =~= Seq::new(MEMORY_MAX as nat, |i: int| 0u16));
        }
        vm
    }

    /// The value stored in the requested register; an index outside 0..=7
    /// fails with `InvalidRegister`.
    fn get_register(&self, register_index: u16) -> (r: Result<u16, VMError>)
        requires
            self.wf(),
        ensures
            register_index < 8 ==> r == Ok::<u16, VMError>(self@.regs[register_index as int]),
            register_index >= 8 ==> r == Err::<u16, VMError>(VMError::InvalidRegister),
    {
        let index: usize = register_index as usize;
        if index < TOTAL_REGISTERS {
            Ok(self.registers[index])
        } else {
            Err(VMError::InvalidRegister)
        }
    }

    /// Store `value` in the requested register; an index outside 0..=7
    /// fails with `InvalidRegister` and changes nothing.
    fn set_register(&mut self, register_index: u16, value: u16) -> (r: Result<(), VMError>)
        requires
            old(self).wf(),
        ensures
            final(self).wf(),
            register_index < 8 ==> r == Ok::<(), VMError>(()) && final(self)@ == (VmState {
                regs: old(self)@.regs.update(register_index as int, value),
                ..old(self)@
            }),
            register_index >= 8 ==> r == Err::<(), VMError>(VMError::InvalidRegister) && final(self)@ == old(self)@,
    {
        let index: usize = register_index as usize;
        if index < TOTAL_REGISTERS {
            self.registers[index] = value;
            Ok(())
        } else {
            Err(VMError::InvalidRegister)
        }
    }

    /// Set the condition code from the value the requested register holds;
    /// an index outside 0..=7 fails with `InvalidRegister`.
    fn update_flags(&mut self, register_index: u16) -> (r: Result<(), VMError>)
        requires
            old(self).wf(),
        ensures
            final(self).wf(),
            register_index < 8 ==> r == Ok::<(), VMError>(()) && final(self)@ == (VmState {
                cond: flag_for(old(self)@.regs[register_index as int]),
                ..old(self)@
            }),
            register_index >= 8 ==> r == Err::<(), VMError>(VMError::InvalidRegister) && final(self)@ == old(self)@,
    {
        let value: u16 = match self.get_register(register_index) {
            Ok(v) => v,
            Err(e) => {
                return Err(e);
            },
        };
        proof {
            assert(value >> 15 == 1 <==> value >= 0x8000) by (bit_vector);
        }
        if value == 0 {
            self.cond = ConditionFlag::Zro;
        } else if value >> 15 == 1 {
            self.cond = ConditionFlag::Neg;
        } else {
            self.cond = ConditionFlag::Pos;
        }
        Ok(())
    }

    /// Place a program image in memory; see
    /// [`Memory::read_image_bytes`](crate::memory::Memory::read_image_bytes)
    /// for the byte format and the failure cases. Registers, PC, condition
    /// code and the running flag are untouched.
    pub fn read_image(&mut self, bytes: &[u8]) -> (r: Result<(), VMError>)
        requires
            old(self).wf(),
        ensures
            final(self).wf(),
            bytes@.len() < 2 ==> r == Err::<(), VMError>(VMError::ConcatenatingBytes) && final(self)@ == old(self)@,
            bytes@.len() >= 2 && image_origin(bytes@) + image_word_count(bytes@) <= MEMORY_MAX
                ==> r == Ok::<(), VMError>(()) && final(self)@ == (VmState {
                mem: loaded(old(self)@.mem, image_origin(bytes@), image_words(bytes@)),
                ..old(self)@
            }),
            bytes@.len() >= 2 && image_origin(bytes@) + image_word_count(bytes@) > MEMORY_MAX
                ==> r == Err::<(), VMError>(VMError::MemoryIndex) && final(self)@ == (VmState {
                mem: loaded(
                    old(self)@.mem,
                    image_origin(bytes@),
                    image_words(bytes@).take(MEMORY_MAX - image_origin(bytes@)),
                ),
                ..old(self)@
            }),
    {
        self.memory.read_image_bytes(bytes)
    }

    /// Store `value` at memory address `index`; see
    /// [`Memory::mem_write`](crate::memory::Memory::mem_write).
    pub fn mem_write(&mut self, value: u16, index: usize) -> (r: Result<(), VMError>)
        requires
            old(self).wf(),
        ensures
            final(self).wf(),
            index < MEMORY_MAX ==> r == Ok::<(), VMError>(()) && final(self)@ == (VmState {
                mem: old(self)@.mem.update(index as int, value),
                ..old(self)@
            }),
            index >= MEMORY_MAX ==> r == Err::<(), VMError>(VMError::MemoryIndex) && final(self)@
                == old(self)@,
    {
        self.memory.mem_write(value, index)
    }

    /// The word at memory address `index`; see
    /// [`Memory::mem_read`](crate::memory::Memory::mem_read) for the
    /// keyboard probe a read of the status register performs.
    fn mem_read<S: ByteSource>(&mut self, input: &mut S, index: usize) -> (r: Result<u16, VMError>)
        requires
            old(self).wf(),
        ensures
            final(self).wf(),
            final(self)@.regs == old(self)@.regs,
            final(self)@.pc == old(self)@.pc,
            final(self)@.cond == old(self)@.cond,
            final(self)@.running == old(self)@.running,
            final(self)@.out == old(self)@.out,
            index < MEMORY_MAX ==> match r {
                Ok(v) => exists|b: u8|
                    final(self)@.mem == #[trigger] probed(old(self)@.mem, index as u16, b) && v
                        == final(self)@.mem[index as int],
                Err(e) => e == VMError::StandardIO && index == MR_KBSR && final(self)@.mem == old(
                    self,
                )@.mem,
            },
            index < MEMORY_MAX && index != MR_KBSR ==> r == Ok::<u16, VMError>(
                old(self)@.mem[index as int],
            ) && final(self)@.mem == old(self)@.mem,
            index >= MEMORY_MAX ==> r == Err::<u16, VMError>(VMError::MemoryIndex) && final(self)@.mem == old(self)@.mem,
    {
        let r = self.memory.mem_read(input, index);
        proof {
            if index < MEMORY_MAX && r is Ok {
                if index == MR_KBSR {
                    let b = choose|b: u8| self@.mem == #[trigger] key_probed(old(self)@.mem, b);
                    assert(self@.mem == probed(old(self)@.mem, index as u16, b));
                } else {
                    assert(self@.mem == probed(old(self)@.mem, index as u16, 0u8));
                }
            }
        }
        r
    }

    /// ADD DR, SR1, SR2 or ADD DR, SR1, imm5.
    ///
    /// Stores in DR the sum of SR1 and SR2, or of SR1 and the sign-extended
    /// imm5 when bit 5 is set; 16-bit wrapping addition. Updates the
    /// condition code from the stored value.
    pub fn add(&mut self, instr: u16) -> (r: Result<(), VMError>)
        requires
            old(self).wf(),
        ensures
            final(self).wf(),
            r == Ok::<(), VMError>(()),
            add_post(old(self)@, final(self)@, instr),
    {
        proof {
            lemma_field_bounds(instr);
        }
        let immediate_flag: u16 = (instr >> 5) & 1;
        let r0: u16 = (instr >> 9) & 0b0111;
        let r1: u16 = (instr >> 6) & 0b0111;
        let value_in_r1: u16 = self.get_register(r1)?;
        if immediate_flag == 1 {
            let imm5: u16 = sign_extend(instr & 0b0001_1111, 5)?;
            proof {
                lemma_sign_extend_agrees(instr & 0b0001_1111, 5);
            }
            let sum: u16 = value_in_r1.wrapping_add(imm5);
            proof {
                lemma_wrapping_add_is_mod(value_in_r1, imm5);
            }
            self.set_register(r0, sum)?;
        } else {
            let r2: u16 = instr & 0b0111;
            let value_in_r2: u16 = self.get_register(r2)?;
            let sum: u16 = value_in_r1.wrapping_add(value_in_r2);
            proof {
                lemma_wrapping_add_is_mod(value_in_r1, value_in_r2);
            }
            self.set_register(r0, sum)?;
        }
        self.update_flags(r0)?;
        Ok(())
    }

    /// AND DR, SR1, SR2 or AND DR, SR1, imm5.
    ///
    /// Stores in DR the bitwise and of SR1 and SR2, or of SR1 and the
    /// sign-extended imm5 when bit 5 is set. Updates the condition code from
    /// the stored value.
    pub fn and(&mut self, instr: u16) -> (r: Result<(), VMError>)
        requires
            old(self).wf(),
        ensures
            final(self).wf(),
            r == Ok::<(), VMError>(()),
            and_post(old(self)@, final(self)@, instr),
    {
        proof {
            lemma_field_bounds(instr);
        }
        let immediate_flag: u16 = (instr >> 5) & 1;
        let r0: u16 = (instr >> 9) & 0b0111;
        let r1: u16 = (instr >> 6) & 0b0111;
        let value_in_r1: u16 = self.get_register(r1)?;
        if immediate_flag == 1 {
            let imm5: u16 = sign_extend(instr & 0b11111, 5)?;
            proof {
                lemma_sign_extend_agrees(instr & 0b11111, 5);
            }
            let res: u16 = value_in_r1 & imm5;
            self.set_register(r0, res)?;
        } else {
            let r2: u16 = instr & 0b0111;
            let value_in_r2: u16 = self.get_register(r2)?;
            let res: u16 = value_in_r1 & value_in_r2;
            self.set_register(r0, res)?;
        }
        self.update_flags(r0)?;
        Ok(())
    }

    /// NOT DR, SR1.
    ///
    /// Stores in DR the bitwise complement of SR1 and updates the condition
    /// code from the stored value.
    pub fn not(&mut self, instr: u16) -> (r: Result<(), VMError>)
        requires
            old(self).wf(),
        ensures
            final(self).wf(),
            r == Ok::<(), VMError>(()),
            not_post(old(self)@, final(self)@, instr),
    {
        proof {
            lemma_field_bounds(instr);
        }
        let r0: u16 = (instr >> 9) & 0b0111;
        let r1: u16 = (instr >> 6) & 0b0111;
        let value_in_r1: u16 = self.get_register(r1)?;
        self.set_register(r0, !value_in_r1)?;
        self.update_flags(r0)?;
        Ok(())
    }

    /// BRnzp PCoffset9.
    ///
    /// Bits 11, 10 and 9 select condition codes (negative, zero, positive).
    /// When the current condition code is selected, PC moves by the
    /// sign-extended 9-bit offset, wrapping modulo 2^16.
    pub fn br(&mut self, instr: u16) -> (r: Result<(), VMError>)
        requires
            old(self).wf(),
        ensures
            final(self).wf(),
            r == Ok::<(), VMError>(()),
            br_post(old(self)@, final(self)@, instr),
    {
        proof {
            lemma_field_bounds(instr);
        }
        let pc_offset: u16 = sign_extend(instr & 0b0001_1111_1111, 9)?;
        proof {
            lemma_sign_extend_agrees(instr & 0b0001_1111_1111, 9);
        }
        let cond_flag_instr: u16 = (instr >> 9) & 0b0111;
        let meet_condition: u16 = match self.cond {
            ConditionFlag::Neg => cond_flag_instr & 0b100,
            ConditionFlag::Zro => cond_flag_instr & 0b010,
            ConditionFlag::Pos => cond_flag_instr & 0b001,
        };
        if meet_condition != 0 {
            let target: u16 = self.pc.wrapping_add(pc_offset);
            proof {
                lemma_wrapping_add_is_mod(self.pc, pc_offset);
            }
            self.pc = target;
        }
        Ok(())
    }

    /// JMP BaseR (RET is JMP R7).
    ///
    /// Stores in PC the value of the base register.
    pub fn jmp(&mut self, instr: u16) -> (r: Result<(), VMError>)
        requires
            old(self).wf(),
        ensures
            final(self).wf(),
            r == Ok::<(), VMError>(()),
            jmp_post(old(self)@, final(self)@, instr),
    {
        proof {
            lemma_field_bounds(instr);
        }
        let r1: u16 = (instr >> 6) & 0b0111;
        let value_in_r1: u16 = self.get_register(r1)?;
        self.pc = value_in_r1;
        Ok(())
    }

    /// JSR PCoffset11 or JSRR BaseR.
    ///
    /// Stores the PC in R7, then: when bit 11 is set, PC moves by the
    /// sign-extended 11-bit offset (wrapping); otherwise PC takes the base
    /// register's value.
    pub fn jsr(&mut self, instr: u16) -> (r: Result<(), VMError>)
        requires
            old(self).wf(),
        ensures
            final(self).wf(),
            r == Ok::<(), VMError>(()),
            jsr_post(old(self)@, final(self)@, instr),
    {
        proof {
            lemma_field_bounds(instr);
        }
        let long_flag: u16 = (instr >> 11) & 1;
        let pc: u16 = self.pc;
        self.set_register(7, pc)?;
        if long_flag == 1 {
            let long_pc_offset: u16 = sign_extend(instr & 0b0111_1111_1111, 11)?;
            proof {
                lemma_sign_extend_agrees(instr & 0b0111_1111_1111, 11);
            }
            let target: u16 = self.pc.wrapping_add(long_pc_offset);
            proof {
                lemma_wrapping_add_is_mod(self.pc, long_pc_offset);
            }
            self.pc = target;
        } else {
            let r1: u16 = (instr >> 6) & 0b0111;
            let value_in_r1: u16 = self.get_register(r1)?;
            self.pc = value_in_r1;
        }
        Ok(())
    }

    /// LEA DR, PCoffset9.
    ///
    /// Stores in DR the PC moved by the sign-extended 9-bit offset
    /// (wrapping) and updates the condition code from the stored value.
    pub fn lea(&mut self, instr: u16) -> (r: Result<(), VMError>)
        requires
            old(self).wf(),
        ensures
            final(self).wf(),
            r == Ok::<(), VMError>(()),
            lea_post(old(self)@, final(self)@, instr),
    {
        proof {
            lemma_field_bounds(instr);
        }
        let r0: u16 = (instr >> 9) & 0b0111;
        let pc_offset: u16 = sign_extend(instr & 0b0001_1111_1111, 9)?;
        proof {
            lemma_sign_extend_agrees(instr & 0b0001_1111_1111, 9);
        }
        let value: u16 = self.pc.wrapping_add(pc_offset);
        proof {
            lemma_wrapping_add_is_mod(self.pc, pc_offset);
        }
        self.set_register(r0, value)?;
        self.update_flags(r0)?;
        Ok(())
    }

    /// LD DR, PCoffset9.
    ///
    /// Loads into DR the word at the PC moved by the sign-extended 9-bit
    /// offset (wrapping) and updates the condition code. Reading the
    /// keyboard status register probes the host input first.
    pub fn ld<S: ByteSource>(&mut self, input: &mut S, instr: u16) -> (r: Result<(), VMError>)
        requires
            old(self).wf(),
        ensures
            final(self).wf(),
            ld_post(old(self)@, final(self)@, instr, r),
    {
        proof {
            lemma_field_bounds(instr);
        }
        let r0: u16 = (instr >> 9) & 0b0111;
        let pc_offset: u16 = sign_extend(instr & 0b0001_1111_1111, 9)?;
        proof {
            lemma_sign_extend_agrees(instr & 0b0001_1111_1111, 9);
        }
        let address: u16 = self.pc.wrapping_add(pc_offset);
        proof {
            lemma_wrapping_add_is_mod(self.pc, pc_offset);
        }
        let value_read: u16 = self.mem_read(input, address as usize)?;
        self.set_register(r0, value_read)?;
        self.update_flags(r0)?;
        proof {
            let b = choose|b: u8| self@.mem == #[trigger] probed(old(self)@.mem, address, b);
            assert(load_ok_at(old(self)@, self@, instr, address, b));
            assert(pc_offset == pc_offset9_of(instr));
            assert(address == wrap_add(old(self)@.pc, pc_offset9_of(instr)));
            assert(ld_post(old(self)@, self@, instr, Ok::<(), VMError>(())));
        }
        Ok(())
    }

    /// LDR DR, BaseR, offset6.
    ///
    /// Loads into DR the word at the base register moved by the
    /// sign-extended 6-bit offset (wrapping) and updates the condition code.
    /// Reading the keyboard status register probes the host input first.
    pub fn ldr<S: ByteSource>(&mut self, input: &mut S, instr: u16) -> (r: Result<(), VMError>)
        requires
            old(self).wf(),
        ensures
            final(self).wf(),
            ldr_post(old(self)@, final(self)@, instr, r),
    {
        proof {
            lemma_field_bounds(instr);
        }
        let r0: u16 = (instr >> 9) & 0b0111;
        let r1: u16 = (instr >> 6) & 0b0111;
        let value_in_r1: u16 = self.get_register(r1)?;
        let pc_offset: u16 = sign_extend(instr & 0b0011_1111, 6)?;
        proof {
            lemma_sign_extend_agrees(instr & 0b0011_1111, 6);
        }
        let address: u16 = value_in_r1.wrapping_add(pc_offset);
        proof {
            lemma_wrapping_add_is_mod(value_in_r1, pc_offset);
        }
        let value_read: u16 = self.mem_read(input, address as usize)?;
        self.set_register(r0, value_read)?;
        self.update_flags(r0)?;
        proof {
            let b = choose|b: u8| self@.mem == #[trigger] probed(old(self)@.mem, address, b);
            assert(load_ok_at(old(self)@, self@, instr, address, b));
            assert(pc_offset == offset6_of(instr));
            assert(address == wrap_add(old(self)@.regs[sr1_of(instr) as int], offset6_of(instr)));
            assert(ldr_post(old(self)@, self@, instr, Ok::<(), VMError>(())));
        }
        Ok(())
    }

    /// LDI DR, PCoffset9.
    ///
    /// Loads into DR the word the pointer at the PC moved by the
    /// sign-extended 9-bit offset leads to, and updates the condition code.
    /// Either read may probe the keyboard status register.
    pub fn ldi<S: ByteSource>(&mut self, input: &mut S, instr: u16) -> (r: Result<(), VMError>)
        requires
            old(self).wf(),
        ensures
            final(self).wf(),
            ldi_post(old(self)@, final(self)@, instr, r),
    {
        proof {
            lemma_field_bounds(instr);
        }
        let r0: u16 = (instr >> 9) & 0b0111;
        let pc_offset: u16 = sign_extend(instr & 0b0001_1111_1111, 9)?;
        proof {
            lemma_sign_extend_agrees(instr & 0b0001_1111_1111, 9);
        }
        let address: u16 = self.pc.wrapping_add(pc_offset);
        proof {
            lemma_wrapping_add_is_mod(self.pc, pc_offset);
        }
        let value_read: u16 = match self.mem_read(input, address as usize) {
            Ok(v) => v,
            Err(e) => {
                return Err(e);
            },
        };
        let ghost mid: VmState = self@;
        let ghost b1w: u8 = choose|b: u8| mid.mem == #[trigger] probed(old(self)@.mem, address, b);
        let value: u16 = match self.mem_read(input, value_read as usize) {
            Ok(v) => v,
            Err(e) => {
                proof {
                    assert(ldi_mid_err_at(old(self)@, self@, instr, b1w));
                }
                return Err(e);
            },
        };
        self.set_register(r0, value)?;
        self.update_flags(r0)?;
        proof {
            let b2 = choose|b: u8| self@.mem == #[trigger] probed(mid.mem, value_read, b);
            assert(ldi_ok_at(old(self)@, self@, instr, b1w, b2));
        }
        Ok(())
    }

    /// ST SR, PCoffset9.
    ///
    /// Stores SR's value at the PC moved by the sign-extended 9-bit offset
    /// (wrapping). Stores never probe and never fail.
    pub fn st(&mut self, instr: u16) -> (r: Result<(), VMError>)
        requires
            old(self).wf(),
        ensures
            final(self).wf(),
            r == Ok::<(), VMError>(()),
            st_post(old(self)@, final(self)@, instr),
    {
        proof {
            lemma_field_bounds(instr);
        }
        let r0: u16 = (instr >> 9) & 0b0111;
        let value_in_r0: u16 = self.get_register(r0)?;
        let pc_offset: u16 = sign_extend(instr & 0b0001_1111_1111, 9)?;
        proof {
            lemma_sign_extend_agrees(instr & 0b0001_1111_1111, 9);
        }
        let address: u16 = self.pc.wrapping_add(pc_offset);
        proof {
            lemma_wrapping_add_is_mod(self.pc, pc_offset);
        }
        self.mem_write(value_in_r0, address as usize)?;
        Ok(())
    }

    /// STI SR, PCoffset9.
    ///
    /// Stores SR's value at the address the pointer at the PC moved by the
    /// sign-extended 9-bit offset holds. Reading the pointer may probe the
    /// keyboard status register.
    pub fn sti<S: ByteSource>(&mut self, input: &mut S, instr: u16) -> (r: Result<(), VMError>)
        requires
            old(self).wf(),
        ensures
            final(self).wf(),
            sti_post(old(self)@, final(self)@, instr, r),
    {
        proof {
            lemma_field_bounds(instr);
        }
        let r0: u16 = (instr >> 9) & 0b0111;
        let value_in_r0: u16 = self.get_register(r0)?;
        let pc_offset: u16 = sign_extend(instr & 0b0001_1111_1111, 9)?;
        proof {
            lemma_sign_extend_agrees(instr & 0b0001_1111_1111, 9);
        }
        let address: u16 = self.pc.wrapping_add(pc_offset);
        proof {
            lemma_wrapping_add_is_mod(self.pc, pc_offset);
        }
        let value_read: u16 = self.mem_read(input, address as usize)?;
        let ghost b1w: u8 = choose|b: u8| self@.mem == #[trigger] probed(old(self)@.mem, address, b);
        self.mem_write(value_in_r0, value_read as usize)?;
        proof {
            assert(sti_ok_at(old(self)@, self@, instr, b1w));
        }
        Ok(())
    }

    /// STR SR, BaseR, offset6.
    ///
    /// Stores SR's value at the base register moved by the sign-extended
    /// 6-bit offset (wrapping). Stores never probe and never fail.
    pub fn str(&mut self, instr: u16) -> (r: Result<(), VMError>)
        requires
            old(self).wf(),
        ensures
            final(self).wf(),
            r == Ok::<(), VMError>(()),
            str_post(old(self)@, final(self)@, instr),
    {
        proof {
            lemma_field_bounds(instr);
        }
        let r0: u16 = (instr >> 9) & 0b0111;
        let value_in_r0: u16 = self.get_register(r0)?;
        let r1: u16 = (instr >> 6) & 0b0111;
        let value_in_r1: u16 = self.get_register(r1)?;
        let pc_offset: u16 = sign_extend(instr & 0b0011_1111, 6)?;
        proof {
            lemma_sign_extend_agrees(instr & 0b0011_1111, 6);
        }
        let address: u16 = value_in_r1.wrapping_add(pc_offset);
        proof {
            lemma_wrapping_add_is_mod(value_in_r1, pc_offset);
        }
        self.mem_write(value_in_r0, address as usize)?;
        Ok(())
    }

    /// Hand one byte to the host output and record it in the ghost log.
    fn put_byte<K: ByteSink>(&mut self, output: &mut K, b: u8) -> (r: Result<(), VMError>)
        requires
            old(self).wf(),
        ensures
            final(self).wf(),
            r == Ok::<(), VMError>(()) ==> final(self)@ == (VmState {
                out: old(self)@.out.push(b),
                ..old(self)@
            }),
            r is Err ==> r == Err::<(), VMError>(VMError::StandardIO) && final(self)@ == old(
                self,
            )@,
    {
        match output.write_one(b) {
            Ok(()) => {
                self.out_log = Ghost(self.out_log@.push(b));
                Ok(())
            },
            Err(e) => Err(e),
        }
    }

    /// Hand a run of bytes to the host output, stopping at the first
    /// failure.
    #[verifier::spinoff_prover]
    #[verifier::loop_isolation(false)]
    fn write_bytes<K: ByteSink>(&mut self, output: &mut K, data: &Vec<u8>) -> (r: Result<
        (),
        VMError,
    >)
        requires
            old(self).wf(),
        ensures
            final(self).wf(),
            r == Ok::<(), VMError>(()) ==> final(self)@ == (VmState {
                out: old(self)@.out + data@,
                ..old(self)@
            }),
            r is Err ==> r == Err::<(), VMError>(VMError::StandardIO) && exists|j: int|
                0 <= j <= data@.len() && final(self)@ == (VmState {
                    out: old(self)@.out + #[trigger] data@.take(j),
                    ..old(self)@
                }),
    {
        proof {
            assert(old(self)@.out + data@.take(0) =~= old(self)@.out);
        }
        let mut i: usize = 0;
        while i < data.len()
            invariant
                old(self).wf(),
                self.wf(),
                i <= data@.len(),
                self@.out == old(self)@.out + data@.take(i as int),
                self@.regs == old(self)@.regs,
                self@.pc == old(self)@.pc,
                self@.cond == old(self)@.cond,
                self@.running == old(self)@.running,
                self@.mem == old(self)@.mem,
            decreases data@.len() - i,
        {
            let b: u8 = data[i];
            proof {
                assert((old(self)@.out + data@.take(i as int)).push(b) =~= old(self)@.out
                    + data@.take(i as int + 1));
                assert(self@ == (VmState {
                    out: old(self)@.out + data@.take(i as int),
                    ..old(self)@
                }));
            }
            self.put_byte(output, b)?;
            i += 1;
        }
        proof {
            assert(data@.take(data@.len() as int) =~= data@);
            assert(self@ == (VmState { out: old(self)@.out + data@, ..old(self)@ }));
        }
        Ok(())
    }

    /// GETC (vector 0x20).
    ///
    /// Reads one byte from the host input into R0 (zero-extended) and
    /// updates the condition code.
    pub fn getc<S: ByteSource>(&mut self, input: &mut S) -> (r: Result<(), VMError>)
        requires
            old(self).wf(),
        ensures
            final(self).wf(),
            getc_post(old(self)@, final(self)@, r),
    {
        let b: u8 = match input.read_one() {
            Ok(b) => b,
            Err(e) => {
                return Err(e);
            },
        };
        self.set_register(0, b as u16)?;
        self.update_flags(0)?;
        proof {
            assert(getc_ok_at(old(self)@, self@, b));
        }
        Ok(())
    }

    /// OUT (vector 0x21).
    ///
    /// Writes R0's character to the host output and flushes. A value above
    /// 255 fails with `InvalidCharacter`.
    pub fn out<K: ByteSink>(&mut self, output: &mut K) -> (r: Result<(), VMError>)
        requires
            old(self).wf(),
        ensures
            final(self).wf(),
            out_post(old(self)@, final(self)@, r),
    {
        let value: u16 = self.get_register(0)?;
        if value > 255 {
            return Err(VMError::InvalidCharacter);
        }
        let b: u8 = value as u8;
        self.put_byte(output, b)?;
        output.flush()?;
        Ok(())
    }

    /// PUTS (vector 0x22).
    ///
    /// Starting at the address in R0, writes each word's low byte to the
    /// host output until a zero word, then flushes. A word above 255 fails
    /// with `InvalidCharacter`; walking past the end of memory fails with
    /// `MemoryIndex`.
    #[verifier::loop_isolation(false)]
    pub fn puts<S: ByteSource, K: ByteSink>(&mut self, input: &mut S, output: &mut K) -> (r: Result<
        (),
        VMError,
    >)
        requires
            old(self).wf(),
        ensures
            final(self).wf(),
            puts_post(old(self)@, final(self)@, r),
    {
        let a: u16 = self.get_register(0)?;
        let mut address: u16 = a;
        let mut char_memory: u16 = self.mem_read(input, address as usize)?;
        while char_memory != 0
            invariant
                old(self).wf(),
                self.wf(),
                self@.regs == old(self)@.regs,
                self@.pc == old(self)@.pc,
                self@.cond == old(self)@.cond,
                self@.running == old(self)@.running,
                a == old(self)@.regs[0],
                a <= address < 0x10000,
                char_memory == self@.mem[address as int],
                forall|i: int|
                    0 <= i < MEMORY_MAX && i != MR_KBSR && i != MR_KBDR ==> self@.mem[i] == old(
                        self,
                    )@.mem[i],
                forall|n: int|
                    #[trigger] clean_zstr(old(self)@.mem, a, n) ==> self@.mem == old(self)@.mem
                        && address <= a + n && self@.out == old(self)@.out + zstr_low_bytes(
                        old(self)@.mem,
                        a,
                        address - a,
                    ) && (forall|k: int|
                        0 <= k < address - a ==> #[trigger] old(self)@.mem[a + k] <= 255),
                unterminated_clean(old(self)@.mem, a) ==> self@.mem == old(self)@.mem,
            decreases MEMORY_MAX - address,
        {
            if char_memory > 255 {
                proof {
                    assert forall|n: int|
                        !(#[trigger] clean_zstr(old(self)@.mem, a, n) && puts_chars_ok(
                            old(self)@.mem,
                            a,
                            n,
                        )) by {
                        if clean_zstr(old(self)@.mem, a, n) && puts_chars_ok(
                            old(self)@.mem,
                            a,
                            n,
                        ) {
                            if address < a + n {
                                assert(old(self)@.mem[a + (address - a)] <= 255);
                            } else {
                                assert(old(self)@.mem[a + n] == 0);
                            }
                        }
                    }
                    assert forall|n: int, f: int|
                        #[trigger] clean_zstr(old(self)@.mem, a, n) && 0 <= f < n
                            && #[trigger] first_wide_at(old(self)@.mem, a, f) implies address - a
                        == f by {
                        if address - a < f {
                            assert(old(self)@.mem[a + (address - a)] <= 255);
                            assert(a + (address - a) == address as int);
                        }
                        if address - a > f {
                            assert(old(self)@.mem[a + f] <= 255);
                        }
                    }
                }
                return Err(VMError::InvalidCharacter);
            }
            let ch: u8 = char_memory as u8;
            proof {
                assert forall|n: int, f: int|
                    #[trigger] clean_zstr(old(self)@.mem, a, n) && 0 <= f < n
                        && #[trigger] first_wide_at(old(self)@.mem, a, f) implies address - a
                    <= f by {
                    if address - a > f {
                        assert(old(self)@.mem[a + f] <= 255);
                    }
                }
            }
            self.put_byte(output, ch)?;
            address = match address.checked_add(1) {
                Some(next) => next,
                None => {
                    return Err(VMError::MemoryIndex);
                },
            };
            proof {
                assert forall|n: int| #[trigger] clean_zstr(old(self)@.mem, a, n) implies self@.out
                    == old(self)@.out + zstr_low_bytes(old(self)@.mem, a, address - a) && (forall|
                    k: int,
                |
                    0 <= k < address - a ==> #[trigger] old(self)@.mem[a + k] <= 255) by {
                    assert((old(self)@.out + zstr_low_bytes(old(self)@.mem, a, address - 1 - a)).push(
                        ch,
                    ) =~= old(self)@.out + zstr_low_bytes(old(self)@.mem, a, address - a));
                    assert forall|k: int| 0 <= k < address - a implies #[trigger] old(
                        self,
                    )@.mem[a + k] <= 255 by {
                        if k == address - 1 - a {
                            assert(a + k == address - 1);
                            assert(old(self)@.mem[a + k] == char_memory);
                        }
                    }
                }
            }
            char_memory = self.mem_read(input, address as usize)?;
        }
        proof {
            assert forall|n: int| #[trigger] clean_zstr(old(self)@.mem, a, n) implies address == a
                + n by {
                if address < a + n {
                    assert(old(self)@.mem[a + (address - a)] != 0);
                }
            }
            assert forall|n: int, f: int|
                !(#[trigger] clean_zstr(old(self)@.mem, a, n) && 0 <= f < n
                    && #[trigger] first_wide_at(old(self)@.mem, a, f)) by {
                if clean_zstr(old(self)@.mem, a, n) && 0 <= f < n && first_wide_at(
                    old(self)@.mem,
                    a,
                    f,
                ) {
                    assert(old(self)@.mem[a + f] <= 255);
                }
            }
            assert forall|n: int| #[trigger] clean_zstr(old(self)@.mem, a, n) implies puts_chars_ok(
                old(self)@.mem,
                a,
                n,
            ) by {
                assert forall|k: int| 0 <= k < n implies #[trigger] old(self)@.mem[a + k]
                    <= 255 by {
                    assert(k < address - a);
                }
            }
            if unterminated_clean(old(self)@.mem, a) {
                assert(old(self)@.mem[address as int] != 0);
                assert(false);
            }
        }
        output.flush()?;
        Ok(())
    }

    /// IN (vector 0x23).
    ///
    /// Prints the prompt, reads one byte from the host input into R0,
    /// echoes it, updates the condition code, and flushes.
    pub fn in_trap<S: ByteSource, K: ByteSink>(&mut self, input: &mut S, output: &mut K) -> (r:
        Result<(), VMError>)
        requires
            old(self).wf(),
        ensures
            final(self).wf(),
            in_post(old(self)@, final(self)@, r),
    {
        // "Enter a character: " and a newline, one byte per push
        let mut prompt: Vec<u8> = Vec::new();
        prompt.push(0x45u8);
        prompt.push(0x6Eu8);
        prompt.push(0x74u8);
        prompt.push(0x65u8);
        prompt.push(0x72u8);
        prompt.push(0x20u8);
        prompt.push(0x61u8);
        prompt.push(0x20u8);
        prompt.push(0x63u8);
        prompt.push(0x68u8);
        prompt.push(0x61u8);
        prompt.push(0x72u8);
        prompt.push(0x61u8);
        prompt.push(0x63u8);
        prompt.push(0x74u8);
        prompt.push(0x65u8);
        prompt.push(0x72u8);
        prompt.push(0x3Au8);
        prompt.push(0x20u8);
        prompt.push(0x0Au8);
        proof {
            assert(prompt@ =~= in_prompt());
        }
        self.write_bytes(output, &prompt)?;
        proof {
            assert(in_prompt().take(in_prompt().len() as int) =~= in_prompt());
        }
        let b: u8 = match input.read_one() {
            Ok(v) => v,
            Err(e) => {
                return Err(e);
            },
        };
        self.set_register(0, b as u16)?;
        proof {
            assert(in_echo_err_at(old(self)@, self@, b));
        }
        self.put_byte(output, b)?;
        self.update_flags(0)?;
        proof {
            assert(in_ok_at(old(self)@, self@, b));
        }
        output.flush()?;
        Ok(())
    }

    /// PUTSP (vector 0x24).
    ///
    /// Starting at the address in R0, writes each word's low byte then high
    /// byte to the host output until a zero word, then flushes. A zero high
    /// byte inside a nonzero word is written as NUL.
    #[verifier::loop_isolation(false)]
    pub fn putsp<S: ByteSource, K: ByteSink>(&mut self, input: &mut S, output: &mut K) -> (r:
        Result<(), VMError>)
        requires
            old(self).wf(),
        ensures
            final(self).wf(),
            putsp_post(old(self)@, final(self)@, r),
    {
        let a: u16 = self.get_register(0)?;
        let mut address: u16 = a;
        let mut char_memory: u16 = self.mem_read(input, address as usize)?;
        while char_memory != 0
            invariant
                old(self).wf(),
                self.wf(),
                self@.regs == old(self)@.regs,
                self@.pc == old(self)@.pc,
                self@.cond == old(self)@.cond,
                self@.running == old(self)@.running,
                a == old(self)@.regs[0],
                a <= address < 0x10000,
                char_memory == self@.mem[address as int],
                forall|i: int|
                    0 <= i < MEMORY_MAX && i != MR_KBSR && i != MR_KBDR ==> self@.mem[i] == old(
                        self,
                    )@.mem[i],
                forall|n: int|
                    #[trigger] clean_zstr(old(self)@.mem, a, n) ==> self@.mem == old(self)@.mem
                        && address <= a + n && self@.out == old(self)@.out + zstr_packed_bytes(
                        old(self)@.mem,
                        a,
                        address - a,
                    ),
                unterminated_clean(old(self)@.mem, a) ==> self@.mem == old(self)@.mem,
            decreases MEMORY_MAX - address,
        {
            let first_char: u16 = char_memory & 0b1111_1111;
            let lo: u8 = #[verifier::truncate] (first_char as u8);
            proof {
                assert forall|n: int| #[trigger] clean_zstr(old(self)@.mem, a, n) implies {
                    let k = address - a;
                    zstr_packed_bytes(old(self)@.mem, a, k) == zstr_packed_bytes(
                        old(self)@.mem,
                        a,
                        n,
                    ).take(2 * k)
                } by {
                    let k = address - a;
                    assert(zstr_packed_bytes(old(self)@.mem, a, k) =~= zstr_packed_bytes(
                        old(self)@.mem,
                        a,
                        n,
                    ).take(2 * k));
                }
            }
            self.put_byte(output, lo)?;
            let second_char: u16 = char_memory >> 8;
            let hi: u8 = #[verifier::truncate] (second_char as u8);
            proof {
                assert forall|n: int| #[trigger] clean_zstr(old(self)@.mem, a, n) implies {
                    let k = address - a;
                    (old(self)@.out + zstr_packed_bytes(old(self)@.mem, a, k)).push(lo) == old(
                        self,
                    )@.out + zstr_packed_bytes(old(self)@.mem, a, n).take(2 * k + 1)
                } by {
                    let k = address - a;
                    assert((old(self)@.out + zstr_packed_bytes(old(self)@.mem, a, k)).push(lo)
                        =~= old(self)@.out + zstr_packed_bytes(old(self)@.mem, a, n).take(2 * k
                        + 1));
                }
            }
            self.put_byte(output, hi)?;
            address = match address.checked_add(1) {
                Some(next) => next,
                None => {
                    return Err(VMError::MemoryIndex);
                },
            };
            proof {
                assert forall|n: int| #[trigger] clean_zstr(old(self)@.mem, a, n) implies self@.out
                    == old(self)@.out + zstr_packed_bytes(old(self)@.mem, a, address - a) by {
                    assert(((old(self)@.out + zstr_packed_bytes(old(self)@.mem, a, address - 1 - a)).push(
                        lo,
                    )).push(hi) =~= old(self)@.out + zstr_packed_bytes(
                        old(self)@.mem,
                        a,
                        address - a,
                    ));
                }
            }
            char_memory = self.mem_read(input, address as usize)?;
        }
        proof {
            assert forall|n: int| #[trigger] clean_zstr(old(self)@.mem, a, n) implies address == a
                + n && zstr_packed_bytes(old(self)@.mem, a, n).take(2 * n) == zstr_packed_bytes(
                old(self)@.mem,
                a,
                n,
            ) by {
                if address < a + n {
                    assert(old(self)@.mem[a + (address - a)] != 0);
                }
                assert(zstr_packed_bytes(old(self)@.mem, a, n).take(2 * n) =~= zstr_packed_bytes(
                    old(self)@.mem,
                    a,
                    n,
                ));
            }
            if unterminated_clean(old(self)@.mem, a) {
                assert(old(self)@.mem[address as int] != 0);
                assert(false);
            }
        }
        output.flush()?;
        Ok(())
    }

    /// HALT (vector 0x25).
    ///
    /// Prints the halt message, flushes, and stops the machine.
    pub fn halt<K: ByteSink>(&mut self, output: &mut K) -> (r: Result<(), VMError>)
        requires
            old(self).wf(),
        ensures
            final(self).wf(),
            halt_post(old(self)@, final(self)@, r),
    {
        // "HALT" and a newline
        let mut message: Vec<u8> = Vec::new();
        message.push(0x48u8);
        message.push(0x41u8);
        message.push(0x4Cu8);
        message.push(0x54u8);
        message.push(0x0Au8);
        proof {
            assert(message@ =~= halt_message());
        }
        self.write_bytes(output, &message)?;
        proof {
            assert(halt_message().take(halt_message().len() as int) =~= halt_message());
        }
        output.flush()?;
        self.running = false;
        Ok(())
    }

    /// TRAP trapvect8.
    ///
    /// Stores the return address in R7, then dispatches the service routine
    /// the low 8 bits select; a vector outside 0x20..=0x25 fails with
    /// `InvalidTrapCode` (with R7 already written).
    pub fn trap<S: ByteSource, K: ByteSink>(&mut self, input: &mut S, output: &mut K, instr: u16) -> (r: Result<(), VMError>)
        requires
            old(self).wf(),
        ensures
            final(self).wf(),
            trap_post(old(self)@, final(self)@, instr, r),
    {
        let pc: u16 = self.pc;
        self.set_register(7, pc)?;
        let trap_code: TrapCode = match TrapCode::try_from(instr & 0b1111_1111) {
            Ok(t) => t,
            Err(e) => {
                return Err(e);
            },
        };
        match trap_code {
            TrapCode::Getc => self.getc(input),
            TrapCode::Out => self.out(output),
            TrapCode::Puts => self.puts(input, output),
            TrapCode::IN => self.in_trap(input, output),
            TrapCode::Putsp => self.putsp(input, output),
            TrapCode::Halt => self.halt(output),
        }
    }

    /// Decode the top 4 bits of `instr` and run the instruction they name.
    ///
    /// The other 12 bits are read differently by each instruction. RTI and
    /// RES fail with `InvalidOpcode`.
    pub fn execute<S: ByteSource, K: ByteSink>(&mut self, input: &mut S, output: &mut K, instr: u16) -> (r: Result<(), VMError>)
        requires
            old(self).wf(),
        ensures
            final(self).wf(),
            execute_post(old(self)@, final(self)@, instr, r),
    {
        proof {
            lemma_field_bounds(instr);
        }
        let op: Opcode = match Opcode::try_from(instr >> 12) {
            Ok(op) => op,
            Err(e) => {
                return Err(e);
            },
        };
        match op {
            Opcode::BR => self.br(instr),
            Opcode::Add => self.add(instr),
            Opcode::LD => self.ld(input, instr),
            Opcode::ST => self.st(instr),
            Opcode::Jsr => self.jsr(instr),
            Opcode::And => self.and(instr),
            Opcode::Ldr => self.ldr(input, instr),
            Opcode::Str => self.str(instr),
            Opcode::Rti => Err(VMError::InvalidOpcode),
            Opcode::Not => self.not(instr),
            Opcode::Ldi => self.ldi(input, instr),
            Opcode::Sti => self.sti(input, instr),
            Opcode::Jmp => self.jmp(instr),
            Opcode::Res => Err(VMError::InvalidOpcode),
            Opcode::Lea => self.lea(instr),
            Opcode::Trap => self.trap(input, output, instr),
        }
    }

    /// One step of the fetch/execute loop: fetch the word the PC points to
    /// (which may probe the keyboard), increment the PC, and execute the
    /// fetched instruction. The host runs this in a loop while `running`
    /// holds.
    pub fn step<S: ByteSource, K: ByteSink>(&mut self, input: &mut S, output: &mut K) -> (r: Result<(), VMError>)
        requires
            old(self).wf(),
        ensures
            final(self).wf(),
            step_post(old(self)@, final(self)@, r),
    {
        let pc: u16 = self.pc;
        let instr: u16 = match self.mem_read(input, pc as usize) {
            Ok(v) => v,
            Err(e) => {
                return Err(e);
            },
        };
        let ghost bw: u8 = choose|b: u8| self@.mem == #[trigger] probed(old(self)@.mem, pc, b);
        let next_pc: u16 = match pc.checked_add(1) {
            Some(p) => p,
            None => {
                proof {
                    assert(step_fetched(
                        old(self)@,
                        self@,
                        bw,
                        Err::<(), VMError>(VMError::MemoryIndex),
                    ));
                }
                return Err(VMError::MemoryIndex);
            },
        };
        self.pc = next_pc;
        let r: Result<(), VMError> = self.execute(input, output, instr);
        proof {
            assert(step_fetched(old(self)@, self@, bw, r));
        }
        r
    }

    /// The fetch/execute loop: set the running flag, then fetch, increment
    /// the PC and execute until HALT clears the flag or a step fails.
    ///
    /// Every function here must terminate, while an LC-3 program may run
    /// forever, so the loop takes a step budget: `Ok(true)` means the
    /// machine halted, `Ok(false)` that the budget ran out first, and the
    /// caller decides whether to grant more steps. Whatever is returned,
    /// the machine ends in a state that successful steps reach from the
    /// started one.
    pub fn run<S: ByteSource, K: ByteSink>(&mut self, input: &mut S, output: &mut K, max_steps: u64) -> (r: Result<bool, VMError>)
        requires
            old(self).wf(),
        ensures
            final(self).wf(),
            r == Ok::<bool, VMError>(true) ==> !final(self)@.running,
            r == Ok::<bool, VMError>(false) ==> final(self)@.running,
            r is Ok ==> exists|n: nat|
                #[trigger] runs_to(started(old(self)@), final(self)@, n),
            r == Ok::<bool, VMError>(false) ==> runs_to(
                started(old(self)@),
                final(self)@,
                max_steps as nat,
            ),
            r matches Err(e) ==> exists|n: nat, mid: VmState|
                #[trigger] runs_to(started(old(self)@), mid, n) && step_post(
                    mid,
                    final(self)@,
                    Err::<(), VMError>(e),
                ),
    {
        // start machine
        self.running = true;
        let ghost start: VmState = self@;
        let ghost n: nat = 0;
        let mut steps: u64 = 0;
        while self.running && steps < max_steps
            invariant
                self.wf(),
                start == started(old(self)@),
                runs_to(start, self@, n),
                n == steps,
                steps <= max_steps,
            decreases max_steps - steps,
        {
            let ghost before: VmState = self@;
            self.step(input, output)?;
            proof {
                lemma_runs_to_snoc(start, before, self@, n);
                n = n + 1;
            }
            steps = steps + 1;
        }
        Ok(!self.running)
    }
}

} // verus!
