use vstd::prelude::*;

use crate::vm::VMError;

verus! {

/// The value of the low `n` bits of `v`, read as an `n`-bit two's-complement
/// integer and brought back into 16 bits: `low` is the unsigned value of the
/// field; when the field's sign bit is clear the result is `low` itself, and
/// when it is set the result is `low - 2^n` represented modulo `2^16`.
pub open spec fn sign_extended(v: u16, n: u16) -> u16
    recommends
        1 <= n <= 16,
{
    let m = 1u32 << (n as u32);
    let low = (v as u32) % m;
    if low < m / 2 {
        low as u16
    } else {
        (low + 0x10000 - m) as u16
    }
}

/// What `sign_extend` does, bit for bit: when bit `n - 1` of `v` is 1, fill
/// bits `n..16` with ones; otherwise leave `v` unchanged (including any
/// stray bits above the field, which callers mask away).
pub open spec fn sign_fill(v: u16, n: u16) -> u16
    recommends
        1 <= n <= 16,
{
    if n < 16 && ((v >> ((n - 1) as u16)) & 1) == 1 {
        v | (0xFFFFu16 << n)
    } else {
        v
    }
}

/// Law: on a field value that fits in its `n` bits, filling the high bits
/// from the sign bit is the same as reading the field as an `n`-bit
/// two's-complement integer and representing it in 16 bits.
pub proof fn lemma_sign_extend_agrees(v: u16, n: u16)
    by (bit_vector)
    requires
        1 <= n <= 16,
        (v as u32) < (1u32 << (n as u32)),
    ensures
        sign_fill(v, n) == sign_extended(v, n),
{
}

/// Treat the low `bit_count` bits of `value` as a two's-complement integer
/// and return its 16-bit representation. A `bit_count` of 0 is an invalid
/// call and fails with `Overflow`.
pub fn sign_extend(value: u16, bit_count: u16) -> (r: Result<u16, VMError>)
    requires
        bit_count <= 16,
    ensures
        bit_count == 0 ==> r == Err::<u16, VMError>(VMError::Overflow),
        bit_count >= 1 ==> r == Ok::<u16, VMError>(sign_fill(value, bit_count)),
{
    if bit_count == 0 {
        return Err(VMError::Overflow);
    }
    let last_bit_position: u16 = bit_count - 1;
    if bit_count < 16 && (value >> last_bit_position) & 1 == 1 {
        Ok(value | (0xFFFFu16 << bit_count))
    } else {
        Ok(value)
    }
}

/// The big-endian 16-bit word formed from two bytes: `hi` is the high byte.
pub open spec fn be_word(hi: u8, lo: u8) -> u16 {
    (hi * 256 + lo) as u16
}

/// Compose a big-endian word from a two-byte slice. Callers guarantee
/// exactly two bytes; any other length fails with `ConcatenatingBytes`.
pub fn concatenate_bytes(bytes: &[u8]) -> (r: Result<u16, VMError>)
    ensures
        bytes@.len() == 2 ==> r == Ok::<u16, VMError>(be_word(bytes@[0], bytes@[1])),
        bytes@.len() != 2 ==> r == Err::<u16, VMError>(VMError::ConcatenatingBytes),
{
    if bytes.len() != 2 {
        return Err(VMError::ConcatenatingBytes);
    }
    let hi: u8 = bytes[0];
    let lo: u8 = bytes[1];
    Ok((hi as u16) * 256 + (lo as u16))
}

} // verus!
