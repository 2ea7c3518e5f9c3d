use vstd::prelude::*;

use crate::bytes::{be_word, concatenate_bytes};
use crate::host::ByteSource;
use crate::vm::VMError;

verus! {

/// Number of 16-bit cells in memory.
pub const MEMORY_MAX: usize = 0x10000;

/// Keyboard status register: bit 15 set means a byte is available.
pub const MR_KBSR: usize = 0xFE00;

/// Keyboard data register: the byte last sampled from the keyboard.
pub const MR_KBDR: usize = 0xFE02;

/// The machine's linear memory: 65,536 words, every one of them
/// addressable. Reading the keyboard status register has the side effect of
/// sampling the host's byte source; every other read is pure.
pub struct Memory {
    memory: Vec<u16>,
}

impl View for Memory {
    type V = Seq<u16>;

    closed spec fn view(&self) -> Seq<u16> {
        self.memory@
    }
}

/// Memory after a key probe that sampled the byte `b`: a nonzero byte sets
/// the ready bit in the status register and places the byte in the data
/// register; a zero byte clears the status register.
pub open spec fn key_probed(m: Seq<u16>, b: u8) -> Seq<u16> {
    if b != 0 {
        m.update(MR_KBSR as int, 0x8000u16).update(MR_KBDR as int, b as u16)
    } else {
        m.update(MR_KBSR as int, 0u16)
    }
}

/// Memory after a read at `addr`: a read of the keyboard status register
/// probes the host input (sampling some byte `b`), and any other read
/// leaves memory as it is.
pub open spec fn probed(m: Seq<u16>, addr: u16, b: u8) -> Seq<u16> {
    if addr == MR_KBSR {
        key_probed(m, b)
    } else {
        m
    }
}

/// How many code/data words follow the origin word in an image of the given
/// byte length (a trailing odd byte is ignored).
pub open spec fn image_word_count(bytes: Seq<u8>) -> int {
    (bytes.len() - 2) / 2
}

/// The origin word of an image: its first two bytes, big-endian.
pub open spec fn image_origin(bytes: Seq<u8>) -> u16
    recommends
        bytes.len() >= 2,
{
    be_word(bytes[0], bytes[1])
}

/// The code/data words of an image: each pair of bytes after the origin,
/// big-endian.
pub open spec fn image_words(bytes: Seq<u8>) -> Seq<u16>
    recommends
        bytes.len() >= 2,
{
    Seq::new(image_word_count(bytes) as nat, |k: int| be_word(bytes[2 + 2 * k], bytes[3 + 2 * k]))
}

/// The byte stream an image writer would emit for an origin and its words:
/// each word big-endian, the origin first.
pub open spec fn image_of(origin: u16, words: Seq<u16>) -> Seq<u8> {
    Seq::new(
        2 + 2 * words.len(),
        |j: int|
            {
                let w = if j < 2 {
                    origin
                } else {
                    words[(j - 2) / 2]
                };
                if j % 2 == 0 {
                    (w / 256) as u8
                } else {
                    (w % 256) as u8
                }
            },
    )
}

/// Memory `m` with `words` placed at consecutive cells starting at `origin`,
/// and every other cell unchanged.
pub open spec fn loaded(m: Seq<u16>, origin: u16, words: Seq<u16>) -> Seq<u16> {
    Seq::new(
        m.len(),
        |i: int|
            if origin <= i < origin + words.len() {
                words[i - origin]
            } else {
                m[i]
            },
    )
}

/// Law: loading an image produced by concatenating an origin with arbitrary
/// words places exactly those words at consecutive cells from the origin
/// and leaves every other cell unchanged. The emitted stream decodes back
/// to the origin and words it was built from, so
/// [`Memory::read_image_bytes`] on `image_of(origin, words)` yields
/// `loaded(m, origin, words)`.
pub proof fn lemma_image_round_trip(m: Seq<u16>, origin: u16, words: Seq<u16>)
    requires
        m.len() == MEMORY_MAX,
        origin + words.len() <= MEMORY_MAX,
    ensures
        image_of(origin, words).len() == 2 + 2 * words.len(),
        image_origin(image_of(origin, words)) == origin,
        image_word_count(image_of(origin, words)) == words.len(),
        image_words(image_of(origin, words)) == words,
        forall|i: int| 0 <= i < words.len() ==> loaded(m, origin, words)[origin + i] == words[i],
        forall|i: int|
            0 <= i < MEMORY_MAX && !(origin <= i < origin + words.len()) ==> loaded(
                m,
                origin,
                words,
            )[i] == m[i],
{
    let bytes = image_of(origin, words);
    vstd::arithmetic::div_mod::lemma_fundamental_div_mod(origin as int, 256);
    assert(image_origin(bytes) == origin);
    assert forall|k: int| 0 <= k < words.len() implies image_words(bytes)[k] == words[k] by {
        vstd::arithmetic::div_mod::lemma_fundamental_div_mod(words[k] as int, 256);
        assert(bytes[2 + 2 * k] == (words[k] / 256) as u8);
        assert(bytes[3 + 2 * k] == (words[k] % 256) as u8);
    }
    assert(image_words(bytes) =~= words);
}

impl Memory {
    /// Every cell is addressable: the well-formedness every operation
    /// preserves.
    pub open spec fn wf(&self) -> bool {
        self@.len() == MEMORY_MAX
    }

    /// A fresh memory, all 65,536 cells zero.
    pub fn new() -> (r: Memory)
        ensures
            r.wf(),
            forall|i: int| 0 <= i < MEMORY_MAX ==> r@[i] == 0,
    {
        let memory = vec![0u16; MEMORY_MAX];
        Memory { memory }
    }

    /// Store `value` at `index`. An index past the end of memory fails with
    /// `MemoryIndex` and changes nothing (unreachable from the engine, whose
    /// addresses are 16 bits, but the guard is kept for symmetry with
    /// `mem_read`).
    pub fn mem_write(&mut self, value: u16, index: usize) -> (r: Result<(), VMError>)
        requires
            old(self).wf(),
        ensures
            final(self).wf(),
            index < MEMORY_MAX ==> r == Ok::<(), VMError>(()) && final(self)@ == old(
                self,
            )@.update(index as int, value),
            index >= MEMORY_MAX ==> r == Err::<(), VMError>(VMError::MemoryIndex) && final(self)@
                == old(self)@,
    {
        if index < MEMORY_MAX {
            self.memory[index] = value;
            Ok(())
        } else {
            Err(VMError::MemoryIndex)
        }
    }

    /// Sample the host's byte source once and record the outcome in the two
    /// keyboard registers.
    fn check_key<S: ByteSource>(&mut self, input: &mut S) -> (r: Result<(), VMError>)
        requires
            old(self).wf(),
        ensures
            final(self).wf(),
            r matches Ok(()) ==> exists|b: u8| final(self)@ == key_probed(old(self)@, b),
            r is Err ==> r == Err::<(), VMError>(VMError::StandardIO) && final(self)@ == old(
                self,
            )@,
    {
        let b: u8 = match input.read_one() {
            Ok(b) => b,
            Err(e) => {
                return Err(e);
            },
        };
        if b != 0 {
            let _ = self.mem_write(0x8000, MR_KBSR);
            let _ = self.mem_write(b as u16, MR_KBDR);
        } else {
            let _ = self.mem_write(0, MR_KBSR);
        }
        proof {
            assert(self@ == key_probed(old(self)@, b));
        }
        Ok(())
    }

    /// The word at `index`. Reading the keyboard status register first
    /// probes the host input, which updates the two keyboard registers, and
    /// only then returns the (possibly updated) word; reads anywhere else
    /// are pure. An index past the end of memory fails with `MemoryIndex`.
    pub fn mem_read<S: ByteSource>(&mut self, input: &mut S, index: usize) -> (r: Result<
        u16,
        VMError,
    >)
        requires
            old(self).wf(),
        ensures
            final(self).wf(),
            index < MEMORY_MAX && index != MR_KBSR ==> r == Ok::<u16, VMError>(
                old(self)@[index as int],
            ) && final(self)@ == old(self)@,
            index >= MEMORY_MAX ==> r == Err::<u16, VMError>(VMError::MemoryIndex) && final(self)@
                == old(self)@,
            index == MR_KBSR ==> match r {
                Ok(v) => exists|b: u8|
                    final(self)@ == key_probed(old(self)@, b) && v == final(self)@[MR_KBSR as int],
                Err(e) => e == VMError::StandardIO && final(self)@ == old(self)@,
            },
    {
        if index == MR_KBSR {
            match self.check_key(input) {
                Ok(()) => (),
                Err(e) => {
                    return Err(e);
                },
            }
        }
        if index < MEMORY_MAX {
            Ok(self.memory[index])
        } else {
            Err(VMError::MemoryIndex)
        }
    }

    /// Place an image in memory: the first two bytes form the origin word,
    /// and each later big-endian pair is stored at the next cell starting at
    /// the origin (a trailing odd byte is ignored). Fewer than two bytes
    /// fail with `ConcatenatingBytes`; a stream that would run past the end
    /// of memory stores what fits and fails with `MemoryIndex`.
    pub fn read_image_bytes(&mut self, bytes: &[u8]) -> (r: Result<(), VMError>)
        requires
            old(self).wf(),
        ensures
            final(self).wf(),
            bytes@.len() < 2 ==> r == Err::<(), VMError>(VMError::ConcatenatingBytes) && final(self)@ == old(self)@,
            bytes@.len() >= 2 && image_origin(bytes@) + image_word_count(bytes@) <= MEMORY_MAX
                ==> r == Ok::<(), VMError>(()) && final(self)@ == loaded(
                old(self)@,
                image_origin(bytes@),
                image_words(bytes@),
            ),
            bytes@.len() >= 2 && image_origin(bytes@) + image_word_count(bytes@) > MEMORY_MAX
                ==> r == Err::<(), VMError>(VMError::MemoryIndex) && final(self)@ == loaded(
                old(self)@,
                image_origin(bytes@),
                image_words(bytes@).take(MEMORY_MAX - image_origin(bytes@)),
            ),
    {
        if bytes.len() < 2 {
            return Err(VMError::ConcatenatingBytes);
        }
        let origin_word: u16 = match concatenate_bytes(&bytes[0..2]) {
            Ok(w) => w,
            Err(e) => {
                return Err(e);
            },
        };
        let origin: usize = origin_word as usize;
        let n: usize = (bytes.len() - 2) / 2;
        let ghost words: Seq<u16> = image_words(bytes@);
        let mut k: usize = 0;
        while k < n
            invariant
                old(self).wf(),
                self.wf(),
                k <= n,
                origin + k <= MEMORY_MAX,
                origin == origin_word as usize,
                origin_word == image_origin(bytes@),
                bytes@.len() >= 2,
                n == image_word_count(bytes@),
                words == image_words(bytes@),
                self@ == loaded(old(self)@, origin_word, words.take(k as int)),
            decreases n - k,
        {
            let word: u16 = match concatenate_bytes(&bytes[2 + 2 * k..4 + 2 * k]) {
                Ok(w) => w,
                Err(e) => {
                    return Err(e);
                },
            };
            proof {
                assert(word == words[k as int]);
            }
            let index: usize = origin + k;
            match self.mem_write(word, index) {
                Ok(()) => {
                    proof {
                        assert(self@ =~= loaded(old(self)@, origin_word, words.take(k + 1)));
                    }
                },
                Err(e) => {
                    proof {
                        assert(words.take(k as int) =~= words.take(
                            MEMORY_MAX - image_origin(bytes@),
                        ));
                    }
                    return Err(e);
                },
            }
            k += 1;
        }
        proof {
            assert(words.take(n as int) =~= words);
        }
        Ok(())
    }
}

} // verus!
