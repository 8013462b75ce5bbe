use vstd::prelude::*;

verus! {

/// Number of original instructions a single hook may relocate.
pub const A64_MAX_INSTRUCTIONS: usize = 5;

/// Capacity of one slot's pending-fixup list.
pub const A64_MAX_REFERENCES: usize = A64_MAX_INSTRUCTIONS * 2;

/// Number of trampoline buffers in the process-wide pool.
pub const A64_MAX_BACKUPS: usize = 256;

/// The A64 no-operation instruction, used as alignment filler.
pub const A64_NOP: u32 = 0xd503201f;

/// Size of a memory page, for protection-change bookkeeping.
pub const PAGE_SIZE: usize = 4096;

/// Words available in one trampoline buffer of the pool.
pub const TRAMPOLINE_WORDS: usize = A64_MAX_INSTRUCTIONS * 10;

} // verus!
