use vstd::prelude::*;

use crate::a64;
use crate::constants::A64_MAX_BACKUPS;
use crate::constants::TRAMPOLINE_WORDS;

verus! {

/// The process-wide arena of fixed-size trampoline buffers. Buffers are
/// handed out by a monotonically advancing index and never reused; when the
/// arena is exhausted, allocation fails and the hook is refused.
///
/// `index` is the index of the last buffer handed out, starting one below
/// zero, exactly as the shared counter of the running engine does.
pub struct TrampolinePool {
    /// Address of the first buffer.
    pub base: i64,
    /// Index of the most recently handed-out buffer.
    pub index: i64,
}

impl TrampolinePool {
    /// Byte size of one trampoline buffer.
    pub open spec fn spec_slot_bytes() -> int {
        4 * TRAMPOLINE_WORDS
    }

    /// How many buffers have been handed out so far.
    pub open spec fn spec_allocated(self) -> int {
        self.index + 1
    }

    /// Address of buffer `i`.
    pub open spec fn spec_slot_addr(self, i: int) -> int {
        self.base + Self::spec_slot_bytes() * i
    }

    pub open spec fn wf(self) -> bool {
        &&& 0 < self.base
        &&& a64::addr_ok(self.base as int)
        &&& self.base % 8 == 0
        &&& a64::addr_ok(self.base + Self::spec_slot_bytes() * A64_MAX_BACKUPS + 0x1000)
        &&& -1 <= self.index <= A64_MAX_BACKUPS
    }

    /// A fresh pool over an arena of `A64_MAX_BACKUPS` buffers at `base`.
    /// The caller has already made the arena writable and executable.
    pub fn new(base: i64) -> (r: Self)
        requires
            0 < base,
            a64::addr_ok(base as int),
            base % 8 == 0,
            a64::addr_ok(base + Self::spec_slot_bytes() * A64_MAX_BACKUPS + 0x1000),
        ensures
            r.wf(),
            r.base == base,
            r.spec_allocated() == 0,
    {
        TrampolinePool { base, index: -1 }
    }

    /// Hands out the next unused buffer, or nothing once all
    /// `A64_MAX_BACKUPS` buffers are taken. A returned buffer is 8-byte
    /// aligned and is never handed out a second time.
    pub fn allocate(&mut self) -> (r: Option<i64>)
        requires
            old(self).wf(),
        ensures
            final(self).wf(),
            final(self).base == old(self).base,
            old(self).spec_allocated() >= A64_MAX_BACKUPS ==> {
                &&& r is None
                &&& final(self).spec_allocated() == old(self).spec_allocated()
            },
            old(self).spec_allocated() < A64_MAX_BACKUPS ==> {
                &&& final(self).spec_allocated() == old(self).spec_allocated() + 1
                &&& r == Some((old(self).spec_slot_addr(old(self).spec_allocated())) as i64)
                &&& r matches Some(a) ==> 0 < a && a % 8 == 0 && a64::addr_ok(a as int)
                    && a64::addr_ok(a + 4 * 0x220)
            },
    {
        if self.index >= (A64_MAX_BACKUPS as i64) - 1 {
            return None;
        }
        let i = self.index + 1;
        self.index = i;
        let addr = self.base + (4 * TRAMPOLINE_WORDS as i64) * i;
        proof {
            assert(0 <= i < A64_MAX_BACKUPS);
            assert(self.base + 200 * i <= self.base + 200 * 256) by (nonlinear_arith)
                requires 0 <= i < 256;
            assert(self.base % 8 == 0 && 0 <= i ==> (self.base + 200 * i) % 8 == 0)
                by (nonlinear_arith);
        }
        Some(addr)
    }
}

/// Distinct buffer indices give non-overlapping buffers, so no two
/// successful allocations ever alias, whatever the interleaving of callers
/// that drives the shared index.
pub proof fn lemma_pool_slots_disjoint(p: TrampolinePool, i1: int, i2: int)
    requires
        p.wf(),
        0 <= i1 < i2 < A64_MAX_BACKUPS,
    ensures
        p.spec_slot_addr(i1) + TrampolinePool::spec_slot_bytes() <= p.spec_slot_addr(i2),
{
    assert(200 * i1 + 200 <= 200 * i2) by (nonlinear_arith)
        requires i1 < i2;
}

} // verus!
