use vstd::prelude::*;

use crate::a64;
use crate::constants::A64_MAX_INSTRUCTIONS;
use crate::constants::A64_MAX_REFERENCES;

verus! {

/// One pending fixup: the output word at address `bp` still needs the word
/// offset to its target OR-ed in, shifted by `ls` and masked by `ad`.
pub struct FixInfo {
    pub bp: i64,
    pub ls: u32,
    pub ad: u32,
}

impl Default for FixInfo {
    /// The resting state of a fixup entry: no patch address, full mask.
    fn default() -> (r: Self)
        ensures
            r.bp == 0,
            r.ls == 0,
            r.ad == 0xffff_ffffu32,
    {
        FixInfo { bp: 0, ls: 0, ad: 0xffff_ffff }
    }
}

/// Per-original-instruction slot: the address its relocated encoding was
/// written to (`ins`, set when the instruction is emitted), and the fixups
/// recorded by earlier instructions that refer forward to this slot.
pub struct InsnsInfo {
    pub ins: i64,
    pub fmap: Vec<FixInfo>,
}

impl InsnsInfo {
    pub fn new() -> (r: Self)
        ensures
            r.ins == 0,
            r.fmap@.len() == 0,
    {
        InsnsInfo { ins: 0, fmap: Vec::new() }
    }
}

/// A fixup entry is well formed for an output buffer of `out_len` words
/// based at `out_base`: it patches an already-emitted, aligned position.
pub open spec fn fix_ok(f: FixInfo, out_base: int, out_len: int) -> bool {
    &&& out_base <= f.bp < out_base + 4 * out_len
    &&& (f.bp - out_base) % 4 == 0
    &&& f.ls < 32
}

/// The bits a fixup ORs into its patch word once the target's relocated
/// address `target` is known.
pub open spec fn fix_or_bits(f: FixInfo, target: int) -> u32 {
    (((((target - f.bp) / 4) as u32) << f.ls) & f.ad)
}

/// Whether some fixup among the first `k` of `fm` patches the word at
/// index `p` of the output.
pub open spec fn patched_in(fm: Seq<FixInfo>, k: int, out_base: int, p: int) -> bool {
    exists|j: int| 0 <= j < k && fm[j].bp == out_base + 4 * p
}

/// The fixup among the first `k` of `fm` that patches the word at index `p`.
pub open spec fn fix_at_in(fm: Seq<FixInfo>, k: int, out_base: int, p: int) -> FixInfo {
    fm[choose|j: int| 0 <= j < k && fm[j].bp == out_base + 4 * p]
}

/// Whether some fixup in `fm` patches the word at index `p` of the output.
pub open spec fn has_fix_at(fm: Seq<FixInfo>, out_base: int, p: int) -> bool {
    patched_in(fm, fm.len() as int, out_base, p)
}

/// The fixup in `fm` that patches the word at index `p` of the output.
pub open spec fn fix_at(fm: Seq<FixInfo>, out_base: int, p: int) -> FixInfo {
    fix_at_in(fm, fm.len() as int, out_base, p)
}

/// Patch addresses strictly increase along a fixup list, so each position
/// is patched by at most one entry.
pub open spec fn fm_increasing(fm: Seq<FixInfo>) -> bool {
    forall|j1: int, j2: int| 0 <= j1 < j2 < fm.len()
        ==> (#[trigger] fm[j1]).bp < (#[trigger] fm[j2]).bp
}

/// On an increasing list, the patching entry for a position does not change
/// as more of the list is taken into account.
pub proof fn lemma_fix_at_agree(fm: Seq<FixInfo>, k1: int, k2: int, out_base: int, p: int)
    requires
        fm_increasing(fm),
        0 <= k1 <= k2 <= fm.len(),
        patched_in(fm, k1, out_base, p),
    ensures
        patched_in(fm, k2, out_base, p),
        fix_at_in(fm, k1, out_base, p) == fix_at_in(fm, k2, out_base, p),
{
    let j1 = choose|j: int| 0 <= j < k1 && fm[j].bp == out_base + 4 * p;
    assert(0 <= j1 < k2 && fm[j1].bp == out_base + 4 * p);
    let j2 = choose|j: int| 0 <= j < k2 && fm[j].bp == out_base + 4 * p;
    if j1 < j2 {
        assert(fm[j1].bp < fm[j2].bp);
    } else if j2 < j1 {
        assert(fm[j2].bp < fm[j1].bp);
    }
}

/// Relocation bookkeeping for one window of original instructions.
pub struct Context {
    /// Address of the first instruction of the window.
    pub basep: i64,
    /// Address one past the last instruction of the window.
    pub endp: i64,
    /// One slot per window instruction, indexed by instruction number.
    pub dat: Vec<InsnsInfo>,
}

impl Context {
    /// Number of instructions in the window.
    pub open spec fn spec_count(self) -> int {
        (self.endp - self.basep) / 4
    }

    /// Well-formedness after the first `processed` instructions have been
    /// relocated into an output buffer of `out_len` words at `out_base`:
    /// the window bounds are sane, every processed slot holds an aligned
    /// relocated address inside the output, processed slots have no pending
    /// fixups left, and all pending fixups patch distinct aligned positions
    /// already emitted.
    pub open spec fn wf(self, processed: int, out_base: int, out_len: int) -> bool {
        &&& self.dat.len() == A64_MAX_INSTRUCTIONS
        &&& a64::addr_ok(self.basep as int)
        &&& a64::addr_ok(self.endp as int)
        &&& self.basep % 4 == 0
        &&& self.basep < self.endp <= self.basep + 4 * A64_MAX_INSTRUCTIONS
        &&& (self.endp - self.basep) % 4 == 0
        &&& a64::addr_ok(out_base)
        &&& out_base % 4 == 0
        &&& forall|i: int| 0 <= i < processed ==> {
                &&& out_base <= (#[trigger] self.dat[i]).ins <= out_base + 4 * out_len
                &&& (self.dat[i].ins - out_base) % 4 == 0
            }
        &&& forall|i: int| 0 <= i < processed ==> (#[trigger] self.dat[i]).fmap.len() == 0
        &&& forall|i: int| 0 <= i < self.dat.len()
                ==> (#[trigger] self.dat[i]).fmap.len() <= processed
        &&& forall|i: int, j: int|
                0 <= i < self.dat.len() && 0 <= j < self.dat[i].fmap.len()
                    ==> fix_ok(#[trigger] self.dat[i].fmap[j], out_base, out_len)
        &&& forall|i: int, j1: int, j2: int|
                0 <= i < self.dat.len() && 0 <= j1 < j2 < self.dat[i].fmap.len()
                    ==> (#[trigger] self.dat[i].fmap[j1]).bp < (#[trigger] self.dat[i].fmap[j2]).bp
    }

    /// Opens a relocation window of `count` instructions starting at `inp`.
    pub fn new(inp: i64, count: i32) -> (r: Self)
        requires
            0 < count <= A64_MAX_INSTRUCTIONS,
            a64::addr_ok(inp as int),
            a64::addr_ok(inp + 4 * count),
            inp % 4 == 0,
        ensures
            r.basep == inp,
            r.endp == inp + 4 * count,
            r.spec_count() == count,
            forall|i: int| 0 <= i < r.dat.len()
                ==> (#[trigger] r.dat[i]).ins == 0 && r.dat[i].fmap.len() == 0,
            forall|ob: int, ol: int| a64::addr_ok(ob) && ob % 4 == 0 && 0 <= ol
                ==> r.wf(0, ob, ol),
    {
        let mut dat: Vec<InsnsInfo> = Vec::new();
        dat.push(InsnsInfo::new());
        dat.push(InsnsInfo::new());
        dat.push(InsnsInfo::new());
        dat.push(InsnsInfo::new());
        dat.push(InsnsInfo::new());
        Context { basep: inp, endp: inp + 4 * (count as i64), dat }
    }

    /// Whether `absolute_addr` falls inside the window being relocated, so
    /// that a reference to it must be redirected to relocated code.
    pub fn is_in_fixing_range(&self, absolute_addr: i64) -> (r: bool)
        ensures
            r == (self.basep <= absolute_addr < self.endp),
    {
        absolute_addr >= self.basep && absolute_addr < self.endp
    }

    /// Index of the window instruction at `absolute_addr`.
    pub fn get_ref_ins_index(&self, absolute_addr: i64) -> (r: usize)
        requires
            self.basep <= absolute_addr,
            absolute_addr - self.basep <= 4 * A64_MAX_INSTRUCTIONS,
        ensures
            r == (absolute_addr - self.basep) / 4,
    {
        ((absolute_addr - self.basep) / 4) as usize
    }

    /// Records that the instruction at `inp` is being relocated to `outp`,
    /// and returns its window index.
    pub fn get_and_set_current_index(&mut self, inp: i64, outp: i64) -> (r: usize)
        requires
            old(self).dat.len() == A64_MAX_INSTRUCTIONS,
            old(self).basep <= inp < old(self).endp,
            old(self).endp - old(self).basep <= 4 * A64_MAX_INSTRUCTIONS,
        ensures
            r == (inp - old(self).basep) / 4,
            r < old(self).dat.len(),
            final(self).basep == old(self).basep,
            final(self).endp == old(self).endp,
            final(self).dat.len() == old(self).dat.len(),
            final(self).dat[r as int].ins == outp,
            final(self).dat[r as int].fmap == old(self).dat[r as int].fmap,
            forall|i: int| 0 <= i < old(self).dat.len() && i != r
                ==> final(self).dat[i] == old(self).dat[i],
    {
        let current_idx = ((inp - self.basep) / 4) as usize;
        self.dat[current_idx].ins = outp;
        current_idx
    }

    /// Moves the recorded relocation address of slot `idx` to `outp`, after
    /// an alignment filler shifted the instruction's position.
    pub fn reset_current_ins(&mut self, idx: usize, outp: i64)
        requires
            idx < old(self).dat.len(),
        ensures
            final(self).basep == old(self).basep,
            final(self).endp == old(self).endp,
            final(self).dat.len() == old(self).dat.len(),
            final(self).dat[idx as int].ins == outp,
            final(self).dat[idx as int].fmap == old(self).dat[idx as int].fmap,
            forall|i: int| 0 <= i < old(self).dat.len() && i != idx
                ==> final(self).dat[i] == old(self).dat[i],
    {
        self.dat[idx].ins = outp;
    }

    /// Records a pending fixup against slot `idx`. The list's capacity is a
    /// fixed bound on forward references per window; a full list drops the
    /// entry, which callers rule out by never recording more fixups than
    /// instructions.
    pub fn insert_fix_map(&mut self, idx: usize, bp: i64, ls: u32, ad: u32)
        requires
            idx < old(self).dat.len(),
        ensures
            final(self).basep == old(self).basep,
            final(self).endp == old(self).endp,
            final(self).dat.len() == old(self).dat.len(),
            final(self).dat[idx as int].ins == old(self).dat[idx as int].ins,
            old(self).dat[idx as int].fmap.len() < A64_MAX_REFERENCES
                ==> final(self).dat[idx as int].fmap@
                    == old(self).dat[idx as int].fmap@.push(FixInfo { bp, ls, ad }),
            old(self).dat[idx as int].fmap.len() >= A64_MAX_REFERENCES
                ==> final(self).dat[idx as int].fmap@ == old(self).dat[idx as int].fmap@,
            forall|i: int| 0 <= i < old(self).dat.len() && i != idx
                ==> final(self).dat[i] == old(self).dat[i],
    {
        if self.dat[idx].fmap.len() < A64_MAX_REFERENCES {
            self.dat[idx].fmap.push(FixInfo { bp, ls, ad });
        }
    }

    /// Applies and clears every pending fixup of slot `idx`, whose relocated
    /// address is now known: each recorded word gets the offset from its own
    /// address to that target OR-ed into its offset field. No fixup survives
    /// and none is applied twice.
    pub fn process_fix_map(&mut self, idx: usize, out: &mut Vec<u32>, out_base: i64)
        requires
            idx < old(self).dat.len(),
            a64::addr_ok(out_base as int),
            out_base % 4 == 0,
            old(out).len() <= 0x1000,
            forall|j: int| 0 <= j < old(self).dat[idx as int].fmap.len()
                ==> fix_ok(#[trigger] old(self).dat[idx as int].fmap[j],
                        out_base as int, old(out)@.len() as int),
            fm_increasing(old(self).dat[idx as int].fmap@),
            out_base <= old(self).dat[idx as int].ins
                <= out_base + 4 * old(out)@.len(),
            (old(self).dat[idx as int].ins - out_base) % 4 == 0,
        ensures
            final(self).basep == old(self).basep,
            final(self).endp == old(self).endp,
            final(self).dat.len() == old(self).dat.len(),
            final(self).dat[idx as int].ins == old(self).dat[idx as int].ins,
            final(self).dat[idx as int].fmap.len() == 0,
            forall|i: int| 0 <= i < old(self).dat.len() && i != idx
                ==> final(self).dat[i] == old(self).dat[i],
            final(out)@.len() == old(out)@.len(),
            forall|p: int| 0 <= p < old(out)@.len()
                ==> final(out)@[p] == (
                    if has_fix_at(old(self).dat[idx as int].fmap@, out_base as int, p) {
                        old(out)@[p] | fix_or_bits(
                            fix_at(old(self).dat[idx as int].fmap@, out_base as int, p),
                            old(self).dat[idx as int].ins as int,
                        )
                    } else {
                        old(out)@[p]
                    }
                ),
    {
        let ghost fm = self.dat[idx as int].fmap@;
        let ghost target = self.dat[idx as int].ins as int;
        let ghost ob = out_base as int;
        let tins = self.dat[idx].ins;
        let n = self.dat[idx].fmap.len();
        let mut j: usize = 0;
        while j < n
            invariant
                n == fm.len(),
                j <= n,
                idx < self.dat.len(),
                self.dat.len() == old(self).dat.len(),
                self.dat[idx as int].fmap@ == fm,
                self.dat[idx as int].ins == old(self).dat[idx as int].ins,
                self.basep == old(self).basep,
                self.endp == old(self).endp,
                forall|i: int| 0 <= i < self.dat.len() && i != idx
                    ==> self.dat[i] == old(self).dat[i],
                tins == target,
                ob == out_base as int,
                fm == old(self).dat[idx as int].fmap@,
                target == old(self).dat[idx as int].ins as int,
                a64::addr_ok(ob),
                out_base % 4 == 0,
                out@.len() == old(out)@.len(),
                out@.len() <= 0x1000,
                forall|jj: int| 0 <= jj < fm.len()
                    ==> fix_ok(#[trigger] fm[jj], ob, out@.len() as int),
                fm_increasing(fm),
                ob <= target <= ob + 4 * out@.len(),
                (target - ob) % 4 == 0,
                forall|p: int| 0 <= p < out@.len()
                    ==> #[trigger] out@[p] == (
                        if patched_in(fm, j as int, ob, p) {
                            old(out)@[p] | fix_or_bits(fix_at_in(fm, j as int, ob, p), target)
                        } else {
                            old(out)@[p]
                        }
                    ),
            decreases n - j,
        {
            let f_bp = self.dat[idx].fmap[j].bp;
            let f_ls = self.dat[idx].fmap[j].ls;
            let f_ad = self.dat[idx].fmap[j].ad;
            let pos = ((f_bp - out_base) / 4) as usize;
            let off = (tins - f_bp) / 4;
            let off_u: u32 = off as u32;
            let patched: u32 = out[pos] | ((off_u << f_ls) & f_ad);
            out[pos] = patched;
            proof {
                let p = pos as int;
                assert(fm[j as int].bp == ob + 4 * p);
                assert(patched_in(fm, j as int + 1, ob, p));
                if patched_in(fm, j as int, ob, p) {
                    // an earlier entry already patched this very position,
                    // which the strictly increasing addresses rule out
                    let jj = choose|jj: int| 0 <= jj < j && fm[jj].bp == ob + 4 * p;
                    assert(fm[jj].bp < fm[j as int].bp);
                }
                assert(fix_at_in(fm, j as int + 1, ob, p) == fm[j as int]) by {
                    let jj = choose|jj: int| 0 <= jj < j + 1 && fm[jj].bp == ob + 4 * p;
                    if jj < j as int {
                        assert(fm[jj].bp < fm[j as int].bp);
                    }
                }
                assert forall|pp: int| 0 <= pp < out@.len() && pp != p implies
                    patched_in(fm, j as int + 1, ob, pp) == patched_in(fm, j as int, ob, pp) by {
                    if patched_in(fm, j as int + 1, ob, pp) {
                        let jj = choose|jj: int| 0 <= jj < j + 1 && fm[jj].bp == ob + 4 * pp;
                        assert(jj != j as int);
                        assert(patched_in(fm, j as int, ob, pp));
                    }
                }
                assert forall|pp: int|
                    0 <= pp < out@.len() && pp != p && patched_in(fm, j as int, ob, pp)
                    implies fix_at_in(fm, j as int + 1, ob, pp) == fix_at_in(fm, j as int, ob, pp) by {
                    lemma_fix_at_agree(fm, j as int, j as int + 1, ob, pp);
                }
            }
            j = j + 1;
        }
        self.dat[idx].fmap.clear();
        proof {
            assert forall|p: int| 0 <= p < out@.len() && patched_in(fm, n as int, ob, p)
                implies fix_at_in(fm, n as int, ob, p) == fix_at(fm, ob, p)
                    && has_fix_at(fm, ob, p) by {
                lemma_fix_at_agree(fm, n as int, fm.len() as int, ob, p);
            }
        }
    }
}

} // verus!
