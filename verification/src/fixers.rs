use vstd::prelude::*;

use crate::a64;
use crate::constants::A64_NOP;
use crate::context::Context;
use crate::context::FixInfo;
use crate::context::fix_at;
use crate::context::fix_or_bits;
use crate::context::has_fix_at;

verus! {

/// What every fixer asks of its inputs: the context is well formed with
/// every instruction before the current one already relocated, the current
/// program counter lies in the window, and the output buffer has room for
/// the largest stub.
pub open spec fn fixer_pre(ctx: Context, pc: int, out_base: int, out_len: int) -> bool {
    &&& ctx.wf((pc - ctx.basep) / 4, out_base, out_len)
    &&& ctx.basep <= pc < ctx.endp
    &&& (pc - ctx.basep) % 4 == 0
    &&& out_len <= 0x200
    &&& a64::addr_ok(out_base + 4 * (out_len + 16))
}

/// Already-emitted words are preserved, except that each fixup pending
/// against the current instruction has been applied to its placeholder,
/// pointing it at `target`, the current instruction's relocated address.
pub open spec fn prefix_patched(
    old_out: Seq<u32>,
    new_out: Seq<u32>,
    fm: Seq<FixInfo>,
    out_base: int,
    target: int,
) -> bool {
    forall|p: int| 0 <= p < old_out.len()
        ==> new_out[p] == (
            if has_fix_at(fm, out_base, p) {
                old_out[p] | fix_or_bits(fix_at(fm, out_base, p), target)
            } else {
                old_out[p]
            }
        )
}

/// What every fixer guarantees when it recognizes the instruction: the
/// window bounds are untouched, the current slot's relocated address is
/// recorded inside the new output, the context is well formed for the next
/// instruction, and the only already-emitted words that changed are the
/// placeholders patched by the current slot's pending fixups.
pub open spec fn fixer_post(
    old_ctx: Context,
    ctx: Context,
    pc: int,
    old_out: Seq<u32>,
    out: Seq<u32>,
    out_base: int,
) -> bool {
    let cur = (pc - old_ctx.basep) / 4;
    &&& ctx.basep == old_ctx.basep
    &&& ctx.endp == old_ctx.endp
    &&& ctx.wf(cur + 1, out_base, out.len() as int)
    &&& old_out.len() < out.len() <= old_out.len() + 9
    &&& out_base + 4 * old_out.len() <= ctx.dat[cur].ins
    &&& ctx.dat[cur].ins < out_base + 4 * out.len()
    &&& prefix_patched(old_out, out, old_ctx.dat[cur].fmap@, out_base, ctx.dat[cur].ins as int)
    &&& forall|i: int| 0 <= i < old_ctx.dat.len() && i != cur
            ==> (#[trigger] ctx.dat[i]).ins == old_ctx.dat[i].ins
}

/// Relocates one `B` or `BL` instruction `ins` sitting at `pc`, appending
/// its relocated form to `out` (a buffer that will live at `out_base`), and
/// returns whether the instruction was of this class.
///
/// The relocated form is:
/// - a branch to the target's own relocated slot, when the target lies
///   inside the window and is already emitted;
/// - a zero-offset placeholder plus a pending fixup against the target's
///   slot, when the target lies inside the window but further on;
/// - a short branch with the offset recomputed from the new address, when
///   the target is outside the window and in range: the new encoding
///   decodes back to the original absolute target;
/// - otherwise a long-form absolute stub whose 8-byte literal, stored
///   8-byte aligned, is the exact target address; the `BL` form also sets
///   the return address past the stub.
#[verifier::rlimit(100)]
#[verifier::spinoff_prover]
pub fn fix_branch_imm(
    ins: u32,
    pc: i64,
    out: &mut Vec<u32>,
    out_base: i64,
    ctx: &mut Context,
) -> (fixed: bool)
    requires
        fixer_pre(*old(ctx), pc as int, out_base as int, old(out)@.len() as int),
    ensures
        fixed == a64::is_branch_imm(ins),
        !fixed ==> final(out)@ == old(out)@ && *final(ctx) == *old(ctx),
        fixed ==> fixer_post(
            *old(ctx), *final(ctx), pc as int, old(out)@, final(out)@, out_base as int),
        fixed ==> ({
            let cur = (pc - old(ctx).basep) / 4;
            let target = a64::b_target(pc as int, ins);
            let internal = old(ctx).basep <= target < old(ctx).endp;
            let ref_i = (target - old(ctx).basep) / 4;
            let old_len = old(out)@.len() as int;
            let outp = out_base + 4 * old_len;
            let far = !internal && (
                (target - outp) / 4 >= 0x01ff_ffff || (target - outp) / 4 <= -0x01ff_ffff);
            &&& (internal && ref_i <= cur) ==> {
                &&& final(out)@.len() == old_len + 1
                &&& final(ctx).dat[cur].ins == outp
                &&& final(out)@[old_len] & 0xfc00_0000 == ins & 0xfc00_0000
                &&& a64::b_target(outp, final(out)@[old_len]) == final(ctx).dat[ref_i].ins
            }
            &&& (internal && ref_i > cur) ==> {
                &&& final(out)@.len() == old_len + 1
                &&& final(ctx).dat[cur].ins == outp
                &&& final(out)@[old_len] == ins & 0xfc00_0000
                &&& final(ctx).dat[ref_i].fmap@ == old(ctx).dat[ref_i].fmap@.push(
                    FixInfo { bp: outp as i64, ls: 0, ad: 0x03ff_ffff })
            }
            &&& (!internal && !far) ==> {
                &&& final(out)@.len() == old_len + 1
                &&& final(ctx).dat[cur].ins == outp
                &&& final(out)@[old_len] & 0xfc00_0000 == ins & 0xfc00_0000
                &&& a64::b_target(outp, final(out)@[old_len]) == target
            }
            &&& (far && a64::is_b(ins)) ==> {
                let s = if outp % 8 == 0 { old_len } else { old_len + 1 };
                &&& final(out)@.len() == s + 4
                &&& outp % 8 != 0 ==> final(out)@[old_len] == A64_NOP
                &&& final(ctx).dat[cur].ins == out_base + 4 * s
                &&& final(out)@[s] == 0x5800_0051u32
                &&& final(out)@[s + 1] == 0xd61f_0220u32
                &&& final(out)@[s + 2] == a64::lit_lo(target)
                &&& final(out)@[s + 3] == a64::lit_hi(target)
                &&& (out_base + 4 * (s + 2)) % 8 == 0
            }
            &&& (far && a64::is_bl(ins)) ==> {
                let s = if outp % 8 == 0 { old_len + 1 } else { old_len };
                &&& final(out)@.len() == s + 5
                &&& outp % 8 == 0 ==> final(out)@[old_len] == A64_NOP
                &&& final(ctx).dat[cur].ins == out_base + 4 * s
                &&& final(out)@[s] == 0x5800_0071u32
                &&& final(out)@[s + 1] == 0x1000_009eu32
                &&& final(out)@[s + 2] == 0xd61f_0220u32
                &&& final(out)@[s + 3] == a64::lit_lo(target)
                &&& final(out)@[s + 4] == a64::lit_hi(target)
                &&& (out_base + 4 * (s + 3)) % 8 == 0
            }
        }),
{
    let opc = ins & 0xfc00_0000;
    if !(opc == 0x1400_0000 || opc == 0x9400_0000) {
        return false;
    }
    let ghost old_len = out@.len() as int;
    let outp = out_base + 4 * (out.len() as i64);
    let current_idx = ctx.get_and_set_current_index(pc, outp);
    let absolute_addr = a64::decode_b_target(pc, ins);
    let special_fix_type = ctx.is_in_fixing_range(absolute_addr);
    proof {
        assert((absolute_addr - outp) % 4 == 0);
    }
    let new_pc_offset = (absolute_addr - outp) / 4;

    if !special_fix_type && (new_pc_offset >= 0x01ff_ffff || new_pc_offset <= -0x01ff_ffff) {
        if opc == 0x1400_0000 {
            if outp % 8 != 0 {
                out.push(A64_NOP);
                ctx.reset_current_ins(current_idx, out_base + 4 * (out.len() as i64));
            }
            out.push(0x5800_0051);
            out.push(0xd61f_0220);
            let (lo, hi) = a64::split_addr(absolute_addr);
            out.push(lo);
            out.push(hi);
        } else {
            if outp % 8 == 0 {
                out.push(A64_NOP);
                ctx.reset_current_ins(current_idx, out_base + 4 * (out.len() as i64));
            }
            out.push(0x5800_0071);
            out.push(0x1000_009e);
            out.push(0xd61f_0220);
            let (lo, hi) = a64::split_addr(absolute_addr);
            out.push(lo);
            out.push(hi);
        }
    } else {
        if special_fix_type {
            let ref_idx = ctx.get_ref_ins_index(absolute_addr);
            if ref_idx <= current_idx {
                let off = (ctx.dat[ref_idx].ins - outp) / 4;
                let e = a64::enc26(off);
                let w = opc | e;
                    proof { a64::lemma_b_fields(ins, e); }
                out.push(w);
            } else {
                out.push(opc);
                ctx.insert_fix_map(ref_idx, outp, 0, 0x03ff_ffff);
            }
        } else {
            let e = a64::enc26(new_pc_offset);
            let w = opc | e;
            proof { a64::lemma_b_fields(ins, e); }
            out.push(w);
        }
    }
    ctx.process_fix_map(current_idx, out, out_base);
    true
}


/// Relocates one conditional branch (`B.cond`, `CBZ`/`CBNZ`, `TBZ`/`TBNZ`)
/// sitting at `pc`. The three sub-encodings share one pattern: the bits
/// named by `cond_lmask` (opcode, condition, register, tested bit) are
/// always kept, and only the branch offset is rewritten.
///
/// In-window and in-range targets are handled as for `B`/`BL`. For an
/// out-of-range target the condition is not discarded: the stub branches
/// two words ahead of itself when the condition holds, into an absolute
/// jump through the embedded 8-byte-aligned literal, and falls through to
/// an unconditional skip over the stub otherwise.
#[verifier::rlimit(100)]
#[verifier::spinoff_prover]
pub fn fix_cond_comp_test_branch(
    ins: u32,
    pc: i64,
    out: &mut Vec<u32>,
    out_base: i64,
    ctx: &mut Context,
) -> (fixed: bool)
    requires
        fixer_pre(*old(ctx), pc as int, out_base as int, old(out)@.len() as int),
    ensures
        fixed == a64::is_cond_branch(ins),
        !fixed ==> final(out)@ == old(out)@ && *final(ctx) == *old(ctx),
        fixed ==> fixer_post(
            *old(ctx), *final(ctx), pc as int, old(out)@, final(out)@, out_base as int),
        fixed ==> ({
            let cur = (pc - old(ctx).basep) / 4;
            let target = a64::cond_target(pc as int, ins);
            let internal = old(ctx).basep <= target < old(ctx).endp;
            let ref_i = (target - old(ctx).basep) / 4;
            let old_len = old(out)@.len() as int;
            let outp = out_base + 4 * old_len;
            let range: int = if a64::is_tb(ins) { 0x1fff } else { 0x0003_ffff };
            let far = !internal && (
                (target - outp) / 4 >= range || (target - outp) / 4 <= -range);
            &&& (internal && ref_i <= cur) ==> {
                &&& final(out)@.len() == old_len + 1
                &&& final(ctx).dat[cur].ins == outp
                &&& final(out)@[old_len] & a64::cond_lmask(ins) == ins & a64::cond_lmask(ins)
                &&& a64::cond_target(outp, final(out)@[old_len]) == final(ctx).dat[ref_i].ins
            }
            &&& (internal && ref_i > cur) ==> {
                &&& final(out)@.len() == old_len + 1
                &&& final(ctx).dat[cur].ins == outp
                &&& final(out)@[old_len] == ins & a64::cond_lmask(ins)
                &&& final(ctx).dat[ref_i].fmap@ == old(ctx).dat[ref_i].fmap@.push(
                    FixInfo { bp: outp as i64, ls: 5, ad: !a64::cond_lmask(ins) })
            }
            &&& (!internal && !far) ==> {
                &&& final(out)@.len() == old_len + 1
                &&& final(ctx).dat[cur].ins == outp
                &&& final(out)@[old_len] & a64::cond_lmask(ins) == ins & a64::cond_lmask(ins)
                &&& a64::cond_target(outp, final(out)@[old_len]) == target
            }
            &&& far ==> {
                let s = if outp % 8 == 0 { old_len } else { old_len + 1 };
                &&& final(out)@.len() == s + 6
                &&& outp % 8 != 0 ==> final(out)@[old_len] == A64_NOP
                &&& final(ctx).dat[cur].ins == out_base + 4 * s
                &&& final(out)@[s] & a64::cond_lmask(ins) == ins & a64::cond_lmask(ins)
                &&& a64::cond_target(out_base + 4 * s, final(out)@[s]) == out_base + 4 * (s + 2)
                &&& a64::is_b(final(out)@[s + 1])
                &&& a64::b_target(out_base + 4 * (s + 1), final(out)@[s + 1])
                    == out_base + 4 * (s + 6)
                &&& final(out)@[s + 2] == 0x5800_0051u32
                &&& final(out)@[s + 3] == 0xd61f_0220u32
                &&& final(out)@[s + 4] == a64::lit_lo(target)
                &&& final(out)@[s + 5] == a64::lit_hi(target)
                &&& (out_base + 4 * (s + 4)) % 8 == 0
            }
        }),
{
    let is_bc = (ins & 0xff00_0010) == 0x5400_0000;
    let is_cb = (ins & 0x7f00_0000) == 0x3400_0000 || (ins & 0x7f00_0000) == 0x3500_0000;
    let is_tb = (ins & 0x7f00_0000) == 0x3600_0000 || (ins & 0x7f00_0000) == 0x3700_0000;
    if !(is_bc || is_cb || is_tb) {
        return false;
    }
    let lmask: u32 = if is_tb { 0xfff8_001f } else { 0xff00_001f };
    let ghost old_len = out@.len() as int;
    let outp = out_base + 4 * (out.len() as i64);
    let current_idx = ctx.get_and_set_current_index(pc, outp);
    let absolute_addr = a64::decode_cond_target(pc, ins);
    let special_fix_type = ctx.is_in_fixing_range(absolute_addr);
    proof {
        assert((absolute_addr - outp) % 4 == 0);
    }
    let new_pc_offset = (absolute_addr - outp) / 4;
    let range: i64 = if is_tb { 0x1fff } else { 0x0003_ffff };

    if !special_fix_type && (new_pc_offset >= range || new_pc_offset <= -range) {
        if outp % 8 != 0 {
            out.push(A64_NOP);
            ctx.reset_current_ins(current_idx, out_base + 4 * (out.len() as i64));
        }
        let w0 = 0x40u32 | (ins & lmask);
        proof { a64::lemma_cond_plus8(ins); }
        out.push(w0);
        out.push(0x1400_0005);
        out.push(0x5800_0051);
        out.push(0xd61f_0220);
        let (lo, hi) = a64::split_addr(absolute_addr);
        out.push(lo);
        out.push(hi);
        proof { a64::lemma_stub_words(); }
    } else {
        if special_fix_type {
            let ref_idx = ctx.get_ref_ins_index(absolute_addr);
            if ref_idx <= current_idx {
                let off = (ctx.dat[ref_idx].ins - outp) / 4;
                let w = if is_tb {
                    let e = a64::enc14(off);
                    proof { a64::lemma_cond14_fields(ins, e); }
                    ((e << 5) & 0x0007_ffe0) | (ins & lmask)
                } else {
                    let e = a64::enc19(off);
                    proof { a64::lemma_cond19_fields(ins, e); }
                    ((e << 5) & 0x00ff_ffe0) | (ins & lmask)
                };
                out.push(w);
            } else {
                proof {
                    a64::lemma_cond14_fields(ins, 0);
                    a64::lemma_cond19_fields(ins, 0);
                }
                out.push(ins & lmask);
                ctx.insert_fix_map(ref_idx, outp, 5, !lmask);
            }
        } else {
            let w = if is_tb {
                let e = a64::enc14(new_pc_offset);
                proof { a64::lemma_cond14_fields(ins, e); }
                ((e << 5) & 0x0007_ffe0) | (ins & lmask)
            } else {
                let e = a64::enc19(new_pc_offset);
                proof { a64::lemma_cond19_fields(ins, e); }
                ((e << 5) & 0x00ff_ffe0) | (ins & lmask)
            };
            out.push(w);
        }
    }
    ctx.process_fix_map(current_idx, out, out_base);
    true
}


/// A literal whose bytes the caller must copy into the output buffer once
/// relocation is done: `words` words read from address `src`, placed at
/// word index `pos` of the output. The relocator reserves the space and
/// guarantees its alignment; reading the bytes is the caller's I/O.
pub struct LitFill {
    pub src: i64,
    pub pos: usize,
    pub words: usize,
}

/// The far form of a relocated literal load: a load two words ahead, a
/// branch over the inline pool, and the naturally aligned pool itself.
#[verifier::rlimit(100)]
#[verifier::spinoff_prover]
fn fix_loadlit_far(
    ins: u32,
    pc: i64,
    absolute_addr: i64,
    faligned: u32,
    ns: usize,
    out: &mut Vec<u32>,
    out_base: i64,
    ctx: &mut Context,
    fills: &mut Vec<LitFill>,
) -> (s_out: usize)
    requires
        fixer_pre(*old(ctx), pc as int, out_base as int, old(out)@.len() as int),
        !a64::is_prfm_lit(ins),
        a64::is_load_literal(ins),
        absolute_addr == a64::lit_target(pc as int, ins),
        faligned + 1 == a64::lit_align(ins),
        ns == a64::lit_align(ins) / 4,
        faligned == 3 || faligned == 7 || faligned == 15,
    ensures
        fixer_post(*old(ctx), *final(ctx), pc as int, old(out)@, final(out)@, out_base as int),
        ({
            let cur = (pc - old(ctx).basep) / 4;
            let old_len = old(out)@.len() as int;
            let s = s_out as int;
            &&& old_len <= s <= old_len + 3
            &&& final(ctx).dat[cur].ins == out_base + 4 * s
            &&& (forall|j: int| old_len <= j < s ==> final(out)@[j] == A64_NOP)
            &&& final(out)@.len() == s + 2 + ns
            &&& final(out)@[s] & 0xff00_001f == ins & 0xff00_001f
            &&& a64::lit_target(out_base + 4 * s, final(out)@[s]) == out_base + 4 * (s + 2)
            &&& a64::is_b(final(out)@[s + 1])
            &&& a64::b_target(out_base + 4 * (s + 1), final(out)@[s + 1])
                == out_base + 4 * (s + 2 + ns)
            &&& (forall|j: int| s + 2 <= j < s + 2 + ns ==> final(out)@[j] == 0u32)
            &&& (out_base + 4 * (s + 2)) % a64::lit_align(ins) == 0
            &&& final(fills)@.len() == old(fills)@.len() + 1
            &&& final(fills)@.subrange(0, old(fills)@.len() as int) == old(fills)@
            &&& final(fills)@.last().src == absolute_addr
            &&& final(fills)@.last().pos == s + 2
            &&& final(fills)@.last().words == ns
        }),
{
    let outp = out_base + 4 * (out.len() as i64);
    let current_idx = ctx.get_and_set_current_index(pc, outp);
    // shift the pool two words ahead onto the datum's natural alignment
    if faligned == 7 {
        if (out_base + 4 * (out.len() as i64) + 8) % 8 != 0 {
            out.push(A64_NOP);
        }
    } else if faligned == 15 {
        let m = (out_base + 4 * (out.len() as i64) + 8) % 16;
        if m == 4 {
            out.push(A64_NOP);
            out.push(A64_NOP);
            out.push(A64_NOP);
        } else if m == 8 {
            out.push(A64_NOP);
            out.push(A64_NOP);
        } else if m == 12 {
            out.push(A64_NOP);
        }
    }
    let s = out.len();
    let outp2 = out_base + 4 * (s as i64);
    ctx.reset_current_ins(current_idx, outp2);
    let e2: u32 = 2;
    let w0 = ((e2 << 5) & 0x00ff_ffe0) | (ins & 0xff00_001f);
    proof { a64::lemma_lit19_fields(ins, e2); }
    out.push(w0);
    let w1: u32 = 0x1400_0001 + ns as u32;
    proof { a64::lemma_stub_words(); }
    out.push(w1);
    if ns == 1 {
        out.push(0u32);
    } else if ns == 2 {
        out.push(0u32);
        out.push(0u32);
    } else {
        out.push(0u32);
        out.push(0u32);
        out.push(0u32);
        out.push(0u32);
    }
    fills.push(LitFill { src: absolute_addr, pos: s + 2, words: ns });
    ctx.process_fix_map(current_idx, out, out_base);
    s
}

/// The near form of a relocated literal load: the same load with its offset
/// recomputed from the new address, padded with fillers until the offset
/// respects the datum's natural alignment.
#[verifier::rlimit(100)]
#[verifier::spinoff_prover]
fn fix_loadlit_near(
    ins: u32,
    pc: i64,
    absolute_addr: i64,
    faligned: u32,
    ns: usize,
    out: &mut Vec<u32>,
    out_base: i64,
    ctx: &mut Context,
) -> (s_out: usize)
    requires
        fixer_pre(*old(ctx), pc as int, out_base as int, old(out)@.len() as int),
        !a64::is_prfm_lit(ins),
        a64::is_load_literal(ins),
        absolute_addr == a64::lit_target(pc as int, ins),
        faligned + 1 == a64::lit_align(ins),
        ns == a64::lit_align(ins) / 4,
        faligned == 3 || faligned == 7 || faligned == 15,
        ({
            let outp = out_base + 4 * old(out)@.len();
            let off0 = (absolute_addr - outp) / 4;
            (if off0 >= 0 { off0 } else { -off0 }) + (ns - 1) < 0x0003_ffff
        }),
    ensures
        fixer_post(*old(ctx), *final(ctx), pc as int, old(out)@, final(out)@, out_base as int),
        ({
            let cur = (pc - old(ctx).basep) / 4;
            let old_len = old(out)@.len() as int;
            let s = s_out as int;
            &&& old_len <= s <= old_len + 3
            &&& final(ctx).dat[cur].ins == out_base + 4 * s
            &&& (forall|j: int| old_len <= j < s ==> final(out)@[j] == A64_NOP)
            &&& final(out)@.len() == s + 1
            &&& final(out)@[s] & 0xff00_001f == ins & 0xff00_001f
            &&& a64::lit_target(out_base + 4 * s, final(out)@[s]) == absolute_addr
            &&& ((absolute_addr - (out_base + 4 * s)) / 4) % (ns as int) == 0
        }),
{
    let outp = out_base + 4 * (out.len() as i64);
    let current_idx = ctx.get_and_set_current_index(pc, outp);
    proof {
        assert((absolute_addr - outp) % 4 == 0);
    }
    let new_pc_offset = (absolute_addr - outp) / 4;
    let fshift: i64 = (faligned >> 2) as i64;
    proof {
        assert(faligned == 3 ==> faligned >> 2 == 0) by (bit_vector);
        assert(faligned == 7 ==> faligned >> 2 == 1) by (bit_vector);
        assert(faligned == 15 ==> faligned >> 2 == 3) by (bit_vector);
    }
    // pad until the word offset is a multiple of the datum's word size
    if fshift == 1 {
        let m = new_pc_offset % 2;
        let m = if m < 0 { m + 2 } else { m };
        if m == 1 {
            out.push(A64_NOP);
        }
        proof {
            assert((new_pc_offset - m) % 2 == 0);
        }
    } else if fshift == 3 {
        let m = new_pc_offset % 4;
        let m = if m < 0 { m + 4 } else { m };
        if m == 1 {
            out.push(A64_NOP);
        } else if m == 2 {
            out.push(A64_NOP);
            out.push(A64_NOP);
        } else if m == 3 {
            out.push(A64_NOP);
            out.push(A64_NOP);
            out.push(A64_NOP);
        }
        proof {
            assert((new_pc_offset - m) % 4 == 0);
        }
    }
    let s = out.len();
    let outp2 = out_base + 4 * (s as i64);
    ctx.reset_current_ins(current_idx, outp2);
    let off = (absolute_addr - outp2) / 4;
    let e = a64::enc19(off);
    proof { a64::lemma_lit19_fields(ins, e); }
    let w = ((e << 5) & 0x00ff_ffe0) | (ins & 0xff00_001f);
    out.push(w);
    ctx.process_fix_map(current_idx, out, out_base);
    s
}

/// Relocates one PC-relative literal load (`LDR`/`LDRV`/`LDRSW`, literal
/// form) sitting at `pc`. A literal prefetch is dropped: it is only a hint.
///
/// When the source lies outside the window and close enough, the load is
/// re-encoded with the offset recomputed from the new address, padded with
/// fillers until the offset respects the datum's natural alignment. When
/// the source is far, or inside the window (bytes about to be overwritten
/// cannot be re-read by a relative load), the fixer emits a load from an
/// inline literal pool: a load two words ahead, a branch over the pool, and
/// a naturally-aligned reservation that the caller fills from `src`.
#[verifier::rlimit(100)]
#[verifier::spinoff_prover]
pub fn fix_loadlit(
    ins: u32,
    pc: i64,
    out: &mut Vec<u32>,
    out_base: i64,
    ctx: &mut Context,
    fills: &mut Vec<LitFill>,
) -> (fixed: bool)
    requires
        fixer_pre(*old(ctx), pc as int, out_base as int, old(out)@.len() as int),
    ensures
        fixed == a64::is_load_literal(ins),
        !fixed ==> final(out)@ == old(out)@ && *final(ctx) == *old(ctx)
            && final(fills)@ == old(fills)@,
        fixed && a64::is_prfm_lit(ins) ==> ({
            let cur = (pc - old(ctx).basep) / 4;
            &&& final(ctx).basep == old(ctx).basep
            &&& final(ctx).endp == old(ctx).endp
            &&& final(ctx).wf(cur + 1, out_base as int, final(out)@.len() as int)
            &&& final(out)@.len() == old(out)@.len()
            &&& final(ctx).dat[cur].ins == out_base + 4 * old(out)@.len()
            &&& prefix_patched(old(out)@, final(out)@, old(ctx).dat[cur].fmap@,
                    out_base as int, final(ctx).dat[cur].ins as int)
            &&& final(fills)@ == old(fills)@
        }),
        fixed && !a64::is_prfm_lit(ins) ==> fixer_post(
            *old(ctx), *final(ctx), pc as int, old(out)@, final(out)@, out_base as int),
        fixed && !a64::is_prfm_lit(ins) ==> ({
            let cur = (pc - old(ctx).basep) / 4;
            let target = a64::lit_target(pc as int, ins);
            let internal = old(ctx).basep <= target < old(ctx).endp;
            let old_len = old(out)@.len() as int;
            let outp = out_base + 4 * old_len;
            let off0 = (target - outp) / 4;
            let al = a64::lit_align(ins);
            let ns = al / 4;
            let far = internal
                || (if off0 >= 0 { off0 } else { -off0 }) + (ns - 1) >= 0x0003_ffff;
            let s = (final(ctx).dat[cur].ins - out_base) / 4;
            &&& old_len <= s <= old_len + 3
            &&& final(ctx).dat[cur].ins == out_base + 4 * s
            &&& (forall|j: int| old_len <= j < s ==> final(out)@[j] == A64_NOP)
            &&& far ==> {
                &&& final(out)@.len() == s + 2 + ns
                &&& final(out)@[s] & 0xff00_001f == ins & 0xff00_001f
                &&& a64::lit_target(out_base + 4 * s, final(out)@[s]) == out_base + 4 * (s + 2)
                &&& a64::is_b(final(out)@[s + 1])
                &&& a64::b_target(out_base + 4 * (s + 1), final(out)@[s + 1])
                    == out_base + 4 * (s + 2 + ns)
                &&& (forall|j: int| s + 2 <= j < s + 2 + ns ==> final(out)@[j] == 0u32)
                &&& (out_base + 4 * (s + 2)) % al == 0
                &&& final(fills)@.len() == old(fills)@.len() + 1
                &&& final(fills)@.subrange(0, old(fills)@.len() as int) == old(fills)@
                &&& final(fills)@.last().src == target
                &&& final(fills)@.last().pos == s + 2
                &&& final(fills)@.last().words == ns
            }
            &&& !far ==> {
                &&& final(out)@.len() == s + 1
                &&& final(out)@[s] & 0xff00_001f == ins & 0xff00_001f
                &&& a64::lit_target(out_base + 4 * s, final(out)@[s]) == target
                &&& ((target - (out_base + 4 * s)) / 4) % ns == 0
                &&& final(fills)@ == old(fills)@
            }
        }),
{
    if (ins & 0xff00_0000) == 0xd800_0000 {
        let outp = out_base + 4 * (out.len() as i64);
        let index = ctx.get_and_set_current_index(pc, outp);
        ctx.process_fix_map(index, out, out_base);
        return true;
    }

    let is_ldr = (ins & 0xbf00_0000) == 0x1800_0000;
    let is_ldrv = (ins & 0x3f00_0000) == 0x1c00_0000;
    let is_ldrsw = (ins & 0xff00_0000) == 0x9800_0000;
    if !is_ldr && !is_ldrv && !is_ldrsw {
        return false;
    }
    let faligned: u32 = if is_ldr {
        if (ins & 0x4000_0000) != 0 { 7 } else { 3 }
    } else if is_ldrv {
        if (ins & 0x4000_0000) != 0 { 7 } else if (ins & 0x8000_0000) != 0 { 15 } else { 3 }
    } else {
        7
    };
    let ns: usize = ((faligned + 1) / 4) as usize;

    let outp = out_base + 4 * (out.len() as i64);
    let absolute_addr = a64::decode_lit_target(pc, ins);
    let special_fix_type = ctx.is_in_fixing_range(absolute_addr);
    proof {
        assert((absolute_addr - outp) % 4 == 0);
    }
    let new_pc_offset = (absolute_addr - outp) / 4;
    let abs_off = if new_pc_offset >= 0 { new_pc_offset } else { -new_pc_offset };

    if special_fix_type || abs_off + ((faligned as i64 + 1 - 4) / 4) >= 0x0003_ffff {
        fix_loadlit_far(ins, pc, absolute_addr, faligned, ns, out, out_base, ctx, fills);
    } else {
        fix_loadlit_near(ins, pc, absolute_addr, faligned, ns, out, out_base, ctx);
    }
    true
}

/// Relocates one PC-relative address materialization (`ADR` / `ADRP`)
/// sitting at `pc`. The byte-exact (`ADR`) or page-exact (`ADRP`) target is
/// computed from the original address, and the instruction is always
/// rewritten as an absolute form: a 64-bit literal load into the original
/// destination register, a branch over the literal, and the 8-byte-aligned
/// target address itself. An `ADRP` whose page lies inside the window gets
/// the same absolute value; page-relative recomputation into relocated code
/// is a known, accepted gap of this design.
#[verifier::rlimit(100)]
#[verifier::spinoff_prover]
pub fn fix_pcreladdr(
    ins: u32,
    pc: i64,
    out: &mut Vec<u32>,
    out_base: i64,
    ctx: &mut Context,
) -> (fixed: bool)
    requires
        fixer_pre(*old(ctx), pc as int, out_base as int, old(out)@.len() as int),
    ensures
        fixed == a64::is_pc_rel_addr(ins),
        !fixed ==> final(out)@ == old(out)@ && *final(ctx) == *old(ctx),
        fixed ==> fixer_post(
            *old(ctx), *final(ctx), pc as int, old(out)@, final(out)@, out_base as int),
        fixed ==> ({
            let cur = (pc - old(ctx).basep) / 4;
            let target = if a64::is_adr(ins) {
                a64::adr_target(pc as int, ins)
            } else {
                a64::adrp_target(pc as int, ins)
            };
            let old_len = old(out)@.len() as int;
            let outp = out_base + 4 * old_len;
            let s = if outp % 8 == 0 { old_len } else { old_len + 1 };
            &&& final(out)@.len() == s + 4
            &&& outp % 8 != 0 ==> final(out)@[old_len] == A64_NOP
            &&& final(ctx).dat[cur].ins == out_base + 4 * s
            &&& final(out)@[s] & 0x1f == ins & 0x1f
            &&& a64::lit_target(out_base + 4 * s, final(out)@[s]) == out_base + 4 * (s + 2)
            &&& final(out)@[s + 1] == 0x1400_0003u32
            &&& a64::b_target(out_base + 4 * (s + 1), final(out)@[s + 1]) == out_base + 4 * (s + 4)
            &&& final(out)@[s + 2] == a64::lit_lo(target)
            &&& final(out)@[s + 3] == a64::lit_hi(target)
            &&& (out_base + 4 * (s + 2)) % 8 == 0
        }),
{
    let cls = ins & 0x9f00_0000;
    if !(cls == 0x1000_0000 || cls == 0x9000_0000) {
        return false;
    }
    let outp = out_base + 4 * (out.len() as i64);
    let current_idx = ctx.get_and_set_current_index(pc, outp);
    let absolute_addr = if cls == 0x1000_0000 {
        a64::decode_adr_target(pc, ins)
    } else {
        a64::decode_adrp_target(pc, ins)
    };
    if outp % 8 != 0 {
        out.push(A64_NOP);
        ctx.reset_current_ins(current_idx, out_base + 4 * (out.len() as i64));
    }
    let w0 = 0x5800_0040u32 | (ins & 0x1f);
    proof {
        a64::lemma_adr_stub(ins);
        a64::lemma_field_bounds(w0);
        a64::lemma_stub_words();
    }
    out.push(w0);
    out.push(0x1400_0003);
    let (lo, hi) = a64::split_addr(absolute_addr);
    out.push(lo);
    out.push(hi);
    ctx.process_fix_map(current_idx, out, out_base);
    true
}

} // verus!
