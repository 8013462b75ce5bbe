use vstd::prelude::*;

use crate::a64;
use crate::constants::A64_MAX_INSTRUCTIONS;
use crate::constants::A64_NOP;
use crate::constants::TRAMPOLINE_WORDS;
use crate::context::Context;
use crate::context::FixInfo;
use crate::context::fix_or_bits;
use crate::fixers;
use crate::fixers::LitFill;
use crate::pool::TrampolinePool;

verus! {

/// Like `fixer_post`, but the relocated form may be empty (a dropped
/// literal prefetch), in which case the slot's address is the output's end.
pub open spec fn relocate_post(
    old_ctx: Context,
    ctx: Context,
    pc: int,
    old_out: Seq<u32>,
    out: Seq<u32>,
    out_base: int,
) -> bool {
    let cur = (pc - old_ctx.basep) / 4;
    &&& ctx.basep == old_ctx.basep
    &&& ctx.endp == old_ctx.endp
    &&& ctx.wf(cur + 1, out_base, out.len() as int)
    &&& old_out.len() <= out.len() <= old_out.len() + 9
    &&& out_base + 4 * old_out.len() <= ctx.dat[cur].ins <= out_base + 4 * out.len()
    &&& fixers::prefix_patched(
            old_out, out, old_ctx.dat[cur].fmap@, out_base, ctx.dat[cur].ins as int)
}

/// Every literal reservation of `fills` lies inside `out` and is naturally
/// aligned for its size (one, two or four words).
pub open spec fn fills_ok(fills: Seq<LitFill>, out_len: int, out_base: int) -> bool {
    forall|k: int| 0 <= k < fills.len() ==> {
        let f = #[trigger] fills[k];
        &&& (f.words == 1 || f.words == 2 || f.words == 4)
        &&& f.pos + f.words <= out_len
        &&& (out_base + 4 * f.pos) % (4 * f.words as int) == 0
    }
}

/// Relocates a single instruction: each fixer is tried in a fixed priority
/// order, and an instruction none of them recognizes is position-independent
/// and is copied verbatim, bit for bit.
#[verifier::rlimit(100)]
#[verifier::spinoff_prover]
pub fn relocate_one(
    ins: u32,
    pc: i64,
    out: &mut Vec<u32>,
    out_base: i64,
    ctx: &mut Context,
    fills: &mut Vec<LitFill>,
)
    requires
        fixers::fixer_pre(*old(ctx), pc as int, out_base as int, old(out)@.len() as int),
    ensures
        relocate_post(*old(ctx), *final(ctx), pc as int, old(out)@, final(out)@, out_base as int),
        // an unrecognized instruction is relocated unchanged
        !a64::is_position_dependent(ins) ==> ({
            let old_len = old(out)@.len() as int;
            &&& final(out)@.len() == old_len + 1
            &&& final(out)@[old_len] == ins
            &&& final(ctx).dat[(pc - old(ctx).basep) / 4].ins == out_base + 4 * old_len
        }),
        final(fills)@.len() >= old(fills)@.len(),
        final(fills)@.subrange(0, old(fills)@.len() as int) == old(fills)@,
        fills_ok(old(fills)@, old(out)@.len() as int, out_base as int)
            ==> fills_ok(final(fills)@, final(out)@.len() as int, out_base as int),
{
    let ghost fills0 = fills@;
    let ghost len0 = out@.len() as int;
    if fixers::fix_branch_imm(ins, pc, out, out_base, ctx) {
        proof { lemma_fills_grow(fills@, len0, out@.len() as int, out_base as int); }
        return;
    }
    if fixers::fix_cond_comp_test_branch(ins, pc, out, out_base, ctx) {
        proof { lemma_fills_grow(fills@, len0, out@.len() as int, out_base as int); }
        return;
    }
    if fixers::fix_loadlit(ins, pc, out, out_base, ctx, fills) {
        proof {
            if fills@.len() == fills0.len() {
                assert(fills@.subrange(0, fills0.len() as int) =~= fills@);
            }
            assert(fills@.subrange(0, fills0.len() as int) =~= fills0);
            if fills_ok(fills0, len0, out_base as int) {
                assert forall|k: int| 0 <= k < fills@.len() implies {
                    let f = #[trigger] fills@[k];
                    &&& (f.words == 1 || f.words == 2 || f.words == 4)
                    &&& f.pos + f.words <= out@.len()
                    &&& (out_base + 4 * f.pos) % (4 * f.words as int) == 0
                } by {
                    if k < fills0.len() {
                        assert(fills@[k] == fills@.subrange(0, fills0.len() as int)[k]);
                        assert(fills@[k] == fills0[k]);
                    } else {
                        assert(k == fills@.len() - 1);
                        assert(a64::lit_align(ins) == 4 * (a64::lit_align(ins) / 4));
                    }
                }
            }
        }
        return;
    }
    if fixers::fix_pcreladdr(ins, pc, out, out_base, ctx) {
        proof { lemma_fills_grow(fills@, len0, out@.len() as int, out_base as int); }
        return;
    }
    let outp = out_base + 4 * (out.len() as i64);
    let index = ctx.get_and_set_current_index(pc, outp);
    ctx.process_fix_map(index, out, out_base);
    out.push(ins);
    proof { lemma_fills_grow(fills@, len0, out@.len() as int, out_base as int); }
}

/// Reservations valid for a shorter output stay valid as it grows.
proof fn lemma_fills_grow(fills: Seq<LitFill>, l1: int, l2: int, out_base: int)
    requires
        l1 <= l2,
    ensures
        fills_ok(fills, l1, out_base) ==> fills_ok(fills, l2, out_base),
{
}

/// Law of fixup resolution: a forward in-window branch is first emitted
/// with a zero offset; once its target's relocated address `target` becomes
/// known, applying the recorded fixup to that placeholder yields an
/// instruction that branches exactly to `target`.
pub proof fn lemma_forward_branch_fixup(opc: u32, f: FixInfo, target: int)
    requires
        opc & 0x03ff_ffff == 0,
        f.ls == 0,
        f.ad == 0x03ff_ffff,
        (target - f.bp) % 4 == 0,
        0 <= (target - f.bp) / 4 < 0x0200_0000,
    ensures
        a64::b_target(f.bp as int, opc | fix_or_bits(f, target)) == target,
{
    let off = (target - f.bp) / 4;
    let off_u = off as u32;
    assert(off_u == off);
    assert(off_u < 0x0200_0000 ==> ((off_u << 0) & 0x03ff_ffff) == off_u) by (bit_vector);
    a64::lemma_b_fields(opc, (off_u << 0) & 0x03ff_ffff);
    assert((opc & 0xfc00_0000) == opc) by (bit_vector)
        requires opc & 0x03ff_ffff == 0,
    ;
    assert(a64::sext26((opc | fix_or_bits(f, target)) & 0x03ff_ffff) == off);
    assert(f.bp + 4 * off == target);
}

/// Relocates the window of `count` original instructions found in `window`
/// (whose first instruction lives at `basep`) into a fresh buffer that will
/// live at `out_base`, and terminates it with an unconditional jump back to
/// the first original instruction past the window. Returns the buffer, the
/// literal reservations the caller must fill, and the bookkeeping context:
/// after relocation no pending fixup survives, and the whole output fits
/// the fixed per-instruction expansion bound.
#[verifier::rlimit(100)]
#[verifier::spinoff_prover]
pub fn fix_instructions(window: &[u32], basep: i64, count: i32, out_base: i64) -> (r: (
    Vec<u32>,
    Vec<LitFill>,
    Context,
))
    requires
        0 < count <= A64_MAX_INSTRUCTIONS,
        window@.len() >= count,
        a64::addr_ok(basep as int),
        a64::addr_ok(basep + 4 * count),
        basep % 4 == 0,
        a64::addr_ok(out_base as int),
        out_base % 4 == 0,
        a64::addr_ok(out_base + 4 * 0x220),
    ensures
        ({
            let (out, fills, ctx) = r;
            let cb = basep + 4 * count;
            let len = out@.len() as int;
            &&& ctx.basep == basep
            &&& ctx.endp == basep + 4 * count
            &&& ctx.wf(count as int, out_base as int, len)
            &&& forall|i: int| 0 <= i < count ==> (#[trigger] ctx.dat[i]).fmap.len() == 0
            &&& len <= 9 * count + 5
            &&& len <= TRAMPOLINE_WORDS
            &&& fills_ok(fills@, len, out_base as int)
            &&& ({
                // the trampoline ends by continuing the original function
                ||| (a64::is_b(out@[len - 1])
                    && a64::b_target(out_base + 4 * (len - 1), out@[len - 1]) == cb)
                ||| (len >= 4
                    && out@[len - 4] == 0x5800_0051u32
                    && out@[len - 3] == 0xd61f_0220u32
                    && out@[len - 2] == a64::lit_lo(cb)
                    && out@[len - 1] == a64::lit_hi(cb)
                    && (out_base + 4 * (len - 2)) % 8 == 0)
            })
        }),
{
    let mut ctx = Context::new(basep, count);
    let mut out: Vec<u32> = Vec::new();
    let mut fills: Vec<LitFill> = Vec::new();
    let count_u = count as usize;
    let mut i: usize = 0;
    while i < count_u
        invariant
            0 < count <= A64_MAX_INSTRUCTIONS,
            count_u == count,
            i <= count_u,
            window@.len() >= count,
            ctx.basep == basep,
            ctx.endp == basep + 4 * count,
            a64::addr_ok(basep as int),
            a64::addr_ok(basep + 4 * count),
            basep % 4 == 0,
            a64::addr_ok(out_base as int),
            out_base % 4 == 0,
            a64::addr_ok(out_base + 4 * 0x220),
            ctx.wf(i as int, out_base as int, out@.len() as int),
            out@.len() <= 9 * i,
            fills_ok(fills@, out@.len() as int, out_base as int),
        decreases count_u - i,
    {
        let pc = basep + 4 * (i as i64);
        let ins = window[i];
        relocate_one(ins, pc, &mut out, out_base, &mut ctx, &mut fills);
        i = i + 1;
    }

    // jump back to the first original instruction after the window
    let callback = basep + 4 * (count as i64);
    let outp = out_base + 4 * (out.len() as i64);
    let pc_offset = (callback - outp) / 4;
    if pc_offset >= 0x01ff_ffff || pc_offset <= -0x01ff_ffff {
        if outp % 8 != 0 {
            out.push(A64_NOP);
        }
        proof {
            assert((out_base + 4 * out@.len()) % 8 == 0);
        }
        out.push(0x5800_0051);
        out.push(0xd61f_0220);
        let (lo, hi) = a64::split_addr(callback);
        out.push(lo);
        out.push(hi);
    } else {
        proof {
            assert((callback - outp) % 4 == 0);
        }
        let e = a64::enc26(pc_offset);
        proof {
            a64::lemma_b_fields(0x1400_0000u32, e);
            a64::lemma_stub_words();
        }
        let w = (0x1400_0000u32 & 0xfc00_0000) | e;
        out.push(w);
    }
    (out, fills, ctx)
}


/// A hook to `replace` installed at `symbol` needs the long, absolute form
/// when the replacement is out of range of one branch instruction.
pub open spec fn hook_is_far(symbol: int, replace: int) -> bool {
    let off = (replace - symbol) / 4;
    off >= 0x01ff_ffff || off <= -0x01ff_ffff
}

/// How many original instructions the overwrite at `symbol` covers: one
/// short branch, or a four-to-five word absolute jump whose embedded
/// address must land 8-byte aligned.
pub open spec fn hook_count(symbol: int, replace: int) -> int {
    if hook_is_far(symbol, replace) {
        if symbol % 8 != 0 { 5 } else { 4 }
    } else {
        1
    }
}

/// Everything a hook installation will write, computed before any byte of
/// the process is touched: the relocated original instructions destined for
/// the trampoline buffer, the literal reservations to fill there, and the
/// jump-to-replacement words destined for the hook target itself.
pub struct HookPlan {
    /// Address of the trampoline buffer, or zero when none was supplied.
    pub trampoline_addr: i64,
    /// Words to write at `trampoline_addr`.
    pub trampoline: Vec<u32>,
    /// Literal bytes to copy into the trampoline afterwards.
    pub fills: Vec<LitFill>,
    /// Words to write over the hook target's first instructions.
    pub patch: Vec<u32>,
}

/// What a computed plan guarantees: the patch redirects `symbol` to
/// `replace` exactly (by a decodable short branch, or by an absolute stub
/// whose 8-byte-aligned literal is `replace`), and the trampoline content,
/// when one was requested, is bounded and ends by continuing the original
/// function past the overwritten window.
pub open spec fn plan_ok(plan: HookPlan, symbol: int, replace: int, rwx: int) -> bool {
    let far = hook_is_far(symbol, replace);
    let count = hook_count(symbol, replace);
    let cb = symbol + 4 * count;
    let len = plan.trampoline@.len() as int;
    &&& plan.trampoline_addr == rwx
    &&& (rwx == 0 ==> len == 0 && plan.fills@.len() == 0)
    &&& (rwx != 0 ==> {
        &&& len <= 9 * count + 5
        &&& len <= TRAMPOLINE_WORDS
        &&& fills_ok(plan.fills@, len, rwx)
        &&& ({
            ||| (a64::is_b(plan.trampoline@[len - 1])
                && a64::b_target(rwx + 4 * (len - 1), plan.trampoline@[len - 1]) == cb)
            ||| (len >= 4
                && plan.trampoline@[len - 4] == 0x5800_0051u32
                && plan.trampoline@[len - 3] == 0xd61f_0220u32
                && plan.trampoline@[len - 2] == a64::lit_lo(cb)
                && plan.trampoline@[len - 1] == a64::lit_hi(cb)
                && (rwx + 4 * (len - 2)) % 8 == 0)
        })
    })
    &&& (!far ==> {
        &&& plan.patch@.len() == 1
        &&& a64::is_b(plan.patch@[0])
        &&& a64::b_target(symbol, plan.patch@[0]) == replace
    })
    &&& (far ==> {
        let q = count - 4;
        &&& plan.patch@.len() == count
        &&& (count == 5 ==> plan.patch@[0] == A64_NOP)
        &&& plan.patch@[q] == 0x5800_0051u32
        &&& plan.patch@[q + 1] == 0xd61f_0220u32
        &&& plan.patch@[q + 2] == a64::lit_lo(replace)
        &&& plan.patch@[q + 3] == a64::lit_hi(replace)
        &&& (symbol + 4 * (q + 2)) % 8 == 0
    })
}

/// Plans a hook of the function at `symbol`, whose first five instructions
/// are `window`, redirecting it to `replace`, with `rwx` (zero for none) as
/// the caller-supplied trampoline buffer of `rwx_size` bytes. Nothing is
/// planned when a trampoline is requested but the buffer is smaller than
/// the per-instruction expansion bound asks; with no trampoline buffer the
/// hook is still planned, without a way back to the original.
///
/// The caller performs the writes of the returned plan: trampoline words
/// and literal fills first, then — after making the target writable — the
/// patch words at `symbol`, followed by an instruction-cache flush of both
/// ranges. On a protection failure nothing has been written over the
/// target.
#[verifier::rlimit(100)]
#[verifier::spinoff_prover]
pub fn a64_hook_function_v(
    symbol: i64,
    replace: i64,
    window: &[u32],
    rwx: i64,
    rwx_size: usize,
) -> (r: Option<HookPlan>)
    requires
        a64::addr_ok(symbol as int),
        a64::addr_ok(symbol + 24),
        symbol % 4 == 0,
        a64::addr_ok(replace as int),
        replace % 4 == 0,
        window@.len() >= 5,
        rwx != 0 ==> a64::addr_ok(rwx as int) && rwx % 4 == 0 && a64::addr_ok(rwx + 4 * 0x220),
    ensures
        r is None <==> (rwx != 0
            && rwx_size < 10 * hook_count(symbol as int, replace as int)),
        r matches Some(plan) ==> plan_ok(plan, symbol as int, replace as int, rwx as int),
{
    proof {
        assert((replace - symbol) % 4 == 0);
    }
    let pc_offset = (replace - symbol) / 4;
    let far = pc_offset >= 0x01ff_ffff || pc_offset <= -0x01ff_ffff;

    let mut trampoline: Vec<u32> = Vec::new();
    let mut fills: Vec<LitFill> = Vec::new();
    let mut patch: Vec<u32> = Vec::new();

    if far {
        let count: i32 = if symbol % 8 != 0 { 5 } else { 4 };
        if rwx != 0 {
            if rwx_size < (count as usize) * 10 {
                return None;
            }
            let (t, f, _ctx) = fix_instructions(window, symbol, count, rwx);
            trampoline = t;
            fills = f;
        }
        if count == 5 {
            patch.push(A64_NOP);
        }
        patch.push(0x5800_0051);
        patch.push(0xd61f_0220);
        let (lo, hi) = a64::split_addr(replace);
        patch.push(lo);
        patch.push(hi);
    } else {
        if rwx != 0 {
            if rwx_size < 10 {
                return None;
            }
            let (t, f, _ctx) = fix_instructions(window, symbol, 1, rwx);
            trampoline = t;
            fills = f;
        }
        let e = a64::enc26(pc_offset);
        proof {
            a64::lemma_b_fields(0x1400_0000u32, e);
            a64::lemma_stub_words();
        }
        patch.push((0x1400_0000u32 & 0xfc00_0000) | e);
    }
    Some(HookPlan { trampoline_addr: rwx, trampoline, fills, patch })
}

/// Plans a hook of the function at `symbol` (first five instructions in
/// `window`), redirecting it to `replace`, drawing the trampoline buffer
/// from the pool. An unaligned target is a caller error and is refused
/// before anything is planned or allocated; an exhausted pool refuses the
/// hook rather than proceeding without a way back.
pub fn a64_hook_function(
    symbol: i64,
    replace: i64,
    window: &[u32],
    pool: &mut TrampolinePool,
) -> (r: Option<HookPlan>)
    requires
        a64::addr_ok(symbol as int),
        a64::addr_ok(symbol + 24),
        a64::addr_ok(replace as int),
        replace % 4 == 0,
        window@.len() >= 5,
        old(pool).wf(),
    ensures
        final(pool).wf(),
        final(pool).base == old(pool).base,
        symbol % 4 != 0 ==> r is None && *final(pool) == *old(pool),
        symbol % 4 == 0 && old(pool).spec_allocated() >= crate::constants::A64_MAX_BACKUPS
            ==> r is None,
        symbol % 4 == 0 && old(pool).spec_allocated() < crate::constants::A64_MAX_BACKUPS
            ==> ({
                &&& final(pool).spec_allocated() == old(pool).spec_allocated() + 1
                &&& r matches Some(plan) && plan_ok(
                    plan,
                    symbol as int,
                    replace as int,
                    old(pool).spec_slot_addr(old(pool).spec_allocated()),
                )
            }),
{
    if symbol % 4 != 0 {
        return None;
    }
    let trampoline = match pool.allocate() {
        Some(t) => t,
        None => {
            return None;
        },
    };
    a64_hook_function_v(symbol, replace, window, trampoline, 4 * TRAMPOLINE_WORDS)
}

} // verus!
