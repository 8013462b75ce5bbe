use cheatlib::a64;
use cheatlib::constants;
use cheatlib::context::Context;
use cheatlib::context::FixInfo;
use cheatlib::context::InsnsInfo;
use cheatlib::fixers;
use cheatlib::install;
use cheatlib::pool::TrampolinePool;

const NOP: u32 = 0xd503201f;

#[test]
fn test_context_creation() {
    let base: i64 = 0x10_0000;
    let ctx = Context::new(base, 5);
    assert_eq!(ctx.basep, base);
}

#[test]
fn test_fix_info_default() {
    let fix = FixInfo::default();
    assert_eq!(fix.bp, 0);
    assert_eq!(fix.ls, 0);
    assert_eq!(fix.ad, 0xffffffff);
}

#[test]
fn test_insns_info_creation() {
    let info = InsnsInfo::new();
    assert_eq!(info.ins, 0);
    assert!(info.fmap.is_empty());
}

#[test]
fn test_context_range_check() {
    let base: i64 = 0x10_0000;
    let ctx = Context::new(base, 5);

    let addr_in_range = base + 4;
    assert!(ctx.is_in_fixing_range(addr_in_range));

    let addr_out_range = base + 1000;
    assert!(!ctx.is_in_fixing_range(addr_out_range));
}

#[test]
fn test_get_ref_ins_index() {
    let base: i64 = 0x10_0000;
    let ctx = Context::new(base, 5);

    let idx = ctx.get_ref_ins_index(base);
    assert_eq!(idx, 0);

    let idx2 = ctx.get_ref_ins_index(base + 8);
    assert_eq!(idx2, 2);
}

#[test]
fn test_constants() {
    assert_eq!(constants::A64_MAX_INSTRUCTIONS, 5);
    assert_eq!(constants::A64_MAX_BACKUPS, 256);
    assert_eq!(constants::A64_NOP, 0xd503201f);
}

#[test]
fn test_pool_allocation() {
    let mut pool = TrampolinePool::new(0x1000_0000);
    let trampoline1 = pool.allocate();
    assert!(trampoline1.is_some());

    let trampoline2 = pool.allocate();
    assert!(trampoline2.is_some());
    assert_ne!(trampoline1.unwrap(), trampoline2.unwrap());
}

// After exactly the pool's capacity of allocations, the next one is
// refused, and no two handed-out buffers alias.
#[test]
fn test_pool_exhaustion() {
    let mut pool = TrampolinePool::new(0x1000_0000);
    let mut seen: Vec<i64> = Vec::new();
    for _ in 0..constants::A64_MAX_BACKUPS {
        let t = pool.allocate().expect("allocation within capacity must succeed");
        assert!(!seen.contains(&t));
        seen.push(t);
    }
    assert!(pool.allocate().is_none());
}

// An instruction outside the four recognized position-dependent classes is
// relocated by a verbatim, bit-for-bit copy.
#[test]
fn test_verbatim_copy_unrecognized() {
    let base: i64 = 0x10_0000;
    let out_base: i64 = 0x20_0000;
    // an ordinary data-processing instruction: ADD X0, X1, X2
    let ins: u32 = 0x8b02_0020;
    let mut ctx = Context::new(base, 5);
    let mut out: Vec<u32> = Vec::new();
    let mut fills = Vec::new();
    install::relocate_one(ins, base, &mut out, out_base, &mut ctx, &mut fills);
    assert_eq!(out, vec![ins]);
    assert!(fills.is_empty());
}

// A short-range branch is re-encoded so that, decoded at its new address,
// it still reaches the original absolute target.
#[test]
fn test_branch_round_trip() {
    let base: i64 = 0x10_0000;
    let out_base: i64 = 0x20_0000;
    let ins: u32 = 0x1400_0000 | 0x100; // B +0x100 words
    let target = a64::decode_b_target(base, ins);
    assert_eq!(target, base + 0x400);

    let mut ctx = Context::new(base, 5);
    let mut out: Vec<u32> = Vec::new();
    let fixed = fixers::fix_branch_imm(ins, base, &mut out, out_base, &mut ctx);
    assert!(fixed);
    assert_eq!(out.len(), 1);
    assert_eq!(a64::decode_b_target(out_base, out[0]), target);
}

// A branch whose target is beyond the encodable range becomes an absolute
// stub whose embedded 8-byte literal is the exact target, stored 8-byte
// aligned.
#[test]
fn test_branch_long_form() {
    let base: i64 = 0x10_0000;
    let out_base: i64 = 0x4000_0000;
    let ins: u32 = 0x1400_0000 | 0x100; // B +0x100 words, now far from out_base
    let target = base + 0x400;

    let mut ctx = Context::new(base, 5);
    let mut out: Vec<u32> = Vec::new();
    let fixed = fixers::fix_branch_imm(ins, base, &mut out, out_base, &mut ctx);
    assert!(fixed);
    // out_base is 8-byte aligned, so no filler is needed
    assert_eq!(out.len(), 4);
    assert_eq!(out[0], 0x5800_0051); // LDR X17, #8
    assert_eq!(out[1], 0xd61f_0220); // BR X17
    let lit = (out[2] as u64) | ((out[3] as u64) << 32);
    assert_eq!(lit, target as u64);
    assert_eq!((out_base + 8) % 8, 0);
}

// A window with an internal forward branch: instruction 0 branches to
// instruction 3. After relocation no pending fixup remains, and decoding
// instruction 0's final encoding yields instruction 3's relocated address.
#[test]
fn test_fixup_resolution() {
    let base: i64 = 0x10_0000;
    let out_base: i64 = 0x20_0000;
    let window: [u32; 5] = [0x1400_0003, NOP, NOP, NOP, NOP]; // B +3 words
    let (out, fills, ctx) = install::fix_instructions(&window, base, 5, out_base);

    for slot in &ctx.dat {
        assert!(slot.fmap.is_empty());
    }
    assert!(fills.is_empty());
    // every instruction was copied or re-encoded one-for-one, plus the
    // jump back to the end of the window
    assert_eq!(out.len(), 6);
    let resolved = a64::decode_b_target(out_base, out[0]);
    assert_eq!(resolved, ctx.dat[3].ins);
    assert_eq!(resolved, out_base + 12);
    // the trampoline ends by continuing at the first original instruction
    // past the window
    assert_eq!(a64::decode_b_target(out_base + 4 * 5, out[5]), base + 20);
}

// An unaligned hook target is refused before anything is allocated or
// planned.
#[test]
fn test_alignment_rejection() {
    let mut pool = TrampolinePool::new(0x1000_0000);
    let window: [u32; 5] = [NOP; 5];
    let r = install::a64_hook_function(0x10_0001, 0x20_0000, &window, &mut pool);
    assert!(r.is_none());
    // nothing was drawn from the pool
    assert_eq!(pool.index, -1);
}

// Hooking a five-instruction function whose first instruction is a nearby
// branch, with a replacement beyond the branch range: the target gets the
// long-form jump (five words here, including the alignment filler), and the
// trampoline holds the relocated branch (offset recomputed) followed by a
// jump back into the original function past the overwritten window.
#[test]
fn test_end_to_end_hook() {
    let symbol: i64 = 0x1000_0004; // 4 mod 8: the long form needs a filler
    let replace: i64 = 0x3000_0000; // out of range of one branch
    let pool_base: i64 = 0x1080_0000; // trampolines near the target
    let b_target_orig: i64 = symbol + 0x400;

    let window: [u32; 5] = [0x1400_0000 | 0x100, NOP, NOP, NOP, NOP];
    let mut pool = TrampolinePool::new(pool_base);
    let plan = install::a64_hook_function(symbol, replace, &window, &mut pool)
        .expect("an aligned target with a fresh pool must be hookable");

    // the overwrite: filler, load, branch, and the absolute address
    assert_eq!(plan.patch.len(), 5);
    assert_eq!(plan.patch[0], NOP);
    assert_eq!(plan.patch[1], 0x5800_0051);
    assert_eq!(plan.patch[2], 0xd61f_0220);
    let lit = (plan.patch[3] as u64) | ((plan.patch[4] as u64) << 32);
    assert_eq!(lit, replace as u64);
    assert_eq!((symbol + 12) % 8, 0);

    // the trampoline: the branch re-encoded for its new address
    assert_eq!(plan.trampoline_addr, pool_base);
    assert_eq!(
        a64::decode_b_target(pool_base, plan.trampoline[0]),
        b_target_orig
    );
    // and a jump back to the first instruction past the relocated window
    let len = plan.trampoline.len() as i64;
    assert_eq!(
        a64::decode_b_target(pool_base + 4 * (len - 1), plan.trampoline[len as usize - 1]),
        symbol + 20
    );
}

// A caller-supplied buffer smaller than the per-instruction expansion bound
// is refused before any relocation work.
#[test]
fn test_buffer_too_small() {
    let symbol: i64 = 0x1000_0000;
    let replace: i64 = 0x3000_0000;
    let window: [u32; 5] = [NOP; 5];
    let r = install::a64_hook_function_v(symbol, replace, &window, 0x2000_0000, 8);
    assert!(r.is_none());
    // and with no trampoline buffer at all, the hook is still planned
    let r2 = install::a64_hook_function_v(symbol, replace, &window, 0, 0);
    assert!(r2.is_some());
    let plan = r2.unwrap();
    assert!(plan.trampoline.is_empty());
    assert_eq!(plan.patch.len(), 4);
}

// A literal load whose source lies inside the window is rewritten to read
// from an inline pool, and the caller is told which bytes to place there.
#[test]
fn test_loadlit_inline_pool() {
    let base: i64 = 0x10_0000;
    let out_base: i64 = 0x20_0000;
    // LDR X0, <base + 8>: an in-window literal source
    let ins: u32 = 0x5800_0000 | (2 << 5);
    let mut ctx = Context::new(base, 5);
    let mut out: Vec<u32> = Vec::new();
    let mut fills = Vec::new();
    let fixed = fixers::fix_loadlit(ins, base, &mut out, out_base, &mut ctx, &mut fills);
    assert!(fixed);
    assert_eq!(fills.len(), 1);
    assert_eq!(fills[0].src, base + 8);
    assert_eq!(fills[0].words, 2);
    let pos = fills[0].pos;
    assert_eq!((out_base + 4 * pos as i64) % 8, 0);
    assert_eq!(out[pos], 0);
    assert_eq!(out[pos + 1], 0);
}

// A PC-relative address materialization is always rewritten as a literal
// load of the absolute target.
#[test]
fn test_pcreladdr_absolute() {
    let base: i64 = 0x10_0000;
    let out_base: i64 = 0x20_0000;
    // ADR X5, base + 0x20
    let ins: u32 = 0x1000_0000 | ((8u32) << 5) | 5;
    let target = a64::decode_adr_target(base, ins);
    assert_eq!(target, base + 0x20);
    let mut ctx = Context::new(base, 5);
    let mut out: Vec<u32> = Vec::new();
    let fixed = fixers::fix_pcreladdr(ins, base, &mut out, out_base, &mut ctx);
    assert!(fixed);
    assert_eq!(out.len(), 4);
    assert_eq!(out[0] & 0x1f, 5); // still materializes into X5
    let lit = (out[2] as u64) | ((out[3] as u64) << 32);
    assert_eq!(lit, target as u64);
}

// A conditional branch in range is re-encoded to reach its original target
// from the new address, keeping the condition bits.
#[test]
fn test_cond_branch_round_trip() {
    let base: i64 = 0x10_0000;
    let out_base: i64 = 0x20_0000;
    // B.EQ +0x40 words
    let ins: u32 = 0x5400_0000 | (0x40 << 5);
    let target = a64::decode_cond_target(base, ins);
    assert_eq!(target, base + 0x100);

    let mut ctx = Context::new(base, 5);
    let mut out: Vec<u32> = Vec::new();
    let fixed = fixers::fix_cond_comp_test_branch(ins, base, &mut out, out_base, &mut ctx);
    assert!(fixed);
    assert_eq!(out.len(), 1);
    assert_eq!(out[0] & 0xff00_001f, ins & 0xff00_001f); // condition kept
    assert_eq!(a64::decode_cond_target(out_base, out[0]), target);
}

// A conditional branch out of range keeps its condition: when it holds, the
// rewritten test enters an inline absolute jump; when it does not, a plain
// branch skips the stub.
#[test]
fn test_cond_branch_long_form() {
    let base: i64 = 0x10_0000;
    let out_base: i64 = 0x4000_0000;
    // TBZ X7, #3, +0x10 words
    let ins: u32 = 0x3600_0000 | (3 << 19) | (0x10 << 5) | 7;
    let target = a64::decode_cond_target(base, ins);
    assert_eq!(target, base + 0x40);

    let mut ctx = Context::new(base, 5);
    let mut out: Vec<u32> = Vec::new();
    let fixed = fixers::fix_cond_comp_test_branch(ins, base, &mut out, out_base, &mut ctx);
    assert!(fixed);
    assert_eq!(out.len(), 6);
    // the test itself, now branching two words ahead into the stub
    assert_eq!(out[0] & 0xfff8_001f, ins & 0xfff8_001f);
    assert_eq!(a64::decode_cond_target(out_base, out[0]), out_base + 8);
    // the fall-through skip over the stub
    assert_eq!(a64::decode_b_target(out_base + 4, out[1]), out_base + 24);
    // the absolute jump with the exact target, 8-byte aligned
    assert_eq!(out[2], 0x5800_0051);
    assert_eq!(out[3], 0xd61f_0220);
    let lit = (out[4] as u64) | ((out[5] as u64) << 32);
    assert_eq!(lit, target as u64);
    assert_eq!((out_base + 16) % 8, 0);
}

// A literal prefetch is dropped: it is only a hint, and nothing is emitted
// for it.
#[test]
fn test_prfm_dropped() {
    let base: i64 = 0x10_0000;
    let out_base: i64 = 0x20_0000;
    let ins: u32 = 0xd800_0040;
    let mut ctx = Context::new(base, 5);
    let mut out: Vec<u32> = Vec::new();
    let mut fills = Vec::new();
    assert!(fixers::fix_loadlit(ins, base, &mut out, out_base, &mut ctx, &mut fills));
    assert!(out.is_empty());
    assert!(fills.is_empty());
}
