use vstd::prelude::*;

verus! {

// ---------------------------------------------------------------------------
// Addresses.
//
// Instruction addresses are modelled as `i64` byte addresses, and an
// instruction is the 32-bit word stored at a 4-byte-aligned address.
// ---------------------------------------------------------------------------

/// The range of addresses the engine works with: the user-space virtual
/// addresses of AArch64, kept a little away from the ends of `i64` so that
/// every relative-offset computation stays exact.
pub open spec fn addr_ok(a: int) -> bool {
    0 <= a < 0x4000_0000_0000
}

/// Low 32 bits of an address, as embedded in a long-form stub literal.
pub open spec fn lit_lo(a: int) -> u32 {
    ((a % 0x1_0000_0000_0000_0000) % 0x1_0000_0000) as u32
}

/// High 32 bits of an address, as embedded in a long-form stub literal.
pub open spec fn lit_hi(a: int) -> u32 {
    ((a % 0x1_0000_0000_0000_0000) / 0x1_0000_0000) as u32
}

/// The 64-bit value stored by a literal pair, read back as an integer.
pub open spec fn lit_value(lo: u32, hi: u32) -> int {
    lo + 0x1_0000_0000 * hi
}

/// A nonnegative address is reproduced exactly by its literal pair.
pub proof fn lemma_lit_value_exact(a: int)
    requires
        0 <= a < 0x8000_0000_0000_0000,
    ensures
        lit_value(lit_lo(a), lit_hi(a)) == a,
{
    assert(a % 0x1_0000_0000_0000_0000 == a);
    assert(a == 0x1_0000_0000 * (a / 0x1_0000_0000) + a % 0x1_0000_0000) by (nonlinear_arith);
    assert(a / 0x1_0000_0000 < 0x1_0000_0000) by (nonlinear_arith)
        requires 0 <= a < 0x8000_0000_0000_0000,
    ;
}

/// Splits an address into the two words of an embedded 8-byte literal.
pub fn split_addr(addr: i64) -> (r: (u32, u32))
    ensures
        r.0 == lit_lo(addr as int),
        r.1 == lit_hi(addr as int),
{
    let lo: u32 = #[verifier::truncate] (addr as u32);
    let hi: u32 = #[verifier::truncate] ((addr >> 32) as u32);
    proof {
        assert((addr as u32) == ((addr as int) % 0x1_0000_0000_0000_0000) % 0x1_0000_0000)
            by (bit_vector);
        assert(((addr >> 32) as u32) == ((addr as int) % 0x1_0000_0000_0000_0000) / 0x1_0000_0000)
            by (bit_vector);
    }
    (lo, hi)
}

// ---------------------------------------------------------------------------
// Sign extension of encoded immediate fields.
// ---------------------------------------------------------------------------

pub open spec fn sext26(x: u32) -> int {
    if x >= 0x0200_0000 { x - 0x0400_0000 } else { x as int }
}

pub open spec fn sext19(x: u32) -> int {
    if x >= 0x0004_0000 { x - 0x0008_0000 } else { x as int }
}

pub open spec fn sext14(x: u32) -> int {
    if x >= 0x0000_2000 { x - 0x0000_4000 } else { x as int }
}

/// Bounds of the immediate fields extracted below; one bit-level fact shared
/// by all decoders.
pub proof fn lemma_field_bounds(ins: u32)
    by (bit_vector)
    ensures
        ins & 0x03ff_ffff < 0x0400_0000,
        (ins >> 5) & 0x0007_ffff < 0x0008_0000,
        (ins >> 5) & 0x3fff < 0x4000,
        (ins >> 29) & 3 < 4,
{
}

// ---------------------------------------------------------------------------
// Instruction classes.
//
// These are the four families of position-dependent A64 instructions the
// relocator recognizes; everything else is position-independent and is
// copied verbatim.
// ---------------------------------------------------------------------------

pub open spec fn is_b(ins: u32) -> bool {
    ins & 0xfc00_0000 == 0x1400_0000
}

pub open spec fn is_bl(ins: u32) -> bool {
    ins & 0xfc00_0000 == 0x9400_0000
}

/// Unconditional immediate branch or call: `B` / `BL`.
pub open spec fn is_branch_imm(ins: u32) -> bool {
    is_b(ins) || is_bl(ins)
}

pub open spec fn is_bcond(ins: u32) -> bool {
    ins & 0xff00_0010 == 0x5400_0000
}

pub open spec fn is_cb(ins: u32) -> bool {
    ins & 0x7f00_0000 == 0x3400_0000 || ins & 0x7f00_0000 == 0x3500_0000
}

pub open spec fn is_tb(ins: u32) -> bool {
    ins & 0x7f00_0000 == 0x3600_0000 || ins & 0x7f00_0000 == 0x3700_0000
}

/// Conditional, compare-and-branch or test-and-branch:
/// `B.cond` / `CBZ` / `CBNZ` / `TBZ` / `TBNZ`.
pub open spec fn is_cond_branch(ins: u32) -> bool {
    is_bcond(ins) || is_cb(ins) || is_tb(ins)
}

/// Literal-form prefetch, which reads no data and is dropped on relocation.
pub open spec fn is_prfm_lit(ins: u32) -> bool {
    ins & 0xff00_0000 == 0xd800_0000
}

pub open spec fn is_ldr_lit(ins: u32) -> bool {
    ins & 0xbf00_0000 == 0x1800_0000
}

pub open spec fn is_ldrv_lit(ins: u32) -> bool {
    ins & 0x3f00_0000 == 0x1c00_0000
}

pub open spec fn is_ldrsw_lit(ins: u32) -> bool {
    ins & 0xff00_0000 == 0x9800_0000
}

/// PC-relative literal load (integer, vector or sign-extending), or the
/// literal prefetch.
pub open spec fn is_load_literal(ins: u32) -> bool {
    is_prfm_lit(ins) || is_ldr_lit(ins) || is_ldrv_lit(ins) || is_ldrsw_lit(ins)
}

pub open spec fn is_adr(ins: u32) -> bool {
    ins & 0x9f00_0000 == 0x1000_0000
}

pub open spec fn is_adrp(ins: u32) -> bool {
    ins & 0x9f00_0000 == 0x9000_0000
}

/// PC-relative address materialization: `ADR` / `ADRP`.
pub open spec fn is_pc_rel_addr(ins: u32) -> bool {
    is_adr(ins) || is_adrp(ins)
}

/// An instruction one of the four fixers recognizes; any other instruction
/// is relocated by a verbatim copy.
pub open spec fn is_position_dependent(ins: u32) -> bool {
    ||| is_branch_imm(ins)
    ||| is_cond_branch(ins)
    ||| is_load_literal(ins)
    ||| is_pc_rel_addr(ins)
}

// ---------------------------------------------------------------------------
// Decoded targets: the absolute address a position-dependent instruction
// refers to, computed from its encoding and its own address `pc`.
// ---------------------------------------------------------------------------

/// Target of `B` / `BL`: a signed 26-bit word offset.
pub open spec fn b_target(pc: int, ins: u32) -> int {
    pc + 4 * sext26(ins & 0x03ff_ffff)
}

/// Target of a conditional branch: a signed 19-bit word offset, or a signed
/// 14-bit one for the test-and-branch pair.
pub open spec fn cond_target(pc: int, ins: u32) -> int {
    if is_tb(ins) {
        pc + 4 * sext14((ins >> 5) & 0x3fff)
    } else {
        pc + 4 * sext19((ins >> 5) & 0x0007_ffff)
    }
}

/// Source address of a literal load: a signed 19-bit word offset.
pub open spec fn lit_target(pc: int, ins: u32) -> int {
    pc + 4 * sext19((ins >> 5) & 0x0007_ffff)
}

/// Target of `ADR`: a signed 21-bit byte offset.
pub open spec fn adr_target(pc: int, ins: u32) -> int {
    pc + 4 * sext19((ins >> 5) & 0x0007_ffff) + ((ins >> 29) & 3)
}

/// Target of `ADRP`: a signed 21-bit page offset from the page of `pc`.
pub open spec fn adrp_target(pc: int, ins: u32) -> int {
    (pc - pc % 4096) + 4096 * (4 * sext19((ins >> 5) & 0x0007_ffff) + ((ins >> 29) & 3))
}

pub fn decode_b_target(pc: i64, ins: u32) -> (t: i64)
    requires
        addr_ok(pc as int),
    ensures
        t == b_target(pc as int, ins),
{
    proof { lemma_field_bounds(ins); }
    let imm = ins & 0x03ff_ffff;
    let off: i64 = if imm >= 0x0200_0000 { (imm as i64) - 0x0400_0000 } else { imm as i64 };
    pc + 4 * off
}

pub fn decode_cond_target(pc: i64, ins: u32) -> (t: i64)
    requires
        addr_ok(pc as int),
    ensures
        t == cond_target(pc as int, ins),
{
    proof { lemma_field_bounds(ins); }
    let tb = (ins & 0x7f00_0000) == 0x3600_0000 || (ins & 0x7f00_0000) == 0x3700_0000;
    let off: i64 = if tb {
        let imm = (ins >> 5) & 0x3fff;
        if imm >= 0x2000 { (imm as i64) - 0x4000 } else { imm as i64 }
    } else {
        let imm = (ins >> 5) & 0x0007_ffff;
        if imm >= 0x0004_0000 { (imm as i64) - 0x0008_0000 } else { imm as i64 }
    };
    pc + 4 * off
}

pub fn decode_lit_target(pc: i64, ins: u32) -> (t: i64)
    requires
        addr_ok(pc as int),
    ensures
        t == lit_target(pc as int, ins),
{
    proof { lemma_field_bounds(ins); }
    let imm = (ins >> 5) & 0x0007_ffff;
    let off: i64 = if imm >= 0x0004_0000 { (imm as i64) - 0x0008_0000 } else { imm as i64 };
    pc + 4 * off
}

pub fn decode_adr_target(pc: i64, ins: u32) -> (t: i64)
    requires
        addr_ok(pc as int),
    ensures
        t == adr_target(pc as int, ins),
{
    proof { lemma_field_bounds(ins); }
    let imm = (ins >> 5) & 0x0007_ffff;
    let hi: i64 = if imm >= 0x0004_0000 { (imm as i64) - 0x0008_0000 } else { imm as i64 };
    let lo = (ins >> 29) & 3;
    pc + 4 * hi + lo as i64
}

pub fn decode_adrp_target(pc: i64, ins: u32) -> (t: i64)
    requires
        addr_ok(pc as int),
    ensures
        t == adrp_target(pc as int, ins),
{
    proof { lemma_field_bounds(ins); }
    let imm = (ins >> 5) & 0x0007_ffff;
    let hi: i64 = if imm >= 0x0004_0000 { (imm as i64) - 0x0008_0000 } else { imm as i64 };
    let lo = (ins >> 29) & 3;
    let page = pc - pc % 4096;
    page + 4096 * (4 * hi + lo as i64)
}

// ---------------------------------------------------------------------------
// Short-form re-encoding.
// ---------------------------------------------------------------------------

/// Two's-complement encoding of a signed 26-bit word offset.
pub fn enc26(off: i64) -> (e: u32)
    requires
        -0x0200_0000 <= off < 0x0200_0000,
    ensures
        e < 0x0400_0000,
        sext26(e) == off,
{
    if off >= 0 { off as u32 } else { (off + 0x0400_0000) as u32 }
}

/// Two's-complement encoding of a signed 19-bit word offset.
pub fn enc19(off: i64) -> (e: u32)
    requires
        -0x0004_0000 <= off < 0x0004_0000,
    ensures
        e < 0x0008_0000,
        sext19(e) == off,
{
    if off >= 0 { off as u32 } else { (off + 0x0008_0000) as u32 }
}

/// Two's-complement encoding of a signed 14-bit word offset.
pub fn enc14(off: i64) -> (e: u32)
    requires
        -0x2000 <= off < 0x2000,
    ensures
        e < 0x4000,
        sext14(e) == off,
{
    if off >= 0 { off as u32 } else { (off + 0x4000) as u32 }
}

/// Assembling an opcode with a 26-bit offset field keeps both readable.
pub proof fn lemma_b_fields(ins: u32, e: u32)
    by (bit_vector)
    requires
        e < 0x0400_0000,
    ensures
        ((ins & 0xfc00_0000) | e) & 0x03ff_ffff == e,
        ((ins & 0xfc00_0000) | e) & 0xfc00_0000 == ins & 0xfc00_0000,
{
}

/// Assembling a conditional branch with a 19-bit offset field at bit 5
/// keeps the condition bits and the offset readable.
pub proof fn lemma_cond19_fields(ins: u32, e: u32)
    by (bit_vector)
    requires
        e < 0x0008_0000,
    ensures
        (((e << 5) & 0x00ff_ffe0) | (ins & 0xff00_001f)) & 0xff00_001f == ins & 0xff00_001f,
        ((((e << 5) & 0x00ff_ffe0) | (ins & 0xff00_001f)) >> 5) & 0x0007_ffff == e,
        (((e << 5) & 0x00ff_ffe0) | (ins & 0xff00_001f)) & 0xff00_0000 == ins & 0xff00_0000,
        (((e << 5) & 0x00ff_ffe0) | (ins & 0xff00_001f)) & 0x7f00_0000 == ins & 0x7f00_0000,
        (((e << 5) & 0x00ff_ffe0) | (ins & 0xff00_001f)) & 0xff00_0010 == ins & 0xff00_0010,
{
}

/// The same for the 14-bit test-and-branch field, which also keeps the
/// tested bit number.
pub proof fn lemma_cond14_fields(ins: u32, e: u32)
    by (bit_vector)
    requires
        e < 0x4000,
    ensures
        (((e << 5) & 0x0007_ffe0) | (ins & 0xfff8_001f)) & 0xfff8_001f == ins & 0xfff8_001f,
        ((((e << 5) & 0x0007_ffe0) | (ins & 0xfff8_001f)) >> 5) & 0x3fff == e,
        (((e << 5) & 0x0007_ffe0) | (ins & 0xfff8_001f)) & 0xff00_0000 == ins & 0xff00_0000,
        (((e << 5) & 0x0007_ffe0) | (ins & 0xfff8_001f)) & 0x7f00_0000 == ins & 0x7f00_0000,
{
}

/// Assembling a literal load with a 19-bit offset field keeps the opcode
/// byte and the destination register.
pub proof fn lemma_lit19_fields(ins: u32, e: u32)
    by (bit_vector)
    requires
        e < 0x0008_0000,
    ensures
        (((e << 5) & 0x00ff_ffe0) | (ins & 0xff00_001f)) & 0xff00_001f == ins & 0xff00_001f,
        ((((e << 5) & 0x00ff_ffe0) | (ins & 0xff00_001f)) >> 5) & 0x0007_ffff == e,
        (((e << 5) & 0x00ff_ffe0) | (ins & 0xff00_001f)) & 0xff00_0000 == ins & 0xff00_0000,
        (((e << 5) & 0x00ff_ffe0) | (ins & 0xff00_001f)) & 0xbf00_0000 == ins & 0xbf00_0000,
        (((e << 5) & 0x00ff_ffe0) | (ins & 0xff00_001f)) & 0x3f00_0000 == ins & 0x3f00_0000,
{
}


/// The bits a conditional branch keeps when its offset is rewritten: the
/// opcode and condition/register bits, or for the test-and-branch pair also
/// the tested bit number.
pub open spec fn cond_lmask(ins: u32) -> u32 {
    if is_tb(ins) { 0xfff8_001fu32 } else { 0xff00_001fu32 }
}

/// A conditional branch rewritten to skip exactly two words (the inline
/// stub that follows) keeps its condition and tests the same thing.
pub proof fn lemma_cond_plus8(ins: u32)
    by (bit_vector)
    ensures
        ((0x40u32 | (ins & 0xff00_001f)) >> 5) & 0x0007_ffff == 2,
        (0x40u32 | (ins & 0xff00_001f)) & 0xff00_001f == ins & 0xff00_001f,
        (0x40u32 | (ins & 0xff00_001f)) & 0x7f00_0000 == ins & 0x7f00_0000,
        (0x40u32 | (ins & 0xff00_001f)) & 0xff00_0010 == ins & 0xff00_0010,
        ((0x40u32 | (ins & 0xfff8_001f)) >> 5) & 0x3fff == 2,
        (0x40u32 | (ins & 0xfff8_001f)) & 0xfff8_001f == ins & 0xfff8_001f,
        (0x40u32 | (ins & 0xfff8_001f)) & 0x7f00_0000 == ins & 0x7f00_0000,
{
}

/// The fixed words of the long-form stubs, decoded.
pub proof fn lemma_stub_words()
    by (bit_vector)
    ensures
        0x1400_0005u32 & 0x03ff_ffff == 5 && 0x1400_0005u32 & 0xfc00_0000 == 0x1400_0000u32,
        0x1400_0003u32 & 0x03ff_ffff == 3 && 0x1400_0003u32 & 0xfc00_0000 == 0x1400_0000u32,
        0x1400_0002u32 & 0x03ff_ffff == 2 && 0x1400_0002u32 & 0xfc00_0000 == 0x1400_0000u32,
        0x1400_0000u32 & 0x03ff_ffff == 0 && 0x1400_0000u32 & 0xfc00_0000 == 0x1400_0000u32,
{
}

/// Natural alignment, in bytes, of the datum a literal load reads: the
/// access size the encoding names.
pub open spec fn lit_align(ins: u32) -> int {
    if is_ldr_lit(ins) {
        if ins & 0x4000_0000 != 0 { 8 } else { 4 }
    } else if is_ldrv_lit(ins) {
        if ins & 0x4000_0000 != 0 { 8 } else if ins & 0x8000_0000 != 0 { 16 } else { 4 }
    } else {
        8
    }
}

/// The first word of the stub that replaces a far `ADR`/`ADRP`: a 64-bit
/// literal load into the original destination register, reading the 8-byte
/// literal two words ahead.
pub proof fn lemma_adr_stub(ins: u32)
    by (bit_vector)
    ensures
        ((0x5800_0040u32 | (ins & 0x1f)) >> 5) & 0x0007_ffff == 2,
        (0x5800_0040u32 | (ins & 0x1f)) & 0x1f == ins & 0x1f,
        (0x5800_0040u32 | (ins & 0x1f)) & 0xbf00_0000 == 0x1800_0000u32,
{
}

} // verus!
