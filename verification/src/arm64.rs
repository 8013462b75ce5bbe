use vstd::prelude::*;

use crate::a64;

verus! {

/// The single bit of `insn` at position `pos`.
pub fn bit_from(insn: u32, pos: u32) -> (r: i32)
    requires
        pos < 32,
    ensures
        r == (insn >> pos) & 1,
{
    proof {
        assert((((1u32 << pos) & insn) >> pos) == (insn >> pos) & 1) by (bit_vector)
            requires pos < 32,
        ;
        assert((insn >> pos) & 1 < 2) by (bit_vector);
    }
    (((1u32 << pos) & insn) >> pos) as i32
}

/// The `l`-bit field of `insn` starting at position `pos`.
pub fn bits_from(insn: u32, pos: u32, l: u32) -> (r: i32)
    requires
        pos < 32,
        0 < l <= 31,
    ensures
        r == (insn >> pos) & (((1u32 << l) - 1) as u32),
{
    proof {
        assert(1u32 << l >= 1 && (l <= 31 ==> 1u32 << l <= 0x8000_0000)) by (bit_vector)
            requires 0 < l <= 31,
        ;
    }
    let m: u32 = (1u32 << l) - 1;
    proof {
        assert((insn >> pos) & m <= m) by (bit_vector);
    }
    ((insn >> pos) & m) as i32
}

pub fn is_insn_adr(insn: u32) -> (r: bool)
    ensures
        r == a64::is_adr(insn),
{
    (insn & 0x9f00_0000) == 0x1000_0000
}

pub fn is_insn_adrp(insn: u32) -> (r: bool)
    ensures
        r == a64::is_adrp(insn),
{
    (insn & 0x9f00_0000) == 0x9000_0000
}

/// What this decoder reports for the immediate of an `ADRP`: the high part
/// of the page offset, widened with an all-ones upper half when the field
/// is negative. The low two immediate bits do not take part, and the
/// extension fills bits well above the architectural 33; both quirks are
/// this decoder's own and callers rely on its exact value.
pub open spec fn adrp_reported_imm(insn: u32) -> int {
    let hi = ((insn >> 5) & 0x0007_ffff) * 0x4000;
    if (insn >> 23) & 1 == 1 {
        hi + 0xffff_fffe_0000_0000 - 0x1_0000_0000_0000_0000
    } else {
        hi as int
    }
}

/// Decodes the immediate of an `ADR` or `ADRP` into `imm` and reports
/// whether `insn` is one of the two. For `ADR` the value is the exact
/// byte offset the instruction encodes; for `ADRP` it is this decoder's
/// reported value, `adrp_reported_imm`.
pub fn decode_adr_imm(insn: u32, imm: &mut i64) -> (r: bool)
    ensures
        r == (a64::is_adr(insn) || a64::is_adrp(insn)),
        !r ==> *final(imm) == *old(imm),
        r && a64::is_adr(insn) && !a64::is_adrp(insn)
            ==> *final(imm) == a64::adr_target(0, insn),
        r && a64::is_adrp(insn) ==> *final(imm) == adrp_reported_imm(insn),
    {
    if is_insn_adr(insn) || is_insn_adrp(insn) {
        if is_insn_adrp(insn) {
            let hi19: u64 = ((insn >> 5) & 0x0007_ffff) as u64;
            let msbt: u64 = (hi19 >> 18) & 1;
            proof {
                assert((hi19 >> 18) & 1 <= 1) by (bit_vector);
                assert(1u64 << 32 == 0x1_0000_0000) by (bit_vector);
            }
            let top_mask: u64 = ((1u64 << 32) - msbt) << 33;
            let imm_val_shifted: u64 = (hi19 << 2) << 12;
            let result: u64 = top_mask | imm_val_shifted;
            let signed: i64 = #[verifier::truncate] (result as i64);
            proof {
                assert({
                    let hi = (insn >> 5) & 0x0007_ffff;
                    let h64 = hi as u64;
                    let m = (h64 >> 18) & 1;
                    let t = ((((1u64 << 32) - m) as u64) << 33) as u64;
                    let v = t | ((h64 << 2) << 12);
                    &&& (m == 1 <==> (insn >> 23) & 1 == 1)
                    &&& ((v as i64) as int == (if m == 1 {
                        hi * 0x4000 + 0xffff_fffe_0000_0000 - 0x1_0000_0000_0000_0000
                    } else {
                        hi * 0x4000int
                    }))
                }) by (bit_vector);
            }
            *imm = signed;
        } else {
            let hi19: u32 = (insn >> 5) & 0x0007_ffff;
            let lo2: u32 = (insn >> 29) & 3;
            proof { a64::lemma_field_bounds(insn); }
            let mut imm_val: i64 = ((hi19 as i64) << 2) | (lo2 as i64);
            proof {
                assert({
                    let hi = (insn >> 5) & 0x0007_ffff;
                    let lo = (insn >> 29) & 3;
                    let v = ((hi as i64) << 2) | (lo as i64);
                    &&& v == 4 * hi + lo
                    &&& 0 <= v < 0x20_0000
                    &&& ((v & (1i64 << 20)) != 0 <==> hi >= 0x0004_0000)
                    &&& ((v & (1i64 << 20)) != 0 ==> (v | (-0x20_0000i64)) == v - 0x20_0000)
                }) by (bit_vector);
            }
            if (imm_val & (1i64 << 20)) != 0 {
                imm_val = imm_val | (-0x20_0000i64);
            }
            *imm = imm_val;
        }
        return true;
    }
    false
}

/// Decodes the immediate of an add/subtract-immediate instruction,
/// applying its optional 12-bit left shift.
pub fn decode_addsub_imm(insn: u32) -> (r: i32)
    ensures
        r == ((insn >> 10) & 0xfff) * (if (insn >> 22) & 1 == 1 { 0x1000int } else { 1int }),
{
    proof {
        assert((insn >> 10) & 0xfff < 0x1000) by (bit_vector);
        assert((((insn >> 10) & 0xfff) as i32) << 12 == ((insn >> 10) & 0xfff) * 0x1000)
            by (bit_vector);
    }
    let mut imm12: i32 = ((insn >> 10) & 0xfff) as i32;
    let shift = ((insn >> 22) & 1) == 1;
    if shift {
        imm12 = imm12 << 12;
    }
    imm12
}

/// Whether the load bit of a load/store instruction is set.
pub fn is_insn_ld(insn: u32) -> (r: bool)
    ensures
        r == ((insn >> 22) & 1 == 1),
{
    proof {
        assert((((1u32 << 22) & insn) >> 22) == (insn >> 22) & 1) by (bit_vector);
        assert((insn >> 22) & 1 < 2) by (bit_vector);
    }
    (((1u32 << 22) & insn) >> 22) == 1
}

pub fn is_insn_ldst(insn: u32) -> (r: bool)
    ensures
        r == (insn & 0x0a00_0000 == 0x0800_0000),
{
    (insn & 0x0a00_0000) == 0x0800_0000
}

pub fn is_insn_ldst_uimm(insn: u32) -> (r: bool)
    ensures
        r == (insn & 0x3b00_0000 == 0x3900_0000),
{
    (insn & 0x3b00_0000) == 0x3900_0000
}

/// Decodes the unsigned immediate of a load/store with unsigned offset,
/// scaled by the access size, and reports whether `insn` has that form.
pub fn decode_ldrstr_uimm(insn: u32, imm12: &mut i32) -> (r: bool)
    ensures
        r == (insn & 0x3b00_0000 == 0x3900_0000),
        !r ==> *final(imm12) == *old(imm12),
        r ==> *final(imm12) == ((insn >> 10) & 0xfff) * (
            if (insn >> 30) & 3 == 0 { 1int }
            else if (insn >> 30) & 3 == 1 { 2int }
            else if (insn >> 30) & 3 == 2 { 4int }
            else { 8int }
        ),
{
    if is_insn_ldst_uimm(insn) {
        proof {
            assert((insn >> 10) & 0xfff < 0x1000) by (bit_vector);
            assert((insn >> 30) & 3 < 4) by (bit_vector);
            assert({
                let f = ((insn >> 10) & 0xfff) as i32;
                let s = (insn >> 30) & 3;
                f << s == f * (if s == 0 { 1int } else if s == 1 { 2int }
                    else if s == 2 { 4int } else { 8int })
            }) by (bit_vector);
        }
        let field: i32 = ((insn >> 10) & 0xfff) as i32;
        let size: u32 = (insn >> 30) & 3;
        *imm12 = field << size;
        return true;
    }
    false
}

} // verus!
