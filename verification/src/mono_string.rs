use vstd::prelude::*;

use crate::text;
use crate::text::utf16_encode;
use crate::text::utf16_lossy;

verus! {

/// A 16-bit value with its two bytes exchanged.
pub open spec fn swap16(c: u16) -> u16 {
    (c >> 8) | ((c & 0xff) << 8)
}

/// A code-unit sequence with every unit's bytes exchanged.
pub open spec fn swapped16(s: Seq<u16>) -> Seq<u16> {
    Seq::new(s.len(), |i: int| swap16(s[i]))
}

/// Decodes UTF-16 code units, invalid sequences replaced.
pub fn utf16_to_utf8(u16str: &[u16]) -> (r: String)
    ensures
        r@ == utf16_lossy(u16str@),
{
    text::utf16_lossy_to_string(u16str)
}

/// Decodes little-endian UTF-16 code units, dropping one leading byte-order
/// mark when present.
pub fn utf16le_to_utf8(u16str: &[u16]) -> (r: String)
    ensures
        r@ == utf16_lossy(
            if u16str@.len() > 0 && u16str@[0] == 0xfeff {
                u16str@.subrange(1, u16str@.len() as int)
            } else {
                u16str@
            },
        ),
{
    let skip: usize = if u16str.len() > 0 && u16str[0] == 0xfeff { 1 } else { 0 };
    let mut data: Vec<u16> = Vec::new();
    let mut i: usize = skip;
    while i < u16str.len()
        invariant
            skip <= i <= u16str@.len(),
            data@ =~= u16str@.subrange(skip as int, i as int),
        decreases u16str@.len() - i,
    {
        data.push(u16str[i]);
        proof {
            assert(data@ =~= u16str@.subrange(skip as int, i as int + 1));
        }
        i = i + 1;
    }
    proof {
        if skip == 1 {
            assert(data@ =~= u16str@.subrange(1, u16str@.len() as int));
        } else {
            assert(data@ =~= u16str@);
        }
    }
    text::utf16_lossy_to_string(data.as_slice())
}

/// Decodes big-endian UTF-16 code units: one leading byte-swapped
/// byte-order mark is dropped, every remaining unit has its bytes
/// exchanged, and the result is decoded with invalid sequences replaced.
pub fn utf16be_to_utf8(u16str: &[u16]) -> (r: String)
    ensures
        r@ == utf16_lossy(
            swapped16(
                if u16str@.len() > 0 && u16str@[0] == 0xfffe {
                    u16str@.subrange(1, u16str@.len() as int)
                } else {
                    u16str@
                },
            ),
        ),
{
    let start: usize = if u16str.len() > 0 && u16str[0] == 0xfffe { 1 } else { 0 };
    let ghost kept = if u16str@.len() > 0 && u16str@[0] == 0xfffe {
        u16str@.subrange(1, u16str@.len() as int)
    } else {
        u16str@
    };
    let mut swapped: Vec<u16> = Vec::new();
    let mut i: usize = start;
    while i < u16str.len()
        invariant
            start <= i <= u16str@.len(),
            kept =~= u16str@.subrange(start as int, u16str@.len() as int),
            swapped@ =~= swapped16(kept).subrange(0, i as int - start),
        decreases u16str@.len() - i,
    {
        let c = u16str[i];
        proof {
            assert((c >> 8) | ((c & 0xff) << 8) == swap16(c));
        }
        swapped.push((c >> 8) | ((c & 0xff) << 8));
        proof {
            assert(swapped@ =~= swapped16(kept).subrange(0, i as int + 1 - start));
        }
        i = i + 1;
    }
    proof {
        assert(swapped@ =~= swapped16(kept));
    }
    text::utf16_lossy_to_string(swapped.as_slice())
}

/// Encodes a string as little-endian UTF-16 code units, with an optional
/// leading byte-order mark.
pub fn utf8_to_utf16le(u8str: &str, add_bom: bool) -> (r: Vec<u16>)
    ensures
        r@ == (if add_bom { seq![0xfeffu16] } else { Seq::<u16>::empty() }) + utf16_encode(
            u8str@,
        ),
{
    let mut result: Vec<u16> = Vec::new();
    if add_bom {
        result.push(0xfeff);
    }
    let mut encoded = text::str_to_utf16(u8str);
    let ghost pre = result@;
    let ghost enc = encoded@;
    result.append(&mut encoded);
    proof {
        assert(result@ =~= pre + enc);
        if add_bom {
            assert(pre =~= seq![0xfeffu16]);
        } else {
            assert(pre =~= Seq::<u16>::empty());
        }
    }
    result
}

/// Encodes a string as big-endian UTF-16 code units: the little-endian
/// encoding (and optional byte-order mark) with every unit's bytes
/// exchanged.
pub fn utf8_to_utf16be(u8str: &str, add_bom: bool) -> (r: Vec<u16>)
    ensures
        r@ == swapped16(
            (if add_bom { seq![0xfeffu16] } else { Seq::<u16>::empty() }) + utf16_encode(u8str@),
        ),
{
    let mut result = utf8_to_utf16le(u8str, add_bom);
    let ghost le = result@;
    let mut i: usize = 0;
    while i < result.len()
        invariant
            i <= le.len(),
            result@.len() == le.len(),
            forall|j: int| 0 <= j < i ==> result@[j] == swap16(le[j]),
            forall|j: int| i <= j < le.len() ==> result@[j] == le[j],
        decreases le.len() - i,
    {
        let c = result[i];
        proof {
            assert((c >> 8) | ((c & 0xff) << 8) == swap16(c));
        }
        result[i] = (c >> 8) | ((c & 0xff) << 8);
        i = i + 1;
    }
    proof {
        assert(result@ =~= swapped16(le));
    }
    result
}

} // verus!
