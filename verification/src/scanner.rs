use vstd::prelude::*;

use vstd::string::StringSliceAdditionalSpecFns;

use crate::kitty_utils;
use crate::patch::ascii_of;

verus! {

/// Whether the pattern matches at offset `at` of `data`: wherever the mask
/// byte is `x`, the data byte must equal the pattern byte; any other mask
/// byte is a wildcard.
pub open spec fn mask_hit(data: Seq<u8>, at: int, pattern: Seq<u8>, mask: Seq<u8>) -> bool {
    forall|j: int| 0 <= j < mask.len() && mask[j] == 120 ==> data[at + j] == #[trigger] pattern[j]
}

/// Whether `d` occurs verbatim at offset `at` of `data`.
pub open spec fn data_hit(data: Seq<u8>, at: int, d: Seq<u8>) -> bool {
    forall|j: int| 0 <= j < d.len() ==> data[at + j] == #[trigger] d[j]
}

/// No verbatim match at any offset in `[lo, hi)`.
pub open spec fn no_data_hit_between(data: Seq<u8>, d: Seq<u8>, lo: int, hi: int) -> bool {
    forall|i: int| lo <= i < hi ==> !(#[trigger] data_hit(data, i, d))
}

/// No masked match at any offset in `[lo, hi)`.
pub open spec fn no_hit_between(
    data: Seq<u8>,
    pattern: Seq<u8>,
    mask: Seq<u8>,
    lo: int,
    hi: int,
) -> bool {
    forall|i: int| lo <= i < hi ==> !(#[trigger] mask_hit(data, i, pattern, mask))
}

/// A registration record found by scanning: the name, signature and
/// function pointers it carries, as plain addresses.
#[derive(Clone, Copy)]
pub struct RegisterNativeFn {
    pub name_ptr: usize,
    pub sig_ptr: usize,
    pub fn_ptr: usize,
}

/// One masked comparison at offset `at`.
fn compare_at(region: &[u8], at: usize, pattern: &[u8], mask: &[u8]) -> (r: bool)
    requires
        at + mask@.len() <= region@.len(),
        pattern@.len() >= mask@.len(),
    ensures
        r == mask_hit(region@, at as int, pattern@, mask@),
{
    let rl = region.len();
    let pl = pattern.len();
    let mut j: usize = 0;
    while j < mask.len()
        invariant
            j <= mask@.len(),
            rl == region@.len(),
            pl == pattern@.len(),
            at + mask@.len() <= region@.len(),
            pattern@.len() >= mask@.len(),
            forall|jj: int| 0 <= jj < j && mask@[jj] == 120
                ==> region@[at + jj] == #[trigger] pattern@[jj],
        decreases mask@.len() - j,
    {
        proof {
            assert(at + j < region@.len());
        }
        if mask[j] == 120 && region[at + j] != pattern[j] {
            return false;
        }
        j = j + 1;
    }
    true
}

/// The core search over a region of bytes: `region` holds the memory of
/// `[start, end)`, and the result is the lowest address in it where the
/// pattern matches under the mask, or zero when the mask is empty, longer
/// than the region, or matches nowhere.
fn search_region(region: &[u8], start: usize, end: usize, pattern: &[u8], mask: &[u8]) -> (r:
    usize)
    requires
        1 <= start <= end,
        region@.len() == end - start,
        pattern@.len() >= mask@.len(),
    ensures
        ({
            let n = region@.len() as int;
            let scan = mask@.len() as int;
            &&& (scan < 1 || scan > n) ==> r == 0
            &&& (1 <= scan <= n) ==> {
                &&& (r == 0 <==> forall|i: int| 0 <= i <= n - scan
                    ==> !mask_hit(region@, i, pattern@, mask@))
                &&& r != 0 ==> {
                    &&& start <= r
                    &&& r - start + scan <= n
                    &&& mask_hit(region@, r - start, pattern@, mask@)
                    &&& forall|i: int| 0 <= i < r - start
                        ==> !mask_hit(region@, i, pattern@, mask@)
                }
            }
        }),
{
    let scan = mask.len();
    if scan < 1 || scan > region.len() {
        return 0;
    }
    let mut i: usize = 0;
    while i <= region.len() - scan
        invariant
            1 <= scan <= region@.len(),
            1 <= start <= end,
            region@.len() == end - start,
            pattern@.len() >= mask@.len(),
            scan == mask@.len(),
            i <= region@.len() - scan + 1,
            forall|k: int| 0 <= k < i ==> !mask_hit(region@, k, pattern@, mask@),
        decreases region@.len() - scan + 1 - i,
    {
        if compare_at(region, i, pattern, mask) {
            return start + i;
        }
        i = i + 1;
    }
    0
}

/// The lowest address in `[start, end)` — whose bytes are `region` — where
/// `bytes` matches under `mask`, or zero when the range or either input is
/// empty or there is no match.
pub fn find_bytes_first(region: &[u8], start: usize, end: usize, bytes: &[u8], mask: &str) -> (r:
    usize)
    requires
        1 <= start,
        start <= end,
        region@.len() == end - start,
        bytes@.len() >= mask.spec_bytes().len(),
    ensures
        ({
            let n = region@.len() as int;
            let m = mask.spec_bytes();
            let scan = m.len() as int;
            &&& (start >= end || bytes@.len() == 0 || scan == 0 || scan > n) ==> r == 0
            &&& (start < end && bytes@.len() > 0 && 1 <= scan <= n) ==> {
                &&& (r == 0 <==> forall|i: int| 0 <= i <= n - scan
                    ==> !mask_hit(region@, i, bytes@, m))
                &&& r != 0 ==> {
                    &&& start <= r && r - start + scan <= n
                    &&& mask_hit(region@, r - start, bytes@, m)
                    &&& forall|i: int| 0 <= i < r - start ==> !mask_hit(region@, i, bytes@, m)
                }
            }
        }),
{
    if start >= end || bytes.len() == 0 || mask.as_bytes().len() == 0 {
        return 0;
    }
    search_region(region, start, end, bytes, mask.as_bytes())
}

/// Every address in `[start, end)` where `bytes` matches under `mask`,
/// scanning forward and resuming one pattern length past each match: the
/// first entry is the first match, each later entry is the first match at
/// or past the previous entry plus the pattern length, and past the last
/// entry nothing matches.
pub fn find_bytes_all(region: &[u8], start: usize, end: usize, bytes: &[u8], mask: &str) -> (out:
    Vec<usize>)
    requires
        1 <= start,
        start <= end,
        region@.len() == end - start,
        bytes@.len() >= mask.spec_bytes().len(),
    ensures
        ({
            let n = region@.len() as int;
            let m = mask.spec_bytes();
            let scan = m.len() as int;
            &&& (start >= end || scan == 0 || scan > n) ==> out@.len() == 0
            &&& (start < end && 1 <= scan <= n) ==> {
                &&& forall|k: int| 0 <= k < out@.len() ==> {
                    &&& start <= #[trigger] out@[k]
                    &&& out@[k] - start + scan <= n
                    &&& mask_hit(region@, out@[k] - start, bytes@, m)
                }
                &&& forall|k: int| 0 < k < out@.len()
                    ==> #[trigger] out@[k] >= out@[k - 1] + scan
                &&& forall|k: int| 0 <= k < out@.len()
                    ==> no_hit_between(region@, bytes@, m,
                        if k == 0 { 0int } else { out@[k - 1] - start + scan },
                        (#[trigger] out@[k]) - start)
                &&& out@.len() > 0 ==> no_hit_between(region@, bytes@, m,
                    out@.last() - start + scan, n - scan + 1)
                &&& out@.len() == 0 ==> no_hit_between(region@, bytes@, m, 0, n - scan + 1)
            }
        }),
{
    let mut out: Vec<usize> = Vec::new();
    if start >= end {
        return out;
    }
    let m = mask.as_bytes();
    let scan = m.len();
    if scan < 1 || scan > region.len() {
        return out;
    }
    let n = region.len();
    let mut cur: usize = 0;
    while cur <= n - scan
        invariant
            1 <= scan <= n,
            n == region@.len(),
            1 <= start <= end,
            region@.len() == end - start,
            bytes@.len() >= m@.len(),
            scan == m@.len(),
            m@ == mask.spec_bytes(),
            cur <= n,
            forall|k: int| 0 <= k < out@.len() ==> {
                &&& start <= #[trigger] out@[k]
                &&& out@[k] - start + scan <= n
                &&& mask_hit(region@, out@[k] - start, bytes@, m@)
            },
            forall|k: int| 0 < k < out@.len() ==> #[trigger] out@[k] >= out@[k - 1] + scan,
            forall|k: int| 0 <= k < out@.len()
                ==> no_hit_between(region@, bytes@, m@,
                    if k == 0 { 0int } else { out@[k - 1] - start + scan },
                    (#[trigger] out@[k]) - start),
            out@.len() > 0 ==> cur >= out@.last() - start + scan,
            out@.len() > 0 ==> no_hit_between(region@, bytes@, m@,
                out@.last() - start + scan, cur as int),
            out@.len() == 0 ==> no_hit_between(region@, bytes@, m@, 0, cur as int),
        decreases n - cur,
    {
        if compare_at(region, cur, bytes, m) {
            let ghost before = out@;
            out.push(start + cur);
            proof {
                assert(out@.last() == start + cur);
                assert(forall|k: int| 0 <= k < before.len() ==> out@[k] == before[k]);
            }
            cur = cur + scan;
        } else {
            cur = cur + 1;
        }
    }
    out
}

/// The matches of a verbatim byte sequence: `find_bytes_all` with a mask of
/// `x` over the whole sequence.
pub fn find_data_all(region: &[u8], start: usize, end: usize, data: &[u8]) -> (out: Vec<usize>)
    requires
        1 <= start,
        start <= end,
        region@.len() == end - start,
    ensures
        ({
            let n = region@.len() as int;
            let scan = data@.len() as int;
            &&& (start >= end || scan == 0 || scan > n) ==> out@.len() == 0
            &&& (start < end && 1 <= scan <= n) ==> {
                &&& forall|k: int| 0 <= k < out@.len() ==> {
                    &&& start <= #[trigger] out@[k]
                    &&& out@[k] - start + scan <= n
                    &&& data_hit(region@, out@[k] - start, data@)
                }
                &&& forall|k: int| 0 < k < out@.len()
                    ==> #[trigger] out@[k] >= out@[k - 1] + scan
                &&& forall|k: int| 0 <= k < out@.len()
                    ==> no_data_hit_between(region@, data@,
                        if k == 0 { 0int } else { out@[k - 1] - start + scan },
                        (#[trigger] out@[k]) - start)
                &&& out@.len() > 0 ==> no_data_hit_between(region@, data@,
                    out@.last() - start + scan, n - scan + 1)
                &&& out@.len() == 0 ==> no_data_hit_between(region@, data@, 0, n - scan + 1)
            }
        }),
{
    if start >= end || data.len() == 0 {
        return Vec::new();
    }
    let mask = all_x_mask(data.len());
    let mst = mask.as_str();
    proof {
        lemma_x_str_bytes(mst);
        lemma_all_x_hit(region@, data@, mst.spec_bytes());
    }
    find_bytes_all(region, start, end, data, mst)
}

/// The first match of a verbatim byte sequence.
pub fn find_data_first(region: &[u8], start: usize, end: usize, data: &[u8]) -> (r: usize)
    requires
        1 <= start,
        start <= end,
        region@.len() == end - start,
    ensures
        ({
            let n = region@.len() as int;
            let scan = data@.len() as int;
            &&& (start >= end || scan == 0 || scan > n) ==> r == 0
            &&& (start < end && 1 <= scan <= n) ==> {
                &&& (r == 0 <==> forall|i: int| 0 <= i <= n - scan
                    ==> !data_hit(region@, i, data@))
                &&& r != 0 ==> {
                    &&& start <= r && r - start + scan <= n
                    &&& data_hit(region@, r - start, data@)
                    &&& forall|i: int| 0 <= i < r - start ==> !data_hit(region@, i, data@)
                }
            }
        }),
{
    if start >= end || data.len() == 0 {
        return 0;
    }
    let mask = all_x_mask(data.len());
    let mst = mask.as_str();
    proof {
        lemma_x_str_bytes(mst);
        lemma_all_x_hit(region@, data@, mst.spec_bytes());
    }
    find_bytes_first(region, start, end, data, mst)
}

/// A mask of `n` letters `x`: every position of the pattern must match.
fn all_x_mask(n: usize) -> (r: String)
    ensures
        r@.len() == n,
        forall|j: int| 0 <= j < n ==> r@[j] == 'x',
{
    let mut s = String::new();
    let mut k: usize = 0;
    while k < n
        invariant
            k <= n,
            s@.len() == k,
            forall|j: int| 0 <= j < k ==> s@[j] == 'x',
        decreases n - k,
    {
        s.push('x');
        k = k + 1;
    }
    s
}

/// The bytes of an all-`x` string are all the letter `x`.
proof fn lemma_x_str_bytes(st: &str)
    requires
        forall|j: int| 0 <= j < st@.len() ==> st@[j] == 'x',
    ensures
        st.spec_bytes().len() == st@.len(),
        forall|j: int| 0 <= j < st@.len() ==> st.spec_bytes()[j] == 120u8,
{
    assert forall|j: int| 0 <= j < st@.len() implies '\0' <= #[trigger] st@[j] <= '\u{7f}' by {
        let c = st@[j];
        assert(c == 'x');
    }
    assert(vstd::utf8::is_ascii_chars(st@));
    assert(vstd::string::is_ascii(st));
    assert(st.spec_bytes() =~= Seq::new(st@.len(), |i: int| st@[i] as u8));
    assert(('x' as u8) == 120);
    assert forall|j: int| 0 <= j < st@.len() implies st.spec_bytes()[j] == 120u8 by {
        assert(st@[j] == 'x');
        assert(st.spec_bytes()[j] == st@[j] as u8);
    }
}

/// Under an all-`x` mask, a masked match is a verbatim match.
proof fn lemma_all_x_hit(region: Seq<u8>, data: Seq<u8>, mask: Seq<u8>)
    requires
        mask.len() == data.len(),
        forall|j: int| 0 <= j < mask.len() ==> mask[j] == 120u8,
    ensures
        forall|i: int|
            #![trigger mask_hit(region, i, data, mask)]
            #![trigger data_hit(region, i, data)]
            mask_hit(region, i, data, mask) == data_hit(region, i, data),
{
    assert forall|i: int| mask_hit(region, i, data, mask) == data_hit(region, i, data) by {
        if mask_hit(region, i, data, mask) {
            assert forall|j: int| 0 <= j < data.len()
                implies region[i + j] == #[trigger] data[j] by {
                assert(mask[j] == 120u8);
            }
        }
        if data_hit(region, i, data) {
            assert forall|j: int| 0 <= j < mask.len() && mask[j] == 120
                implies region[i + j] == #[trigger] data[j] by {
            }
        }
    }
}

/// The matches of a pattern given as a hex string: the string is
/// normalized and decoded, must pair two digits per mask byte, and is then
/// searched for under the mask.
pub fn find_hex_all(region: &[u8], start: usize, end: usize, hex: &str, mask: &str) -> (out: Vec<
    usize,
>)
    requires
        1 <= start,
        start <= end,
        region@.len() == end - start,
    ensures
        ({
            let cleaned = kitty_utils::strip_0x(hex@).filter(kitty_utils::kept_pred());
            let wf = hex@.len() > 0 && cleaned.len() >= 2 && cleaned.len() % 2 == 0 && (forall|
                i: int|
                0 <= i < cleaned.len() ==> kitty_utils::is_hex_digit(#[trigger] cleaned[i]));
            (start >= end || mask.spec_bytes().len() == 0 || !wf || cleaned.len() / 2
                != mask.spec_bytes().len()) ==> out@.len() == 0
        }),
{
    if start >= end || mask.as_bytes().len() == 0 {
        return Vec::new();
    }
    let mut hex_mut = hex.to_owned();
    if !kitty_utils::validate_hex_string(&mut hex_mut) {
        return Vec::new();
    }
    let st = hex_mut.as_str();
    proof {
        crate::patch::lemma_hex_chars_ascii(st);
    }
    if st.as_bytes().len() / 2 != mask.as_bytes().len() {
        return Vec::new();
    }
    let pattern = kitty_utils::from_hex(st);
    find_bytes_all(region, start, end, pattern.as_slice(), mask)
}

/// The first match of a pattern given as a hex string, or zero.
pub fn find_hex_first(region: &[u8], start: usize, end: usize, hex: &str, mask: &str) -> (r:
    usize)
    requires
        1 <= start,
        start <= end,
        region@.len() == end - start,
    ensures
        ({
            let cleaned = kitty_utils::strip_0x(hex@).filter(kitty_utils::kept_pred());
            let wf = hex@.len() > 0 && cleaned.len() >= 2 && cleaned.len() % 2 == 0 && (forall|
                i: int|
                0 <= i < cleaned.len() ==> kitty_utils::is_hex_digit(#[trigger] cleaned[i]));
            &&& (start >= end || mask.spec_bytes().len() == 0 || !wf || cleaned.len() / 2
                != mask.spec_bytes().len()) ==> r == 0
            &&& r != 0 ==> {
                let m = mask.spec_bytes();
                let pat = kitty_utils::from_hex_seq(ascii_of(cleaned));
                &&& start <= r && r - start + m.len() <= region@.len()
                &&& mask_hit(region@, r - start, pat, m)
                &&& forall|i: int| 0 <= i < r - start ==> !mask_hit(region@, i, pat, m)
            }
        }),
{
    if start >= end || mask.as_bytes().len() == 0 {
        return 0;
    }
    let mut hex_mut = hex.to_owned();
    if !kitty_utils::validate_hex_string(&mut hex_mut) {
        return 0;
    }
    let st = hex_mut.as_str();
    proof {
        crate::patch::lemma_hex_chars_ascii(st);
    }
    if st.as_bytes().len() / 2 != mask.as_bytes().len() {
        return 0;
    }
    let pattern = kitty_utils::from_hex(st);
    find_bytes_first(region, start, end, pattern.as_slice(), mask)
}

/// A half-open address range to search; the bytes of the range are handed
/// to each search, since only the caller can read them.
pub struct Scanner {
    pub start: usize,
    pub end: usize,
}

impl Scanner {
    pub fn from_range(start: usize, end: usize) -> (r: Self)
        ensures
            r.start == start,
            r.end == end,
    {
        Scanner { start, end }
    }

    /// The first masked match in the range, if any.
    pub fn find_bytes_first(&self, region: &[u8], bytes: &[u8], mask: &str) -> (r: Option<usize>)
        requires
            1 <= self.start <= self.end,
            region@.len() == self.end - self.start,
            bytes@.len() >= mask.spec_bytes().len(),
        ensures
            ({
                let n = region@.len() as int;
                let m = mask.spec_bytes();
                let scan = m.len() as int;
                r matches Some(a) ==> self.start < self.end && bytes@.len() > 0 && 1 <= scan
                    <= n && self.start <= a && a - self.start + scan <= n && mask_hit(
                    region@,
                    a - self.start,
                    bytes@,
                    m,
                )
            }),
    {
        let addr = find_bytes_first(region, self.start, self.end, bytes, mask);
        if addr == 0 {
            None
        } else {
            Some(addr)
        }
    }

    /// Every masked match in the range.
    pub fn find_bytes_all(&self, region: &[u8], bytes: &[u8], mask: &str) -> (out: Vec<usize>)
        requires
            1 <= self.start <= self.end,
            region@.len() == self.end - self.start,
            bytes@.len() >= mask.spec_bytes().len(),
        ensures
            forall|k: int| 0 <= k < out@.len() ==> self.start <= #[trigger] out@[k]
                && out@[k] - self.start + mask.spec_bytes().len() <= region@.len()
                && mask_hit(region@, out@[k] - self.start, bytes@, mask.spec_bytes()),
    {
        find_bytes_all(region, self.start, self.end, bytes, mask)
    }

    /// The first match of a hex pattern in the range, if any.
    pub fn find_hex_first(&self, region: &[u8], hex: &str, mask: &str) -> (r: Option<usize>)
        requires
            1 <= self.start <= self.end,
            region@.len() == self.end - self.start,
        ensures
            ({
                let cleaned = kitty_utils::strip_0x(hex@).filter(kitty_utils::kept_pred());
                let pat = kitty_utils::from_hex_seq(ascii_of(cleaned));
                r matches Some(a) ==> self.start <= a && mask_hit(
                    region@,
                    a - self.start,
                    pat,
                    mask.spec_bytes(),
                )
            }),
    {
        let addr = find_hex_first(region, self.start, self.end, hex, mask);
        if addr == 0 {
            None
        } else {
            Some(addr)
        }
    }

    /// Every match of a hex pattern in the range.
    pub fn find_hex_all(&self, region: &[u8], hex: &str, mask: &str) -> (out: Vec<usize>)
        requires
            1 <= self.start <= self.end,
            region@.len() == self.end - self.start,
    {
        find_hex_all(region, self.start, self.end, hex, mask)
    }
}

} // verus!
