use vstd::prelude::*;

use vstd::string::StringSliceAdditionalSpecFns;

use crate::kitty_utils;
use crate::kitty_utils::hex_seq;

verus! {

/// The sum of a byte sequence's values.
pub open spec fn sum_bytes(s: Seq<u8>) -> int
    decreases s.len(),
{
    if s.len() == 0 {
        0
    } else {
        sum_bytes(s.drop_last()) + s.last()
    }
}

/// Prefix sums of bytes only grow.
proof fn lemma_sum_bytes_prefix(s: Seq<u8>, i: int, j: int)
    requires
        0 <= i <= j <= s.len(),
    ensures
        sum_bytes(s.subrange(0, i)) <= sum_bytes(s.subrange(0, j)),
        sum_bytes(s.subrange(0, i)) >= 0,
    decreases j - i,
{
    if i == j {
        lemma_sum_bytes_nonneg(s.subrange(0, i));
    } else {
        lemma_sum_bytes_prefix(s, i, j - 1);
        assert(s.subrange(0, j).drop_last() =~= s.subrange(0, j - 1));
    }
}

proof fn lemma_sum_bytes_nonneg(s: Seq<u8>)
    ensures
        sum_bytes(s) >= 0,
    decreases s.len(),
{
    if s.len() > 0 {
        lemma_sum_bytes_nonneg(s.drop_last());
    }
}

/// Sums the bytes of `buffer`.
pub fn calculate_checksum(buffer: &[u8]) -> (r: u32)
    requires
        sum_bytes(buffer@) <= u32::MAX,
    ensures
        r == sum_bytes(buffer@),
{
    let mut acc: u32 = 0;
    let mut i: usize = 0;
    while i < buffer.len()
        invariant
            i <= buffer@.len(),
            acc == sum_bytes(buffer@.subrange(0, i as int)),
            sum_bytes(buffer@) <= u32::MAX,
        decreases buffer@.len() - i,
    {
        proof {
            assert(buffer@.subrange(0, i as int + 1).drop_last() =~= buffer@.subrange(
                0,
                i as int,
            ));
            assert(buffer@.subrange(0, i as int + 1).last() == buffer@[i as int]);
            lemma_sum_bytes_prefix(buffer@, i as int + 1, buffer@.len() as int);
            assert(buffer@.subrange(0, buffer@.len() as int) =~= buffer@);
        }
        acc = acc + buffer[i] as u32;
        i = i + 1;
    }
    proof {
        assert(buffer@.subrange(0, buffer@.len() as int) =~= buffer@);
    }
    acc
}

/// The value of a string of hexadecimal digit bytes, most significant
/// first.
pub open spec fn hex_value(b: Seq<u8>) -> int
    decreases b.len(),
{
    if b.len() == 0 {
        0
    } else {
        16 * hex_value(b.drop_last()) + kitty_utils::hex_val_u8(b.last())
    }
}

pub open spec fn all_hex(b: Seq<u8>) -> bool {
    forall|i: int| 0 <= i < b.len() ==> kitty_utils::is_hex_u8(#[trigger] b[i])
}

proof fn lemma_hex_value_nonneg(b: Seq<u8>)
    ensures
        hex_value(b) >= 0,
    decreases b.len(),
{
    if b.len() > 0 {
        lemma_hex_value_nonneg(b.drop_last());
    }
}

/// A longer prefix of a hex string never has a smaller value.
proof fn lemma_hex_value_prefix(b: Seq<u8>, i: int, j: int)
    requires
        0 <= i <= j <= b.len(),
    ensures
        hex_value(b.subrange(0, i)) <= hex_value(b.subrange(0, j)),
    decreases j - i,
{
    if i < j {
        lemma_hex_value_prefix(b, i, j - 1);
        let p = b.subrange(0, j - 1);
        assert(b.subrange(0, j).drop_last() =~= p);
        lemma_hex_value_nonneg(p);
        assert(hex_value(b.subrange(0, j)) == 16 * hex_value(p) + kitty_utils::hex_val_u8(
            b.subrange(0, j).last(),
        ));
        assert(16 * hex_value(p) >= hex_value(p)) by (nonlinear_arith)
            requires hex_value(p) >= 0,
        ;
    }
}

/// The hexadecimal digits the offset parser reads: the string's bytes with
/// a leading `0x` or `0X` removed.
pub open spec fn offset_digits(b: Seq<u8>) -> Seq<u8> {
    if b.len() >= 2 && b[0] == 48 && (b[1] == 120 || b[1] == 88) {
        b.subrange(2, b.len() as int)
    } else {
        b
    }
}

/// Parses a hexadecimal offset, with an optional `0x`/`0X` prefix; a
/// malformed or overflowing string parses to zero.
pub fn string_to_offset(s: &str) -> (r: usize)
    ensures
        r == ({
            let body = offset_digits(s.spec_bytes());
            if body.len() > 0 && all_hex(body) && hex_value(body) <= usize::MAX {
                hex_value(body)
            } else {
                0
            }
        }),
{
    let bytes = s.as_bytes();
    let start: usize = if bytes.len() >= 2 && bytes[0] == 48 && (bytes[1] == 120 || bytes[1]
        == 88) {
        2
    } else {
        0
    };
    let ghost body = offset_digits(s.spec_bytes());
    proof {
        assert(bytes@.subrange(start as int, bytes@.len() as int) =~= body);
    }
    if start >= bytes.len() {
        return 0;
    }
    let mut acc: usize = 0;
    let mut i: usize = start;
    while i < bytes.len()
        invariant
            start <= i <= bytes@.len(),
            bytes@ == s.spec_bytes(),
            body == offset_digits(s.spec_bytes()),
            bytes@.subrange(start as int, bytes@.len() as int) =~= body,
            acc == hex_value(bytes@.subrange(start as int, i as int)),
            all_hex(bytes@.subrange(start as int, i as int)),
        decreases bytes@.len() - i,
    {
        let b = bytes[i];
        let (ok, v) = kitty_utils::hex_nibble(b);
        proof {
            assert(bytes@.subrange(start as int, i as int + 1).drop_last() =~= bytes@.subrange(
                start as int,
                i as int,
            ));
            assert(bytes@.subrange(start as int, i as int + 1).last() == bytes@[i as int]);
        }
        if !ok {
            proof {
                assert(body[i - start] == bytes@[i as int]);
                assert(!all_hex(body));
            }
            return 0;
        }
        if acc > (usize::MAX - v as usize) / 16 {
            // the digits so far already overflow the offset type
            proof {
                lemma_hex_value_nonneg(bytes@.subrange(start as int, i as int));
                assert(16 * acc + v > usize::MAX) by (nonlinear_arith)
                    requires acc > (usize::MAX - v) / 16, v < 16, acc >= 0,
                ;
                lemma_hex_value_prefix(body, i as int + 1 - start, body.len() as int);
                assert(body.subrange(0, i as int + 1 - start) =~= bytes@.subrange(
                    start as int,
                    i as int + 1,
                ));
                assert(body.subrange(0, body.len() as int) =~= body);
            }
            return 0;
        }
        proof {
            assert(acc <= (usize::MAX - v) / 16 ==> 16 * acc + v <= usize::MAX)
                by (nonlinear_arith)
                requires v < 16,
            ;
        }
        acc = 16 * acc + v as usize;
        i = i + 1;
    }
    proof {
        assert(bytes@.subrange(start as int, bytes@.len() as int) =~= body);
        assert(body.len() > 0);
    }
    acc
}

/// What the digest routine computes from a byte sequence: a function of the
/// bytes alone.
pub uninterp spec fn md5_of(bytes: Seq<u8>) -> Seq<u8>;

/// Relies on `md5::compute`: the 16-byte digest of the input, a function of
/// the input alone.
#[verifier::external_body]
fn md5_compute(data: &[u8]) -> (r: Vec<u8>)
    ensures
        r@ == md5_of(data@),
        r@.len() == 16,
{
    md5::compute(data).0.to_vec()
}

/// The digest of a string, rendered as 32 lowercase hex digits.
pub fn calc_md5(s: &str) -> (r: String)
    ensures
        r@ == hex_seq(md5_of(s.spec_bytes())),
{
    let digest = md5_compute(s.as_bytes());
    kitty_utils::to_hex(digest.as_slice())
}

/// `rand::rngs::ThreadRng`, the thread-local generator handle the random
/// string draws from.
#[verifier::external_type_specification]
#[verifier::external_body]
pub struct ExThreadRng(rand::rngs::ThreadRng);

/// Relies on `rand::thread_rng`: a handle to the thread-local generator.
/// Nothing is promised of the values it will produce.
#[verifier::external_body]
fn thread_rng_handle() -> rand::rngs::ThreadRng {
    rand::thread_rng()
}

/// Relies on `rand::Rng::gen_range`: a value drawn from the half-open
/// range, which is all that holds of any outcome.
#[verifier::external_body]
fn gen_index_below(rng: &mut rand::rngs::ThreadRng, bound: usize) -> (r: usize)
    requires
        bound >= 1,
    ensures
        r < bound,
{
    rand::Rng::gen_range(rng, 0..bound)
}

/// A character the random string may contain: a decimal digit or an ASCII
/// letter.
pub open spec fn is_alphanumeric_char(c: char) -> bool {
    (48 <= c as u32 && c as u32 <= 57) || (65 <= c as u32 && c as u32 <= 90) || (97 <= c as u32
        && c as u32 <= 122)
}

/// A string of `len` characters drawn from digits and ASCII letters.
/// Which characters come out is up to the generator; only the length and
/// the alphabet hold of every outcome.
pub fn random_string(len: usize) -> (r: String)
    ensures
        r@.len() == len,
        forall|i: int| 0 <= i < r@.len() ==> is_alphanumeric_char(#[trigger] r@[i]),
{
    let mut rng = thread_rng_handle();
    let mut out = String::new();
    let mut k: usize = 0;
    while k < len
        invariant
            k <= len,
            out@.len() == k,
            forall|i: int| 0 <= i < out@.len() ==> is_alphanumeric_char(#[trigger] out@[i]),
        decreases len - k,
    {
        let idx = gen_index_below(&mut rng, 62);
        let b: u8 = if idx < 10 {
            48 + idx as u8
        } else if idx < 36 {
            65 + (idx as u8 - 10)
        } else {
            97 + (idx as u8 - 36)
        };
        out.push(b as char);
        k = k + 1;
    }
    out
}

} // verus!
