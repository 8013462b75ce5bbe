use vstd::prelude::*;

use vstd::std_specs::iter::IteratorSpec;
use vstd::string::StringSliceAdditionalSpecFns;
use vstd::utf8::decode_utf8;
use vstd::utf8::valid_utf8;

use crate::text;

verus! {

broadcast use vstd::string::group_string_axioms;

/// Rejected base64 input, carrying a description.
#[derive(Debug)]
pub struct Base64Error(pub String);

/// The base64 digit characters of the standard and the URL-safe alphabets,
/// by value.
pub open spec fn b64_digit(n: int, url: bool) -> char {
    if 0 <= n < 26 {
        ((65 + n) as u32) as char
    } else if 26 <= n < 52 {
        ((97 + (n - 26)) as u32) as char
    } else if 52 <= n < 62 {
        ((48 + (n - 52)) as u32) as char
    } else if n == 62 {
        if url { '-' } else { '+' }
    } else {
        if url { '_' } else { '/' }
    }
}

/// The padding character: `=` for the standard alphabet, `.` for the
/// URL-safe one.
pub open spec fn b64_pad(url: bool) -> char {
    if url { '.' } else { '=' }
}

/// The base64 encoding of a byte sequence: four digits per three-byte
/// group, a short last group padded out to four characters.
pub open spec fn b64_encode(s: Seq<u8>, url: bool) -> Seq<char> {
    Seq::new(((s.len() + 2) / 3) * 4, |j: int| {
        let g = j / 4;
        let k = j % 4;
        if k == 0 {
            b64_digit((s[3 * g] >> 2) as int, url)
        } else if k == 1 {
            if 3 * g + 1 < s.len() {
                b64_digit(((s[3 * g] & 0x03) << 4) + (s[3 * g + 1] >> 4), url)
            } else {
                b64_digit(((s[3 * g] & 0x03) << 4) as int, url)
            }
        } else if k == 2 {
            if 3 * g + 2 < s.len() {
                b64_digit(((s[3 * g + 1] & 0x0f) << 2) + (s[3 * g + 2] >> 6), url)
            } else if 3 * g + 1 < s.len() {
                b64_digit(((s[3 * g + 1] & 0x0f) << 2) as int, url)
            } else {
                b64_pad(url)
            }
        } else {
            if 3 * g + 2 < s.len() {
                b64_digit((s[3 * g + 2] & 0x3f) as int, url)
            } else {
                b64_pad(url)
            }
        }
    })
}

/// The base64 digit character of a value below 64, in the chosen alphabet.
fn b64_char(n: u8, url: bool) -> (r: char)
    requires
        n < 64,
    ensures
        r == b64_digit(n as int, url),
{
    let c: u8 = if n < 26 {
        65 + n
    } else if n < 52 {
        97 + (n - 26)
    } else if n < 62 {
        48 + (n - 52)
    } else if n == 62 {
        if url { 45 } else { 43 }
    } else {
        if url { 95 } else { 47 }
    };
    proof {
        assert(n >= 62 ==> n == 62 || n == 63);
        assert((45u8 as char) == '-' && (43u8 as char) == '+' && (95u8 as char) == '_'
            && (47u8 as char) == '/');
    }
    c as char
}

/// Encodes `bytes_to_encode` as base64, in the standard alphabet or, when
/// `url` is set, the URL-safe one with `.` padding.
pub fn base64_encode(bytes_to_encode: &[u8], url: bool) -> (r: String)
    ensures
        r@ == b64_encode(bytes_to_encode@, url),
{
    let trailing_char: char = if url { '.' } else { '=' };
    let mut ret = String::new();
    let in_len = bytes_to_encode.len();
    let mut pos: usize = 0;
    let ghost s = bytes_to_encode@;
    while pos < in_len
        invariant
            s == bytes_to_encode@,
            in_len == s.len(),
            pos % 3 == 0,
            pos <= s.len() + 2,
            4 * (pos as int / 3) <= 4 * ((s.len() as int + 2) / 3),
            ret@.len() == 4 * (pos / 3),
            ret@ =~= b64_encode(s, url).subrange(0, 4 * (pos as int / 3)),
            trailing_char == b64_pad(url),
        decreases in_len + 2 - pos,
    {
        let b0 = bytes_to_encode[pos];
        proof {
            assert(b0 >> 2 < 64 && (b0 & 0x03) << 4 < 64) by (bit_vector);
        }
        ret.push(b64_char(b0 >> 2, url));

        if pos + 1 < in_len {
            let b1 = bytes_to_encode[pos + 1];
            proof {
                assert(((b0 & 0x03) << 4) + (b1 >> 4) < 64) by (bit_vector);
                assert((b1 & 0x0f) << 2 < 64) by (bit_vector);
            }
            ret.push(b64_char(((b0 & 0x03) << 4) + (b1 >> 4), url));

            if pos + 2 < in_len {
                let b2 = bytes_to_encode[pos + 2];
                proof {
                    assert(((b1 & 0x0f) << 2) + (b2 >> 6) < 64 && b2 & 0x3f < 64)
                        by (bit_vector);
                }
                ret.push(b64_char(((b1 & 0x0f) << 2) + (b2 >> 6), url));
                ret.push(b64_char(b2 & 0x3f, url));
            } else {
                ret.push(b64_char((b1 & 0x0f) << 2, url));
                ret.push(trailing_char);
            }
        } else {
            ret.push(b64_char((b0 & 0x03) << 4, url));
            ret.push(trailing_char);
            ret.push(trailing_char);
        }
        proof {
            assert(ret@ =~= b64_encode(s, url).subrange(0, 4 * (pos as int / 3) + 4));
        }
        pos = pos + 3;
    }
    proof {
        assert(ret@ =~= b64_encode(s, url));
    }
    ret
}

/// The value of one base64 digit byte, accepting both alphabets, or -1 for
/// a byte that is no digit.
pub open spec fn b64_val(c: u8) -> int {
    if 65 <= c <= 90 {
        c - 65
    } else if 97 <= c <= 122 {
        c - 97 + 26
    } else if 48 <= c <= 57 {
        c - 48 + 52
    } else if c == 43 || c == 45 {
        62
    } else if c == 47 || c == 95 {
        63
    } else {
        -1
    }
}

/// Resolves one base64 digit, or rejects a byte outside both alphabets.
pub fn pos_of_char(chr: u8) -> (r: Result<u32, Base64Error>)
    ensures
        r is Ok <==> b64_val(chr) >= 0,
        r matches Ok(v) ==> v == b64_val(chr) && v < 64,
        r matches Err(e) ==> e.0@ == invalid_input_message(),
{
    if 65 <= chr && chr <= 90 {
        Ok((chr - 65) as u32)
    } else if 97 <= chr && chr <= 122 {
        Ok((chr - 97 + 26) as u32)
    } else if 48 <= chr && chr <= 57 {
        Ok((chr - 48 + 52) as u32)
    } else if chr == 43 || chr == 45 {
        Ok(62)
    } else if chr == 47 || chr == 95 {
        Ok(63)
    } else {
        Err(Base64Error(invalid_message()))
    }
}

/// The text carried by a rejection of malformed base64.
pub open spec fn invalid_input_message() -> Seq<char> {
    "Input is not valid base64-encoded data."@
}

fn invalid_message() -> (r: String)
    ensures
        r@ == invalid_input_message(),
{
    let m = "Input is not valid base64-encoded data.";
    proof {
        assert(m@ == invalid_input_message());
    }
    m.to_owned()
}

/// A padding byte: `=` or `.`.
pub open spec fn is_pad_u8(c: u8) -> bool {
    c == 61 || c == 46
}

/// Whether every byte the decoder examines is a base64 digit: the first
/// two of each four-byte group always, the third and fourth only where
/// present and not padding.
pub open spec fn b64_group_ok(b: Seq<u8>, p: int) -> bool {
    &&& b64_val(b[p]) >= 0
    &&& b64_val(b[p + 1]) >= 0
    &&& (p + 2 < b.len() && !is_pad_u8(b[p + 2]) ==> b64_val(b[p + 2]) >= 0
        && (p + 3 < b.len() && !is_pad_u8(b[p + 3]) ==> b64_val(b[p + 3]) >= 0))
}

pub open spec fn b64_ok(b: Seq<u8>) -> bool {
    forall|g: int| 0 <= g < (b.len() as int + 3) / 4 ==> #[trigger] b64_group_ok(b, 4 * g)
}

/// The bytes one four-byte group contributes: one byte always, a second
/// and third where the group is long enough and not padded.
pub open spec fn b64_group(b: Seq<u8>, p: int) -> Seq<u8> {
    let v0 = b64_val(b[p]);
    let v1 = b64_val(b[p + 1]);
    let first = seq![(v0 * 4 + (v1 / 16) % 4) as u8];
    if p + 2 < b.len() && !is_pad_u8(b[p + 2]) {
        let v2 = b64_val(b[p + 2]);
        let second = first + seq![((v1 % 16) * 16 + (v2 / 4) % 16) as u8];
        if p + 3 < b.len() && !is_pad_u8(b[p + 3]) {
            let v3 = b64_val(b[p + 3]);
            second + seq![((v2 % 4) * 64 + v3) as u8]
        } else {
            second
        }
    } else {
        first
    }
}

/// The decoder's byte arithmetic, bit level and arithmetic level agreeing.
proof fn lemma_decode_bytes(v0: u8, v1: u8, v2: u8, v3: u8)
    by (bit_vector)
    requires
        v0 < 64,
        v1 < 64,
        v2 < 64,
        v3 < 64,
    ensures
        (v0 << 2) + ((v1 & 0x30) >> 4) < 256,
        ((v0 << 2) + ((v1 & 0x30) >> 4)) == v0 * 4 + (v1 / 16) % 4,
        ((v1 & 0x0f) << 4) + ((v2 & 0x3c) >> 2) < 256,
        (((v1 & 0x0f) << 4) + ((v2 & 0x3c) >> 2)) == (v1 % 16) * 16 + (v2 / 4) % 16,
        ((v2 & 0x03) << 6) + v3 < 256,
        (((v2 & 0x03) << 6) + v3) == (v2 % 4) * 64 + v3,
{
}

/// The bytes the first `k` groups contribute, in order.
pub open spec fn b64_decode_groups(b: Seq<u8>, k: int) -> Seq<u8>
    decreases k,
{
    if k <= 0 {
        Seq::empty()
    } else {
        b64_decode_groups(b, k - 1) + b64_group(b, 4 * (k - 1))
    }
}

/// The bytes a base64 string decodes to.
pub open spec fn b64_decode_bytes(b: Seq<u8>) -> Seq<u8> {
    b64_decode_groups(b, (b.len() as int + 3) / 4)
}

/// The byte sequence the decoder actually reads: the input's bytes, with
/// every line-break byte removed when that is asked for.
pub open spec fn b64_cleaned(s: Seq<u8>, remove_linebreaks: bool) -> Seq<u8> {
    if remove_linebreaks {
        s.filter(|b: u8| b != 10)
    } else {
        s
    }
}

/// Decodes a base64 string, first dropping line breaks when
/// `remove_linebreaks` is set, accepting both alphabets and both padding
/// characters. Decoding fails exactly when a read position holds no
/// base64 digit, or when the decoded bytes are not valid UTF-8. A group
/// cut short by the end of the input or by padding contributes fewer
/// bytes; what follows padding is decoded as further groups.
pub fn base64_decode(encoded_string: &str, remove_linebreaks: bool) -> (r: Result<
    String,
    Base64Error,
>)
    requires
        b64_cleaned(encoded_string.spec_bytes(), remove_linebreaks).len() % 4 != 1,
    ensures
        ({
            let cleaned = b64_cleaned(encoded_string.spec_bytes(), remove_linebreaks);
            let decoded = b64_decode_bytes(cleaned);
            &&& (r is Ok <==> b64_ok(cleaned) && valid_utf8(decoded))
            &&& (r matches Ok(out) ==> out@ == decode_utf8(decoded))
            &&& (!b64_ok(cleaned) ==> (r matches Err(e) && e.0@ == invalid_input_message()))
        }),
{
    let bytes0 = encoded_string.as_bytes();
    let ghost cleaned_s = b64_cleaned(encoded_string.spec_bytes(), remove_linebreaks);

    let mut cleaned: Vec<u8> = Vec::new();
    if remove_linebreaks {
        let mut i: usize = 0;
        while i < bytes0.len()
            invariant
                i <= bytes0@.len(),
                cleaned@ == bytes0@.subrange(0, i as int).filter(|b: u8| b != 10),
            decreases bytes0@.len() - i,
        {
            let b = bytes0[i];
            proof {
                lemma_filter_push_u8(bytes0@.subrange(0, i as int), b);
                assert(bytes0@.subrange(0, i as int + 1)
                    =~= bytes0@.subrange(0, i as int).push(b));
            }
            if b != 10 {
                cleaned.push(b);
            }
            i = i + 1;
        }
        proof {
            assert(bytes0@.subrange(0, bytes0@.len() as int) =~= bytes0@);
        }
    } else {
        let mut i: usize = 0;
        while i < bytes0.len()
            invariant
                i <= bytes0@.len(),
                cleaned@ =~= bytes0@.subrange(0, i as int),
            decreases bytes0@.len() - i,
        {
            cleaned.push(bytes0[i]);
            proof {
                assert(cleaned@ =~= bytes0@.subrange(0, i as int + 1));
            }
            i = i + 1;
        }
        proof {
            assert(cleaned@ =~= bytes0@);
        }
    }
    proof {
        assert(cleaned@ == cleaned_s);
    }

    let n = cleaned.len();
    let mut ret: Vec<u8> = Vec::new();
    let ngroups_e: usize = n / 4 + (if n % 4 != 0 { 1 } else { 0 });
    let ghost ngroups = (cleaned_s.len() as int + 3) / 4;
    proof {
        assert(ngroups_e == ngroups);
    }
    let mut grp: usize = 0;
    while grp < ngroups_e
        invariant
            n == cleaned@.len(),
            cleaned@ == cleaned_s,
            cleaned_s == b64_cleaned(encoded_string.spec_bytes(), remove_linebreaks),
            cleaned_s.len() % 4 != 1,
            ngroups == (cleaned_s.len() as int + 3) / 4,
            ngroups_e == ngroups,
            grp <= ngroups_e,
            ret@ == b64_decode_groups(cleaned_s, grp as int),
            // every group read so far was well formed
            forall|g: int| 0 <= g < grp ==> #[trigger] b64_group_ok(cleaned_s, 4 * g),
        decreases ngroups_e - grp,
    {
        let pos = 4 * grp;
        let ghost gg = grp as int;
        proof {
            assert(4 * gg == pos as int);
            assert(gg < ngroups);
            assert(pos + 1 < n);
        }
        let b1 = cleaned[pos + 1];
        let v1: u32 = match pos_of_char(b1) {
            Ok(v) => v,
            Err(e) => {
                proof {
                    assert(!b64_group_ok(
                        b64_cleaned(encoded_string.spec_bytes(), remove_linebreaks), 4 * gg));
                    assert(!b64_ok(b64_cleaned(encoded_string.spec_bytes(), remove_linebreaks)));
                }
                return Err(e);
            },
        };
        let b0 = cleaned[pos];
        let v0: u32 = match pos_of_char(b0) {
            Ok(v) => v,
            Err(e) => {
                proof {
                    assert(!b64_group_ok(
                        b64_cleaned(encoded_string.spec_bytes(), remove_linebreaks), 4 * gg));
                    assert(!b64_ok(b64_cleaned(encoded_string.spec_bytes(), remove_linebreaks)));
                }
                return Err(e);
            },
        };
        let u0 = v0 as u8;
        let u1 = v1 as u8;
        proof {
            lemma_decode_bytes(u0, u1, 0, 0);
        }
        let byte0: u8 = (u0 << 2) + ((u1 & 0x30) >> 4);
        ret.push(byte0);

        if pos + 2 < n && cleaned[pos + 2] != 61 && cleaned[pos + 2] != 46 {
            let b2 = cleaned[pos + 2];
            let v2: u32 = match pos_of_char(b2) {
                Ok(v) => v,
                Err(e) => {
                    proof {
                        assert(!b64_group_ok(
                            b64_cleaned(encoded_string.spec_bytes(), remove_linebreaks), 4 * gg));
                        assert(!b64_ok(b64_cleaned(encoded_string.spec_bytes(), remove_linebreaks)));
                    }
                    return Err(e);
                },
            };
            let u2 = v2 as u8;
            proof {
                lemma_decode_bytes(u0, u1, u2, 0);
            }
            let byte1: u8 = ((u1 & 0x0f) << 4) + ((u2 & 0x3c) >> 2);
            ret.push(byte1);

            if pos + 3 < n && cleaned[pos + 3] != 61 && cleaned[pos + 3] != 46 {
                let b3 = cleaned[pos + 3];
                let v3: u32 = match pos_of_char(b3) {
                    Ok(v) => v,
                    Err(e) => {
                        proof {
                            assert(!b64_group_ok(
                                b64_cleaned(encoded_string.spec_bytes(), remove_linebreaks), 4 * gg));
                            assert(!b64_ok(b64_cleaned(encoded_string.spec_bytes(), remove_linebreaks)));
                        }
                        return Err(e);
                    },
                };
                let u3 = v3 as u8;
                proof {
                    lemma_decode_bytes(u0, u1, u2, u3);
                }
                let byte2: u8 = ((u2 & 0x03) << 6) + u3;
                ret.push(byte2);
            }
        }
        proof {
            assert(b64_decode_groups(cleaned_s, gg + 1) == b64_decode_groups(cleaned_s, gg)
                + b64_group(cleaned_s, 4 * gg));
            assert(ret@ =~= b64_decode_groups(cleaned_s, gg + 1));
            assert(b64_group_ok(cleaned_s, 4 * gg));
        }
        grp = grp + 1;
    }
    proof {
        assert(b64_ok(b64_cleaned(encoded_string.spec_bytes(), remove_linebreaks)));
        assert(ret@ == b64_decode_bytes(b64_cleaned(encoded_string.spec_bytes(), remove_linebreaks)));
    }

    match text::string_from_utf8(ret) {
        Some(s) => Ok(s),
        None => Err(Base64Error(utf8_message())),
    }
}

/// The text carried by a rejection of decoded bytes that are not UTF-8.
fn utf8_message() -> (r: String)
{
    let m = "UTF-8 conversion error: the decoded bytes are not valid UTF-8.";
    m.to_owned()
}

/// One step of `Seq::filter` over bytes.
proof fn lemma_filter_push_u8(s: Seq<u8>, c: u8)
    ensures
        s.push(c).filter(|b: u8| b != 10) == if c != 10 {
            s.filter(|b: u8| b != 10).push(c)
        } else {
            s.filter(|b: u8| b != 10)
        },
{
    reveal(Seq::filter);
    assert(s.push(c).drop_last() =~= s);
    assert(s.push(c).last() == c);
}

/// Encodes the bytes of a string as base64.
pub fn base64_encode_string(s: &str, url: bool) -> (r: String)
    ensures
        r@ == b64_encode(s.spec_bytes(), url),
{
    base64_encode(s.as_bytes(), url)
}

/// A sequence broken into `d`-character lines: each chunk after the first
/// is preceded by a line break.
pub open spec fn with_breaks(s: Seq<char>, d: int) -> Seq<char>
    decreases s.len(),
{
    if s.len() == 0 {
        Seq::empty()
    } else if s.len() <= d || d <= 0 {
        s
    } else {
        s.subrange(0, d) + seq!['\n'] + with_breaks(s.subrange(d, s.len() as int), d)
    }
}

/// Breaks an all-ASCII string into `distance`-character lines.
fn insert_linebreaks(s: String, distance: usize) -> (r: String)
    requires
        distance > 0,
        forall|i: int| 0 <= i < s@.len() ==> ((#[trigger] s@[i]) as u32) < 128,
    ensures
        r@ == with_breaks(s@, distance as int),
{
    let ghost all = s@;
    // gather the characters; for ASCII content they are the bytes
    let mut vc: Vec<char> = Vec::new();
    let mut it = s.as_str().chars();
    proof {
        assert(vc@ + it.remaining() =~= all);
    }
    loop
        invariant
            it.decrease() is Some,
            all == s@,
            vc@ + it.remaining() =~= all,
        ensures
            all == s@,
            vc@ =~= all,
        decreases it.decrease()->0,
    {
        match it.next() {
            Some(c) => {
                let ghost pre = vc@;
                vc.push(c);
                proof {
                    assert(pre.push(c) + it.remaining() =~= all);
                }
            },
            None => {
                proof {
                    assert(vc@ =~= all);
                }
                break;
            },
        }
    }

    let mut result = String::new();
    let mut i: usize = 0;
    proof {
        assert(all.subrange(0, all.len() as int) =~= all);
    }
    while i < vc.len()
        invariant
            all == s@,
            vc@ =~= all,
            i <= vc@.len(),
            distance > 0,
            result@ + (if i < vc@.len() && i > 0 { seq!['\n'] } else { Seq::<char>::empty() })
                + with_breaks(all.subrange(i as int, all.len() as int), distance as int)
                =~= with_breaks(all, distance as int),
        decreases vc@.len() - i,
    {
        if i > 0 {
            result.push('\n');
        }
        let ghost before = result@;
        let end = if vc.len() - i > distance { i + distance } else { vc.len() };
        let mut j = i;
        while j < end
            invariant
                i <= j <= end,
                end <= vc@.len(),
                end as int == if vc@.len() - i > distance { i as int + distance as int } else { vc@.len() as int },
                result@ == before + vc@.subrange(i as int, j as int),
            decreases end - j,
        {
            result.push(vc[j]);
            proof {
                assert(result@ =~= before + vc@.subrange(i as int, j as int + 1));
            }
            j = j + 1;
        }
        proof {
            let d = distance as int;
            let len = all.len() as int;
            let i0 = i as int;
            let rest = all.subrange(i0, len);
            assert(vc@.subrange(i0, end as int) =~= all.subrange(i0, end as int));
            assert(result@ =~= before + all.subrange(i0, end as int));
            if len - i0 > d {
                assert(rest.subrange(0, d) =~= all.subrange(i0, i0 + d));
                assert(rest.subrange(d, rest.len() as int) =~= all.subrange(i0 + d, len));
                assert(with_breaks(rest, d) == rest.subrange(0, d) + seq!['\n'] + with_breaks(
                    rest.subrange(d, rest.len() as int),
                    d,
                ));
                assert(result@ + seq!['\n'] + with_breaks(all.subrange(i0 + d, len), d)
                    =~= with_breaks(all, d));
            } else {
                assert(rest =~= all.subrange(i0, end as int));
                assert(with_breaks(rest, d) == rest);
                assert(result@ =~= with_breaks(all, d));
                assert(all.subrange(len, len) =~= Seq::<char>::empty());
                assert(with_breaks(all.subrange(len, len), d) == Seq::<char>::empty());
            }
        }
        i = end;
    }
    proof {
        assert(all.subrange(vc@.len() as int, all.len() as int) =~= Seq::<char>::empty());
    }
    result
}

/// Encodes a string as base64 broken into 64-character lines, as the PEM
/// format asks.
pub fn base64_encode_pem(s: &str) -> (r: String)
    ensures
        r@ == with_breaks(b64_encode(s.spec_bytes(), false), 64),
{
    proof {
        lemma_b64_digits_ascii(s.spec_bytes(), false);
    }
    insert_linebreaks(base64_encode_string(s, false), 64)
}

/// Encodes a string as base64 broken into 76-character lines, as MIME
/// asks.
pub fn base64_encode_mime(s: &str) -> (r: String)
    ensures
        r@ == with_breaks(b64_encode(s.spec_bytes(), false), 76),
{
    proof {
        lemma_b64_digits_ascii(s.spec_bytes(), false);
    }
    insert_linebreaks(base64_encode_string(s, false), 76)
}

/// Every character of a base64 encoding is ASCII.
proof fn lemma_b64_digits_ascii(s: Seq<u8>, url: bool)
    ensures
        forall|i: int| 0 <= i < b64_encode(s, url).len()
            ==> ((#[trigger] b64_encode(s, url)[i]) as u32) < 128,
{
    assert forall|i: int| 0 <= i < b64_encode(s, url).len()
        implies ((#[trigger] b64_encode(s, url)[i]) as u32) < 128 by {
        let c = b64_encode(s, url)[i];
        assert(forall|n: int, u: bool| ((#[trigger] b64_digit(n, u)) as u32) < 128);
        assert((b64_pad(url) as u32) < 128);
    }
}

} // verus!
