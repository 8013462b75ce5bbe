use vstd::prelude::*;

use vstd::string::StringSliceAdditionalSpecFns;

use vstd::std_specs::iter::IteratorSpec;

verus! {

broadcast use vstd::string::group_string_axioms;



/// The characters removed by `trim_string`: blanks and line breaks.
pub open spec fn is_stripped(c: char) -> bool {
    c == ' ' || c == '\n' || c == '\r' || c == '\t' || c == '\u{b}' || c == '\u{c}'
}

/// The predicate under which `trim_string` keeps a character.
pub open spec fn kept_pred() -> spec_fn(char) -> bool {
    |c: char| !is_stripped(c)
}

/// One step of `Seq::filter`, for loops that filter as they walk.
proof fn lemma_filter_push(s: Seq<char>, c: char, pred: spec_fn(char) -> bool)
    ensures
        s.push(c).filter(pred) == if pred(c) {
            s.filter(pred).push(c)
        } else {
            s.filter(pred)
        },
{
    reveal(Seq::filter);
    assert(s.push(c).drop_last() =~= s);
    assert(s.push(c).last() == c);
}

/// Removes every blank and line-break character from `s`, keeping the rest
/// in order.
pub fn trim_string(s: &mut String)
    ensures
        final(s)@ == old(s)@.filter(kept_pred()),
{
    let mut out = String::new();
    let mut it = s.as_str().chars();
    let ghost all = s@;
    let ghost mut seen: Seq<char> = Seq::empty();
    proof {
        assert(seen + it.remaining() =~= all);
    }
    loop
        invariant
            it.decrease() is Some,
            seen + it.remaining() =~= all,
            out@ == seen.filter(kept_pred()),
        ensures
            out@ == all.filter(kept_pred()),
        decreases it.decrease()->0,
    {
        match it.next() {
            Some(c) => {
                proof {
                    lemma_filter_push(seen, c, kept_pred());
                    assert(seen.push(c) + it.remaining() =~= all);
                }
                if !(c == ' ' || c == '\n' || c == '\r' || c == '\t' || c == '\u{b}'
                    || c == '\u{c}') {
                    out.push(c);
                }
                proof {
                    seen = seen.push(c);
                }
            },
            None => {
                proof {
                    assert(seen =~= all);
                }
                break;
            },
        }
    }
    *s = out;
}

/// A hexadecimal prefix `0x` stripped off, when present.
pub open spec fn strip_0x(s: Seq<char>) -> Seq<char> {
    if s.len() >= 2 && s[0] == '0' && s[1] == 'x' {
        s.subrange(2, s.len() as int)
    } else {
        s
    }
}

/// A hexadecimal digit character, either case.
pub open spec fn is_hex_digit(c: char) -> bool {
    (48 <= c as u32 && c as u32 <= 57) || (97 <= c as u32 && c as u32 <= 102)
        || (65 <= c as u32 && c as u32 <= 70)
}

/// Normalizes `s` in place — an optional `0x` prefix dropped, blanks and
/// line breaks removed — and reports whether what remains is a well-formed
/// hex string: nonempty input, at least one byte, an even number of digits,
/// every character a hex digit.
pub fn validate_hex_string(hex: &mut String) -> (r: bool)
    ensures
        final(hex)@ == strip_0x(old(hex)@).filter(kept_pred()),
        r == ({
            let cleaned = strip_0x(old(hex)@).filter(kept_pred());
            &&& old(hex)@.len() > 0
            &&& cleaned.len() >= 2
            &&& cleaned.len() % 2 == 0
            &&& (forall|i: int| 0 <= i < cleaned.len() ==> is_hex_digit(#[trigger] cleaned[i]))
        }),
{
    let ghost all = hex@;
    // gather the characters, so the prefix test and the filter see chars
    let mut vc: Vec<char> = Vec::new();
    let mut it = hex.as_str().chars();
    proof {
        assert(vc@ + it.remaining() =~= all);
    }
    loop
        invariant
            it.decrease() is Some,
            vc@ + it.remaining() =~= all,
        ensures
            vc@ =~= all,
        decreases it.decrease()->0,
    {
        match it.next() {
            Some(c) => {
                let ghost pre = vc@;
                vc.push(c);
                proof {
                    assert(pre.push(c) + it.remaining() =~= all);
                }
            },
            None => {
                proof {
                    assert(vc@ =~= all);
                }
                break;
            },
        }
    }

    let start: usize = if vc.len() >= 2 && vc[0] == '0' && vc[1] == 'x' { 2 } else { 0 };
    let ghost stripped = strip_0x(all);
    proof {
        assert(vc@.subrange(start as int, vc@.len() as int) =~= stripped);
    }

    let mut out = String::new();
    let mut ok_digits = true;
    let mut count: usize = 0;
    let mut i: usize = start;
    let ghost pred = kept_pred();
    while i < vc.len()
        invariant
            start <= i <= vc@.len(),
            vc@ =~= all,
            stripped == strip_0x(all),
            vc@.subrange(start as int, vc@.len() as int) =~= stripped,
            out@ == vc@.subrange(start as int, i as int).filter(pred),
            pred == kept_pred(),
            count == out@.len(),
            ok_digits == (forall|j: int| 0 <= j < out@.len() ==> is_hex_digit(#[trigger] out@[j])),
        decreases vc@.len() - i,
    {
        let c = vc[i];
        proof {
            lemma_filter_push(vc@.subrange(start as int, i as int), c, pred);
            assert(vc@.subrange(start as int, i as int + 1)
                =~= vc@.subrange(start as int, i as int).push(c));
        }
        if !(c == ' ' || c == '\n' || c == '\r' || c == '\t' || c == '\u{b}' || c == '\u{c}') {
            let u = c as u32;
            let digit = (48 <= u && u <= 57) || (97 <= u && u <= 102) || (65 <= u && u <= 70);
            let ghost out0 = out@;
            let ghost ok0 = ok_digits;
            if !digit {
                ok_digits = false;
            }
            out.push(c);
            count = count + 1;
            proof {
                assert(out@ == out0.push(c));
                assert(digit == is_hex_digit(c));
                if ok0 && digit {
                    assert forall|j: int| 0 <= j < out@.len()
                        implies is_hex_digit(#[trigger] out@[j]) by {
                        if j < out0.len() {
                            assert(is_hex_digit(out0[j]));
                        }
                    }
                } else {
                    if !digit {
                        assert(!is_hex_digit(out@[out@.len() - 1]));
                    } else {
                        let k = choose|k: int| 0 <= k < out0.len() && !is_hex_digit(#[trigger] out0[k]);
                        assert(!is_hex_digit(out@[k]));
                    }
                }
            }
        }
        i = i + 1;
    }
    let r = vc.len() > 0 && count >= 2 && count % 2 == 0 && ok_digits;
    *hex = out;
    r
}

/// The lowercase hexadecimal digit of a value below sixteen.
pub open spec fn hex_digit(n: int) -> char {
    if n == 0 { '0' } else if n == 1 { '1' } else if n == 2 { '2' } else if n == 3 { '3' }
    else if n == 4 { '4' } else if n == 5 { '5' } else if n == 6 { '6' } else if n == 7 { '7' }
    else if n == 8 { '8' } else if n == 9 { '9' } else if n == 10 { 'a' } else if n == 11 { 'b' }
    else if n == 12 { 'c' } else if n == 13 { 'd' } else if n == 14 { 'e' } else { 'f' }
}

/// The lowercase hex rendering of a byte sequence: two digits per byte,
/// high nibble first.
pub open spec fn hex_seq(s: Seq<u8>) -> Seq<char> {
    Seq::new(2 * s.len(), |j: int|
        if j % 2 == 0 { hex_digit((s[j / 2] / 16) as int) } else { hex_digit((s[j / 2] % 16) as int) })
}

/// The lowercase hexadecimal digit character of `n`.
fn hex_char(n: u8) -> (r: char)
    requires
        n < 16,
    ensures
        r == hex_digit(n as int),
{
    if n == 0 { '0' } else if n == 1 { '1' } else if n == 2 { '2' } else if n == 3 { '3' }
    else if n == 4 { '4' } else if n == 5 { '5' } else if n == 6 { '6' } else if n == 7 { '7' }
    else if n == 8 { '8' } else if n == 9 { '9' } else if n == 10 { 'a' } else if n == 11 { 'b' }
    else if n == 12 { 'c' } else if n == 13 { 'd' } else if n == 14 { 'e' } else { 'f' }
}

/// Renders `data` as lowercase hex, two digits per byte.
pub fn to_hex(data: &[u8]) -> (r: String)
    ensures
        r@ == hex_seq(data@),
{
    let mut out = String::new();
    let mut i: usize = 0;
    while i < data.len()
        invariant
            i <= data@.len(),
            out@ =~= hex_seq(data@.subrange(0, i as int)),
        decreases data@.len() - i,
    {
        let b = data[i];
        proof {
            assert(b / 16 < 16 && b % 16 < 16) by (bit_vector);
        }
        out.push(hex_char(b / 16));
        out.push(hex_char(b % 16));
        proof {
            assert(out@ =~= hex_seq(data@.subrange(0, i as int + 1)));
        }
        i = i + 1;
    }
    proof {
        assert(data@.subrange(0, data@.len() as int) =~= data@);
    }
    out
}

/// A byte that is an ASCII hexadecimal digit, either case.
pub open spec fn is_hex_u8(b: u8) -> bool {
    (48 <= b && b <= 57) || (97 <= b && b <= 102) || (65 <= b && b <= 70)
}

/// The value of an ASCII hexadecimal digit byte.
pub open spec fn hex_val_u8(b: u8) -> int {
    if 48 <= b && b <= 57 { b - 48 }
    else if 97 <= b && b <= 102 { b - 87 }
    else if 65 <= b && b <= 70 { b - 55 }
    else { 0 }
}

/// What one byte-pair of a hex string decodes to: its value when both
/// halves are hex digits, and zero for a malformed pair.
pub open spec fn hex_pair_val(h: u8, l: u8) -> u8 {
    if is_hex_u8(h) && is_hex_u8(l) {
        (16 * hex_val_u8(h) + hex_val_u8(l)) as u8
    } else {
        0
    }
}

/// The bytes a hex string decodes to, pairwise; a trailing unpaired byte is
/// ignored and a malformed pair decodes to zero.
pub open spec fn from_hex_seq(b: Seq<u8>) -> Seq<u8> {
    Seq::new(b.len() / 2, |k: int| hex_pair_val(b[2 * k], b[2 * k + 1]))
}

/// The value of a hex-digit byte, or zero for any other byte, with a flag
/// telling the two apart.
pub fn hex_nibble(b: u8) -> (r: (bool, u8))
    ensures
        r.0 == is_hex_u8(b),
        r.0 ==> r.1 == hex_val_u8(b),
        !r.0 ==> r.1 == 0,
{
    if 48 <= b && b <= 57 {
        (true, b - 48)
    } else if 97 <= b && b <= 102 {
        (true, b - 87)
    } else if 65 <= b && b <= 70 {
        (true, b - 55)
    } else {
        (false, 0)
    }
}

/// Decodes a hex string to bytes, two characters per byte; a malformed
/// pair decodes to zero and a trailing unpaired character is ignored.
pub fn from_hex(hex: &str) -> (r: Vec<u8>)
    ensures
        r@ == from_hex_seq(hex.spec_bytes()),
{
    let bytes = hex.as_bytes();
    let mut result: Vec<u8> = Vec::new();
    let mut i: usize = 0;
    while i + 1 < bytes.len()
        invariant
            i % 2 == 0,
            i == 0 || i <= bytes@.len(),
            bytes@ == hex.spec_bytes(),
            result@.len() == i / 2,
            result@ =~= from_hex_seq(bytes@).subrange(0, (i / 2) as int),
        decreases bytes@.len() - i,
    {
        let h = bytes[i];
        let l = bytes[i + 1];
        let (okh, vh) = hex_nibble(h);
        let (okl, vl) = hex_nibble(l);
        let value: u8 = if okh && okl { 16 * vh + vl } else { 0 };
        result.push(value);
        proof {
            assert(result@ =~= from_hex_seq(bytes@).subrange(0, (i / 2) as int + 1));
        }
        i = i + 2;
    }
    proof {
        assert(i % 2 == 0);
        assert(i + 1 >= bytes@.len());
        assert(i == 0 || i <= bytes@.len());
        assert(i / 2 == bytes@.len() / 2);
        assert(result@ =~= from_hex_seq(bytes@));
    }
    result
}


/// The uppercase hexadecimal digit of a value below sixteen.
pub open spec fn up_digit(n: int) -> char {
    if n == 0 { '0' } else if n == 1 { '1' } else if n == 2 { '2' } else if n == 3 { '3' }
    else if n == 4 { '4' } else if n == 5 { '5' } else if n == 6 { '6' } else if n == 7 { '7' }
    else if n == 8 { '8' } else if n == 9 { '9' } else if n == 10 { 'A' } else if n == 11 { 'B' }
    else if n == 12 { 'C' } else if n == 13 { 'D' } else if n == 14 { 'E' } else { 'F' }
}

/// The uppercase hexadecimal digit character of `n`.
fn up_char(n: u8) -> (r: char)
    requires
        n < 16,
    ensures
        r == up_digit(n as int),
{
    if n == 0 { '0' } else if n == 1 { '1' } else if n == 2 { '2' } else if n == 3 { '3' }
    else if n == 4 { '4' } else if n == 5 { '5' } else if n == 6 { '6' } else if n == 7 { '7' }
    else if n == 8 { '8' } else if n == 9 { '9' } else if n == 10 { 'A' } else if n == 11 { 'B' }
    else if n == 12 { 'C' } else if n == 13 { 'D' } else if n == 14 { 'E' } else { 'F' }
}

/// A power of sixteen, for picking the eight offset digits.
pub open spec fn p16(k: int) -> int {
    if k == 0 { 1 } else if k == 1 { 0x10 } else if k == 2 { 0x100 } else if k == 3 { 0x1000 }
    else if k == 4 { 0x10000 } else if k == 5 { 0x100000 } else if k == 6 { 0x1000000 }
    else { 0x10000000 }
}

/// A row's eight-digit uppercase offset column.
pub open spec fn offset8(off: int) -> Seq<char> {
    Seq::new(8, |k: int| up_digit((off / p16(7 - k)) % 16))
}

/// A row's hex columns: three characters per column — two digits and a
/// blank — and all blanks past the end of the data.
pub open spec fn hexcols(data: Seq<u8>, start: int, row: int) -> Seq<char> {
    Seq::new((3 * row) as nat, |j: int|
        if start + j / 3 < data.len() {
            if j % 3 == 0 { up_digit((data[start + j / 3] / 16) as int) }
            else if j % 3 == 1 { up_digit((data[start + j / 3] % 16) as int) }
            else { ' ' }
        } else {
            ' '
        })
}

/// A byte that prints as itself in the dump's text column.
pub open spec fn dump_printable(b: u8) -> bool {
    (0x21 <= b && b <= 0x7e) || b == 32
}

/// A row's text column: each in-range byte as itself when printable, a dot
/// otherwise.
pub open spec fn ascii_col(data: Seq<u8>, start: int, row: int) -> Seq<char> {
    Seq::new((if data.len() - start < row { data.len() - start } else { row }) as nat, |j: int|
        if dump_printable(data[start + j]) { data[start + j] as char } else { '.' })
}

/// One full dump row, with its line break.
pub open spec fn dump_row(data: Seq<u8>, start: int, row: int, ascii: bool) -> Seq<char> {
    offset8(start) + seq![':', ' '] + hexcols(data, start, row) + (if ascii {
        seq![' '] + ascii_col(data, start, row)
    } else {
        Seq::<char>::empty()
    }) + seq!['\n']
}

/// The first `k` rows of the dump.
pub open spec fn dump_rows(data: Seq<u8>, row: int, ascii: bool, k: int) -> Seq<char>
    decreases k,
{
    if k <= 0 {
        Seq::empty()
    } else {
        dump_rows(data, row, ascii, k - 1) + dump_row(data, (k - 1) * row, row, ascii)
    }
}

/// Appends one dump row for the bytes at `start0`.
#[verifier::rlimit(100)]
#[verifier::spinoff_prover]
fn emit_row(out: &mut String, data: &[u8], start0: usize, row_size: usize, show_ascii: bool)
    requires
        data@.len() + row_size <= 0xffff_ffff,
        0 < row_size,
        start0 < data@.len(),
    ensures
        final(out)@ == old(out)@ + dump_row(data@, start0 as int, row_size as int, show_ascii),
{
    let ghost row = row_size as int;
    let ghost row_start = out@;
    let len = data.len();
    let i = start0;
    let off = i;
    out.push(up_char((off / 0x1000_0000 % 16) as u8));
    out.push(up_char((off / 0x100_0000 % 16) as u8));
    out.push(up_char((off / 0x10_0000 % 16) as u8));
    out.push(up_char((off / 0x1_0000 % 16) as u8));
    out.push(up_char((off / 0x1000 % 16) as u8));
    out.push(up_char((off / 0x100 % 16) as u8));
    out.push(up_char((off / 0x10 % 16) as u8));
    out.push(up_char((off % 16) as u8));
    out.push(':');
    out.push(' ');
    proof {
        assert(out@ =~= row_start + offset8(i as int) + seq![':', ' ']);
    }
    let ghost hex_start = out@;
    let mut j: usize = 0;
    while j < row_size
        invariant
            j <= row_size,
            0 < row_size,
            row == row_size,
            len == data@.len(),
            len + row_size <= 0xffff_ffff,
            i < len,
            out@ =~= hex_start + hexcols(data@, i as int, row).subrange(0, 3 * j),
        decreases row_size - j,
    {
        if i + j < len {
            let b = data[i + j];
            out.push(up_char(b / 16));
            out.push(up_char(b % 16));
            out.push(' ');
        } else {
            out.push(' ');
            out.push(' ');
            out.push(' ');
        }
        proof {
            assert(out@ =~= hex_start + hexcols(data@, i as int, row).subrange(
                0,
                3 * (j as int + 1),
            ));
        }
        j = j + 1;
    }
    proof {
        assert(hexcols(data@, i as int, row).subrange(0, 3 * row) =~= hexcols(
            data@,
            i as int,
            row,
        ));
    }
    if show_ascii {
        out.push(' ');
        let ghost asc_start = out@;
        let limit = if len - i < row_size { len - i } else { row_size };
        let mut j2: usize = 0;
        while j2 < limit
            invariant
                j2 <= limit,
                row == row_size,
                limit as int == if data@.len() - i < row { data@.len() - i } else { row },
                i + limit <= data@.len(),
                len == data@.len(),
                out@ =~= asc_start + ascii_col(data@, i as int, row).subrange(0, j2 as int),
            decreases limit - j2,
        {
            let b = data[i + j2];
            if (0x21 <= b && b <= 0x7e) || b == 32 {
                out.push(b as char);
            } else {
                out.push('.');
            }
            proof {
                assert(out@ =~= asc_start + ascii_col(data@, i as int, row).subrange(
                    0,
                    j2 as int + 1,
                ));
            }
            j2 = j2 + 1;
        }
        proof {
            assert(ascii_col(data@, i as int, row).subrange(
                0,
                ascii_col(data@, i as int, row).len() as int,
            ) =~= ascii_col(data@, i as int, row));
        }
    }
    out.push('\n');
    proof {
        assert(out@ =~= row_start + dump_row(data@, i as int, row, show_ascii));
    }
}

/// Renders `data` as a classic hex dump: an eight-digit uppercase offset,
/// `row_size` byte columns, and optionally the printable text alongside.
/// Empty data or a zero row size gives the empty string.
#[verifier::rlimit(100)]
#[verifier::spinoff_prover]
pub fn hex_dump(data: &[u8], row_size: usize, show_ascii: bool) -> (r: String)
    requires
        data@.len() + row_size <= 0xffff_ffff,
    ensures
        data@.len() == 0 || row_size == 0 ==> r@.len() == 0,
        data@.len() > 0 && row_size > 0 ==> r@ == dump_rows(
            data@,
            row_size as int,
            show_ascii,
            (data@.len() as int + row_size - 1) / (row_size as int),
        ),
{
    let mut out = String::new();
    if data.len() == 0 || row_size == 0 {
        return out;
    }
    let len = data.len();
    let mut i: usize = 0;
    let ghost row = row_size as int;
    let ghost mut rows_done: int = 0;
    while i < len
        invariant
            0 < row_size,
            row == row_size,
            len == data@.len(),
            0 < len,
            len + row_size <= 0xffff_ffff,
            0 <= rows_done,
            i as int == row * rows_done,
            i < len + row_size,
            out@ =~= dump_rows(data@, row, show_ascii, rows_done),
        decreases len + row_size - i,
    {
        emit_row(&mut out, data, i, row_size, show_ascii);
        proof {
            assert(dump_rows(data@, row, show_ascii, rows_done + 1) == dump_rows(
                data@,
                row,
                show_ascii,
                rows_done,
            ) + dump_row(data@, rows_done * row, row, show_ascii));
            assert(rows_done * row == row * rows_done) by (nonlinear_arith);
            assert(row * (rows_done + 1) == row * rows_done + row) by (nonlinear_arith);
            rows_done = rows_done + 1;
        }
        i = i + row_size;
    }
    proof {
        assert(rows_done == (data@.len() as int + row - 1) / row) by (nonlinear_arith)
            requires
                i as int == row * rows_done,
                data@.len() <= i < data@.len() + row,
                0 < row,
        ;
    }
    out
}

} // verus!
