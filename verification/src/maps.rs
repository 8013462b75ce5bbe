use vstd::prelude::*;

use vstd::std_specs::iter::IteratorSpec;

verus! {

broadcast use vstd::string::group_string_axioms;

/// The blank and line-break characters that separate the fields of a map
/// line; the lines the kernel writes are plain ASCII.
pub open spec fn is_sp(c: char) -> bool {
    c == ' ' || c == '\t' || c == '\n' || c == '\r' || c == '\u{b}' || c == '\u{c}'
}

/// Length of the leading run of non-blank characters.
pub open spec fn run_len(s: Seq<char>) -> nat
    decreases s.len(),
{
    if s.len() == 0 {
        0
    } else if is_sp(s[0]) {
        0
    } else {
        1 + run_len(s.drop_first())
    }
}

/// A run of exactly `m` non-blank characters, ended by a blank or the end.
proof fn lemma_run_len_exact(s: Seq<char>, m: int)
    requires
        0 <= m <= s.len(),
        forall|t: int| 0 <= t < m ==> !is_sp(#[trigger] s[t]),
        m == s.len() || is_sp(s[m]),
    ensures
        run_len(s) == m,
    decreases m,
{
    if m > 0 {
        lemma_run_len_exact(s.drop_first(), m - 1);
    }
}

/// The blank-separated fields of a line, in order.
pub open spec fn tokens(s: Seq<char>) -> Seq<Seq<char>>
    decreases s.len(),
{
    if s.len() == 0 {
        Seq::empty()
    } else if is_sp(s[0]) {
        tokens(s.drop_first())
    } else {
        let k: int = 1 + run_len(s.drop_first()) as int;
        let k0: int = if k <= s.len() { k } else { s.len() as int };
        seq![s.subrange(0, k0)] + tokens(s.subrange(k0, s.len() as int))
    }
}

fn is_sp_exec(c: char) -> (r: bool)
    ensures
        r == is_sp(c),
{
    c == ' ' || c == '\t' || c == '\n' || c == '\r' || c == '\u{b}' || c == '\u{c}'
}

/// Splits the characters of a line into its blank-separated fields.
#[verifier::rlimit(100)]
#[verifier::spinoff_prover]
fn tokenize(vc: &Vec<char>) -> (toks: Vec<Vec<char>>)
    ensures
        toks@.len() == tokens(vc@).len(),
        forall|k: int| 0 <= k < toks@.len() ==> (#[trigger] toks@[k])@ == tokens(vc@)[k],
{
    let n = vc.len();
    let mut toks: Vec<Vec<char>> = Vec::new();
    let ghost mut done: Seq<Seq<char>> = Seq::empty();
    let mut i: usize = 0;
    proof {
        assert(vc@.subrange(0, n as int) =~= vc@);
    }
    while i < n
        invariant
            i <= n,
            n == vc@.len(),
            done + tokens(vc@.subrange(i as int, n as int)) =~= tokens(vc@),
            toks@.len() == done.len(),
            forall|k: int| 0 <= k < done.len() ==> (#[trigger] toks@[k])@ == done[k],
        decreases n - i,
    {
        let c = vc[i];
        if is_sp_exec(c) {
            proof {
                assert(vc@.subrange(i as int, n as int).drop_first() =~= vc@.subrange(
                    i as int + 1,
                    n as int,
                ));
            }
            i = i + 1;
        } else {
            let start = i;
            let mut j = i + 1;
            loop
                invariant
                    start < j <= n,
                    n == vc@.len(),
                    !is_sp(vc@[start as int]),
                    forall|t: int| start <= t < j ==> !is_sp(#[trigger] vc@[t]),
                ensures
                    start < j <= n,
                    forall|t: int| start <= t < j ==> !is_sp(#[trigger] vc@[t]),
                    j == n || is_sp(vc@[j as int]),
                decreases n - j,
            {
                if j >= n {
                    break;
                }
                if is_sp_exec(vc[j]) {
                    break;
                }
                j = j + 1;
            }
            let mut tok: Vec<char> = Vec::new();
            let mut p = start;
            while p < j
                invariant
                    start <= p <= j <= n,
                    n == vc@.len(),
                    tok@ =~= vc@.subrange(start as int, p as int),
                decreases j - p,
            {
                tok.push(vc[p]);
                proof {
                    assert(tok@ =~= vc@.subrange(start as int, p as int + 1));
                }
                p = p + 1;
            }
            proof {
                let rest = vc@.subrange(start as int, n as int);
                assert(rest.len() == n - start);
                assert forall|t: int| 0 <= t < j - start implies !is_sp(#[trigger] rest[t]) by {
                    assert(rest[t] == vc@[start + t]);
                }
                if j < n {
                    assert(is_sp(rest[j - start]));
                }
                lemma_run_len_exact(rest, j as int - start);
                assert(rest.drop_first() =~= vc@.subrange(start as int + 1, n as int));
                assert(tokens(rest) == seq![rest.subrange(0, j as int - start)] + tokens(
                    rest.subrange(j as int - start, rest.len() as int),
                ));
                assert(rest.subrange(0, j as int - start) =~= vc@.subrange(
                    start as int,
                    j as int,
                ));
                assert(rest.subrange(j as int - start, rest.len() as int) =~= vc@.subrange(
                    j as int,
                    n as int,
                ));
                assert(tok@ =~= vc@.subrange(start as int, j as int));
                assert((done + tokens(rest)) =~= (done.push(tok@) + tokens(
                    vc@.subrange(j as int, n as int),
                )));
                done = done.push(tok@);
            }
            toks.push(tok);
            i = j;
        }
    }
    proof {
        assert(vc@.subrange(n as int, n as int) =~= Seq::<char>::empty());
        assert(done =~= tokens(vc@));
    }
    toks
}

/// One region of the process's memory map: its bounds, its protection and
/// what backs it. Reading the map file is the caller's; splitting a line of
/// it into this record is `parse_maps_line`.
#[derive(Debug, Clone)]
pub struct ProcMap {
    pub start_address: u64,
    pub end_address: u64,
    pub length: usize,
    pub protection: i32,
    pub readable: bool,
    pub writeable: bool,
    pub executable: bool,
    pub is_private: bool,
    pub is_shared: bool,
    pub is_ro: bool,
    pub is_rw: bool,
    pub is_rx: bool,
    pub offset: u64,
    pub dev: String,
    pub inode: u64,
    pub pathname: String,
}

impl ProcMap {
    /// The empty region: every field zeroed, both names empty.
    pub fn new() -> (r: Self)
        ensures
            r.start_address == 0,
            r.end_address == 0,
            r.length == 0,
            r.protection == 0,
            !r.readable && !r.writeable && !r.executable,
            !r.is_private && !r.is_shared,
            !r.is_ro && !r.is_rw && !r.is_rx,
            r.offset == 0,
            r.dev@.len() == 0,
            r.inode == 0,
            r.pathname@.len() == 0,
    {
        ProcMap {
            start_address: 0,
            end_address: 0,
            length: 0,
            protection: 0,
            readable: false,
            writeable: false,
            executable: false,
            is_private: false,
            is_shared: false,
            is_ro: false,
            is_rw: false,
            is_rx: false,
            offset: 0,
            dev: String::new(),
            inode: 0,
            pathname: String::new(),
        }
    }

    /// A region is valid exactly when it has a length.
    pub fn is_valid(&self) -> (r: bool)
        ensures
            r == (self.length > 0),
    {
        self.length > 0
    }

    /// A region is unknown exactly when nothing backs it by name.
    pub fn is_unknown(&self) -> (r: bool)
        ensures
            r == (self.pathname@.len() == 0),
    {
        self.pathname.as_str().is_empty()
    }
}


/// The value of a hexadecimal digit character.
pub open spec fn hex_val_c(c: char) -> int {
    if 48 <= c as u32 && c as u32 <= 57 { c as u32 - 48 }
    else if 97 <= c as u32 && c as u32 <= 102 { c as u32 - 87 }
    else if 65 <= c as u32 && c as u32 <= 70 { c as u32 - 55 }
    else { 0 }
}

/// The value of a string of hexadecimal digit characters, most significant
/// first.
pub open spec fn hex_value_c(s: Seq<char>) -> int
    decreases s.len(),
{
    if s.len() == 0 {
        0
    } else {
        16 * hex_value_c(s.drop_last()) + hex_val_c(s.last())
    }
}

pub open spec fn all_hex_c(s: Seq<char>) -> bool {
    forall|i: int| 0 <= i < s.len() ==> crate::kitty_utils::is_hex_digit(#[trigger] s[i])
}

/// A field that parses as a hexadecimal address.
pub open spec fn hex_ok_c(s: Seq<char>) -> bool {
    s.len() > 0 && all_hex_c(s) && hex_value_c(s) <= u64::MAX
}

proof fn lemma_hex_value_c_nonneg(s: Seq<char>)
    ensures
        hex_value_c(s) >= 0,
    decreases s.len(),
{
    if s.len() > 0 {
        lemma_hex_value_c_nonneg(s.drop_last());
    }
}

/// A longer prefix of a hex field never has a smaller value.
proof fn lemma_hex_value_c_prefix(s: Seq<char>, i: int, j: int)
    requires
        0 <= i <= j <= s.len(),
    ensures
        hex_value_c(s.subrange(0, i)) <= hex_value_c(s.subrange(0, j)),
    decreases j - i,
{
    if i < j {
        lemma_hex_value_c_prefix(s, i, j - 1);
        let p = s.subrange(0, j - 1);
        assert(s.subrange(0, j).drop_last() =~= p);
        lemma_hex_value_c_nonneg(p);
        assert(16 * hex_value_c(p) >= hex_value_c(p)) by (nonlinear_arith)
            requires hex_value_c(p) >= 0,
        ;
    }
}

/// Parses the characters `t[lo..hi]` as a hexadecimal number: every
/// character a hex digit, nonempty, and within the address type.
fn parse_hex_u64(t: &Vec<char>, lo: usize, hi: usize) -> (r: Option<u64>)
    requires
        lo <= hi <= t@.len(),
    ensures
        r is Some <==> hex_ok_c(t@.subrange(lo as int, hi as int)),
        r matches Some(v) ==> v == hex_value_c(t@.subrange(lo as int, hi as int)),
{
    let ghost body = t@.subrange(lo as int, hi as int);
    if lo == hi {
        return None;
    }
    let mut acc: u64 = 0;
    let mut i: usize = lo;
    while i < hi
        invariant
            lo <= i <= hi <= t@.len(),
            body == t@.subrange(lo as int, hi as int),
            lo < hi,
            acc == hex_value_c(t@.subrange(lo as int, i as int)),
            all_hex_c(t@.subrange(lo as int, i as int)),
        decreases hi - i,
    {
        let c = t[i];
        let u = c as u32;
        proof {
            assert(t@.subrange(lo as int, i as int + 1).drop_last() =~= t@.subrange(
                lo as int,
                i as int,
            ));
            assert(t@.subrange(lo as int, i as int + 1).last() == t@[i as int]);
        }
        let digit = (48 <= u && u <= 57) || (97 <= u && u <= 102) || (65 <= u && u <= 70);
        if !digit {
            proof {
                assert(body[i - lo] == t@[i as int]);
                assert(!all_hex_c(body));
            }
            return None;
        }
        let v: u64 = if 48 <= u && u <= 57 {
            (u - 48) as u64
        } else if 97 <= u && u <= 102 {
            (u - 87) as u64
        } else {
            (u - 55) as u64
        };
        if acc > (u64::MAX - v) / 16 {
            // the digits so far already overflow the address type
            proof {
                lemma_hex_value_c_nonneg(t@.subrange(lo as int, i as int));
                assert(16 * acc + v > u64::MAX) by (nonlinear_arith)
                    requires acc > (u64::MAX - v) / 16, v < 16, acc >= 0,
                ;
                lemma_hex_value_c_prefix(body, i as int + 1 - lo, body.len() as int);
                assert(body.subrange(0, i as int + 1 - lo) =~= t@.subrange(
                    lo as int,
                    i as int + 1,
                ));
                assert(body.subrange(0, body.len() as int) =~= body);
            }
            return None;
        }
        proof {
            assert(acc <= (u64::MAX - v) / 16 ==> 16 * acc + v <= u64::MAX)
                by (nonlinear_arith)
                requires v < 16,
            ;
        }
        acc = 16 * acc + v;
        i = i + 1;
    }
    proof {
        assert(t@.subrange(lo as int, hi as int) =~= body);
    }
    Some(acc)
}

/// The value of a decimal digit string, most significant first.
pub open spec fn dec_value_c(s: Seq<char>) -> int
    decreases s.len(),
{
    if s.len() == 0 {
        0
    } else {
        10 * dec_value_c(s.drop_last()) + (if 48 <= s.last() as u32 && s.last() as u32 <= 57 {
            s.last() as u32 - 48
        } else {
            0int
        })
    }
}

pub open spec fn all_dec_c(s: Seq<char>) -> bool {
    forall|i: int| 0 <= i < s.len() ==> 48 <= (#[trigger] s[i]) as u32 && s[i] as u32 <= 57
}

/// A field that parses as a decimal number within the counter type.
pub open spec fn dec_ok_c(s: Seq<char>) -> bool {
    s.len() > 0 && all_dec_c(s) && dec_value_c(s) <= u64::MAX
}

proof fn lemma_dec_value_c_nonneg(s: Seq<char>)
    ensures
        dec_value_c(s) >= 0,
    decreases s.len(),
{
    if s.len() > 0 {
        lemma_dec_value_c_nonneg(s.drop_last());
    }
}

proof fn lemma_dec_value_c_prefix(s: Seq<char>, i: int, j: int)
    requires
        0 <= i <= j <= s.len(),
    ensures
        dec_value_c(s.subrange(0, i)) <= dec_value_c(s.subrange(0, j)),
    decreases j - i,
{
    if i < j {
        lemma_dec_value_c_prefix(s, i, j - 1);
        let p = s.subrange(0, j - 1);
        assert(s.subrange(0, j).drop_last() =~= p);
        lemma_dec_value_c_nonneg(p);
        assert(10 * dec_value_c(p) >= dec_value_c(p)) by (nonlinear_arith)
            requires dec_value_c(p) >= 0,
        ;
    }
}

/// Parses a decimal field, and zero for anything malformed or overflowing.
fn parse_dec_or_zero(t: &Vec<char>) -> (r: u64)
    ensures
        r == if dec_ok_c(t@) { dec_value_c(t@) } else { 0int },
{
    let n = t.len();
    if n == 0 {
        return 0;
    }
    let mut acc: u64 = 0;
    let mut i: usize = 0;
    proof {
        assert(t@.subrange(0, 0) =~= Seq::<char>::empty());
    }
    while i < n
        invariant
            i <= n,
            n == t@.len(),
            acc == dec_value_c(t@.subrange(0, i as int)),
            all_dec_c(t@.subrange(0, i as int)),
        decreases n - i,
    {
        let c = t[i];
        let u = c as u32;
        proof {
            assert(t@.subrange(0, i as int + 1).drop_last() =~= t@.subrange(0, i as int));
            assert(t@.subrange(0, i as int + 1).last() == t@[i as int]);
        }
        if !(48 <= u && u <= 57) {
            proof {
                assert(!all_dec_c(t@));
            }
            return 0;
        }
        let v: u64 = (u - 48) as u64;
        if acc > (u64::MAX - v) / 10 {
            proof {
                lemma_dec_value_c_nonneg(t@.subrange(0, i as int));
                assert(10 * acc + v > u64::MAX) by (nonlinear_arith)
                    requires acc > (u64::MAX - v) / 10, v < 10, acc >= 0,
                ;
                lemma_dec_value_c_prefix(t@, i as int + 1, t@.len() as int);
                assert(t@.subrange(0, t@.len() as int) =~= t@);
            }
            return 0;
        }
        proof {
            assert(acc <= (u64::MAX - v) / 10 ==> 10 * acc + v <= u64::MAX)
                by (nonlinear_arith)
                requires v < 10,
            ;
        }
        acc = 10 * acc + v;
        i = i + 1;
    }
    proof {
        assert(t@.subrange(0, t@.len() as int) =~= t@);
    }
    acc
}

/// The index of the first occurrence of `c` in `t`, or one past the end.
pub open spec fn find_idx(t: Seq<char>, c: char) -> int
    decreases t.len(),
{
    if t.len() == 0 {
        0
    } else if t[0] == c {
        0
    } else {
        1 + find_idx(t.drop_first(), c)
    }
}

proof fn lemma_find_idx_exact(t: Seq<char>, c: char, m: int)
    requires
        0 <= m <= t.len(),
        forall|k: int| 0 <= k < m ==> (#[trigger] t[k]) != c,
        m == t.len() || t[m] == c,
    ensures
        find_idx(t, c) == m,
    decreases m,
{
    if m > 0 {
        lemma_find_idx_exact(t.drop_first(), c, m - 1);
    }
}

/// The first position of `c` in `t`, told apart from its absence.
fn find_char(t: &Vec<char>, c: char) -> (r: (bool, usize))
    ensures
        r.0 <==> find_idx(t@, c) < t@.len(),
        r.0 <==> t@.contains(c),
        r.0 ==> r.1 < t@.len() && t@[r.1 as int] == c && r.1 == find_idx(t@, c)
            && (forall|k: int| 0 <= k < r.1 ==> (#[trigger] t@[k]) != c),
        !r.0 ==> forall|k: int| 0 <= k < t@.len() ==> (#[trigger] t@[k]) != c,
{
    let mut i: usize = 0;
    while i < t.len()
        invariant
            i <= t@.len(),
            forall|k: int| 0 <= k < i ==> (#[trigger] t@[k]) != c,
        decreases t@.len() - i,
    {
        if t[i] == c {
            proof {
                lemma_find_idx_exact(t@, c, i as int);
            }
            return (true, i);
        }
        i = i + 1;
    }
    proof {
        lemma_find_idx_exact(t@, c, t@.len() as int);
    }
    (false, 0)
}

fn contains_char(t: &Vec<char>, c: char) -> (r: bool)
    ensures
        r == t@.contains(c),
{
    let (found, _) = find_char(t, c);
    found
}

/// The fields from `from` on, joined with single blanks.
pub open spec fn join_from(ts: Seq<Seq<char>>, from: int) -> Seq<char>
    decreases ts.len() - from,
{
    if from < 0 || from >= ts.len() {
        Seq::empty()
    } else if from == ts.len() - 1 {
        ts[from]
    } else {
        ts[from] + seq![' '] + join_from(ts, from + 1)
    }
}

/// The fields of `toks`, as character sequences.
pub open spec fn views_of(toks: Seq<Vec<char>>) -> Seq<Seq<char>> {
    Seq::new(toks.len(), |k: int| toks[k]@)
}

/// Builds a string from a field.
fn string_of(t: &Vec<char>) -> (r: String)
    ensures
        r@ == t@,
{
    let mut out = String::new();
    let mut i: usize = 0;
    while i < t.len()
        invariant
            i <= t@.len(),
            out@ =~= t@.subrange(0, i as int),
        decreases t@.len() - i,
    {
        out.push(t[i]);
        proof {
            assert(out@ =~= t@.subrange(0, i as int + 1));
        }
        i = i + 1;
    }
    proof {
        assert(out@ =~= t@);
    }
    out
}

/// Joins the fields from `from` on with single blanks.
#[verifier::rlimit(100)]
#[verifier::spinoff_prover]
fn join_fields(toks: &Vec<Vec<char>>, from: usize) -> (r: String)
    ensures
        r@ == join_from(views_of(toks@), from as int),
{
    let ghost v = views_of(toks@);
    let mut out = String::new();
    let mut k = from;
    proof {
        assert(out@ + Seq::<char>::empty() + join_from(v, from as int) =~= join_from(
            v,
            from as int,
        ));
    }
    while k < toks.len()
        invariant
            from <= k,
            k <= toks@.len() || k == from,
            v == views_of(toks@),
            out@ + (if from <= k && k < toks@.len() && k > from { seq![' '] } else {
                Seq::<char>::empty()
            }) + join_from(v, k as int) =~= join_from(v, from as int),
        decreases toks@.len() - k,
    {
        if k > from {
            out.push(' ');
        }
        let ghost before = out@;
        let t = &toks[k];
        let mut i: usize = 0;
        while i < t.len()
            invariant
                i <= t@.len(),
                t@ == toks@[k as int]@,
                out@ =~= before + t@.subrange(0, i as int),
            decreases t@.len() - i,
        {
            out.push(t[i]);
            proof {
                assert(out@ =~= before + t@.subrange(0, i as int + 1));
            }
            i = i + 1;
        }
        proof {
            assert(t@.subrange(0, t@.len() as int) =~= t@);
            assert(v[k as int] == toks@[k as int]@);
            if k as int == v.len() - 1 {
                assert(join_from(v, k as int) == v[k as int]);
                assert(out@ =~= join_from(v, from as int));
            } else {
                assert(join_from(v, k as int) == v[k as int] + seq![' '] + join_from(
                    v,
                    k as int + 1,
                ));
            }
        }
        k = k + 1;
    }
    out
}

/// The left half of the address field: what stands before the first dash.
pub open spec fn addr_left(ts: Seq<Seq<char>>) -> Seq<char> {
    ts[0].subrange(0, find_idx(ts[0], '-'))
}

/// The right half of the address field: what stands after the first dash.
pub open spec fn addr_right(ts: Seq<Seq<char>>) -> Seq<char> {
    ts[0].subrange(find_idx(ts[0], '-') + 1, ts[0].len() as int)
}

/// A line parses when it has at least five fields, its first field splits
/// at a dash into two hexadecimal addresses, and its offset field is
/// hexadecimal too.
pub open spec fn line_ok(ts: Seq<Seq<char>>) -> bool {
    &&& ts.len() >= 5
    &&& find_idx(ts[0], '-') < ts[0].len()
    &&& hex_ok_c(addr_left(ts))
    &&& hex_ok_c(addr_right(ts))
    &&& hex_ok_c(ts[2])
}

/// Splits one line of the map text into the fields of a region record. The
/// protection bits use the conventional values: one for read, two for
/// write, four for execute.
#[verifier::rlimit(100)]
#[verifier::spinoff_prover]
pub fn parse_maps_line(line: &str) -> (r: Option<ProcMap>)
    requires
        line_ok(tokens(line@)) ==> {
            let ts = tokens(line@);
            &&& hex_value_c(addr_left(ts)) <= hex_value_c(addr_right(ts))
            &&& hex_value_c(addr_right(ts)) - hex_value_c(addr_left(ts)) <= usize::MAX
        },
    ensures
        r is Some <==> line_ok(tokens(line@)),
        r matches Some(m) ==> {
            let ts = tokens(line@);
            let perms = ts[1];
            &&& m.start_address == hex_value_c(addr_left(ts))
            &&& m.end_address == hex_value_c(addr_right(ts))
            &&& m.length == hex_value_c(addr_right(ts)) - hex_value_c(addr_left(ts))
            &&& m.offset == hex_value_c(ts[2])
            &&& m.readable == perms.contains('r')
            &&& m.writeable == perms.contains('w')
            &&& m.executable == perms.contains('x')
            &&& m.is_private == perms.contains('p')
            &&& m.is_shared == perms.contains('s')
            &&& m.protection == (if perms.contains('r') { 1int } else { 0int }) + (
                if perms.contains('w') { 2int } else { 0int }) + (
                if perms.contains('x') { 4int } else { 0int })
            &&& m.is_ro == (perms =~= seq!['r', '-', '-', 'p'] || perms =~= seq![
                'r', '-', '-', 's',
            ])
            &&& m.is_rw == (perms.len() >= 2 && perms[0] == 'r' && perms[1] == 'w')
            &&& m.is_rx == (perms.len() >= 3 && perms[0] == 'r' && perms[1] == '-' && perms[2]
                == 'x')
            &&& m.dev@ == ts[3]
            &&& m.inode == (if dec_ok_c(ts[4]) { dec_value_c(ts[4]) } else { 0int })
            &&& m.pathname@ == join_from(ts, 5)
        },
{
    broadcast use vstd::string::group_string_axioms;

    let ghost all = line@;
    // gather the characters and split them into fields
    let mut vc: Vec<char> = Vec::new();
    let mut it = line.chars();
    proof {
        assert(vc@ + it.remaining() =~= all);
    }
    loop
        invariant
            it.decrease() is Some,
            vc@ + it.remaining() =~= all,
        ensures
            vc@ =~= all,
        decreases it.decrease()->0,
    {
        match it.next() {
            Some(c) => {
                let ghost pre = vc@;
                vc.push(c);
                proof {
                    assert(pre.push(c) + it.remaining() =~= all);
                }
            },
            None => {
                proof {
                    assert(vc@ =~= all);
                }
                break;
            },
        }
    }
    let toks = tokenize(&vc);
    let ghost ts = tokens(all);
    proof {
        assert(views_of(toks@) =~= ts);
    }
    if toks.len() < 5 {
        return None;
    }
    proof {
        assert(toks@[0]@ == ts[0]);
        assert(toks@[1]@ == ts[1]);
        assert(toks@[2]@ == ts[2]);
        assert(toks@[3]@ == ts[3]);
        assert(toks@[4]@ == ts[4]);
    }

    let (has_dash, dash) = find_char(&toks[0], '-');
    if !has_dash {
        return None;
    }
    let start_v = match parse_hex_u64(&toks[0], 0, dash) {
        Some(v) => v,
        None => {
            proof {
                assert(toks@[0]@.subrange(0, dash as int) =~= addr_left(ts));
            }
            return None;
        },
    };
    proof {
        assert(toks@[0]@.subrange(0, dash as int) =~= addr_left(ts));
    }
    let t0len = toks[0].len();
    let end_v = match parse_hex_u64(&toks[0], dash + 1, t0len) {
        Some(v) => v,
        None => {
            proof {
                assert(toks@[0]@.subrange(dash as int + 1, t0len as int) =~= addr_right(ts));
            }
            return None;
        },
    };
    proof {
        assert(toks@[0]@.subrange(dash as int + 1, t0len as int) =~= addr_right(ts));
    }
    let t2len = toks[2].len();
    let offset_v = match parse_hex_u64(&toks[2], 0, t2len) {
        Some(v) => v,
        None => {
            proof {
                assert(toks@[2]@.subrange(0, t2len as int) =~= ts[2]);
            }
            return None;
        },
    };
    proof {
        assert(toks@[2]@.subrange(0, t2len as int) =~= ts[2]);
        assert(line_ok(ts));
    }

    let perms = &toks[1];
    let pr = contains_char(perms, 'r');
    let pw = contains_char(perms, 'w');
    let px = contains_char(perms, 'x');
    let pp = contains_char(perms, 'p');
    let ps = contains_char(perms, 's');
    let protection: i32 = (if pr { 1 } else { 0 }) + (if pw { 2 } else { 0 }) + (if px {
        4
    } else {
        0
    });
    let is_ro = perms.len() == 4 && perms[0] == 'r' && perms[1] == '-' && perms[2] == '-' && (
        perms[3] == 'p' || perms[3] == 's');
    let is_rw = perms.len() >= 2 && perms[0] == 'r' && perms[1] == 'w';
    let is_rx = perms.len() >= 3 && perms[0] == 'r' && perms[1] == '-' && perms[2] == 'x';
    proof {
        let p = ts[1];
        if is_ro {
            if perms@[3] == 'p' {
                assert(p =~= seq!['r', '-', '-', 'p']);
            } else {
                assert(p =~= seq!['r', '-', '-', 's']);
            }
        } else {
            if p =~= seq!['r', '-', '-', 'p'] {
                assert(p.len() == 4 && p[0] == 'r' && p[1] == '-' && p[2] == '-' && p[3] == 'p');
            }
            if p =~= seq!['r', '-', '-', 's'] {
                assert(p.len() == 4 && p[0] == 'r' && p[1] == '-' && p[2] == '-' && p[3] == 's');
            }
        }
    }

    let dev = string_of(&toks[3]);
    let inode = parse_dec_or_zero(&toks[4]);
    let pathname = join_fields(&toks, 5);

    Some(ProcMap {
        start_address: start_v,
        end_address: end_v,
        length: (end_v - start_v) as usize,
        protection,
        readable: pr,
        writeable: pw,
        executable: px,
        is_private: pp,
        is_shared: ps,
        is_ro,
        is_rw,
        is_rx,
        offset: offset_v,
        dev,
        inode,
        pathname,
    })
}

} // verus!
