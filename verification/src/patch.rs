use vstd::prelude::*;

use vstd::string::StringSliceAdditionalSpecFns;
use vstd::utf8::is_ascii_chars;

use crate::kitty_utils;
use crate::kitty_utils::hex_seq;

verus! {

broadcast use vstd::string::group_string_axioms, vstd::utf8::char_u32_cast;

/// The characters of an all-ASCII sequence read as bytes.
pub open spec fn ascii_of(s: Seq<char>) -> Seq<u8> {
    Seq::new(s.len(), |i: int| s[i] as u8)
}

/// A sequence cut or zero-padded to length `n`.
pub open spec fn sized_to(s: Seq<u8>, n: int) -> Seq<u8> {
    Seq::new(n as nat, |i: int| if i < s.len() { s[i] } else { 0u8 })
}

/// A hex-digit character sequence is ASCII, and its bytes are its
/// characters.
pub proof fn lemma_hex_chars_ascii(st: &str)
    requires
        forall|i: int| 0 <= i < st@.len() ==> kitty_utils::is_hex_digit(#[trigger] st@[i]),
    ensures
        st.spec_bytes() =~= ascii_of(st@),
{
    assert forall|i: int| 0 <= i < st@.len() implies '\0' <= #[trigger] st@[i] <= '\u{7f}' by {
        let c = st@[i];
        assert(kitty_utils::is_hex_digit(c));
        assert(c as u32 <= 0x7f);
        assert(('\u{7f}' as char) as u32 == 0x7f);
        vstd::utf8::char_u32_cast(c, c as u32);
        assert((c as u32) as char == c);
        assert(('\0' as u32) == 0);
        assert('\0' <= c && c <= '\u{7f}');
    }
    assert(is_ascii_chars(st@));
    assert(vstd::string::is_ascii(st));
}

/// A saved copy of the bytes at a target address, taken before a patch so
/// they can be re-applied. Reading and writing the process's memory is the
/// caller's; this type holds the addresses and bytes and their rules.
pub struct MemoryBackup {
    address: usize,
    size: usize,
    orig_code: Vec<u8>,
}

impl MemoryBackup {
    pub closed spec fn spec_address(&self) -> int {
        self.address as int
    }

    pub closed spec fn spec_size(&self) -> int {
        self.size as int
    }

    pub closed spec fn spec_orig(&self) -> Seq<u8> {
        self.orig_code@
    }

    /// The empty, invalid backup.
    pub fn new() -> (r: Self)
        ensures
            r.spec_address() == 0,
            r.spec_size() == 0,
            r.spec_orig().len() == 0,
    {
        MemoryBackup { address: 0, size: 0, orig_code: Vec::new() }
    }

    /// A backup of `backup_size` bytes at `address`, whose current content
    /// the caller has read into `current`. A zero address or an empty size
    /// gives the invalid backup.
    pub fn from_absolute(address: usize, backup_size: usize, current: Vec<u8>) -> (r: Self)
        ensures
            address == 0 || backup_size < 1 ==> {
                &&& r.spec_address() == 0
                &&& r.spec_size() == 0
                &&& r.spec_orig().len() == 0
            },
            address != 0 && backup_size >= 1 ==> {
                &&& r.spec_address() == address
                &&& r.spec_size() == backup_size
                &&& r.spec_orig() == sized_to(current@, backup_size as int)
            },
    {
        if address == 0 || backup_size < 1 {
            return Self::new();
        }
        let mut orig_code = current;
        let ghost given = orig_code@;
        orig_code.resize(backup_size, 0);
        proof {
            assert(orig_code@ =~= sized_to(given, backup_size as int));
        }
        MemoryBackup { address, size: backup_size, orig_code }
    }

    /// A backup is valid when it has an address, a size, and exactly that
    /// many saved bytes.
    pub fn is_valid(&self) -> (r: bool)
        ensures
            r == (self.spec_address() != 0 && self.spec_size() > 0 && self.spec_orig().len()
                == self.spec_size()),
    {
        self.address != 0 && self.size > 0 && self.orig_code.len() == self.size
    }

    pub fn get_backup_size(&self) -> (r: usize)
        ensures
            r == self.spec_size(),
    {
        self.size
    }

    pub fn get_target_address(&self) -> (r: usize)
        ensures
            r == self.spec_address(),
    {
        self.address
    }

    /// The saved bytes as lowercase hex, or nothing while invalid.
    pub fn get_orig_bytes(&self) -> (r: String)
        ensures
            self.spec_address() != 0 && self.spec_size() > 0 && self.spec_orig().len()
                == self.spec_size() ==> r@ == hex_seq(self.spec_orig()),
            !(self.spec_address() != 0 && self.spec_size() > 0 && self.spec_orig().len()
                == self.spec_size()) ==> r@.len() == 0,
    {
        if !self.is_valid() {
            return String::new();
        }
        kitty_utils::to_hex(self.orig_code.as_slice())
    }
}

/// A patch to apply at a target address: the replacement bytes, and the
/// original bytes saved for restoring. As with `MemoryBackup`, the memory
/// reads and writes are the caller's.
pub struct MemoryPatch {
    address: usize,
    size: usize,
    orig_code: Vec<u8>,
    patch_code: Vec<u8>,
}

impl MemoryPatch {
    pub closed spec fn spec_address(&self) -> int {
        self.address as int
    }

    pub closed spec fn spec_size(&self) -> int {
        self.size as int
    }

    pub closed spec fn spec_orig(&self) -> Seq<u8> {
        self.orig_code@
    }

    pub closed spec fn spec_patch(&self) -> Seq<u8> {
        self.patch_code@
    }

    /// The empty, invalid patch.
    pub fn new() -> (r: Self)
        ensures
            r.spec_address() == 0,
            r.spec_size() == 0,
            r.spec_orig().len() == 0,
            r.spec_patch().len() == 0,
    {
        MemoryPatch { address: 0, size: 0, orig_code: Vec::new(), patch_code: Vec::new() }
    }

    /// A patch at `address` from the raw bytes `patch`, with `current` the
    /// bytes the caller read there. A zero address or an empty patch gives
    /// the invalid patch.
    pub fn from_absolute(address: usize, patch: &[u8], current: Vec<u8>) -> (r: Self)
        ensures
            address == 0 || patch@.len() == 0 ==> {
                &&& r.spec_address() == 0
                &&& r.spec_size() == 0
                &&& r.spec_orig().len() == 0
                &&& r.spec_patch().len() == 0
            },
            address != 0 && patch@.len() > 0 ==> {
                &&& r.spec_address() == address
                &&& r.spec_size() == patch@.len()
                &&& r.spec_patch() == patch@
                &&& r.spec_orig() == sized_to(current@, patch@.len() as int)
            },
    {
        if address == 0 || patch.len() == 0 {
            return Self::new();
        }
        let size = patch.len();
        let mut orig_code = current;
        let ghost given = orig_code@;
        orig_code.resize(size, 0);
        proof {
            assert(orig_code@ =~= sized_to(given, size as int));
        }
        let mut patch_code: Vec<u8> = Vec::new();
        let mut i: usize = 0;
        while i < patch.len()
            invariant
                i <= patch@.len(),
                patch_code@ =~= patch@.subrange(0, i as int),
            decreases patch@.len() - i,
        {
            patch_code.push(patch[i]);
            proof {
                assert(patch_code@ =~= patch@.subrange(0, i as int + 1));
            }
            i = i + 1;
        }
        proof {
            assert(patch_code@ =~= patch@);
        }
        MemoryPatch { address, size, orig_code, patch_code }
    }

    /// A patch at `address` given as a hex string (an optional `0x` prefix
    /// and blanks are dropped), with `current` the bytes the caller read
    /// there. A zero address or a malformed hex string gives the invalid
    /// patch.
    pub fn create_with_hex_absolute(address: usize, hex: &str, current: Vec<u8>) -> (r: Self)
        ensures
            ({
                let cleaned = kitty_utils::strip_0x(hex@).filter(kitty_utils::kept_pred());
                let wf = address != 0 && hex@.len() > 0 && cleaned.len() >= 2 && cleaned.len()
                    % 2 == 0 && (forall|i: int|
                    0 <= i < cleaned.len() ==> kitty_utils::is_hex_digit(#[trigger] cleaned[i]));
                &&& !wf ==> {
                    &&& r.spec_address() == 0
                    &&& r.spec_size() == 0
                    &&& r.spec_orig().len() == 0
                    &&& r.spec_patch().len() == 0
                }
                &&& wf ==> {
                    &&& r.spec_address() == address
                    &&& r.spec_size() == cleaned.len() / 2
                    &&& r.spec_patch() == kitty_utils::from_hex_seq(ascii_of(cleaned))
                    &&& r.spec_orig() == sized_to(current@, cleaned.len() as int / 2)
                }
            }),
    {
        let mut hex_mut = hex.to_owned();
        let ok = kitty_utils::validate_hex_string(&mut hex_mut);
        if address == 0 || !ok {
            return Self::new();
        }
        let st = hex_mut.as_str();
        proof {
            lemma_hex_chars_ascii(st);
            assert(st@ == kitty_utils::strip_0x(hex@).filter(kitty_utils::kept_pred()));
            assert(st.spec_bytes() =~= ascii_of(st@));
            assert(st.spec_bytes().len() == st@.len());
        }
        let size = st.as_bytes().len() / 2;
        let patch_code = kitty_utils::from_hex(st);
        let mut orig_code = current;
        let ghost given = orig_code@;
        orig_code.resize(size, 0);
        proof {
            assert(orig_code@ =~= sized_to(given, size as int));
        }
        MemoryPatch { address, size, orig_code, patch_code }
    }

    /// A patch is valid when it has an address, a size, and exactly that
    /// many bytes on both sides.
    pub fn is_valid(&self) -> (r: bool)
        ensures
            r == (self.spec_address() != 0 && self.spec_size() > 0 && self.spec_orig().len()
                == self.spec_size() && self.spec_patch().len() == self.spec_size()),
    {
        self.address != 0 && self.size > 0 && self.orig_code.len() == self.size
            && self.patch_code.len() == self.size
    }

    pub open spec fn spec_is_valid(&self) -> bool {
        self.spec_address() != 0 && self.spec_size() > 0 && self.spec_orig().len()
            == self.spec_size() && self.spec_patch().len() == self.spec_size()
    }

    pub fn get_patch_size(&self) -> (r: usize)
        ensures
            r == self.spec_size(),
    {
        self.size
    }

    pub fn get_target_address(&self) -> (r: usize)
        ensures
            r == self.spec_address(),
    {
        self.address
    }

    /// The saved original bytes as lowercase hex, or nothing while invalid.
    pub fn get_orig_bytes(&self) -> (r: String)
        ensures
            self.spec_is_valid() ==> r@ == hex_seq(self.spec_orig()),
            !self.spec_is_valid() ==> r@.len() == 0,
    {
        if !self.is_valid() {
            return String::new();
        }
        kitty_utils::to_hex(self.orig_code.as_slice())
    }

    /// The replacement bytes as lowercase hex, or nothing while invalid.
    pub fn get_patch_bytes(&self) -> (r: String)
        ensures
            self.spec_is_valid() ==> r@ == hex_seq(self.spec_patch()),
            !self.spec_is_valid() ==> r@.len() == 0,
    {
        if !self.is_valid() {
            return String::new();
        }
        kitty_utils::to_hex(self.patch_code.as_slice())
    }
}

} // verus!
