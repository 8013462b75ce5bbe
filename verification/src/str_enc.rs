use vstd::prelude::*;

use vstd::utf8::decode_utf8;
use vstd::utf8::valid_utf8;

use crate::text;

verus! {

/// The XOR of two byte sequences, over their common prefix.
pub open spec fn xor_bytes(a: Seq<u8>, b: Seq<u8>) -> Seq<u8> {
    Seq::new(if a.len() <= b.len() { a.len() } else { b.len() }, |i: int| a[i] ^ b[i])
}

/// A string held XOR-masked against a key, so the clear text never sits in
/// memory longer than a caller asks.
pub struct StrEnc {
    data: Vec<u8>,
}

impl StrEnc {
    /// The masked bytes this value holds.
    pub closed spec fn bytes(&self) -> Seq<u8> {
        self.data@
    }

    /// Masks `str_data` against `key`, byte by byte over their common
    /// prefix.
    pub fn new(str_data: &[u8], key: &[u8]) -> (r: Self)
        ensures
            r.bytes() == xor_bytes(str_data@, key@),
    {
        let len = if str_data.len() < key.len() { str_data.len() } else { key.len() };
        let mut data: Vec<u8> = Vec::new();
        let mut i: usize = 0;
        while i < len
            invariant
                i <= len,
                len == if str_data@.len() <= key@.len() { str_data@.len() } else { key@.len() },
                data@ =~= xor_bytes(str_data@, key@).subrange(0, i as int),
            decreases len - i,
        {
            data.push(str_data[i] ^ key[i]);
            proof {
                assert(data@ =~= xor_bytes(str_data@, key@).subrange(0, i as int + 1));
            }
            i = i + 1;
        }
        proof {
            assert(data@ =~= xor_bytes(str_data@, key@));
        }
        StrEnc { data }
    }

    /// The held bytes.
    pub fn as_bytes(&self) -> (r: &[u8])
        ensures
            r@ == self.bytes(),
    {
        self.data.as_slice()
    }

    /// The held bytes as a string, when they are valid UTF-8.
    pub fn as_str(&self) -> (r: Result<&str, core::str::Utf8Error>)
        ensures
            r is Ok <==> valid_utf8(self.bytes()),
            r matches Ok(s) ==> s@ == decode_utf8(self.bytes()),
    {
        core::str::from_utf8(self.data.as_slice())
    }

    /// The held bytes as a string, any invalid sequences replaced.
    pub fn to_string(&self) -> (r: String)
        ensures
            r@ == text::utf8_lossy(self.bytes()),
            valid_utf8(self.bytes()) ==> r@ == decode_utf8(self.bytes()),
    {
        text::utf8_lossy_to_string(self.data.as_slice())
    }
}

} // verus!
