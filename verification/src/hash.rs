//! Plain-value model of 32-byte chain hashes (block, transaction and code
//! hashes), with byte-exact equality.

use vstd::prelude::*;

verus! {

/// A 32-byte chain hash.
#[derive(Clone, Copy, Debug)]
pub struct Hash256 {
    pub bytes: [u8; 32],
}

impl View for Hash256 {
    type V = Seq<u8>;

    open spec fn view(&self) -> Seq<u8> {
        self.bytes@
    }
}

impl Hash256 {
    pub fn new(bytes: [u8; 32]) -> (h: Hash256)
        ensures
            h@ == bytes@,
    {
        Hash256 { bytes }
    }

    /// Byte-for-byte equality of two hashes.
    pub fn equals(&self, other: &Hash256) -> (r: bool)
        ensures
            r == (self@ == other@),
    {
        let mut i: usize = 0;
        while i < 32
            invariant
                i <= 32,
                forall|j: int| 0 <= j < i ==> self.bytes@[j] == other.bytes@[j],
            decreases 32 - i,
        {
            if self.bytes[i] != other.bytes[i] {
                assert(self@[i as int] != other@[i as int]);
                return false;
            }
            i += 1;
        }
        proof {
            assert(self@ =~= other@);
        }
        true
    }

    /// Parse the manifest's hash spelling: an optional `0x` prefix followed
    /// by exactly 64 hexadecimal digits, two per byte, high digit first.
    pub fn from_hex(text: &[u8]) -> (r: Option<Hash256>)
        ensures
            r is Some <==> spec_is_hash_hex(text@),
            r matches Some(h) ==> forall|i: int| 0 <= i < 32 ==> h@[i] == spec_hex_byte(text@, i),
    {
        let off: usize = if text.len() >= 2 && text[0] == 48 && text[1] == 120 {
            2
        } else {
            0
        };
        if text.len() != off + 64 {
            return None;
        }
        let mut bytes: [u8; 32] = [0; 32];
        let mut i: usize = 0;
        while i < 32
            invariant
                i <= 32,
                off == spec_hex_prefix_len(text@),
                text@.len() == off + 64,
                forall|j: int|
                    off <= j < off + 2 * i ==> spec_is_hex_digit(#[trigger] text@[j]),
                forall|j: int| 0 <= j < i ==> bytes@[j] == spec_hex_byte(text@, j),
            decreases 32 - i,
        {
            let hi = match hex_digit_value(text[off + 2 * i]) {
                Some(v) => v,
                None => {
                    proof {
                        assert(!spec_is_hex_digit(text@[off + 2 * i]));
                    }
                    return None;
                },
            };
            let lo = match hex_digit_value(text[off + 2 * i + 1]) {
                Some(v) => v,
                None => {
                    proof {
                        assert(!spec_is_hex_digit(text@[off + 2 * i + 1]));
                    }
                    return None;
                },
            };
            bytes[i] = hi * 16 + lo;
            i += 1;
        }
        proof {
            assert(spec_is_hash_hex(text@));
        }
        Some(Hash256 { bytes })
    }
}

/// Whether a byte is an ASCII hexadecimal digit.
pub open spec fn spec_is_hex_digit(c: u8) -> bool {
    (48 <= c <= 57) || (65 <= c <= 70) || (97 <= c <= 102)
}

/// The value of an ASCII hexadecimal digit.
pub open spec fn spec_hex_value(c: u8) -> u8
    recommends
        spec_is_hex_digit(c),
{
    if 48 <= c <= 57 {
        (c - 48) as u8
    } else if 65 <= c <= 70 {
        (c - 55) as u8
    } else {
        (c - 87) as u8
    }
}

/// The length of the optional `0x` prefix of a hash spelling.
pub open spec fn spec_hex_prefix_len(t: Seq<u8>) -> int {
    if t.len() >= 2 && t[0] == 48 && t[1] == 120 {
        2
    } else {
        0
    }
}

/// Whether `t` spells a 32-byte hash: an optional `0x` prefix followed by
/// exactly 64 hexadecimal digits.
pub open spec fn spec_is_hash_hex(t: Seq<u8>) -> bool {
    let o = spec_hex_prefix_len(t);
    t.len() == o + 64 && forall|i: int| o <= i < t.len() ==> spec_is_hex_digit(#[trigger] t[i])
}

/// Byte `i` of the hash that `t` spells, high digit first.
pub open spec fn spec_hex_byte(t: Seq<u8>, i: int) -> u8
    recommends
        spec_is_hash_hex(t),
        0 <= i < 32,
{
    let o = spec_hex_prefix_len(t);
    (spec_hex_value(t[o + 2 * i]) * 16 + spec_hex_value(t[o + 2 * i + 1])) as u8
}

/// The value of one ASCII hexadecimal digit.
fn hex_digit_value(c: u8) -> (r: Option<u8>)
    ensures
        r is Some <==> spec_is_hex_digit(c),
        r matches Some(v) ==> v == spec_hex_value(c) && v < 16,
{
    if c >= 48 && c <= 57 {
        Some(c - 48)
    } else if c >= 65 && c <= 70 {
        Some(c - 55)
    } else if c >= 97 && c <= 102 {
        Some(c - 87)
    } else {
        None
    }
}

/// Byte-for-byte equality of two byte strings.
pub fn bytes_equal(a: &Vec<u8>, b: &Vec<u8>) -> (r: bool)
    ensures
        r == (a@ == b@),
{
    if a.len() != b.len() {
        return false;
    }
    let mut i: usize = 0;
    while i < a.len()
        invariant
            i <= a@.len(),
            a@.len() == b@.len(),
            forall|j: int| 0 <= j < i ==> a@[j] == b@[j],
        decreases a@.len() - i,
    {
        if a[i] != b[i] {
            assert(a@[i as int] != b@[i as int]);
            return false;
        }
        i += 1;
    }
    proof {
        assert(a@ =~= b@);
    }
    true
}

/// A fresh copy of a byte string.
pub fn copy_bytes(v: &Vec<u8>) -> (r: Vec<u8>)
    ensures
        r@ == v@,
{
    let mut out: Vec<u8> = Vec::new();
    let mut i: usize = 0;
    while i < v.len()
        invariant
            i <= v@.len(),
            out@ == v@.subrange(0, i as int),
        decreases v@.len() - i,
    {
        out.push(v[i]);
        i += 1;
        proof {
            assert(out@ =~= v@.subrange(0, i as int));
        }
    }
    proof {
        assert(v@.subrange(0, v@.len() as int) =~= v@);
    }
    out
}

} // verus!
