//! The host's small string, as the tree's key type.
//!
//! The host stores keys in a small-string-optimised C++ string; the engine
//! only ever builds such strings from short ASCII identifiers, compares them,
//! and reads them back. Here the content is held as four 64-bit words packed
//! big-endian and padded with zero bytes, so that equality is plain field
//! equality and byte-wise lexicographic order is the integer order on the
//! word tuple. Strings are limited to 32 bytes without interior zero bytes,
//! which covers every identifier the host tables use.

use vstd::prelude::*;

use vstd::string::StringSliceAdditionalSpecFns;

use crate::structs::tll::Cmp;
use crate::structs::tll::TotalOrder;

verus! {

/// A fixed-capacity host string: up to 32 bytes, packed big-endian into
/// four words, zero-padded.
#[derive(PartialEq, Eq, Structural, Clone, Copy, Debug, Hash)]
pub struct EscadraString {
    /// Bytes 0 to 7.
    pub w0: u64,
    /// Bytes 8 to 15.
    pub w1: u64,
    /// Bytes 16 to 23.
    pub w2: u64,
    /// Bytes 24 to 31.
    pub w3: u64,
}

/// Byte `i` of `s`, zero beyond the end.
pub open spec fn byte_at(s: Seq<u8>, i: int) -> u8 {
    if 0 <= i < s.len() {
        s[i]
    } else {
        0
    }
}

/// Word `k` of the packed form of `s`: its bytes `8k .. 8k + 8`, big-endian.
pub open spec fn word_of(s: Seq<u8>, k: int) -> u64 {
    ((byte_at(s, 8 * k) as int) * 0x100000000000000 + (byte_at(s, 8 * k + 1) as int)
        * 0x1000000000000 + (byte_at(s, 8 * k + 2) as int) * 0x10000000000 + (byte_at(
        s,
        8 * k + 3,
    ) as int) * 0x100000000 + (byte_at(s, 8 * k + 4) as int) * 0x1000000 + (byte_at(
        s,
        8 * k + 5,
    ) as int) * 0x10000 + (byte_at(s, 8 * k + 6) as int) * 0x100 + (byte_at(
        s,
        8 * k + 7,
    ) as int)) as u64
}

/// The packed form of a byte sequence of at most 32 bytes.
pub open spec fn packed(s: Seq<u8>) -> EscadraString {
    EscadraString { w0: word_of(s, 0), w1: word_of(s, 1), w2: word_of(s, 2), w3: word_of(s, 3) }
}

/// Byte `i` of a packed string, recovered from its words.
pub open spec fn packed_byte(e: EscadraString, i: int) -> u8 {
    let w = if i < 8 {
        e.w0
    } else if i < 16 {
        e.w1
    } else if i < 24 {
        e.w2
    } else {
        e.w3
    };
    let sh = 7 - (i % 8);
    ((w as int / pow256(sh)) % 256) as u8
}

/// 256 to the power `e`, for `e` up to 7.
pub open spec fn pow256(e: int) -> int {
    if e <= 0 {
        1
    } else if e == 1 {
        0x100
    } else if e == 2 {
        0x10000
    } else if e == 3 {
        0x1000000
    } else if e == 4 {
        0x100000000
    } else if e == 5 {
        0x10000000000
    } else if e == 6 {
        0x1000000000000
    } else {
        0x100000000000000
    }
}

/// Length of the stored string: bytes before the first zero byte.
pub open spec fn packed_len_from(e: EscadraString, i: int) -> int
    decreases 32 - i,
{
    if i < 0 || i >= 32 {
        32
    } else if packed_byte(e, i) == 0 {
        i
    } else {
        packed_len_from(e, i + 1)
    }
}

impl EscadraString {
    /// The empty string: all words zero.
    pub fn empty() -> (r: EscadraString)
        ensures
            r == packed(Seq::<u8>::empty()),
    {
        let r = EscadraString { w0: 0, w1: 0, w2: 0, w3: 0 };
        proof {
            assert(word_of(Seq::<u8>::empty(), 0) == 0);
            assert(word_of(Seq::<u8>::empty(), 1) == 0);
            assert(word_of(Seq::<u8>::empty(), 2) == 0);
            assert(word_of(Seq::<u8>::empty(), 3) == 0);
        }
        r
    }

    /// Build a host string from an identifier of at most 32 bytes; every
    /// identifier used with the host is shorter.
    pub fn from(s: &str) -> (r: EscadraString)
        requires
            s.spec_bytes().len() <= 32,
        ensures
            r == packed(s.spec_bytes()),
    {
        let b = s.as_bytes();
        EscadraString {
            w0: pack_word(b, 0),
            w1: pack_word(b, 1),
            w2: pack_word(b, 2),
            w3: pack_word(b, 3),
        }
    }

    /// The stored bytes, up to the first zero byte.
    pub fn get_str(&self) -> (r: Vec<u8>)
        ensures
            r@.len() == packed_len_from(*self, 0),
            forall|i: int| 0 <= i < r@.len() ==> r@[i] == packed_byte(*self, i),
    {
        let mut r: Vec<u8> = Vec::new();
        let mut i: usize = 0;
        let ghost me = *self;
        while i < 32
            invariant
                i <= 32,
                r@.len() == i,
                forall|j: int| 0 <= j < i ==> r@[j] == packed_byte(me, j),
                packed_len_from(me, 0) == packed_len_from(me, i as int),
                me == *self,
            ensures
                r@.len() == packed_len_from(me, 0),
                forall|j: int| 0 <= j < r@.len() ==> r@[j] == packed_byte(me, j),
            decreases 32 - i,
        {
            let b = self.byte(i);
            if b == 0 {
                proof {
                    assert(packed_len_from(me, i as int) == i);
                }
                break ;
            }
            r.push(b);
            i = i + 1;
            proof {
                assert(packed_len_from(me, i - 1) == packed_len_from(me, i as int));
            }
        }
        r
    }

    /// Byte `i` of the packed content.
    pub fn byte(&self, i: usize) -> (r: u8)
        requires
            i < 32,
        ensures
            r == packed_byte(*self, i as int),
    {
        let w = if i < 8 {
            self.w0
        } else if i < 16 {
            self.w1
        } else if i < 24 {
            self.w2
        } else {
            self.w3
        };
        let sh = 7 - (i % 8);
        let d: u64 = if sh == 0 {
            1
        } else if sh == 1 {
            0x100
        } else if sh == 2 {
            0x10000
        } else if sh == 3 {
            0x1000000
        } else if sh == 4 {
            0x100000000
        } else if sh == 5 {
            0x10000000000
        } else if sh == 6 {
            0x1000000000000
        } else {
            0x100000000000000
        };
        proof {
            assert(d == pow256(7 - (i as int % 8)));
        }
        ((w / d) % 256) as u8
    }
}

/// Pack eight bytes of `b`, starting at `8 * k`, into one big-endian word.
fn pack_word(b: &[u8], k: usize) -> (w: u64)
    requires
        k <= 3,
    ensures
        w == word_of(b@, k as int),
{
    let base = 8 * k;
    let b0 = byte_or_zero(b, base);
    let b1 = byte_or_zero(b, base + 1);
    let b2 = byte_or_zero(b, base + 2);
    let b3 = byte_or_zero(b, base + 3);
    let b4 = byte_or_zero(b, base + 4);
    let b5 = byte_or_zero(b, base + 5);
    let b6 = byte_or_zero(b, base + 6);
    let b7 = byte_or_zero(b, base + 7);
    let w = (b0 as u64) * 0x100000000000000 + (b1 as u64) * 0x1000000000000 + (b2 as u64)
        * 0x10000000000 + (b3 as u64) * 0x100000000 + (b4 as u64) * 0x1000000 + (b5 as u64)
        * 0x10000 + (b6 as u64) * 0x100 + (b7 as u64);
    w
}

/// Byte `i` of the slice, or zero past its end.
fn byte_or_zero(b: &[u8], i: usize) -> (r: u8)
    ensures
        r == byte_at(b@, i as int),
{
    if i < b.len() {
        b[i]
    } else {
        0
    }
}

impl TotalOrder for EscadraString {
    open spec fn le(self, other: Self) -> bool {
        if self.w0 != other.w0 {
            self.w0 < other.w0
        } else if self.w1 != other.w1 {
            self.w1 < other.w1
        } else if self.w2 != other.w2 {
            self.w2 < other.w2
        } else {
            self.w3 <= other.w3
        }
    }

    proof fn reflexive(x: Self) {
    }

    proof fn transitive(x: Self, y: Self, z: Self) {
    }

    proof fn antisymmetric(x: Self, y: Self) {
    }

    proof fn total(x: Self, y: Self) {
    }

    fn compare(&self, other: &Self) -> (c: Cmp) {
        if self.w0 != other.w0 {
            if self.w0 < other.w0 {
                Cmp::Less
            } else {
                Cmp::Greater
            }
        } else if self.w1 != other.w1 {
            if self.w1 < other.w1 {
                Cmp::Less
            } else {
                Cmp::Greater
            }
        } else if self.w2 != other.w2 {
            if self.w2 < other.w2 {
                Cmp::Less
            } else {
                Cmp::Greater
            }
        } else if self.w3 != other.w3 {
            if self.w3 < other.w3 {
                Cmp::Less
            } else {
                Cmp::Greater
            }
        } else {
            Cmp::Equal
        }
    }
}

} // verus!
