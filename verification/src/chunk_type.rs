//! The 4-byte chunk type code: structurally any four bytes, semantically
//! valid only when all four are ASCII letters and the third is uppercase.
//! Each position's bit 5 (0x20) carries one property flag.

use vstd::prelude::*;
use vstd::string::StringSliceAdditionalSpecFns;

use crate::chunk::ChunkError;
use crate::text::bytes_as_chars;
use crate::text::push_char;

verus! {

/// A byte is an ASCII letter.
pub open spec fn spec_is_alphabetic(b: u8) -> bool {
    (0x41 <= b <= 0x5a) || (0x61 <= b <= 0x7a)
}

/// All four bytes of a type code are ASCII letters.
pub open spec fn all_alphabetic(s: Seq<u8>) -> bool {
    forall|i: int| 0 <= i < s.len() ==> spec_is_alphabetic(#[trigger] s[i])
}

/// A validated 4-byte chunk type identifier.
#[derive(Debug, Clone, Copy, PartialEq, Eq, Structural)]
pub struct ChunkType {
    pub b0: u8,
    pub b1: u8,
    pub b2: u8,
    pub b3: u8,
}

impl View for ChunkType {
    type V = Seq<u8>;

    open spec fn view(&self) -> Seq<u8> {
        seq![self.b0, self.b1, self.b2, self.b3]
    }
}

impl ChunkType {
    /// Critical chunks have bit 5 of the first byte clear (uppercase letter).
    pub open spec fn spec_is_critical(self) -> bool {
        self.b0 & 0x20 == 0
    }

    /// Public chunks have bit 5 of the second byte clear.
    pub open spec fn spec_is_public(self) -> bool {
        self.b1 & 0x20 == 0
    }

    /// The reserved bit is bit 5 of the third byte; it must be clear.
    pub open spec fn spec_is_reserved_bit_clear(self) -> bool {
        self.b2 & 0x20 == 0
    }

    /// Safe-to-copy chunks have bit 5 of the fourth byte set.
    pub open spec fn spec_is_safe_to_copy(self) -> bool {
        self.b3 & 0x20 == 0x20
    }

    /// A code is valid for container use when all four bytes are ASCII
    /// letters and the reserved bit is clear.
    pub open spec fn spec_is_valid(self) -> bool {
        all_alphabetic(self@) && self.spec_is_reserved_bit_clear()
    }

    /// Build a type code from any four bytes; the flag properties are read
    /// from the bit patterns whether or not the bytes are letters.
    pub fn from_bytes(bytes: [u8; 4]) -> (t: ChunkType)
        ensures
            t@ == bytes@,
    {
        let t = ChunkType { b0: bytes[0], b1: bytes[1], b2: bytes[2], b3: bytes[3] };
        assert(t@ =~= bytes@);
        t
    }

    /// Parse a type code from text: exactly four bytes, all ASCII letters.
    /// A lowercase third letter is accepted here; it only makes
    /// `is_valid` report false.
    pub fn from_str(s: &str) -> (r: Result<ChunkType, ChunkError>)
        ensures
            match r {
                Ok(t) => s.spec_bytes().len() == 4 && all_alphabetic(s.spec_bytes()) && t@
                    == s.spec_bytes(),
                Err(e) => e == ChunkError::InvalidFormat && !(s.spec_bytes().len() == 4
                    && all_alphabetic(s.spec_bytes())),
            },
    {
        let bytes = s.as_bytes();
        if bytes.len() != 4 {
            return Err(ChunkError::InvalidFormat);
        }
        let mut i: usize = 0;
        while i < 4
            invariant
                bytes@ == s.spec_bytes(),
                bytes@.len() == 4,
                0 <= i <= 4,
                forall|j: int| 0 <= j < i ==> spec_is_alphabetic(#[trigger] bytes@[j]),
            decreases 4 - i,
        {
            let b = bytes[i];
            if !((b >= 0x41 && b <= 0x5a) || (b >= 0x61 && b <= 0x7a)) {
                return Err(ChunkError::InvalidFormat);
            }
            i += 1;
        }
        let t = ChunkType { b0: bytes[0], b1: bytes[1], b2: bytes[2], b3: bytes[3] };
        assert(t@ =~= s.spec_bytes());
        Ok(t)
    }

    /// Whether the chunk is critical (first byte uppercase).
    pub fn is_critical(&self) -> (r: bool)
        ensures
            r == self.spec_is_critical(),
    {
        self.b0 & 0x20 == 0
    }

    /// Whether the chunk is public (second byte uppercase).
    pub fn is_public(&self) -> (r: bool)
        ensures
            r == self.spec_is_public(),
    {
        self.b1 & 0x20 == 0
    }

    /// Whether the reserved bit (third byte, bit 5) is clear.
    pub fn is_reserved_bit_clear(&self) -> (r: bool)
        ensures
            r == self.spec_is_reserved_bit_clear(),
    {
        self.b2 & 0x20 == 0
    }

    /// Whether the chunk is safe to copy (fourth byte lowercase).
    pub fn is_safe_to_copy(&self) -> (r: bool)
        ensures
            r == self.spec_is_safe_to_copy(),
    {
        self.b3 & 0x20 == 0x20
    }

    /// Whether the code is valid for container use: four ASCII letters
    /// with the reserved bit clear.
    pub fn is_valid(&self) -> (r: bool)
        ensures
            r == self.spec_is_valid(),
    {
        let alpha = (self.b0 >= 0x41 && self.b0 <= 0x5a || self.b0 >= 0x61 && self.b0 <= 0x7a)
            && (self.b1 >= 0x41 && self.b1 <= 0x5a || self.b1 >= 0x61 && self.b1 <= 0x7a) && (
        self.b2 >= 0x41 && self.b2 <= 0x5a || self.b2 >= 0x61 && self.b2 <= 0x7a) && (self.b3
            >= 0x41 && self.b3 <= 0x5a || self.b3 >= 0x61 && self.b3 <= 0x7a);
        let r = alpha && self.is_reserved_bit_clear();
        proof {
            assert(alpha <==> all_alphabetic(self@)) by {
                if alpha {
                    assert forall|i: int| 0 <= i < 4 implies spec_is_alphabetic(
                        #[trigger] self@[i],
                    ) by {
                        if i == 0 {
                        } else if i == 1 {
                        } else if i == 2 {
                        } else {
                        }
                    }
                } else {
                    assert(self@[0] == self.b0 && self@[1] == self.b1 && self@[2] == self.b2
                        && self@[3] == self.b3);
                }
            }
        }
        r
    }

    /// Whether the code's four bytes read exactly as `other`.
    pub fn eq_bytes(&self, other: &[u8]) -> (r: bool)
        ensures
            r == (self@ == other@),
    {
        if other.len() != 4 {
            proof {
                if self@ == other@ {
                    assert(self@.len() == 4);
                }
            }
            return false;
        }
        let r = self.b0 == other[0] && self.b1 == other[1] && self.b2 == other[2] && self.b3
            == other[3];
        proof {
            if r {
                assert(self@ =~= other@);
            } else {
                if self@ == other@ {
                    assert(self@[0] == other@[0] && self@[1] == other@[1] && self@[2] == other@[2]
                        && self@[3] == other@[3]);
                }
            }
        }
        r
    }

    /// The four bytes of the code.
    pub fn as_bytes(&self) -> (r: [u8; 4])
        ensures
            r@ == self@,
    {
        let r = [self.b0, self.b1, self.b2, self.b3];
        assert(r@ =~= self@);
        r
    }

    /// The four bytes rendered as text, each byte read as one character.
    pub fn to_string(&self) -> (r: String)
        ensures
            r@ == bytes_as_chars(self@),
    {
        let mut r = String::new();
        push_char(&mut r, self.b0 as char);
        push_char(&mut r, self.b1 as char);
        push_char(&mut r, self.b2 as char);
        push_char(&mut r, self.b3 as char);
        assert(r@ =~= bytes_as_chars(self@));
        r
    }
}

} // verus!
