//! A self-checksumming record: a type code and a payload, framed as
//! length ++ type ++ payload ++ CRC-32, each 32-bit field big-endian.

use vstd::prelude::*;
use vstd::slice::slice_subrange;
use vstd::slice::slice_to_vec;

use crate::binary::be32_bytes;
use crate::binary::be32_value;
use crate::binary::lemma_be32_bytes_of_value;
use crate::binary::lemma_be32_value_injective;
use crate::binary::lemma_be32_value_of_bytes;
use crate::binary::push_be32;
use crate::binary::read_be32;
use crate::chunk_type::ChunkType;
use crate::crc::crc32;
use crate::crc::crc32_of;
use crate::text::bytes_as_chars;
use crate::text::push_char;

verus! {

/// Everything that can go wrong while parsing or editing a container.
#[derive(Debug, Clone, Copy, PartialEq, Eq, Structural)]
pub enum ChunkError {
    /// A type code given as text is not four ASCII letters.
    InvalidFormat,
    /// Fewer bytes than the 12 an empty chunk needs.
    TooShort,
    /// The declared payload length overruns the bytes at hand.
    Truncated,
    /// The stored checksum does not match the one computed over type
    /// and payload.
    CrcMismatch,
    /// The container does not open with the fixed 8-byte signature.
    BadSignature,
    /// No chunk of the requested type is in the container.
    ChunkNotFound,
}

/// A checksummed record of the container: a type code, a payload, and
/// the CRC-32 computed over both.
#[derive(Debug)]
pub struct Chunk {
    pub length: u32,
    pub chunk_type: ChunkType,
    pub chunk_data: Vec<u8>,
    pub crc: u32,
}

/// The length field a chunk record declares, read from its first four
/// bytes.
pub open spec fn parse_len(b: Seq<u8>) -> int
    recommends
        b.len() >= 4,
{
    be32_value(b.subrange(0, 4)) as int
}

/// The four type-code bytes of a chunk record.
pub open spec fn parse_type_bytes(b: Seq<u8>) -> Seq<u8>
    recommends
        b.len() >= 8,
{
    b.subrange(4, 8)
}

/// The payload bytes of a chunk record, as many as the length field
/// declares.
pub open spec fn parse_payload(b: Seq<u8>) -> Seq<u8>
    recommends
        8 + parse_len(b) <= b.len(),
{
    b.subrange(8, 8 + parse_len(b))
}

/// The checksum stored after the payload of a chunk record.
pub open spec fn parse_stored_crc(b: Seq<u8>) -> u32
    recommends
        12 + parse_len(b) <= b.len(),
{
    be32_value(b.subrange(8 + parse_len(b), 12 + parse_len(b)))
}

/// Why parsing a chunk record out of `b` fails, or `None` when it
/// succeeds: too few bytes for an empty record, a declared length that
/// overruns `b`, or a stored checksum that does not match the one
/// computed over type and payload.
pub open spec fn chunk_parse_err(b: Seq<u8>) -> Option<ChunkError> {
    if b.len() < 12 {
        Some(ChunkError::TooShort)
    } else if 12 + parse_len(b) > b.len() {
        Some(ChunkError::Truncated)
    } else if parse_stored_crc(b) != crc32_of(parse_type_bytes(b) + parse_payload(b)) {
        Some(ChunkError::CrcMismatch)
    } else {
        None
    }
}

impl Chunk {
    /// The chunk's invariant: the length field counts the payload bytes,
    /// and the checksum is the CRC-32 over type and payload.
    pub open spec fn wf(self) -> bool {
        &&& self.length == self.chunk_data@.len()
        &&& self.crc == crc32_of(self.chunk_type@ + self.chunk_data@)
    }

    /// The chunk's wire form: length ++ type ++ payload ++ crc.
    pub open spec fn spec_serialized(self) -> Seq<u8> {
        be32_bytes(self.length) + self.chunk_type@ + self.chunk_data@ + be32_bytes(self.crc)
    }

    /// Build a chunk over a payload; the checksum is computed here, so
    /// the result always satisfies the invariant.
    pub fn new(chunk_type: ChunkType, data: Vec<u8>) -> (c: Chunk)
        requires
            data@.len() <= u32::MAX,
        ensures
            c.wf(),
            c.chunk_type == chunk_type,
            c.chunk_data@ == data@,
            c.length == data@.len(),
            c.crc == crc32_of(chunk_type@ + data@),
    {
        let length = data.len() as u32;
        let type_bytes = chunk_type.as_bytes();
        let mut buf: Vec<u8> = Vec::new();
        buf.extend_from_slice(type_bytes.as_slice());
        buf.extend_from_slice(data.as_slice());
        assert(buf@ =~= chunk_type@ + data@);
        let checksum = crc32(buf.as_slice());
        Chunk { length, chunk_type, chunk_data: data, crc: checksum }
    }

    /// Parse one chunk record from the front of `bytes`; bytes past the
    /// record are ignored. Succeeds exactly when `chunk_parse_err` says
    /// so, and then returns the parsed record, whose wire form is the
    /// consumed prefix.
    pub fn try_from(bytes: &[u8]) -> (r: Result<Chunk, ChunkError>)
        ensures
            match r {
                Ok(c) => {
                    &&& chunk_parse_err(bytes@) is None
                    &&& c.wf()
                    &&& c.length as int == parse_len(bytes@)
                    &&& c.chunk_type@ == parse_type_bytes(bytes@)
                    &&& c.chunk_data@ == parse_payload(bytes@)
                    &&& c.crc == parse_stored_crc(bytes@)
                    &&& c.spec_serialized() == bytes@.subrange(0, 12 + parse_len(bytes@))
                },
                Err(e) => chunk_parse_err(bytes@) == Some(e),
            },
    {
        if bytes.len() < 12 {
            return Err(ChunkError::TooShort);
        }
        let length = read_be32(bytes, 0);
        if (length as usize) > bytes.len() - 12 {
            return Err(ChunkError::Truncated);
        }
        let chunk_type = ChunkType::from_bytes([bytes[4], bytes[5], bytes[6], bytes[7]]);
        assert(chunk_type@ =~= parse_type_bytes(bytes@));
        let data_end = 8 + length as usize;
        let data = slice_to_vec(slice_subrange(bytes, 8, data_end));
        let stored_crc = read_be32(bytes, data_end);
        let type_bytes = chunk_type.as_bytes();
        let mut buf: Vec<u8> = Vec::new();
        buf.extend_from_slice(type_bytes.as_slice());
        buf.extend_from_slice(data.as_slice());
        assert(buf@ =~= parse_type_bytes(bytes@) + parse_payload(bytes@));
        let computed = crc32(buf.as_slice());
        if stored_crc != computed {
            return Err(ChunkError::CrcMismatch);
        }
        let c = Chunk { length, chunk_type, chunk_data: data, crc: stored_crc };
        proof {
            lemma_be32_bytes_of_value(bytes@.subrange(0, 4));
            lemma_be32_bytes_of_value(bytes@.subrange(8 + parse_len(bytes@), 12 + parse_len(bytes@)));
            assert(c.spec_serialized() =~= bytes@.subrange(0, 12 + parse_len(bytes@)));
        }
        Ok(c)
    }

    /// The payload byte count.
    pub fn length(&self) -> (r: u32)
        ensures
            r == self.length,
    {
        self.length
    }

    /// The chunk's type code.
    pub fn chunk_type(&self) -> (r: &ChunkType)
        ensures
            *r == self.chunk_type,
    {
        &self.chunk_type
    }

    /// The payload bytes.
    pub fn data(&self) -> (r: &[u8])
        ensures
            r@ == self.chunk_data@,
    {
        self.chunk_data.as_slice()
    }

    /// The stored checksum.
    pub fn crc(&self) -> (r: u32)
        ensures
            r == self.crc,
    {
        self.crc
    }

    /// The payload rendered as text, each byte read as one character.
    /// This raw rendering never fails; a strict text decoding is the
    /// display boundary's affair.
    pub fn data_as_string(&self) -> (r: Result<String, ChunkError>)
        ensures
            r is Ok,
            r matches Ok(s) ==> s@ == bytes_as_chars(self.chunk_data@),
    {
        let mut s = String::new();
        let n = self.chunk_data.len();
        let mut i: usize = 0;
        while i < n
            invariant
                n == self.chunk_data@.len(),
                0 <= i <= n,
                s@.len() == i,
                forall|j: int| 0 <= j < i ==> s@[j] == (#[trigger] self.chunk_data@[j]) as char,
            decreases n - i,
        {
            push_char(&mut s, self.chunk_data[i] as char);
            i += 1;
        }
        assert(s@ =~= bytes_as_chars(self.chunk_data@));
        Ok(s)
    }

    /// The chunk's wire form: length ++ type ++ payload ++ crc.
    pub fn as_bytes(&self) -> (r: Vec<u8>)
        ensures
            r@ == self.spec_serialized(),
    {
        let mut out: Vec<u8> = Vec::new();
        push_be32(&mut out, self.length);
        let type_bytes = self.chunk_type.as_bytes();
        out.extend_from_slice(type_bytes.as_slice());
        out.extend_from_slice(self.chunk_data.as_slice());
        push_be32(&mut out, self.crc);
        assert(out@ =~= self.spec_serialized());
        out
    }
}

/// A chunk's wire form parses back to the same length, type, payload
/// and checksum: the record-level round trip.
pub proof fn lemma_chunk_round_trip(c: Chunk)
    requires
        c.wf(),
    ensures
        chunk_parse_err(c.spec_serialized()) is None,
        parse_len(c.spec_serialized()) == c.length,
        parse_type_bytes(c.spec_serialized()) == c.chunk_type@,
        parse_payload(c.spec_serialized()) == c.chunk_data@,
        parse_stored_crc(c.spec_serialized()) == c.crc,
{
    let b = c.spec_serialized();
    lemma_be32_value_of_bytes(c.length);
    lemma_be32_value_of_bytes(c.crc);
    assert(b.subrange(0, 4) =~= be32_bytes(c.length));
    assert(parse_len(b) == c.length);
    assert(parse_type_bytes(b) =~= c.chunk_type@);
    assert(parse_payload(b) =~= c.chunk_data@);
    assert(b.subrange(8 + parse_len(b), 12 + parse_len(b)) =~= be32_bytes(c.crc));
}

/// Flipping any single bit of the stored checksum of a well-formed
/// chunk record makes re-parsing the mutated bytes fail with
/// `CrcMismatch`.
pub proof fn lemma_crc_bit_flip(b: Seq<u8>, i: int, k: u8)
    requires
        chunk_parse_err(b) is None,
        8 + parse_len(b) <= i < 12 + parse_len(b),
        k < 8,
    ensures
        chunk_parse_err(b.update(i, (b[i] ^ (1u8 << k)) as u8)) == Some(ChunkError::CrcMismatch),
{
    let m = b[i];
    let flipped = (m ^ (1u8 << k)) as u8;
    assert(flipped != m) by (bit_vector)
        requires
            k < 8,
            flipped == (m ^ (1u8 << k)) as u8,
    ;
    let b2 = b.update(i, flipped);
    assert(b2.len() == b.len());
    assert(b2.subrange(0, 4) =~= b.subrange(0, 4));
    assert(parse_len(b2) == parse_len(b));
    assert(parse_type_bytes(b2) =~= parse_type_bytes(b));
    assert(parse_payload(b2) =~= parse_payload(b));
    let off = 8 + parse_len(b);
    let s1 = b.subrange(off, off + 4);
    let s2 = b2.subrange(off, off + 4);
    assert(s2[i - off] == flipped && s1[i - off] == m);
    assert(s2 != s1);
    if parse_stored_crc(b2) == parse_stored_crc(b) {
        lemma_be32_value_injective(s1, s2);
        assert(false);
    }
    assert(parse_stored_crc(b2) != crc32_of(parse_type_bytes(b2) + parse_payload(b2)));
}

} // verus!
