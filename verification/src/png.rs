//! The ordered chunk container: a fixed 8-byte signature followed by
//! chunk records back to back. Lookup and removal go by the first chunk
//! whose type matches.

use vstd::prelude::*;
use vstd::slice::slice_subrange;
use vstd::string::StringSliceAdditionalSpecFns;

use crate::chunk::Chunk;
use crate::chunk::ChunkError;
use crate::chunk::chunk_parse_err;
use crate::chunk::parse_len;

verus! {

/// The fixed 8-byte signature every container opens with.
pub open spec fn signature_bytes() -> Seq<u8> {
    seq![0x89u8, 0x50u8, 0x4eu8, 0x47u8, 0x0du8, 0x0au8, 0x1au8, 0x0au8]
}

/// The wire form of a sequence of chunks: their records back to back.
pub open spec fn chunks_serialized(cs: Seq<Chunk>) -> Seq<u8>
    decreases cs.len(),
{
    if cs.len() == 0 {
        Seq::empty()
    } else {
        cs[0].spec_serialized() + chunks_serialized(cs.skip(1))
    }
}

/// Appending a chunk appends its record to the wire form.
pub proof fn lemma_chunks_serialized_push(cs: Seq<Chunk>, c: Chunk)
    ensures
        chunks_serialized(cs.push(c)) == chunks_serialized(cs) + c.spec_serialized(),
    decreases cs.len(),
{
    if cs.len() == 0 {
        assert(cs.push(c)[0] == c);
        assert(cs.push(c).skip(1) =~= Seq::<Chunk>::empty());
        assert(chunks_serialized(cs.push(c).skip(1)) == Seq::<u8>::empty());
        assert(chunks_serialized(cs.push(c)) =~= chunks_serialized(cs) + c.spec_serialized());
    } else {
        assert(cs.push(c)[0] == cs[0]);
        assert(cs.push(c).skip(1) =~= cs.skip(1).push(c));
        lemma_chunks_serialized_push(cs.skip(1), c);
        assert(chunks_serialized(cs.push(c)) =~= chunks_serialized(cs) + c.spec_serialized());
    }
}

/// Why parsing chunk records out of `b` until exhaustion fails, or
/// `None` when every record parses and none is left over.
pub open spec fn chunks_parse_err(b: Seq<u8>) -> Option<ChunkError>
    decreases b.len(),
{
    if b.len() == 0 {
        None
    } else {
        match chunk_parse_err(b) {
            Some(e) => Some(e),
            None => chunks_parse_err(b.skip(12 + parse_len(b))),
        }
    }
}

/// Why parsing a whole container out of `b` fails, or `None` when it
/// succeeds: a missing signature, or the first chunk record that does
/// not parse.
pub open spec fn png_parse_err(b: Seq<u8>) -> Option<ChunkError> {
    if b.len() < 8 || b.subrange(0, 8) != signature_bytes() {
        Some(ChunkError::BadSignature)
    } else {
        chunks_parse_err(b.skip(8))
    }
}

/// The index of the first chunk whose type is `t`, or -1 when none is.
pub open spec fn first_match(cs: Seq<Chunk>, t: Seq<u8>) -> int
    decreases cs.len(),
{
    if cs.len() == 0 {
        -1int
    } else if cs[0].chunk_type@ == t {
        0int
    } else {
        let r = first_match(cs.skip(1), t);
        if r < 0 {
            -1int
        } else {
            r + 1
        }
    }
}

/// What `first_match` returns: -1 exactly when no chunk has type `t`,
/// else the least index of one that has.
pub proof fn lemma_first_match(cs: Seq<Chunk>, t: Seq<u8>)
    ensures
        first_match(cs, t) == -1 ==> forall|j: int|
            0 <= j < cs.len() ==> (#[trigger] cs[j]).chunk_type@ != t,
        first_match(cs, t) != -1 ==> {
            let r = first_match(cs, t);
            &&& 0 <= r < cs.len()
            &&& cs[r].chunk_type@ == t
            &&& forall|j: int| 0 <= j < r ==> (#[trigger] cs[j]).chunk_type@ != t
        },
    decreases cs.len(),
{
    if cs.len() == 0 {
    } else if cs[0].chunk_type@ == t {
    } else {
        lemma_first_match(cs.skip(1), t);
        assert(forall|j: int| 1 <= j < cs.len() ==> cs[j] == cs.skip(1)[j - 1]);
    }
}

/// The converse: a first hit at `i` pins `first_match` to `i`.
pub proof fn lemma_first_match_at(cs: Seq<Chunk>, t: Seq<u8>, i: int)
    requires
        0 <= i < cs.len(),
        cs[i].chunk_type@ == t,
        forall|j: int| 0 <= j < i ==> (#[trigger] cs[j]).chunk_type@ != t,
    ensures
        first_match(cs, t) == i,
    decreases cs.len(),
{
    if i == 0 {
    } else {
        assert(forall|j: int| 0 <= j < i - 1 ==> cs.skip(1)[j] == cs[j + 1]);
        lemma_first_match_at(cs.skip(1), t, i - 1);
    }
}

/// With no hit anywhere, `first_match` is -1.
pub proof fn lemma_first_match_none(cs: Seq<Chunk>, t: Seq<u8>)
    requires
        forall|j: int| 0 <= j < cs.len() ==> (#[trigger] cs[j]).chunk_type@ != t,
    ensures
        first_match(cs, t) == -1,
    decreases cs.len(),
{
    if cs.len() == 0 {
    } else {
        assert(forall|j: int| 0 <= j < cs.len() - 1 ==> cs.skip(1)[j] == cs[j + 1]);
        lemma_first_match_none(cs.skip(1), t);
    }
}

/// An ordered container of chunks behind the fixed signature.
#[derive(Debug)]
pub struct Png {
    pub chunks: Vec<Chunk>,
}

impl Png {
    /// Every chunk in the container satisfies its invariant.
    pub open spec fn wf(self) -> bool {
        forall|i: int| 0 <= i < self.chunks@.len() ==> (#[trigger] self.chunks@[i]).wf()
    }

    /// The container's wire form: signature ++ chunk records in order.
    pub open spec fn spec_serialized(self) -> Seq<u8> {
        signature_bytes() + chunks_serialized(self.chunks@)
    }

    /// A container over the given chunks.
    pub fn from_chunks(chunks: Vec<Chunk>) -> (p: Png)
        ensures
            p.chunks@ == chunks@,
    {
        Png { chunks }
    }

    /// Parse a whole byte buffer: the signature, then chunk records
    /// until the bytes are exhausted. Fails atomically; on success the
    /// container's wire form is exactly the input, byte for byte.
    pub fn try_from(bytes: &[u8]) -> (r: Result<Png, ChunkError>)
        ensures
            match r {
                Ok(p) => {
                    &&& png_parse_err(bytes@) is None
                    &&& p.wf()
                    &&& p.spec_serialized() == bytes@
                },
                Err(e) => png_parse_err(bytes@) == Some(e),
            },
    {
        if bytes.len() < 8 {
            return Err(ChunkError::BadSignature);
        }
        let sig_ok = bytes[0] == 0x89 && bytes[1] == 0x50 && bytes[2] == 0x4e && bytes[3] == 0x47
            && bytes[4] == 0x0d && bytes[5] == 0x0a && bytes[6] == 0x1a && bytes[7] == 0x0a;
        proof {
            let s = bytes@.subrange(0, 8);
            assert(s[0] == bytes@[0] && s[1] == bytes@[1] && s[2] == bytes@[2] && s[3] == bytes@[3]
                && s[4] == bytes@[4] && s[5] == bytes@[5] && s[6] == bytes@[6] && s[7]
                == bytes@[7]);
            if sig_ok {
                assert(s =~= signature_bytes());
            }
        }
        if !sig_ok {
            return Err(ChunkError::BadSignature);
        }
        let n = bytes.len();
        let mut chunks: Vec<Chunk> = Vec::new();
        let mut pos: usize = 8;
        while pos < n
            invariant
                8 <= pos <= n == bytes@.len(),
                bytes@.subrange(0, 8) == signature_bytes(),
                forall|i: int| 0 <= i < chunks@.len() ==> (#[trigger] chunks@[i]).wf(),
                chunks_serialized(chunks@) == bytes@.subrange(8, pos as int),
                png_parse_err(bytes@) == chunks_parse_err(bytes@.skip(pos as int)),
            decreases n - pos,
        {
            let rem = slice_subrange(bytes, pos, n);
            assert(rem@ =~= bytes@.skip(pos as int));
            let c = match Chunk::try_from(rem) {
                Ok(c) => c,
                Err(e) => {
                    return Err(e);
                },
            };
            let adv = 12 + c.length as usize;
            let ghost old_chunks = chunks@;
            let ghost old_pos = pos as int;
            chunks.push(c);
            pos = pos + adv;
            proof {
                lemma_chunks_serialized_push(old_chunks, c);
                assert(c.spec_serialized() == rem@.subrange(0, 12 + parse_len(rem@)));
                assert(bytes@.subrange(8, pos as int) =~= bytes@.subrange(8, old_pos)
                    + rem@.subrange(0, 12 + parse_len(rem@)));
                assert(bytes@.skip(pos as int) =~= rem@.skip(12 + parse_len(rem@)));
            }
        }
        proof {
            assert(bytes@.skip(pos as int) =~= Seq::<u8>::empty());
            let p = Png { chunks };
            assert(p.spec_serialized() =~= bytes@);
        }
        Ok(Png { chunks })
    }

    /// The container's wire form: signature ++ chunk records in order.
    pub fn as_bytes(&self) -> (r: Vec<u8>)
        ensures
            r@ == self.spec_serialized(),
    {
        let mut out: Vec<u8> = Vec::new();
        out.push(0x89);
        out.push(0x50);
        out.push(0x4e);
        out.push(0x47);
        out.push(0x0d);
        out.push(0x0a);
        out.push(0x1a);
        out.push(0x0a);
        assert(out@ =~= signature_bytes());
        let n = self.chunks.len();
        let mut i: usize = 0;
        while i < n
            invariant
                n == self.chunks@.len(),
                0 <= i <= n,
                out@ == signature_bytes() + chunks_serialized(self.chunks@.take(i as int)),
            decreases n - i,
        {
            let c = &self.chunks[i];
            let cb = c.as_bytes();
            out.extend_from_slice(cb.as_slice());
            i += 1;
            proof {
                lemma_chunks_serialized_push(self.chunks@.take(i - 1), *c);
                assert(self.chunks@.take(i as int) =~= self.chunks@.take(i - 1).push(*c));
                assert(out@ =~= signature_bytes() + chunks_serialized(self.chunks@.take(i as int)));
            }
        }
        assert(self.chunks@.take(n as int) =~= self.chunks@);
        out
    }

    /// Push a chunk at the end; order is preserved and type codes need
    /// not be unique.
    pub fn append_chunk(&mut self, chunk: Chunk)
        ensures
            final(self).chunks@ == old(self).chunks@.push(chunk),
    {
        self.chunks.push(chunk);
    }

    /// The first chunk whose type reads as `target`, if any.
    pub fn chunk_by_type(&self, target: &str) -> (r: Option<&Chunk>)
        ensures
            match r {
                Some(c) => {
                    let idx = first_match(self.chunks@, target.spec_bytes());
                    &&& 0 <= idx < self.chunks@.len()
                    &&& *c == self.chunks@[idx]
                },
                None => first_match(self.chunks@, target.spec_bytes()) == -1,
            },
    {
        let tb = target.as_bytes();
        let n = self.chunks.len();
        let mut i: usize = 0;
        while i < n
            invariant
                n == self.chunks@.len(),
                0 <= i <= n,
                tb@ == target.spec_bytes(),
                forall|j: int| 0 <= j < i ==> (#[trigger] self.chunks@[j]).chunk_type@ != tb@,
            decreases n - i,
        {
            let c = &self.chunks[i];
            if c.chunk_type.eq_bytes(tb) {
                proof {
                    lemma_first_match_at(self.chunks@, tb@, i as int);
                }
                return Some(c);
            }
            i += 1;
        }
        proof {
            lemma_first_match_none(self.chunks@, tb@);
        }
        None
    }

    /// Remove and return the first chunk whose type reads as `target`;
    /// the chunks around it keep their order. Fails with
    /// `ChunkNotFound`, leaving the container unchanged, exactly when
    /// no chunk matches.
    pub fn remove_chunk(&mut self, target: &str) -> (r: Result<Chunk, ChunkError>)
        ensures
            match r {
                Ok(c) => {
                    let idx = first_match(old(self).chunks@, target.spec_bytes());
                    &&& 0 <= idx < old(self).chunks@.len()
                    &&& c == old(self).chunks@[idx]
                    &&& final(self).chunks@ == old(self).chunks@.remove(idx)
                },
                Err(e) => {
                    &&& e == ChunkError::ChunkNotFound
                    &&& first_match(old(self).chunks@, target.spec_bytes()) == -1
                    &&& final(self).chunks@ == old(self).chunks@
                },
            },
    {
        let tb = target.as_bytes();
        let n = self.chunks.len();
        let mut i: usize = 0;
        while i < n
            invariant
                self.chunks@ == old(self).chunks@,
                n == self.chunks@.len(),
                0 <= i <= n,
                tb@ == target.spec_bytes(),
                forall|j: int| 0 <= j < i ==> (#[trigger] self.chunks@[j]).chunk_type@ != tb@,
            decreases n - i,
        {
            let hit = (&self.chunks[i]).chunk_type.eq_bytes(tb);
            if hit {
                proof {
                    lemma_first_match_at(self.chunks@, tb@, i as int);
                }
                let c = self.chunks.remove(i);
                return Ok(c);
            }
            i += 1;
        }
        proof {
            lemma_first_match_none(self.chunks@, tb@);
        }
        Err(ChunkError::ChunkNotFound)
    }

    /// The chunks in stored order.
    pub fn chunks(&self) -> (r: &Vec<Chunk>)
        ensures
            r@ == self.chunks@,
    {
        &self.chunks
    }
}

/// Appending a chunk of a type the container does not yet hold and then
/// removing the first chunk of that type restores the chunk sequence,
/// and with it the serialized bytes, exactly.
pub proof fn lemma_append_remove_restores(cs: Seq<Chunk>, c: Chunk)
    requires
        first_match(cs, c.chunk_type@) == -1,
    ensures
        first_match(cs.push(c), c.chunk_type@) == cs.len(),
        cs.push(c).remove(cs.len() as int) == cs,
        chunks_serialized(cs.push(c).remove(cs.len() as int)) == chunks_serialized(cs),
{
    lemma_first_match(cs, c.chunk_type@);
    lemma_first_match_at(cs.push(c), c.chunk_type@, cs.len() as int);
    assert(cs.push(c).remove(cs.len() as int) =~= cs);
}

/// With two chunks of one type appended in order to a container free of
/// that type, the first match is the first one appended, and removing
/// it leaves the second in place.
pub proof fn lemma_find_first_of_two(cs: Seq<Chunk>, c1: Chunk, c2: Chunk)
    requires
        c1.chunk_type@ == c2.chunk_type@,
        first_match(cs, c1.chunk_type@) == -1,
    ensures
        first_match(cs.push(c1).push(c2), c1.chunk_type@) == cs.len(),
        cs.push(c1).push(c2).remove(cs.len() as int) == cs.push(c2),
{
    lemma_first_match(cs, c1.chunk_type@);
    lemma_first_match_at(cs.push(c1).push(c2), c1.chunk_type@, cs.len() as int);
    assert(cs.push(c1).push(c2).remove(cs.len() as int) =~= cs.push(c2));
}

} // verus!
