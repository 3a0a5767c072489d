//! The hash-prefix search: append a trial chunk carrying a nonce,
//! digest the serialized container, and stop at the first nonce whose
//! digest text starts with the target prefix.

use vstd::prelude::*;

use crate::binary::be32_bytes;
use crate::binary::is_prefix_of;
use crate::binary::push_be32;
use crate::binary::starts_with_bytes;
use crate::chunk::Chunk;
use crate::chunk_type::ChunkType;
use crate::crc::crc32_of;
use crate::digest::hex_bytes_of;
use crate::digest::hex_lower;
use crate::digest::sha512;
use crate::digest::sha512_of;
use crate::png::Png;
use crate::png::lemma_chunks_serialized_push;

verus! {

/// The chunk a trial appends: type `t`, the nonce's four big-endian
/// bytes as payload, and the checksum over both.
pub open spec fn trial_chunk_matches(c: Chunk, t: ChunkType, nonce: u32) -> bool {
    &&& c.length == 4
    &&& c.chunk_type == t
    &&& c.chunk_data@ == be32_bytes(nonce)
    &&& c.crc == crc32_of(t@ + be32_bytes(nonce))
}

/// The wire form of the trial chunk for `t` and `nonce`.
pub open spec fn trial_record(t: ChunkType, nonce: u32) -> Seq<u8> {
    be32_bytes(4) + t@ + be32_bytes(nonce) + be32_bytes(crc32_of(t@ + be32_bytes(nonce)))
}

/// The digest text a trial produces: the lowercase hex of the SHA-512
/// digest of the container bytes with the trial record appended.
pub open spec fn trial_digest_text(base: Seq<u8>, t: ChunkType, nonce: u32) -> Seq<u8> {
    hex_bytes_of(sha512_of(base + trial_record(t, nonce)))
}

/// Whether the trial for `nonce` hits: its digest text starts with the
/// target prefix.
pub open spec fn trial_hits(base: Seq<u8>, t: ChunkType, nonce: u32, prefix: Seq<u8>) -> bool {
    is_prefix_of(prefix, trial_digest_text(base, t, nonce))
}

/// Search nonces `start_nonce`, `start_nonce + 1`, ... for one whose
/// trial digest text starts with `prefix`, trying at most `max_tries`
/// of them.
///
/// On a hit the container keeps the winning trial chunk appended and
/// the winning nonce and digest text come back; every nonce below the
/// winner missed. When all tries miss, the container is restored to its
/// starting state.
pub fn spoof_search(
    png: &mut Png,
    trial_type: ChunkType,
    prefix: &[u8],
    start_nonce: u32,
    max_tries: u32,
) -> (r: Option<(u32, Vec<u8>)>)
    requires
        old(png).wf(),
        start_nonce + max_tries <= u32::MAX as int + 1,
    ensures
        match r {
            Some(hit) => {
                let nonce = hit.0;
                let base = old(png).spec_serialized();
                &&& start_nonce <= nonce < start_nonce + max_tries
                &&& final(png).chunks@.len() == old(png).chunks@.len() + 1
                &&& final(png).chunks@.subrange(0, old(png).chunks@.len() as int) == old(
                    png,
                ).chunks@
                &&& trial_chunk_matches(final(png).chunks@.last(), trial_type, nonce)
                &&& final(png).wf()
                &&& final(png).spec_serialized() == base + trial_record(trial_type, nonce)
                &&& hit.1@ == trial_digest_text(base, trial_type, nonce)
                &&& is_prefix_of(prefix@, hit.1@)
                &&& forall|m: u32|
                    start_nonce <= m < nonce ==> !trial_hits(base, trial_type, m, prefix@)
            },
            None => {
                &&& final(png).chunks@ == old(png).chunks@
                &&& forall|m: u32|
                    start_nonce <= m < start_nonce + max_tries ==> !trial_hits(
                        old(png).spec_serialized(),
                        trial_type,
                        m,
                        prefix@,
                    )
            },
        },
{
    let ghost base = old(png).spec_serialized();
    let mut i: u32 = 0;
    while i < max_tries
        invariant
            old(png).wf(),
            png.chunks@ == old(png).chunks@,
            base == old(png).spec_serialized(),
            0 <= i <= max_tries,
            start_nonce + max_tries <= u32::MAX as int + 1,
            forall|m: u32|
                start_nonce <= m < start_nonce + i ==> !trial_hits(
                    base,
                    trial_type,
                    m,
                    prefix@,
                ),
        decreases max_tries - i,
    {
        let nonce = start_nonce + i;
        let mut data: Vec<u8> = Vec::new();
        push_be32(&mut data, nonce);
        assert(data@ =~= be32_bytes(nonce));
        let c = Chunk::new(trial_type, data);
        let ghost chunks_before = png.chunks@;
        png.append_chunk(c);
        let ser = png.as_bytes();
        proof {
            lemma_chunks_serialized_push(chunks_before, c);
            assert(c.spec_serialized() =~= trial_record(trial_type, nonce));
            assert(ser@ =~= base + trial_record(trial_type, nonce));
        }
        let digest_bytes = sha512(ser.as_slice());
        let digest_text = hex_lower(digest_bytes.as_slice());
        assert(digest_text@ == trial_digest_text(base, trial_type, nonce));
        if starts_with_bytes(digest_text.as_slice(), prefix) {
            return Some((nonce, digest_text));
        }
        let _trial = png.chunks.pop();
        proof {
            assert(png.chunks@ =~= chunks_before);
        }
        i = i + 1;
    }
    None
}

} // verus!
