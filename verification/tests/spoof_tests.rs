use sha2::Digest;

use pngme::chunk::Chunk;
use pngme::chunk_type::ChunkType;
use pngme::png::Png;
use pngme::spoof::spoof_search;

const SIGNATURE: [u8; 8] = [0x89, 0x50, 0x4e, 0x47, 0x0d, 0x0a, 0x1a, 0x0a];

fn base_png() -> Png {
    let mut png = Png::try_from(&SIGNATURE[..]).unwrap();
    let header = Chunk::new(ChunkType::from_str("IhDr").unwrap(), b"data".to_vec());
    png.append_chunk(header);
    png
}

#[test]
fn test_spoof_finds_prefix() {
    let mut png = base_png();
    let original_bytes = png.as_bytes();
    let trial_type = ChunkType::from_str("rUSt").unwrap();
    let prefix = b"0";

    let (nonce, digest_text) = spoof_search(&mut png, trial_type, prefix, 1, 10_000)
        .expect("a single hex digit prefix should be hit within a few tries");

    assert!(nonce >= 1);
    assert!(digest_text.starts_with(prefix));
    assert_eq!(digest_text.len(), 128);

    let winning_bytes = png.as_bytes();
    let recomputed = hex::encode(sha2::Sha512::digest(&winning_bytes)).into_bytes();
    assert_eq!(digest_text, recomputed);

    let trial = png.remove_chunk("rUSt").unwrap();
    assert_eq!(trial.data(), &nonce.to_be_bytes()[..]);
    assert_eq!(png.as_bytes(), original_bytes);
}

#[test]
fn test_spoof_winner_is_least_nonce() {
    let mut png = base_png();
    let trial_type = ChunkType::from_str("rUSt").unwrap();
    let prefix = b"7";

    let (nonce, _) = spoof_search(&mut png, trial_type, prefix, 1, 10_000).unwrap();

    for earlier in 1..nonce {
        let mut probe = base_png();
        let miss = spoof_search(&mut probe, trial_type, prefix, earlier, 1);
        assert!(miss.is_none());
        assert_eq!(probe.as_bytes(), base_png().as_bytes());
    }
}

#[test]
fn test_spoof_exhausts_without_match() {
    let mut png = base_png();
    let before = png.as_bytes();
    let trial_type = ChunkType::from_str("rUSt").unwrap();
    // A prefix no lowercase hex text can start with.
    let prefix = b"zz";

    assert!(spoof_search(&mut png, trial_type, prefix, 1, 50).is_none());
    assert_eq!(png.as_bytes(), before);
}
