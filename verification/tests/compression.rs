use p2p_node::compression::{
    algo_to_wire, can_decode, decompress, maybe_compress, Compression, CompressionAlgo,
};

#[test]
fn none_below_threshold_roundtrips() {
    let data = b"hello world".to_vec();
    let (codec, out) = maybe_compress(Compression::Zstd, 3, 1024, &data);
    assert_eq!(codec, Compression::Plain); // below threshold
    assert_eq!(decompress(codec, data.len(), &out).unwrap(), data);
}

#[test]
fn lz4_and_zstd_roundtrip() {
    let data: Vec<u8> = (0..50_000u32)
        .flat_map(|i| (i % 251) as u8..(i % 251) as u8 + 1)
        .collect();
    for codec in [Compression::Lz4, Compression::Zstd] {
        let (applied, out) = maybe_compress(codec, 3, 0, &data);
        assert_eq!(applied, codec);
        assert_ne!(out, data);
        let back = decompress(applied, data.len(), &out).unwrap();
        assert_eq!(back, data);
    }
}

#[test]
fn lz4_rejects_oversized_prepended_size() {
    // A payload that prepends a huge size must be rejected against the declared
    // length before anything is allocated.
    let data = vec![7u8; 4096];
    let (_, mut out) = maybe_compress(Compression::Lz4, 3, 0, &data);
    out[0..4].copy_from_slice(&u32::MAX.to_le_bytes());
    let err = decompress(Compression::Lz4, data.len(), &out).unwrap_err();
    assert!(err.contains("exceeds declared uncompressed_len"), "got: {}", err);
}

#[test]
fn lz4_truncated_prefix_is_rejected() {
    let err = decompress(Compression::Lz4, 1024, &[0u8; 2]).unwrap_err();
    assert!(err.contains("truncated size prefix"), "got: {}", err);
}

#[test]
fn zstd_bomb_rejected_against_declared_len() {
    let big = vec![0u8; 4 * 1024 * 1024]; // 4 MiB of zeros: tiny zstd frame
    let (codec, out) = maybe_compress(Compression::Zstd, 3, 0, &big);
    assert_eq!(codec, Compression::Zstd);
    assert!(out.len() < big.len(), "zstd should shrink a zero buffer");
    // Honest length still round-trips.
    assert_eq!(decompress(codec, big.len(), &out).unwrap(), big);
    // A forged small declared length must be rejected, not inflated.
    let err = decompress(codec, 1024, &out).unwrap_err();
    assert!(err.contains("exceeds declared uncompressed_len"), "got: {}", err);
}

#[test]
fn the_configured_codec_is_the_wire_codec() {
    assert_eq!(algo_to_wire(CompressionAlgo::Plain), Compression::Plain);
    assert_eq!(algo_to_wire(CompressionAlgo::Lz4), Compression::Lz4);
    assert_eq!(algo_to_wire(CompressionAlgo::Zstd), Compression::Zstd);
}

#[test]
fn garbage_is_an_error() {
    assert!(decompress(Compression::Zstd, 100, b"not a frame").is_err());
    assert!(decompress(Compression::Lz4, 100, &[50, 0, 0, 0, 255, 255]).is_err());
}

#[test]
fn plain_bytes_pass_through() {
    let data = vec![1u8, 2, 3];
    let (codec, out) = maybe_compress(Compression::Plain, 3, 0, &data);
    assert_eq!(codec, Compression::Plain);
    assert_eq!(out, data);
    assert_eq!(decompress(Compression::Plain, 0, &data).unwrap(), data);
}

#[test]
fn lengths_too_long_to_add_up_are_found() {
    let mut block = vec![255u8; 20_000_000];
    block[..4].copy_from_slice(&100u32.to_le_bytes());
    assert!(!can_decode(Compression::Lz4, 100, &block));
    // Refused by the declared length before a block is looked at.
    assert!(can_decode(Compression::Lz4, 99, &block));
    assert!(can_decode(Compression::Zstd, 100, &block));
    block[10_000_000] = 0;
    // The length adds up, and more literals are called for than are left.
    assert!(can_decode(Compression::Lz4, 100, &block));
    assert!(decompress(Compression::Lz4, 100, &block).is_err());
    assert!(can_decode(Compression::Lz4, 100, &[1, 2]));
}

#[test]
fn literals_may_repeat_any_byte() {
    // A block of one run of literals: a length of 15 + 255 + 0, then as many bytes.
    let mut payload = 270u32.to_le_bytes().to_vec();
    payload.extend_from_slice(&[0xf0, 255, 0]);
    payload.extend_from_slice(&[255u8; 270]);
    assert!(can_decode(Compression::Lz4, 270, &payload));
    assert_eq!(decompress(Compression::Lz4, 270, &payload).unwrap(), vec![255u8; 270]);
}

#[test]
fn a_shorter_declared_length_is_refused() {
    let data: Vec<u8> = (0..5_000u32).map(|i| (i % 7) as u8).collect();
    for codec in [Compression::Lz4, Compression::Zstd] {
        let (applied, out) = maybe_compress(codec, 3, 0, &data);
        assert!(can_decode(applied, data.len(), &out));
        assert_eq!(decompress(applied, data.len(), &out).unwrap(), data);
        for shorter in [0, 1, 4_999] {
            assert!(can_decode(applied, shorter, &out));
            assert!(decompress(applied, shorter, &out).is_err());
        }
    }
}
