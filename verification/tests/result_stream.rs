use p2p_node::compression::Compression;
use p2p_node::result_stream::{
    assemble_parts, check_manifest, check_part, decide_parts, finish_receive, inline_chunks, prepare,
    split_parts, ArrivedPart, InlineAssembly, InlineStep, ReceiveLimits, ResultChunk,
    ResultManifest, SendOpts,
};

fn limits() -> ReceiveLimits {
    ReceiveLimits {
        max_bytes: 64 * 1024 * 1024,
        max_parts: 64,
        absolute_bytes: 4 << 30,
        absolute_parts: 1024,
    }
}

fn manifest(total_len: u64, parts: u32) -> ResultManifest {
    ResultManifest {
        job_id: "job".into(),
        compression: Compression::Plain,
        uncompressed_len: total_len,
        total_len,
        parts,
    }
}

#[test]
fn recv_result_rejects_oversize_manifest_before_allocating() {
    // A manifest that announces an absurd length is rejected outright.
    let msg = check_manifest(&manifest(u64::MAX, 1), &limits()).unwrap_err();
    assert!(msg.contains("manifest rejected"), "unexpected error: {}", msg);
}

#[test]
fn recv_result_rejects_zero_part_manifest() {
    assert!(
        check_manifest(&manifest(0, 0), &limits()).is_err(),
        "zero-part manifest must be rejected"
    );
}

/// Sends `raw` inline and reads it back.
fn over_one_stream(raw: &[u8], opts: &SendOpts) -> Vec<u8> {
    let out = prepare(&"job".to_string(), raw, opts);
    check_manifest(&out.manifest, &limits()).unwrap();
    assert_eq!(out.manifest.parts, 1);
    let mut state = InlineAssembly::new(out.manifest.total_len);
    for chunk in inline_chunks(&out.payload, opts.chunk_bytes) {
        match state.on_chunk(chunk).unwrap() {
            InlineStep::More(next) => state = next,
            InlineStep::Complete(payload) => {
                return finish_receive(&out.manifest, &payload).unwrap();
            }
        }
    }
    panic!("the last chunk was not marked");
}

#[test]
fn valid_result_still_roundtrips_within_caps() {
    let raw: Vec<u8> = (0..100u8).flat_map(|i| vec![i, 7]).collect();
    assert_eq!(over_one_stream(&raw, &SendOpts::default()), raw);
}

#[test]
fn small_chunks_restore_the_payload() {
    let raw: Vec<u8> = (0..10_000u32).map(|i| (i * i % 251) as u8).collect();
    for codec in [Compression::Plain, Compression::Lz4, Compression::Zstd] {
        let opts = SendOpts {
            chunk_bytes: 77,
            compression: codec,
            compression_min_bytes: 0,
            ..SendOpts::default()
        };
        assert_eq!(over_one_stream(&raw, &opts), raw);
    }
    // An empty payload is one last chunk.
    let chunks = inline_chunks(&[], 10);
    assert_eq!(chunks.len(), 1);
    assert!(chunks[0].last);
    assert_eq!(over_one_stream(&[], &SendOpts::default()), Vec::<u8>::new());
}

#[test]
fn parts_in_any_order_restore_the_payload() {
    let raw: Vec<u8> = (0..1_003u32).map(|i| (i % 256) as u8).collect();
    let opts = SendOpts {
        parallelism: 4,
        parallel_min_bytes: 100,
        compression: Compression::Plain,
        ..SendOpts::default()
    };
    let out = prepare(&"job".to_string(), &raw, &opts);
    assert_eq!(out.manifest.parts, 4);
    let parts = split_parts(&out.payload, out.manifest.parts);
    assert_eq!(parts.len(), 4);
    assert_eq!(parts.iter().map(|p| p.len).sum::<u64>(), 1_003);
    let mut arrived: Vec<ArrivedPart> = Vec::new();
    for p in parts.iter().rev() {
        check_part(p.index, p.len, p.payload.len() as u64).unwrap();
        arrived.push(ArrivedPart { offset: p.offset, payload: p.payload.clone() });
    }
    let payload = assemble_parts(raw.len(), &arrived).unwrap();
    assert_eq!(finish_receive(&out.manifest, &payload).unwrap(), raw);
}

#[test]
fn one_stream_below_the_parallel_size() {
    let opts = SendOpts { parallelism: 8, parallel_min_bytes: 1000, ..SendOpts::default() };
    assert_eq!(decide_parts(999, &opts), 1);
    assert_eq!(decide_parts(1000, &opts), 8);
    let single = SendOpts { parallelism: 1, parallel_min_bytes: 0, ..SendOpts::default() };
    assert_eq!(decide_parts(1 << 20, &single), 1);
}

#[test]
fn chunks_out_of_order_or_too_long_are_refused() {
    let chunk = |seq: u32, last: bool, n: usize| ResultChunk { seq, last, payload: vec![0; n] };
    let refused = |total: u64, c: ResultChunk| match InlineAssembly::new(total).on_chunk(c) {
        Ok(_) => panic!("the chunk was taken"),
        Err(why) => why,
    };
    assert_eq!(refused(10, chunk(1, false, 4)), "out-of-order chunk: expected 0, got 1");
    assert_eq!(refused(3, chunk(0, false, 4)), "inline result exceeds declared total_len 3");
}

#[test]
fn parts_that_do_not_fit_are_refused() {
    assert_eq!(
        check_part(2, 5, 4).unwrap_err(),
        "part 2 length mismatch: header 5 vs read 4"
    );
    let part = |offset: u64, n: usize| ArrivedPart { offset, payload: vec![1; n] };
    assert!(assemble_parts(4, &[part(2, 3)]).is_err());
    assert!(assemble_parts(4, &[part(u64::MAX, 3)]).is_err());
}

#[test]
fn manifests_over_either_limit_are_refused() {
    assert!(check_manifest(&manifest(64 * 1024 * 1024, 64), &limits()).is_ok());
    assert!(check_manifest(&manifest(64 * 1024 * 1024 + 1, 1), &limits()).is_err());
    assert!(check_manifest(&manifest(10, 65), &limits()).is_err());
}
