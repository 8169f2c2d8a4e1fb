use p2p_node::engine::{ResultSet, Value};
use p2p_node::estimator::delta::{delta_log_names, parse_delta_schema_columns, parse_delta_stats};
use p2p_node::estimator::{raw_scan_estimate, ColumnBounds, Num};
use p2p_node::json::Scalar;
use p2p_node::{
    csv_metadata, delta_metadata, estimate_parquet, estimate_table_files, estimate_text,
    estimate_working_set, has_data_source, ndjson_metadata, parquet_metadata_from_resultset,
    parse_explain_cardinality, Cmp, ColumnChunkMeta, DataFileMeta, EstimateError, EstimateParams,
    ParquetMetadata, Predicate, Projection, QueryShape, RowGroupMeta, ScanEstimate,
    TableFilesMetadata, TextMetadata,
};

fn num(x: f64) -> Num {
    Num::from_bits(x.to_bits())
}

fn cols(names: &[&str]) -> Projection {
    Projection::columns(names.iter().map(|s| s.to_string()).collect())
}

fn pred(column: &str, op: Cmp, value: f64) -> Predicate {
    Predicate::new(column.to_string(), op, num(value))
}

#[test]
fn has_data_source_is_conservative() {
    // Pure in-memory: no source (eligible for the free local path).
    assert!(!has_data_source("SELECT 1 + 1"));
    assert!(!has_data_source("SELECT now()"));
    assert!(!has_data_source("select 42 as x, upper('hi')"));
    // Any relation / reader / file / COPY / ATTACH: treated as a source.
    assert!(has_data_source("SELECT * FROM t"));
    assert!(has_data_source("select a\nfrom range(100)"));
    assert!(has_data_source("SELECT * FROM read_csv_auto('x.csv')"));
    assert!(has_data_source("SELECT * FROM read_parquet('s3://b/k.parquet')"));
    assert!(has_data_source("SELECT a JOIN b ON a.x=b.x"));
    assert!(has_data_source("COPY t TO 'out.csv'"));
    assert!(has_data_source("ATTACH 'db.duckdb'"));
    assert!(has_data_source("SELECT * FROM delta_scan('/t')"));
}

fn chunk(name: &str, bytes: u64, vals: u64, min: Option<f64>, max: Option<f64>) -> ColumnChunkMeta {
    ColumnChunkMeta {
        name: name.into(),
        total_uncompressed_size: bytes,
        num_values: vals,
        min: min.map(num),
        max: max.map(num),
    }
}

fn two_rowgroup_parquet() -> ParquetMetadata {
    // Each row-group: 1000 rows; columns a (id) and b (payload).
    ParquetMetadata {
        row_groups: vec![
            RowGroupMeta {
                num_rows: 1000,
                columns: vec![
                    chunk("a", 8_000, 1000, Some(0.0), Some(999.0)),
                    chunk("b", 40_000, 1000, None, None),
                ],
            },
            RowGroupMeta {
                num_rows: 1000,
                columns: vec![
                    chunk("a", 8_000, 1000, Some(1000.0), Some(1999.0)),
                    chunk("b", 40_000, 1000, None, None),
                ],
            },
        ],
    }
}

#[test]
fn parquet_projection_sums_only_projected_columns() {
    let meta = two_rowgroup_parquet();
    // Project only "a": 2 row-groups * 8000 bytes = 16000.
    let est = estimate_parquet(&meta, &cols(&["a"]), &[]);
    assert_eq!(est.scanned_uncompressed_bytes, 16_000);
    assert_eq!(est.total_rows, 2000);
    assert_eq!(est.units_scanned, 2);
    // Project all: (8000+40000)*2 = 96000.
    let all = estimate_parquet(&meta, &Projection::All, &[]);
    assert_eq!(all.scanned_uncompressed_bytes, 96_000);
}

#[test]
fn parquet_predicate_prunes_rowgroup_via_minmax() {
    let meta = two_rowgroup_parquet();
    // a > 1500: only the second row-group (max 1999) survives.
    let est = estimate_parquet(&meta, &cols(&["a"]), &[pred("a", Cmp::Gt, 1500.0)]);
    assert_eq!(est.units_scanned, 1);
    assert_eq!(est.scanned_uncompressed_bytes, 8_000);
    assert_eq!(est.total_rows, 1000);
    // a > 5000: both pruned.
    let none = estimate_parquet(&meta, &cols(&["a"]), &[pred("a", Cmp::Gt, 5000.0)]);
    assert_eq!(none.units_scanned, 0);
    assert_eq!(none.scanned_uncompressed_bytes, 0);
}

#[test]
fn working_set_high_cardinality_group_by_dominates() {
    let meta = two_rowgroup_parquet();
    let p = EstimateParams::default();
    let scan = estimate_parquet(&meta, &cols(&["a"]), &[]).finalize(2000);
    // Streaming: peak is just the bounded scan buffer (here the scanned bytes).
    let streaming = estimate_working_set(&scan, &QueryShape::streaming(), &p);
    assert_eq!(streaming.group_by_bytes, 0);
    assert_eq!(streaming.peak_working_set_bytes, scan.scanned_uncompressed_bytes);

    // High-cardinality GROUP BY: 2000 distinct groups * (8-byte width + 32
    // overhead) = 80000, which dominates the 16000 scan buffer.
    let shape = QueryShape {
        group_by: true,
        distinct_groups: 2000,
        group_payload_bytes: 8,
        ..QueryShape::default()
    };
    let gb = estimate_working_set(&scan, &shape, &p);
    assert_eq!(gb.group_by_bytes, 2000 * (8 + 32));
    assert!(gb.peak_working_set_bytes > streaming.peak_working_set_bytes);
}

#[test]
fn working_set_join_and_sort_add_up() {
    let scan = ScanEstimate {
        scanned_uncompressed_bytes: 1_000_000,
        total_rows: 10_000,
        estimated_output_rows: 10_000,
        avg_row_width_bytes: 100,
        units_total: 1,
        units_scanned: 1,
        projected_columns: 3,
    };
    let p = EstimateParams::default();
    let shape = QueryShape {
        hash_join: true,
        join_build_rows: 5_000,
        join_build_row_width: 50,
        sort_or_window: true,
        sort_rows: 10_000,
        sort_row_width: 100,
        ..QueryShape::default()
    };
    let ws = estimate_working_set(&scan, &shape, &p);
    assert_eq!(ws.join_build_bytes, 5_000 * 50);
    assert_eq!(ws.sort_bytes, 10_000 * 100);
    // scan buffer capped at 16 MiB but scanned is 1 MB: buffer = 1 MB.
    assert_eq!(ws.scan_buffer_bytes, 1_000_000);
    assert_eq!(ws.peak_working_set_bytes, 1_000_000 + 5_000 * 50 + 10_000 * 100);
}

/// The projected in-memory footprint of each file of a table.
fn footprints(meta: &TableFilesMetadata, projected: usize) -> Vec<u64> {
    let share = (projected as f64 / meta.all_columns.len().max(1) as f64).min(1.0);
    meta.files
        .iter()
        .map(|f| ((f.size_bytes as f64) * 4.0 * share).round() as u64)
        .collect()
}

#[test]
fn table_files_projection_ratio_and_pruning() {
    let range = |min: f64, max: f64| {
        vec![ColumnBounds { column: "ts".into(), min: Some(num(min)), max: Some(num(max)) }]
    };
    let meta = TableFilesMetadata {
        all_columns: vec!["ts".into(), "a".into(), "b".into(), "c".into()],
        files: vec![
            DataFileMeta { size_bytes: 1_000_000, record_count: 10_000, bounds: range(0.0, 100.0) },
            DataFileMeta {
                size_bytes: 1_000_000,
                record_count: 10_000,
                bounds: range(200.0, 300.0),
            },
        ],
    };
    // Project 1 of 4 columns, filter ts < 150: only file 1 survives.
    let est = estimate_table_files(
        &meta,
        &cols(&["ts"]),
        &[pred("ts", Cmp::Lt, 150.0)],
        &footprints(&meta, 1),
    );
    assert_eq!(est.units_scanned, 1);
    assert_eq!(est.total_rows, 10_000);
    // uncompressed = 1_000_000 * 4.0 * (1/4) = 1_000_000.
    assert_eq!(est.scanned_uncompressed_bytes, 1_000_000);
}

/// The numbers that the cells of a result write.
fn numbers(rs: &ResultSet) -> Vec<Vec<Option<Num>>> {
    rs.rows
        .iter()
        .map(|row| {
            row.iter()
                .map(|v| match v {
                    Value::Text(s) => s.parse::<f64>().ok().map(num),
                    Value::Int(i) => Some(num(*i as f64)),
                    Value::Float(f) => Some(Num::from_bits(f.bits)),
                    _ => None,
                })
                .collect()
        })
        .collect()
}

#[test]
fn parquet_metadata_from_resultset_groups_by_row_group() {
    let columns = [
        "row_group_id",
        "row_group_num_rows",
        "path_in_schema",
        "num_values",
        "total_uncompressed_size",
        "stats_min_value",
        "stats_max_value",
    ];
    let row = |rg: i64, n: i64, name: &str, vals: i64, size: i64, mn: &str, mx: &str| {
        vec![
            Value::Int(rg),
            Value::Int(n),
            Value::Text(name.into()),
            Value::Int(vals),
            Value::Int(size),
            Value::Text(mn.into()),
            Value::Text(mx.into()),
        ]
    };
    let rs = ResultSet {
        columns: columns.iter().map(|s| s.to_string()).collect(),
        rows: vec![
            row(0, 1000, "a", 1000, 8000, "0", "999"),
            row(0, 1000, "b", 1000, 40000, "x", "z"),
            row(1, 500, "a", 500, 4000, "1000", "1499"),
            row(1, 500, "b", 500, 20000, "x", "z"),
        ],
    };
    let meta = parquet_metadata_from_resultset(&rs, &numbers(&rs));
    assert_eq!(meta.row_groups.len(), 2);
    assert_eq!(meta.row_groups[0].num_rows, 1000);
    assert_eq!(meta.row_groups[1].num_rows, 500);
    // numeric stats on "a" parsed; non-numeric stats on "b": none.
    assert_eq!(meta.row_groups[0].columns[0].min, Some(num(0.0)));
    assert_eq!(meta.row_groups[0].columns[0].max, Some(num(999.0)));
    assert_eq!(meta.row_groups[0].columns[1].min, None);

    // Estimate over it: project "a", filter a > 1200: only the second survives.
    let est = estimate_parquet(&meta, &cols(&["a"]), &[pred("a", Cmp::Gt, 1200.0)]);
    assert_eq!(est.units_scanned, 1);
    assert_eq!(est.scanned_uncompressed_bytes, 4000);
    assert_eq!(est.total_rows, 500);
}

#[test]
fn explain_cardinality_picks_max_ec() {
    let plan = "\
┌─────────────┐
│  HASH_GROUP_BY  │
│   EC: 1200   │
└─────────────┘
┌─────────────┐
│   SEQ_SCAN   │
│  EC: 50000   │
└─────────────┘";
    assert_eq!(parse_explain_cardinality(plan), Some(50_000));
    assert_eq!(parse_explain_cardinality("no cardinality here"), None);
}

#[test]
fn explain_cardinality_parses_modern_tilde_rows() {
    let plan = "\
┌───────────────────────────┐
│       HASH_GROUP_BY       │
│        ~5,000 rows        │
└─────────────┬─────────────┘
┌─────────────┴─────────────┐
│           RANGE           │
│        ~10,000 rows       │
└───────────────────────────┘";
    assert_eq!(parse_explain_cardinality(plan), Some(10_000));
}

#[test]
fn numbers_keep_the_order_of_floats() {
    let xs = [f64::NEG_INFINITY, -1.5, -0.0, 0.0, 1e-300, 2.5, f64::INFINITY];
    for a in xs {
        for b in xs {
            assert_eq!(num(a).is_le(num(b)), a <= b, "{} {}", a, b);
            assert_eq!(num(a).is_lt(num(b)), a < b, "{} {}", a, b);
        }
        assert!(!num(f64::NAN).is_le(num(a)));
        assert!(!num(a).is_lt(num(f64::NAN)));
    }
}

#[test]
fn no_matching_chunk_is_pruned() {
    let ops = [Cmp::Eq, Cmp::Ne, Cmp::Lt, Cmp::Le, Cmp::Gt, Cmp::Ge];
    let holds = |op: Cmp, x: f64, v: f64| match op {
        Cmp::Eq => x == v,
        Cmp::Ne => x != v,
        Cmp::Lt => x < v,
        Cmp::Le => x <= v,
        Cmp::Gt => x > v,
        Cmp::Ge => x >= v,
    };
    for op in ops {
        for lo in 0..4 {
            for hi in lo..4 {
                for v in -1..5 {
                    let p = pred("c", op, v as f64);
                    let some = (lo..=hi).any(|x| holds(op, x as f64, v as f64));
                    let kept = p.overlaps(Some(num(lo as f64)), Some(num(hi as f64)));
                    assert!(!some || kept);
                }
            }
        }
    }
    // Outside the range nothing can match, so it is pruned.
    assert!(!pred("c", Cmp::Eq, 9.0).overlaps(Some(num(0.0)), Some(num(3.0))));
    // Without bounds nothing is known.
    assert!(pred("c", Cmp::Eq, 9.0).overlaps(None, None));
}

#[test]
fn csv_samples_are_counted_without_the_header() {
    let sample = b"id;name\n1;a\n22;bb\n3;par";
    let m = csv_metadata(1000, sample, b';');
    assert_eq!(m.object_bytes, 1000);
    assert_eq!(m.total_columns, 2);
    assert_eq!(m.sample_rows, 2);
    assert_eq!(m.sample_bytes, 9);
    let empty = csv_metadata(0, b"", b',');
    assert_eq!(
        empty,
        TextMetadata { object_bytes: 0, sample_bytes: 0, sample_rows: 0, total_columns: 1 }
    );
}

#[test]
fn ndjson_columns_come_from_the_first_object() {
    let sample = b"{\"a\":1,\"b\":2,\"c\":{\"d\":3}}\n{\"a\":2}\n{\"a";
    let m = ndjson_metadata(500, sample);
    assert_eq!(m.total_columns, 3);
    assert_eq!(m.sample_rows, 2);
    assert_eq!(m.sample_bytes, 34);
    assert_eq!(ndjson_metadata(5, b"nope\n").total_columns, 1);
    assert_eq!(ndjson_metadata(5, b"[1,2]\n").total_columns, 1);
}

#[test]
fn text_rows_are_extrapolated_from_the_sample() {
    let meta = TextMetadata { object_bytes: 1000, sample_bytes: 30, sample_rows: 4, total_columns: 4 };
    let t = estimate_text(&meta, &cols(&["a"]), &EstimateParams::default(), 250);
    assert_eq!(t.total_rows, 133);
    assert_eq!(t.scanned_uncompressed_bytes, 250);
    assert_eq!(t.projected_columns, 1);
    assert_eq!((t.units_total, t.units_scanned), (1, 1));
    let est = t.finalize(40);
    assert_eq!(est.avg_row_width_bytes, 1);
    assert_eq!(est.estimated_output_rows, 40);
    // Without a sample the fallback width counts: 1000 / 128.
    let blind = TextMetadata { sample_rows: 0, ..meta };
    let t = estimate_text(&blind, &Projection::All, &EstimateParams::default(), 1000);
    assert_eq!(t.total_rows, 7);
}

#[test]
fn a_delta_log_lists_what_was_added_and_not_removed() {
    let logs = vec![
        concat_lines(&[
            r#"{"metaData":{"schemaString":"{\"fields\":[{\"name\":\"id\"},{\"type\":1},{\"name\":\"v\"}]}"}}"#,
            r#"{"add":{"path":"b.parquet","size":20,"stats":"{\"numRecords\":7,\"minValues\":{\"id\":1},\"maxValues\":{\"id\":9,\"v\":\"x\"}}"}}"#,
            "",
            "not json",
        ]),
        concat_lines(&[
            r#"{"add":{"path":"a.parquet","size":10,"stats":{"numRecords":3,"minValues":{"id":"2.5"}}}}"#,
            r#"{"add":{"path":"gone.parquet","size":99}}"#,
            r#"{"remove":{"path":"gone.parquet"}}"#,
        ]),
    ];
    let log = delta_metadata(&logs);
    assert_eq!(log.all_columns, vec!["id".to_string(), "v".to_string()]);
    let paths: Vec<&str> = log.files.iter().map(|f| f.path.as_str()).collect();
    assert_eq!(paths, vec!["a.parquet", "b.parquet"]);
    assert_eq!(log.files[0].size_bytes, 10);
    assert_eq!(log.files[0].record_count, 3);
    assert_eq!(log.files[1].record_count, 7);
    let b = &log.files[1].bounds;
    assert_eq!(b.len(), 2);
    let id = b.iter().find(|x| x.column == "id").unwrap().numeric(None, None);
    assert_eq!(id.min, Some(num(1.0)));
    assert_eq!(id.max, Some(num(9.0)));
    let v = b.iter().find(|x| x.column == "v").unwrap();
    assert_eq!(v.max, Some(Scalar::Text("x".into())));
    assert_eq!(v.numeric(None, None).max, None);
    // A text bound counts as the number it writes.
    let a = log.files[0].bounds[0].numeric(Some(2.5f64.to_bits()), None);
    assert_eq!(a.min, Some(num(2.5)));
}

fn concat_lines(lines: &[&str]) -> String {
    lines.join("\n")
}

#[test]
fn schemas_name_their_columns_or_are_refused() {
    assert_eq!(
        parse_delta_schema_columns(r#"{"fields":[{"name":"a"},{"name":"b"}]}"#).unwrap(),
        vec!["a".to_string(), "b".to_string()]
    );
    assert_eq!(
        parse_delta_schema_columns(r#"{"columns":[]}"#).unwrap_err().message(),
        "could not parse metadata: delta schema has no fields"
    );
    let err = parse_delta_schema_columns("{").unwrap_err();
    let expected = serde_json::from_str::<serde_json::Value>("{").unwrap_err().to_string();
    match err {
        EstimateError::Parse(why) => assert_eq!(why, expected),
        other => panic!("{:?}", other),
    }
}

#[test]
fn statistics_count_records_and_bound_columns() {
    let (n, bounds) = parse_delta_stats(r#"{"numRecords":5,"minValues":{"a":-1},"maxValues":{"b":2}}"#, "");
    assert_eq!(n, 5);
    assert_eq!(bounds.len(), 2);
    assert_eq!(bounds[0].column, "a");
    assert_eq!(bounds[0].min, Some(Scalar::Number((-1.0f64).to_bits())));
    assert_eq!(bounds[0].max, None);
    let (n, bounds) = parse_delta_stats("no json", "");
    assert_eq!(n, 0);
    assert!(bounds.is_empty());
}

#[test]
fn only_json_logs_are_read_and_in_order() {
    let names: Vec<String> = ["00002.json", "x.crc", "00001.json", "json", "00001.checkpoint.parquet"]
        .iter()
        .map(|s| s.to_string())
        .collect();
    assert_eq!(delta_log_names(&names), vec!["00001.json".to_string(), "00002.json".to_string()]);
}

#[test]
fn streaming_and_grouped_shapes() {
    assert_eq!(QueryShape::streaming(), QueryShape::default());
    let g = QueryShape::group_by(12);
    assert!(g.group_by);
    assert_eq!(g.distinct_groups, 12);
    let scan = raw_scan_estimate(40_000_000);
    assert_eq!(scan.scanned_uncompressed_bytes, 40_000_000);
    let ws = estimate_working_set(&scan, &QueryShape::streaming(), &EstimateParams::default());
    // The buffer is capped at 16 MiB.
    assert_eq!(ws.peak_working_set_bytes, 16 * 1024 * 1024);
    assert_eq!(ws.estimated_runtime_ms, 80);
}

#[test]
fn io_errors_name_the_path() {
    assert_eq!(
        EstimateError::Io("/x".into(), "gone".into()).message(),
        "io error reading /x: gone"
    );
}

#[test]
fn row_groups_find_columns_by_name() {
    let meta = two_rowgroup_parquet();
    let rg = &meta.row_groups[1];
    assert_eq!(rg.column(&"b".to_string()).unwrap().total_uncompressed_size, 40_000);
    assert!(rg.column(&"z".to_string()).is_none());
    assert!(cols(&["a"]).includes(&"a".to_string()));
    assert!(!cols(&["a"]).includes(&"b".to_string()));
    assert_eq!(Projection::All.projected_count(5), 5);
    assert_eq!(cols(&["a", "b"]).projected_count(5), 2);
}

#[test]
fn the_largest_annotation_counts() {
    assert_eq!(parse_explain_cardinality("│ EC: 5 ││ EC: 10 │"), Some(10));
    assert_eq!(parse_explain_cardinality("│ ~7 rows ││ ~1,200 rows ││ EC: 30 │"), Some(1_200));
    assert_eq!(parse_explain_cardinality("no estimate"), None);
}

#[test]
fn sources_are_named_after_any_white_space() {
    assert!(has_data_source("SELECT * FROM\nt"));
    assert!(has_data_source("SELECT * FROM(SELECT 1)"));
    assert!(has_data_source("SELECT a FROM\tt JOIN\nu"));
    assert!(!has_data_source("SELECT 1 AS from_now"));
}
