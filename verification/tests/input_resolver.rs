use p2p_node::input_resolver::local::{delta_latest_version, sort_objects, LocalFsProbe, LocalGlob};
use p2p_node::input_resolver::resolve::{ManifestResolver, Resolution, ResolveAction, LOCAL_PROBE};
use p2p_node::input_resolver::sources::{
    first_literal_after, fn_call_offsets, is_glob, looks_like_object_uri, parse_input_sources,
    provider_for_uri, string_literals, Place, SourceKind,
};
use p2p_node::input_resolver::InputResolveError;
use p2p_node::types::{ObjectVersion, PinnedObject};

#[test]
fn parses_read_parquet_object() {
    let s = parse_input_sources("SELECT * FROM read_parquet('s3://bucket/key.parquet')");
    assert!(!s.dynamic);
    assert_eq!(s.sources.len(), 1);
    assert_eq!(s.sources[0].kind, SourceKind::Object);
    assert_eq!(s.sources[0].uri, "s3://bucket/key.parquet");
}

#[test]
fn parses_glob() {
    let s = parse_input_sources("SELECT * FROM read_parquet('s3://b/year=2024/*.parquet')");
    assert_eq!(s.sources[0].kind, SourceKind::Glob);
}

#[test]
fn detects_dynamic_reader() {
    // A reader fed a bind variable / identifier has no string literal arg.
    let s = parse_input_sources("SELECT * FROM read_parquet(my_path)");
    assert!(s.dynamic);
}

#[test]
fn parses_delta_scan() {
    let s = parse_input_sources("SELECT * FROM delta_scan('s3://b/table')");
    assert_eq!(s.sources[0].kind, SourceKind::Delta);
}

#[test]
fn bare_object_literal_is_pinned() {
    let s = parse_input_sources("SELECT * FROM 's3://b/k.parquet'");
    assert_eq!(s.sources.len(), 1);
    assert_eq!(s.sources[0].kind, SourceKind::Object);
}

#[test]
fn pure_in_memory_has_no_sources() {
    let s = parse_input_sources("SELECT 1 + 1");
    assert!(s.sources.is_empty());
    assert!(!s.dynamic);
}

#[test]
fn provider_for_uri_maps_schemes() {
    assert_eq!(provider_for_uri("s3://b/k"), "s3");
    assert_eq!(provider_for_uri("gs://b/k"), "gcs");
    assert_eq!(provider_for_uri("abfss://c/p"), "az");
    assert_eq!(provider_for_uri("/local/path.parquet"), "local-fake");
}

/// A directory tree that answers what the local probe asks for.
struct Tree {
    files: Vec<(String, Vec<u8>)>,
}

impl Tree {
    fn head(&self, uri: &str) -> Result<PinnedObject, InputResolveError> {
        let path = LocalFsProbe::path_of(uri);
        match self.files.iter().find(|(p, _)| *p == path) {
            Some((_, bytes)) => Ok(LocalFsProbe::pin_file(uri, bytes)),
            None => Err(InputResolveError::Unavailable(path)),
        }
    }

    fn names_in(&self, dir: &str) -> Vec<String> {
        self.files
            .iter()
            .filter_map(|(p, _)| {
                let rest = p.strip_prefix(dir)?.strip_prefix('/')?;
                if rest.contains('/') {
                    None
                } else {
                    Some(rest.to_string())
                }
            })
            .collect()
    }

    fn list(&self, glob: &str) -> Result<Vec<PinnedObject>, InputResolveError> {
        let g = LocalGlob::parse(glob)?;
        let mut out: Vec<PinnedObject> = Vec::new();
        for name in self.names_in(&g.dir) {
            if g.matches(&name) {
                out.push(self.head(&g.uri_of(&name))?);
            }
        }
        Ok(sort_objects(out))
    }

    fn resolve(&self, sql: &str) -> Result<Option<Vec<PinnedObject>>, InputResolveError> {
        let resolver = ManifestResolver::new();
        let mut r: Resolution = match resolver.resolve(sql)? {
            Some(r) => r,
            None => return Ok(None),
        };
        loop {
            r = match r.action(&resolver) {
                ResolveAction::Head { uri, probe } => {
                    assert_eq!(probe, LOCAL_PROBE);
                    r.on_head(self.head(&uri))?
                }
                ResolveAction::List { glob, .. } => r.on_list(self.list(&glob))?,
                ResolveAction::ReadDeltaLog { dir } => {
                    let names = self.names_in(&format!("{}/_delta_log", dir));
                    r.on_delta(delta_latest_version(&names))?
                }
                ResolveAction::Refuse(e) => return Err(e),
                ResolveAction::Finished => return Ok(Some(r.finish())),
            };
        }
    }
}

fn tree(files: &[(&str, &[u8])]) -> Tree {
    Tree {
        files: files.iter().map(|(p, b)| (p.to_string(), b.to_vec())).collect(),
    }
}

#[test]
fn local_resolver_pins_file_by_content() {
    let sql = "SELECT * FROM read_parquet('/d/data.parquet')";
    let one = tree(&[("/d/data.parquet", b"rows-v1")]).resolve(sql).unwrap().unwrap();
    assert_eq!(one.len(), 1);
    // Changed bytes change the pin (drift is detectable).
    let two = tree(&[("/d/data.parquet", b"rows-v2-different")]).resolve(sql).unwrap().unwrap();
    assert_ne!(one, two);
    // A digest pins it.
    assert_eq!(
        one[0].version,
        ObjectVersion::ContentAddressed { sha256: hex::encode(blake3::hash(b"rows-v1").as_bytes()) }
    );
    assert_eq!(one[0].provider, "local-fake");
}

#[test]
fn local_glob_resolves_multiple_objects_deterministically() {
    let sql = "SELECT * FROM read_parquet('/d/*.parquet')";
    let t = tree(&[("/d/b.parquet", b"b"), ("/d/ignore.txt", b"x"), ("/d/a.parquet", b"a")]);
    let snap = t.resolve(sql).unwrap().unwrap();
    assert_eq!(snap.len(), 2, "two parquet files matched");
    // The order of the directory does not show.
    let u = tree(&[("/d/a.parquet", b"a"), ("/d/b.parquet", b"b"), ("/d/ignore.txt", b"x")]);
    assert_eq!(snap, u.resolve(sql).unwrap().unwrap());
}

#[test]
fn delta_table_pins_snapshot_version() {
    let sql = "SELECT * FROM delta_scan('/t')";
    let t = tree(&[
        ("/t/_delta_log/00000000000000000000.json", b"{}\n"),
        ("/t/_delta_log/00000000000000000001.json", b"{}\n"),
    ]);
    let snap = t.resolve(sql).unwrap().unwrap();
    match &snap[0].version {
        ObjectVersion::Lakehouse { format, snapshot_id } => {
            assert_eq!(format, "delta");
            assert_eq!(snapshot_id, "1", "latest commit version is pinned");
        }
        other => panic!("expected Lakehouse pin, got {:?}", other),
    }
}

#[test]
fn dynamic_sql_is_not_pinnable() {
    let r = ManifestResolver::new();
    let err = r.resolve("SELECT * FROM read_parquet(some_variable)").unwrap_err();
    assert!(matches!(err, InputResolveError::NotPinnable(_)));
}

#[test]
fn queries_without_inputs_need_no_pin() {
    assert_eq!(tree(&[]).resolve("SELECT 1").unwrap(), None);
}

#[test]
fn a_missing_file_is_unavailable() {
    let err = tree(&[]).resolve("SELECT * FROM read_csv('/nope.csv')").unwrap_err();
    assert_eq!(err, InputResolveError::Unavailable("/nope.csv".into()));
}

#[test]
fn unregistered_schemes_are_refused() {
    let err = tree(&[]).resolve("SELECT * FROM read_parquet('s3://b/k.parquet')").unwrap_err();
    assert_eq!(
        err,
        InputResolveError::NotPinnable("no version probe for s3://b/k.parquet".into())
    );
    let mut r = ManifestResolver::new();
    assert_eq!(r.probe_for("s3://b/k.parquet"), None);
    r.register(&["s3".to_string()], 7);
    assert_eq!(r.probe_for("s3://b/k.parquet"), Some(7));
    assert_eq!(r.probe_for("/local/x.parquet"), Some(LOCAL_PROBE));
    assert_eq!(ManifestResolver::empty().probe_for("/local/x.parquet"), None);
}

#[test]
fn literals_keep_their_quotes_and_characters() {
    let lits = string_literals("SELECT 'it''s', 'é' , 'open");
    let values: Vec<&str> = lits.iter().map(|l| l.value.as_str()).collect();
    assert_eq!(values, vec!["it's", "é", "open"]);
    assert_eq!(lits[0].start.byte, 7);
    assert_eq!(lits[1].start.byte, 16);
    // Past a character of two bytes the places in bytes and in characters part.
    assert_eq!(lits[2].start, Place { byte: 23, at: 22 });
    assert_eq!(&"SELECT 'it''s', 'é' , 'open"[23..24], "'");
}

#[test]
fn calls_are_found_by_name() {
    let bytes = |sql: &str| -> Vec<usize> {
        fn_call_offsets(sql, "read_csv").iter().map(|p| p.byte).collect()
    };
    assert_eq!(bytes("read_csv( x ), read_csv (y), xread_csv("), vec![9, 25]);
    assert_eq!(bytes("'é', read_csv(x)"), vec![15]);
    assert!(bytes("read_csv").is_empty());
}

#[test]
fn only_a_literal_argument_counts() {
    let sql = "f(['a', 'b'])";
    let chars: Vec<char> = sql.chars().collect();
    let lits = string_literals(sql);
    let call = Place { byte: 2, at: 2 };
    assert_eq!(first_literal_after(&chars, &lits, call), Some(0));
    let sql = "f(x, 'a')";
    let chars: Vec<char> = sql.chars().collect();
    let lits = string_literals(sql);
    assert_eq!(first_literal_after(&chars, &lits, call), None);
}

#[test]
fn globs_and_object_uris() {
    assert!(is_glob("a/*.csv"));
    assert!(is_glob("a/?.csv"));
    assert!(!is_glob("a/b.csv"));
    assert!(looks_like_object_uri("s3://b/k"));
    assert!(looks_like_object_uri("x.parquet"));
    assert!(!looks_like_object_uri("hello"));
}

#[test]
fn local_globs_take_one_star() {
    let g = LocalGlob::parse("/d/*.csv").unwrap();
    assert_eq!((g.dir.as_str(), g.pattern.as_str()), ("/d", "*.csv"));
    assert!(g.matches("a.csv"));
    assert!(!g.matches("a.txt"));
    assert!(matches!(LocalGlob::parse("/d/a*b*.csv"), Err(InputResolveError::NotPinnable(_))));
    assert_eq!(LocalFsProbe::path_of("file:///d/a.csv"), "/d/a.csv");
}

#[test]
fn the_highest_commit_is_the_version() {
    let names: Vec<String> = ["00000000000000000003.json", "00000000000000000010.json", "x.json"]
        .iter()
        .map(|s| s.to_string())
        .collect();
    assert_eq!(delta_latest_version(&names), Some(10));
    assert_eq!(delta_latest_version(&[]), None);
}

#[test]
fn a_table_without_commits_is_unavailable() {
    let err = tree(&[]).resolve("SELECT * FROM delta_scan('/t')").unwrap_err();
    assert_eq!(err.message(), "input source unavailable: no _delta_log commits at /t");
    let err = tree(&[]).resolve("SELECT * FROM read_csv('/t/*.csv')").unwrap_err();
    assert_eq!(err.message(), "input source unavailable: glob matched no objects: /t/*.csv");
}

#[test]
fn iceberg_tables_are_not_pinnable() {
    let err = tree(&[]).resolve("SELECT * FROM iceberg_scan('/t')").unwrap_err();
    assert_eq!(
        err.message(),
        "inputs cannot be statically pinned: iceberg table pinning requires an iceberg probe: /t"
    );
}

#[test]
fn sources_come_by_uri_and_once() {
    let s = parse_input_sources(
        "SELECT * FROM read_csv('z.csv'), read_csv('a.csv'), 'z.csv', delta_scan('m'), 'b?.csv'",
    );
    let found: Vec<(&str, SourceKind)> =
        s.sources.iter().map(|x| (x.uri.as_str(), x.kind)).collect();
    assert_eq!(
        found,
        vec![
            ("a.csv", SourceKind::Object),
            ("b?.csv", SourceKind::Glob),
            ("m", SourceKind::Delta),
            ("z.csv", SourceKind::Object),
        ]
    );
}

#[test]
fn a_table_without_a_probe_is_not_pinnable() {
    let sql = "SELECT * FROM delta_scan('s3://b/table')";
    let refused = InputResolveError::NotPinnable("no version probe for s3://b/table".into());
    let resolver = ManifestResolver::new();
    let r = resolver.resolve(sql).unwrap().unwrap();
    match r.action(&resolver) {
        ResolveAction::Refuse(e) => assert_eq!(e, refused),
        _ => panic!("not refused"),
    }
    // Without any probe a local table is refused as well.
    let none = ManifestResolver::empty();
    let r = none.resolve("SELECT * FROM delta_scan('/t')").unwrap().unwrap();
    match r.action(&none) {
        ResolveAction::Refuse(e) => {
            assert_eq!(e, InputResolveError::NotPinnable("no version probe for /t".into()))
        }
        _ => panic!("not refused"),
    }
    let r = resolver.resolve("SELECT * FROM delta_scan('/t')").unwrap().unwrap();
    assert!(matches!(r.action(&resolver), ResolveAction::ReadDeltaLog { .. }));
}

#[test]
fn comments_and_brackets_before_an_argument_are_passed_over() {
    for sql in [
        "SELECT * FROM read_parquet(/*c*/ 's3://b/k')",
        "SELECT * FROM read_parquet(( 's3://b/k' ))",
        "SELECT * FROM read_parquet(-- c\n ['s3://b/k', 'x'])",
        "SELECT * FROM read_parquet(/* a /* b */ c */('s3://b/k'))",
    ] {
        let s = parse_input_sources(sql);
        assert!(!s.dynamic, "{}", sql);
        assert_eq!(s.sources[0].uri, "s3://b/k", "{}", sql);
        assert_eq!(s.sources[0].kind, SourceKind::Object, "{}", sql);
    }
    assert!(parse_input_sources("SELECT * FROM read_parquet(/*c*/ x, 's3://b/k')").dynamic);
}
