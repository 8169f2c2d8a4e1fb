use p2p_node::datasource::setup::Unsealed;
use p2p_node::duckdb_engine::{
    effective_sql, engine_version, explain_cardinality, explain_sql, lockdown_steps,
    parquet_probe_sql, step_failed, value_estimated_size, value_from_ref, CellRef, EngineInit,
    Materializer, SetupStep,
};
use p2p_node::engine::{FloatValue, ResultSet, SignedInput, Value, LOCK_CONFIGURATION_SQL};
use p2p_node::{CloudCredential, DataSourceError, EngineError, ExecLease, JobContext, StorageSetup};

fn lease(max_spill_bytes: u64) -> ExecLease {
    ExecLease { memory_bytes: 256 * 1024 * 1024, threads: 1, max_spill_bytes }
}

fn sql_of(setup: &StorageSetup, lease: &ExecLease, ctx: &JobContext) -> Vec<String> {
    lockdown_steps(
        setup,
        lease,
        ctx,
        "/tmp/spill",
        Unsealed::Failed(DataSourceError::SealOpenFailed),
        Ok(CloudCredential::blank()),
        Ok(None),
    )
    .into_iter()
    .map(|s| match s {
        SetupStep::Run { sql, .. } => sql,
        SetupStep::Reject(why) => panic!("{}", why),
    })
    .collect()
}

#[test]
fn the_configuration_is_locked_last() {
    let steps = sql_of(&StorageSetup::strict(), &lease(0), &JobContext::empty());
    assert_eq!(steps.last().unwrap(), LOCK_CONFIGURATION_SQL);
    assert_eq!(steps.iter().filter(|s| s.contains("lock_configuration")).count(), 1);
}

#[test]
fn a_strict_engine_reads_no_local_files() {
    let steps = sql_of(&StorageSetup::strict(), &lease(0), &JobContext::empty());
    let all = steps.join("\n");
    assert!(all.contains("SET enable_external_access=false;"), "{}", all);
    assert!(all.contains("SET disabled_filesystems='LocalFileSystem';"), "{}", all);
    assert!(all.contains("SET allow_unredacted_secrets=false;"), "{}", all);
    assert!(all.contains("/tmp/spill"), "{}", all);
}

#[test]
fn allowed_paths_keep_the_file_system() {
    let mut setup = StorageSetup::strict();
    setup.allowed_local_paths = vec!["/data/fix".into()];
    let all = sql_of(&setup, &lease(16), &JobContext::empty()).join("\n");
    assert!(!all.contains("disabled_filesystems"), "{}", all);
    assert!(all.contains("/data/fix"), "{}", all);
    assert!(all.contains("max_temp_directory_size"), "{}", all);
}

#[test]
fn the_job_s_own_spill_directory_is_used() {
    let mut ctx = JobContext::empty();
    ctx.spill_dir = Some("/jobs/7".into());
    let all = sql_of(&StorageSetup::strict(), &lease(0), &ctx).join("\n");
    assert!(all.contains("/jobs/7"), "{}", all);
    assert!(!all.contains("/tmp/spill"), "{}", all);
}

#[test]
fn signed_inputs_replace_their_objects() {
    let mut ctx = JobContext::empty();
    ctx.signed_inputs =
        vec![SignedInput { uri: "s3://b/k".into(), url: "https://signed/k".into() }];
    assert_eq!(effective_sql("FROM 's3://b/k'", &ctx), "FROM 'https://signed/k'");
    assert_eq!(effective_sql("SELECT 1", &JobContext::empty()), "SELECT 1");
}

#[test]
fn failures_are_told_by_the_step() {
    let step = SetupStep::Run { sql: "SET x".into(), label: Some("lockdown".into()) };
    assert_eq!(
        step_failed(&step, "why"),
        Some(EngineError::Rejected("lockdown: why".into()))
    );
    let optional = SetupStep::Run { sql: "LOAD x;".into(), label: None };
    assert_eq!(step_failed(&optional, "why"), None);
    let rejected = SetupStep::Reject("no such provider".into());
    assert_eq!(
        step_failed(&rejected, ""),
        Some(EngineError::Rejected("no such provider".into()))
    );
}

#[test]
fn sizes_of_values() {
    assert_eq!(value_estimated_size(&Value::Text("abé".into())), 5);
    assert_eq!(value_estimated_size(&Value::Blob(vec![0; 10])), 10);
    assert_eq!(value_estimated_size(&Value::Null), 1);
    assert_eq!(value_estimated_size(&Value::Int(3)), 8);
}

#[test]
fn results_stop_at_their_cap() {
    let row = || vec![Value::Text("x".repeat(100))];
    let m = Materializer::new(150).push_row(row()).unwrap();
    assert!(m.push_row(row()).is_err());
    let m = Materializer::new(0).push_row(row()).unwrap().push_row(row()).unwrap();
    let rs = m.finish(vec!["a".into()]);
    assert_eq!(rs.row_count(), 2);
    assert_eq!(rs.columns, vec!["a".to_string()]);
}

#[test]
fn cells_become_values() {
    assert_eq!(value_from_ref(CellRef::Null), Value::Null);
    assert_eq!(value_from_ref(CellRef::Boolean(true)), Value::Bool(true));
    assert_eq!(value_from_ref(CellRef::Integer(-3)), Value::Int(-3));
    assert_eq!(value_from_ref(CellRef::HugeInt(12)), Value::Int(12));
    assert_eq!(
        value_from_ref(CellRef::HugeInt(i64::MAX as i128 + 1)),
        Value::Text("9223372036854775808".into())
    );
    assert_eq!(value_from_ref(CellRef::UBigInt(7)), Value::Int(7));
    let f = FloatValue { bits: 1.5f64.to_bits(), truncated: 1 };
    assert_eq!(value_from_ref(CellRef::Float(f)), Value::Float(f));
    assert_eq!(value_from_ref(CellRef::Text(b"hi".to_vec())), Value::Text("hi".into()));
    // Bytes that are no text are replaced.
    assert_eq!(
        value_from_ref(CellRef::Text(vec![b'a', 0xff])),
        Value::Text("a\u{fffd}".into())
    );
    assert_eq!(value_from_ref(CellRef::Blob(vec![1, 2])), Value::Blob(vec![1, 2]));
    assert_eq!(value_from_ref(CellRef::Other("Date(3)".into())), Value::Text("Date(3)".into()));
}

#[test]
fn encryption_needs_its_provider() {
    let mut setup = StorageSetup::strict();
    setup.temp_file_encryption = true;
    let without = EngineInit::new().on_load("json", None, false).unwrap();
    assert!(!without.finish(setup).temp_file_encryption);
    let mut setup = StorageSetup::strict();
    setup.temp_file_encryption = true;
    let with = EngineInit::new().on_load("httpfs", None, false).unwrap();
    assert!(with.finish(setup).temp_file_encryption);
    assert!(EngineInit::new().on_load("httpfs", Some("offline".into()), true).is_err());
    assert!(!EngineInit::new().on_load("httpfs", Some("offline".into()), false).unwrap().crypto);
}

#[test]
fn probes_quote_their_paths() {
    assert!(parquet_probe_sql("/a'b.parquet").contains("'/a''b.parquet'"));
    assert_eq!(explain_sql("SELECT 1"), "EXPLAIN SELECT 1");
    assert!(engine_version("v1.5.4").contains("1.5.4"));
    let plan = ResultSet {
        columns: vec!["explain_key".into(), "explain_value".into()],
        rows: vec![vec![Value::Text("physical_plan".into()), Value::Text("~1,234 rows".into())]],
    };
    assert_eq!(explain_cardinality(&plan), Some(1_234));
}

#[test]
fn text_of_any_script_is_kept() {
    assert_eq!(
        value_from_ref(CellRef::Text("naïve €".as_bytes().to_vec())),
        Value::Text("naïve €".into())
    );
}
