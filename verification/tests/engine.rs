use p2p_node::engine::{
    Fixture, ResultSet, Value, DENY_UNREDACTED_SECRETS_SQL, LOCK_CONFIGURATION_SQL,
    STRICT_LOCKDOWN_SQL,
};
use p2p_node::{EngineError, JobContext, MockEngine, EXTENSION_HARDENING_SQL};

#[test]
fn strict_lockdown_bundles_the_shared_secret_and_lock_statements() {
    assert!(STRICT_LOCKDOWN_SQL.contains(DENY_UNREDACTED_SECRETS_SQL));
    assert!(STRICT_LOCKDOWN_SQL.contains(LOCK_CONFIGURATION_SQL));
    assert!(STRICT_LOCKDOWN_SQL.contains("SET enable_external_access=false;"));
    assert!(STRICT_LOCKDOWN_SQL.contains("SET disabled_filesystems='LocalFileSystem';"));
}

#[test]
fn deterministic_engine_agrees_with_itself() {
    let e1 = MockEngine::deterministic();
    let e2 = MockEngine::deterministic();
    let r1 = e1.respond("SELECT 1").unwrap();
    let r2 = e2.respond("SELECT 1").unwrap();
    assert_eq!(r1, r2);
}

#[test]
fn cheating_engine_diverges() {
    let honest = MockEngine::deterministic();
    let cheat = MockEngine::deterministic().cheating();
    let rh = honest.respond("SELECT 1").unwrap();
    let rc = cheat.respond("SELECT 1").unwrap();
    assert_ne!(rh, rc);
}

#[test]
fn derived_rows_hold_the_digest_of_the_query() {
    let rs = MockEngine::deterministic().respond("SELECT 1").unwrap();
    let digest = blake3::hash(b"SELECT 1");
    let bytes = digest.as_bytes();
    assert_eq!(rs.row_count(), 3);
    for i in 0..3usize {
        assert_eq!(rs.rows[i], vec![Value::Int(i as i64), Value::Int(bytes[i] as i64)]);
    }
}

#[test]
fn fixtures_come_back_as_they_were_pinned() {
    let pinned = ResultSet {
        columns: vec!["a".into()],
        rows: vec![vec![Value::Text("x".into())]],
    };
    let e = MockEngine::with_fixtures(vec![Fixture {
        sql: "SELECT a".into(),
        result: pinned.clone(),
    }]);
    assert_eq!(e.respond("SELECT a").unwrap(), pinned);
    assert_ne!(e.respond("SELECT b").unwrap(), pinned);
}

#[test]
fn a_failing_engine_reports_its_message() {
    let e = MockEngine::failing("disk is gone".into());
    let err = e.respond("SELECT 1").unwrap_err();
    assert_eq!(err, EngineError::Exec("disk is gone".into()));
    assert_eq!(err.message(), "execution failed: disk is gone");
    assert_eq!(
        EngineError::Rejected("no".into()).message(),
        "query rejected by lockdown policy: no"
    );
}

#[test]
fn an_empty_context_carries_nothing() {
    assert!(JobContext::empty().is_empty());
    let mut ctx = JobContext::empty();
    ctx.spill_dir = Some("/tmp/x".into());
    assert!(ctx.is_empty());
    assert!(EXTENSION_HARDENING_SQL.contains("SET autoload_known_extensions=false;"));
}
