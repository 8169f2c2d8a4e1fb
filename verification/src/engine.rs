//! The execution engine's vocabulary: lockdown statements, errors, leases and the
//! per-job context.

use vstd::prelude::*;
use vstd::string::StringSliceAdditionalSpecFns;
use crate::digest::{blake3_digest, blake3_hash};
use crate::types::InputSnapshot;

verus! {

/// Statements that keep extensions from being installed or loaded behind the
/// operator's back. Applied before any `LOAD`.
pub const EXTENSION_HARDENING_SQL: &'static str = "SET autoinstall_known_extensions=false; SET autoload_known_extensions=false; SET allow_community_extensions=false; SET allow_unsigned_extensions=false;";

/// Refuse to show unredacted secrets.
pub const DENY_UNREDACTED_SECRETS_SQL: &'static str = "SET allow_unredacted_secrets=false;";

/// Lock the configuration. Always applied last.
pub const LOCK_CONFIGURATION_SQL: &'static str = "SET lock_configuration=true;";

/// The whole strict lockdown of an engine that reads no local fixtures and has no
/// remote access.
pub const STRICT_LOCKDOWN_SQL: &'static str = "SET enable_external_access=false; SET disabled_filesystems='LocalFileSystem'; SET allow_unredacted_secrets=false; SET lock_configuration=true;";

/// Errors from query execution.
#[derive(Debug, Clone, PartialEq, Eq)]
pub enum EngineError {
    Exec(String),
    Rejected(String),
}

impl EngineError {
    /// The text of the error.
    pub open spec fn text(self) -> Seq<char> {
        match self {
            EngineError::Exec(s) => "execution failed: "@ + s@,
            EngineError::Rejected(s) => "query rejected by lockdown policy: "@ + s@,
        }
    }

    /// The text of the error.
    pub fn message(&self) -> (r: String)
        ensures
            r@ == self.text(),
    {
        match self {
            EngineError::Exec(s) => {
                let mut r = "execution failed: ".to_owned();
                r.append(s.as_str());
                r
            },
            EngineError::Rejected(s) => {
                let mut r = "query rejected by lockdown policy: ".to_owned();
                r.append(s.as_str());
                r
            },
        }
    }
}

/// The resources granted to one execution.
#[derive(Debug, Clone, Copy, PartialEq, Eq, Structural)]
pub struct ExecLease {
    pub memory_bytes: u64,
    pub threads: u32,
    /// The most bytes the job may spill to disk (`0` for no bound).
    pub max_spill_bytes: u64,
}

/// A scoped, short-lived storage credential.
#[derive(Debug, Clone, PartialEq, Eq)]
pub struct ScopedCredential {
    pub provider: String,
    pub token: String,
    pub prefix: String,
    pub expires_at: u64,
}

/// A pinned object and the URL it may be read at.
#[derive(Debug, Clone, PartialEq, Eq)]
pub struct SignedInput {
    pub uri: String,
    pub url: String,
}

/// A named at-rest decryption key.
#[derive(Debug, Clone, PartialEq, Eq)]
pub struct ParquetKey {
    pub name: String,
    pub key: Vec<u8>,
}

/// What a job brings along besides its query text.
#[derive(Debug, Clone, PartialEq, Eq)]
pub struct JobContext {
    pub credential: Option<ScopedCredential>,
    pub parquet_keys: Vec<ParquetKey>,
    pub input_snapshot: Option<InputSnapshot>,
    pub signed_inputs: Vec<SignedInput>,
    /// The directory the job may spill to; `None` for one of the engine's own.
    pub spill_dir: Option<String>,
}

impl JobContext {
    /// A context that brings nothing along.
    pub fn empty() -> (r: JobContext)
        ensures
            r.credential is None,
            r.parquet_keys@.len() == 0,
            r.input_snapshot is None,
            r.signed_inputs@.len() == 0,
            r.spill_dir is None,
    {
        JobContext {
            credential: None,
            parquet_keys: Vec::new(),
            input_snapshot: None,
            signed_inputs: Vec::new(),
            spill_dir: None,
        }
    }

    /// Whether the job brings no credential, key, pinned input or signed URL.
    pub fn is_empty(&self) -> (r: bool)
        ensures
            r == (self.credential is None && self.parquet_keys@.len() == 0
                && self.input_snapshot is None && self.signed_inputs@.len() == 0),
    {
        self.credential.is_none() && self.parquet_keys.len() == 0 && self.input_snapshot.is_none()
            && self.signed_inputs.len() == 0
    }
}

impl Default for JobContext {
    fn default() -> (r: JobContext)
        ensures
            r.credential is None,
            r.parquet_keys@.len() == 0,
            r.input_snapshot is None,
            r.signed_inputs@.len() == 0,
            r.spill_dir is None,
    {
        JobContext::empty()
    }
}

/// A floating-point value by its bit pattern, with its integer part (saturating).
#[derive(Debug, Clone, Copy, PartialEq, Eq, Structural)]
pub struct FloatValue {
    pub bits: u64,
    pub truncated: i64,
}

/// A result cell.
#[derive(Debug, Clone, PartialEq, Eq)]
pub enum Value {
    Null,
    Bool(bool),
    Int(i64),
    Float(FloatValue),
    Text(String),
    Blob(Vec<u8>),
}

/// A materialized query result.
#[derive(Debug, Clone, PartialEq, Eq)]
pub struct ResultSet {
    pub columns: Vec<String>,
    pub rows: Vec<Vec<Value>>,
}

impl Value {
    /// Another copy of the cell.
    pub fn duplicate(&self) -> (r: Value)
        ensures
            r.same_as(*self),
    {
        match self {
            Value::Null => Value::Null,
            Value::Bool(b) => Value::Bool(*b),
            Value::Int(i) => Value::Int(*i),
            Value::Float(f) => Value::Float(*f),
            Value::Text(s) => Value::Text(s.clone()),
            Value::Blob(b) => {
                let mut c: Vec<u8> = Vec::new();
                let mut i: usize = 0;
                while i < b.len()
                    invariant
                        i <= b@.len(),
                        c@ == b@.take(i as int),
                    decreases b@.len() - i,
                {
                    c.push(b[i]);
                    i = i + 1;
                    assert(c@ =~= b@.take(i as int));
                }
                assert(b@.take(i as int) =~= b@);
                Value::Blob(c)
            },
        }
    }

    /// Whether two cells hold the same value.
    pub open spec fn same_as(self, other: Value) -> bool {
        match self {
            Value::Text(s) => other is Text && other->Text_0@ == s@,
            Value::Blob(b) => other is Blob && other->Blob_0@ == b@,
            _ => self == other,
        }
    }
}

impl ResultSet {
    /// Whether two results hold the same columns and rows.
    pub open spec fn same_as(self, other: ResultSet) -> bool {
        &&& self.columns@.len() == other.columns@.len()
        &&& forall|i: int|
            0 <= i < self.columns@.len() ==> (#[trigger] self.columns@[i])@ == other.columns@[i]@
        &&& self.rows@.len() == other.rows@.len()
        &&& forall|i: int|
            0 <= i < self.rows@.len() ==> same_row((#[trigger] self.rows@[i])@, other.rows@[i]@)
    }

    /// Another copy of the result.
    pub fn duplicate(&self) -> (r: ResultSet)
        ensures
            r.same_as(*self),
    {
        let mut rows: Vec<Vec<Value>> = Vec::new();
        let mut i: usize = 0;
        while i < self.rows.len()
            invariant
                i <= self.rows@.len(),
                rows@.len() == i,
                forall|k: int| 0 <= k < i ==> same_row((#[trigger] rows@[k])@, self.rows@[k]@),
            decreases self.rows@.len() - i,
        {
            rows.push(copy_row(&self.rows[i]));
            i = i + 1;
        }
        ResultSet { columns: crate::types::copy_strs(&self.columns), rows }
    }

    pub fn row_count(&self) -> (r: usize)
        ensures
            r == self.rows@.len(),
    {
        self.rows.len()
    }
}

/// Whether two rows hold the same cells.
pub open spec fn same_row(a: Seq<Value>, b: Seq<Value>) -> bool {
    a.len() == b.len() && forall|i: int| 0 <= i < a.len() ==> (#[trigger] a[i]).same_as(b[i])
}

fn copy_row(row: &[Value]) -> (r: Vec<Value>)
    ensures
        same_row(r@, row@),
{
    let mut r: Vec<Value> = Vec::new();
    let mut i: usize = 0;
    while i < row.len()
        invariant
            i <= row@.len(),
            r@.len() == i,
            forall|k: int| 0 <= k < i ==> (#[trigger] r@[k]).same_as(row@[k]),
        decreases row@.len() - i,
    {
        r.push(row[i].duplicate());
        i = i + 1;
    }
    r
}

/// A result pinned to a query text.
#[derive(Debug, Clone, PartialEq, Eq)]
pub struct Fixture {
    pub sql: String,
    pub result: ResultSet,
}

/// The result pinned to `sql`, if there is one.
pub open spec fn fixture_for(fixtures: Seq<Fixture>, sql: Seq<char>) -> Option<ResultSet>
    decreases fixtures.len(),
{
    if fixtures.len() == 0 {
        None
    } else if fixtures[0].sql@ == sql {
        Some(fixtures[0].result)
    } else {
        fixture_for(fixtures.subrange(1, fixtures.len() as int), sql)
    }
}

/// Whether each query text is pinned once.
pub open spec fn texts_once(fixtures: Seq<Fixture>) -> bool {
    forall|i: int, j: int|
        0 <= i < j < fixtures.len() ==> (#[trigger] fixtures[i]).sql@ != (#[trigger] fixtures[j]).sql@
}

/// Every fixture is the answer to its own text.
pub proof fn fixtures_answer_their_texts(fixtures: Seq<Fixture>, i: int)
    requires
        texts_once(fixtures),
        0 <= i < fixtures.len(),
    ensures
        fixture_for(fixtures, fixtures[i].sql@) == Some(fixtures[i].result),
    decreases fixtures.len(),
{
    if i > 0 {
        let rest = fixtures.subrange(1, fixtures.len() as int);
        assert(fixtures[0].sql@ != fixtures[i].sql@);
        assert(rest[i - 1] == fixtures[i]);
        fixtures_answer_their_texts(rest, i - 1);
    }
}

/// A deterministic engine without a database: results are pinned by fixtures or
/// derived from the query text, so that honest replicas agree.
#[derive(Debug, Clone, PartialEq, Eq)]
pub struct MockEngine {
    /// Results pinned to query texts.
    pub fixtures: Vec<Fixture>,
    /// Whether to return a corrupted result.
    pub perturb: bool,
    /// Where set, every execution fails with this text.
    pub fail_with: Option<String>,
}

impl Default for MockEngine {
    fn default() -> (r: MockEngine)
        ensures
            r.fixtures@.len() == 0,
            !r.perturb,
            r.fail_with is None,
    {
        MockEngine::deterministic()
    }
}

/// The i-th derived row: its index and a byte of the query's digest.
pub open spec fn derived_row(sql: Seq<char>, i: int) -> Seq<Value> {
    seq![
        Value::Int(i as i64),
        Value::Int(blake3_digest(vstd::utf8::encode_utf8(sql))[i] as i64),
    ]
}

impl MockEngine {
    pub fn deterministic() -> (r: MockEngine)
        ensures
            r.fixtures@.len() == 0,
            !r.perturb,
            r.fail_with is None,
    {
        MockEngine { fixtures: Vec::new(), perturb: false, fail_with: None }
    }

    /// An engine that answers the fixtures' texts with their results.
    pub fn with_fixtures(fixtures: Vec<Fixture>) -> (r: MockEngine)
        requires
            texts_once(fixtures@),
        ensures
            r.fixtures == fixtures,
            texts_once(r.fixtures@),
            !r.perturb,
            r.fail_with is None,
    {
        MockEngine { fixtures, perturb: false, fail_with: None }
    }

    /// The engine version that is folded into query hashes.
    pub fn version(&self) -> (r: String)
        ensures
            r@ == "mock-1"@,
    {
        "mock-1".to_owned()
    }

    /// An engine whose every execution fails with `msg`.
    pub fn failing(msg: String) -> (r: MockEngine)
        ensures
            r.fixtures@.len() == 0,
            !r.perturb,
            r.fail_with == Some(msg),
    {
        MockEngine { fixtures: Vec::new(), perturb: false, fail_with: Some(msg) }
    }

    /// The same engine, returning corrupted results.
    pub fn cheating(self) -> (r: MockEngine)
        ensures
            r == (MockEngine { perturb: true, ..self }),
    {
        MockEngine { perturb: true, ..self }
    }

    /// The result derived from the query text: three rows of an index and a digest byte.
    fn derive(&self, sql: &str) -> (r: ResultSet)
        ensures
            r.columns@.len() == 2,
            r.columns@[0]@ == "k"@,
            r.columns@[1]@ == "v"@,
            r.rows@.len() == 3,
            forall|i: int| 0 <= i < 3 ==> (#[trigger] r.rows@[i])@ == derived_row(sql@, i),
    {
        let digest = blake3_hash(sql.as_bytes());
        let mut columns: Vec<String> = Vec::new();
        columns.push("k".to_owned());
        columns.push("v".to_owned());
        let mut rows: Vec<Vec<Value>> = Vec::new();
        let mut i: usize = 0;
        while i < 3
            invariant
                i <= 3,
                digest@ == blake3_digest(vstd::utf8::encode_utf8(sql@)),
                digest@.len() == 32,
                rows@.len() == i,
                forall|k: int| 0 <= k < i ==> (#[trigger] rows@[k])@ == derived_row(sql@, k),
            decreases 3 - i,
        {
            let mut row: Vec<Value> = Vec::new();
            row.push(Value::Int(i as i64));
            row.push(Value::Int(digest[i] as i64));
            assert(row@ =~= derived_row(sql@, i as int));
            rows.push(row);
            i = i + 1;
        }
        ResultSet { columns, rows }
    }

    /// The honest answer to `sql`: the pinned result, or the derived rows.
    pub open spec fn honest_answer(&self, sql: Seq<char>, rs: ResultSet) -> bool {
        match fixture_for(self.fixtures@, sql) {
            Some(f) => rs.same_as(f),
            None => {
                &&& rs.columns@.len() == 2
                &&& rs.columns@[0]@ == "k"@
                &&& rs.columns@[1]@ == "v"@
                &&& rs.rows@.len() == 3
                &&& forall|i: int| 0 <= i < 3 ==> (#[trigger] rs.rows@[i])@ == derived_row(sql, i)
            },
        }
    }

    /// The row that a cheating engine adds.
    pub open spec fn is_tampered_row(row: Seq<Value>) -> bool {
        row.len() == 2 && row[0] == Value::Int(-1i64) && row[1] is Text && row[1]->Text_0@
            == "tampered"@
    }

    /// Whether `rs` is what this engine answers when it does not fail.
    pub open spec fn answers(&self, sql: Seq<char>, rs: ResultSet) -> bool {
        if self.perturb {
            exists|honest: ResultSet| #[trigger]
                self.honest_answer(sql, honest) && rs.columns == honest.columns && rs.rows@.len()
                    == honest.rows@.len() + 1 && rs.rows@.drop_last() == honest.rows@
                    && MockEngine::is_tampered_row(rs.rows@.last()@)
        } else {
            self.honest_answer(sql, rs)
        }
    }

    fn honest(&self, sql: &str) -> (r: ResultSet)
        ensures
            self.honest_answer(sql@, r),
    {
        let n: usize = self.fixtures.len();
        let mut i: usize = 0;
        assert(self.fixtures@.subrange(0, n as int) =~= self.fixtures@);
        while i < n
            invariant
                i <= n,
                n == self.fixtures@.len(),
                fixture_for(self.fixtures@.subrange(i as int, n as int), sql@) == fixture_for(
                    self.fixtures@,
                    sql@,
                ),
            decreases n - i,
        {
            let ghost rest = self.fixtures@.subrange(i as int, n as int);
            if crate::text::str_eq(self.fixtures[i].sql.as_str(), sql) {
                return self.fixtures[i].result.duplicate();
            }
            i = i + 1;
            assert(rest.subrange(1, rest.len() as int) =~= self.fixtures@.subrange(
                i as int,
                n as int,
            ));
        }
        self.derive(sql)
    }

    /// Answer a query: the configured failure, or the honest answer, with one
    /// tampered row more from a cheating engine.
    pub fn respond(&self, sql: &str) -> (r: Result<ResultSet, EngineError>)
        ensures
            match self.fail_with {
                Some(msg) => r == Err::<ResultSet, EngineError>(EngineError::Exec(msg)),
                None => r is Ok && self.answers(sql@, r->Ok_0),
            },
    {
        if let Some(msg) = &self.fail_with {
            return Err(EngineError::Exec(msg.clone()));
        }
        let mut rs = self.honest(sql);
        let ghost honest = rs;
        if self.perturb {
            let mut row: Vec<Value> = Vec::new();
            row.push(Value::Int(-1));
            row.push(Value::Text("tampered".to_owned()));
            rs.rows.push(row);
            proof {
                assert(rs.rows@.drop_last() =~= honest.rows@);
                assert(self.honest_answer(sql@, honest));
            }
        }
        Ok(rs)
    }
}

} // verus!
