//! The locked-down engine: what is set up before an untrusted query runs, and how its
//! result is taken in.

use vstd::prelude::*;
use vstd::string::StringSliceAdditionalSpecFns;
use crate::datasource::secrets::{
    doubled, literal_of, no_options, quotes_are_doubled, rewrite_signed_urls, rewritten, signed_views, sql_lit,
};
use crate::datasource::setup::{
    provider_answer, same_credential, Registered, StorageSetup, Unsealed,
};
use crate::datasource::{sealed, CloudCredential, DataSourceError, DataSourceErrorView};
use crate::engine::{
    EngineError, ExecLease, FloatValue, JobContext, ParquetKey, ResultSet, ScopedCredential, Value,
    DENY_UNREDACTED_SECRETS_SQL, EXTENSION_HARDENING_SQL, LOCK_CONFIGURATION_SQL,
};
use crate::estimator::explain::{largest_count, parse_explain_cardinality};
use crate::math::{max_int, min_int, sat_add_u64};
use crate::scan::join;
use crate::text::{
    ascii_lower_seq, ascii_lowercase, byte_len, decimal, decimal_seq, replace, replace_seq,
};
use crate::types::{opt_str, strs};

verus! {

/// One step of setting up the engine.
#[derive(Debug, Clone, PartialEq, Eq)]
pub enum SetupStep {
    /// Run statements. A failure rejects the job under the label; without a label it is
    /// passed over.
    Run { sql: String, label: Option<String> },
    /// The job is rejected, and why.
    Reject(String),
}

/// `SetupStep` over mathematical values.
pub enum StepView {
    Run { sql: Seq<char>, label: Option<Seq<char>> },
    Reject(Seq<char>),
}

impl View for SetupStep {
    type V = StepView;

    open spec fn view(&self) -> StepView {
        match self {
            SetupStep::Run { sql, label } => StepView::Run { sql: sql@, label: opt_str(*label) },
            SetupStep::Reject(why) => StepView::Reject(why@),
        }
    }
}

pub open spec fn step_views(v: Seq<SetupStep>) -> Seq<StepView> {
    v.map_values(|s: SetupStep| s@)
}

/// A statement whose failure rejects the job.
pub open spec fn must(sql: Seq<char>, label: Seq<char>) -> StepView {
    StepView::Run { sql, label: Some(label) }
}

/// A text with its single quotes doubled.
pub open spec fn quoted(s: Seq<char>) -> Seq<char> {
    replace_seq(s, "'"@, "''"@)
}

fn quote(s: &str) -> (r: String)
    ensures
        r@ == quoted(s@),
{
    proof {
        reveal_strlit("'");
    }
    replace(s, "'", "''")
}

/// The memory limit in megabytes: what the lease grants, but at least 64.
pub open spec fn memory_mb(lease: ExecLease) -> nat {
    max_int(lease.memory_bytes as int / 1_048_576, 64) as nat
}

/// The statements that set the budget and the spill directory.
pub open spec fn budget_sql(lease: ExecLease, encrypt: bool, spill_dir: Seq<char>) -> Seq<char> {
    let base = "SET memory_limit='"@ + decimal_seq(memory_mb(lease)) + "MB'; SET threads="@
        + decimal_seq(max_int(lease.threads as int, 1) as nat) + "; SET temp_directory='"@ + quoted(
        spill_dir,
    ) + "';"@;
    let with_encryption = if encrypt {
        base + " SET temp_file_encryption=true;"@
    } else {
        base
    };
    if lease.max_spill_bytes > 0 {
        with_encryption + " SET max_temp_directory_size='"@ + decimal_seq(
            lease.max_spill_bytes as nat,
        ) + "B';"@
    } else {
        with_encryption
    }
}

/// Loading the extensions, in order. Whether a failure rejects the job is configured.
pub open spec fn load_steps(extensions: Seq<Seq<char>>, required: bool) -> Seq<StepView>
    decreases extensions.len(),
{
    if extensions.len() == 0 {
        Seq::empty()
    } else {
        load_steps(extensions.drop_last(), required).push(
            StepView::Run {
                sql: "LOAD "@ + extensions.last() + ";"@,
                label: if required {
                    Some("LOAD "@ + extensions.last())
                } else {
                    None
                },
            },
        )
    }
}

/// String literals with commas between them.
pub open spec fn literal_list(paths: Seq<Seq<char>>) -> Seq<char>
    decreases paths.len(),
{
    if paths.len() == 0 {
        Seq::empty()
    } else if paths.len() == 1 {
        literal_of(paths[0])
    } else {
        literal_list(paths.drop_last()) + ", "@ + literal_of(paths.last())
    }
}

/// Allowing the configured local directories, where there are any.
pub open spec fn directory_steps(paths: Seq<Seq<char>>) -> Seq<StepView> {
    if paths.len() == 0 {
        Seq::empty()
    } else {
        seq![
            must(
                "SET allowed_directories=["@ + literal_list(paths) + "];"@,
                "allowed_directories"@,
            ),
        ]
    }
}

/// Bytes read as text, with what is no UTF-8 replaced.
pub uninterp spec fn utf8_lossy(bytes: Seq<u8>) -> Seq<char>;

/// `String::from_utf8_lossy`: the text of the bytes, which depends on nothing else.
/// Bytes that encode a text yield that text.
#[verifier::external_body]
fn text_of(bytes: &[u8]) -> (r: String)
    ensures
        r@ == utf8_lossy(bytes@),
        forall|s: Seq<char>| bytes@ == #[trigger] vstd::utf8::encode_utf8(s) ==> r@ == s,
{
    String::from_utf8_lossy(bytes).into_owned()
}

/// The statement that adds a decryption key.
pub open spec fn key_sql(key: ParquetKey) -> Seq<char> {
    "PRAGMA add_parquet_key('"@ + quoted(key.name@) + "', '"@ + quoted(utf8_lossy(key.key@))
        + "');"@
}

/// Adding the job's decryption keys, in order.
pub open spec fn key_steps(keys: Seq<ParquetKey>) -> Seq<StepView>
    decreases keys.len(),
{
    if keys.len() == 0 {
        Seq::empty()
    } else {
        key_steps(keys.drop_last()).push(must(key_sql(keys.last()), "add_parquet_key"@))
    }
}

/// Whether `steps` are those of a job's credential, given what opening and decoding its
/// token gave. A credential that cannot be used rejects the job.
pub open spec fn are_credential_steps(
    steps: Seq<StepView>,
    setup: StorageSetup,
    credential: Option<ScopedCredential>,
    unsealed: Unsealed,
    decoded: Result<CloudCredential, String>,
    custom: Result<Option<String>, DataSourceError>,
) -> bool {
    match credential {
        None => steps.len() == 0,
        Some(cred) => if sealed(cred.token@) && !setup.sealing {
            steps == seq![
                StepView::Reject(
                    "credential: "@ + DataSourceErrorView::SealingKeyUnavailable.text(),
                ),
            ]
        } else if sealed(cred.token@) && unsealed is Failed {
            steps == seq![StepView::Reject("credential: "@ + unsealed->Failed_0@.text())]
        } else {
            exists|plain: ScopedCredential, answer: Result<Option<String>, DataSourceError>|
                same_credential(
                    plain,
                    if sealed(cred.token@) {
                        (ScopedCredential { token: unsealed->Token_0, ..cred })
                    } else {
                        cred
                    },
                ) && #[trigger] is_secret_answer(setup, plain, decoded, custom, answer) && steps
                    == answer_steps(answer)
        },
    }
}

/// Whether `answer` is what the setup's providers answer for a credential.
pub open spec fn is_secret_answer(
    setup: StorageSetup,
    cred: ScopedCredential,
    decoded: Result<CloudCredential, String>,
    custom: Result<Option<String>, DataSourceError>,
    answer: Result<Option<String>, DataSourceError>,
) -> bool {
    match setup.providers.registered(cred.provider@) {
        Some(Registered::Known(p)) => provider_answer(
            answer,
            p,
            "job_secret"@,
            cred,
            decoded,
            match setup.providers.options_set(cred.provider@) {
                Some(o) => o,
                None => no_options(),
            },
        ),
        Some(Registered::Custom(_)) => answer == custom,
        None => answer is Err && answer->Err_0@ == DataSourceErrorView::UnknownProvider(
            cred.provider@,
        ),
    }
}

/// The steps of a provider's answer.
pub open spec fn answer_steps(answer: Result<Option<String>, DataSourceError>) -> Seq<StepView> {
    match answer {
        Ok(Some(sql)) => seq![must(sql@, "create secret"@)],
        Ok(None) => Seq::empty(),
        Err(e) => seq![StepView::Reject("credential: "@ + e@.text())],
    }
}

/// Closing the sandbox: the network as configured, no local file system where no
/// directory is allowed, no secrets shown, and the configuration locked last.
pub open spec fn closing_steps(remote: bool, paths: Seq<Seq<char>>) -> Seq<StepView> {
    let external = seq![
        must(
            "SET enable_external_access="@ + (if remote {
                "true"@
            } else {
                "false"@
            }) + ";"@,
            "external access"@,
        ),
    ];
    let files = if paths.len() == 0 {
        external.push(
            must("SET disabled_filesystems='LocalFileSystem';"@, "disabled_filesystems"@),
        )
    } else {
        external
    };
    files.push(must(DENY_UNREDACTED_SECRETS_SQL@, "redact secrets"@)).push(
        must(LOCK_CONFIGURATION_SQL@, "lock configuration"@),
    )
}

/// Where the job spills: the directory it was given, or the engine's own.
pub open spec fn spill_dir_of(ctx: JobContext, own_dir: Seq<char>) -> Seq<char> {
    match ctx.spill_dir {
        Some(dir) => dir@,
        None => own_dir,
    }
}

/// What precedes the job's credential.
pub open spec fn opening_steps(
    setup: StorageSetup,
    lease: ExecLease,
    ctx: JobContext,
    own_dir: Seq<char>,
) -> Seq<StepView> {
    seq![
        must(
            budget_sql(lease, setup.temp_file_encryption, spill_dir_of(ctx, own_dir)),
            "budget setup"@,
        ),
        must(EXTENSION_HARDENING_SQL@, "extension hardening"@),
    ] + load_steps(strs(setup.preload_extensions@), setup.require_extensions) + directory_steps(
        strs(setup.allowed_local_paths@),
    ) + key_steps(ctx.parquet_keys@)
}

fn push_step(steps: &mut Vec<SetupStep>, sql: String, label: &str)
    ensures
        step_views(final(steps)@) == step_views(old(steps)@).push(must(sql@, label@)),
{
    let ghost before = step_views(steps@);
    let step = SetupStep::Run { sql, label: Some(label.to_owned()) };
    steps.push(step);
    assert(step_views(steps@) =~= before.push(step@));
}

fn push_reject(steps: &mut Vec<SetupStep>, why: String)
    ensures
        step_views(final(steps)@) == step_views(old(steps)@).push(StepView::Reject(why@)),
{
    let ghost before = step_views(steps@);
    let step = SetupStep::Reject(why);
    steps.push(step);
    assert(step_views(steps@) =~= before.push(step@));
}

fn budget(lease: &ExecLease, encrypt: bool, spill_dir: &str) -> (r: String)
    ensures
        r@ == budget_sql(*lease, encrypt, spill_dir@),
{
    let granted: u64 = lease.memory_bytes / 1_048_576;
    let mb: u64 = if granted > 64 {
        granted
    } else {
        64
    };
    let threads: u32 = if lease.threads > 1 {
        lease.threads
    } else {
        1
    };
    let mut r = join("SET memory_limit='", decimal(mb).as_str());
    r.append("MB'; SET threads=");
    r.append(decimal(threads as u64).as_str());
    r.append("; SET temp_directory='");
    r.append(quote(spill_dir).as_str());
    r.append("';");
    if encrypt {
        r.append(" SET temp_file_encryption=true;");
    }
    if lease.max_spill_bytes > 0 {
        r.append(" SET max_temp_directory_size='");
        r.append(decimal(lease.max_spill_bytes).as_str());
        r.append("B';");
    }
    r
}

fn add_loads(steps: &mut Vec<SetupStep>, extensions: &[String], required: bool)
    ensures
        step_views(final(steps)@) == step_views(old(steps)@) + load_steps(
            strs(extensions@),
            required,
        ),
{
    let ghost start = step_views(steps@);
    let ghost names = strs(extensions@);
    let mut i: usize = 0;
    assert(names.take(0) =~= Seq::empty());
    assert(start =~= start + load_steps(names.take(0), required));
    while i < extensions.len()
        invariant
            i <= extensions@.len(),
            names == strs(extensions@),
            step_views(steps@) == start + load_steps(names.take(i as int), required),
        decreases extensions@.len() - i,
    {
        proof {
            let next = names.take(i + 1);
            assert(next.drop_last() =~= names.take(i as int));
            assert(next.last() == extensions@[i as int]@);
        }
        let ghost before = step_views(steps@);
        let load = join("LOAD ", extensions[i].as_str());
        let sql = join(load.as_str(), ";");
        let step = SetupStep::Run {
            sql,
            label: if required {
                Some(load)
            } else {
                None
            },
        };
        steps.push(step);
        proof {
            assert(step_views(steps@) =~= before.push(step@));
            assert(step_views(steps@) =~= start + load_steps(names.take(i + 1), required));
        }
        i = i + 1;
    }
    assert(names.take(i as int) =~= names);
}

fn list_literals(paths: &[String]) -> (r: String)
    ensures
        r@ == literal_list(strs(paths@)),
{
    let ghost views = strs(paths@);
    let mut r = String::new();
    let mut i: usize = 0;
    assert(r@ =~= Seq::empty());
    while i < paths.len()
        invariant
            i <= paths@.len(),
            views == strs(paths@),
            r@ == literal_list(views.take(i as int)),
        decreases paths@.len() - i,
    {
        proof {
            let next = views.take(i + 1);
            assert(next.drop_last() =~= views.take(i as int));
            assert(next.last() == paths@[i as int]@);
        }
        let lit = sql_lit(paths[i].as_str());
        if i > 0 {
            r.append(", ");
        }
        r.append(lit.as_str());
        proof {
            if i == 0 {
                assert(r@ =~= lit@);
            }
        }
        i = i + 1;
    }
    assert(views.take(i as int) =~= views);
    r
}

fn add_keys(steps: &mut Vec<SetupStep>, keys: &[ParquetKey])
    ensures
        step_views(final(steps)@) == step_views(old(steps)@) + key_steps(keys@),
{
    let ghost start = step_views(steps@);
    let mut i: usize = 0;
    assert(start =~= start + key_steps(keys@.take(0)));
    while i < keys.len()
        invariant
            i <= keys@.len(),
            step_views(steps@) == start + key_steps(keys@.take(i as int)),
        decreases keys@.len() - i,
    {
        proof {
            let next = keys@.take(i + 1);
            assert(next.drop_last() =~= keys@.take(i as int));
            assert(next.last() == keys@[i as int]);
        }
        let mut sql = join("PRAGMA add_parquet_key('", quote(keys[i].name.as_str()).as_str());
        sql.append("', '");
        sql.append(quote(text_of(&keys[i].key).as_str()).as_str());
        sql.append("');");
        push_step(steps, sql, "add_parquet_key");
        assert(step_views(steps@) =~= start + key_steps(keys@.take(i + 1)));
        i = i + 1;
    }
    assert(keys@.take(i as int) =~= keys@);
}

fn credential_steps(
    setup: &StorageSetup,
    credential: &Option<ScopedCredential>,
    unsealed: Unsealed,
    decoded: Result<CloudCredential, String>,
    custom: Result<Option<String>, DataSourceError>,
) -> (r: Vec<SetupStep>)
    ensures
        are_credential_steps(step_views(r@), *setup, *credential, unsealed, decoded, custom),
{
    let mut steps: Vec<SetupStep> = Vec::new();
    assert(step_views(steps@) =~= Seq::empty());
    if let Some(cred) = credential {
        match setup.resolve_credential(cred, unsealed) {
            Ok(plain) => {
                let answer = setup.providers.secret_sql_for("job_secret", &plain, decoded, custom);
                assert(is_secret_answer(*setup, plain, decoded, custom, answer));
                let ghost seen = answer;
                match answer {
                    Ok(Some(sql)) => {
                        push_step(&mut steps, sql, "create secret");
                        assert(step_views(steps@) =~= answer_steps(seen));
                    },
                    Ok(None) => {
                        assert(step_views(steps@) =~= answer_steps(seen));
                    },
                    Err(e) => {
                        push_reject(&mut steps, join("credential: ", e.message().as_str()));
                        assert(step_views(steps@) =~= answer_steps(seen));
                    },
                }
            },
            Err(e) => {
                let why = join("credential: ", e.message().as_str());
                push_reject(&mut steps, why);
                assert(step_views(steps@) =~= seq![StepView::Reject(why@)]);
            },
        }
    }
    steps
}

fn add_closing(steps: &mut Vec<SetupStep>, setup: &StorageSetup)
    ensures
        step_views(final(steps)@) == step_views(old(steps)@) + closing_steps(
            setup.enable_remote_access,
            strs(setup.allowed_local_paths@),
        ),
{
    let ghost start = step_views(steps@);
    let external = if setup.enable_remote_access {
        "true"
    } else {
        "false"
    };
    push_step(
        steps,
        join(join("SET enable_external_access=", external).as_str(), ";"),
        "external access",
    );
    if setup.allowed_local_paths.len() == 0 {
        push_step(
            steps,
            "SET disabled_filesystems='LocalFileSystem';".to_owned(),
            "disabled_filesystems",
        );
    }
    push_step(steps, DENY_UNREDACTED_SECRETS_SQL.to_owned(), "redact secrets");
    push_step(steps, LOCK_CONFIGURATION_SQL.to_owned(), "lock configuration");
    assert(step_views(steps@) =~= start + closing_steps(
        setup.enable_remote_access,
        strs(setup.allowed_local_paths@),
    ));
}

/// Whether `steps` lock a connection down for the job: the budget, the extensions, the
/// allowed directories and the keys, then the credential, then what closes it.
pub open spec fn locks_down(
    steps: Seq<StepView>,
    setup: StorageSetup,
    lease: ExecLease,
    ctx: JobContext,
    own_dir: Seq<char>,
    unsealed: Unsealed,
    decoded: Result<CloudCredential, String>,
    custom: Result<Option<String>, DataSourceError>,
) -> bool {
    exists|mid: Seq<StepView>| #[trigger]
        are_credential_steps(mid, setup, ctx.credential, unsealed, decoded, custom) && steps
            == opening_steps(setup, lease, ctx, own_dir) + mid + closing_steps(
            setup.enable_remote_access,
            strs(setup.allowed_local_paths@),
        )
}

/// The steps to take on a fresh connection before the query runs, in order. The query's
/// text has no part in them. `own_dir` is where to spill if the job was given no
/// directory; `unsealed` and `decoded` are what opening and decoding the credential's
/// token gave, and `custom` is what a provider of the caller's own answers, where the
/// credential names one.
pub fn lockdown_steps(
    setup: &StorageSetup,
    lease: &ExecLease,
    ctx: &JobContext,
    own_dir: &str,
    unsealed: Unsealed,
    decoded: Result<CloudCredential, String>,
    custom: Result<Option<String>, DataSourceError>,
) -> (r: Vec<SetupStep>)
    ensures
        locks_down(step_views(r@), *setup, *lease, *ctx, own_dir@, unsealed, decoded, custom),
{
    let mut steps: Vec<SetupStep> = Vec::new();
    assert(step_views(steps@) =~= Seq::empty());
    let spill_dir: &str = match &ctx.spill_dir {
        Some(dir) => dir.as_str(),
        None => own_dir,
    };
    push_step(&mut steps, budget(lease, setup.temp_file_encryption, spill_dir), "budget setup");
    push_step(&mut steps, EXTENSION_HARDENING_SQL.to_owned(), "extension hardening");
    let ghost first = seq![
        must(budget_sql(*lease, setup.temp_file_encryption, spill_dir@), "budget setup"@),
        must(EXTENSION_HARDENING_SQL@, "extension hardening"@),
    ];
    assert(step_views(steps@) =~= first);
    add_loads(&mut steps, &setup.preload_extensions, setup.require_extensions);
    let ghost paths = strs(setup.allowed_local_paths@);
    let ghost loaded = step_views(steps@);
    if setup.allowed_local_paths.len() > 0 {
        let mut sql = join(
            "SET allowed_directories=[",
            list_literals(&setup.allowed_local_paths).as_str(),
        );
        sql.append("];");
        push_step(&mut steps, sql, "allowed_directories");
    }
    assert(step_views(steps@) =~= loaded + directory_steps(paths));
    add_keys(&mut steps, &ctx.parquet_keys);
    let ghost opened = step_views(steps@);
    assert(opened == opening_steps(*setup, *lease, *ctx, own_dir@));
    let mut more = credential_steps(setup, &ctx.credential, unsealed, decoded, custom);
    let ghost mid = step_views(more@);
    let ghost before = steps@;
    let ghost extra = more@;
    steps.append(&mut more);
    proof {
        assert(steps@ =~= before + extra);
        assert(step_views(steps@) =~= opened + mid);
    }
    add_closing(&mut steps, setup);
    assert(are_credential_steps(mid, *setup, ctx.credential, unsealed, decoded, custom));
    steps
}

/// Every set-up ends by locking the configuration, and a failure to do so rejects the job.
pub proof fn configuration_is_locked_last(
    steps: Seq<StepView>,
    setup: StorageSetup,
    lease: ExecLease,
    ctx: JobContext,
    own_dir: Seq<char>,
    unsealed: Unsealed,
    decoded: Result<CloudCredential, String>,
    custom: Result<Option<String>, DataSourceError>,
)
    requires
        locks_down(steps, setup, lease, ctx, own_dir, unsealed, decoded, custom),
    ensures
        steps.len() > 0,
        steps.last() == must(LOCK_CONFIGURATION_SQL@, "lock configuration"@),
{
    let closing = closing_steps(setup.enable_remote_access, strs(setup.allowed_local_paths@));
    assert(closing.last() == must(LOCK_CONFIGURATION_SQL@, "lock configuration"@));
    let mid = choose|mid: Seq<StepView>| #[trigger]
        are_credential_steps(mid, setup, ctx.credential, unsealed, decoded, custom) && steps
            == opening_steps(setup, lease, ctx, own_dir) + mid + closing;
    let before = opening_steps(setup, lease, ctx, own_dir) + mid;
    assert(steps == before + closing);
    assert((before + closing).last() == closing.last());
}

/// Where no directory is allowed, the set-up disables the local file system, and a
/// failure to do so rejects the job.
pub proof fn strict_set_up_has_no_local_files(
    steps: Seq<StepView>,
    setup: StorageSetup,
    lease: ExecLease,
    ctx: JobContext,
    own_dir: Seq<char>,
    unsealed: Unsealed,
    decoded: Result<CloudCredential, String>,
    custom: Result<Option<String>, DataSourceError>,
)
    requires
        locks_down(steps, setup, lease, ctx, own_dir, unsealed, decoded, custom),
        setup.allowed_local_paths@.len() == 0,
    ensures
        steps.contains(
            must("SET disabled_filesystems='LocalFileSystem';"@, "disabled_filesystems"@),
        ),
{
    let closing = closing_steps(setup.enable_remote_access, strs(setup.allowed_local_paths@));
    let mid = choose|mid: Seq<StepView>| #[trigger]
        are_credential_steps(mid, setup, ctx.credential, unsealed, decoded, custom) && steps
            == opening_steps(setup, lease, ctx, own_dir) + mid + closing;
    let before = opening_steps(setup, lease, ctx, own_dir) + mid;
    assert(steps == before + closing);
    assert(steps[before.len() as int + 1] == closing[1]);
}

/// What a failed step means: the job is rejected under the step's label, or the failure
/// is passed over.
pub fn step_failed(step: &SetupStep, why: &str) -> (r: Option<EngineError>)
    ensures
        match step@ {
            StepView::Run { sql, label } => match label {
                Some(l) => r is Some && r->0 is Rejected && r->0->Rejected_0@ == l + ": "@ + why@,
                None => r is None,
            },
            StepView::Reject(reason) => r is Some && r->0 is Rejected && r->0->Rejected_0@ == reason,
        },
{
    match step {
        SetupStep::Run { sql, label } => match label {
            Some(l) => Some(
                EngineError::Rejected(join(join(l.as_str(), ": ").as_str(), why)),
            ),
            None => None,
        },
        SetupStep::Reject(reason) => Some(EngineError::Rejected(reason.clone())),
    }
}

/// The query to run: with signed inputs, their objects are read at the signed URLs.
pub fn effective_sql(sql: &str, ctx: &JobContext) -> (r: String)
    ensures
        r@ == (if ctx.signed_inputs@.len() == 0 {
            sql@
        } else {
            rewritten(sql@, signed_views(ctx.signed_inputs@), 0)
        }),
{
    if ctx.signed_inputs.len() == 0 {
        sql.to_owned()
    } else {
        rewrite_signed_urls(sql, &ctx.signed_inputs)
    }
}

/// The size that a cell counts for.
pub open spec fn cell_size(v: Value) -> int {
    match v {
        Value::Null => 1,
        Value::Bool(_) => 1,
        Value::Int(_) => 8,
        Value::Float(_) => 8,
        Value::Text(s) => byte_len(s@) as int + 1,
        Value::Blob(b) => b@.len() as int,
    }
}

/// The size that a cell counts for.
pub fn value_estimated_size(v: &Value) -> (r: u64)
    ensures
        r == min_int(cell_size(*v), u64::MAX as int),
{
    match v {
        Value::Null => 1,
        Value::Bool(_) => 1,
        Value::Int(_) => 8,
        Value::Float(_) => 8,
        Value::Text(s) => sat_add_u64(s.as_str().as_bytes().len() as u64, 1),
        Value::Blob(b) => b.len() as u64,
    }
}

/// The size that a row counts for.
pub open spec fn row_size(row: Seq<Value>) -> int
    decreases row.len(),
{
    if row.len() == 0 {
        0
    } else {
        row_size(row.drop_last()) + cell_size(row.last())
    }
}

/// The size that rows count for together.
pub open spec fn rows_size(rows: Seq<Vec<Value>>) -> int
    decreases rows.len(),
{
    if rows.len() == 0 {
        0
    } else {
        rows_size(rows.drop_last()) + row_size(rows.last()@)
    }
}

/// A result that is being taken in, row by row, within a bound.
pub struct Materializer {
    cap: u64,
    size: u64,
    rows: Vec<Vec<Value>>,
}

impl Materializer {
    #[verifier::type_invariant]
    spec fn inv(self) -> bool {
        self.size == min_int(rows_size(self.rows@), u64::MAX as int)
    }

    /// The bound on the result's size (`0` for none).
    pub closed spec fn bound(&self) -> u64 {
        self.cap
    }

    /// The rows taken in.
    pub closed spec fn taken(&self) -> Seq<Vec<Value>> {
        self.rows@
    }

    pub fn new(max_result_bytes: u64) -> (r: Materializer)
        ensures
            r.bound() == max_result_bytes,
            r.taken().len() == 0,
    {
        Materializer { cap: max_result_bytes, size: 0, rows: Vec::new() }
    }

    /// Takes a row in, unless the result would then exceed the bound.
    pub fn push_row(self, row: Vec<Value>) -> (r: Result<Materializer, EngineError>)
        ensures
            r is Err <==> self.bound() != 0 && min_int(
                rows_size(self.taken()) + row_size(row@),
                u64::MAX as int,
            ) > self.bound(),
            r is Err ==> r->Err_0 is Exec && r->Err_0->Exec_0@ == "result exceeds max_result_bytes ("@
                + decimal_seq(self.bound() as nat)
                + "): query produces too large a result to materialize"@,
            r is Ok ==> r->Ok_0.bound() == self.bound() && r->Ok_0.taken() == self.taken().push(row),
    {
        proof {
            use_type_invariant(&self);
        }
        let mut size: u64 = self.size;
        let mut i: usize = 0;
        let ghost base = rows_size(self.rows@);
        while i < row.len()
            invariant
                i <= row@.len(),
                size == min_int(base + row_size(row@.take(i as int)), u64::MAX as int),
            decreases row@.len() - i,
        {
            proof {
                let next = row@.take(i + 1);
                assert(next.drop_last() =~= row@.take(i as int));
                assert(next.last() == row@[i as int]);
            }
            size = sat_add_u64(size, value_estimated_size(&row[i]));
            i = i + 1;
        }
        assert(row@.take(i as int) =~= row@);
        if self.cap != 0 && size > self.cap {
            let mut why = join("result exceeds max_result_bytes (", decimal(self.cap).as_str());
            why.append("): query produces too large a result to materialize");
            return Err(EngineError::Exec(why));
        }
        let ghost before = self.rows@;
        let mut rows = self.rows;
        rows.push(row);
        proof {
            assert(rows@.drop_last() =~= before);
            assert(rows@.last() == row);
        }
        Ok(Materializer { cap: self.cap, size, rows })
    }

    /// The result under these column names.
    pub fn finish(self, columns: Vec<String>) -> (r: ResultSet)
        ensures
            r.columns == columns,
            r.rows@ == self.taken(),
    {
        ResultSet { columns, rows: self.rows }
    }
}

/// A cell as the database hands it out.
#[derive(Debug, Clone, PartialEq, Eq)]
pub enum CellRef {
    Null,
    Boolean(bool),
    /// Any integer that fits 64 bits with a sign.
    Integer(i64),
    HugeInt(i128),
    UBigInt(u64),
    Float(FloatValue),
    Text(Vec<u8>),
    Blob(Vec<u8>),
    /// Anything else, as the database describes it.
    Other(String),
}

/// A number in decimal, with its sign.
pub open spec fn signed_seq(n: int) -> Seq<char> {
    if n < 0 {
        seq!['-'] + decimal_seq((0 - n) as nat)
    } else {
        decimal_seq(n as nat)
    }
}

fn decimal_u128(n: u128) -> (s: String)
    ensures
        s@ == decimal_seq(n as nat),
    decreases n,
{
    if n < 10 {
        let mut s = String::new();
        s.push((48u8 + n as u8) as char);
        assert(s@ =~= decimal_seq(n as nat));
        s
    } else {
        let mut s = decimal_u128(n / 10);
        s.push((48u8 + (n % 10) as u8) as char);
        s
    }
}

fn decimal_i128(n: i128) -> (s: String)
    ensures
        s@ == signed_seq(n as int),
{
    if n >= 0 {
        decimal_u128(n as u128)
    } else {
        let magnitude: u128 = if n == i128::MIN {
            0x8000_0000_0000_0000_0000_0000_0000_0000
        } else {
            (0 - n) as u128
        };
        let mut s = String::new();
        s.push('-');
        assert(s@ =~= seq!['-']);
        s.append(decimal_u128(magnitude).as_str());
        s
    }
}

/// Whether `v` is the cell that the database hands out. Integers that do not fit are
/// kept as text, and bytes that encode a text are that text.
pub open spec fn is_cell(v: Value, cell: CellRef) -> bool {
    match cell {
        CellRef::Null => v == Value::Null,
        CellRef::Boolean(b) => v == Value::Bool(b),
        CellRef::Integer(i) => v == Value::Int(i),
        CellRef::HugeInt(i) => if i64::MIN <= i <= i64::MAX {
            v == Value::Int(i as i64)
        } else {
            v is Text && v->Text_0@ == signed_seq(i as int)
        },
        CellRef::UBigInt(i) => if i <= i64::MAX {
            v == Value::Int(i as i64)
        } else {
            v is Text && v->Text_0@ == signed_seq(i as int)
        },
        CellRef::Float(f) => v == Value::Float(f),
        CellRef::Text(bytes) => v is Text && v->Text_0@ == utf8_lossy(bytes@) && forall|
            s: Seq<char>,
        |
            bytes@ == #[trigger] vstd::utf8::encode_utf8(s) ==> v->Text_0@ == s,
        CellRef::Blob(bytes) => v == Value::Blob(bytes),
        CellRef::Other(s) => v == Value::Text(s),
    }
}

/// The portable form of a cell.
pub fn value_from_ref(cell: CellRef) -> (r: Value)
    ensures
        is_cell(r, cell),
{
    match cell {
        CellRef::Null => Value::Null,
        CellRef::Boolean(b) => Value::Bool(b),
        CellRef::Integer(i) => Value::Int(i),
        CellRef::HugeInt(i) => if -9_223_372_036_854_775_808i128 <= i && i
            <= 9_223_372_036_854_775_807i128 {
            Value::Int(i as i64)
        } else {
            Value::Text(decimal_i128(i))
        },
        CellRef::UBigInt(i) => if i <= 9_223_372_036_854_775_807u64 {
            Value::Int(i as i64)
        } else {
            Value::Text(decimal(i))
        },
        CellRef::Float(f) => Value::Float(f),
        CellRef::Text(bytes) => Value::Text(text_of(&bytes)),
        CellRef::Blob(bytes) => Value::Blob(bytes),
        CellRef::Other(s) => Value::Text(s),
    }
}

/// Checking the extensions once, when the engine is built.
#[derive(Debug, Clone, Copy, PartialEq, Eq, Structural)]
pub struct EngineInit {
    /// Whether the extension that encrypts spilled data is loaded.
    pub crypto: bool,
}

impl EngineInit {
    pub fn new() -> (r: EngineInit)
        ensures
            r == (EngineInit { crypto: false }),
    {
        EngineInit { crypto: false }
    }

    /// Takes the outcome of loading an extension: `None`, or why it failed. A failure
    /// ends the engine's construction only where extensions are required.
    pub fn on_load(self, ext: &str, failure: Option<String>, required: bool) -> (r: Result<
        EngineInit,
        EngineError,
    >)
        ensures
            r is Err <==> failure is Some && required,
            r is Err ==> r->Err_0 is Exec && r->Err_0->Exec_0@ == "preload extension '"@ + ext@
                + "' failed at init: "@ + failure->0@
                + " (install it in the worker image, or set storage.require_extensions=false)"@,
            r is Ok ==> r->Ok_0.crypto == (self.crypto || (failure is None && ascii_lower_seq(ext@)
                == ascii_lower_seq("httpfs"@))),
    {
        match failure {
            Some(e) => {
                if required {
                    let mut why = join("preload extension '", ext);
                    why.append("' failed at init: ");
                    why.append(e.as_str());
                    why.append(
                        " (install it in the worker image, or set storage.require_extensions=false)",
                    );
                    return Err(EngineError::Exec(why));
                }
                Ok(self)
            },
            None => {
                let named = ascii_lowercase(ext) == ascii_lowercase("httpfs");
                Ok(EngineInit { crypto: self.crypto || named })
            },
        }
    }

    /// The setup in effect: spilled data is encrypted only where that can work.
    pub fn finish(self, setup: StorageSetup) -> (r: StorageSetup)
        ensures
            r == (StorageSetup {
                temp_file_encryption: setup.temp_file_encryption && self.crypto,
                ..setup
            }),
    {
        let mut r = setup;
        r.temp_file_encryption = r.temp_file_encryption && self.crypto;
        r
    }
}

/// The engine's version, out of the database's.
pub fn engine_version(library: &str) -> (r: String)
    ensures
        r@ == "duckdb-"@ + library@,
{
    join("duckdb-", library)
}

/// The query that reads a Parquet file's footer.
pub fn parquet_probe_sql(path: &str) -> (r: String)
    ensures
        r@
            == "SELECT row_group_id, row_group_num_rows, path_in_schema, num_values, total_uncompressed_size, stats_min_value, stats_max_value FROM parquet_metadata('"@
            + quoted(path@) + "') ORDER BY row_group_id"@,
{
    join(
        join(
            "SELECT row_group_id, row_group_num_rows, path_in_schema, num_values, total_uncompressed_size, stats_min_value, stats_max_value FROM parquet_metadata('",
            quote(path).as_str(),
        ).as_str(),
        "') ORDER BY row_group_id",
    )
}

/// The query that shows another query's plan.
pub fn explain_sql(sql: &str) -> (r: String)
    ensures
        r@ == "EXPLAIN "@ + sql@,
{
    join("EXPLAIN ", sql)
}

/// The text cells of a row, each on a line of its own.
pub open spec fn row_text(row: Seq<Value>) -> Seq<char>
    decreases row.len(),
{
    if row.len() == 0 {
        Seq::empty()
    } else {
        match row.last() {
            Value::Text(s) => row_text(row.drop_last()) + s@ + seq!['\n'],
            _ => row_text(row.drop_last()),
        }
    }
}

/// The text cells of all rows.
pub open spec fn rows_text(rows: Seq<Vec<Value>>) -> Seq<char>
    decreases rows.len(),
{
    if rows.len() == 0 {
        Seq::empty()
    } else {
        rows_text(rows.drop_last()) + row_text(rows.last()@)
    }
}

/// The largest row count in a plan that the database returned as rows.
pub fn explain_cardinality(plan: &ResultSet) -> (r: Option<u64>)
    ensures
        r == largest_count(rows_text(plan.rows@), 0),
{
    let mut text = String::new();
    let mut i: usize = 0;
    assert(text@ =~= Seq::empty());
    while i < plan.rows.len()
        invariant
            i <= plan.rows@.len(),
            text@ == rows_text(plan.rows@.take(i as int)),
        decreases plan.rows@.len() - i,
    {
        proof {
            let next = plan.rows@.take(i + 1);
            assert(next.drop_last() =~= plan.rows@.take(i as int));
            assert(next.last() == plan.rows@[i as int]);
        }
        let row = &plan.rows[i];
        let ghost start = text@;
        let mut j: usize = 0;
        assert(start =~= start + row_text(row@.take(0)));
        while j < row.len()
            invariant
                j <= row@.len(),
                text@ == start + row_text(row@.take(j as int)),
            decreases row@.len() - j,
        {
            proof {
                let next = row@.take(j + 1);
                assert(next.drop_last() =~= row@.take(j as int));
                assert(next.last() == row@[j as int]);
            }
            let ghost before = text@;
            if let Value::Text(s) = &row[j] {
                text.append(s.as_str());
                text.push('\n');
                assert(text@ =~= before + s@ + seq!['\n']);
                assert(text@ =~= start + row_text(row@.take(j + 1)));
            }
            j = j + 1;
        }
        assert(row@.take(j as int) =~= row@);
        i = i + 1;
    }
    assert(plan.rows@.take(i as int) =~= plan.rows@);
    parse_explain_cardinality(text.as_str())
}

/// The memory limit is in whole MiB of the lease, and 64 at least.
pub proof fn the_memory_limit_is_the_leases(lease: ExecLease)
    ensures
        memory_mb(lease) >= 64,
        lease.memory_bytes >= 64 * 0x10_0000 ==> memory_mb(lease) * 0x10_0000 <= lease.memory_bytes
            && lease.memory_bytes < (memory_mb(lease) + 1) * 0x10_0000,
        lease.memory_bytes < 64 * 0x10_0000 ==> memory_mb(lease) == 64,
{
}

/// The first statement sets the memory, the threads and where to spill; it encrypts and
/// bounds what is spilled where that is asked for.
pub proof fn the_budget_is_set_by_the_lease(lease: ExecLease, encrypt: bool, dir: Seq<char>)
    ensures
        ({
            let threads = if lease.threads == 0 {
                1nat
            } else {
                lease.threads as nat
            };
            let base = "SET memory_limit='"@ + decimal_seq(memory_mb(lease))
                + "MB'; SET threads="@ + decimal_seq(threads) + "; SET temp_directory='"@ + doubled(
                dir,
            ) + "';"@;
            let guarded = if encrypt {
                base + " SET temp_file_encryption=true;"@
            } else {
                base
            };
            let sql = budget_sql(lease, encrypt, dir);
            &&& lease.max_spill_bytes == 0 ==> sql == guarded
            &&& lease.max_spill_bytes > 0 ==> sql == guarded + " SET max_temp_directory_size='"@
                + decimal_seq(lease.max_spill_bytes as nat) + "B';"@
        }),
{
    quotes_are_doubled(dir);
}

/// Every configured extension is loaded, in order, and only a required one can reject the
/// job.
pub proof fn extensions_are_loaded_in_order(extensions: Seq<Seq<char>>, required: bool, i: int)
    requires
        0 <= i < extensions.len(),
    ensures
        load_steps(extensions, required).len() == extensions.len(),
        load_steps(extensions, required)[i] matches StepView::Run { sql, label } && sql == "LOAD "@
            + extensions[i] + ";"@ && label == (if required {
            Some("LOAD "@ + extensions[i])
        } else {
            None
        }),
    decreases extensions.len(),
{
    if i < extensions.len() - 1 {
        extensions_are_loaded_in_order(extensions.drop_last(), required, i);
    } else if extensions.len() > 1 {
        extensions_are_loaded_in_order(extensions.drop_last(), required, 0);
    } else {
        assert(load_steps(extensions.drop_last(), required).len() == 0);
    }
}

/// Every decryption key is added, in order, quoted; a key that cannot be added rejects the
/// job.
pub proof fn keys_are_added_in_order(keys: Seq<ParquetKey>, i: int)
    requires
        0 <= i < keys.len(),
    ensures
        key_steps(keys).len() == keys.len(),
        key_steps(keys)[i] == (StepView::Run {
            sql: "PRAGMA add_parquet_key('"@ + doubled(keys[i].name@) + "', '"@ + doubled(
                utf8_lossy(keys[i].key@),
            ) + "');"@,
            label: Some("add_parquet_key"@),
        }),
    decreases keys.len(),
{
    quotes_are_doubled(keys[i].name@);
    quotes_are_doubled(utf8_lossy(keys[i].key@));
    if i < keys.len() - 1 {
        keys_are_added_in_order(keys.drop_last(), i);
    } else if keys.len() > 1 {
        keys_are_added_in_order(keys.drop_last(), 0);
    } else {
        assert(key_steps(keys.drop_last()).len() == 0);
    }
}

/// Directories with commas between them, each quoted.
pub open spec fn quoted_list(paths: Seq<Seq<char>>) -> Seq<char>
    decreases paths.len(),
{
    if paths.len() == 0 {
        Seq::empty()
    } else {
        let one = "'"@ + doubled(paths.last()) + "'"@;
        if paths.len() == 1 {
            one
        } else {
            quoted_list(paths.drop_last()) + ", "@ + one
        }
    }
}

proof fn lists_are_quoted(paths: Seq<Seq<char>>)
    ensures
        literal_list(paths) == quoted_list(paths),
    decreases paths.len(),
{
    reveal_strlit("'");
    if paths.len() > 0 {
        lists_are_quoted(paths.drop_last());
        quotes_are_doubled(paths.last());
        assert(literal_of(paths.last()) =~= "'"@ + doubled(paths.last()) + "'"@);
        assert(paths.last() == paths[paths.len() - 1]);
    }
}

/// The allowed directories are set where there are any, all of them.
pub proof fn directories_are_allowed_as_configured(paths: Seq<Seq<char>>)
    ensures
        paths.len() == 0 ==> directory_steps(paths).len() == 0,
        paths.len() > 0 ==> directory_steps(paths) == seq![
            StepView::Run {
                sql: "SET allowed_directories=["@ + quoted_list(paths) + "];"@,
                label: Some("allowed_directories"@),
            },
        ],
{
    lists_are_quoted(paths);
}

/// The set-up closes with the network as configured, without local files where none are
/// allowed, without secrets in clear, and with the configuration locked; whatever of it
/// fails rejects the job.
pub proof fn the_set_up_closes_behind_itself(remote: bool, paths: Seq<Seq<char>>)
    ensures
        ({
            let c = closing_steps(remote, paths);
            let step = |sql: Seq<char>, label: Seq<char>| StepView::Run {
                sql,
                label: Some(label),
            };
            &&& remote ==> c[0] == step("SET enable_external_access=true;"@, "external access"@)
            &&& !remote ==> c[0] == step("SET enable_external_access=false;"@, "external access"@)
            &&& paths.len() == 0 ==> c.len() == 4 && c[1] == step(
                "SET disabled_filesystems='LocalFileSystem';"@,
                "disabled_filesystems"@,
            )
            &&& paths.len() > 0 ==> c.len() == 3
            &&& c[c.len() - 2] == step("SET allow_unredacted_secrets=false;"@, "redact secrets"@)
            &&& c[c.len() - 1] == step("SET lock_configuration=true;"@, "lock configuration"@)
        }),
{
    reveal_strlit("SET enable_external_access=");
    reveal_strlit("SET enable_external_access=true;");
    reveal_strlit("SET enable_external_access=false;");
    reveal_strlit("true");
    reveal_strlit("false");
    reveal_strlit(";");
    assert("SET enable_external_access="@ + "true"@ + ";"@ =~= "SET enable_external_access=true;"@);
    assert("SET enable_external_access="@ + "false"@ + ";"@
        =~= "SET enable_external_access=false;"@);
}

/// The set-up opens with the budget and then keeps extensions from being installed or
/// loaded by a query; both must succeed.
pub proof fn the_set_up_opens_with_budget_and_hardening(
    setup: StorageSetup,
    lease: ExecLease,
    ctx: JobContext,
    own_dir: Seq<char>,
)
    ensures
        ({
            let o = opening_steps(setup, lease, ctx, own_dir);
            let dir = match ctx.spill_dir {
                Some(d) => d@,
                None => own_dir,
            };
            let e = setup.preload_extensions@.len();
            let d = if setup.allowed_local_paths@.len() > 0 {
                1nat
            } else {
                0nat
            };
            &&& o.len() == 2 + e + d + key_steps(ctx.parquet_keys@).len()
            &&& o[0] == (StepView::Run {
                sql: budget_sql(lease, setup.temp_file_encryption, dir),
                label: Some("budget setup"@),
            })
            &&& o[1] == (StepView::Run {
                sql:
                    "SET autoinstall_known_extensions=false; SET autoload_known_extensions=false; SET allow_community_extensions=false; SET allow_unsigned_extensions=false;"@,
                label: Some("extension hardening"@),
            })
        }),
{
    let names = strs(setup.preload_extensions@);
    if names.len() > 0 {
        extensions_are_loaded_in_order(names, setup.require_extensions, 0);
    }
}

/// A set-up is its opening, what the job's credential needs, and its closing; a job
/// without a credential needs nothing, and a sealed one that cannot be opened is rejected.
pub proof fn credentials_are_set_up_between(
    steps: Seq<StepView>,
    setup: StorageSetup,
    lease: ExecLease,
    ctx: JobContext,
    own_dir: Seq<char>,
    unsealed: Unsealed,
    decoded: Result<CloudCredential, String>,
    custom: Result<Option<String>, DataSourceError>,
)
    requires
        locks_down(steps, setup, lease, ctx, own_dir, unsealed, decoded, custom),
    ensures
        ({
            let o = opening_steps(setup, lease, ctx, own_dir);
            let c = closing_steps(setup.enable_remote_access, strs(setup.allowed_local_paths@));
            &&& steps.len() >= o.len() + c.len()
            &&& steps.take(o.len() as int) == o
            &&& steps.skip(steps.len() - c.len()) == c
            &&& ctx.credential is None ==> steps == o + c
            &&& ctx.credential is Some && sealed(ctx.credential->0.token@) && !setup.sealing
                ==> steps[o.len() as int] == StepView::Reject(
                "credential: sealed credential supplied but no worker sealing key is available to open it"@,
            )
        }),
{
    let o = opening_steps(setup, lease, ctx, own_dir);
    let c = closing_steps(setup.enable_remote_access, strs(setup.allowed_local_paths@));
    let mid = choose|mid: Seq<StepView>| #[trigger]
        are_credential_steps(mid, setup, ctx.credential, unsealed, decoded, custom) && steps == o
            + mid + c;
    assert(steps.take(o.len() as int) =~= o);
    assert(steps.skip(steps.len() - c.len()) =~= c);
    if ctx.credential is None {
        assert(steps =~= o + c);
    } else if sealed(ctx.credential->0.token@) && !setup.sealing {
        reveal_strlit("credential: ");
        reveal_strlit(
            "sealed credential supplied but no worker sealing key is available to open it",
        );
        reveal_strlit(
            "credential: sealed credential supplied but no worker sealing key is available to open it",
        );
        assert("credential: "@
            + "sealed credential supplied but no worker sealing key is available to open it"@
            =~= "credential: sealed credential supplied but no worker sealing key is available to open it"@);
        assert(steps[o.len() as int] == mid[0]);
    }
}

/// What a value takes: a byte for nothing and for a truth value, eight for a number, its
/// bytes for a text, and one more, and for a blob.
pub proof fn values_take_their_size(v: Value)
    ensures
        v is Null || v is Bool ==> cell_size(v) == 1,
        v is Int || v is Float ==> cell_size(v) == 8,
        v matches Value::Text(s) ==> cell_size(v) == vstd::utf8::encode_utf8(s@).len() + 1,
        v matches Value::Blob(b) ==> cell_size(v) == b@.len(),
{
}

/// Sizes add up, over the cells of a row and over the rows.
pub proof fn sizes_add_up(row: Seq<Value>, v: Value, rows: Seq<Vec<Value>>, more: Vec<Value>)
    ensures
        row_size(Seq::empty()) == 0,
        row_size(row.push(v)) == row_size(row) + cell_size(v),
        rows_size(Seq::empty()) == 0,
        rows_size(rows.push(more)) == rows_size(rows) + row_size(more@),
{
    assert(row.push(v).drop_last() =~= row);
    assert(rows.push(more).drop_last() =~= rows);
}

/// The text of a plan is the text of its cells, a line each.
pub proof fn plans_are_read_cell_by_cell(
    row: Seq<Value>,
    v: Value,
    rows: Seq<Vec<Value>>,
    more: Vec<Value>,
)
    ensures
        row_text(Seq::empty()).len() == 0 && rows_text(Seq::empty()).len() == 0,
        v matches Value::Text(s) ==> row_text(row.push(v)) == row_text(row) + s@ + seq!['\n'],
        !(v is Text) ==> row_text(row.push(v)) == row_text(row),
        rows_text(rows.push(more)) == rows_text(rows) + row_text(more@),
{
    assert(row.push(v).drop_last() =~= row);
    assert(rows.push(more).drop_last() =~= rows);
}

/// Integers are kept as numbers where they fit, and else as the digits that write them.
pub proof fn large_integers_keep_their_digits(v: Value, i: i128)
    requires
        is_cell(v, CellRef::HugeInt(i)),
    ensures
        v matches Value::Int(n) ==> n == i,
        v is Int <==> i64::MIN <= i <= i64::MAX,
        i > i64::MAX ==> v is Text && crate::scan::digits_value(v->Text_0@) == i,
        i < i64::MIN ==> v is Text && v->Text_0@[0] == '-' && crate::scan::digits_value(
            v->Text_0@.skip(1),
        ) == -i,
{
    if i > i64::MAX {
        crate::scan::decimals_read_back(i as nat);
    } else if i < i64::MIN {
        crate::scan::decimals_read_back((0 - i) as nat);
        assert(v->Text_0@.skip(1) =~= decimal_seq((0 - i) as nat));
    }
}

} // verus!
