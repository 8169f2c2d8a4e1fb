//! The node: how a query is routed without any set-up, what a host advertises and how it
//! confines the jobs it serves.

use vstd::prelude::*;
use crate::coordinator::error::CoordinatorError;
use crate::discovery::{candidate_views, Candidate, CandidateView, IdProvenance};
use crate::estimator::explain::{has_data_source, mentions_source};
use crate::estimator::{
    estimate_working_set, working_set_spec, EstimateParams, QueryShape, ScanEstimate,
    WorkingSetEstimate,
};
use crate::input_resolver::local::last_index;
use crate::input_resolver::sources::{
    glob_text, is_glob, literal_views, literals_from, string_literals, LiteralView,
};
use crate::coordinator::request::CredentialMode;
use crate::math::{max_int, min_int, sat_add_u64};
use crate::planner::PreferMode;
use crate::scan::{join, strip_prefix, strip_prefix_seq};
use crate::text::{
    ascii_lower_seq, ascii_lowercase, chars_of, contains, contains_seq, str_eq, string_of_range,
    trim, trim_seq,
};
use crate::types::{copy_opt_str, copy_strs, opt_str, strs, AttestationLevel};

pub use crate::estimator::raw_scan_estimate;

verus! {

/// Errors from building or querying a node.
#[derive(Debug, Clone, PartialEq, Eq)]
pub enum NodeError {
    Config(String),
    Transport(String),
    Engine(String),
    Query(CoordinatorError),
    /// Paid execution was asked for, and there is nothing to pay with.
    WalletRequired,
    Discovery(String),
}

impl NodeError {
    /// The text of the error.
    pub fn message(&self) -> (r: String)
        ensures
            match self {
                NodeError::Config(s) => r@ == "config error: "@ + s@,
                NodeError::Transport(s) => r@ == "transport error: "@ + s@,
                NodeError::Engine(s) => r@ == "engine init error: "@ + s@,
                NodeError::Query(e) => r@ == e@.text(),
                NodeError::WalletRequired => r@
                    == "paid execution was requested (payment => 'paid') but this node has no wallet/settlement configured. Either run free — pass `payment => 'free'` to p2p_query (the grid is free by default) — or configure          the [economics] settlement rail + wallet and attach it before querying."@,
                NodeError::Discovery(s) => r@ == "discovery error: "@ + s@,
            },
    {
        match self {
            NodeError::Config(s) => join("config error: ", s.as_str()),
            NodeError::Transport(s) => join("transport error: ", s.as_str()),
            NodeError::Engine(s) => join("engine init error: ", s.as_str()),
            NodeError::Query(e) => e.message(),
            NodeError::WalletRequired =>
                "paid execution was requested (payment => 'paid') but this node has no wallet/settlement configured. Either run free — pass `payment => 'free'` to p2p_query (the grid is free by default) — or configure          the [economics] settlement rail + wallet and attach it before querying.".to_owned(),
            NodeError::Discovery(s) => join("discovery error: ", s.as_str()),
        }
    }
}

/// The values of a query's string literals.
pub open spec fn literal_values(sql: Seq<char>) -> Seq<Seq<char>> {
    literals_from(sql, 0).map_values(|l: LiteralView| l.value)
}

/// The values of a query's single-quoted string literals; two quotes stand for one.
pub fn extract_string_literals(sql: &str) -> (r: Vec<String>)
    ensures
        strs(r@) == literal_values(sql@),
{
    let literals = string_literals(sql);
    let ghost views = literal_views(literals@);
    let mut r: Vec<String> = Vec::new();
    let mut i: usize = 0;
    while i < literals.len()
        invariant
            i <= literals@.len(),
            views == literal_views(literals@),
            r@.len() == i,
            forall|k: int| 0 <= k < i ==> (#[trigger] r@[k])@ == views[k].value,
        decreases literals@.len() - i,
    {
        assert(views[i as int] == literals@[i as int]@);
        r.push(literals[i].value.clone());
        i = i + 1;
    }
    assert(strs(r@) =~= literal_values(sql@));
    r
}

/// The last name in a path, without trailing slashes and `.` components.
pub open spec fn last_name(path: Seq<char>) -> Option<Seq<char>>
    decreases path.len(),
    via last_name_decreases
{
    match last_index(path, '/') {
        Some(i) => {
            let name = path.subrange(i + 1, path.len() as int);
            if name.len() == 0 || name == "."@ {
                last_name(path.subrange(0, i))
            } else {
                Some(name)
            }
        },
        None => if path.len() == 0 || path == "."@ {
            None
        } else {
            Some(path)
        },
    }
}

#[via_fn]
proof fn last_name_decreases(path: Seq<char>) {
    last_index_bounds(path, '/');
}

proof fn last_index_bounds(s: Seq<char>, c: char)
    ensures
        last_index(s, c) is Some ==> 0 <= last_index(s, c)->0 < s.len(),
    decreases s.len(),
{
    if s.len() > 0 && s.last() != c {
        last_index_bounds(s.drop_last(), c);
    }
}

/// The extension of a path's last name: what follows its last dot, unless that dot
/// begins the name.
pub open spec fn extension_of(path: Seq<char>) -> Option<Seq<char>> {
    match last_name(path) {
        Some(name) => if name == ".."@ {
            None
        } else {
            match last_index(name, '.') {
                Some(i) => if i == 0 {
                    None
                } else {
                    Some(name.subrange(i + 1, name.len() as int))
                },
                None => None,
            }
        },
        None => None,
    }
}

fn find_last(v: &[char], c: char, to: usize) -> (r: Option<usize>)
    requires
        to <= v@.len(),
    ensures
        r is Some <==> last_index(v@.subrange(0, to as int), c) is Some,
        r is Some ==> r->0 == last_index(v@.subrange(0, to as int), c)->0 && r->0 < to,
{
    let ghost whole = v@.subrange(0, to as int);
    let mut i: usize = to;
    assert(v@.subrange(0, i as int) =~= whole);
    while i > 0
        invariant
            i <= to <= v@.len(),
            whole == v@.subrange(0, to as int),
            last_index(v@.subrange(0, i as int), c) == last_index(whole, c),
        decreases i,
    {
        proof {
            let here = v@.subrange(0, i as int);
            assert(here.last() == v@[i - 1]);
            assert(here.drop_last() =~= v@.subrange(0, i - 1));
        }
        if v[i - 1] == c {
            return Some(i - 1);
        }
        i = i - 1;
    }
    None
}

/// The lower-case extension of a path.
pub fn extension(path: &str) -> (r: Option<String>)
    ensures
        opt_str(r) == (match extension_of(path@) {
            Some(e) => Some(ascii_lower_seq(e)),
            None => None,
        }),
{
    let v = chars_of(path);
    let mut to: usize = v.len();
    assert(v@.subrange(0, to as int) =~= path@);
    let mut name: Option<String> = None;
    let mut done = false;
    while !done
        invariant
            to <= v@.len(),
            !done ==> last_name(v@.subrange(0, to as int)) == last_name(path@),
            done ==> opt_str(name) == last_name(path@),
        decreases to + (if done {
            0int
        } else {
            1
        }),
    {
        let ghost here = v@.subrange(0, to as int);
        match find_last(&v, '/', to) {
            Some(i) => {
                let piece = string_of_range(&v, i + 1, to);
                assert(piece@ =~= here.subrange(i + 1, here.len() as int));
                if piece.as_str().is_empty() || str_eq(piece.as_str(), ".") {
                    assert(here.subrange(0, i as int) =~= v@.subrange(0, i as int));
                    to = i;
                } else {
                    name = Some(piece);
                    done = true;
                }
            },
            None => {
                let piece = string_of_range(&v, 0, to);
                if piece.as_str().is_empty() || str_eq(piece.as_str(), ".") {
                    name = None;
                } else {
                    name = Some(piece);
                }
                done = true;
            },
        }
    }
    match name {
        Some(n) => {
            if str_eq(n.as_str(), "..") {
                return None;
            }
            let w = chars_of(n.as_str());
            let m: usize = w.len();
            assert(w@.subrange(0, m as int) =~= n@);
            match find_last(&w, '.', m) {
                Some(i) => if i == 0 {
                    None
                } else {
                    Some(ascii_lowercase(string_of_range(&w, i + 1, m).as_str()))
                },
                None => None,
            }
        },
        None => None,
    }
}

/// How a local file is sized.
#[derive(Debug, Clone, Copy, PartialEq, Eq, Structural)]
pub enum ScanMethod {
    /// By a sample of delimited text.
    Delimited(u8),
    /// By a sample of newline-delimited JSON.
    Json,
    /// By its size, uncompressed.
    Parquet,
    /// By its size.
    Raw,
}

/// How a file with this lower-case extension is sized.
pub open spec fn method_for(ext: Option<Seq<char>>) -> ScanMethod {
    match ext {
        Some(e) => if e == "csv"@ {
            ScanMethod::Delimited(44)
        } else if e == "tsv"@ {
            ScanMethod::Delimited(9)
        } else if e == "json"@ || e == "ndjson"@ || e == "jsonl"@ {
            ScanMethod::Json
        } else if e == "parquet"@ {
            ScanMethod::Parquet
        } else {
            ScanMethod::Raw
        },
        None => ScanMethod::Raw,
    }
}

/// The lower-case extension of a path.
pub open spec fn lower_extension(path: Seq<char>) -> Option<Seq<char>> {
    match extension_of(path) {
        Some(e) => Some(ascii_lower_seq(e)),
        None => None,
    }
}

/// How a local file is sized, by its extension.
pub fn scan_method(path: &str) -> (r: ScanMethod)
    ensures
        r == method_for(lower_extension(path@)),
{
    match extension(path) {
        Some(ext) => {
            let e = ext.as_str();
            if str_eq(e, "csv") {
                ScanMethod::Delimited(44)
            } else if str_eq(e, "tsv") {
                ScanMethod::Delimited(9)
            } else if str_eq(e, "json") || str_eq(e, "ndjson") || str_eq(e, "jsonl") {
                ScanMethod::Json
            } else if str_eq(e, "parquet") {
                ScanMethod::Parquet
            } else {
                ScanMethod::Raw
            }
        },
        None => ScanMethod::Raw,
    }
}

/// What the file system says of a path that a query names.
#[derive(Debug, Clone, PartialEq, Eq)]
pub struct PathProbe {
    pub path: String,
    pub exists: bool,
    /// The path's scan, where it can be sized.
    pub scan: Option<ScanEstimate>,
}

/// What is known of a path.
pub open spec fn probe_of(probes: Seq<PathProbe>, path: Seq<char>, from: int) -> (
    bool,
    Option<ScanEstimate>,
)
    decreases probes.len() - from,
{
    if from >= probes.len() {
        (false, None)
    } else if probes[from].path@ == path {
        (probes[from].exists, probes[from].scan)
    } else {
        probe_of(probes, path, from + 1)
    }
}

fn find_probe(probes: &[PathProbe], path: &String) -> (r: (bool, Option<ScanEstimate>))
    ensures
        r == probe_of(probes@, path@, 0),
{
    let mut i: usize = 0;
    while i < probes.len()
        invariant
            i <= probes@.len(),
            probe_of(probes@, path@, i as int) == probe_of(probes@, path@, 0),
        decreases probes@.len() - i,
    {
        if probes[i].path == *path {
            return (probes[i].exists, probes[i].scan);
        }
        i = i + 1;
    }
    (false, None)
}

/// Whether a path has the extension of a data file.
pub open spec fn looks_like_data(path: Seq<char>) -> bool {
    method_for(lower_extension(path)) != ScanMethod::Raw
}

/// Sizes of the sources so far: bytes, rows and how many.
pub ghost struct Sized {
    pub bytes: int,
    pub rows: int,
    pub count: int,
}

/// The sizes of the local sources among the literals, or none where one cannot be known:
/// a remote object, a pattern, or a data file that cannot be sized. Other literals do
/// not count.
pub open spec fn sized(literals: Seq<Seq<char>>, probes: Seq<PathProbe>) -> Option<Sized>
    decreases literals.len(),
{
    if literals.len() == 0 {
        Some(Sized { bytes: 0, rows: 0, count: 0 })
    } else {
        match sized(literals.drop_last(), probes) {
            None => None,
            Some(s) => {
                let lit = literals.last();
                let probe = probe_of(probes, lit, 0);
                if contains_seq(lit, "://"@) || glob_text(lit) {
                    None
                } else if !looks_like_data(lit) && !probe.0 {
                    Some(s)
                } else {
                    match probe.1 {
                        Some(scan) => Some(
                            Sized {
                                bytes: min_int(
                                    s.bytes + scan.scanned_uncompressed_bytes,
                                    u64::MAX as int,
                                ),
                                rows: min_int(s.rows + scan.total_rows, u64::MAX as int),
                                count: s.count + 1,
                            },
                        ),
                        None => None,
                    }
                }
            },
        }
    }
}

/// The scan of all sources together.
pub open spec fn joint_scan(s: Sized) -> ScanEstimate {
    ScanEstimate {
        scanned_uncompressed_bytes: s.bytes as u64,
        total_rows: s.rows as u64,
        estimated_output_rows: s.rows as u64,
        avg_row_width_bytes: if s.rows > 0 {
            (s.bytes / s.rows) as u64
        } else {
            0
        },
        units_total: s.count as usize,
        units_scanned: s.count as usize,
        projected_columns: 0,
    }
}

/// The estimator's default heuristics.
pub open spec fn default_params() -> EstimateParams {
    EstimateParams {
        text_row_width_fallback: 128,
        scan_buffer_cap_bytes: 16_777_216,
        group_entry_overhead_bytes: 32,
        throughput_bytes_per_ms: 500_000,
    }
}

/// The estimate of a query that reads data: a streaming scan of its local sources, where
/// every one can be sized and there is at least one.
pub open spec fn source_estimate(sql: Seq<char>, probes: Seq<PathProbe>) -> Option<
    WorkingSetEstimate,
> {
    match sized(literal_values(sql), probes) {
        Some(s) => if s.count == 0 {
            None
        } else {
            Some(
                working_set_spec(joint_scan(s), QueryShape::streaming_spec(), default_params()),
            )
        },
        None => None,
    }
}

proof fn sized_stays_none(literals: Seq<Seq<char>>, probes: Seq<PathProbe>, n: int)
    requires
        0 <= n <= literals.len(),
        sized(literals.take(n), probes) is None,
    ensures
        sized(literals, probes) is None,
    decreases literals.len() - n,
{
    if n < literals.len() {
        assert(literals.take(n + 1).drop_last() =~= literals.take(n));
        sized_stays_none(literals, probes, n + 1);
    } else {
        assert(literals.take(n) =~= literals);
    }
}

/// The estimate of a query that reads data, from what the file system says of the paths
/// that its literals name.
pub fn size_data_sources(sql: &str, probes: &[PathProbe]) -> (r: Option<WorkingSetEstimate>)
    ensures
        r == source_estimate(sql@, probes@),
{
    let literals = extract_string_literals(sql);
    let params = EstimateParams::default();
    let ghost values = literal_values(sql@);
    let mut bytes: u64 = 0;
    let mut rows: u64 = 0;
    let mut count: usize = 0;
    let mut i: usize = 0;
    assert(values.take(0) =~= Seq::empty());
    while i < literals.len()
        invariant
            i <= literals@.len(),
            values == literal_values(sql@),
            values == strs(literals@),
            count <= i,
            sized(values.take(i as int), probes@) == Some(
                Sized { bytes: bytes as int, rows: rows as int, count: count as int },
            ),
        decreases literals@.len() - i,
    {
        let lit = &literals[i];
        proof {
            let next = values.take(i + 1);
            assert(next.drop_last() =~= values.take(i as int));
            assert(next.last() == lit@);
        }
        if contains(lit.as_str(), "://") || is_glob(lit.as_str()) {
            proof {
                sized_stays_none(values, probes@, i + 1);
            }
            return None;
        }
        let probe = find_probe(probes, lit);
        let data = match scan_method(lit.as_str()) {
            ScanMethod::Raw => false,
            _ => true,
        };
        if data || probe.0 {
            match probe.1 {
                Some(scan) => {
                    bytes = sat_add_u64(bytes, scan.scanned_uncompressed_bytes);
                    rows = sat_add_u64(rows, scan.total_rows);
                    count = count + 1;
                },
                None => {
                    proof {
                        sized_stays_none(values, probes@, i + 1);
                    }
                    return None;
                },
            }
        }
        i = i + 1;
    }
    assert(values.take(i as int) =~= values);
    if count == 0 {
        return None;
    }
    let avg_row_width_bytes: u64 = if rows > 0 {
        bytes / rows
    } else {
        0
    };
    let scan = ScanEstimate {
        scanned_uncompressed_bytes: bytes,
        total_rows: rows,
        estimated_output_rows: rows,
        avg_row_width_bytes,
        units_total: count,
        units_scanned: count,
        projected_columns: 0,
    };
    Some(estimate_working_set(&scan, &QueryShape::streaming(), &params))
}

/// The estimate of a query that reads nothing.
pub open spec fn nothing_to_read() -> WorkingSetEstimate {
    WorkingSetEstimate {
        scanned_uncompressed_bytes: 0,
        estimated_rows: 0,
        scan_buffer_bytes: 0,
        group_by_bytes: 0,
        join_build_bytes: 0,
        sort_bytes: 0,
        peak_working_set_bytes: 0,
        estimated_runtime_ms: 0,
    }
}

/// The estimate before a query runs: of size zero where it reads no data, by the sizes of
/// its local sources where they can be known, else none.
pub fn preflight_estimate(sql: &str, probes: &[PathProbe]) -> (r: Option<WorkingSetEstimate>)
    ensures
        r == (if mentions_source(sql@) {
            source_estimate(sql@, probes@)
        } else {
            Some(nothing_to_read())
        }),
{
    if !has_data_source(sql) {
        return Some(
            WorkingSetEstimate {
                scanned_uncompressed_bytes: 0,
                estimated_rows: 0,
                scan_buffer_bytes: 0,
                group_by_bytes: 0,
                join_build_bytes: 0,
                sort_bytes: 0,
                peak_working_set_bytes: 0,
                estimated_runtime_ms: 0,
            },
        );
    }
    size_data_sources(sql, probes)
}

/// A remote object anywhere in a query makes its size unknowable.
pub proof fn remote_objects_cannot_be_sized(sql: Seq<char>, probes: Seq<PathProbe>, i: int)
    requires
        0 <= i < literal_values(sql).len(),
        contains_seq(literal_values(sql)[i], "://"@),
    ensures
        source_estimate(sql, probes) is None,
{
    let values = literal_values(sql);
    let next = values.take(i + 1);
    assert(next.last() == values[i]);
    assert(sized(next, probes) is None);
    sized_stays_none(values, probes, i + 1);
}

/// Where a node's queries can go, and whether it can pay.
#[derive(Debug, Clone, Copy, PartialEq, Eq, Structural)]
pub struct NodeState {
    /// Whether any host is known to dispatch to.
    pub has_grid_targets: bool,
    /// Whether there is a wallet to pay from.
    pub has_wallet: bool,
}

/// How a query sets out.
#[derive(Debug, Clone, Copy, PartialEq, Eq, Structural)]
pub struct QueryStart {
    /// The preference in effect.
    pub effective: PreferMode,
    /// The preference to run with, where it is overridden.
    pub prefer: Option<PreferMode>,
}

impl NodeState {
    /// How a query sets out: a paid one needs a wallet. With no preference and nobody to
    /// dispatch to, it runs locally where that is allowed.
    pub fn query_start(
        &self,
        paid: bool,
        asked: Option<PreferMode>,
        configured: PreferMode,
        local_allowed: bool,
    ) -> (r: Result<QueryStart, NodeError>)
        ensures
            r is Err <==> paid && !self.has_wallet,
            r is Err ==> r->Err_0 is WalletRequired,
            r is Ok ==> r->Ok_0.effective == (match asked {
                Some(p) => p,
                None => configured,
            }),
            r is Ok ==> r->Ok_0.prefer == (if local_allowed && r->Ok_0.effective
                == PreferMode::Auto && !self.has_grid_targets {
                Some(PreferMode::Local)
            } else {
                asked
            }),
    {
        if paid && !self.has_wallet {
            return Err(NodeError::WalletRequired);
        }
        let effective = match asked {
            Some(p) => p,
            None => configured,
        };
        let prefer = if local_allowed && effective == PreferMode::Auto && !self.has_grid_targets {
            Some(PreferMode::Local)
        } else {
            asked
        };
        Ok(QueryStart { effective, prefer })
    }
}

/// Whether a query that failed on the grid runs locally instead: nobody could be reached,
/// or not enough hosts, and neither the caller nor the configuration rules it out.
pub fn falls_back_to_local(err: &CoordinatorError, effective: PreferMode, local_allowed: bool) -> (r:
    bool)
    ensures
        r == (local_allowed && effective == PreferMode::Auto && (err is NoCandidates || err
            is InsufficientWorkers)),
{
    if !local_allowed || effective != PreferMode::Auto {
        return false;
    }
    match err {
        CoordinatorError::NoCandidates => true,
        CoordinatorError::InsufficientWorkers { .. } => true,
        _ => false,
    }
}

/// Whether the node will ever run queries of its own.
pub fn local_active(planner_enabled: bool, local_execution_enabled: bool) -> (r: bool)
    ensures
        r == (planner_enabled && local_execution_enabled),
{
    planner_enabled && local_execution_enabled
}

/// What gives workers access to remote objects.
#[derive(Debug, Clone, Copy, PartialEq, Eq, Structural)]
pub enum StorageWiring {
    /// Nothing: remote reads are off.
    Nothing,
    /// Signed URLs.
    Presign,
    /// Scoped credentials.
    Credential,
}

/// What gives workers access to remote objects.
pub fn storage_wiring(enable_remote_access: bool, mode: CredentialMode) -> (r: StorageWiring)
    ensures
        r == (if !enable_remote_access {
            StorageWiring::Nothing
        } else if mode == CredentialMode::Presigned {
            StorageWiring::Presign
        } else {
            StorageWiring::Credential
        }),
{
    if !enable_remote_access {
        StorageWiring::Nothing
    } else if mode == CredentialMode::Presigned {
        StorageWiring::Presign
    } else {
        StorageWiring::Credential
    }
}

/// What confines a job to its sandbox, once the platform is taken into account.
#[derive(Debug, Clone, Copy, PartialEq, Eq, Structural)]
pub enum SandboxBackend {
    /// Nothing.
    Noop,
    MacosSeatbelt,
    CgroupsSeccomp,
    Android,
    WindowsJobObject,
    Ios,
}

/// The sandbox of the jobs that a host serves.
#[derive(Debug, Clone, Copy, PartialEq, Eq, Structural)]
pub struct HostSandbox {
    pub enabled: bool,
    pub process_per_job: bool,
    pub backend: SandboxBackend,
}

/// Which of two sandboxes a host uses: the secure one, unless the operator configured
/// another.
pub fn host_sandbox(configured: HostSandbox, is_default: bool, secure: HostSandbox) -> (r:
    HostSandbox)
    ensures
        r == (if is_default {
            secure
        } else {
            configured
        }),
{
    if is_default {
        secure
    } else {
        configured
    }
}

/// Whether an executor for child processes is configured.
pub open spec fn has_executor(path: Option<String>) -> bool {
    path is Some && trim_seq(path->0@).len() > 0
}

fn executor_set(path: &Option<String>) -> (r: bool)
    ensures
        r == has_executor(*path),
{
    match path {
        Some(p) => !trim(p.as_str()).as_str().is_empty(),
        None => false,
    }
}

impl HostSandbox {
    /// Whether a backend can keep a job from the network.
    pub open spec fn filters_egress(self) -> bool {
        self.backend == SandboxBackend::MacosSeatbelt || self.backend
            == SandboxBackend::CgroupsSeccomp || self.backend == SandboxBackend::Android
            || self.backend == SandboxBackend::WindowsJobObject
    }

    /// Whether a job that reads remote objects is kept from every other endpoint.
    pub open spec fn confines(self, executor: Option<String>) -> bool {
        self.enabled && self.process_per_job && self.filters_egress() && has_executor(executor)
    }

    /// Whether a job that reads remote objects is kept from every other endpoint: only in
    /// a sandboxed process of its own, with a backend that can.
    pub fn remote_egress_confined(&self, executor: &Option<String>) -> (r: bool)
        ensures
            r == self.confines(*executor),
    {
        if !self.enabled || !self.process_per_job {
            return false;
        }
        let capable = match self.backend {
            SandboxBackend::MacosSeatbelt | SandboxBackend::CgroupsSeccomp
            | SandboxBackend::Android | SandboxBackend::WindowsJobObject => true,
            _ => false,
        };
        capable && executor_set(executor)
    }

    /// Whether jobs run in processes of their own: as configured, where there is an
    /// executor for them.
    pub fn runs_subprocess(&self, executor: &Option<String>) -> (r: bool)
        ensures
            r == (self.process_per_job && self.enabled && has_executor(*executor)),
    {
        self.process_per_job && self.enabled && executor_set(executor)
    }

    /// Why the host serves nobody, if it does not: remote reads are on and nothing
    /// confines them.
    pub fn refusal(&self, enable_remote_access: bool, executor: &Option<String>) -> (r: Option<
        String,
    >)
        ensures
            r is Some <==> enable_remote_access && !self.confines(*executor),
            r is Some ==> r->0@
                == "host refuses to serve: storage.enable_remote_access=true without an active OS egress filter (enable [sandbox] with process_per_job + an egress-capable backend and set P2P_JOB_EXEC, or run behind an OS-level egress firewall). Serving foreign jobs unconfined with open egress is an SSRF risk."@,
    {
        if enable_remote_access && !self.remote_egress_confined(executor) {
            Some(
                "host refuses to serve: storage.enable_remote_access=true without an active OS egress filter (enable [sandbox] with process_per_job + an egress-capable backend and set P2P_JOB_EXEC, or run behind an OS-level egress firewall). Serving foreign jobs unconfined with open egress is an SSRF risk.".to_owned(),
            )
        } else {
            None
        }
    }
}

/// The version of the engine that runs jobs in processes of their own.
pub fn subprocess_version(engine: &str) -> (r: String)
    ensures
        r@ == engine@ + "-subprocess"@,
{
    join(engine, "-subprocess")
}

/// What a host advertises, before it is signed.
#[derive(Debug, Clone, PartialEq, Eq)]
pub struct HostAdDraft {
    pub addr: String,
    pub free_mem_bytes: u64,
    pub free_threads: u32,
    pub max_jobs: u32,
    pub attestation_level: AttestationLevel,
    pub price: u64,
    pub ts: u64,
    pub enabled: bool,
    pub networks: Vec<String>,
    pub groups: Vec<String>,
    pub region: Option<String>,
}

/// What a host's configuration says of it.
#[derive(Debug, Clone, PartialEq, Eq)]
pub struct HostConfig {
    pub memory_bytes: u64,
    pub threads: u32,
    pub max_jobs: u32,
    pub economics_enabled: bool,
    /// The metered price of a second.
    pub rate_per_second: u128,
    pub enabled: bool,
    pub networks: Vec<String>,
    pub groups: Vec<String>,
    pub region: Option<String>,
}

/// What a host advertises: what it donates, its labels, and its price, which is nothing
/// on a free grid.
pub fn build_host_capability_ad(cfg: &HostConfig, addr: String, ts: u64) -> (r: HostAdDraft)
    ensures
        r.addr == addr,
        r.free_mem_bytes == cfg.memory_bytes,
        r.free_threads == cfg.threads,
        r.max_jobs == cfg.max_jobs,
        r.attestation_level == AttestationLevel::L0,
        r.price == (if cfg.economics_enabled {
            min_int(cfg.rate_per_second as int, u64::MAX as int)
        } else {
            0
        }),
        r.ts == ts,
        r.enabled == cfg.enabled,
        strs(r.networks@) == strs(cfg.networks@),
        strs(r.groups@) == strs(cfg.groups@),
        opt_str(r.region) == opt_str(cfg.region),
{
    let price: u64 = if cfg.economics_enabled {
        if cfg.rate_per_second > 0xFFFF_FFFF_FFFF_FFFF {
            u64::MAX
        } else {
            cfg.rate_per_second as u64
        }
    } else {
        0
    };
    HostAdDraft {
        addr,
        free_mem_bytes: cfg.memory_bytes,
        free_threads: cfg.threads,
        max_jobs: cfg.max_jobs,
        attestation_level: AttestationLevel::L0,
        price,
        ts,
        enabled: cfg.enabled,
        networks: copy_strs(&cfg.networks),
        groups: copy_strs(&cfg.groups),
        region: copy_opt_str(&cfg.region),
    }
}

/// How often a host's ad is renewed, in seconds: twice in its lifetime, but not more
/// often than every five seconds.
pub fn readvertise_secs(ttl_secs: u64) -> (r: u64)
    ensures
        r == max_int(ttl_secs as int / 2, 5),
{
    let half: u64 = ttl_secs / 2;
    if half > 5 {
        half
    } else {
        5
    }
}

/// The address a host advertises: the configured one, or the one it is bound to.
pub fn advertised_addr(configured: Option<String>, bound: Option<String>) -> (r: Option<String>)
    ensures
        r == (if configured is Some {
            configured
        } else {
            bound
        }),
{
    if configured.is_some() {
        configured
    } else {
        bound
    }
}

/// The text before its trailing slashes.
pub open spec fn without_trailing_slashes(s: Seq<char>) -> Seq<char>
    decreases s.len(),
{
    if s.len() > 0 && s.last() == '/' {
        without_trailing_slashes(s.drop_last())
    } else {
        s
    }
}

/// The host and port that a bootstrap seed names.
pub open spec fn seed_target(seed: Seq<char>) -> Seq<char> {
    let rest = if crate::text::occurs_at(seed, "quic://"@, 0) {
        strip_prefix_seq(seed, "quic://"@)
    } else {
        strip_prefix_seq(seed, "udp://"@)
    };
    without_trailing_slashes(rest)
}

/// The host and port that a bootstrap seed names, without its scheme and trailing
/// slashes.
pub fn seed_host(seed: &str) -> (r: String)
    ensures
        r@ == seed_target(seed@),
{
    let rest = if crate::text::starts_with(seed, "quic://") {
        strip_prefix(seed, "quic://")
    } else {
        strip_prefix(seed, "udp://")
    };
    let v = chars_of(rest.as_str());
    let mut n: usize = v.len();
    assert(v@.subrange(0, n as int) =~= rest@);
    while n > 0 && v[n - 1] == '/'
        invariant
            n <= v@.len(),
            without_trailing_slashes(v@.subrange(0, n as int)) == without_trailing_slashes(rest@),
        decreases n,
    {
        proof {
            let here = v@.subrange(0, n as int);
            assert(here.last() == v@[n - 1]);
            assert(here.drop_last() =~= v@.subrange(0, n - 1));
        }
        n = n - 1;
    }
    proof {
        let here = v@.subrange(0, n as int);
        if n > 0 {
            assert(here.last() == v@[n - 1]);
        }
    }
    string_of_range(&v, 0, n)
}

/// The candidates at the seeds that were resolved, in order.
pub open spec fn seed_candidates(resolved: Seq<Option<String>>) -> Seq<CandidateView>
    decreases resolved.len(),
{
    if resolved.len() == 0 {
        Seq::empty()
    } else {
        let rest = seed_candidates(resolved.drop_last());
        match resolved.last() {
            Some(addr) => rest.push(
                CandidateView {
                    node_id: None,
                    id_provenance: IdProvenance::Tofu,
                    addr: addr@,
                    advertised_level: None,
                    advertised_networks: Seq::empty(),
                    advertised_groups: Seq::empty(),
                    advertised_region: None,
                },
            ),
            None => rest,
        }
    }
}

/// The candidates at the seeds: each that was resolved to a socket address. One that was
/// not is skipped.
pub fn resolve_seeds(resolved: &[Option<String>]) -> (r: Vec<Candidate>)
    ensures
        candidate_views(r@) == seed_candidates(resolved@),
{
    let mut r: Vec<Candidate> = Vec::new();
    let mut i: usize = 0;
    assert(candidate_views(r@) =~= Seq::empty());
    while i < resolved.len()
        invariant
            i <= resolved@.len(),
            candidate_views(r@) == seed_candidates(resolved@.take(i as int)),
        decreases resolved@.len() - i,
    {
        let ghost before = candidate_views(r@);
        proof {
            let next = resolved@.take(i + 1);
            assert(next.drop_last() =~= resolved@.take(i as int));
            assert(next.last() == resolved@[i as int]);
        }
        if let Some(addr) = &resolved[i] {
            let c = Candidate::new(None, addr.clone());
            proof {
                assert(c@.advertised_networks =~= Seq::empty());
                assert(c@.advertised_groups =~= Seq::empty());
            }
            r.push(c);
            assert(candidate_views(r@) =~= before.push(c@));
        }
        i = i + 1;
    }
    assert(resolved@.take(i as int) =~= resolved@);
    r
}

proof fn stands_last(s: Seq<char>, c: char, at: int)
    requires
        -1 <= at < s.len(),
        at >= 0 ==> s[at] == c,
        forall|i: int| at < i < s.len() ==> #[trigger] s[i] != c,
    ensures
        last_index(s, c) == (if at >= 0 {
            Some(at)
        } else {
            None
        }),
    decreases s.len(),
{
    if s.len() > 0 && at < s.len() - 1 {
        assert(s[s.len() - 1] != c);
        stands_last(s.drop_last(), c, at);
    }
}

/// The extension of a path is what follows the last dot of its name.
pub proof fn extensions_follow_the_last_dot(dir: Seq<char>, stem: Seq<char>, ext: Seq<char>)
    requires
        stem.len() > 0,
        forall|i: int| 0 <= i < stem.len() ==> #[trigger] stem[i] != '/',
        ext.len() > 0,
        forall|i: int| 0 <= i < ext.len() ==> #[trigger] ext[i] != '/' && ext[i] != '.',
    ensures
        extension_of(stem + seq!['.'] + ext) == Some(ext),
        extension_of(dir + seq!['/'] + (stem + seq!['.'] + ext)) == Some(ext),
{
    reveal_strlit(".");
    reveal_strlit("..");
    let name = stem + seq!['.'] + ext;
    assert forall|i: int| 0 <= i < name.len() implies #[trigger] name[i] != '/' by {
        if i < stem.len() {
            assert(name[i] == stem[i]);
        } else if i > stem.len() {
            assert(name[i] == ext[i - stem.len() - 1]);
        }
    }
    let dot = stem.len() as int;
    assert(name[dot] == '.');
    assert forall|i: int| dot < i < name.len() implies #[trigger] name[i] != '.' by {
        assert(name[i] == ext[i - dot - 1]);
    }
    stands_last(name, '.', dot);
    assert(name.subrange(dot + 1, name.len() as int) =~= ext);
    assert(name.len() >= 3);
    stands_last(name, '/', -1);
    let path = dir + seq!['/'] + name;
    let cut = dir.len() as int;
    assert forall|i: int| cut < i < path.len() implies #[trigger] path[i] != '/' by {
        assert(path[i] == name[i - cut - 1]);
    }
    stands_last(path, '/', cut);
    assert(path.subrange(cut + 1, path.len() as int) =~= name);
}

/// Files are sized by their extension: text by a sample, Parquet uncompressed, and all
/// others by their size.
pub proof fn files_are_sized_by_their_extension(ext: Seq<char>)
    ensures
        method_for(Some("csv"@)) == ScanMethod::Delimited(44),
        method_for(Some("tsv"@)) == ScanMethod::Delimited(9),
        method_for(Some("json"@)) == ScanMethod::Json,
        method_for(Some("ndjson"@)) == ScanMethod::Json,
        method_for(Some("jsonl"@)) == ScanMethod::Json,
        method_for(Some("parquet"@)) == ScanMethod::Parquet,
        ext != "csv"@ && ext != "tsv"@ && ext != "json"@ && ext != "ndjson"@ && ext != "jsonl"@
            && ext != "parquet"@ ==> method_for(Some(ext)) == ScanMethod::Raw,
        method_for(None) == ScanMethod::Raw,
{
    reveal_strlit("csv");
    reveal_strlit("tsv");
    reveal_strlit("json");
    reveal_strlit("ndjson");
    reveal_strlit("jsonl");
    reveal_strlit("parquet");
    assert("csv"@[0] == 'c' && "tsv"@[0] == 't' && "json"@[0] == 'j' && "ndjson"@[0] == 'n'
        && "jsonl"@[0] == 'j' && "parquet"@[0] == 'p');
}

/// What is known of a path is what its first probe says.
pub proof fn paths_are_known_by_their_probe(probes: Seq<PathProbe>, path: Seq<char>, from: int, i: int)
    requires
        0 <= from <= i <= probes.len(),
        forall|k: int| from <= k < i ==> (#[trigger] probes[k]).path@ != path,
        i < probes.len() ==> probes[i].path@ == path,
    ensures
        i < probes.len() ==> probe_of(probes, path, from) == (probes[i].exists, probes[i].scan),
        i == probes.len() ==> probe_of(probes, path, from) == (false, None::<ScanEstimate>),
    decreases i - from,
{
    if from < i {
        assert(probes[from].path@ != path);
        paths_are_known_by_their_probe(probes, path, from + 1, i);
    }
}

/// A query's sources add up: a data file, or any file that exists, counts with its bytes
/// and rows; another literal counts for nothing; and a remote object, a pattern or a file
/// that cannot be sized makes the whole unknown.
pub proof fn local_sources_add_up(
    literals: Seq<Seq<char>>,
    more: Seq<char>,
    probes: Seq<PathProbe>,
)
    ensures
        ({
            let before = sized(literals, probes);
            let after = sized(literals.push(more), probes);
            let (exists, scan) = probe_of(probes, more, 0);
            let remote = contains_seq(more, "://"@);
            let source = looks_like_data(more) || exists;
            &&& before is None ==> after is None
            &&& before is Some && (remote || glob_text(more)) ==> after is None
            &&& before is Some && !remote && !glob_text(more) && !source ==> after == before
            &&& before is Some && !remote && !glob_text(more) && source && scan is None
                ==> after is None
            &&& before is Some && !remote && !glob_text(more) && source && scan is Some ==> {
                &&& after is Some
                &&& after->0.count == before->0.count + 1
                &&& before->0.bytes + scan->0.scanned_uncompressed_bytes <= u64::MAX
                    ==> after->0.bytes == before->0.bytes + scan->0.scanned_uncompressed_bytes
                &&& before->0.bytes + scan->0.scanned_uncompressed_bytes > u64::MAX
                    ==> after->0.bytes == u64::MAX
                &&& before->0.rows + scan->0.total_rows <= u64::MAX ==> after->0.rows
                    == before->0.rows + scan->0.total_rows
                &&& before->0.rows + scan->0.total_rows > u64::MAX ==> after->0.rows == u64::MAX
            }
        }),
        sized(Seq::empty(), probes) == Some(Sized { bytes: 0, rows: 0, count: 0 }),
{
    assert(literals.push(more).drop_last() =~= literals);
}

/// A query that reads outside data has an estimate exactly where all its sources could be
/// sized and there is one; it streams, so that its peak is the scan's buffer.
pub proof fn sized_queries_stream(sql: Seq<char>, probes: Seq<PathProbe>)
    ensures
        ({
            let s = sized(literals_from(sql, 0).map_values(|l: LiteralView| l.value), probes);
            let e = source_estimate(sql, probes);
            &&& e is Some <==> s is Some && s->0.count != 0
            &&& e is Some && 0 <= s->0.bytes <= u64::MAX && 0 <= s->0.rows <= u64::MAX ==> {
                &&& e->0.scanned_uncompressed_bytes == s->0.bytes
                &&& e->0.estimated_rows == s->0.rows
                &&& e->0.group_by_bytes == 0 && e->0.join_build_bytes == 0 && e->0.sort_bytes == 0
                &&& s->0.bytes <= 16_777_216 ==> e->0.peak_working_set_bytes == s->0.bytes
                &&& s->0.bytes > 16_777_216 ==> e->0.peak_working_set_bytes == 16_777_216
                &&& e->0.estimated_runtime_ms == s->0.bytes / 500_000
            }
        }),
{
    assert(literal_values(sql) =~= literals_from(sql, 0).map_values(|l: LiteralView| l.value));
}

/// A query that reads nothing needs nothing.
pub proof fn nothing_is_needed_for_nothing()
    ensures
        ({
            let e = nothing_to_read();
            &&& e.scanned_uncompressed_bytes == 0 && e.estimated_rows == 0
            &&& e.peak_working_set_bytes == 0 && e.estimated_runtime_ms == 0
            &&& e.scan_buffer_bytes == 0 && e.group_by_bytes == 0
            &&& e.join_build_bytes == 0 && e.sort_bytes == 0
        }),
{
}

/// A host keeps remote reads from other endpoints only in a sandboxed process of its own,
/// with a backend that filters the network and an executor to run it.
pub proof fn confinement_needs_all_of_it(s: HostSandbox, executor: Option<String>)
    ensures
        s.confines(executor) <==> {
            &&& s.enabled
            &&& s.process_per_job
            &&& s.backend != SandboxBackend::Noop && s.backend != SandboxBackend::Ios
            &&& executor is Some && trim_seq(executor->0@).len() > 0
        },
{
}

/// A seed names the host behind its scheme, without a slash at the end.
pub proof fn seeds_name_their_host(host: Seq<char>)
    requires
        host.len() > 0,
        host.last() != '/',
        forall|i: int| 0 <= i < host.len() ==> #[trigger] host[i] != '/',
    ensures
        seed_target(host) == host,
        seed_target("quic://"@ + host) == host,
        seed_target("udp://"@ + host) == host,
        seed_target("quic://"@ + host + seq!['/']) == host,
{
    reveal_strlit("quic://");
    reveal_strlit("udp://");
    assert(!crate::text::occurs_at(host, "quic://"@, 0)) by {
        if crate::text::occurs_at(host, "quic://"@, 0) {
            assert(host.subrange(0, 7)[5] == host[5]);
        }
    }
    assert(!crate::text::occurs_at(host, "udp://"@, 0)) by {
        if crate::text::occurs_at(host, "udp://"@, 0) {
            assert(host.subrange(0, 6)[4] == host[4]);
        }
    }
    assert(without_trailing_slashes(host) == host);
    let q = "quic://"@ + host;
    assert(q.subrange(0, 7) =~= "quic://"@);
    assert(q.subrange(7, q.len() as int) =~= host);
    let u = "udp://"@ + host;
    assert(u.subrange(0, 6) =~= "udp://"@);
    assert(u.subrange(6, u.len() as int) =~= host);
    assert(!crate::text::occurs_at(u, "quic://"@, 0)) by {
        if crate::text::occurs_at(u, "quic://"@, 0) {
            assert(u.subrange(0, 7)[0] == u[0]);
        }
    }
    let s = "quic://"@ + host + seq!['/'];
    assert(s.subrange(0, 7) =~= "quic://"@);
    let t = host + seq!['/'];
    assert(s.subrange(7, s.len() as int) =~= t);
    assert(t.drop_last() =~= host);
    assert(without_trailing_slashes(t) == without_trailing_slashes(host));
}

/// Every seed that was resolved is a candidate, in order; its identity is not known yet.
pub proof fn resolved_seeds_are_candidates(resolved: Seq<Option<String>>, more: Option<String>)
    ensures
        ({
            let before = seed_candidates(resolved);
            let after = seed_candidates(resolved.push(more));
            &&& more is None ==> after == before
            &&& more is Some ==> after.drop_last() == before && after.last().addr == more->0@
                && after.last().node_id is None && after.last().id_provenance == IdProvenance::Tofu
                && after.last().advertised_level is None
                && after.last().advertised_networks.len() == 0
                && after.last().advertised_groups.len() == 0
                && after.last().advertised_region is None
        }),
        seed_candidates(Seq::empty()).len() == 0,
{
    assert(resolved.push(more).drop_last() =~= resolved);
    if more is Some {
        assert(seed_candidates(resolved.push(more)).drop_last() =~= seed_candidates(resolved));
    }
}

/// A paid query needs a wallet; a preference is kept; and without one, a query that nobody
/// else can run stays on this node where that is allowed.
pub proof fn queries_set_out_where_they_can_run(
    s: NodeState,
    paid: bool,
    asked: Option<PreferMode>,
    configured: PreferMode,
    local_allowed: bool,
    r: Result<QueryStart, NodeError>,
)
    requires
        call_ensures(NodeState::query_start, (&s, paid, asked, configured, local_allowed), r),
    ensures
        paid && !s.has_wallet <==> r is Err,
        r is Err ==> r->Err_0 is WalletRequired,
        r is Ok && asked is Some ==> r->Ok_0.effective == asked->0,
        r is Ok && asked is None ==> r->Ok_0.effective == configured,
        r is Ok && r->Ok_0.effective == PreferMode::Auto && !s.has_grid_targets && local_allowed
            ==> r->Ok_0.prefer == Some(PreferMode::Local),
        r is Ok && (r->Ok_0.effective != PreferMode::Auto || s.has_grid_targets || !local_allowed)
            ==> r->Ok_0.prefer == asked,
{
}

/// A query falls back to this node only where it was free to run anywhere, this node may
/// run it, and the grid had nobody or not enough.
pub proof fn queries_fall_back_when_nobody_answers(
    err: CoordinatorError,
    effective: PreferMode,
    local_allowed: bool,
    r: bool,
)
    requires
        call_ensures(falls_back_to_local, (&err, effective, local_allowed), r),
    ensures
        r ==> local_allowed && effective == PreferMode::Auto,
        r ==> err is NoCandidates || err is InsufficientWorkers,
        local_allowed && effective == PreferMode::Auto && err is NoCandidates ==> r,
        local_allowed && effective == PreferMode::Auto && err is InsufficientWorkers ==> r,
{
}

/// Remote reads are granted only where they are switched on: by signed URLs, or else by
/// credentials.
pub proof fn remote_reads_are_granted_as_configured(
    on: bool,
    mode: CredentialMode,
    r: StorageWiring,
)
    requires
        call_ensures(storage_wiring, (on, mode), r),
    ensures
        r == StorageWiring::Nothing <==> !on,
        r == StorageWiring::Presign <==> on && mode == CredentialMode::Presigned,
        r == StorageWiring::Credential <==> on && mode != CredentialMode::Presigned,
{
}

/// A host is secure unless the operator says otherwise.
pub proof fn hosts_are_secure_by_default(
    configured: HostSandbox,
    is_default: bool,
    secure: HostSandbox,
    r: HostSandbox,
)
    requires
        call_ensures(host_sandbox, (configured, is_default, secure), r),
    ensures
        is_default ==> r == secure,
        !is_default ==> r == configured,
{
}

/// A host advertises what it donates, at the price that it asks, and no attestation.
pub proof fn hosts_advertise_what_they_donate(cfg: HostConfig, addr: String, ts: u64, r: HostAdDraft)
    requires
        call_ensures(build_host_capability_ad, (&cfg, addr, ts), r),
    ensures
        r.addr == addr && r.ts == ts && r.enabled == cfg.enabled,
        r.free_mem_bytes == cfg.memory_bytes && r.free_threads == cfg.threads && r.max_jobs
            == cfg.max_jobs,
        r.attestation_level == AttestationLevel::L0,
        !cfg.economics_enabled ==> r.price == 0,
        cfg.economics_enabled && cfg.rate_per_second <= u64::MAX ==> r.price == cfg.rate_per_second,
        cfg.economics_enabled && cfg.rate_per_second > u64::MAX ==> r.price == u64::MAX,
        strs(r.networks@) == strs(cfg.networks@) && strs(r.groups@) == strs(cfg.groups@),
        opt_str(r.region) == opt_str(cfg.region),
{
}

} // verus!
