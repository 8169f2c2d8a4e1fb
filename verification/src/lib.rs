//! The decision core of a peer-to-peer query grid node: admission, planning,
//! scheduling, verification and settlement rules, each with a proved contract.

pub mod admission;
pub mod antiabuse;
pub mod capability_store;
pub mod compression;
pub mod coordinator;
pub mod datasource;
pub mod digest;
pub mod discovery;
pub mod duckdb_engine;
pub mod engine;
pub mod estimator;
pub mod governor;
pub mod hexadecimal;
pub mod input_resolver;
pub mod json;
pub mod libp2p_discovery;
pub mod liveness;
pub mod math;
pub mod membership;
pub mod node;
pub mod planner;
pub mod ranking;
pub mod result_stream;
pub mod retry;
pub mod sampling;
pub mod scan;
pub mod sql;
pub mod text;
pub mod types;

pub use admission::{AdmissionController, FreeResources, Lease};
pub use antiabuse::{cost_gate_reason, Blocklist, RateLimiter};
pub use capability_store::{CapabilityStore, MeasuredExecution};
pub use coordinator::error::CoordinatorError;
pub use coordinator::local::QueryOutcome;
pub use datasource::secrets::{
    AzureProvider, GcsProvider, HttpsProvider, LocalFileProvider, ProviderOptions, S3Provider,
    StorageProvider,
};
pub use datasource::setup::{default_provider, ProviderRegistry, StorageSetup};
pub use datasource::{CloudCredential, DataFormat, DataSourceError, SEALED_TOKEN_PREFIX};
pub use discovery::{Candidate, CandidateFilter, StaticDiscovery};
pub use engine::{EngineError, ExecLease, JobContext, MockEngine, EXTENSION_HARDENING_SQL};
pub use estimator::delta::delta_metadata;
pub use estimator::explain::{has_data_source, parse_explain_cardinality};
pub use estimator::parquet::parquet_metadata_from_resultset;
pub use estimator::samples::{csv_metadata, ndjson_metadata};
pub use estimator::{
    estimate_parquet, estimate_table_files, estimate_text, estimate_working_set, Cmp,
    ColumnChunkMeta, DataFileMeta, DeltaMetadata, EstimateError, EstimateParams, IcebergMetadata,
    ParquetMetadata, Predicate, Projection, QueryShape, RowGroupMeta, ScanEstimate,
    TableFilesMetadata, TextMetadata, WorkingSetEstimate,
};
pub use libp2p_discovery::{
    evaluate_ad, AdOutcome, DiscoveryError, Libp2pDiscoveryConfig, NatParams, RelayLimits,
};
pub use liveness::{now_ms, LivenessView, SwimVerdict};
pub use membership::MembershipTable;
pub use node::NodeError;
pub use planner::{
    is_resource_exhaustion, DefaultPlanner, LocalExecutor, LocalOrRemotePlanner, LocalReservation,
    PlanDecision, PlanReason, PlanRequest, Route,
};
pub use retry::{Backoff, FaultTally};
