//! Plain values exchanged by the modules: identities, wire enums and records.

use vstd::prelude::*;

verus! {

/// The stable identity of a grid node (`b3:…`).
#[derive(Debug, Clone, PartialEq, Eq, Hash)]
pub struct NodeId(pub String);

impl View for NodeId {
    type V = Seq<char>;

    open spec fn view(&self) -> Seq<char> {
        self.0@
    }
}

impl NodeId {
    pub fn as_str(&self) -> (r: &str)
        ensures
            r@ == self@,
    {
        self.0.as_str()
    }

    /// Another handle on the same identity.
    pub fn duplicate(&self) -> (r: NodeId)
        ensures
            r == *self,
    {
        NodeId(self.0.clone())
    }

    /// Whether two identities are the same.
    pub fn same(&self, other: &NodeId) -> (r: bool)
        ensures
            r == (self@ == other@),
    {
        self.0 == other.0
    }
}

/// The identities in `v`, as character sequences.
pub open spec fn ids(v: Seq<NodeId>) -> Seq<Seq<char>> {
    v.map_values(|n: NodeId| n@)
}

/// The strings in `v`, as character sequences.
pub open spec fn strs(v: Seq<String>) -> Seq<Seq<char>> {
    v.map_values(|s: String| s@)
}

/// The text of an optional string.
pub open spec fn opt_str(s: Option<String>) -> Option<Seq<char>> {
    match s {
        Some(t) => Some(t@),
        None => None,
    }
}

/// The identity in an optional node id.
pub open spec fn opt_id(n: Option<NodeId>) -> Option<Seq<char>> {
    match n {
        Some(t) => Some(t@),
        None => None,
    }
}

/// Whether `id` is among `v`.
pub fn has_id(v: &[NodeId], id: &NodeId) -> (r: bool)
    ensures
        r == ids(v@).contains(id@),
{
    let mut i: usize = 0;
    while i < v.len()
        invariant
            i <= v@.len(),
            forall|k: int| 0 <= k < i ==> v@[k]@ != id@,
        decreases v@.len() - i,
    {
        if v[i].same(id) {
            assert(ids(v@)[i as int] == id@);
            return true;
        }
        i = i + 1;
    }
    assert forall|k: int| 0 <= k < ids(v@).len() implies ids(v@)[k] != id@ by {}
    false
}

/// Whether the text `s` is among `v`.
pub fn has_str(v: &[String], s: &String) -> (r: bool)
    ensures
        r == strs(v@).contains(s@),
{
    let mut i: usize = 0;
    while i < v.len()
        invariant
            i <= v@.len(),
            forall|k: int| 0 <= k < i ==> v@[k]@ != s@,
        decreases v@.len() - i,
    {
        if v[i] == *s {
            assert(strs(v@)[i as int] == s@);
            return true;
        }
        i = i + 1;
    }
    assert forall|k: int| 0 <= k < strs(v@).len() implies strs(v@)[k] != s@ by {}
    false
}

/// A copy of the strings `v`.
pub fn copy_strs(v: &[String]) -> (r: Vec<String>)
    ensures
        r@ == v@,
{
    let mut r: Vec<String> = Vec::new();
    let mut i: usize = 0;
    while i < v.len()
        invariant
            i <= v@.len(),
            r@ == v@.take(i as int),
        decreases v@.len() - i,
    {
        r.push(v[i].clone());
        i = i + 1;
        assert(r@ =~= v@.take(i as int));
    }
    assert(v@.take(i as int) =~= v@);
    r
}

/// A copy of the identities `v`.
pub fn copy_ids(v: &[NodeId]) -> (r: Vec<NodeId>)
    ensures
        r@ == v@,
{
    let mut r: Vec<NodeId> = Vec::new();
    let mut i: usize = 0;
    while i < v.len()
        invariant
            i <= v@.len(),
            r@ == v@.take(i as int),
        decreases v@.len() - i,
    {
        r.push(v[i].duplicate());
        i = i + 1;
        assert(r@ =~= v@.take(i as int));
    }
    assert(v@.take(i as int) =~= v@);
    r
}

/// A copy of an optional string.
pub fn copy_opt_str(s: &Option<String>) -> (r: Option<String>)
    ensures
        r == *s,
{
    match s {
        Some(t) => Some(t.clone()),
        None => None,
    }
}

/// A copy of an optional identity.
pub fn copy_opt_id(n: &Option<NodeId>) -> (r: Option<NodeId>)
    ensures
        r == *n,
{
    match n {
        Some(t) => Some(t.duplicate()),
        None => None,
    }
}

/// The sensitivity class of the data a job reads.
#[derive(Debug, Clone, Copy, PartialEq, Eq, Structural)]
pub enum DataClass {
    Public,
    Internal,
    Sensitive,
}

/// The data class as it is written in configuration.
#[derive(Debug, Clone, Copy, PartialEq, Eq, Structural)]
pub enum DataClassCfg {
    Public,
    Internal,
    Sensitive,
}

/// How strongly a host proves what it runs.
#[derive(Debug, Clone, Copy, PartialEq, Eq, Structural)]
pub enum AttestationLevel {
    L0,
    L1,
    L2,
}

impl AttestationLevel {
    pub open spec fn rank_spec(self) -> nat {
        match self {
            AttestationLevel::L0 => 0,
            AttestationLevel::L1 => 1,
            AttestationLevel::L2 => 2,
        }
    }

    /// The level's position in the order `L0 < L1 < L2`.
    pub fn rank(self) -> (r: u8)
        ensures
            r == self.rank_spec(),
    {
        match self {
            AttestationLevel::L0 => 0,
            AttestationLevel::L1 => 1,
            AttestationLevel::L2 => 2,
        }
    }
}

/// What a requester concluded about one provider's part in a job.
#[derive(Debug, Clone, Copy, PartialEq, Eq, Structural)]
pub enum Verdict {
    /// The provider's result matched the agreed one.
    Correct,
    /// The provider's result differed on the same inputs.
    Incorrect,
    /// The provider accepted the job and never answered.
    Timeout,
    /// The provider's answer could not be used.
    Malformed,
    /// The query itself cannot succeed.
    Infeasible,
    /// The query needs more resources than the provider has.
    ResourceExceeded,
    /// Nothing can be attributed to the provider.
    Inconclusive,
}

impl Verdict {
    /// Whether the provider, rather than the job, is to blame.
    pub open spec fn provider_fault_spec(self) -> bool {
        self == Verdict::Incorrect || self == Verdict::Timeout || self == Verdict::Malformed
    }

    /// Whether the provider, rather than the job, is to blame.
    pub fn is_provider_fault(self) -> (r: bool)
        ensures
            r == self.provider_fault_spec(),
    {
        match self {
            Verdict::Incorrect | Verdict::Timeout | Verdict::Malformed => true,
            _ => false,
        }
    }
}

/// How a result is checked before it is used.
#[derive(Debug, Clone, Copy, PartialEq, Eq, Structural)]
pub enum VerifyMode {
    /// Take the fastest committed result.
    Fast,
    /// Require a quorum of equal result hashes.
    Quorum,
}

/// A node's self-measured, signed capability maxima.
#[derive(Debug, Clone, PartialEq, Eq)]
pub struct CapabilityProfile {
    pub schema_version: u16,
    pub node_id: NodeId,
    pub pubkey: String,
    pub max_input_bytes: u64,
    pub max_result_rows: u64,
    pub max_result_bytes: u64,
    pub max_peak_memory_bytes: u64,
    pub max_temp_dir_bytes: u64,
    pub successes: u64,
    pub seq: u64,
    pub ts: u64,
    pub sig: String,
}

/// A host's answer to an offer.
#[derive(Debug, Clone, Copy, PartialEq, Eq, Structural)]
pub enum BidDecision {
    Accept,
    Reject,
}

/// A host's bid for a job, as far as the scheduler reads it.
#[derive(Debug, Clone, PartialEq, Eq)]
pub struct Bid {
    pub worker_id: NodeId,
    pub decision: BidDecision,
    pub eta_ms: u64,
    pub price: u64,
    /// The attestation level the host claims for itself.
    pub attestation_level: AttestationLevel,
    /// Free memory the host advertises (`0` when unknown).
    pub free_mem_bytes: u64,
    pub free_threads: u32,
    pub region_proof: Option<String>,
    pub rate_per_second: u64,
    pub rate_per_gb: u64,
    pub estimated_seconds: u64,
    pub cap_seconds: u64,
}


/// The version that identifies an object's bytes.
#[derive(Debug, Clone, PartialEq, Eq)]
pub enum ObjectVersion {
    /// A digest of the object's content, in hexadecimal.
    ContentAddressed { sha256: String },
    /// A lakehouse table snapshot.
    Lakehouse { format: String, snapshot_id: String },
}

/// One input object, fixed to a version.
#[derive(Debug, Clone, PartialEq, Eq)]
pub struct PinnedObject {
    pub uri: String,
    pub provider: String,
    pub version: ObjectVersion,
}

/// The pinned inputs of a job and the fingerprint over them.
#[derive(Debug, Clone, PartialEq, Eq)]
pub struct InputSnapshot {
    pub objects: Vec<PinnedObject>,
    pub fingerprint: String,
}

/// The URIs of pinned objects, in order.
pub open spec fn uris(objects: Seq<PinnedObject>) -> Seq<Seq<char>> {
    objects.map_values(|o: PinnedObject| o.uri@)
}

/// The attestation levels are in order: each is above the one before it.
pub proof fn levels_are_in_order()
    ensures
        AttestationLevel::L0.rank_spec() < AttestationLevel::L1.rank_spec(),
        AttestationLevel::L1.rank_spec() < AttestationLevel::L2.rank_spec(),
        forall|a: AttestationLevel| AttestationLevel::L0.rank_spec() <= #[trigger] a.rank_spec(),
        forall|a: AttestationLevel, b: AttestationLevel|
            #[trigger] a.rank_spec() == #[trigger] b.rank_spec() ==> a == b,
{
}

} // verus!
