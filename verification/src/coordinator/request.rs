//! What a requester asks for: scope, offer, storage access and deadlines.

use vstd::prelude::*;
use crate::datasource::secrets::{signed_views, SignedView};
use crate::engine::SignedInput;
use crate::coordinator::metering::{terms_of, MeteredTerms};
use crate::math::{max_int, max_u64, min_int, sat_add_u64, sat_mul_u64};
use crate::text::{chars_of, starts_with_seq, string_of_range};
use crate::types::{
    copy_opt_str, copy_strs, strs, uris, AttestationLevel, Bid, DataClass, DataClassCfg,
    InputSnapshot, NodeId, PinnedObject,
};

verus! {

/// The attestation level a configuration string names; anything unknown is `L0`.
pub open spec fn level_spec(s: Seq<char>) -> AttestationLevel {
    if s == "L1"@ {
        AttestationLevel::L1
    } else if s == "L2"@ {
        AttestationLevel::L2
    } else {
        AttestationLevel::L0
    }
}

pub fn parse_level(s: &str) -> (r: AttestationLevel)
    ensures
        r == level_spec(s@),
{
    if crate::text::str_eq(s, "L1") {
        AttestationLevel::L1
    } else if crate::text::str_eq(s, "L2") {
        AttestationLevel::L2
    } else {
        AttestationLevel::L0
    }
}

pub open spec fn class_to_cfg_spec(c: DataClass) -> DataClassCfg {
    match c {
        DataClass::Public => DataClassCfg::Public,
        DataClass::Internal => DataClassCfg::Internal,
        DataClass::Sensitive => DataClassCfg::Sensitive,
    }
}

pub open spec fn class_from_cfg_spec(c: DataClassCfg) -> DataClass {
    match c {
        DataClassCfg::Public => DataClass::Public,
        DataClassCfg::Internal => DataClass::Internal,
        DataClassCfg::Sensitive => DataClass::Sensitive,
    }
}

pub fn data_class_to_cfg(c: DataClass) -> (r: DataClassCfg)
    ensures
        r == class_to_cfg_spec(c),
{
    match c {
        DataClass::Public => DataClassCfg::Public,
        DataClass::Internal => DataClassCfg::Internal,
        DataClass::Sensitive => DataClassCfg::Sensitive,
    }
}

pub fn data_class_from_cfg(c: DataClassCfg) -> (r: DataClass)
    ensures
        r == class_from_cfg_spec(c),
{
    match c {
        DataClassCfg::Public => DataClass::Public,
        DataClassCfg::Internal => DataClass::Internal,
        DataClassCfg::Sensitive => DataClass::Sensitive,
    }
}

/// The two data class enums name the same classes.
pub proof fn data_class_round_trip(c: DataClass, d: DataClassCfg)
    ensures
        class_from_cfg_spec(class_to_cfg_spec(c)) == c,
        class_to_cfg_spec(class_from_cfg_spec(d)) == d,
{
}

/// The request-scoping constraints of a query.
#[derive(Debug, Clone, PartialEq, Eq)]
pub struct RequestScope {
    /// Target logical partition (`None` for any).
    pub network: Option<String>,
    /// The requester's claimed groups.
    pub groups: Vec<String>,
    /// Accepted regions (empty for any).
    pub regions: Vec<String>,
    /// The requester's proof of group membership.
    pub group_proof: Option<String>,
}

/// The scope of a query: the call's own network, regions and groups, the groups
/// falling back to the node's memberships when the call names none.
pub fn request_scope(
    network: &Option<String>,
    groups: &[String],
    regions: &[String],
    member_groups: &[String],
    group_token: &Option<String>,
) -> (r: RequestScope)
    ensures
        r.network == *network,
        r.groups@ == (if groups@.len() == 0 {
            member_groups@
        } else {
            groups@
        }),
        r.regions@ == regions@,
        r.group_proof == *group_token,
{
    RequestScope {
        network: copy_opt_str(network),
        groups: if groups.len() == 0 {
            copy_strs(member_groups)
        } else {
            copy_strs(groups)
        },
        regions: copy_strs(regions),
        group_proof: copy_opt_str(group_token),
    }
}

/// The data class of a job; one that names none is public.
pub fn job_data_class(requested: Option<DataClassCfg>) -> (r: DataClass)
    ensures
        r == (match requested {
            Some(c) => class_from_cfg_spec(c),
            None => DataClass::Public,
        }),
{
    match requested {
        Some(c) => data_class_from_cfg(c),
        None => DataClass::Public,
    }
}

/// An offer of a job to a host.
#[derive(Debug, Clone, PartialEq, Eq)]
pub struct Offer {
    pub job_id: String,
    pub requester_id: NodeId,
    pub query_hash: String,
    pub cost_hint_rows: Option<u64>,
    pub cost_hint_bytes: Option<u64>,
    pub data_class: DataClass,
    pub nonce: u64,
    pub network: Option<String>,
    pub groups: Vec<String>,
    pub regions: Vec<String>,
    pub group_proof: Option<String>,
    pub input_fingerprint_hint: Option<String>,
}

/// The offer of a job: it carries the scan estimate, the scope and the pinned
/// fingerprint, so that every host can enforce and size for itself.
pub fn make_offer(
    job_id: &str,
    requester: &NodeId,
    query_hash: &str,
    estimated_input_bytes: Option<u64>,
    data_class: DataClass,
    nonce: u64,
    scope: &RequestScope,
    pinned_fingerprint: &Option<String>,
) -> (r: Offer)
    ensures
        r.job_id@ == job_id@,
        r.requester_id == *requester,
        r.query_hash@ == query_hash@,
        r.cost_hint_rows is None,
        r.cost_hint_bytes == estimated_input_bytes,
        r.data_class == data_class,
        r.nonce == nonce,
        r.network == scope.network,
        r.groups@ == scope.groups@,
        r.regions@ == scope.regions@,
        r.group_proof == scope.group_proof,
        r.input_fingerprint_hint == *pinned_fingerprint,
{
    Offer {
        job_id: job_id.to_owned(),
        requester_id: requester.duplicate(),
        query_hash: query_hash.to_owned(),
        cost_hint_rows: None,
        cost_hint_bytes: estimated_input_bytes,
        data_class,
        nonce,
        network: copy_opt_str(&scope.network),
        groups: copy_strs(&scope.groups),
        regions: copy_strs(&scope.regions),
        group_proof: copy_opt_str(&scope.group_proof),
        input_fingerprint_hint: copy_opt_str(pinned_fingerprint),
    }
}

/// The configured waiting times of an attempt, in milliseconds.
#[derive(Debug, Clone, Copy, PartialEq, Eq, Structural)]
pub struct Timeouts {
    /// The stall window (`0` to use `dispatch_ms`).
    pub stall_ms: u64,
    pub dispatch_ms: u64,
    pub attempt_ms: u64,
}

/// How long one worker is waited for, in milliseconds.
#[derive(Debug, Clone, Copy, PartialEq, Eq, Structural)]
pub struct Deadlines {
    /// The longest silence between two frames.
    pub stall_ms: u64,
    /// The longest wait overall.
    pub attempt_ms: u64,
    /// The cap the worker promised in its bid, which it enforces itself.
    pub cap_ms: Option<u64>,
}

impl Timeouts {
    /// The stall window before it is raised to at least a millisecond.
    pub open spec fn stall_spec(self) -> u64 {
        if self.stall_ms == 0 {
            self.dispatch_ms
        } else {
            self.stall_ms
        }
    }

    pub open spec fn deadlines_spec(self, bid: Bid) -> Deadlines {
        let attempt = max_int(self.attempt_ms as int, 1);
        let cap: Option<int> = match terms_of(bid) {
            Some(t) => Some(min_int(t.cap_seconds * 1000, u64::MAX as int)),
            None => None,
        };
        Deadlines {
            stall_ms: max_int(self.stall_spec() as int, 1) as u64,
            attempt_ms: (match cap {
                Some(ms) => max_int(
                    attempt,
                    min_int(ms + self.stall_spec(), u64::MAX as int),
                ),
                None => attempt,
            }) as u64,
            cap_ms: match cap {
                Some(ms) => Some(ms as u64),
                None => None,
            },
        }
    }

    /// The deadlines for a worker with this bid: a metered worker is waited for at
    /// least until its own cap plus the stall window.
    pub fn deadlines(&self, bid: &Bid) -> (r: Deadlines)
        ensures
            r == self.deadlines_spec(*bid),
    {
        let stall: u64 = if self.stall_ms == 0 {
            self.dispatch_ms
        } else {
            self.stall_ms
        };
        let attempt: u64 = max_u64(self.attempt_ms, 1);
        match MeteredTerms::from_bid(bid) {
            Some(t) => {
                let cap: u64 = sat_mul_u64(t.cap_seconds, 1000);
                Deadlines {
                    stall_ms: max_u64(stall, 1),
                    attempt_ms: max_u64(attempt, sat_add_u64(cap, stall)),
                    cap_ms: Some(cap),
                }
            },
            None => Deadlines { stall_ms: max_u64(stall, 1), attempt_ms: attempt, cap_ms: None },
        }
    }
}

/// How a worker is granted read access to the pinned objects.
#[derive(Debug, Clone, Copy, PartialEq, Eq, Structural)]
pub enum CredentialMode {
    Presigned,
    ScopedSecret,
    Sealed,
}

/// The access to prepare before dispatching.
#[derive(Debug, Clone, PartialEq, Eq)]
pub enum StorageGrant {
    /// None: the job reads no granted object.
    Nothing,
    /// Sign a read URL for each of these objects.
    Presign(Vec<String>),
    /// Issue a credential scoped to this prefix.
    Issue(String),
}

/// The longest common prefix of `a` and `b`.
pub open spec fn common_prefix(a: Seq<char>, b: Seq<char>) -> Seq<char>
    decreases a.len(),
{
    if a.len() == 0 || b.len() == 0 || a[0] != b[0] {
        Seq::empty()
    } else {
        seq![a[0]] + common_prefix(a.subrange(1, a.len() as int), b.subrange(1, b.len() as int))
    }
}

/// The longest common prefix of all of `v`; empty when there is none.
pub open spec fn common_prefix_all(v: Seq<Seq<char>>) -> Seq<char>
    decreases v.len(),
{
    if v.len() == 0 {
        Seq::empty()
    } else if v.len() == 1 {
        v[0]
    } else {
        common_prefix(common_prefix_all(v.drop_last()), v.last())
    }
}

/// `s` up to and with its last `/`, or `s` where it has none.
pub open spec fn cut_to_slash(s: Seq<char>, n: int) -> Seq<char>
    decreases n,
{
    if n <= 0 || n > s.len() {
        s
    } else if s[n - 1] == '/' {
        s.take(n)
    } else {
        cut_to_slash(s, n - 1)
    }
}

/// The prefix a job's credential is scoped to.
pub open spec fn scope_prefix(v: Seq<Seq<char>>) -> Seq<char> {
    let p = common_prefix_all(v);
    cut_to_slash(p, p.len() as int)
}

proof fn common_prefix_is_take(a: Seq<char>, b: Seq<char>, n: int)
    requires
        0 <= n <= a.len(),
        n <= b.len(),
        forall|i: int| 0 <= i < n ==> a[i] == b[i],
        n == a.len() || n == b.len() || a[n] != b[n],
    ensures
        common_prefix(a, b) == a.take(n),
    decreases a.len(),
{
    if n == 0 {
        assert(a.take(0) =~= Seq::<char>::empty());
    } else {
        let x = a.subrange(1, a.len() as int);
        let y = b.subrange(1, b.len() as int);
        assert forall|i: int| 0 <= i < n - 1 implies x[i] == y[i] by {
            assert(a[i + 1] == b[i + 1]);
        }
        common_prefix_is_take(x, y, n - 1);
        assert(a.take(n) =~= seq![a[0]] + x.take(n - 1));
    }
}

/// A prefix covering every pinned object: the longest common prefix of their URIs,
/// cut back to its last `/`. Empty when there are no objects.
pub fn credential_prefix(objects: &[PinnedObject]) -> (r: String)
    ensures
        r@ == scope_prefix(uris(objects@)),
{
    if objects.len() == 0 {
        assert(common_prefix_all(uris(objects@)) =~= Seq::<char>::empty());
        return String::new();
    }
    let mut prefix = chars_of(objects[0].uri.as_str());
    let mut i: usize = 1;
    let ghost all = uris(objects@);
    assert(all.take(1).len() == 1 && all.take(1)[0] == objects@[0].uri@);
    while i < objects.len()
        invariant
            1 <= i <= objects@.len(),
            all == uris(objects@),
            prefix@ == common_prefix_all(all.take(i as int)),
        decreases objects@.len() - i,
    {
        let u = chars_of(objects[i].uri.as_str());
        let mut n: usize = 0;
        while n < prefix.len() && n < u.len() && prefix[n] == u[n]
            invariant
                n <= prefix@.len(),
                n <= u@.len(),
                forall|k: int| 0 <= k < n ==> prefix@[k] == u@[k],
            decreases prefix@.len() - n,
        {
            n = n + 1;
        }
        proof {
            common_prefix_is_take(prefix@, u@, n as int);
            let next = all.take(i + 1);
            assert(next.drop_last() =~= all.take(i as int));
            assert(next.last() == u@);
        }
        prefix.truncate(n);
        i = i + 1;
        assert(prefix@ =~= common_prefix_all(all.take(i as int)));
    }
    assert(all.take(i as int) =~= all);
    let mut n: usize = prefix.len();
    while n > 0 && prefix[n - 1] != '/'
        invariant
            n <= prefix@.len(),
            cut_to_slash(prefix@, n as int) == cut_to_slash(prefix@, prefix@.len() as int),
        decreases n,
    {
        n = n - 1;
    }
    if n > 0 {
        assert(prefix@.take(n as int) =~= prefix@.subrange(0, n as int));
        string_of_range(&prefix, 0, n)
    } else {
        let len: usize = prefix.len();
        assert(prefix@.subrange(0, len as int) =~= prefix@);
        string_of_range(&prefix, 0, len)
    }
}

proof fn common_prefix_is_prefix(a: Seq<char>, b: Seq<char>)
    ensures
        starts_with_seq(a, common_prefix(a, b)),
        starts_with_seq(b, common_prefix(a, b)),
    decreases a.len(),
{
    if a.len() == 0 || b.len() == 0 || a[0] != b[0] {
        assert(a.subrange(0, 0) =~= Seq::<char>::empty());
        assert(b.subrange(0, 0) =~= Seq::<char>::empty());
    } else {
        let x = a.subrange(1, a.len() as int);
        let y = b.subrange(1, b.len() as int);
        common_prefix_is_prefix(x, y);
        let c = common_prefix(x, y);
        let p = common_prefix(a, b);
        assert(p == seq![a[0]] + c);
        assert forall|i: int| 0 <= i < p.len() implies a[i] == p[i] && b[i] == p[i] by {
            if i > 0 {
                assert(x.subrange(0, c.len() as int)[i - 1] == c[i - 1]);
                assert(y.subrange(0, c.len() as int)[i - 1] == c[i - 1]);
            }
        }
        assert(a.subrange(0, p.len() as int) =~= p);
        assert(b.subrange(0, p.len() as int) =~= p);
    }
}

proof fn starts_with_trans(s: Seq<char>, p: Seq<char>, q: Seq<char>)
    requires
        starts_with_seq(s, p),
        starts_with_seq(p, q),
    ensures
        starts_with_seq(s, q),
{
    assert forall|i: int| 0 <= i < q.len() implies s[i] == q[i] by {
        assert(p.subrange(0, q.len() as int)[i] == q[i]);
        assert(s.subrange(0, p.len() as int)[i] == p[i]);
    }
    assert(s.subrange(0, q.len() as int) =~= q);
}

proof fn common_prefix_all_is_prefix(v: Seq<Seq<char>>, i: int)
    requires
        0 <= i < v.len(),
    ensures
        starts_with_seq(v[i], common_prefix_all(v)),
    decreases v.len(),
{
    if v.len() == 1 {
        assert(v[0].subrange(0, v[0].len() as int) =~= v[0]);
    } else {
        let head = common_prefix_all(v.drop_last());
        common_prefix_is_prefix(head, v.last());
        if i < v.len() - 1 {
            common_prefix_all_is_prefix(v.drop_last(), i);
            assert(v.drop_last()[i] == v[i]);
            starts_with_trans(v[i], head, common_prefix_all(v));
        }
    }
}

proof fn cut_to_slash_is_prefix(s: Seq<char>, n: int)
    requires
        n <= s.len(),
    ensures
        starts_with_seq(s, cut_to_slash(s, n)),
    decreases n,
{
    if n <= 0 {
        assert(s.subrange(0, s.len() as int) =~= s);
    } else if s[n - 1] == '/' {
        assert(s.subrange(0, n) =~= s.take(n));
    } else {
        cut_to_slash_is_prefix(s, n - 1);
    }
}

/// The credential covers every pinned object: each URI begins with the prefix.
pub proof fn credential_covers_every_object(v: Seq<Seq<char>>, i: int)
    requires
        0 <= i < v.len(),
    ensures
        starts_with_seq(v[i], scope_prefix(v)),
{
    let p = common_prefix_all(v);
    common_prefix_all_is_prefix(v, i);
    cut_to_slash_is_prefix(p, p.len() as int);
    starts_with_trans(v[i], p, scope_prefix(v));
}

/// The access to prepare: signed URLs for every pinned object where a signer is
/// wired, else a credential scoped to the pinned objects where an issuer is wired.
pub fn storage_grant(
    mode: CredentialMode,
    signer_wired: bool,
    issuer_wired: bool,
    snapshot: &Option<InputSnapshot>,
) -> (r: StorageGrant)
    ensures
        match mode {
            CredentialMode::Presigned => if signer_wired && snapshot is Some {
                r is Presign && strs(r->Presign_0@) == uris(snapshot->0.objects@)
            } else {
                r is Nothing
            },
            _ => if issuer_wired {
                r is Issue && r->Issue_0@ == (match *snapshot {
                    Some(s) => scope_prefix(uris(s.objects@)),
                    None => Seq::empty(),
                })
            } else {
                r is Nothing
            },
        },
{
    match mode {
        CredentialMode::Presigned => {
            if signer_wired {
                if let Some(s) = snapshot {
                    let mut list: Vec<String> = Vec::new();
                    let mut i: usize = 0;
                    assert(strs(list@) =~= uris(s.objects@).take(0));
                    while i < s.objects.len()
                        invariant
                            i <= s.objects@.len(),
                            strs(list@) == uris(s.objects@).take(i as int),
                        decreases s.objects@.len() - i,
                    {
                        let ghost before = list@;
                        list.push(s.objects[i].uri.clone());
                        proof {
                            assert(strs(list@) =~= strs(before).push(s.objects@[i as int].uri@));
                            assert(uris(s.objects@).take(i + 1) =~= uris(s.objects@).take(
                                i as int,
                            ).push(s.objects@[i as int].uri@));
                        }
                        i = i + 1;
                    }
                    assert(uris(s.objects@).take(i as int) =~= uris(s.objects@));
                    return StorageGrant::Presign(list);
                }
            }
            StorageGrant::Nothing
        },
        _ => {
            if issuer_wired {
                match snapshot {
                    Some(s) => StorageGrant::Issue(credential_prefix(&s.objects)),
                    None => StorageGrant::Issue(String::new()),
                }
            } else {
                StorageGrant::Nothing
            }
        },
    }
}

/// The objects that were signed, in order, each with its URL. One that could not be
/// signed is left out.
pub open spec fn signed_seq(uris: Seq<Seq<char>>, urls: Seq<Option<String>>) -> Seq<SignedView>
    decreases uris.len(),
{
    if uris.len() == 0 || uris.len() != urls.len() {
        Seq::empty()
    } else {
        let rest = signed_seq(uris.drop_last(), urls.drop_last());
        match urls.last() {
            Some(url) => rest.push(SignedView { uri: uris.last(), url: url@ }),
            None => rest,
        }
    }
}

/// The signed inputs of a job: `urls[i]` is the URL that reads `uris[i]`, if one could be
/// signed.
pub fn signed_inputs(uris: &[String], urls: &[Option<String>]) -> (r: Vec<SignedInput>)
    requires
        uris@.len() == urls@.len(),
    ensures
        signed_views(r@) == signed_seq(strs(uris@), urls@),
{
    let mut r: Vec<SignedInput> = Vec::new();
    let ghost all = strs(uris@);
    let mut i: usize = 0;
    assert(signed_views(r@) =~= Seq::empty());
    while i < uris.len()
        invariant
            i <= uris@.len(),
            uris@.len() == urls@.len(),
            all == strs(uris@),
            signed_views(r@) == signed_seq(all.take(i as int), urls@.take(i as int)),
        decreases uris@.len() - i,
    {
        let ghost before = signed_views(r@);
        proof {
            assert(all.take(i + 1).drop_last() =~= all.take(i as int));
            assert(urls@.take(i + 1).drop_last() =~= urls@.take(i as int));
            assert(all.take(i + 1).last() == uris@[i as int]@);
            assert(urls@.take(i + 1).last() == urls@[i as int]);
        }
        if let Some(url) = &urls[i] {
            let input = SignedInput { uri: uris[i].clone(), url: url.clone() };
            r.push(input);
            assert(signed_views(r@) =~= before.push(input@));
        }
        i = i + 1;
    }
    proof {
        assert(all.take(i as int) =~= all);
        assert(urls@.take(i as int) =~= urls@);
    }
    r
}

/// Levels are read by their names, and anything else asks for none.
pub proof fn levels_are_read_by_name(s: Seq<char>)
    ensures
        level_spec("L1"@) == AttestationLevel::L1,
        level_spec("L2"@) == AttestationLevel::L2,
        s != "L1"@ && s != "L2"@ ==> level_spec(s) == AttestationLevel::L0,
{
    reveal_strlit("L1");
    reveal_strlit("L2");
    assert("L1"@[1] == '1' && "L2"@[1] == '2');
}

/// Data classes keep their names in the configuration.
pub proof fn data_classes_keep_their_names()
    ensures
        class_to_cfg_spec(DataClass::Public) == DataClassCfg::Public,
        class_to_cfg_spec(DataClass::Internal) == DataClassCfg::Internal,
        class_to_cfg_spec(DataClass::Sensitive) == DataClassCfg::Sensitive,
{
}

/// A worker is waited for through its silence as long as configured, a moment at least;
/// and overall as long as configured, or as long as a metered bid may run and then be
/// silent, where that is longer.
pub proof fn deadlines_leave_time_to_run(t: Timeouts, bid: Bid)
    ensures
        ({
            let d = t.deadlines_spec(bid);
            let silence = if t.stall_ms > 0 {
                t.stall_ms as int
            } else {
                t.dispatch_ms as int
            };
            let cap = if bid.cap_seconds == 0 {
                1000int
            } else {
                bid.cap_seconds * 1000
            };
            &&& silence > 0 ==> d.stall_ms == silence
            &&& silence == 0 ==> d.stall_ms == 1
            &&& d.attempt_ms >= t.attempt_ms && d.attempt_ms >= 1
            &&& bid.rate_per_second == 0 ==> d.cap_ms is None && (t.attempt_ms > 0 ==> d.attempt_ms
                == t.attempt_ms)
            &&& bid.rate_per_second > 0 && cap + silence <= u64::MAX ==> {
                &&& d.cap_ms == Some(cap as u64)
                &&& d.attempt_ms >= cap + silence
                &&& d.attempt_ms == cap + silence || d.attempt_ms == t.attempt_ms || d.attempt_ms
                    == 1
            }
        }),
{
}

/// What two texts have in common at their start begins both, and nothing longer does.
pub proof fn the_common_start_is_the_longest(a: Seq<char>, b: Seq<char>, n: int)
    requires
        0 <= n <= a.len(),
        n <= b.len(),
        a.take(n) == b.take(n),
    ensures
        ({
            let p = common_prefix(a, b);
            &&& p.len() <= a.len() && a.take(p.len() as int) == p
            &&& p.len() <= b.len() && b.take(p.len() as int) == p
            &&& n <= p.len()
        }),
    decreases a.len(),
{
    if a.len() == 0 || b.len() == 0 || a[0] != b[0] {
        assert(a.take(0) =~= Seq::<char>::empty());
        assert(b.take(0) =~= Seq::<char>::empty());
        if n > 0 {
            assert(a.take(n)[0] == a[0] && b.take(n)[0] == b[0]);
        }
    } else {
        let x = a.subrange(1, a.len() as int);
        let y = b.subrange(1, b.len() as int);
        let m = if n > 0 {
            n - 1
        } else {
            0
        };
        assert(x.take(m) =~= y.take(m)) by {
            assert forall|k: int| 0 <= k < m implies #[trigger] x[k] == y[k] by {
                assert(a.take(n)[k + 1] == a[k + 1] && b.take(n)[k + 1] == b[k + 1]);
            }
        }
        the_common_start_is_the_longest(x, y, m);
        let q = common_prefix(x, y);
        let p = common_prefix(a, b);
        assert(a.take(p.len() as int) =~= seq![a[0]] + x.take(q.len() as int));
        assert(b.take(p.len() as int) =~= seq![b[0]] + y.take(q.len() as int));
    }
}

/// A text is cut behind its last slash, and not at all where it has none.
pub proof fn texts_are_cut_behind_the_last_slash(s: Seq<char>, n: int, at: int)
    requires
        -1 <= at < n <= s.len(),
        at >= 0 ==> s[at] == '/',
        forall|k: int| at < k < n ==> #[trigger] s[k] != '/',
    ensures
        cut_to_slash(s, n) == (if at >= 0 {
            s.take(at + 1)
        } else {
            s
        }),
    decreases n,
{
    if n > 0 && at < n - 1 {
        assert(s[n - 1] != '/');
        texts_are_cut_behind_the_last_slash(s, n - 1, at);
    }
}

/// Every object that was signed is handed on with its URL, in order, and no other.
pub proof fn signed_objects_keep_their_urls(uris: Seq<Seq<char>>, urls: Seq<Option<String>>)
    requires
        uris.len() == urls.len(),
    ensures
        uris.len() > 0 ==> signed_seq(uris, urls) == (match urls.last() {
            Some(url) => signed_seq(uris.drop_last(), urls.drop_last()).push(
                SignedView { uri: uris.last(), url: url@ },
            ),
            None => signed_seq(uris.drop_last(), urls.drop_last()),
        }),
        uris.len() == 0 ==> signed_seq(uris, urls).len() == 0,
{
}

/// A request that names no group carries the requester's own.
pub proof fn a_scope_without_groups_is_the_own_one(
    network: Option<String>,
    groups: &[String],
    regions: &[String],
    member_groups: &[String],
    group_token: Option<String>,
    r: RequestScope,
)
    requires
        call_ensures(request_scope, (&network, groups, regions, member_groups, &group_token), r),
    ensures
        groups@.len() == 0 ==> r.groups@ == member_groups@,
        groups@.len() > 0 ==> r.groups@ == groups@,
        r.regions@ == regions@,
        r.network == network && r.group_proof == group_token,
{
}

/// An unclassified job is public, and a classified one keeps its class.
pub proof fn unclassified_jobs_are_public(requested: Option<DataClassCfg>, r: DataClass)
    requires
        call_ensures(job_data_class, (requested,), r),
    ensures
        requested is None ==> r is Public,
        requested is Some ==> class_to_cfg_spec(r) == requested->0,
{
}

/// An offer says of the query only its hash and its size.
pub proof fn offers_carry_no_query(
    job_id: &str,
    requester: NodeId,
    query_hash: &str,
    bytes: Option<u64>,
    class: DataClass,
    nonce: u64,
    scope: RequestScope,
    pinned: Option<String>,
    r: Offer,
)
    requires
        call_ensures(
            make_offer,
            (job_id, &requester, query_hash, bytes, class, nonce, &scope, &pinned),
            r,
        ),
    ensures
        r.job_id@ == job_id@ && r.requester_id == requester && r.query_hash@ == query_hash@,
        r.cost_hint_rows is None && r.cost_hint_bytes == bytes,
        r.data_class == class && r.nonce == nonce,
        r.network == scope.network && r.groups@ == scope.groups@ && r.regions@ == scope.regions@
            && r.group_proof == scope.group_proof,
        r.input_fingerprint_hint == pinned,
{
}

/// Presigned URLs need a signer and a pinned input, one URL for each object; a credential
/// needs an issuer only.
pub proof fn grants_need_their_service(
    mode: CredentialMode,
    signer_wired: bool,
    issuer_wired: bool,
    snapshot: Option<InputSnapshot>,
    r: StorageGrant,
)
    requires
        call_ensures(storage_grant, (mode, signer_wired, issuer_wired, &snapshot), r),
    ensures
        r is Presign <==> mode is Presigned && signer_wired && snapshot is Some,
        r is Issue <==> !(mode is Presigned) && issuer_wired,
        r is Presign ==> r->Presign_0@.len() == snapshot->0.objects@.len() && forall|i: int|
            0 <= i < r->Presign_0@.len() ==> (#[trigger] r->Presign_0@[i])@
                == snapshot->0.objects@[i].uri@,
        r is Issue && snapshot is None ==> r->Issue_0@.len() == 0,
{
    if r is Presign {
        let o = snapshot->0.objects@;
        assert(strs(r->Presign_0@).len() == uris(o).len());
        assert forall|i: int| 0 <= i < r->Presign_0@.len() implies (#[trigger] r->Presign_0@[i])@
            == o[i].uri@ by {
            assert(strs(r->Presign_0@)[i] == uris(o)[i]);
        }
    }
}

} // verus!
