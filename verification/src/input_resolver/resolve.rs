//! Resolving a query's sources to pinned objects, one source after the other.

use vstd::prelude::*;
use crate::input_resolver::sources::{
    gather_all, parse_input_sources, source_views, sources_of, SourceKind, SourceView, SqlSource,
};
use crate::input_resolver::{InputResolveError, ResolveErrorView};
use crate::scan::{find, first_at, join, strip_prefix, strip_prefix_seq};
use crate::text::{chars_of, decimal, decimal_seq, str_eq, string_of_range};
use crate::types::{ObjectVersion, PinnedObject};

verus! {

#[derive(Debug)]
struct Registered {
    scheme: String,
    probe: usize,
}

/// The probe that was registered last for a scheme.
spec fn last_for(v: Seq<Registered>, scheme: Seq<char>) -> Option<usize>
    decreases v.len(),
{
    if v.len() == 0 {
        None
    } else if v.last().scheme@ == scheme {
        Some(v.last().probe)
    } else {
        last_for(v.drop_last(), scheme)
    }
}

/// Which version probe serves which URI scheme. Probes are known by number.
#[derive(Debug)]
pub struct ManifestResolver {
    entries: Vec<Registered>,
}

/// The number of the local file system's probe.
pub const LOCAL_PROBE: usize = 0;

/// The scheme of a URI; that of a bare path is `file`.
pub open spec fn scheme_of(uri: Seq<char>) -> Seq<char> {
    match first_at(uri, "://"@, 0) {
        Some(i) => uri.subrange(0, i),
        None => "file"@,
    }
}

fn scheme(uri: &str) -> (r: String)
    ensures
        r@ == scheme_of(uri@),
{
    let v = chars_of(uri);
    match find(&v, &chars_of("://"), 0) {
        Some(i) => string_of_range(&v, 0, i),
        None => "file".to_owned(),
    }
}

fn is_local(uri: &str) -> (r: bool)
    ensures
        r == (scheme_of(uri@) == "file"@),
{
    str_eq(scheme(uri).as_str(), "file")
}

impl Default for ManifestResolver {
    fn default() -> (r: ManifestResolver)
        ensures
            forall|s: Seq<char>| #[trigger]
                r.probe(s) == (if s == "file"@ {
                    Some(LOCAL_PROBE)
                } else {
                    None
                }),
    {
        ManifestResolver::new()
    }
}

impl ManifestResolver {
    /// The probe that serves a scheme.
    pub closed spec fn probe(&self, scheme: Seq<char>) -> Option<usize> {
        last_for(self.entries@, scheme)
    }

    /// A resolver without probes: no outside source can be pinned.
    pub fn empty() -> (r: ManifestResolver)
        ensures
            forall|s: Seq<char>| #[trigger] r.probe(s) is None,
    {
        ManifestResolver { entries: Vec::new() }
    }

    /// A resolver with the probe of the local file system only.
    pub fn new() -> (r: ManifestResolver)
        ensures
            forall|s: Seq<char>| #[trigger]
                r.probe(s) == (if s == "file"@ {
                    Some(LOCAL_PROBE)
                } else {
                    None
                }),
    {
        let mut r = ManifestResolver::empty();
        let mut schemes: Vec<String> = Vec::new();
        schemes.push("file".to_owned());
        r.register(&schemes, LOCAL_PROBE);
        proof {
            let v = crate::types::strs(schemes@);
            assert(v[0] == "file"@);
            assert forall|s: Seq<char>| #[trigger] r.probe(s) == (if s == "file"@ {
                Some(LOCAL_PROBE)
            } else {
                None
            }) by {
                assert(v.contains(s) == (s == "file"@));
            }
        }
        r
    }

    /// Registers a probe for all of its schemes, in place of those before it.
    pub fn register(&mut self, schemes: &[String], probe: usize)
        ensures
            forall|s: Seq<char>| #[trigger]
                final(self).probe(s) == (if crate::types::strs(schemes@).contains(s) {
                    Some(probe)
                } else {
                    old(self).probe(s)
                }),
    {
        let ghost names = crate::types::strs(schemes@);
        let ghost before = self.entries@;
        let mut i: usize = 0;
        while i < schemes.len()
            invariant
                i <= schemes@.len(),
                names == crate::types::strs(schemes@),
                forall|s: Seq<char>| #[trigger]
                    last_for(self.entries@, s) == (if names.take(i as int).contains(s) {
                        Some(probe)
                    } else {
                        last_for(before, s)
                    }),
            decreases schemes@.len() - i,
        {
            let ghost now = self.entries@;
            self.entries.push(Registered { scheme: schemes[i].clone(), probe });
            proof {
                assert(self.entries@.drop_last() =~= now);
                let x = names.take(i as int);
                let y = names.take(i + 1);
                assert(y =~= x.push(schemes@[i as int]@));
                assert forall|s: Seq<char>| #[trigger] last_for(self.entries@, s) == (
                if y.contains(s) {
                    Some(probe)
                } else {
                    last_for(before, s)
                }) by {
                    if s == schemes@[i as int]@ {
                        assert(y[i as int] == s);
                    } else {
                        assert(last_for(self.entries@, s) == last_for(now, s));
                        if x.contains(s) {
                            let k = choose|k: int| 0 <= k < x.len() && x[k] == s;
                            assert(y[k] == s);
                        }
                        if y.contains(s) {
                            let k = choose|k: int| 0 <= k < y.len() && y[k] == s;
                            assert(x[k] == s);
                        }
                    }
                }
            }
            i = i + 1;
        }
        assert(names.take(i as int) =~= names);
    }

    /// The probe that serves a URI.
    pub fn probe_for(&self, uri: &str) -> (r: Option<usize>)
        ensures
            r == self.probe(scheme_of(uri@)),
    {
        let scheme = scheme(uri);
        let mut n: usize = self.entries.len();
        assert(self.entries@.take(n as int) =~= self.entries@);
        while n > 0
            invariant
                n <= self.entries@.len(),
                last_for(self.entries@.take(n as int), scheme@) == last_for(self.entries@, scheme@),
                scheme@ == scheme_of(uri@),
            decreases n,
        {
            proof {
                let here = self.entries@.take(n as int);
                assert(here.last() == self.entries@[n - 1]);
                assert(here.drop_last() =~= self.entries@.take(n - 1));
            }
            if self.entries[n - 1].scheme == scheme {
                return Some(self.entries[n - 1].probe);
            }
            n = n - 1;
        }
        None
    }

    /// Begin to resolve a query. `None` where it reads nothing from outside; an error
    /// where a data reader is given anything but a literal.
    pub fn resolve(&self, sql: &str) -> (r: Result<Option<Resolution>, InputResolveError>)
        ensures
            r is Err <==> gather_all(sql@).dynamic,
            r is Err ==> r->Err_0@ == ResolveErrorView::NotPinnable(
                "a data reader was given a non-literal (bind/variable) path"@,
            ),
            r is Ok ==> (r->Ok_0 is None <==> sources_of(sql@).len() == 0),
            r is Ok && r->Ok_0 is Some ==> r->Ok_0->0.left() == sources_of(sql@)
                && r->Ok_0->0.pinned().len() == 0,
    {
        let parsed = parse_input_sources(sql);
        if parsed.dynamic {
            return Err(
                InputResolveError::NotPinnable(
                    "a data reader was given a non-literal (bind/variable) path".to_owned(),
                ),
            );
        }
        if parsed.sources.len() == 0 {
            return Ok(None);
        }
        assert(source_views(parsed.sources@).subrange(0, parsed.sources@.len() as int)
            =~= source_views(parsed.sources@));
        Ok(Some(Resolution { sources: parsed.sources, next: 0, objects: Vec::new() }))
    }
}

/// A query whose sources are being pinned in order.
#[derive(Debug)]
pub struct Resolution {
    sources: Vec<SqlSource>,
    next: usize,
    objects: Vec<PinnedObject>,
}

/// What pinning the next source takes.
#[derive(Debug, Clone, PartialEq, Eq)]
pub enum ResolveAction {
    /// Ask a probe for one object.
    Head { probe: usize, uri: String },
    /// Ask a probe for the objects of a glob.
    List { probe: usize, glob: String },
    /// Look for the latest commit of a Delta table in its directory.
    ReadDeltaLog { dir: String },
    /// The source cannot be pinned.
    Refuse(InputResolveError),
    /// Every source is pinned.
    Finished,
}

/// `ResolveAction` over mathematical values.
pub enum ActionView {
    Head { probe: usize, uri: Seq<char> },
    List { probe: usize, glob: Seq<char> },
    ReadDeltaLog { dir: Seq<char> },
    Refuse(ResolveErrorView),
    Finished,
}

impl View for ResolveAction {
    type V = ActionView;

    open spec fn view(&self) -> ActionView {
        match self {
            ResolveAction::Head { probe, uri } => ActionView::Head { probe: *probe, uri: uri@ },
            ResolveAction::List { probe, glob } => ActionView::List { probe: *probe, glob: glob@ },
            ResolveAction::ReadDeltaLog { dir } => ActionView::ReadDeltaLog { dir: dir@ },
            ResolveAction::Refuse(e) => ActionView::Refuse(e@),
            ResolveAction::Finished => ActionView::Finished,
        }
    }
}

/// What pinning a source takes, given the probe for its scheme. Only the log of a local
/// Delta table can be read; a source without a probe cannot be pinned.
pub open spec fn action_for(source: SourceView, probe: Option<usize>) -> ActionView {
    match source.kind {
        SourceKind::Delta => if probe is Some && scheme_of(source.uri) == "file"@ {
            ActionView::ReadDeltaLog { dir: strip_prefix_seq(source.uri, "file://"@) }
        } else {
            ActionView::Refuse(
                ResolveErrorView::NotPinnable("no version probe for "@ + source.uri),
            )
        },
        SourceKind::Iceberg => ActionView::Refuse(
            ResolveErrorView::NotPinnable(
                "iceberg table pinning requires an iceberg probe: "@ + source.uri,
            ),
        ),
        SourceKind::Glob => match probe {
            Some(p) => ActionView::List { probe: p, glob: source.uri },
            None => ActionView::Refuse(
                ResolveErrorView::NotPinnable("no version probe for "@ + source.uri),
            ),
        },
        SourceKind::Object => match probe {
            Some(p) => ActionView::Head { probe: p, uri: source.uri },
            None => ActionView::Refuse(
                ResolveErrorView::NotPinnable("no version probe for "@ + source.uri),
            ),
        },
    }
}

impl Resolution {
    #[verifier::type_invariant]
    spec fn inv(self) -> bool {
        self.next <= self.sources@.len()
    }

    /// The sources that are not pinned yet.
    pub closed spec fn left(&self) -> Seq<SourceView> {
        source_views(self.sources@).subrange(self.next as int, self.sources@.len() as int)
    }

    /// The objects pinned so far.
    pub closed spec fn pinned(&self) -> Seq<PinnedObject> {
        self.objects@
    }

    /// What pinning the next source takes.
    pub fn action(&self, resolver: &ManifestResolver) -> (r: ResolveAction)
        ensures
            r@ == (if self.left().len() == 0 {
                ActionView::Finished
            } else {
                action_for(self.left()[0], resolver.probe(scheme_of(self.left()[0].uri)))
            }),
    {
        proof {
            use_type_invariant(self);
        }
        if self.next >= self.sources.len() {
            return ResolveAction::Finished;
        }
        let source = &self.sources[self.next];
        assert(self.left()[0] == source@);
        match source.kind {
            SourceKind::Delta => if resolver.probe_for(source.uri.as_str()).is_some() && is_local(
                source.uri.as_str(),
            ) {
                ResolveAction::ReadDeltaLog { dir: strip_prefix(source.uri.as_str(), "file://") }
            } else {
                ResolveAction::Refuse(
                    InputResolveError::NotPinnable(
                        join("no version probe for ", source.uri.as_str()),
                    ),
                )
            },
            SourceKind::Iceberg => ResolveAction::Refuse(
                InputResolveError::NotPinnable(
                    join("iceberg table pinning requires an iceberg probe: ", source.uri.as_str()),
                ),
            ),
            SourceKind::Glob => match resolver.probe_for(source.uri.as_str()) {
                Some(probe) => ResolveAction::List { probe, glob: source.uri.clone() },
                None => ResolveAction::Refuse(
                    InputResolveError::NotPinnable(
                        join("no version probe for ", source.uri.as_str()),
                    ),
                ),
            },
            SourceKind::Object => match resolver.probe_for(source.uri.as_str()) {
                Some(probe) => ResolveAction::Head { probe, uri: source.uri.clone() },
                None => ResolveAction::Refuse(
                    InputResolveError::NotPinnable(
                        join("no version probe for ", source.uri.as_str()),
                    ),
                ),
            },
        }
    }

    fn advance(self, more: Vec<PinnedObject>) -> (r: Resolution)
        requires
            self.left().len() > 0,
        ensures
            r.left() == self.left().subrange(1, self.left().len() as int),
            r.pinned() == self.pinned() + more@,
    {
        proof {
            use_type_invariant(&self);
        }
        let n: usize = self.sources.len();
        assert(self.next < n);
        let mut objects = self.objects;
        let mut more = more;
        objects.append(&mut more);
        let r = Resolution { sources: self.sources, next: self.next + 1, objects };
        assert(r.left() =~= self.left().subrange(1, self.left().len() as int));
        r
    }

    /// Takes a probe's answer for one object.
    pub fn on_head(self, answer: Result<PinnedObject, InputResolveError>) -> (r: Result<
        Resolution,
        InputResolveError,
    >)
        requires
            self.left().len() > 0,
        ensures
            r is Ok <==> answer is Ok,
            r is Err ==> r->Err_0 == answer->Err_0,
            r is Ok ==> r->Ok_0.left() == self.left().subrange(1, self.left().len() as int)
                && r->Ok_0.pinned() == self.pinned().push(answer->Ok_0),
    {
        match answer {
            Ok(object) => {
                let mut more: Vec<PinnedObject> = Vec::new();
                more.push(object);
                assert(self.pinned() + more@ =~= self.pinned().push(object));
                Ok(self.advance(more))
            },
            Err(e) => Err(e),
        }
    }

    /// Takes a probe's answer for a glob. A glob that matches nothing is an error.
    pub fn on_list(self, answer: Result<Vec<PinnedObject>, InputResolveError>) -> (r: Result<
        Resolution,
        InputResolveError,
    >)
        requires
            self.left().len() > 0,
        ensures
            r is Ok <==> answer is Ok && answer->Ok_0@.len() > 0,
            answer is Err ==> r is Err && r->Err_0 == answer->Err_0,
            answer is Ok && answer->Ok_0@.len() == 0 ==> r is Err && r->Err_0@
                == ResolveErrorView::Unavailable(
                "glob matched no objects: "@ + self.left()[0].uri,
            ),
            r is Ok ==> r->Ok_0.left() == self.left().subrange(1, self.left().len() as int)
                && r->Ok_0.pinned() == self.pinned() + answer->Ok_0@,
    {
        proof {
            use_type_invariant(&self);
        }
        match answer {
            Ok(objects) => {
                if objects.len() == 0 {
                    let source = &self.sources[self.next];
                    assert(self.left()[0] == source@);
                    return Err(
                        InputResolveError::Unavailable(
                            join("glob matched no objects: ", source.uri.as_str()),
                        ),
                    );
                }
                Ok(self.advance(objects))
            },
            Err(e) => Err(e),
        }
    }

    /// Takes the latest version of a Delta table, if its log has any commit.
    pub fn on_delta(self, version: Option<u64>) -> (r: Result<Resolution, InputResolveError>)
        requires
            self.left().len() > 0,
        ensures
            r is Ok <==> version is Some,
            r is Err ==> r->Err_0@ == ResolveErrorView::Unavailable(
                "no _delta_log commits at "@ + strip_prefix_seq(self.left()[0].uri, "file://"@),
            ),
            r is Ok ==> {
                &&& r->Ok_0.left() == self.left().subrange(1, self.left().len() as int)
                &&& r->Ok_0.pinned().len() == self.pinned().len() + 1
                &&& r->Ok_0.pinned().drop_last() == self.pinned()
                &&& is_delta_pin(r->Ok_0.pinned().last(), self.left()[0].uri, version->0)
            },
    {
        proof {
            use_type_invariant(&self);
        }
        let uri = self.sources[self.next].uri.clone();
        assert(self.left()[0] == self.sources@[self.next as int]@);
        match version {
            Some(v) => {
                let object = PinnedObject {
                    uri,
                    provider: "delta".to_owned(),
                    version: ObjectVersion::Lakehouse {
                        format: "delta".to_owned(),
                        snapshot_id: decimal(v),
                    },
                };
                let mut more: Vec<PinnedObject> = Vec::new();
                more.push(object);
                let ghost sofar = self.pinned();
                let r = self.advance(more);
                assert(r.pinned() =~= sofar.push(object));
                assert(r.pinned().drop_last() =~= sofar);
                Ok(r)
            },
            None => Err(
                InputResolveError::Unavailable(
                    join(
                        "no _delta_log commits at ",
                        strip_prefix(uri.as_str(), "file://").as_str(),
                    ),
                ),
            ),
        }
    }

    /// The pinned objects, in the order of their sources.
    pub fn finish(self) -> (r: Vec<PinnedObject>)
        ensures
            r@ == self.pinned(),
    {
        self.objects
    }
}

/// A source on a scheme without a probe is never looked for: the inputs cannot be
/// pinned, which is no fault of anybody.
pub proof fn sources_without_a_probe_are_refused(source: SourceView)
    ensures
        action_for(source, None) matches ActionView::Refuse(e) && e is NotPinnable,
{
}

/// Whether an object pins a Delta table at a version.
pub open spec fn is_delta_pin(o: PinnedObject, uri: Seq<char>, version: u64) -> bool {
    &&& o.uri@ == uri
    &&& o.provider@ == "delta"@
    &&& o.version is Lakehouse
    &&& o.version->format@ == "delta"@
    &&& o.version->snapshot_id@ == decimal_seq(version as nat)
}

/// The scheme of a URI is what stands before `://`; a path without one is a file's.
pub proof fn schemes_stand_before_the_colon(scheme: Seq<char>, rest: Seq<char>, path: Seq<char>)
    requires
        forall|i: int| 0 <= i < scheme.len() ==> #[trigger] scheme[i] != ':',
        forall|i: int| 0 <= i < path.len() ==> #[trigger] path[i] != ':',
    ensures
        scheme_of(scheme + "://"@ + rest) == scheme,
        scheme_of(path) == "file"@,
{
    reveal_strlit("://");
    let s = scheme + "://"@ + rest;
    let n = scheme.len() as int;
    assert(s.subrange(n, n + 3) =~= "://"@);
    mark_found(s, 0, n);
    assert(s.subrange(0, n) =~= scheme);
    mark_missing(path, 0);
}

proof fn mark_found(s: Seq<char>, from: int, at: int)
    requires
        0 <= from <= at,
        crate::text::occurs_at(s, "://"@, at),
        forall|i: int| from <= i < at ==> #[trigger] s[i] != ':',
    ensures
        first_at(s, "://"@, from) == Some(at),
    decreases at - from,
{
    reveal_strlit("://");
    if from < at {
        assert(!crate::text::occurs_at(s, "://"@, from)) by {
            if crate::text::occurs_at(s, "://"@, from) {
                assert(s.subrange(from, from + 3)[0] == s[from]);
            }
        }
        mark_found(s, from + 1, at);
    }
}

proof fn mark_missing(s: Seq<char>, from: int)
    requires
        0 <= from,
        forall|i: int| 0 <= i < s.len() ==> #[trigger] s[i] != ':',
    ensures
        first_at(s, "://"@, from) is None,
    decreases s.len() + 1 - from,
{
    reveal_strlit("://");
    if from + 3 <= s.len() {
        assert(!crate::text::occurs_at(s, "://"@, from)) by {
            if crate::text::occurs_at(s, "://"@, from) {
                assert(s.subrange(from, from + 3)[0] == s[from]);
            }
        }
        mark_missing(s, from + 1);
    }
}

/// An object is looked at and a pattern listed by the probe of its scheme; a local Delta
/// table is read; an Iceberg table cannot be pinned, and neither can what has no probe.
pub proof fn sources_are_pinned_by_their_kind(source: SourceView, probe: Option<usize>)
    ensures
        ({
            let a = action_for(source, probe);
            let refused = ActionView::Refuse(
                ResolveErrorView::NotPinnable("no version probe for "@ + source.uri),
            );
            &&& source.kind == SourceKind::Object && probe is Some ==> a == (ActionView::Head {
                probe: probe->0,
                uri: source.uri,
            })
            &&& source.kind == SourceKind::Glob && probe is Some ==> a == (ActionView::List {
                probe: probe->0,
                glob: source.uri,
            })
            &&& source.kind == SourceKind::Delta && probe is Some && scheme_of(source.uri)
                == "file"@ ==> a is ReadDeltaLog
            &&& source.kind == SourceKind::Delta && scheme_of(source.uri) != "file"@ ==> a
                == refused
            &&& source.kind != SourceKind::Iceberg && probe is None ==> a == refused
            &&& source.kind == SourceKind::Iceberg ==> a == ActionView::Refuse(
                ResolveErrorView::NotPinnable(
                    "iceberg table pinning requires an iceberg probe: "@ + source.uri,
                ),
            )
        }),
{
}

/// The log of a local table is read in its directory, with or without the file scheme.
pub proof fn local_tables_are_read_in_their_directory(path: Seq<char>, probe: usize)
    requires
        forall|i: int| 0 <= i < path.len() ==> #[trigger] path[i] != ':',
    ensures
        action_for(SourceView { uri: path, kind: SourceKind::Delta }, Some(probe)) == (
        ActionView::ReadDeltaLog { dir: path }),
        action_for(
            SourceView { uri: "file://"@ + path, kind: SourceKind::Delta },
            Some(probe),
        ) == (ActionView::ReadDeltaLog { dir: path }),
{
    reveal_strlit("file://");
    reveal_strlit("file");
    reveal_strlit("://");
    schemes_stand_before_the_colon("file"@, path, path);
    assert("file"@ + "://"@ + path =~= "file://"@ + path);
    let u = "file://"@ + path;
    assert(u.subrange(0, 7) =~= "file://"@);
    assert(u.subrange(7, u.len() as int) =~= path);
    assert(!crate::text::occurs_at(path, "file://"@, 0)) by {
        if crate::text::occurs_at(path, "file://"@, 0) {
            assert(path.subrange(0, 7)[4] == path[4]);
        }
    }
}

/// A Delta table is pinned by the number of its version.
pub proof fn tables_are_pinned_by_their_version(o: PinnedObject, uri: Seq<char>, version: u64)
    requires
        is_delta_pin(o, uri, version),
    ensures
        o.uri@ == uri,
        o.provider@ == "delta"@,
        o.version matches ObjectVersion::Lakehouse { format, snapshot_id } && format@ == "delta"@
            && crate::scan::digits_u64(snapshot_id@) == Some(version),
{
    crate::scan::decimals_read_back(version as nat);
}

} // verus!
