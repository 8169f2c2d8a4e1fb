//! The outside objects that a query's text names.

use vstd::prelude::*;
use crate::scan::{
    comes_first, ends_with, ends_with_seq, find, first_at, text_lt, text_lt_total,
    text_lt_transitive,
};
use crate::sql::{argument_start, skip_to_argument};
use crate::text::{
    ascii_lower_seq, ascii_lowercase, byte_offset, byte_offsets, chars_of, contains, contains_seq,
    starts_with, starts_with_seq,
};

verus! {

/// How a source is pinned.
#[derive(Debug, Clone, Copy, PartialEq, Eq, Structural)]
pub enum SourceKind {
    /// A single object.
    Object,
    /// A pattern that stands for several objects.
    Glob,
    /// A Delta table directory.
    Delta,
    /// An Iceberg table.
    Iceberg,
}

/// A source that the query names.
#[derive(Debug, Clone, PartialEq, Eq)]
pub struct SqlSource {
    pub uri: String,
    pub kind: SourceKind,
}

/// `SqlSource` over mathematical values.
pub struct SourceView {
    pub uri: Seq<char>,
    pub kind: SourceKind,
}

impl View for SqlSource {
    type V = SourceView;

    open spec fn view(&self) -> SourceView {
        SourceView { uri: self.uri@, kind: self.kind }
    }
}

pub open spec fn source_views(v: Seq<SqlSource>) -> Seq<SourceView> {
    v.map_values(|s: SqlSource| s@)
}

/// The sources of a query.
#[derive(Debug, Clone, PartialEq, Eq)]
pub struct SqlSources {
    pub sources: Vec<SqlSource>,
    /// Whether a data reader is given an argument that is not a string literal.
    pub dynamic: bool,
}

/// A place in a text.
#[derive(Debug, Clone, Copy, PartialEq, Eq, Structural)]
pub struct Place {
    /// The place in bytes.
    pub byte: usize,
    /// The place among the characters.
    pub at: usize,
}

impl Place {
    /// Whether this is a place in `s`: its two forms name the same one.
    pub open spec fn is_in(self, s: Seq<char>) -> bool {
        self.at <= s.len() && self.byte == byte_offset(s, self.at as int)
    }
}

/// A single-quoted string literal.
#[derive(Debug, Clone, PartialEq, Eq)]
pub struct Literal {
    /// The opening quote.
    pub start: Place,
    pub value: String,
}

/// `Literal` over mathematical values: the opening quote is given by its index among the
/// characters.
pub struct LiteralView {
    pub start: int,
    pub value: Seq<char>,
}

impl View for Literal {
    type V = LiteralView;

    open spec fn view(&self) -> LiteralView {
        LiteralView { start: self.start.at as int, value: self.value@ }
    }
}

pub open spec fn literal_views(v: Seq<Literal>) -> Seq<LiteralView> {
    v.map_values(|l: Literal| l@)
}

/// The rest of a literal from `i` on, and the index after its closing quote. Two quotes
/// stand for one.
pub open spec fn literal_body(s: Seq<char>, i: int) -> (Seq<char>, int)
    decreases s.len() - i,
{
    if i >= s.len() {
        (Seq::empty(), i)
    } else if s[i] != '\'' {
        let rest = literal_body(s, i + 1);
        (seq![s[i]] + rest.0, rest.1)
    } else if i + 1 < s.len() && s[i + 1] == '\'' {
        let rest = literal_body(s, i + 2);
        (seq!['\''] + rest.0, rest.1)
    } else {
        (Seq::empty(), i + 1)
    }
}

/// Whether the literal that goes on at `i` has a closing quote.
pub open spec fn literal_closes(s: Seq<char>, i: int) -> bool
    decreases s.len() - i,
{
    if i >= s.len() {
        false
    } else if s[i] != '\'' {
        literal_closes(s, i + 1)
    } else if i + 1 < s.len() && s[i + 1] == '\'' {
        literal_closes(s, i + 2)
    } else {
        true
    }
}

pub(crate) proof fn literal_body_bounds(s: Seq<char>, i: int)
    requires
        i <= s.len(),
    ensures
        i <= literal_body(s, i).1 <= s.len(),
    decreases s.len() - i,
{
    if i < s.len() {
        if s[i] != '\'' {
            literal_body_bounds(s, i + 1);
        } else if i + 1 < s.len() && s[i + 1] == '\'' {
            literal_body_bounds(s, i + 2);
        }
    }
}

/// The string literals of `s` from `i` on.
pub open spec fn literals_from(s: Seq<char>, i: int) -> Seq<LiteralView>
    decreases s.len() - i,
    via literals_from_decreases
{
    if i >= s.len() {
        Seq::empty()
    } else if s[i] == '\'' {
        let body = literal_body(s, i + 1);
        seq![LiteralView { start: i, value: body.0 }] + literals_from(s, body.1)
    } else {
        literals_from(s, i + 1)
    }
}

#[via_fn]
proof fn literals_from_decreases(s: Seq<char>, i: int) {
    if i < s.len() {
        literal_body_bounds(s, i + 1);
    }
}

/// What follows the opening quote of a literal.
pub(crate) struct LiteralRest {
    pub(crate) value: String,
    /// The index after the literal.
    pub(crate) end: usize,
    /// Whether there is a closing quote.
    pub(crate) closed: bool,
}

pub(crate) fn read_body(v: &[char], from: usize) -> (r: LiteralRest)
    requires
        from <= v@.len(),
    ensures
        r.value@ == literal_body(v@, from as int).0,
        r.end == literal_body(v@, from as int).1,
        r.closed == literal_closes(v@, from as int),
        from <= r.end <= v@.len(),
{
    let n: usize = v.len();
    let mut value = String::new();
    let mut i: usize = from;
    assert(value@ + literal_body(v@, i as int).0 =~= literal_body(v@, from as int).0);
    while i < n
        invariant
            from <= i <= n,
            n == v@.len(),
            value@ + literal_body(v@, i as int).0 == literal_body(v@, from as int).0,
            literal_body(v@, i as int).1 == literal_body(v@, from as int).1,
            literal_closes(v@, i as int) == literal_closes(v@, from as int),
        decreases n - i,
    {
        let ghost before = value@;
        if v[i] == '\'' {
            if i + 1 < n && v[i + 1] == '\'' {
                value.push('\'');
                assert(value@ + literal_body(v@, i + 2).0 =~= before + literal_body(v@, i as int).0);
                i = i + 2;
            } else {
                assert(value@ =~= before + literal_body(v@, i as int).0);
                return LiteralRest { value, end: i + 1, closed: true };
            }
        } else {
            value.push(v[i]);
            assert(value@ + literal_body(v@, i + 1).0 =~= before + literal_body(v@, i as int).0);
            i = i + 1;
        }
    }
    assert(value@ =~= value@ + literal_body(v@, i as int).0);
    LiteralRest { value, end: i, closed: false }
}

/// The single-quoted string literals of a query, in order.
pub fn string_literals(sql: &str) -> (r: Vec<Literal>)
    ensures
        literal_views(r@) == literals_from(sql@, 0),
        forall|k: int| 0 <= k < r@.len() ==> (#[trigger] r@[k]).start.is_in(sql@),
{
    let v = chars_of(sql);
    let offsets = byte_offsets(sql);
    let n: usize = v.len();
    let mut r: Vec<Literal> = Vec::new();
    let mut i: usize = 0;
    assert(literal_views(r@) + literals_from(v@, 0) =~= literals_from(v@, 0));
    while i < n
        invariant
            i <= n,
            n == v@.len(),
            v@ == sql@,
            offsets@.len() == n + 1,
            forall|k: int| 0 <= k < offsets@.len() ==> #[trigger] offsets@[k] == byte_offset(
                sql@,
                k,
            ),
            forall|k: int| 0 <= k < r@.len() ==> (#[trigger] r@[k]).start.is_in(sql@),
            literal_views(r@) + literals_from(v@, i as int) == literals_from(v@, 0),
        decreases n - i,
    {
        if v[i] == '\'' {
            let body = read_body(&v, i + 1);
            let ghost before = literal_views(r@);
            let lit = Literal { start: Place { byte: offsets[i], at: i }, value: body.value };
            r.push(lit);
            proof {
                assert(literal_views(r@) =~= before.push(lit@));
                assert(literal_views(r@) + literals_from(v@, body.end as int) =~= before
                    + literals_from(v@, i as int));
            }
            i = body.end;
        } else {
            i = i + 1;
        }
    }
    assert(literals_from(v@, i as int) =~= Seq::empty());
    assert(literal_views(r@) =~= literal_views(r@) + literals_from(v@, i as int));
    r
}

/// Whether a character may stand in a name.
pub open spec fn is_name_char(c: char) -> bool {
    ('a' <= c && c <= 'z') || ('A' <= c && c <= 'Z') || ('0' <= c && c <= '9') || c == '_'
}

pub(crate) fn name_char(c: char) -> (r: bool)
    ensures
        r == is_name_char(c),
{
    ('a' <= c && c <= 'z') || ('A' <= c && c <= 'Z') || ('0' <= c && c <= '9') || c == '_'
}

/// The first index from `i` on that does not hold a space.
pub open spec fn space_end(s: Seq<char>, i: int) -> int
    decreases s.len() - i,
{
    if i < s.len() && s[i] == ' ' {
        space_end(s, i + 1)
    } else {
        i
    }
}

/// The indices just after `name(`, from `from` on. A name that continues another one
/// does not count, and spaces may stand before the bracket.
pub open spec fn calls_from(s: Seq<char>, name: Seq<char>, from: int) -> Seq<int>
    decreases s.len() - from,
    when name.len() > 0
    via calls_from_decreases
{
    match first_at(s, name, from) {
        Some(i) => {
            let open = space_end(s, i + name.len());
            let rest = calls_from(s, name, i + name.len());
            if (i == 0 || !is_name_char(s[i - 1])) && open < s.len() && s[open] == '(' {
                seq![open + 1] + rest
            } else {
                rest
            }
        },
        None => Seq::empty(),
    }
}

#[via_fn]
proof fn calls_from_decreases(s: Seq<char>, name: Seq<char>, from: int) {
    first_at_bounds(s, name, from);
}

proof fn first_at_bounds(s: Seq<char>, p: Seq<char>, from: int)
    ensures
        first_at(s, p, from) is Some ==> from <= first_at(s, p, from)->0 && first_at(s, p, from)->0
            + p.len() <= s.len(),
    decreases s.len() + 1 - from,
{
    if from + p.len() <= s.len() && !crate::text::occurs_at(s, p, from) {
        first_at_bounds(s, p, from + 1);
    }
}

/// Places by their indices among the characters.
pub open spec fn as_ints(v: Seq<Place>) -> Seq<int> {
    v.map_values(|p: Place| p.at as int)
}

/// The places just after the opening bracket of each call of `name` in a lower-case
/// query.
pub fn fn_call_offsets(lower: &str, name: &str) -> (r: Vec<Place>)
    requires
        name@.len() > 0,
    ensures
        as_ints(r@) == calls_from(lower@, name@, 0),
        forall|k: int| 0 <= k < r@.len() ==> (#[trigger] r@[k]).is_in(lower@),
{
    let v = chars_of(lower);
    let offsets = byte_offsets(lower);
    let p = chars_of(name);
    let n: usize = v.len();
    let m: usize = p.len();
    let mut r: Vec<Place> = Vec::new();
    let mut from: usize = 0;
    let mut more = true;
    assert(as_ints(r@) + calls_from(v@, p@, 0) =~= calls_from(v@, p@, 0));
    while more
        invariant
            from <= n,
            n == v@.len(),
            m == p@.len(),
            m > 0,
            v@ == lower@,
            offsets@.len() == n + 1,
            forall|k: int| 0 <= k < offsets@.len() ==> #[trigger] offsets@[k] == byte_offset(
                lower@,
                k,
            ),
            forall|k: int| 0 <= k < r@.len() ==> (#[trigger] r@[k]).is_in(lower@),
            more ==> as_ints(r@) + calls_from(v@, p@, from as int) == calls_from(v@, p@, 0),
            !more ==> as_ints(r@) == calls_from(v@, p@, 0),
        decreases n - from + (if more {
            1int
        } else {
            0
        }),
    {
        let ghost before = as_ints(r@);
        let ghost rest = calls_from(v@, p@, from as int);
        match find(&v, &p, from) {
            Some(i) => {
                let after: usize = i + m;
                let mut j: usize = after;
                while j < n && v[j] == ' '
                    invariant
                        after <= j <= n,
                        n == v@.len(),
                        space_end(v@, j as int) == space_end(v@, after as int),
                    decreases n - j,
                {
                    j = j + 1;
                }
                let bounded = i == 0 || !name_char(v[i - 1]);
                if bounded && j < n && v[j] == '(' {
                    r.push(Place { byte: offsets[j + 1], at: j + 1 });
                    proof {
                        assert(as_ints(r@) =~= before.push(j + 1));
                        assert(as_ints(r@) + calls_from(v@, p@, after as int) =~= before + rest);
                    }
                }
                from = after;
            },
            None => {
                more = false;
                assert(rest =~= Seq::empty());
                assert(before =~= before + rest);
            },
        }
    }
    r
}

/// The first literal at or after an index.
pub open spec fn literal_at_or_after(literals: Seq<LiteralView>, offset: int, from: int) -> Option<
    int,
>
    decreases literals.len() - from,
{
    if from >= literals.len() {
        None
    } else if literals[from].start >= offset {
        Some(from)
    } else {
        literal_at_or_after(literals, offset, from + 1)
    }
}

/// The literal that a call's argument begins with, if it is one: the first literal after
/// the call's bracket, with nothing but white space, comments and opening brackets
/// before it.
pub open spec fn argument_literal(s: Seq<char>, literals: Seq<LiteralView>, offset: int) -> Option<
    int,
> {
    match literal_at_or_after(literals, offset, 0) {
        Some(i) => if literals[i].start == argument_start(s, offset) {
            Some(i)
        } else {
            None
        },
        None => None,
    }
}

/// The index of the literal that a call's argument begins with. `None` where the
/// argument is something else, such as a variable or another call.
pub fn first_literal_after(sql: &[char], literals: &[Literal], call: Place) -> (r: Option<usize>)
    requires
        forall|i: int| 0 <= i < literals@.len() ==> (#[trigger] literals@[i]).start.at <= sql@.len(),
    ensures
        r is Some <==> argument_literal(sql@, literal_views(literals@), call.at as int) is Some,
        r is Some ==> r->0 < literals@.len() && r->0 == argument_literal(
            sql@,
            literal_views(literals@),
            call.at as int,
        )->0,
{
    let offset: usize = call.at;
    let ghost views = literal_views(literals@);
    let mut i: usize = 0;
    while i < literals.len() && literals[i].start.at < offset
        invariant
            i <= literals@.len(),
            views == literal_views(literals@),
            literal_at_or_after(views, offset as int, i as int) == literal_at_or_after(
                views,
                offset as int,
                0,
            ),
        decreases literals@.len() - i,
    {
        assert(views[i as int] == literals@[i as int]@);
        i = i + 1;
    }
    if i >= literals.len() {
        return None;
    }
    assert(views[i as int] == literals@[i as int]@);
    if offset <= sql.len() && literals[i].start.at == skip_to_argument(sql, offset) {
        Some(i)
    } else {
        None
    }
}

/// Whether a text is a pattern.
pub open spec fn glob_text(s: Seq<char>) -> bool {
    contains_seq(s, "*"@) || contains_seq(s, "?"@) || contains_seq(s, "["@)
}

/// Whether a text is a pattern that stands for several objects.
pub fn is_glob(s: &str) -> (r: bool)
    ensures
        r == glob_text(s@),
{
    contains(s, "*") || contains(s, "?") || contains(s, "[")
}

/// Whether a lower-case text has the scheme of an object store or of a file.
pub open spec fn has_scheme(s: Seq<char>) -> bool {
    starts_with_seq(s, "s3://"@) || starts_with_seq(s, "gs://"@) || starts_with_seq(s, "gcs://"@)
        || starts_with_seq(s, "az://"@) || starts_with_seq(s, "abfss://"@) || starts_with_seq(
        s,
        "azure://"@,
    ) || starts_with_seq(s, "https://"@) || starts_with_seq(s, "http://"@) || starts_with_seq(
        s,
        "file://"@,
    )
}

/// Whether a lower-case text ends like a data file.
pub open spec fn has_data_extension(s: Seq<char>) -> bool {
    ends_with_seq(s, ".parquet"@) || ends_with_seq(s, ".csv"@) || ends_with_seq(s, ".json"@)
        || ends_with_seq(s, ".ndjson"@) || ends_with_seq(s, ".tsv"@)
}

/// Whether a lower-case text names a kind of data file anywhere.
pub open spec fn names_data_extension(s: Seq<char>) -> bool {
    contains_seq(s, "parquet"@) || contains_seq(s, "csv"@) || contains_seq(s, "json"@)
        || contains_seq(s, "ndjson"@) || contains_seq(s, "tsv"@)
}

/// Whether a lower-case text looks like an outside object.
pub open spec fn object_text(s: Seq<char>) -> bool {
    has_scheme(s) || has_data_extension(s) || (glob_text(s) && names_data_extension(s))
}

/// Whether a lower-case literal looks like an outside object: by its scheme, its
/// extension, or as a pattern over data files.
pub fn looks_like_object_uri(lower: &str) -> (r: bool)
    ensures
        r == object_text(lower@),
{
    starts_with(lower, "s3://") || starts_with(lower, "gs://") || starts_with(lower, "gcs://")
        || starts_with(lower, "az://") || starts_with(lower, "abfss://") || starts_with(
        lower,
        "azure://",
    ) || starts_with(lower, "https://") || starts_with(lower, "http://") || starts_with(
        lower,
        "file://",
    ) || ends_with(lower, ".parquet") || ends_with(lower, ".csv") || ends_with(lower, ".json")
        || ends_with(lower, ".ndjson") || ends_with(lower, ".tsv") || (is_glob(lower) && (contains(
        lower,
        "parquet",
    ) || contains(lower, "csv") || contains(lower, "json") || contains(lower, "ndjson") || contains(
        lower,
        "tsv",
    )))
}

/// The storage provider of a lower-case URI.
pub open spec fn provider_of(lower: Seq<char>) -> Seq<char> {
    if starts_with_seq(lower, "s3://"@) {
        "s3"@
    } else if starts_with_seq(lower, "gs://"@) || starts_with_seq(lower, "gcs://"@) {
        "gcs"@
    } else if starts_with_seq(lower, "az://"@) || starts_with_seq(lower, "abfss://"@)
        || starts_with_seq(lower, "azure://"@) {
        "az"@
    } else if starts_with_seq(lower, "http://"@) || starts_with_seq(lower, "https://"@) {
        "https"@
    } else {
        "local-fake"@
    }
}

/// The storage provider of a URI. Bare paths and `file://` are local.
pub fn provider_for_uri(uri: &str) -> (r: &'static str)
    ensures
        r@ == provider_of(ascii_lower_seq(uri@)),
{
    let lowered = ascii_lowercase(uri);
    let lower = lowered.as_str();
    if starts_with(lower, "s3://") {
        "s3"
    } else if starts_with(lower, "gs://") || starts_with(lower, "gcs://") {
        "gcs"
    } else if starts_with(lower, "az://") || starts_with(lower, "abfss://") || starts_with(
        lower,
        "azure://",
    ) {
        "az"
    } else if starts_with(lower, "http://") || starts_with(lower, "https://") {
        "https"
    } else {
        "local-fake"
    }
}

/// What has been gathered of a query's sources.
pub ghost struct Gathered {
    pub sources: Seq<SourceView>,
    /// Which literals are claimed already.
    pub claimed: Seq<bool>,
    pub dynamic: bool,
}

/// An object, or a pattern that stands for several.
pub open spec fn object_or_glob(uri: Seq<char>) -> SourceKind {
    if glob_text(uri) {
        SourceKind::Glob
    } else {
        SourceKind::Object
    }
}

/// One call of a data reader. A table reader (`table`) names a table of that kind; any
/// other reader claims its literal for an object or a pattern, unless it is claimed.
pub open spec fn gather_call(
    g: Gathered,
    s: Seq<char>,
    literals: Seq<LiteralView>,
    table: Option<SourceKind>,
    call: int,
) -> Gathered {
    match argument_literal(s, literals, call) {
        None => Gathered { dynamic: true, ..g },
        Some(i) => {
            let uri = literals[i].value;
            match table {
                Some(kind) => Gathered {
                    sources: g.sources.push(SourceView { uri, kind }),
                    claimed: g.claimed.update(i, true),
                    ..g
                },
                None => if g.claimed[i] {
                    g
                } else {
                    Gathered {
                        sources: g.sources.push(SourceView { uri, kind: object_or_glob(uri) }),
                        claimed: g.claimed.update(i, true),
                        ..g
                    }
                },
            }
        },
    }
}

pub open spec fn gather_calls(
    g: Gathered,
    s: Seq<char>,
    literals: Seq<LiteralView>,
    table: Option<SourceKind>,
    calls: Seq<int>,
) -> Gathered
    decreases calls.len(),
{
    if calls.len() == 0 {
        g
    } else {
        gather_call(
            gather_calls(g, s, literals, table, calls.drop_last()),
            s,
            literals,
            table,
            calls.last(),
        )
    }
}

/// Every call of the reader `name`.
pub open spec fn gather_reader(
    g: Gathered,
    s: Seq<char>,
    table: Option<SourceKind>,
    name: Seq<char>,
) -> Gathered {
    gather_calls(
        g,
        s,
        literals_from(s, 0),
        table,
        calls_from(ascii_lower_seq(s), name, 0),
    )
}

/// The first `n` literals that no reader claimed, where they look like objects.
pub open spec fn gather_bare(g: Gathered, literals: Seq<LiteralView>, n: nat) -> Seq<SourceView>
    decreases n,
{
    if n == 0 {
        g.sources
    } else {
        let rest = gather_bare(g, literals, (n - 1) as nat);
        let uri = literals[n - 1].value;
        if !g.claimed[n - 1] && object_text(ascii_lower_seq(uri)) {
            rest.push(SourceView { uri, kind: object_or_glob(uri) })
        } else {
            rest
        }
    }
}

/// What all readers of a query claim: table readers first.
pub open spec fn gather_all(s: Seq<char>) -> Gathered {
    let none = Gathered {
        sources: Seq::empty(),
        claimed: Seq::new(literals_from(s, 0).len(), |i: int| false),
        dynamic: false,
    };
    let a = gather_reader(none, s, Some(SourceKind::Delta), "delta_scan"@);
    let b = gather_reader(a, s, Some(SourceKind::Iceberg), "iceberg_scan"@);
    let c = gather_reader(b, s, None, "read_parquet"@);
    let d = gather_reader(c, s, None, "read_csv_auto"@);
    let e = gather_reader(d, s, None, "read_csv"@);
    let f = gather_reader(e, s, None, "read_json_auto"@);
    let g = gather_reader(f, s, None, "read_json"@);
    let h = gather_reader(g, s, None, "read_ndjson"@);
    let i = gather_reader(h, s, None, "read_ndjson_auto"@);
    gather_reader(i, s, None, "parquet_scan"@)
}

/// `x` put behind every source whose URI does not come after its own.
pub open spec fn insert_source(s: Seq<SourceView>, x: SourceView) -> Seq<SourceView>
    decreases s.len(),
{
    if s.len() > 0 && text_lt(x.uri, s.last().uri) {
        insert_source(s.drop_last(), x).push(s.last())
    } else {
        s.push(x)
    }
}

/// The sources by URI, those with the same URI in the order in which they were found.
pub open spec fn by_uri(s: Seq<SourceView>) -> Seq<SourceView>
    decreases s.len(),
{
    if s.len() == 0 {
        s
    } else {
        insert_source(by_uri(s.drop_last()), s.last())
    }
}

/// The sources without those that are equal to the one in front.
pub open spec fn without_repeats(s: Seq<SourceView>) -> Seq<SourceView>
    decreases s.len(),
{
    if s.len() == 0 {
        s
    } else if s.len() > 1 && s.last() == s[s.len() - 2] {
        without_repeats(s.drop_last())
    } else {
        without_repeats(s.drop_last()).push(s.last())
    }
}

/// The sources of a query, by URI.
pub open spec fn sources_of(s: Seq<char>) -> Seq<SourceView> {
    without_repeats(by_uri(gather_bare(gather_all(s), literals_from(s, 0), literals_from(s, 0).len())))
}

struct Gathering {
    sources: Vec<SqlSource>,
    claimed: Vec<bool>,
    dynamic: bool,
}

impl Gathering {
    spec fn is(&self, g: Gathered) -> bool {
        &&& source_views(self.sources@) == g.sources
        &&& self.claimed@ == g.claimed
        &&& self.dynamic == g.dynamic
    }
}

fn push_source(sources: &mut Vec<SqlSource>, uri: &String, kind: SourceKind)
    ensures
        source_views(final(sources)@) == source_views(old(sources)@).push(
            SourceView { uri: uri@, kind },
        ),
{
    let ghost before = source_views(sources@);
    let x = SqlSource { uri: uri.clone(), kind };
    sources.push(x);
    assert(source_views(sources@) =~= before.push(x@));
}

fn kind_of(uri: &str) -> (r: SourceKind)
    ensures
        r == object_or_glob(uri@),
{
    if is_glob(uri) {
        SourceKind::Glob
    } else {
        SourceKind::Object
    }
}

fn gather(
    state: &mut Gathering,
    sql: &[char],
    lower: &str,
    literals: &[Literal],
    table: Option<SourceKind>,
    name: &str,
    Ghost(g): Ghost<Gathered>,
)
    requires
        name@.len() > 0,
        lower@ == ascii_lower_seq(sql@),
        literal_views(literals@) == literals_from(sql@, 0),
        old(state).is(g),
        g.claimed.len() == literals@.len(),
        forall|i: int| 0 <= i < literals@.len() ==> (#[trigger] literals@[i]).start.at <= sql@.len(),
    ensures
        final(state).is(gather_reader(g, sql@, table, name@)),
        gather_reader(g, sql@, table, name@).claimed.len() == literals@.len(),
{
    let calls = fn_call_offsets(lower, name);
    let ghost views = literal_views(literals@);
    let ghost offsets = as_ints(calls@);
    let mut k: usize = 0;
    assert(offsets.take(0) =~= Seq::empty());
    while k < calls.len()
        invariant
            k <= calls@.len(),
            offsets == as_ints(calls@),
            views == literal_views(literals@),
            views.len() == literals@.len(),
            state.is(gather_calls(g, sql@, views, table, offsets.take(k as int))),
            state.claimed@.len() == literals@.len(),
            forall|i: int|
                0 <= i < literals@.len() ==> (#[trigger] literals@[i]).start.at <= sql@.len(),
        decreases calls@.len() - k,
    {
        let ghost now = gather_calls(g, sql@, views, table, offsets.take(k as int));
        proof {
            let next = offsets.take(k + 1);
            assert(next.drop_last() =~= offsets.take(k as int));
            assert(next.last() == calls@[k as int].at);
        }
        match first_literal_after(sql, literals, calls[k]) {
            Some(i) => {
                assert(views[i as int] == literals@[i as int]@);
                match table {
                    Some(kind) => {
                        state.claimed.set(i, true);
                        push_source(&mut state.sources, &literals[i].value, kind);
                    },
                    None => {
                        if !state.claimed[i] {
                            state.claimed.set(i, true);
                            let kind = kind_of(literals[i].value.as_str());
                            push_source(&mut state.sources, &literals[i].value, kind);
                        }
                    },
                }
            },
            None => {
                state.dynamic = true;
            },
        }
        k = k + 1;
    }
    assert(offsets.take(k as int) =~= offsets);
}

fn put_source(sources: &mut Vec<SqlSource>, x: SqlSource)
    ensures
        source_views(final(sources)@) == insert_source(source_views(old(sources)@), x@),
{
    let n: usize = sources.len();
    let mut i: usize = n;
    let ghost before = source_views(sources@);
    let ghost target = insert_source(before, x@);
    assert(before.take(n as int) =~= before);
    assert(before.subrange(n as int, n as int) =~= Seq::empty());
    assert(insert_source(before, x@) =~= insert_source(before.take(n as int), x@)
        + before.subrange(n as int, n as int));
    while i > 0 && comes_first(x.uri.as_str(), sources[i - 1].uri.as_str())
        invariant
            i <= n,
            n == sources@.len(),
            source_views(sources@) == before,
            target == insert_source(before.take(i as int), x@) + before.subrange(
                i as int,
                n as int,
            ),
        decreases i,
    {
        proof {
            let here = before.take(i as int);
            assert(here.last() == sources@[i - 1]@);
            assert(here.drop_last() =~= before.take(i - 1));
            assert(insert_source(here, x@) + before.subrange(i as int, n as int) =~= insert_source(
                before.take(i - 1),
                x@,
            ) + before.subrange(i - 1, n as int));
        }
        i = i - 1;
    }
    proof {
        let here = before.take(i as int);
        if i > 0 {
            assert(here.last() == sources@[i - 1]@);
        }
        assert(target == here.push(x@) + before.subrange(i as int, n as int));
    }
    let ghost old_sources = sources@;
    sources.insert(i, x);
    proof {
        assert(sources@ =~= old_sources.insert(i as int, x));
        assert(source_views(sources@) =~= target);
    }
}

fn sorted(sources: &[SqlSource]) -> (r: Vec<SqlSource>)
    ensures
        source_views(r@) == by_uri(source_views(sources@)),
{
    let mut r: Vec<SqlSource> = Vec::new();
    let ghost all = source_views(sources@);
    let mut i: usize = 0;
    assert(source_views(r@) =~= all.take(0));
    while i < sources.len()
        invariant
            i <= sources@.len(),
            all == source_views(sources@),
            source_views(r@) == by_uri(all.take(i as int)),
        decreases sources@.len() - i,
    {
        proof {
            let next = all.take(i + 1);
            assert(next.drop_last() =~= all.take(i as int));
            assert(next.last() == sources@[i as int]@);
        }
        put_source(
            &mut r,
            SqlSource { uri: sources[i].uri.clone(), kind: sources[i].kind },
        );
        i = i + 1;
    }
    assert(all.take(i as int) =~= all);
    r
}

fn deduped(sources: &[SqlSource]) -> (r: Vec<SqlSource>)
    ensures
        source_views(r@) == without_repeats(source_views(sources@)),
{
    let mut r: Vec<SqlSource> = Vec::new();
    let ghost all = source_views(sources@);
    let mut i: usize = 0;
    assert(source_views(r@) =~= all.take(0));
    while i < sources.len()
        invariant
            i <= sources@.len(),
            all == source_views(sources@),
            source_views(r@) == without_repeats(all.take(i as int)),
        decreases sources@.len() - i,
    {
        proof {
            let next = all.take(i + 1);
            assert(next.drop_last() =~= all.take(i as int));
            assert(next.last() == sources@[i as int]@);
            if i > 0 {
                assert(next[next.len() - 2] == sources@[i - 1]@);
            }
        }
        let repeat = i > 0 && sources[i].uri == sources[i - 1].uri && sources[i].kind == sources[i
            - 1].kind;
        if !repeat {
            push_source(&mut r, &sources[i].uri, sources[i].kind);
        }
        i = i + 1;
    }
    assert(all.take(i as int) =~= all);
    r
}

/// The outside objects that a query names, by URI, and whether a data reader is given
/// anything but a literal.
pub fn parse_input_sources(sql: &str) -> (r: SqlSources)
    ensures
        source_views(r.sources@) == sources_of(sql@),
        r.dynamic == gather_all(sql@).dynamic,
{
    let text = chars_of(sql);
    let lower = ascii_lowercase(sql);
    let literals = string_literals(sql);
    let ghost views = literals_from(sql@, 0);
    proof {
        assert forall|i: int| 0 <= i < literals@.len() implies (#[trigger] literals@[i]).start.at
            <= text@.len() by {}
        reveal_strlit("delta_scan");
        reveal_strlit("iceberg_scan");
        reveal_strlit("read_parquet");
        reveal_strlit("read_csv_auto");
        reveal_strlit("read_csv");
        reveal_strlit("read_json_auto");
        reveal_strlit("read_json");
        reveal_strlit("read_ndjson");
        reveal_strlit("read_ndjson_auto");
        reveal_strlit("parquet_scan");
    }
    let mut claimed: Vec<bool> = Vec::new();
    let mut k: usize = 0;
    while k < literals.len()
        invariant
            k <= literals@.len(),
            claimed@ == Seq::new(k as nat, |i: int| false),
        decreases literals@.len() - k,
    {
        claimed.push(false);
        k = k + 1;
        assert(claimed@ =~= Seq::new(k as nat, |i: int| false));
    }
    let mut state = Gathering { sources: Vec::new(), claimed, dynamic: false };
    let l = lower.as_str();
    let ghost s = sql@;
    let ghost none = Gathered {
        sources: Seq::empty(),
        claimed: Seq::new(literals_from(s, 0).len(), |i: int| false),
        dynamic: false,
    };
    proof {
        assert(source_views(state.sources@) =~= none.sources);
        assert(literal_views(literals@).len() == literals@.len());
        assert(state.is(none));
    }
    gather(&mut state, &text, l, &literals, Some(SourceKind::Delta), "delta_scan", Ghost(none));
    let ghost a = gather_reader(none, s, Some(SourceKind::Delta), "delta_scan"@);
    gather(&mut state, &text, l, &literals, Some(SourceKind::Iceberg), "iceberg_scan", Ghost(a));
    let ghost b = gather_reader(a, s, Some(SourceKind::Iceberg), "iceberg_scan"@);
    gather(&mut state, &text, l, &literals, None, "read_parquet", Ghost(b));
    let ghost c = gather_reader(b, s, None, "read_parquet"@);
    gather(&mut state, &text, l, &literals, None, "read_csv_auto", Ghost(c));
    let ghost d = gather_reader(c, s, None, "read_csv_auto"@);
    gather(&mut state, &text, l, &literals, None, "read_csv", Ghost(d));
    let ghost e = gather_reader(d, s, None, "read_csv"@);
    gather(&mut state, &text, l, &literals, None, "read_json_auto", Ghost(e));
    let ghost f = gather_reader(e, s, None, "read_json_auto"@);
    gather(&mut state, &text, l, &literals, None, "read_json", Ghost(f));
    let ghost g = gather_reader(f, s, None, "read_json"@);
    gather(&mut state, &text, l, &literals, None, "read_ndjson", Ghost(g));
    let ghost h = gather_reader(g, s, None, "read_ndjson"@);
    gather(&mut state, &text, l, &literals, None, "read_ndjson_auto", Ghost(h));
    let ghost i9 = gather_reader(h, s, None, "read_ndjson_auto"@);
    gather(&mut state, &text, l, &literals, None, "parquet_scan", Ghost(i9));
    let ghost all = gather_all(s);
    assert(state.is(all));
    let mut i: usize = 0;
    while i < literals.len()
        invariant
            i <= literals@.len(),
            views == literal_views(literals@),
            all.claimed == state.claimed@,
            state.claimed@.len() == literals@.len(),
            state.dynamic == all.dynamic,
            source_views(state.sources@) == gather_bare(all, views, i as nat),
        decreases literals@.len() - i,
    {
        assert(views[i as int] == literals@[i as int]@);
        let value = &literals[i].value;
        if !state.claimed[i] && looks_like_object_uri(ascii_lowercase(value.as_str()).as_str()) {
            let kind = kind_of(value.as_str());
            push_source(&mut state.sources, value, kind);
        }
        i = i + 1;
    }
    let ordered = sorted(&state.sources);
    SqlSources { sources: deduped(&ordered), dynamic: state.dynamic }
}

/// A source is never invented: each is a literal of the query.
pub proof fn every_source_is_a_literal(s: Seq<char>, k: int)
    requires
        0 <= k < sources_of(s).len(),
    ensures
        exists|i: int|
            0 <= i < literals_from(s, 0).len() && (#[trigger] literals_from(s, 0)[i]).value
                == sources_of(s)[k].uri,
{
    let lits = literals_from(s, 0);
    let none = Gathered {
        sources: Seq::empty(),
        claimed: Seq::new(lits.len(), |i: int| false),
        dynamic: false,
    };
    let a = gather_reader(none, s, Some(SourceKind::Delta), "delta_scan"@);
    let b = gather_reader(a, s, Some(SourceKind::Iceberg), "iceberg_scan"@);
    let c = gather_reader(b, s, None, "read_parquet"@);
    let d = gather_reader(c, s, None, "read_csv_auto"@);
    let e = gather_reader(d, s, None, "read_csv"@);
    let f = gather_reader(e, s, None, "read_json_auto"@);
    let g = gather_reader(f, s, None, "read_json"@);
    let h = gather_reader(g, s, None, "read_ndjson"@);
    let i9 = gather_reader(h, s, None, "read_ndjson_auto"@);
    gathered_from_literals(none, s, lits, Some(SourceKind::Delta), calls_from(ascii_lower_seq(s), "delta_scan"@, 0));
    gathered_from_literals(a, s, lits, Some(SourceKind::Iceberg), calls_from(ascii_lower_seq(s), "iceberg_scan"@, 0));
    gathered_from_literals(b, s, lits, None, calls_from(ascii_lower_seq(s), "read_parquet"@, 0));
    gathered_from_literals(c, s, lits, None, calls_from(ascii_lower_seq(s), "read_csv_auto"@, 0));
    gathered_from_literals(d, s, lits, None, calls_from(ascii_lower_seq(s), "read_csv"@, 0));
    gathered_from_literals(e, s, lits, None, calls_from(ascii_lower_seq(s), "read_json_auto"@, 0));
    gathered_from_literals(f, s, lits, None, calls_from(ascii_lower_seq(s), "read_json"@, 0));
    gathered_from_literals(g, s, lits, None, calls_from(ascii_lower_seq(s), "read_ndjson"@, 0));
    gathered_from_literals(h, s, lits, None, calls_from(ascii_lower_seq(s), "read_ndjson_auto"@, 0));
    gathered_from_literals(i9, s, lits, None, calls_from(ascii_lower_seq(s), "parquet_scan"@, 0));
    let raw = gather_bare(gather_all(s), lits, lits.len());
    bare_from_literals(gather_all(s), lits, lits.len());
    by_uri_keeps(raw, lits);
    repeats_keep(by_uri(raw), lits);
}

/// Whether every source's URI is a literal.
spec fn from_literals(sources: Seq<SourceView>, literals: Seq<LiteralView>) -> bool {
    forall|k: int| 0 <= k < sources.len() ==> is_literal(literals, (#[trigger] sources[k]).uri)
}

spec fn is_literal(literals: Seq<LiteralView>, uri: Seq<char>) -> bool {
    exists|i: int| 0 <= i < literals.len() && (#[trigger] literals[i]).value == uri
}

proof fn literal_found(literals: Seq<LiteralView>, offset: int, from: int)
    requires
        0 <= from,
    ensures
        literal_at_or_after(literals, offset, from) is Some ==> 0 <= literal_at_or_after(
            literals,
            offset,
            from,
        )->0 < literals.len(),
    decreases literals.len() - from,
{
    if from < literals.len() && literals[from].start < offset {
        literal_found(literals, offset, from + 1);
    }
}

proof fn gathered_from_literals(
    g: Gathered,
    s: Seq<char>,
    literals: Seq<LiteralView>,
    table: Option<SourceKind>,
    calls: Seq<int>,
)
    requires
        from_literals(g.sources, literals),
    ensures
        from_literals(gather_calls(g, s, literals, table, calls).sources, literals),
    decreases calls.len(),
{
    if calls.len() > 0 {
        gathered_from_literals(g, s, literals, table, calls.drop_last());
        literal_found(literals, calls.last(), 0);
        if argument_literal(s, literals, calls.last()) is Some {
            let i = argument_literal(s, literals, calls.last())->0;
            assert(literals[i].value == literals[i].value);
            assert(is_literal(literals, literals[i].value));
        }
    }
}

proof fn bare_from_literals(g: Gathered, literals: Seq<LiteralView>, n: nat)
    requires
        from_literals(g.sources, literals),
        n <= literals.len(),
    ensures
        from_literals(gather_bare(g, literals, n), literals),
    decreases n,
{
    if n > 0 {
        bare_from_literals(g, literals, (n - 1) as nat);
        assert(literals[n - 1].value == literals[n - 1].value);
        assert(is_literal(literals, literals[n - 1].value));
    }
}

proof fn insert_keeps(s: Seq<SourceView>, x: SourceView, literals: Seq<LiteralView>)
    requires
        from_literals(s, literals),
        is_literal(literals, x.uri),
    ensures
        from_literals(insert_source(s, x), literals),
    decreases s.len(),
{
    if s.len() > 0 && text_lt(x.uri, s.last().uri) {
        assert(from_literals(s.drop_last(), literals)) by {
            assert forall|k: int| 0 <= k < s.drop_last().len() implies is_literal(
                literals,
                (#[trigger] s.drop_last()[k]).uri,
            ) by {
                assert(s[k] == s.drop_last()[k]);
            }
        }
        insert_keeps(s.drop_last(), x, literals);
        assert(is_literal(literals, s[s.len() - 1].uri));
    }
}

proof fn by_uri_keeps(s: Seq<SourceView>, literals: Seq<LiteralView>)
    requires
        from_literals(s, literals),
    ensures
        from_literals(by_uri(s), literals),
    decreases s.len(),
{
    if s.len() > 0 {
        assert forall|k: int| 0 <= k < s.drop_last().len() implies is_literal(
            literals,
            (#[trigger] s.drop_last()[k]).uri,
        ) by {
            assert(s[k] == s.drop_last()[k]);
        }
        by_uri_keeps(s.drop_last(), literals);
        assert(is_literal(literals, s[s.len() - 1].uri));
        insert_keeps(by_uri(s.drop_last()), s.last(), literals);
    }
}

proof fn repeats_keep(s: Seq<SourceView>, literals: Seq<LiteralView>)
    requires
        from_literals(s, literals),
    ensures
        from_literals(without_repeats(s), literals),
    decreases s.len(),
{
    if s.len() > 0 {
        assert forall|k: int| 0 <= k < s.drop_last().len() implies is_literal(
            literals,
            (#[trigger] s.drop_last()[k]).uri,
        ) by {
            assert(s[k] == s.drop_last()[k]);
        }
        repeats_keep(s.drop_last(), literals);
        assert(is_literal(literals, s[s.len() - 1].uri));
    }
}

/// The order in which kinds of sources are looked for.
spec fn stage(kind: SourceKind) -> int {
    match kind {
        SourceKind::Delta => 0,
        SourceKind::Iceberg => 1,
        _ => 2,
    }
}

/// Whether sources are of kinds up to a stage, and objects and patterns told apart.
spec fn up_to_stage(s: Seq<SourceView>, top: int) -> bool {
    forall|k: int|
        0 <= k < s.len() ==> stage((#[trigger] s[k]).kind) <= top && (stage(s[k].kind) == 2
            ==> s[k].kind == object_or_glob(s[k].uri))
}

/// Whether sources stand in the order in which their kinds are looked for.
spec fn in_stages(s: Seq<SourceView>) -> bool {
    forall|i: int, j: int|
        0 <= i < j < s.len() ==> stage((#[trigger] s[i]).kind) <= stage((#[trigger] s[j]).kind)
}

proof fn gathered_in_stages(
    g: Gathered,
    s: Seq<char>,
    literals: Seq<LiteralView>,
    table: Option<SourceKind>,
    calls: Seq<int>,
)
    requires
        table is Some ==> table->0 == SourceKind::Delta || table->0 == SourceKind::Iceberg,
        in_stages(g.sources),
        up_to_stage(g.sources, if table is Some { stage(table->0) } else { 2 }),
    ensures
        in_stages(gather_calls(g, s, literals, table, calls).sources),
        up_to_stage(
            gather_calls(g, s, literals, table, calls).sources,
            if table is Some { stage(table->0) } else { 2 },
        ),
    decreases calls.len(),
{
    if calls.len() > 0 {
        gathered_in_stages(g, s, literals, table, calls.drop_last());
    }
}

proof fn bare_in_stages(g: Gathered, literals: Seq<LiteralView>, n: nat)
    requires
        in_stages(g.sources),
        up_to_stage(g.sources, 2),
    ensures
        in_stages(gather_bare(g, literals, n)),
        up_to_stage(gather_bare(g, literals, n), 2),
    decreases n,
{
    if n > 0 {
        bare_in_stages(g, literals, (n - 1) as nat);
    }
}

/// By URI, and for the same URI by stage.
spec fn in_order(a: SourceView, b: SourceView) -> bool {
    text_lt(a.uri, b.uri) || (a.uri == b.uri && stage(a.kind) <= stage(b.kind))
}

proof fn in_order_transitive(a: SourceView, b: SourceView, c: SourceView)
    requires
        in_order(a, b),
        in_order(b, c),
    ensures
        in_order(a, c),
{
    if text_lt(a.uri, b.uri) && text_lt(b.uri, c.uri) {
        text_lt_transitive(a.uri, b.uri, c.uri);
    }
}

spec fn ordered(s: Seq<SourceView>) -> bool {
    forall|i: int, j: int| 0 <= i < j < s.len() ==> in_order(#[trigger] s[i], #[trigger] s[j])
}

spec fn all_before(s: Seq<SourceView>, x: SourceView) -> bool {
    forall|k: int| 0 <= k < s.len() ==> in_order(#[trigger] s[k], x)
}

proof fn insert_stays_before(s: Seq<SourceView>, x: SourceView, y: SourceView)
    requires
        all_before(s, y),
        in_order(x, y),
    ensures
        all_before(insert_source(s, x), y),
    decreases s.len(),
{
    if s.len() > 0 && text_lt(x.uri, s.last().uri) {
        insert_stays_before(s.drop_last(), x, y);
        assert(in_order(s[s.len() - 1], y));
    }
}

proof fn insert_stays_in_stage(s: Seq<SourceView>, x: SourceView, top: int)
    requires
        up_to_stage(s, top),
        up_to_stage(seq![x], top),
    ensures
        up_to_stage(insert_source(s, x), top),
    decreases s.len(),
{
    assert(seq![x][0] == x);
    if s.len() > 0 && text_lt(x.uri, s.last().uri) {
        insert_stays_in_stage(s.drop_last(), x, top);
        assert(s[s.len() - 1] == s.last());
    }
}

proof fn insert_ordered(s: Seq<SourceView>, x: SourceView)
    requires
        ordered(s),
        up_to_stage(s, stage(x.kind)),
    ensures
        ordered(insert_source(s, x)),
    decreases s.len(),
{
    if s.len() > 0 {
        let last = s.last();
        if text_lt(x.uri, last.uri) {
            insert_ordered(s.drop_last(), x);
            assert forall|k: int| 0 <= k < s.drop_last().len() implies in_order(
                #[trigger] s.drop_last()[k],
                last,
            ) by {
                assert(in_order(s[k], s[s.len() - 1]));
            }
            insert_stays_before(s.drop_last(), x, last);
        } else {
            text_lt_total(x.uri, last.uri);
            assert(in_order(s[s.len() - 1], x));
            assert forall|k: int| 0 <= k < s.len() implies in_order(#[trigger] s[k], x) by {
                if k < s.len() - 1 {
                    assert(in_order(s[k], s[s.len() - 1]));
                    in_order_transitive(s[k], last, x);
                }
            }
        }
    }
}

proof fn by_uri_ordered(s: Seq<SourceView>, top: int)
    requires
        in_stages(s),
        up_to_stage(s, top),
    ensures
        ordered(by_uri(s)),
        up_to_stage(by_uri(s), top),
    decreases s.len(),
{
    if s.len() > 0 {
        let x = s.last();
        let rest = s.drop_last();
        assert(s[s.len() - 1] == x);
        assert(up_to_stage(seq![x], top));
        assert forall|k: int| 0 <= k < rest.len() implies stage((#[trigger] rest[k]).kind) <= stage(
            x.kind,
        ) && (stage(rest[k].kind) == 2 ==> rest[k].kind == object_or_glob(rest[k].uri)) by {
            assert(rest[k] == s[k]);
            assert(stage(s[k].kind) <= stage(s[s.len() - 1].kind));
        }
        by_uri_ordered(rest, stage(x.kind));
        insert_ordered(by_uri(rest), x);
        insert_stays_in_stage(by_uri(rest), x, stage(x.kind));
    }
}

spec fn distinct_sources(s: Seq<SourceView>) -> bool {
    forall|i: int, j: int| 0 <= i < j < s.len() ==> #[trigger] s[i] != #[trigger] s[j]
}

proof fn repeats_are_gone(s: Seq<SourceView>)
    requires
        ordered(s),
        up_to_stage(s, 2),
    ensures
        ({
            let t = without_repeats(s);
            &&& ordered(t)
            &&& up_to_stage(t, 2)
            &&& distinct_sources(t)
            &&& s.len() > 0 ==> t.len() > 0 && t.last() == s.last()
        }),
    decreases s.len(),
{
    if s.len() > 0 {
        let rest = s.drop_last();
        let z = s.last();
        assert(s[s.len() - 1] == z);
        repeats_are_gone(rest);
        if s.len() > 1 {
            let prev = s[s.len() - 2];
            let t = without_repeats(rest);
            assert(rest.last() == prev);
            if z != prev {
                assert(in_order(prev, z));
                assert forall|k: int| 0 <= k < t.len() implies in_order(#[trigger] t[k], z) && t[k]
                    != z by {
                    assert(t[t.len() - 1] == prev);
                    if k < t.len() - 1 {
                        assert(in_order(t[k], t[t.len() - 1]));
                        in_order_transitive(t[k], prev, z);
                        if t[k] == z {
                            text_lt_total(z.uri, prev.uri);
                            assert(prev.kind == z.kind);
                        }
                    }
                }
            }
        }
    }
}

proof fn sources_in_order(s: Seq<char>)
    ensures
        ordered(sources_of(s)),
        up_to_stage(sources_of(s), 2),
        distinct_sources(sources_of(s)),
{
    let lits = literals_from(s, 0);
    let none = Gathered {
        sources: Seq::empty(),
        claimed: Seq::new(lits.len(), |i: int| false),
        dynamic: false,
    };
    let a = gather_reader(none, s, Some(SourceKind::Delta), "delta_scan"@);
    let b = gather_reader(a, s, Some(SourceKind::Iceberg), "iceberg_scan"@);
    let c = gather_reader(b, s, None, "read_parquet"@);
    let d = gather_reader(c, s, None, "read_csv_auto"@);
    let e = gather_reader(d, s, None, "read_csv"@);
    let f = gather_reader(e, s, None, "read_json_auto"@);
    let g = gather_reader(f, s, None, "read_json"@);
    let h = gather_reader(g, s, None, "read_ndjson"@);
    let i9 = gather_reader(h, s, None, "read_ndjson_auto"@);
    gathered_in_stages(none, s, lits, Some(SourceKind::Delta), calls_from(ascii_lower_seq(s), "delta_scan"@, 0));
    gathered_in_stages(a, s, lits, Some(SourceKind::Iceberg), calls_from(ascii_lower_seq(s), "iceberg_scan"@, 0));
    gathered_in_stages(b, s, lits, None, calls_from(ascii_lower_seq(s), "read_parquet"@, 0));
    gathered_in_stages(c, s, lits, None, calls_from(ascii_lower_seq(s), "read_csv_auto"@, 0));
    gathered_in_stages(d, s, lits, None, calls_from(ascii_lower_seq(s), "read_csv"@, 0));
    gathered_in_stages(e, s, lits, None, calls_from(ascii_lower_seq(s), "read_json_auto"@, 0));
    gathered_in_stages(f, s, lits, None, calls_from(ascii_lower_seq(s), "read_json"@, 0));
    gathered_in_stages(g, s, lits, None, calls_from(ascii_lower_seq(s), "read_ndjson"@, 0));
    gathered_in_stages(h, s, lits, None, calls_from(ascii_lower_seq(s), "read_ndjson_auto"@, 0));
    gathered_in_stages(i9, s, lits, None, calls_from(ascii_lower_seq(s), "parquet_scan"@, 0));
    let raw = gather_bare(gather_all(s), lits, lits.len());
    bare_in_stages(gather_all(s), lits, lits.len());
    by_uri_ordered(raw, 2);
    repeats_are_gone(by_uri(raw));
}

/// The sources of a query come by URI, whatever the order in which it names them, and
/// none comes twice.
pub proof fn sources_are_sorted_and_distinct(s: Seq<char>, i: int, j: int)
    requires
        0 <= i < j < sources_of(s).len(),
    ensures
        !text_lt(sources_of(s)[j].uri, sources_of(s)[i].uri),
        sources_of(s)[i] != sources_of(s)[j],
{
    sources_in_order(s);
    let a = sources_of(s)[i];
    let b = sources_of(s)[j];
    assert(in_order(a, b));
    text_lt_total(a.uri, b.uri);
}

/// Only a pattern is taken for several objects, and no single object is one.
pub proof fn globs_are_patterns(s: Seq<char>, k: int)
    requires
        0 <= k < sources_of(s).len(),
    ensures
        sources_of(s)[k].kind == SourceKind::Glob ==> glob_text(sources_of(s)[k].uri),
        sources_of(s)[k].kind == SourceKind::Object ==> !glob_text(sources_of(s)[k].uri),
{
    sources_in_order(s);
    assert(up_to_stage(sources_of(s), 2));
}

proof fn pushed(s: Seq<SourceView>, x: SourceView, y: SourceView)
    ensures
        s.push(x).contains(y) == (s.contains(y) || x == y),
{
    let t = s.push(x);
    if s.contains(y) {
        let k = choose|k: int| 0 <= k < s.len() && s[k] == y;
        assert(t[k] == y);
    }
    if x == y {
        assert(t[s.len() as int] == y);
    }
    if t.contains(y) {
        let k = choose|k: int| 0 <= k < t.len() && t[k] == y;
        if k < s.len() {
            assert(s[k] == y);
        }
    }
}

proof fn split_last(s: Seq<SourceView>, y: SourceView)
    requires
        s.len() > 0,
    ensures
        s.contains(y) == (s.drop_last().contains(y) || s.last() == y),
{
    pushed(s.drop_last(), s.last(), y);
    assert(s.drop_last().push(s.last()) =~= s);
}

proof fn insert_members(s: Seq<SourceView>, x: SourceView, y: SourceView)
    ensures
        insert_source(s, x).contains(y) == (s.contains(y) || x == y),
    decreases s.len(),
{
    pushed(s, x, y);
    if s.len() > 0 && text_lt(x.uri, s.last().uri) {
        insert_members(s.drop_last(), x, y);
        pushed(insert_source(s.drop_last(), x), s.last(), y);
        split_last(s, y);
    }
}

proof fn ordered_members(s: Seq<SourceView>, y: SourceView)
    ensures
        by_uri(s).contains(y) == s.contains(y),
    decreases s.len(),
{
    if s.len() > 0 {
        ordered_members(s.drop_last(), y);
        insert_members(by_uri(s.drop_last()), s.last(), y);
        split_last(s, y);
    }
}

proof fn distinct_members(s: Seq<SourceView>, y: SourceView)
    ensures
        without_repeats(s).contains(y) == s.contains(y),
    decreases s.len(),
{
    if s.len() > 0 {
        distinct_members(s.drop_last(), y);
        split_last(s, y);
        pushed(without_repeats(s.drop_last()), s.last(), y);
        if s.len() > 1 && s.last() == s[s.len() - 2] {
            assert(s.drop_last()[s.len() - 2] == s.last());
        }
    }
}

spec fn has_uri(sources: Seq<SourceView>, uri: Seq<char>) -> bool {
    exists|x: SourceView| #[trigger] sources.contains(x) && x.uri == uri
}

spec fn claims_are_sources(g: Gathered, literals: Seq<LiteralView>) -> bool {
    &&& g.claimed.len() == literals.len()
    &&& forall|i: int|
        0 <= i < literals.len() && #[trigger] g.claimed[i] ==> has_uri(g.sources, literals[i].value)
}

/// Whether a call at `call` names `x`.
spec fn call_names(
    s: Seq<char>,
    literals: Seq<LiteralView>,
    table: Option<SourceKind>,
    call: int,
    x: SourceView,
) -> bool {
    &&& argument_literal(s, literals, call) is Some
    &&& x.uri == literals[argument_literal(s, literals, call)->0].value
    &&& x.kind == (match table {
        Some(kind) => kind,
        None => object_or_glob(x.uri),
    })
}

spec fn gathers(
    g: Gathered,
    t: Gathered,
    s: Seq<char>,
    literals: Seq<LiteralView>,
    table: Option<SourceKind>,
    calls: Seq<int>,
) -> bool {
    &&& claims_are_sources(t, literals)
    &&& forall|x: SourceView| #[trigger] g.sources.contains(x) ==> t.sources.contains(x)
    &&& g.dynamic ==> t.dynamic
    &&& forall|q: int|
        0 <= q < calls.len() ==> (match argument_literal(s, literals, #[trigger] calls[q]) {
            None => t.dynamic,
            Some(i) => has_uri(t.sources, literals[i].value) && (table is Some
                ==> t.sources.contains(SourceView { uri: literals[i].value, kind: table->0 })),
        })
    &&& forall|x: SourceView| #[trigger]
        t.sources.contains(x) ==> g.sources.contains(x) || exists|q: int|
            0 <= q < calls.len() && call_names(s, literals, table, #[trigger] calls[q], x)
    &&& t.dynamic ==> g.dynamic || exists|q: int|
        0 <= q < calls.len() && argument_literal(s, literals, #[trigger] calls[q]) is None
}

proof fn uri_stays(a: Seq<SourceView>, b: Seq<SourceView>, uri: Seq<char>)
    requires
        has_uri(a, uri),
        forall|x: SourceView| #[trigger] a.contains(x) ==> b.contains(x),
    ensures
        has_uri(b, uri),
{
    let x = choose|x: SourceView| #[trigger] a.contains(x) && x.uri == uri;
    assert(b.contains(x));
}

proof fn calls_are_gathered(
    g: Gathered,
    s: Seq<char>,
    literals: Seq<LiteralView>,
    table: Option<SourceKind>,
    calls: Seq<int>,
)
    requires
        claims_are_sources(g, literals),
    ensures
        gathers(g, gather_calls(g, s, literals, table, calls), s, literals, table, calls),
    decreases calls.len(),
{
    if calls.len() > 0 {
        let before = calls.drop_last();
        let call = calls.last();
        let h = gather_calls(g, s, literals, table, before);
        let t = gather_calls(g, s, literals, table, calls);
        calls_are_gathered(g, s, literals, table, before);
        literal_found(literals, call, 0);
        assert(calls[calls.len() - 1] == call);
        let arg = argument_literal(s, literals, call);
        let x = SourceView {
            uri: literals[arg->0].value,
            kind: match table {
                Some(kind) => kind,
                None => object_or_glob(literals[arg->0].value),
            },
        };
        let adds = arg is Some && (table is Some || !h.claimed[arg->0]);
        assert(adds ==> t.sources == h.sources.push(x));
        assert(!adds ==> t.sources == h.sources);
        assert forall|y: SourceView| #[trigger] t.sources.contains(y) == (h.sources.contains(y) || (
        adds && y == x)) by {
            pushed(h.sources, x, y);
        }
        assert forall|y: SourceView| #[trigger] h.sources.contains(y) implies t.sources.contains(
            y,
        ) by {
            assert(t.sources.contains(y) == (h.sources.contains(y) || (adds && y == x)));
        }
        assert(adds ==> t.sources.contains(x));
        assert forall|y: SourceView| #[trigger] g.sources.contains(y) implies t.sources.contains(
            y,
        ) by {
            assert(h.sources.contains(y));
        }
        assert forall|i: int| 0 <= i < literals.len() && #[trigger] t.claimed[i] implies has_uri(
            t.sources,
            literals[i].value,
        ) by {
            if h.claimed[i] {
                uri_stays(h.sources, t.sources, literals[i].value);
            } else {
                assert(t.sources.contains(x));
            }
        }
        assert forall|q: int| 0 <= q < calls.len() implies (match argument_literal(
            s,
            literals,
            #[trigger] calls[q],
        ) {
            None => t.dynamic,
            Some(i) => has_uri(t.sources, literals[i].value) && (table is Some
                ==> t.sources.contains(SourceView { uri: literals[i].value, kind: table->0 })),
        }) by {
            if q < before.len() {
                assert(before[q] == calls[q]);
                let a = argument_literal(s, literals, before[q]);
                if a is Some {
                    uri_stays(h.sources, t.sources, literals[a->0].value);
                }
            } else if arg is Some {
                if adds {
                    assert(t.sources.contains(x));
                } else {
                    uri_stays(h.sources, t.sources, literals[arg->0].value);
                }
            }
        }
        assert forall|y: SourceView| #[trigger] t.sources.contains(y) implies g.sources.contains(y)
            || exists|q: int|
            0 <= q < calls.len() && call_names(s, literals, table, #[trigger] calls[q], y) by {
            if h.sources.contains(y) {
                if !g.sources.contains(y) {
                    let q = choose|q: int|
                        0 <= q < before.len() && call_names(
                            s,
                            literals,
                            table,
                            #[trigger] before[q],
                            y,
                        );
                    assert(calls[q] == before[q]);
                }
            } else {
                assert(call_names(s, literals, table, calls[calls.len() - 1], y));
            }
        }
        if t.dynamic && !g.dynamic {
            if h.dynamic {
                let q = choose|q: int|
                    0 <= q < before.len() && argument_literal(
                        s,
                        literals,
                        #[trigger] before[q],
                    ) is None;
                assert(calls[q] == before[q]);
            } else {
                assert(argument_literal(s, literals, calls[calls.len() - 1]) is None);
            }
        }
    }
}

proof fn bare_members(g: Gathered, literals: Seq<LiteralView>, n: nat, x: SourceView)
    requires
        n <= literals.len(),
        g.claimed.len() == literals.len(),
    ensures
        gather_bare(g, literals, n).contains(x) == (g.sources.contains(x) || exists|i: int|
            0 <= i < n && !(#[trigger] g.claimed[i]) && object_text(ascii_lower_seq(x.uri))
                && x.uri == literals[i].value && x.kind == object_or_glob(x.uri)),
    decreases n,
{
    if n > 0 {
        bare_members(g, literals, (n - 1) as nat, x);
        let uri = literals[n - 1].value;
        let rest = gather_bare(g, literals, (n - 1) as nat);
        pushed(rest, SourceView { uri, kind: object_or_glob(uri) }, x);
        assert(g.claimed[n - 1] == g.claimed[n - 1]);
    }
}

/// The readers of files and objects.
pub open spec fn plain_reader(name: Seq<char>) -> bool {
    name == "read_parquet"@ || name == "read_csv_auto"@ || name == "read_csv"@ || name
        == "read_json_auto"@ || name == "read_json"@ || name == "read_ndjson"@ || name
        == "read_ndjson_auto"@ || name == "parquet_scan"@
}

/// The kind of table that a table reader names.
pub open spec fn table_reader(name: Seq<char>) -> Option<SourceKind> {
    if name == "delta_scan"@ {
        Some(SourceKind::Delta)
    } else if name == "iceberg_scan"@ {
        Some(SourceKind::Iceberg)
    } else {
        None
    }
}

/// Whether a reader is called, and its argument begins just behind `call`.
pub open spec fn reads_at(s: Seq<char>, name: Seq<char>, call: int) -> bool {
    (plain_reader(name) || table_reader(name) is Some) && calls_from(
        ascii_lower_seq(s),
        name,
        0,
    ).contains(call)
}

/// What holds of everything that the readers gathered, step by step.
spec fn all_gathered(t: Gathered, s: Seq<char>, names: Seq<Seq<char>>) -> bool {
    let lits = literals_from(s, 0);
    &&& claims_are_sources(t, lits)
    &&& forall|n: int, call: int|
        0 <= n < names.len() && #[trigger] calls_from(
            ascii_lower_seq(s),
            #[trigger] names[n],
            0,
        ).contains(call) ==> (match argument_literal(s, lits, call) {
            None => t.dynamic,
            Some(i) => has_uri(t.sources, lits[i].value) && (table_reader(names[n]) is Some
                ==> t.sources.contains(
                SourceView { uri: lits[i].value, kind: table_reader(names[n])->0 },
            )),
        })
    &&& forall|x: SourceView| #[trigger]
        t.sources.contains(x) ==> exists|n: int, call: int|
            0 <= n < names.len() && #[trigger] calls_from(
                ascii_lower_seq(s),
                #[trigger] names[n],
                0,
            ).contains(call) && call_names(s, lits, table_reader(names[n]), call, x)
    &&& t.dynamic ==> exists|n: int, call: int|
        0 <= n < names.len() && #[trigger] calls_from(
            ascii_lower_seq(s),
            #[trigger] names[n],
            0,
        ).contains(call) && argument_literal(s, lits, call) is None
}

proof fn one_more_reader(g: Gathered, s: Seq<char>, names: Seq<Seq<char>>, name: Seq<char>)
    requires
        all_gathered(g, s, names),
    ensures
        all_gathered(gather_reader(g, s, table_reader(name), name), s, names.push(name)),
{
    let lits = literals_from(s, 0);
    let lower = ascii_lower_seq(s);
    let calls = calls_from(lower, name, 0);
    let t = gather_reader(g, s, table_reader(name), name);
    let more = names.push(name);
    calls_are_gathered(g, s, lits, table_reader(name), calls);
    assert forall|n: int, call: int|
        0 <= n < more.len() && #[trigger] calls_from(lower, #[trigger] more[n], 0).contains(
            call,
        ) implies (match argument_literal(s, lits, call) {
        None => t.dynamic,
        Some(i) => has_uri(t.sources, lits[i].value) && (table_reader(more[n]) is Some
            ==> t.sources.contains(
            SourceView { uri: lits[i].value, kind: table_reader(more[n])->0 },
        )),
    }) by {
        let arg = argument_literal(s, lits, call);
        if n < names.len() {
            assert(names[n] == more[n]);
            assert(calls_from(lower, names[n], 0).contains(call));
            if arg is Some {
                uri_stays(g.sources, t.sources, lits[arg->0].value);
            }
        } else {
            let q = choose|q: int| 0 <= q < calls.len() && calls[q] == call;
            assert(calls[q] == call);
        }
    }
    assert forall|x: SourceView| #[trigger] t.sources.contains(x) implies exists|
        n: int,
        call: int,
    |
        0 <= n < more.len() && #[trigger] calls_from(lower, #[trigger] more[n], 0).contains(call)
            && call_names(s, lits, table_reader(more[n]), call, x) by {
        if g.sources.contains(x) {
            let (n, call) = choose|n: int, call: int|
                0 <= n < names.len() && #[trigger] calls_from(
                    lower,
                    #[trigger] names[n],
                    0,
                ).contains(call) && call_names(s, lits, table_reader(names[n]), call, x);
            assert(more[n] == names[n]);
            assert(calls_from(lower, more[n], 0).contains(call));
        } else {
            let q = choose|q: int|
                0 <= q < calls.len() && call_names(
                    s,
                    lits,
                    table_reader(name),
                    #[trigger] calls[q],
                    x,
                );
            assert(more[names.len() as int] == name);
            assert(calls_from(lower, more[names.len() as int], 0).contains(calls[q]));
        }
    }
    if t.dynamic {
        if g.dynamic {
            let (n, call) = choose|n: int, call: int|
                0 <= n < names.len() && #[trigger] calls_from(
                    lower,
                    #[trigger] names[n],
                    0,
                ).contains(call) && argument_literal(s, lits, call) is None;
            assert(more[n] == names[n]);
            assert(calls_from(lower, more[n], 0).contains(call));
        } else {
            let q = choose|q: int|
                0 <= q < calls.len() && argument_literal(s, lits, #[trigger] calls[q]) is None;
            assert(more[names.len() as int] == name);
            assert(calls_from(lower, more[names.len() as int], 0).contains(calls[q]));
        }
    }
}

spec fn reader_names() -> Seq<Seq<char>> {
    Seq::<Seq<char>>::empty().push("delta_scan"@).push("iceberg_scan"@).push("read_parquet"@).push(
        "read_csv_auto"@,
    ).push("read_csv"@).push("read_json_auto"@).push("read_json"@).push("read_ndjson"@).push(
        "read_ndjson_auto"@,
    ).push("parquet_scan"@)
}

proof fn readers_differ()
    ensures
        "delta_scan"@ != "iceberg_scan"@,
        forall|name: Seq<char>| #[trigger] plain_reader(name) ==> table_reader(name) is None,
        plain_reader("read_parquet"@),
        plain_reader("read_csv_auto"@),
        plain_reader("read_csv"@),
        plain_reader("read_json_auto"@),
        plain_reader("read_json"@),
        plain_reader("read_ndjson"@),
        plain_reader("read_ndjson_auto"@),
        plain_reader("parquet_scan"@),
{
    reveal_strlit("delta_scan");
    reveal_strlit("iceberg_scan");
    reveal_strlit("read_parquet");
    reveal_strlit("read_csv_auto");
    reveal_strlit("read_csv");
    reveal_strlit("read_json_auto");
    reveal_strlit("read_json");
    reveal_strlit("read_ndjson");
    reveal_strlit("read_ndjson_auto");
    reveal_strlit("parquet_scan");
    assert("delta_scan"@[0] == 'd');
    assert("iceberg_scan"@[0] == 'i');
    assert("read_parquet"@[0] == 'r');
    assert("read_csv_auto"@[0] == 'r');
    assert("read_csv"@[0] == 'r');
    assert("read_json_auto"@[0] == 'r');
    assert("read_json"@[0] == 'r');
    assert("read_ndjson"@[0] == 'r');
    assert("read_ndjson_auto"@[0] == 'r');
    assert("parquet_scan"@[0] == 'p');
}

proof fn all_readers_gather(s: Seq<char>)
    ensures
        all_gathered(gather_all(s), s, reader_names()),
{
    let lits = literals_from(s, 0);
    let none = Gathered {
        sources: Seq::empty(),
        claimed: Seq::new(lits.len(), |i: int| false),
        dynamic: false,
    };
    readers_differ();
    let n0 = Seq::<Seq<char>>::empty();
    assert(all_gathered(none, s, n0));
    let a = gather_reader(none, s, Some(SourceKind::Delta), "delta_scan"@);
    one_more_reader(none, s, n0, "delta_scan"@);
    let n1 = n0.push("delta_scan"@);
    let b = gather_reader(a, s, Some(SourceKind::Iceberg), "iceberg_scan"@);
    one_more_reader(a, s, n1, "iceberg_scan"@);
    let n2 = n1.push("iceberg_scan"@);
    let c = gather_reader(b, s, None, "read_parquet"@);
    one_more_reader(b, s, n2, "read_parquet"@);
    let n3 = n2.push("read_parquet"@);
    let d = gather_reader(c, s, None, "read_csv_auto"@);
    one_more_reader(c, s, n3, "read_csv_auto"@);
    let n4 = n3.push("read_csv_auto"@);
    let e = gather_reader(d, s, None, "read_csv"@);
    one_more_reader(d, s, n4, "read_csv"@);
    let n5 = n4.push("read_csv"@);
    let f = gather_reader(e, s, None, "read_json_auto"@);
    one_more_reader(e, s, n5, "read_json_auto"@);
    let n6 = n5.push("read_json_auto"@);
    let g = gather_reader(f, s, None, "read_json"@);
    one_more_reader(f, s, n6, "read_json"@);
    let n7 = n6.push("read_json"@);
    let h = gather_reader(g, s, None, "read_ndjson"@);
    one_more_reader(g, s, n7, "read_ndjson"@);
    let n8 = n7.push("read_ndjson"@);
    let i9 = gather_reader(h, s, None, "read_ndjson_auto"@);
    one_more_reader(h, s, n8, "read_ndjson_auto"@);
    let n9 = n8.push("read_ndjson_auto"@);
    one_more_reader(i9, s, n9, "parquet_scan"@);
}

proof fn source_members(s: Seq<char>, x: SourceView)
    ensures
        sources_of(s).contains(x) == gather_bare(
            gather_all(s),
            literals_from(s, 0),
            literals_from(s, 0).len(),
        ).contains(x),
{
    let raw = gather_bare(gather_all(s), literals_from(s, 0), literals_from(s, 0).len());
    ordered_members(raw, x);
    distinct_members(by_uri(raw), x);
}

proof fn a_reader_is_listed(name: Seq<char>) -> (n: int)
    requires
        plain_reader(name) || table_reader(name) is Some,
    ensures
        0 <= n < reader_names().len(),
        reader_names()[n] == name,
{
    let names = reader_names();
    assert(names.len() == 10);
    assert(names[0] == "delta_scan"@);
    assert(names[1] == "iceberg_scan"@);
    assert(names[2] == "read_parquet"@);
    assert(names[3] == "read_csv_auto"@);
    assert(names[4] == "read_csv"@);
    assert(names[5] == "read_json_auto"@);
    assert(names[6] == "read_json"@);
    assert(names[7] == "read_ndjson"@);
    assert(names[8] == "read_ndjson_auto"@);
    assert(names[9] == "parquet_scan"@);
    if name == "delta_scan"@ {
        0
    } else if name == "iceberg_scan"@ {
        1
    } else if name == "read_parquet"@ {
        2
    } else if name == "read_csv_auto"@ {
        3
    } else if name == "read_csv"@ {
        4
    } else if name == "read_json_auto"@ {
        5
    } else if name == "read_json"@ {
        6
    } else if name == "read_ndjson"@ {
        7
    } else if name == "read_ndjson_auto"@ {
        8
    } else {
        9
    }
}

proof fn the_listed_are_readers(n: int)
    requires
        0 <= n < reader_names().len(),
    ensures
        plain_reader(reader_names()[n]) || table_reader(reader_names()[n]) is Some,
{
    readers_differ();
    let names = reader_names();
    assert(names.len() == 10);
    assert(n == 0 || n == 1 || n == 2 || n == 3 || n == 4 || n == 5 || n == 6 || n == 7 || n == 8
        || n == 9);
}

/// A reader whose argument is a literal reads the object that it names, or the table;
/// any other argument makes the query's inputs dynamic.
pub proof fn readers_name_their_sources(s: Seq<char>, name: Seq<char>, call: int)
    requires
        reads_at(s, name, call),
    ensures
        match argument_literal(s, literals_from(s, 0), call) {
            None => gather_all(s).dynamic,
            Some(i) => {
                let uri = literals_from(s, 0)[i].value;
                &&& exists|k: int|
                    0 <= k < sources_of(s).len() && (#[trigger] sources_of(s)[k]).uri == uri
                &&& name == "delta_scan"@ ==> sources_of(s).contains(
                    SourceView { uri, kind: SourceKind::Delta },
                )
                &&& name == "iceberg_scan"@ ==> sources_of(s).contains(
                    SourceView { uri, kind: SourceKind::Iceberg },
                )
            },
        },
{
    let lits = literals_from(s, 0);
    let g = gather_all(s);
    all_readers_gather(s);
    readers_differ();
    let n = a_reader_is_listed(name);
    assert(calls_from(ascii_lower_seq(s), reader_names()[n], 0).contains(call));
    let arg = argument_literal(s, lits, call);
    if arg is Some {
        let uri = lits[arg->0].value;
        let x = choose|x: SourceView| #[trigger] g.sources.contains(x) && x.uri == uri;
        assert(g.sources.contains(x) && x.uri == uri);
        bare_members(g, lits, lits.len(), x);
        source_members(s, x);
        let k = choose|k: int| 0 <= k < sources_of(s).len() && sources_of(s)[k] == x;
        assert(sources_of(s)[k].uri == uri);
        if table_reader(name) is Some {
            let y = SourceView { uri, kind: table_reader(name)->0 };
            bare_members(g, lits, lits.len(), y);
            source_members(s, y);
        }
    }
}

/// The inputs of a query are dynamic only by a reader whose argument is no literal.
pub proof fn only_readers_are_dynamic(s: Seq<char>)
    requires
        gather_all(s).dynamic,
    ensures
        exists|name: Seq<char>, call: int| #[trigger]
            reads_at(s, name, call) && argument_literal(s, literals_from(s, 0), call) is None,
{
    all_readers_gather(s);
    let (n, call) = choose|n: int, call: int|
        0 <= n < reader_names().len() && #[trigger] calls_from(
            ascii_lower_seq(s),
            #[trigger] reader_names()[n],
            0,
        ).contains(call) && argument_literal(s, literals_from(s, 0), call) is None;
    the_listed_are_readers(n);
    assert(reads_at(s, reader_names()[n], call));
}

/// Whether `t` ends in `p`.
pub open spec fn has_tail(t: Seq<char>, p: Seq<char>) -> bool {
    t.len() >= p.len() && forall|k: int|
        0 <= k < p.len() ==> #[trigger] p[k] == t[t.len() - p.len() + k]
}

/// Whether `t` begins with `p`.
pub open spec fn has_head(t: Seq<char>, p: Seq<char>) -> bool {
    t.len() >= p.len() && forall|k: int| 0 <= k < p.len() ==> #[trigger] p[k] == t[k]
}

/// Whether `p` stands anywhere in `t`.
pub open spec fn stands_in(t: Seq<char>, p: Seq<char>) -> bool {
    exists|i: int| 0 <= i <= t.len() && #[trigger] has_head(t.skip(i), p)
}

/// Whether a text in lower case names an object of a store, a file that data is kept in,
/// or several of those.
pub open spec fn names_an_object(t: Seq<char>) -> bool {
    ||| has_head(t, "s3://"@)
    ||| has_head(t, "gs://"@)
    ||| has_head(t, "gcs://"@)
    ||| has_head(t, "az://"@)
    ||| has_head(t, "abfss://"@)
    ||| has_head(t, "azure://"@)
    ||| has_head(t, "https://"@)
    ||| has_head(t, "http://"@)
    ||| has_head(t, "file://"@)
    ||| has_tail(t, ".parquet"@)
    ||| has_tail(t, ".csv"@)
    ||| has_tail(t, ".json"@)
    ||| has_tail(t, ".ndjson"@)
    ||| has_tail(t, ".tsv"@)
    ||| (holds_wildcard(t) && (stands_in(t, "parquet"@) || stands_in(t, "csv"@) || stands_in(
        t,
        "json"@,
    ) || stands_in(t, "tsv"@)))
}

/// Whether `*`, `?` or `[` stands in a text.
pub open spec fn holds_wildcard(t: Seq<char>) -> bool {
    exists|i: int|
        0 <= i < t.len() && ((#[trigger] t[i]) == '*' || t[i] == '?' || t[i] == '[')
}

/// Whether two texts differ in nothing but that one has no upper-case letter of ASCII.
pub open spec fn lowered(t: Seq<char>, lower: Seq<char>) -> bool {
    t.len() == lower.len() && forall|k: int|
        0 <= k < t.len() ==> #[trigger] lower[k] == (if 'A' <= t[k] && t[k] <= 'Z' {
            ((t[k] as u8 + 32) as u8) as char
        } else {
            t[k]
        })
}

pub(crate) proof fn head_is_start(t: Seq<char>, p: Seq<char>)
    ensures
        has_head(t, p) == starts_with_seq(t, p),
{
    if starts_with_seq(t, p) {
        assert forall|k: int| 0 <= k < p.len() implies #[trigger] p[k] == t[k] by {
            assert(t.subrange(0, p.len() as int)[k] == t[k]);
        }
    }
    if has_head(t, p) {
        assert(t.subrange(0, p.len() as int) =~= p);
    }
}

proof fn tail_is_end(t: Seq<char>, p: Seq<char>)
    ensures
        has_tail(t, p) == ends_with_seq(t, p),
{
    let d = t.len() - p.len();
    if ends_with_seq(t, p) {
        assert forall|k: int| 0 <= k < p.len() implies #[trigger] p[k] == t[t.len() - p.len()
            + k] by {
            assert(t.subrange(d, d + p.len())[k] == t[d + k]);
        }
    }
    if has_tail(t, p) {
        assert(t.subrange(d, d + p.len()) =~= p);
    }
}

pub(crate) proof fn wildcard_is_glob(t: Seq<char>)
    ensures
        holds_wildcard(t) == glob_text(t),
{
    reveal_strlit("*");
    reveal_strlit("?");
    reveal_strlit("[");
    one_char_stands(t, "*"@);
    one_char_stands(t, "?"@);
    one_char_stands(t, "["@);
    if holds_wildcard(t) {
        let i = choose|i: int|
            0 <= i < t.len() && ((#[trigger] t[i]) == '*' || t[i] == '?' || t[i] == '[');
        assert(t[i] == t[i]);
    }
}

proof fn one_char_stands(t: Seq<char>, p: Seq<char>)
    requires
        p.len() == 1,
    ensures
        contains_seq(t, p) == exists|i: int| 0 <= i < t.len() && #[trigger] t[i] == p[0],
{
    if contains_seq(t, p) {
        let i = choose|i: int| crate::text::occurs_at(t, p, i);
        assert(t.subrange(i, i + 1)[0] == t[i]);
        assert(t[i] == p[0]);
    }
    if exists|i: int| 0 <= i < t.len() && #[trigger] t[i] == p[0] {
        let i = choose|i: int| 0 <= i < t.len() && #[trigger] t[i] == p[0];
        assert(t.subrange(i, i + 1) =~= p);
        assert(crate::text::occurs_at(t, p, i));
    }
}

pub(crate) proof fn standing_is_head(t: Seq<char>, p: Seq<char>)
    ensures
        contains_seq(t, p) == stands_in(t, p),
{
    if contains_seq(t, p) {
        let i = choose|i: int| crate::text::occurs_at(t, p, i);
        assert(t.skip(i).subrange(0, p.len() as int) =~= t.subrange(i, i + p.len()));
        head_is_start(t.skip(i), p);
        assert(has_head(t.skip(i), p));
    }
    if stands_in(t, p) {
        let i = choose|i: int| 0 <= i <= t.len() && #[trigger] has_head(t.skip(i), p);
        head_is_start(t.skip(i), p);
        assert(t.skip(i).subrange(0, p.len() as int) =~= t.subrange(i, i + p.len()));
        assert(crate::text::occurs_at(t, p, i));
    }
}

/// What is taken for an object is what names one: by its scheme, by its ending, or as a
/// pattern over data files.
pub proof fn objects_are_told_by_their_text(t: Seq<char>)
    ensures
        object_text(t) == names_an_object(t),
{
    head_is_start(t, "s3://"@);
    head_is_start(t, "gs://"@);
    head_is_start(t, "gcs://"@);
    head_is_start(t, "az://"@);
    head_is_start(t, "abfss://"@);
    head_is_start(t, "azure://"@);
    head_is_start(t, "https://"@);
    head_is_start(t, "http://"@);
    head_is_start(t, "file://"@);
    tail_is_end(t, ".parquet"@);
    tail_is_end(t, ".csv"@);
    tail_is_end(t, ".json"@);
    tail_is_end(t, ".ndjson"@);
    tail_is_end(t, ".tsv"@);
    wildcard_is_glob(t);
    standing_is_head(t, "parquet"@);
    standing_is_head(t, "csv"@);
    standing_is_head(t, "json"@);
    standing_is_head(t, "ndjson"@);
    standing_is_head(t, "tsv"@);
    if contains_seq(t, "ndjson"@) {
        let i = choose|i: int| 0 <= i <= t.len() && #[trigger] has_head(t.skip(i), "ndjson"@);
        reveal_strlit("ndjson");
        reveal_strlit("json");
        let u = t.skip(i + 2);
        assert forall|k: int| 0 <= k < "json"@.len() implies #[trigger] "json"@[k] == u[k] by {
            assert("ndjson"@[k + 2] == t.skip(i)[k + 2]);
            assert("json"@[k] == "ndjson"@[k + 2]);
        }
        assert(has_head(t.skip(i + 2), "json"@));
    }
}

/// The source list is complete: every literal that names an object is the URI of a source,
/// whatever stands around it.
pub proof fn every_object_is_a_source(s: Seq<char>, i: int, lower: Seq<char>)
    requires
        0 <= i < literals_from(s, 0).len(),
        lowered(literals_from(s, 0)[i].value, lower),
        names_an_object(lower),
    ensures
        exists|k: int|
            0 <= k < sources_of(s).len() && (#[trigger] sources_of(s)[k]).uri == literals_from(
                s,
                0,
            )[i].value,
{
    let lits = literals_from(s, 0);
    let g = gather_all(s);
    let uri = lits[i].value;
    all_readers_gather(s);
    objects_are_told_by_their_text(lower);
    assert(lower =~= ascii_lower_seq(uri));
    let x = if g.claimed[i] {
        assert(has_uri(g.sources, uri));
        choose|x: SourceView| #[trigger] g.sources.contains(x) && x.uri == uri
    } else {
        SourceView { uri, kind: object_or_glob(uri) }
    };
    assert(x.uri == uri);
    bare_members(g, lits, lits.len(), x);
    source_members(s, x);
    let k = choose|k: int| 0 <= k < sources_of(s).len() && sources_of(s)[k] == x;
    assert(sources_of(s)[k].uri == uri);
}

/// The source list holds nothing else: each source is what a reader is called with, or a
/// literal that names an object. Tables are those that a table reader names.
pub proof fn every_source_is_read(s: Seq<char>, k: int)
    requires
        0 <= k < sources_of(s).len(),
    ensures
        ({
            let x = sources_of(s)[k];
            let lits = literals_from(s, 0);
            ||| exists|name: Seq<char>, call: int| #[trigger]
                reads_at(s, name, call) && argument_literal(s, lits, call) is Some
                    && lits[argument_literal(s, lits, call)->0].value == x.uri && (x.kind
                    == SourceKind::Delta <==> name == "delta_scan"@) && (x.kind
                    == SourceKind::Iceberg <==> name == "iceberg_scan"@)
            ||| (x.kind != SourceKind::Delta && x.kind != SourceKind::Iceberg && names_an_object(
                ascii_lower_seq(x.uri),
            ))
        }),
{
    let x = sources_of(s)[k];
    let lits = literals_from(s, 0);
    let g = gather_all(s);
    all_readers_gather(s);
    readers_differ();
    objects_are_told_by_their_text(ascii_lower_seq(x.uri));
    source_members(s, x);
    bare_members(g, lits, lits.len(), x);
    if g.sources.contains(x) {
        let (n, call) = choose|n: int, call: int|
            0 <= n < reader_names().len() && #[trigger] calls_from(
                ascii_lower_seq(s),
                #[trigger] reader_names()[n],
                0,
            ).contains(call) && call_names(s, lits, table_reader(reader_names()[n]), call, x);
        the_listed_are_readers(n);
        let name = reader_names()[n];
        assert(reads_at(s, name, call));
    }
}

proof fn first_is_first(s: Seq<char>, p: Seq<char>, from: int, i: int)
    requires
        from <= i,
        crate::text::occurs_at(s, p, i),
    ensures
        first_at(s, p, from) is Some,
        first_at(s, p, from)->0 <= i,
        crate::text::occurs_at(s, p, first_at(s, p, from)->0),
    decreases i - from,
{
    if !crate::text::occurs_at(s, p, from) {
        first_is_first(s, p, from + 1, i);
    }
}

/// A call is found wherever it stands: the name as a word of its own, spaces or none, and
/// the bracket.
pub proof fn every_call_is_found(s: Seq<char>, name: Seq<char>, from: int, i: int, open: int)
    requires
        name.len() > 0,
        forall|k: int|
            0 <= k < name.len() ==> ('a' <= #[trigger] name[k] && name[k] <= 'z') || name[k] == '_',
        0 <= from <= i,
        i + name.len() <= open < s.len(),
        forall|k: int| 0 <= k < name.len() ==> #[trigger] name[k] == s[i + k],
        i == 0 || !(('a' <= s[i - 1] && s[i - 1] <= 'z') || ('A' <= s[i - 1] && s[i - 1] <= 'Z') || (
        '0' <= s[i - 1] && s[i - 1] <= '9') || s[i - 1] == '_'),
        forall|k: int| i + name.len() <= k < open ==> #[trigger] s[k] == ' ',
        s[open] == '(',
    ensures
        calls_from(s, name, from).contains(open + 1),
    decreases s.len() - from,
{
    assert(s.subrange(i, i + name.len()) =~= name);
    first_is_first(s, name, from, i);
    let j = first_at(s, name, from)->0;
    first_at_bounds(s, name, from);
    let after = space_end(s, j + name.len());
    let rest = calls_from(s, name, j + name.len());
    if j == i {
        spaces_end(s, i + name.len(), open);
        assert((seq![open + 1] + rest)[0] == open + 1);
    } else {
        if i < j + name.len() {
            assert(s.subrange(j, j + name.len())[i - 1 - j] == s[i - 1]);
            assert(name[i - 1 - j] == s[i - 1]);
            assert(false);
        }
        every_call_is_found(s, name, j + name.len(), i, open);
        let q = choose|q: int| 0 <= q < rest.len() && rest[q] == open + 1;
        assert((seq![after + 1] + rest)[q + 1] == open + 1);
    }
}

proof fn spaces_end(s: Seq<char>, i: int, open: int)
    requires
        0 <= i <= open < s.len(),
        forall|k: int| i <= k < open ==> #[trigger] s[k] == ' ',
        s[open] == '(',
    ensures
        space_end(s, i) == open,
    decreases open - i,
{
    if i < open {
        spaces_end(s, i + 1, open);
    }
}

proof fn spaces_are_spaces(s: Seq<char>, i: int)
    requires
        0 <= i <= s.len(),
    ensures
        i <= space_end(s, i) <= s.len(),
        forall|k: int| i <= k < space_end(s, i) ==> (#[trigger] s[k]) == ' ',
    decreases s.len() - i,
{
    if i < s.len() && s[i] == ' ' {
        spaces_are_spaces(s, i + 1);
    }
}

/// Nothing else is taken for a call.
pub proof fn every_call_is_one(s: Seq<char>, name: Seq<char>, from: int, call: int)
    requires
        name.len() > 0,
        0 <= from,
        calls_from(s, name, from).contains(call),
    ensures
        exists|i: int|
            0 <= i && i + name.len() < call <= s.len() && (#[trigger] s.subrange(
                i,
                i + name.len(),
            )) == name && (i == 0 || !(('a' <= s[i - 1] && s[i - 1] <= 'z') || ('A' <= s[i - 1]
                && s[i - 1] <= 'Z') || ('0' <= s[i - 1] && s[i - 1] <= '9') || s[i - 1] == '_'))
                && s[call - 1] == '(' && forall|k: int|
                i + name.len() <= k < call - 1 ==> #[trigger] s[k] == ' ',
    decreases s.len() - from,
{
    first_at_bounds(s, name, from);
    if first_at(s, name, from) is Some {
        let j = first_at(s, name, from)->0;
        found_occurs(s, name, from);
        let open = space_end(s, j + name.len());
        let rest = calls_from(s, name, j + name.len());
        spaces_are_spaces(s, j + name.len());
        if rest.contains(call) {
            every_call_is_one(s, name, j + name.len(), call);
        } else {
            let all = calls_from(s, name, from);
            let q = choose|q: int| 0 <= q < all.len() && all[q] == call;
            if q > 0 {
                assert(rest[q - 1] == call);
            }
            assert(s.subrange(j, j + name.len()) == name);
        }
    }
}

proof fn found_occurs(s: Seq<char>, p: Seq<char>, from: int)
    requires
        first_at(s, p, from) is Some,
    ensures
        crate::text::occurs_at(s, p, first_at(s, p, from)->0),
    decreases s.len() + 1 - from,
{
    if from + p.len() <= s.len() && !crate::text::occurs_at(s, p, from) {
        found_occurs(s, p, from + 1);
    }
}

/// A literal is the argument of a call that it stands behind, with nothing but white space
/// and opening brackets between; a word there is no literal.
pub proof fn arguments_stand_behind_their_call(
    s: Seq<char>,
    literals: Seq<LiteralView>,
    offset: int,
    i: int,
)
    requires
        0 <= offset,
        0 <= i < literals.len(),
        forall|k: int| 0 <= k < i ==> (#[trigger] literals[k]).start < offset,
        offset <= literals[i].start < s.len(),
        s[literals[i].start] == '\'',
        forall|k: int|
            offset <= k < literals[i].start ==> #[trigger] s[k] == ' ' || s[k] == '\n' || s[k]
                == '\t' || s[k] == '[' || s[k] == '(',
    ensures
        argument_literal(s, literals, offset) == Some(i),
{
    next_literal(literals, offset, 0, i);
    argument_begins(s, offset, literals[i].start);
}

/// An argument that begins with a letter, a digit or a parameter's mark is no literal.
pub proof fn words_are_no_literal_arguments(s: Seq<char>, literals: Seq<LiteralView>, offset: int, at: int)
    requires
        0 <= offset <= at < s.len(),
        forall|k: int|
            offset <= k < at ==> #[trigger] s[k] == ' ' || s[k] == '\n' || s[k] == '\t' || s[k]
                == '[' || s[k] == '(',
        is_name_char(s[at]) || s[at] == '$' || s[at] == '?' || s[at] == ':',
        forall|k: int| 0 <= k < literals.len() ==> 0 <= (#[trigger] literals[k]).start < s.len()
            && s[literals[k].start] == '\'',
    ensures
        argument_literal(s, literals, offset) is None,
{
    argument_begins(s, offset, at);
    literal_found(literals, offset, 0);
}

proof fn next_literal(literals: Seq<LiteralView>, offset: int, from: int, i: int)
    requires
        0 <= from <= i < literals.len(),
        forall|k: int| from <= k < i ==> (#[trigger] literals[k]).start < offset,
        offset <= literals[i].start,
    ensures
        literal_at_or_after(literals, offset, from) == Some(i),
    decreases i - from,
{
    if from < i {
        next_literal(literals, offset, from + 1, i);
    }
}

proof fn argument_begins(s: Seq<char>, from: int, at: int)
    requires
        0 <= from <= at < s.len(),
        forall|k: int|
            from <= k < at ==> #[trigger] s[k] == ' ' || s[k] == '\n' || s[k] == '\t' || s[k]
                == '[' || s[k] == '(',
        s[at] == '\'' || is_name_char(s[at]) || s[at] == '$' || s[at] == '?' || s[at] == ':',
    ensures
        argument_start(s, from) == at,
    decreases at - from,
{
    if from < at {
        assert(s[from] == s[from]);
        argument_begins(s, from + 1, at);
    }
}

/// A quoted text is a literal of the query, at its opening quote and with what stands
/// between the quotes, and the query goes on behind it.
pub proof fn quoted_texts_are_literals(pre: Seq<char>, body: Seq<char>, post: Seq<char>)
    requires
        forall|i: int| 0 <= i < pre.len() ==> #[trigger] pre[i] != '\'',
        forall|i: int| 0 <= i < body.len() ==> #[trigger] body[i] != '\'',
        post.len() > 0 ==> post[0] != '\'',
    ensures
        ({
            let s = pre + seq!['\''] + body + seq!['\''] + post;
            literals_from(s, 0) == seq![LiteralView { start: pre.len() as int, value: body }]
                + literals_from(s, (pre.len() + body.len() + 2) as int)
        }),
{
    let s = pre + seq!['\''] + body + seq!['\''] + post;
    let n = pre.len() as int;
    assert forall|k: int| 0 <= k < n implies #[trigger] s[k] != '\'' by {
        assert(s[k] == pre[k]);
    }
    no_literal_before(s, 0, n);
    assert(s[n] == '\'');
    let close = n + 1 + body.len();
    assert forall|k: int| n < k < close implies #[trigger] s[k] != '\'' by {
        assert(s[k] == body[k - n - 1]);
    }
    assert(s[close] == '\'');
    if post.len() > 0 {
        assert(s[close + 1] == post[0]);
    }
    body_read(s, n + 1, close);
    assert(s.subrange(n + 1, close) =~= body);
}

proof fn no_literal_before(s: Seq<char>, from: int, n: int)
    requires
        0 <= from <= n < s.len(),
        forall|k: int| from <= k < n ==> #[trigger] s[k] != '\'',
    ensures
        literals_from(s, from) == literals_from(s, n),
    decreases n - from,
{
    if from < n {
        assert(s[from] != '\'');
        no_literal_before(s, from + 1, n);
    }
}

proof fn body_read(s: Seq<char>, from: int, close: int)
    requires
        0 <= from <= close < s.len(),
        forall|k: int| from <= k < close ==> #[trigger] s[k] != '\'',
        s[close] == '\'',
        close + 1 < s.len() ==> s[close + 1] != '\'',
    ensures
        literal_body(s, from) == (s.subrange(from, close), close + 1),
    decreases close - from,
{
    if from < close {
        body_read(s, from + 1, close);
        assert(seq![s[from]] + s.subrange(from + 1, close) =~= s.subrange(from, close));
    } else {
        assert(s.subrange(from, close) =~= Seq::<char>::empty());
    }
}

/// A text has a provider by its scheme, and is local without one.
pub proof fn providers_go_by_the_scheme(t: Seq<char>)
    ensures
        has_head(t, "s3://"@) ==> provider_of(t) == "s3"@,
        has_head(t, "gs://"@) || has_head(t, "gcs://"@) ==> provider_of(t) == "gcs"@,
        has_head(t, "az://"@) || has_head(t, "abfss://"@) || has_head(t, "azure://"@)
            ==> provider_of(t) == "az"@,
        has_head(t, "http://"@) || has_head(t, "https://"@) ==> provider_of(t) == "https"@,
        !has_head(t, "s3://"@) && !has_head(t, "gs://"@) && !has_head(t, "gcs://"@) && !has_head(
            t,
            "az://"@,
        ) && !has_head(t, "abfss://"@) && !has_head(t, "azure://"@) && !has_head(t, "http://"@)
            && !has_head(t, "https://"@) ==> provider_of(t) == "local-fake"@,
{
    head_is_start(t, "s3://"@);
    head_is_start(t, "gs://"@);
    head_is_start(t, "gcs://"@);
    head_is_start(t, "az://"@);
    head_is_start(t, "abfss://"@);
    head_is_start(t, "azure://"@);
    head_is_start(t, "http://"@);
    head_is_start(t, "https://"@);
    reveal_strlit("s3://");
    reveal_strlit("gs://");
    reveal_strlit("gcs://");
    reveal_strlit("az://");
    reveal_strlit("abfss://");
    reveal_strlit("azure://");
    reveal_strlit("http://");
    reveal_strlit("https://");
    if has_head(t, "s3://"@) {
        assert("s3://"@[0] == t[0]);
    }
    if has_head(t, "gs://"@) {
        assert("gs://"@[0] == t[0]);
    }
    if has_head(t, "gcs://"@) {
        assert("gcs://"@[0] == t[0]);
    }
    if has_head(t, "az://"@) {
        assert("az://"@[0] == t[0]);
    }
    if has_head(t, "abfss://"@) {
        assert("abfss://"@[0] == t[0]);
    }
    if has_head(t, "azure://"@) {
        assert("azure://"@[0] == t[0]);
    }
    if has_head(t, "http://"@) {
        assert("http://"@[0] == t[0]);
    }
    if has_head(t, "https://"@) {
        assert("https://"@[0] == t[0]);
    }
}

/// Letters and digits of ASCII and the underscore stand in names, and nothing else does.
pub proof fn names_are_of_letters_digits_and_underscores(c: char)
    ensures
        is_name_char(c) <==> (65 <= c as int <= 90) || (97 <= c as int <= 122) || (48 <= c as int
            <= 57) || c as int == 95,
{
}

} // verus!
