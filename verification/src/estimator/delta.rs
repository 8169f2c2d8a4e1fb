//! Reading the commit log of a Delta table.

use vstd::prelude::*;
use crate::estimator::{ColumnBounds, EstimateError, Num};
use crate::json::{
    array_len_at, json_array_len, json_error, json_object_keys, json_present, json_scalar,
    json_string, json_unsigned, keys_at, parse_error, present, scalar_at, string_at, unsigned_at,
    Scalar, ScalarView,
};
use crate::scan::{
    ascending_texts, comes_first, join, lines, lines_seq, sort_texts, text_lt, text_lt_total, text_lt_transitive,
};
use crate::text::{at, chars_of, decimal, decimal_seq, replace, replace_seq};
use crate::types::{has_str, strs};

verus! {

/// A column's range as the log writes it.
#[derive(Debug, Clone, PartialEq, Eq)]
pub struct RawBounds {
    pub column: String,
    pub min: Option<Scalar>,
    pub max: Option<Scalar>,
}

/// `RawBounds` over mathematical values.
pub struct RawBoundsView {
    pub column: Seq<char>,
    pub min: Option<ScalarView>,
    pub max: Option<ScalarView>,
}

pub open spec fn opt_scalar(s: Option<Scalar>) -> Option<ScalarView> {
    match s {
        Some(x) => Some(x@),
        None => None,
    }
}

impl View for RawBounds {
    type V = RawBoundsView;

    open spec fn view(&self) -> RawBoundsView {
        RawBoundsView {
            column: self.column@,
            min: opt_scalar(self.min),
            max: opt_scalar(self.max),
        }
    }
}

/// The number a bound stands for. `parsed` is the bit pattern of the number that a
/// text bound writes, if it writes one.
pub open spec fn bound_number(bound: Option<Scalar>, parsed: Option<u64>) -> Option<Num> {
    match bound {
        Some(Scalar::Number(bits)) => Some(Num::of_bits(bits)),
        Some(Scalar::Text(_)) => match parsed {
            Some(bits) => Some(Num::of_bits(bits)),
            None => None,
        },
        _ => None,
    }
}

fn number_of(bound: &Option<Scalar>, parsed: Option<u64>) -> (r: Option<Num>)
    ensures
        r == bound_number(*bound, parsed),
{
    match bound {
        Some(Scalar::Number(bits)) => Some(Num::from_bits(*bits)),
        Some(Scalar::Text(_)) => match parsed {
            Some(bits) => Some(Num::from_bits(bits)),
            None => None,
        },
        _ => None,
    }
}

impl RawBounds {
    /// The numeric range, given the numbers that text bounds write.
    pub fn numeric(&self, min_text: Option<u64>, max_text: Option<u64>) -> (r: ColumnBounds)
        ensures
            r.column@ == self.column@,
            r.min == bound_number(self.min, min_text),
            r.max == bound_number(self.max, max_text),
    {
        ColumnBounds {
            column: self.column.clone(),
            min: number_of(&self.min, min_text),
            max: number_of(&self.max, max_text),
        }
    }
}

/// A data file that the log adds.
#[derive(Debug, Clone, PartialEq, Eq)]
pub struct DeltaFile {
    pub path: String,
    pub size_bytes: u64,
    pub record_count: u64,
    pub bounds: Vec<RawBounds>,
}

/// `DeltaFile` over mathematical values.
pub struct DeltaFileView {
    pub path: Seq<char>,
    pub size_bytes: u64,
    pub record_count: u64,
    pub bounds: Seq<RawBoundsView>,
}

pub open spec fn bounds_view(bounds: Seq<RawBounds>) -> Seq<RawBoundsView> {
    bounds.map_values(|b: RawBounds| b@)
}

impl View for DeltaFile {
    type V = DeltaFileView;

    open spec fn view(&self) -> DeltaFileView {
        DeltaFileView {
            path: self.path@,
            size_bytes: self.size_bytes,
            record_count: self.record_count,
            bounds: bounds_view(self.bounds@),
        }
    }
}

/// What the commit log says of a table: its columns, and its files in the order of
/// their paths.
#[derive(Debug, Clone, PartialEq, Eq)]
pub struct DeltaLog {
    pub all_columns: Vec<String>,
    pub files: Vec<DeltaFile>,
}

/// A JSON pointer token for a key.
pub open spec fn pointer_token(key: Seq<char>) -> Seq<char> {
    replace_seq(replace_seq(key, "~"@, "~0"@), "/"@, "~1"@)
}

fn token(key: &str) -> (r: String)
    ensures
        r@ == pointer_token(key@),
{
    proof {
        reveal_strlit("~");
        reveal_strlit("/");
    }
    let tildes = replace(key, "~", "~0");
    replace(tildes.as_str(), "/", "~1")
}

/// The pointer to the name of the i-th schema field.
pub open spec fn field_pointer(i: nat) -> Seq<char> {
    "/fields/"@ + decimal_seq(i) + "/name"@
}

/// The names of the first `n` schema fields, without those that have none.
pub open spec fn field_names(schema: Seq<char>, n: nat) -> Seq<Seq<char>>
    decreases n,
{
    if n == 0 {
        Seq::empty()
    } else {
        let rest = field_names(schema, (n - 1) as nat);
        match json_string(schema, field_pointer((n - 1) as nat)) {
            Some(name) => rest.push(name),
            None => rest,
        }
    }
}

/// The columns that a schema names, if it is JSON with a list of fields.
pub open spec fn schema_columns(schema: Seq<char>) -> Option<Seq<Seq<char>>> {
    if json_error(schema) is None && json_array_len(schema, "/fields"@) is Some {
        Some(field_names(schema, json_array_len(schema, "/fields"@)->0))
    } else {
        None
    }
}

/// The column names of a table schema.
pub fn parse_delta_schema_columns(schema: &str) -> (r: Result<Vec<String>, EstimateError>)
    ensures
        r is Ok <==> schema_columns(schema@) is Some,
        r is Ok ==> strs(r->Ok_0@) == schema_columns(schema@)->0,
        r is Err ==> r->Err_0 is Parse && r->Err_0->Parse_0@ == match json_error(schema@) {
            Some(e) => e,
            None => "delta schema has no fields"@,
        },
{
    if let Some(e) = parse_error(schema) {
        return Err(EstimateError::Parse(e));
    }
    let n: usize = match array_len_at(schema, "/fields") {
        Some(n) => n,
        None => {
            return Err(EstimateError::Parse("delta schema has no fields".to_owned()));
        },
    };
    let mut names: Vec<String> = Vec::new();
    let mut i: usize = 0;
    assert(strs(names@) =~= field_names(schema@, 0));
    while i < n
        invariant
            i <= n,
            strs(names@) == field_names(schema@, i as nat),
        decreases n - i,
    {
        let pointer = join(join("/fields/", decimal(i as u64).as_str()).as_str(), "/name");
        let ghost before = strs(names@);
        if let Some(name) = string_at(schema, pointer.as_str()) {
            names.push(name);
            assert(strs(names@) =~= before.push(name@));
        }
        i = i + 1;
    }
    Ok(names)
}

/// The bound of a column that the statistics give under `kind`, if they hold an object
/// there.
pub open spec fn stat(text: Seq<char>, kind: Seq<char>, key: Seq<char>) -> Option<ScalarView> {
    if json_object_keys(text, kind) is Some {
        json_scalar(text, kind + "/"@ + pointer_token(key))
    } else {
        None
    }
}

/// The keys of the object at a pointer; none where there is no object.
pub open spec fn keys_or_none(text: Seq<char>, pointer: Seq<char>) -> Seq<Seq<char>> {
    match json_object_keys(text, pointer) {
        Some(keys) => keys,
        None => Seq::empty(),
    }
}

/// The keys `more` that are not among `known`.
pub open spec fn new_keys(known: Seq<Seq<char>>, more: Seq<Seq<char>>) -> Seq<Seq<char>>
    decreases more.len(),
{
    if more.len() == 0 {
        Seq::empty()
    } else if known.contains(more.last()) {
        new_keys(known, more.drop_last())
    } else {
        new_keys(known, more.drop_last()).push(more.last())
    }
}

/// The columns with a lower or an upper bound.
pub open spec fn bounded_columns(text: Seq<char>, prefix: Seq<char>) -> Seq<Seq<char>> {
    let mins = keys_or_none(text, prefix + "/minValues"@);
    let maxs = keys_or_none(text, prefix + "/maxValues"@);
    mins + new_keys(mins, maxs)
}

pub open spec fn bounds_of(text: Seq<char>, prefix: Seq<char>, column: Seq<char>) -> RawBoundsView {
    RawBoundsView {
        column,
        min: stat(text, prefix + "/minValues"@, column),
        max: stat(text, prefix + "/maxValues"@, column),
    }
}

/// The statistics at `prefix` in a JSON text: the record count and the ranges.
pub open spec fn stats_spec(text: Seq<char>, prefix: Seq<char>) -> (u64, Seq<RawBoundsView>) {
    (
        match json_unsigned(text, prefix + "/numRecords"@) {
            Some(n) => n,
            None => 0,
        },
        bounded_columns(text, prefix).map_values(|c: Seq<char>| bounds_of(text, prefix, c)),
    )
}

fn stat_at(text: &str, kind: &str, there: bool, key: &str) -> (r: Option<Scalar>)
    requires
        there == (json_object_keys(text@, kind@) is Some),
    ensures
        opt_scalar(r) == stat(text@, kind@, key@),
{
    if !there {
        return None;
    }
    let pointer = join(join(kind, "/").as_str(), token(key).as_str());
    scalar_at(text, pointer.as_str())
}

/// The record count and the ranges that the statistics at `prefix` give.
pub fn parse_delta_stats(text: &str, prefix: &str) -> (r: (u64, Vec<RawBounds>))
    ensures
        r.0 == stats_spec(text@, prefix@).0,
        bounds_view(r.1@) == stats_spec(text@, prefix@).1,
{
    let records: u64 = match unsigned_at(text, join(prefix, "/numRecords").as_str()) {
        Some(n) => n,
        None => 0,
    };
    let min_pointer = join(prefix, "/minValues");
    let max_pointer = join(prefix, "/maxValues");
    let min_keys = keys_at(text, min_pointer.as_str());
    let max_keys = keys_at(text, max_pointer.as_str());
    let has_min = min_keys.is_some();
    let has_max = max_keys.is_some();
    let mins: Vec<String> = match min_keys {
        Some(k) => k,
        None => Vec::new(),
    };
    let maxs: Vec<String> = match max_keys {
        Some(k) => k,
        None => Vec::new(),
    };
    proof {
        assert(strs(mins@) =~= keys_or_none(text@, prefix@ + "/minValues"@));
        assert(strs(maxs@) =~= keys_or_none(text@, prefix@ + "/maxValues"@));
    }
    let ghost known = strs(mins@);
    let mut columns: Vec<String> = crate::types::copy_strs(&mins);
    let mut i: usize = 0;
    assert(strs(columns@) =~= known + new_keys(known, strs(maxs@).take(0)));
    while i < maxs.len()
        invariant
            i <= maxs@.len(),
            known == strs(mins@),
            strs(columns@) == known + new_keys(known, strs(maxs@).take(i as int)),
        decreases maxs@.len() - i,
    {
        let ghost before = strs(columns@);
        proof {
            let next = strs(maxs@).take(i + 1);
            assert(next.drop_last() =~= strs(maxs@).take(i as int));
            assert(next.last() == maxs@[i as int]@);
        }
        if !has_str(&mins, &maxs[i]) {
            columns.push(maxs[i].clone());
            assert(strs(columns@) =~= before.push(maxs@[i as int]@));
            assert(strs(columns@) =~= known + new_keys(known, strs(maxs@).take(i + 1)));
        }
        i = i + 1;
    }
    assert(strs(maxs@).take(i as int) =~= strs(maxs@));
    assert(strs(columns@) == bounded_columns(text@, prefix@));
    let mut bounds: Vec<RawBounds> = Vec::new();
    let mut j: usize = 0;
    while j < columns.len()
        invariant
            j <= columns@.len(),
            bounds@.len() == j,
            min_pointer@ == prefix@ + "/minValues"@,
            max_pointer@ == prefix@ + "/maxValues"@,
            has_min == (json_object_keys(text@, min_pointer@) is Some),
            has_max == (json_object_keys(text@, max_pointer@) is Some),
            forall|k: int|
                0 <= k < j ==> (#[trigger] bounds@[k])@ == bounds_of(
                    text@,
                    prefix@,
                    columns@[k]@,
                ),
        decreases columns@.len() - j,
    {
        let column = columns[j].clone();
        let min = stat_at(text, min_pointer.as_str(), has_min, column.as_str());
        let max = stat_at(text, max_pointer.as_str(), has_max, column.as_str());
        bounds.push(RawBounds { column, min, max });
        j = j + 1;
    }
    assert(bounds_view(bounds@) =~= stats_spec(text@, prefix@).1);
    (records, bounds)
}

/// The file that a line's `add` action adds. Its statistics are an object in the line,
/// or JSON text of their own in a string.
pub open spec fn added_file(line: Seq<char>) -> DeltaFileView {
    let stats = match json_string(line, "/add/stats"@) {
        Some(text) => stats_spec(text, ""@),
        None => stats_spec(line, "/add/stats"@),
    };
    DeltaFileView {
        path: match json_string(line, "/add/path"@) {
            Some(p) => p,
            None => ""@,
        },
        size_bytes: match json_unsigned(line, "/add/size"@) {
            Some(n) => n,
            None => 0,
        },
        record_count: stats.0,
        bounds: stats.1,
    }
}

/// What the lines read so far say of a table.
pub ghost struct LogState {
    pub columns: Seq<Seq<char>>,
    pub removed: Set<Seq<char>>,
    pub added: Map<Seq<char>, DeltaFileView>,
}

pub open spec fn empty_log() -> LogState {
    LogState { columns: Seq::empty(), removed: Set::empty(), added: Map::empty() }
}

/// The effect of one line: a schema replaces the columns, a removed path is noted, and
/// an added file replaces what was added under its path before. Anything else is
/// passed over.
pub open spec fn log_line(state: LogState, line: Seq<char>) -> LogState {
    LogState {
        columns: match json_string(line, "/metaData/schemaString"@) {
            Some(schema) => match schema_columns(schema) {
                Some(columns) => columns,
                None => state.columns,
            },
            None => state.columns,
        },
        removed: match json_string(line, "/remove/path"@) {
            Some(path) => state.removed.insert(path),
            None => state.removed,
        },
        added: if json_present(line, "/add"@) {
            state.added.insert(added_file(line).path, added_file(line))
        } else {
            state.added
        },
    }
}

pub open spec fn log_lines(state: LogState, lines: Seq<Seq<char>>) -> LogState
    decreases lines.len(),
{
    if lines.len() == 0 {
        state
    } else {
        log_line(log_lines(state, lines.drop_last()), lines.last())
    }
}

/// What the log files, in order, say of a table.
pub open spec fn log_state(texts: Seq<Seq<char>>) -> LogState
    decreases texts.len(),
{
    if texts.len() == 0 {
        empty_log()
    } else {
        log_lines(log_state(texts.drop_last()), lines_seq(texts.last()))
    }
}

/// Whether the paths of `files` ascend.
pub open spec fn ascending_paths(files: Seq<DeltaFile>) -> bool {
    forall|i: int, j: int|
        0 <= i < j < files.len() ==> text_lt(
            (#[trigger] files[i]).path@,
            (#[trigger] files[j]).path@,
        )
}

/// Whether `files` hold exactly the entries of `map`, each under its path.
pub open spec fn holds_files(files: Seq<DeltaFile>, map: Map<Seq<char>, DeltaFileView>) -> bool {
    &&& forall|i: int|
        0 <= i < files.len() ==> map.contains_key((#[trigger] files[i]).path@)
            && map[files[i].path@] == files[i]@
    &&& forall|p: Seq<char>| #[trigger]
        map.contains_key(p) ==> exists|i: int|
            0 <= i < files.len() && (#[trigger] files[i]).path@ == p
}

/// Puts a file into ascending paths, in place of one under the same path.
fn put_file(files: &mut Vec<DeltaFile>, file: DeltaFile, Ghost(map): Ghost<Map<Seq<char>, DeltaFileView>>)
    requires
        ascending_paths(old(files)@),
        holds_files(old(files)@, map),
    ensures
        ascending_paths(final(files)@),
        holds_files(final(files)@, map.insert(file.path@, file@)),
{
    let n: usize = files.len();
    let mut i: usize = 0;
    let ghost before = files@;
    while i < n && comes_first(files[i].path.as_str(), file.path.as_str())
        invariant
            i <= n,
            n == files@.len(),
            files@ == before,
            forall|k: int| 0 <= k < i ==> text_lt((#[trigger] files@[k]).path@, file.path@),
        decreases n - i,
    {
        i = i + 1;
    }
    let ghost p = file.path@;
    let ghost view = file@;
    let found = i < n && files[i].path == file.path;
    if found {
        files.set(i, file);
        assert(files@ =~= before.update(i as int, file));
        proof {
            let next = map.insert(p, view);
            assert forall|k: int| 0 <= k < files@.len() implies next.contains_key(
                (#[trigger] files@[k]).path@,
            ) && next[files@[k].path@] == files@[k]@ by {
                assert(map.contains_key(before[k].path@));
                if k != i {
                    text_lt_total(before[k].path@, p);
                    text_lt_total(p, before[k].path@);
                    assert(before[k].path@ != p) by {
                        if k < i {
                            text_lt_total(before[k].path@, before[i as int].path@);
                        } else {
                            text_lt_total(before[i as int].path@, before[k].path@);
                        }
                    }
                }
            }
            assert forall|q: Seq<char>| #[trigger] next.contains_key(q) implies exists|k: int|
                0 <= k < files@.len() && (#[trigger] files@[k]).path@ == q by {
                if q == p {
                    assert(files@[i as int].path@ == q);
                } else {
                    assert(map.contains_key(q));
                    let k = choose|k: int|
                        0 <= k < before.len() && (#[trigger] before[k]).path@ == q;
                    assert(files@[k].path@ == q);
                }
            }
        }
    } else {
        files.insert(i, file);
        assert(files@ =~= before.insert(i as int, file));
        proof {
            let next = map.insert(p, view);
            if i < n {
                text_lt_total(before[i as int].path@, p);
                assert(text_lt(p, before[i as int].path@));
            }
            assert forall|k: int| i <= k < n implies text_lt(p, (#[trigger] before[k]).path@) by {
                if k > i {
                    text_lt_transitive(p, before[i as int].path@, before[k].path@);
                }
            }
            assert forall|a: int, b: int| 0 <= a < b < files@.len() implies text_lt(
                (#[trigger] files@[a]).path@,
                (#[trigger] files@[b]).path@,
            ) by {
                let x = if a <= i { a } else { a - 1 };
                let y = if b <= i { b } else { b - 1 };
                if a == i {
                    assert(files@[b] == before[b - 1]);
                } else if b == i {
                    assert(files@[a] == before[a]);
                } else {
                    assert(files@[a] == before[x] && files@[b] == before[y]);
                }
            }
            assert forall|k: int| 0 <= k < files@.len() implies next.contains_key(
                (#[trigger] files@[k]).path@,
            ) && next[files@[k].path@] == files@[k]@ by {
                if k != i {
                    let x = if k < i { k } else { k - 1 };
                    assert(files@[k] == before[x]);
                    assert(map.contains_key(before[x].path@));
                    text_lt_total(before[x].path@, p);
                }
            }
            assert forall|q: Seq<char>| #[trigger] next.contains_key(q) implies exists|k: int|
                0 <= k < files@.len() && (#[trigger] files@[k]).path@ == q by {
                if q == p {
                    assert(files@[i as int].path@ == q);
                } else {
                    assert(map.contains_key(q));
                    let k = choose|k: int|
                        0 <= k < before.len() && (#[trigger] before[k]).path@ == q;
                    let y = if k < i { k } else { k + 1 };
                    assert(files@[y] == before[k]);
                }
            }
        }
    }
}

/// Takes one line of the log into account.
fn read_line(
    line: &str,
    columns: &mut Vec<String>,
    removed: &mut Vec<String>,
    added: &mut Vec<DeltaFile>,
    Ghost(state): Ghost<LogState>,
)
    requires
        strs(old(columns)@) == state.columns,
        strs(old(removed)@).to_set() == state.removed,
        ascending_paths(old(added)@),
        holds_files(old(added)@, state.added),
    ensures
        strs(final(columns)@) == log_line(state, line@).columns,
        strs(final(removed)@).to_set() == log_line(state, line@).removed,
        ascending_paths(final(added)@),
        holds_files(final(added)@, log_line(state, line@).added),
{
    if let Some(schema) = string_at(line, "/metaData/schemaString") {
        if let Ok(names) = parse_delta_schema_columns(schema.as_str()) {
            *columns = names;
        }
    }
    if let Some(path) = string_at(line, "/remove/path") {
        let ghost before = strs(removed@);
        removed.push(path);
        proof {
            let after = strs(removed@);
            assert(after =~= before.push(path@));
            assert forall|x: Seq<char>| after.to_set().contains(x) == before.to_set().insert(
                path@,
            ).contains(x) by {
                if before.contains(x) {
                    let k = choose|k: int| 0 <= k < before.len() && before[k] == x;
                    assert(after[k] == x);
                }
                if x == path@ {
                    assert(after[before.len() as int] == x);
                }
                if after.contains(x) {
                    let k = choose|k: int| 0 <= k < after.len() && after[k] == x;
                    if k < before.len() {
                        assert(before[k] == x);
                    }
                }
            }
            assert(after.to_set() =~= before.to_set().insert(path@));
        }
    }
    if present(line, "/add") {
        let path = match string_at(line, "/add/path") {
            Some(p) => p,
            None => "".to_owned(),
        };
        let size_bytes: u64 = match unsigned_at(line, "/add/size") {
            Some(n) => n,
            None => 0,
        };
        let stats = match string_at(line, "/add/stats") {
            Some(text) => parse_delta_stats(text.as_str(), ""),
            None => parse_delta_stats(line, "/add/stats"),
        };
        let file = DeltaFile { path, size_bytes, record_count: stats.0, bounds: stats.1 };
        assert(file@ == added_file(line@));
        put_file(added, file, Ghost(state.added));
    }
}

/// What a table's commit log, given as the texts of its files in order, says of the
/// table. Lines that are not JSON are passed over. A file is listed if it was added and
/// is not among the removed paths.
pub fn delta_metadata(logs: &[String]) -> (r: DeltaLog)
    ensures
        ({
            let state = log_state(strs(logs@));
            &&& strs(r.all_columns@) == state.columns
            &&& ascending_paths(r.files@)
            &&& holds_files(r.files@, state.added.remove_keys(state.removed))
        }),
{
    let mut columns: Vec<String> = Vec::new();
    let mut removed: Vec<String> = Vec::new();
    let mut added: Vec<DeltaFile> = Vec::new();
    let ghost texts = strs(logs@);
    let mut i: usize = 0;
    proof {
        assert(strs(columns@) =~= empty_log().columns);
        assert(strs(removed@).to_set() =~= empty_log().removed);
        assert(texts.take(0) =~= Seq::empty());
    }
    while i < logs.len()
        invariant
            i <= logs@.len(),
            texts == strs(logs@),
            strs(columns@) == log_state(texts.take(i as int)).columns,
            strs(removed@).to_set() == log_state(texts.take(i as int)).removed,
            ascending_paths(added@),
            holds_files(added@, log_state(texts.take(i as int)).added),
        decreases logs@.len() - i,
    {
        let all = lines(logs[i].as_str());
        let ghost start = log_state(texts.take(i as int));
        let ghost seen = strs(all@);
        let mut j: usize = 0;
        assert(seen.take(0) =~= Seq::empty());
        while j < all.len()
            invariant
                j <= all@.len(),
                seen == strs(all@),
                strs(columns@) == log_lines(start, seen.take(j as int)).columns,
                strs(removed@).to_set() == log_lines(start, seen.take(j as int)).removed,
                ascending_paths(added@),
                holds_files(added@, log_lines(start, seen.take(j as int)).added),
            decreases all@.len() - j,
        {
            let ghost state = log_lines(start, seen.take(j as int));
            proof {
                let next = seen.take(j + 1);
                assert(next.drop_last() =~= seen.take(j as int));
                assert(next.last() == all@[j as int]@);
            }
            read_line(all[j].as_str(), &mut columns, &mut removed, &mut added, Ghost(state));
            j = j + 1;
        }
        proof {
            assert(seen.take(j as int) =~= seen);
            let next = texts.take(i + 1);
            assert(next.drop_last() =~= texts.take(i as int));
            assert(next.last() == logs@[i as int]@);
        }
        i = i + 1;
    }
    assert(texts.take(i as int) =~= texts);
    let ghost state = log_state(texts);
    let files = unremoved(added, &removed, Ghost(state.added));
    DeltaLog { all_columns: columns, files }
}

/// Takes the file under `path` out, if there is one.
fn drop_file(
    files: &mut Vec<DeltaFile>,
    path: &String,
    Ghost(map): Ghost<Map<Seq<char>, DeltaFileView>>,
)
    requires
        ascending_paths(old(files)@),
        holds_files(old(files)@, map),
    ensures
        ascending_paths(final(files)@),
        holds_files(final(files)@, map.remove(path@)),
{
    let n: usize = files.len();
    let mut i: usize = 0;
    let ghost before = files@;
    while i < n && files[i].path != *path
        invariant
            i <= n,
            n == files@.len(),
            files@ == before,
            forall|k: int| 0 <= k < i ==> (#[trigger] files@[k]).path@ != path@,
        decreases n - i,
    {
        i = i + 1;
    }
    let ghost next = map.remove(path@);
    if i < n {
        let _ = files.remove(i);
        proof {
            assert(files@ =~= before.remove(i as int));
            assert forall|k: int| 0 <= k < files@.len() implies next.contains_key(
                (#[trigger] files@[k]).path@,
            ) && next[files@[k].path@] == files@[k]@ by {
                let x = if k < i { k } else { k + 1 };
                assert(files@[k] == before[x]);
                assert(map.contains_key(before[x].path@));
                text_lt_total(before[x].path@, before[i as int].path@);
                if x < i {
                    assert(text_lt(before[x].path@, before[i as int].path@));
                } else {
                    assert(text_lt(before[i as int].path@, before[x].path@));
                }
            }
            assert forall|q: Seq<char>| #[trigger] next.contains_key(q) implies exists|k: int|
                0 <= k < files@.len() && (#[trigger] files@[k]).path@ == q by {
                assert(map.contains_key(q));
                let x = choose|x: int| 0 <= x < before.len() && (#[trigger] before[x]).path@ == q;
                let k = if x < i { x } else { x - 1 };
                assert(files@[k] == before[x]);
            }
        }
    } else {
        assert(!map.contains_key(path@));
        assert(next =~= map);
    }
}

/// The files whose paths are not among `removed`, in order.
fn unremoved(
    added: Vec<DeltaFile>,
    removed: &[String],
    Ghost(map): Ghost<Map<Seq<char>, DeltaFileView>>,
) -> (files: Vec<DeltaFile>)
    requires
        ascending_paths(added@),
        holds_files(added@, map),
    ensures
        ascending_paths(files@),
        holds_files(files@, map.remove_keys(strs(removed@).to_set())),
{
    let ghost gone = strs(removed@);
    let mut files = added;
    let mut i: usize = 0;
    assert(map.remove_keys(gone.take(0).to_set()) =~= map);
    while i < removed.len()
        invariant
            i <= removed@.len(),
            gone == strs(removed@),
            ascending_paths(files@),
            holds_files(files@, map.remove_keys(gone.take(i as int).to_set())),
        decreases removed@.len() - i,
    {
        let ghost rest = map.remove_keys(gone.take(i as int).to_set());
        drop_file(&mut files, &removed[i], Ghost(rest));
        proof {
            let now = gone.take(i as int);
            let next = gone.take(i + 1);
            assert(next =~= now.push(removed@[i as int]@));
            assert forall|x: Seq<char>| next.to_set().contains(x) <==> (now.to_set().contains(x) || x
                == removed@[i as int]@) by {
                if now.contains(x) {
                    let k = choose|k: int| 0 <= k < now.len() && now[k] == x;
                    assert(next[k] == x);
                }
                if x == removed@[i as int]@ {
                    assert(next[i as int] == x);
                }
                if next.contains(x) {
                    let k = choose|k: int| 0 <= k < next.len() && next[k] == x;
                    if k < i {
                        assert(now[k] == x);
                    }
                }
            }
            assert(rest.remove(removed@[i as int]@) =~= map.remove_keys(next.to_set()));
        }
        i = i + 1;
    }
    assert(gone.take(i as int) =~= gone);
    files
}

/// Whether a directory entry is a file of the commit log.
pub open spec fn is_log_name(name: Seq<char>) -> bool {
    name.len() > 5 && name.subrange(name.len() - 5, name.len() as int) == ".json"@
}

/// The log names among `names`, in order.
pub open spec fn log_names(names: Seq<String>) -> Seq<String>
    decreases names.len(),
{
    if names.len() == 0 {
        Seq::empty()
    } else if is_log_name(names.last()@) {
        log_names(names.drop_last()).push(names.last())
    } else {
        log_names(names.drop_last())
    }
}

/// The files of the commit log among a directory's entries, in the order in which they
/// are to be read.
pub fn delta_log_names(names: &[String]) -> (r: Vec<String>)
    ensures
        ascending_texts(strs(r@)),
        r@.to_multiset() == log_names(names@).to_multiset(),
{
    let mut kept: Vec<String> = Vec::new();
    let suffix = chars_of(".json");
    proof {
        reveal_strlit(".json");
    }
    let mut i: usize = 0;
    while i < names.len()
        invariant
            i <= names@.len(),
            suffix@ == ".json"@,
            suffix@.len() == 5,
            kept@ == log_names(names@.take(i as int)),
        decreases names@.len() - i,
    {
        proof {
            let next = names@.take(i + 1);
            assert(next.drop_last() =~= names@.take(i as int));
            assert(next.last() == names@[i as int]);
        }
        let name = chars_of(names[i].as_str());
        let n: usize = name.len();
        if n > 5 && at(&name, &suffix, n - 5) {
            kept.push(names[i].clone());
        }
        i = i + 1;
    }
    assert(names@.take(i as int) =~= names@);
    sort_texts(&kept)
}

/// A path that was removed is never listed, and every listed file was added.
pub proof fn removed_files_are_not_listed(texts: Seq<Seq<char>>, path: Seq<char>)
    ensures
        ({
            let state = log_state(texts);
            let listed = state.added.remove_keys(state.removed);
            &&& state.removed.contains(path) ==> !listed.contains_key(path)
            &&& listed.contains_key(path) ==> state.added.contains_key(path) && listed[path]
                == state.added[path]
        }),
{
}

/// A key with its marks replaced, as a pointer names it.
pub open spec fn escaped(s: Seq<char>) -> Seq<char>
    decreases s.len(),
{
    if s.len() == 0 {
        Seq::empty()
    } else if s[0] == '~' {
        seq!['~', '0'] + escaped(s.skip(1))
    } else if s[0] == '/' {
        seq!['~', '1'] + escaped(s.skip(1))
    } else {
        seq![s[0]] + escaped(s.skip(1))
    }
}

proof fn replaced_one(s: Seq<char>, c: char, to: Seq<char>)
    requires
        s.len() > 0,
    ensures
        replace_seq(s, seq![c], to) == (if s[0] == c {
            to
        } else {
            seq![s[0]]
        }) + replace_seq(s.skip(1), seq![c], to),
{
    assert(s.subrange(0, 1) =~= seq![s[0]]);
    assert(s.subrange(1, s.len() as int) =~= s.skip(1));
    assert(crate::text::occurs_at(s, seq![c], 0) == (s[0] == c)) by {
        if crate::text::occurs_at(s, seq![c], 0) {
            assert(s.subrange(0, 1)[0] == seq![c][0]);
        }
    }
}

/// A pointer names a key with its tildes and slashes replaced.
pub proof fn pointers_replace_tildes_and_slashes(key: Seq<char>)
    ensures
        pointer_token(key) == escaped(key),
    decreases key.len(),
{
    reveal_strlit("~");
    reveal_strlit("~0");
    reveal_strlit("/");
    reveal_strlit("~1");
    let tilde = seq!['~'];
    let slash = seq!['/'];
    assert("~"@ =~= tilde);
    assert("/"@ =~= slash);
    assert("~0"@ =~= seq!['~', '0']);
    assert("~1"@ =~= seq!['~', '1']);
    if key.len() == 0 {
        assert(pointer_token(key) =~= Seq::<char>::empty());
    } else {
        let rest = key.skip(1);
        let inner = replace_seq(rest, tilde, seq!['~', '0']);
        pointers_replace_tildes_and_slashes(rest);
        replaced_one(key, '~', seq!['~', '0']);
        let a = replace_seq(key, tilde, seq!['~', '0']);
        if key[0] == '~' {
            assert(a =~= seq!['~', '0'] + inner);
            replaced_one(a, '/', seq!['~', '1']);
            assert(a.skip(1) =~= seq!['0'] + inner);
            replaced_one(a.skip(1), '/', seq!['~', '1']);
            assert(a.skip(1).skip(1) =~= inner);
            assert(pointer_token(key) =~= seq!['~', '0'] + replace_seq(inner, slash, seq!['~', '1']));
        } else {
            assert(a =~= seq![key[0]] + inner);
            replaced_one(a, '/', seq!['~', '1']);
            assert(a.skip(1) =~= inner);
        }
    }
}

/// A line of the log takes effect by what it holds: a readable schema replaces the
/// columns, a removal takes its path out for good, and an addition puts its file in, in
/// place of one of the same path.
pub proof fn log_lines_take_effect(state: LogState, line: Seq<char>)
    ensures
        ({
            let after = log_line(state, line);
            let schema = json_string(line, "/metaData/schemaString"@);
            let removed = json_string(line, "/remove/path"@);
            &&& schema is None ==> after.columns == state.columns
            &&& schema is Some && schema_columns(schema->0) is None ==> after.columns
                == state.columns
            &&& schema is Some && schema_columns(schema->0) is Some ==> after.columns
                == schema_columns(schema->0)->0
            &&& removed is None ==> after.removed == state.removed
            &&& removed is Some ==> forall|p: Seq<char>| #[trigger]
                after.removed.contains(p) == (p == removed->0 || state.removed.contains(p))
            &&& !json_present(line, "/add"@) ==> after.added == state.added
            &&& json_present(line, "/add"@) ==> {
                let f = added_file(line);
                &&& after.added.contains_key(f.path) && after.added[f.path] == f
                &&& forall|p: Seq<char>|
                    p != f.path ==> (#[trigger] after.added.contains_key(p)
                        == state.added.contains_key(p) && (state.added.contains_key(p)
                        ==> after.added[p] == state.added[p]))
            }
        }),
{
}

/// A log is read commit by commit, and a commit line by line.
pub proof fn logs_are_read_in_order(
    texts: Seq<Seq<char>>,
    text: Seq<char>,
    state: LogState,
    lines: Seq<Seq<char>>,
    line: Seq<char>,
)
    ensures
        log_state(Seq::empty()) == empty_log(),
        log_state(texts.push(text)) == log_lines(log_state(texts), lines_seq(text)),
        log_lines(state, Seq::empty()) == state,
        log_lines(state, lines.push(line)) == log_line(log_lines(state, lines), line),
        empty_log().columns.len() == 0,
        forall|p: Seq<char>| !(#[trigger] empty_log().removed.contains(p)),
        forall|p: Seq<char>| !(#[trigger] empty_log().added.contains_key(p)),
{
    assert(texts.push(text).drop_last() =~= texts);
    assert(lines.push(line).drop_last() =~= lines);
}

/// An added file has the path and the size that the line gives, and the statistics, which
/// may stand in it as a text or as they are.
pub proof fn added_files_are_as_the_line_says(line: Seq<char>)
    ensures
        ({
            let f = added_file(line);
            let path = json_string(line, "/add/path"@);
            let size = json_unsigned(line, "/add/size"@);
            let text = json_string(line, "/add/stats"@);
            &&& path is Some ==> f.path == path->0
            &&& path is None ==> f.path.len() == 0
            &&& size is Some ==> f.size_bytes == size->0
            &&& size is None ==> f.size_bytes == 0
            &&& text is Some ==> f.record_count == stats_spec(text->0, Seq::empty()).0 && f.bounds
                == stats_spec(text->0, Seq::empty()).1
            &&& text is None ==> f.record_count == stats_spec(line, "/add/stats"@).0 && f.bounds
                == stats_spec(line, "/add/stats"@).1
        }),
{
    reveal_strlit("");
    assert(""@ =~= Seq::<char>::empty());
}

/// Statistics count the records, and bound every column that has a least or a greatest
/// value, each once.
pub proof fn statistics_bound_their_columns(text: Seq<char>, prefix: Seq<char>, i: int)
    ensures
        ({
            let (records, bounds) = stats_spec(text, prefix);
            let count = json_unsigned(text, prefix + "/numRecords"@);
            let mins = json_object_keys(text, prefix + "/minValues"@);
            let maxs = json_object_keys(text, prefix + "/maxValues"@);
            &&& count is Some ==> records == count->0
            &&& count is None ==> records == 0
            &&& mins is Some && 0 <= i < mins->0.len() ==> bounds.len() >= mins->0.len()
                && bounds[i].column == mins->0[i] && bounds[i].min == json_scalar(
                text,
                prefix + "/minValues"@ + "/"@ + escaped(mins->0[i]),
            )
            &&& mins is None && maxs is None ==> bounds.len() == 0
            &&& 0 <= i < bounds.len() ==> {
                let b = bounds[i];
                &&& mins is None ==> b.min is None
                &&& maxs is None ==> b.max is None
                &&& maxs is Some ==> b.max == json_scalar(
                    text,
                    prefix + "/maxValues"@ + "/"@ + escaped(b.column),
                )
                &&& (mins is Some && mins->0.contains(b.column)) || (maxs is Some
                    && maxs->0.contains(b.column))
            }
        }),
{
    let mins = keys_or_none(text, prefix + "/minValues"@);
    let maxs = keys_or_none(text, prefix + "/maxValues"@);
    let columns = bounded_columns(text, prefix);
    let (records, bounds) = stats_spec(text, prefix);
    if 0 <= i < mins.len() {
        pointers_replace_tildes_and_slashes(mins[i]);
        assert(columns[i] == mins[i]);
    }
    if 0 <= i < bounds.len() {
        pointers_replace_tildes_and_slashes(bounds[i].column);
        assert(bounds[i].column == columns[i]);
        if i >= mins.len() {
            new_keys_are_theirs(mins, maxs, i - mins.len());
            assert(columns[i] == new_keys(mins, maxs)[i - mins.len()]);
        } else {
            assert(mins.contains(mins[i]));
        }
    }
    if mins.len() == 0 && maxs.len() == 0 {
        assert(new_keys(mins, maxs).len() == 0);
    }
}

proof fn new_keys_are_theirs(known: Seq<Seq<char>>, more: Seq<Seq<char>>, i: int)
    requires
        0 <= i < new_keys(known, more).len(),
    ensures
        more.contains(new_keys(known, more)[i]),
        !known.contains(new_keys(known, more)[i]),
    decreases more.len(),
{
    let rest = more.drop_last();
    assert(more[more.len() - 1] == more.last());
    if i < new_keys(known, rest).len() {
        new_keys_are_theirs(known, rest, i);
        let x = new_keys(known, rest)[i];
        let k = choose|k: int| 0 <= k < rest.len() && rest[k] == x;
        assert(more[k] == x);
    }
}

/// A column that has only a greatest value is bounded too.
pub proof fn every_greatest_value_bounds(text: Seq<char>, prefix: Seq<char>, column: Seq<char>)
    requires
        json_object_keys(text, prefix + "/maxValues"@) is Some,
        json_object_keys(text, prefix + "/maxValues"@)->0.contains(column),
    ensures
        exists|i: int|
            0 <= i < stats_spec(text, prefix).1.len() && (#[trigger] stats_spec(
                text,
                prefix,
            ).1[i]).column == column,
{
    let mins = keys_or_none(text, prefix + "/minValues"@);
    let maxs = keys_or_none(text, prefix + "/maxValues"@);
    let columns = bounded_columns(text, prefix);
    let bounds = stats_spec(text, prefix).1;
    if mins.contains(column) {
        let i = choose|i: int| 0 <= i < mins.len() && mins[i] == column;
        assert(columns[i] == column);
        assert(bounds[i].column == column);
    } else {
        new_keys_are_all(mins, maxs, column);
        let n = new_keys(mins, maxs);
        let k = choose|k: int| 0 <= k < n.len() && n[k] == column;
        assert(columns[mins.len() + k] == column);
        assert(bounds[mins.len() + k].column == column);
    }
}

proof fn new_keys_are_all(known: Seq<Seq<char>>, more: Seq<Seq<char>>, x: Seq<char>)
    requires
        more.contains(x),
        !known.contains(x),
    ensures
        new_keys(known, more).contains(x),
    decreases more.len(),
{
    let rest = more.drop_last();
    let k = choose|k: int| 0 <= k < more.len() && more[k] == x;
    if k < rest.len() {
        assert(rest[k] == x);
        new_keys_are_all(known, rest, x);
        let n = new_keys(known, rest);
        let j = choose|j: int| 0 <= j < n.len() && n[j] == x;
        assert(new_keys(known, more)[j] == x);
    } else {
        let n = new_keys(known, more);
        assert(n[n.len() - 1] == x);
    }
}

/// The columns of a schema are the names of its fields, in order; a schema without fields
/// has none.
pub proof fn columns_are_the_fields_names(schema: Seq<char>, n: nat)
    ensures
        schema_columns(schema) is Some <==> json_error(schema) is None && json_array_len(
            schema,
            "/fields"@,
        ) is Some,
        schema_columns(schema) is Some ==> schema_columns(schema)->0 == field_names(
            schema,
            json_array_len(schema, "/fields"@)->0,
        ),
        field_names(schema, 0).len() == 0,
        ({
            let name = json_string(schema, "/fields/"@ + decimal_seq(n) + "/name"@);
            &&& name is Some ==> field_names(schema, n + 1) == field_names(schema, n).push(name->0)
            &&& name is None ==> field_names(schema, n + 1) == field_names(schema, n)
        }),
{
}

/// A bound is a number where it is one, or a text that writes one.
pub proof fn bounds_are_numbers(bound: Option<Scalar>, parsed: Option<u64>)
    ensures
        bound matches Some(Scalar::Number(bits)) ==> bound_number(bound, parsed) == Some(
            Num::of_bits(bits),
        ),
        bound matches Some(Scalar::Text(_)) ==> (bound_number(bound, parsed) is Some <==> parsed
            is Some),
        bound matches Some(Scalar::Text(_)) ==> (parsed is Some ==> bound_number(bound, parsed)
            == Some(Num::of_bits(parsed->0))),
        bound is None ==> bound_number(bound, parsed) is None,
{
}

/// The commits of a log are the files that end in `.json`.
pub proof fn commits_end_in_json(names: Seq<String>)
    ensures
        log_names(names) == names.filter(
            |n: String|
                n@.len() > 5 && n@.subrange(n@.len() - 5, n@.len() as int) == ".json"@,
        ),
    decreases names.len(),
{
    reveal(Seq::filter);
    if names.len() > 0 {
        commits_end_in_json(names.drop_last());
    } else {
        assert(log_names(names) =~= names.filter(
            |n: String|
                n@.len() > 5 && n@.subrange(n@.len() - 5, n@.len() as int) == ".json"@,
        ));
    }
}

} // verus!
