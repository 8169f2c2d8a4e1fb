//! Pre-flight size estimates from metadata alone: what a scan reads, and how much
//! memory the query then needs at its peak.

pub mod delta;
pub mod explain;
pub mod parquet;
pub mod samples;

use vstd::prelude::*;
use crate::math::{max_int, min_int, min_u64, sat_add_u64, sat_mul_u64};
use crate::types::strs;

verus! {

/// A number from statistics: floating-point values are held by an integer that
/// orders as they do. Nothing compares with a NaN.
#[derive(Debug, Clone, Copy, PartialEq, Eq, Structural)]
pub enum Num {
    Nan,
    Ordered(i64),
}

/// The bits below the sign of a floating-point bit pattern.
pub const MAGNITUDE_MASK: u64 = 0x7FFF_FFFF_FFFF_FFFF;

/// The magnitude bits of the infinities: every larger magnitude is a NaN.
pub const INFINITY_BITS: u64 = 0x7FF0_0000_0000_0000;

impl Num {
    pub open spec fn le(self, other: Num) -> bool {
        self is Ordered && other is Ordered && self->Ordered_0 <= other->Ordered_0
    }

    pub open spec fn lt(self, other: Num) -> bool {
        self is Ordered && other is Ordered && self->Ordered_0 < other->Ordered_0
    }

    pub fn is_le(self, other: Num) -> (r: bool)
        ensures
            r == self.le(other),
    {
        match self {
            Num::Ordered(a) => match other {
                Num::Ordered(b) => a <= b,
                Num::Nan => false,
            },
            Num::Nan => false,
        }
    }

    pub fn is_lt(self, other: Num) -> (r: bool)
        ensures
            r == self.lt(other),
    {
        match self {
            Num::Ordered(a) => match other {
                Num::Ordered(b) => a < b,
                Num::Nan => false,
            },
            Num::Nan => false,
        }
    }

    /// The number a floating-point bit pattern stands for: the magnitude, negated
    /// under a set sign bit, so that both zeros are equal.
    pub open spec fn of_bits(bits: u64) -> Num {
        let magnitude = bits % 0x8000_0000_0000_0000;
        if magnitude > INFINITY_BITS {
            Num::Nan
        } else if bits >= 0x8000_0000_0000_0000 {
            Num::Ordered((0 - magnitude) as i64)
        } else {
            Num::Ordered(magnitude as i64)
        }
    }

    pub fn from_bits(bits: u64) -> (r: Num)
        ensures
            r == Num::of_bits(bits),
    {
        let magnitude: u64 = bits % 0x8000_0000_0000_0000;
        if magnitude > INFINITY_BITS {
            Num::Nan
        } else if bits >= 0x8000_0000_0000_0000 {
            Num::Ordered(0 - magnitude as i64)
        } else {
            Num::Ordered(magnitude as i64)
        }
    }
}

/// Which columns a query reads.
#[derive(Debug, Clone, PartialEq, Eq)]
pub enum Projection {
    All,
    Columns(Vec<String>),
}

impl Projection {
    /// Whether a column is read.
    pub open spec fn reads(&self, col: Seq<char>) -> bool {
        match self {
            Projection::All => true,
            Projection::Columns(cs) => strs(cs@).contains(col),
        }
    }

    /// How many columns are read of a table with `total` columns.
    pub open spec fn width(&self, total: usize) -> int {
        match self {
            Projection::All => max_int(total as int, 1),
            Projection::Columns(cs) => max_int(cs@.len() as int, 1),
        }
    }

    /// The projection onto the named columns.
    pub fn columns(cols: Vec<String>) -> (r: Projection)
        ensures
            r == Projection::Columns(cols),
    {
        Projection::Columns(cols)
    }

    /// Whether `col` is read by this projection.
    pub fn includes(&self, col: &String) -> (r: bool)
        ensures
            r == self.reads(col@),
    {
        match self {
            Projection::All => true,
            Projection::Columns(cs) => crate::types::has_str(cs, col),
        }
    }

    /// The number of columns read, given the table's full column count.
    pub fn projected_count(&self, total_columns: usize) -> (r: usize)
        ensures
            r == self.width(total_columns),
    {
        let n: usize = match self {
            Projection::All => total_columns,
            Projection::Columns(cs) => cs.len(),
        };
        if n == 0 {
            1
        } else {
            n
        }
    }
}

/// A comparison that statistics can prune by.
#[derive(Debug, Clone, Copy, PartialEq, Eq, Structural)]
pub enum Cmp {
    Eq,
    Ne,
    Lt,
    Le,
    Gt,
    Ge,
}

/// A pushed-down predicate `column <op> value`.
#[derive(Debug, Clone, PartialEq, Eq)]
pub struct Predicate {
    pub column: String,
    pub op: Cmp,
    pub value: Num,
}

/// Whether a chunk with the range `[min, max]` can hold a value that satisfies the
/// comparison with `value`. Without a full range nothing is excluded.
pub open spec fn may_match(op: Cmp, value: Num, min: Option<Num>, max: Option<Num>) -> bool {
    min is Some && max is Some ==> match op {
        Cmp::Eq => min->0.le(value) && value.le(max->0),
        Cmp::Ne => true,
        Cmp::Lt => min->0.lt(value),
        Cmp::Le => min->0.le(value),
        Cmp::Gt => value.lt(max->0),
        Cmp::Ge => value.le(max->0),
    }
}

impl Predicate {
    pub fn new(column: String, op: Cmp, value: Num) -> (r: Predicate)
        ensures
            r == (Predicate { column, op, value }),
    {
        Predicate { column, op, value }
    }

    /// Can a chunk with these statistics hold a row that satisfies the predicate?
    pub fn overlaps(&self, min: Option<Num>, max: Option<Num>) -> (r: bool)
        ensures
            r == may_match(self.op, self.value, min, max),
    {
        let lo = match min {
            Some(a) => a,
            None => {
                return true;
            },
        };
        let hi = match max {
            Some(b) => b,
            None => {
                return true;
            },
        };
        match self.op {
            Cmp::Eq => lo.is_le(self.value) && self.value.is_le(hi),
            Cmp::Ne => true,
            Cmp::Lt => lo.is_lt(self.value),
            Cmp::Le => lo.is_le(self.value),
            Cmp::Gt => self.value.is_lt(hi),
            Cmp::Ge => self.value.is_le(hi),
        }
    }
}

/// Whether the value `v` satisfies the comparison with `value`.
pub open spec fn satisfies(op: Cmp, v: Num, value: Num) -> bool {
    match op {
        Cmp::Eq => v.le(value) && value.le(v),
        Cmp::Ne => !(v.le(value) && value.le(v)),
        Cmp::Lt => v.lt(value),
        Cmp::Le => v.le(value),
        Cmp::Gt => value.lt(v),
        Cmp::Ge => value.le(v),
    }
}

/// Pruning is sound: a chunk that holds a satisfying value within its range is kept.
pub proof fn pruning_is_sound(op: Cmp, value: Num, v: Num, min: Option<Num>, max: Option<Num>)
    requires
        satisfies(op, v, value),
        min is Some ==> min->0.le(v),
        max is Some ==> v.le(max->0),
    ensures
        may_match(op, value, min, max),
{
}

/// The integer heuristics of the estimator.
#[derive(Debug, Clone, Copy, PartialEq, Eq, Structural)]
pub struct EstimateParams {
    /// Average row width of a text format when there is no sample.
    pub text_row_width_fallback: u64,
    /// The most a streaming scan buffers.
    pub scan_buffer_cap_bytes: u64,
    /// Overhead of a `GROUP BY` hash-table entry.
    pub group_entry_overhead_bytes: u64,
    /// Assumed local throughput.
    pub throughput_bytes_per_ms: u64,
}

impl Default for EstimateParams {
    fn default() -> (r: EstimateParams)
        ensures
            r == (EstimateParams {
                text_row_width_fallback: 128,
                scan_buffer_cap_bytes: 16_777_216,
                group_entry_overhead_bytes: 32,
                throughput_bytes_per_ms: 500_000,
            }),
    {
        EstimateParams {
            text_row_width_fallback: 128,
            scan_buffer_cap_bytes: 16_777_216,
            group_entry_overhead_bytes: 32,
            throughput_bytes_per_ms: 500_000,
        }
    }
}

/// One Parquet column chunk.
#[derive(Debug, Clone, PartialEq, Eq)]
pub struct ColumnChunkMeta {
    pub name: String,
    /// The chunk's size once decoded.
    pub total_uncompressed_size: u64,
    pub num_values: u64,
    pub min: Option<Num>,
    pub max: Option<Num>,
}

/// One Parquet row group.
#[derive(Debug, Clone, PartialEq, Eq)]
pub struct RowGroupMeta {
    pub num_rows: u64,
    pub columns: Vec<ColumnChunkMeta>,
}

/// The first chunk named `name`, if there is one.
pub open spec fn chunk_named(columns: Seq<ColumnChunkMeta>, name: Seq<char>) -> Option<ColumnChunkMeta>
    decreases columns.len(),
{
    if columns.len() == 0 {
        None
    } else if columns[0].name@ == name {
        Some(columns[0])
    } else {
        chunk_named(columns.subrange(1, columns.len() as int), name)
    }
}

impl RowGroupMeta {
    /// The first chunk of the column `name`.
    pub fn column(&self, name: &String) -> (r: Option<&ColumnChunkMeta>)
        ensures
            r is Some <==> chunk_named(self.columns@, name@) is Some,
            r is Some ==> *r->0 == chunk_named(self.columns@, name@)->0,
    {
        let n: usize = self.columns.len();
        let mut i: usize = 0;
        assert(self.columns@.subrange(0, n as int) =~= self.columns@);
        while i < n
            invariant
                i <= n,
                n == self.columns@.len(),
                chunk_named(self.columns@.subrange(i as int, n as int), name@) == chunk_named(
                    self.columns@,
                    name@,
                ),
            decreases n - i,
        {
            let ghost rest = self.columns@.subrange(i as int, n as int);
            if self.columns[i].name == *name {
                return Some(&self.columns[i]);
            }
            i = i + 1;
            assert(rest.subrange(1, rest.len() as int) =~= self.columns@.subrange(
                i as int,
                n as int,
            ));
        }
        None
    }
}

/// Parquet file metadata.
#[derive(Debug, Clone, PartialEq, Eq)]
pub struct ParquetMetadata {
    pub row_groups: Vec<RowGroupMeta>,
}

/// A column's range within a data file.
#[derive(Debug, Clone, PartialEq, Eq)]
pub struct ColumnBounds {
    pub column: String,
    pub min: Option<Num>,
    pub max: Option<Num>,
}

/// One data file of a Delta or Iceberg table. Each column has one range.
#[derive(Debug, Clone, PartialEq, Eq)]
pub struct DataFileMeta {
    /// The file's size on disk.
    pub size_bytes: u64,
    pub record_count: u64,
    pub bounds: Vec<ColumnBounds>,
}

/// A Delta or Iceberg table.
#[derive(Debug, Clone, PartialEq, Eq)]
pub struct TableFilesMetadata {
    pub all_columns: Vec<String>,
    pub files: Vec<DataFileMeta>,
}

/// A Delta table's metadata.
pub type DeltaMetadata = TableFilesMetadata;

/// An Iceberg table's metadata.
pub type IcebergMetadata = TableFilesMetadata;

/// A CSV or JSON object and a sample of it.
#[derive(Debug, Clone, Copy, PartialEq, Eq, Structural)]
pub struct TextMetadata {
    pub object_bytes: u64,
    pub sample_bytes: u64,
    pub sample_rows: u64,
    pub total_columns: usize,
}

/// What a scan reads.
#[derive(Debug, Clone, Copy, PartialEq, Eq, Structural)]
pub struct ScanEstimate {
    pub scanned_uncompressed_bytes: u64,
    pub total_rows: u64,
    pub estimated_output_rows: u64,
    pub avg_row_width_bytes: u64,
    pub units_total: usize,
    pub units_scanned: usize,
    pub projected_columns: usize,
}

/// The counts of a scan, before its output rows are estimated.
#[derive(Debug, Clone, Copy, PartialEq, Eq, Structural)]
pub struct ScanTotals {
    pub scanned_uncompressed_bytes: u64,
    pub total_rows: u64,
    pub units_total: usize,
    pub units_scanned: usize,
    pub projected_columns: usize,
}

impl ScanTotals {
    pub open spec fn estimate(self, output_rows: u64) -> ScanEstimate {
        ScanEstimate {
            scanned_uncompressed_bytes: self.scanned_uncompressed_bytes,
            total_rows: self.total_rows,
            estimated_output_rows: output_rows,
            avg_row_width_bytes: if self.total_rows > 0 {
                self.scanned_uncompressed_bytes / self.total_rows
            } else {
                0
            },
            units_total: self.units_total,
            units_scanned: self.units_scanned,
            projected_columns: self.projected_columns,
        }
    }

    /// The estimate with the given output rows (the total rows scaled by the
    /// predicates' selectivity).
    pub fn finalize(self, estimated_output_rows: u64) -> (r: ScanEstimate)
        ensures
            r == self.estimate(estimated_output_rows),
    {
        ScanEstimate {
            scanned_uncompressed_bytes: self.scanned_uncompressed_bytes,
            total_rows: self.total_rows,
            estimated_output_rows,
            avg_row_width_bytes: if self.total_rows > 0 {
                self.scanned_uncompressed_bytes / self.total_rows
            } else {
                0
            },
            units_total: self.units_total,
            units_scanned: self.units_scanned,
            projected_columns: self.projected_columns,
        }
    }
}

/// Whether a row group survives: no predicate's statistics exclude it.
pub open spec fn group_survives(g: RowGroupMeta, predicates: Seq<Predicate>) -> bool {
    forall|i: int|
        0 <= i < predicates.len() ==> (match chunk_named(
            g.columns@,
            (#[trigger] predicates[i]).column@,
        ) {
            Some(c) => may_match(predicates[i].op, predicates[i].value, c.min, c.max),
            None => true,
        })
}

/// The projected bytes of the chunks `columns`.
pub open spec fn projected_bytes(columns: Seq<ColumnChunkMeta>, projection: Projection) -> int
    decreases columns.len(),
{
    if columns.len() == 0 {
        0
    } else {
        projected_bytes(columns.drop_last(), projection) + (if projection.reads(
            columns.last().name@,
        ) {
            columns.last().total_uncompressed_size as int
        } else {
            0
        })
    }
}

/// How many of the chunks `columns` are read.
pub open spec fn projected_chunks(columns: Seq<ColumnChunkMeta>, projection: Projection) -> int
    decreases columns.len(),
{
    if columns.len() == 0 {
        0
    } else {
        projected_chunks(columns.drop_last(), projection) + (if projection.reads(
            columns.last().name@,
        ) {
            1int
        } else {
            0
        })
    }
}

/// Sums over the surviving row groups: bytes, rows, groups, and the most chunks read.
pub open spec fn parquet_sums(
    groups: Seq<RowGroupMeta>,
    projection: Projection,
    predicates: Seq<Predicate>,
) -> (int, int, int, int)
    decreases groups.len(),
{
    if groups.len() == 0 {
        (0, 0, 0, 0)
    } else {
        let rest = parquet_sums(groups.drop_last(), projection, predicates);
        let g = groups.last();
        if group_survives(g, predicates) {
            (
                rest.0 + projected_bytes(g.columns@, projection),
                rest.1 + g.num_rows,
                rest.2 + 1,
                max_int(rest.3, projected_chunks(g.columns@, projection)),
            )
        } else {
            rest
        }
    }
}

fn survives(g: &RowGroupMeta, predicates: &[Predicate]) -> (r: bool)
    ensures
        r == group_survives(*g, predicates@),
{
    let mut i: usize = 0;
    while i < predicates.len()
        invariant
            i <= predicates@.len(),
            forall|k: int|
                0 <= k < i ==> (match chunk_named(
                    g.columns@,
                    (#[trigger] predicates@[k]).column@,
                ) {
                    Some(c) => may_match(predicates@[k].op, predicates@[k].value, c.min, c.max),
                    None => true,
                }),
        decreases predicates@.len() - i,
    {
        if let Some(c) = g.column(&predicates[i].column) {
            if !predicates[i].overlaps(c.min, c.max) {
                return false;
            }
        }
        i = i + 1;
    }
    true
}

proof fn projected_bytes_monotone(columns: Seq<ColumnChunkMeta>, projection: Projection, i: int)
    requires
        0 <= i <= columns.len(),
    ensures
        0 <= projected_bytes(columns.take(i), projection) <= projected_bytes(columns, projection),
        0 <= projected_chunks(columns.take(i), projection) <= projected_chunks(columns, projection),
        projected_chunks(columns, projection) <= columns.len(),
    decreases columns.len(),
{
    if columns.len() == 0 {
        assert(columns.take(i) =~= columns);
    } else if i == columns.len() {
        assert(columns.take(i) =~= columns);
        projected_bytes_monotone(columns.drop_last(), projection, i - 1);
    } else {
        projected_bytes_monotone(columns.drop_last(), projection, i);
        assert(columns.drop_last().take(i) =~= columns.take(i));
    }
}

proof fn parquet_sums_monotone(
    groups: Seq<RowGroupMeta>,
    projection: Projection,
    predicates: Seq<Predicate>,
    i: int,
)
    requires
        0 <= i <= groups.len(),
    ensures
        ({
            let a = parquet_sums(groups.take(i), projection, predicates);
            let b = parquet_sums(groups, projection, predicates);
            &&& 0 <= a.0 <= b.0
            &&& 0 <= a.1 <= b.1
            &&& 0 <= a.2 <= i
            &&& 0 <= a.3 <= b.3
            &&& b.2 <= groups.len()
        }),
    decreases groups.len(),
{
    if groups.len() == 0 {
        assert(groups.take(i) =~= groups);
    } else {
        let g = groups.last();
        projected_bytes_monotone(g.columns@, projection, 0);
        if i == groups.len() {
            assert(groups.take(i) =~= groups);
            parquet_sums_monotone(groups.drop_last(), projection, predicates, i - 1);
            assert(groups.drop_last().take(i - 1) =~= groups.drop_last());
        } else {
            parquet_sums_monotone(groups.drop_last(), projection, predicates, i);
            assert(groups.drop_last().take(i) =~= groups.take(i));
        }
    }
}

/// What a Parquet scan reads: the projected columns of the row groups that the
/// predicates' statistics do not exclude.
pub fn estimate_parquet(
    meta: &ParquetMetadata,
    projection: &Projection,
    predicates: &[Predicate],
) -> (r: ScanTotals)
    requires
        parquet_sums(meta.row_groups@, *projection, predicates@).0 <= u64::MAX,
        parquet_sums(meta.row_groups@, *projection, predicates@).1 <= u64::MAX,
    ensures
        ({
            let s = parquet_sums(meta.row_groups@, *projection, predicates@);
            &&& r.scanned_uncompressed_bytes == s.0
            &&& r.total_rows == s.1
            &&& r.units_total == meta.row_groups@.len()
            &&& r.units_scanned == s.2
            &&& r.projected_columns == s.3
        }),
{
    let mut bytes: u64 = 0;
    let mut rows: u64 = 0;
    let mut units: usize = 0;
    let mut most: usize = 0;
    let mut i: usize = 0;
    let ghost groups = meta.row_groups@;
    while i < meta.row_groups.len()
        invariant
            i <= groups.len(),
            groups == meta.row_groups@,
            parquet_sums(groups, *projection, predicates@).0 <= u64::MAX,
            parquet_sums(groups, *projection, predicates@).1 <= u64::MAX,
            units <= i,
            (bytes as int, rows as int, units as int, most as int) == parquet_sums(
                groups.take(i as int),
                *projection,
                predicates@,
            ),
        decreases groups.len() - i,
    {
        let g = &meta.row_groups[i];
        proof {
            let next = groups.take(i + 1);
            assert(next.drop_last() =~= groups.take(i as int));
            assert(next.last() == *g);
            parquet_sums_monotone(groups, *projection, predicates@, i + 1);
        }
        if survives(g, predicates) {
            let mut here: usize = 0;
            let mut j: usize = 0;
            let ghost start = bytes;
            proof {
                projected_bytes_monotone(g.columns@, *projection, 0);
            }
            while j < g.columns.len()
                invariant
                    j <= g.columns@.len(),
                    here <= j,
                    start + projected_bytes(g.columns@, *projection) <= u64::MAX,
                    bytes == start + projected_bytes(g.columns@.take(j as int), *projection),
                    here == projected_chunks(g.columns@.take(j as int), *projection),
                decreases g.columns@.len() - j,
            {
                proof {
                    let next = g.columns@.take(j + 1);
                    assert(next.drop_last() =~= g.columns@.take(j as int));
                    assert(next.last() == g.columns@[j as int]);
                    projected_bytes_monotone(g.columns@, *projection, j + 1);
                }
                if projection.includes(&g.columns[j].name) {
                    bytes = bytes + g.columns[j].total_uncompressed_size;
                    here = here + 1;
                }
                j = j + 1;
            }
            assert(g.columns@.take(j as int) =~= g.columns@);
            rows = rows + g.num_rows;
            units = units + 1;
            if here > most {
                most = here;
            }
        }
        i = i + 1;
    }
    assert(groups.take(i as int) =~= groups);
    ScanTotals {
        scanned_uncompressed_bytes: bytes,
        total_rows: rows,
        units_total: meta.row_groups.len(),
        units_scanned: units,
        projected_columns: most,
    }
}

/// The range of the column `name`, if the file has one.
pub open spec fn bounds_named(bounds: Seq<ColumnBounds>, name: Seq<char>) -> Option<ColumnBounds>
    decreases bounds.len(),
{
    if bounds.len() == 0 {
        None
    } else if bounds[0].column@ == name {
        Some(bounds[0])
    } else {
        bounds_named(bounds.subrange(1, bounds.len() as int), name)
    }
}

/// Whether a data file survives: no predicate's bounds exclude it.
pub open spec fn file_survives(f: DataFileMeta, predicates: Seq<Predicate>) -> bool {
    forall|i: int|
        0 <= i < predicates.len() ==> (match bounds_named(
            f.bounds@,
            (#[trigger] predicates[i]).column@,
        ) {
            Some(b) => may_match(predicates[i].op, predicates[i].value, b.min, b.max),
            None => true,
        })
}

fn find_bounds<'a>(bounds: &'a [ColumnBounds], name: &String) -> (r: Option<&'a ColumnBounds>)
    ensures
        r is Some <==> bounds_named(bounds@, name@) is Some,
        r is Some ==> *r->0 == bounds_named(bounds@, name@)->0,
{
    let n: usize = bounds.len();
    let mut i: usize = 0;
    assert(bounds@.subrange(0, n as int) =~= bounds@);
    while i < n
        invariant
            i <= n,
            n == bounds@.len(),
            bounds_named(bounds@.subrange(i as int, n as int), name@) == bounds_named(
                bounds@,
                name@,
            ),
        decreases n - i,
    {
        let ghost rest = bounds@.subrange(i as int, n as int);
        if bounds[i].column == *name {
            return Some(&bounds[i]);
        }
        i = i + 1;
        assert(rest.subrange(1, rest.len() as int) =~= bounds@.subrange(i as int, n as int));
    }
    None
}

fn keeps_file(f: &DataFileMeta, predicates: &[Predicate]) -> (r: bool)
    ensures
        r == file_survives(*f, predicates@),
{
    let mut i: usize = 0;
    while i < predicates.len()
        invariant
            i <= predicates@.len(),
            forall|k: int|
                0 <= k < i ==> (match bounds_named(
                    f.bounds@,
                    (#[trigger] predicates@[k]).column@,
                ) {
                    Some(b) => may_match(predicates@[k].op, predicates@[k].value, b.min, b.max),
                    None => true,
                }),
        decreases predicates@.len() - i,
    {
        if let Some(b) = find_bounds(&f.bounds, &predicates[i].column) {
            if !predicates[i].overlaps(b.min, b.max) {
                return false;
            }
        }
        i = i + 1;
    }
    true
}

/// Sums over the surviving files: footprints, records and files.
pub open spec fn file_sums(
    files: Seq<DataFileMeta>,
    footprints: Seq<u64>,
    predicates: Seq<Predicate>,
) -> (int, int, int)
    decreases files.len(),
{
    if files.len() == 0 {
        (0, 0, 0)
    } else {
        let rest = file_sums(files.drop_last(), footprints, predicates);
        let f = files.last();
        if file_survives(f, predicates) {
            (rest.0 + footprints[files.len() - 1], rest.1 + f.record_count, rest.2 + 1)
        } else {
            rest
        }
    }
}

proof fn file_sums_monotone(
    files: Seq<DataFileMeta>,
    footprints: Seq<u64>,
    predicates: Seq<Predicate>,
    i: int,
)
    requires
        0 <= i <= files.len(),
    ensures
        ({
            let a = file_sums(files.take(i), footprints, predicates);
            let b = file_sums(files, footprints, predicates);
            0 <= a.0 <= b.0 && 0 <= a.1 <= b.1 && 0 <= a.2 <= i && b.2 <= files.len()
        }),
    decreases files.len(),
{
    if files.len() == 0 {
        assert(files.take(i) =~= files);
    } else if i == files.len() {
        assert(files.take(i) =~= files);
        file_sums_monotone(files.drop_last(), footprints, predicates, i - 1);
        assert(files.drop_last().take(i - 1) =~= files.drop_last());
    } else {
        file_sums_monotone(files.drop_last(), footprints, predicates, i);
        assert(files.drop_last().take(i) =~= files.take(i));
    }
}

/// What a Delta or Iceberg scan reads of the files that the predicates' bounds do not
/// exclude. `footprints[i]` is the projected, uncompressed size of the i-th file.
pub fn estimate_table_files(
    meta: &TableFilesMetadata,
    projection: &Projection,
    predicates: &[Predicate],
    footprints: &[u64],
) -> (r: ScanTotals)
    requires
        footprints@.len() == meta.files@.len(),
        file_sums(meta.files@, footprints@, predicates@).0 <= u64::MAX,
        file_sums(meta.files@, footprints@, predicates@).1 <= u64::MAX,
    ensures
        ({
            let s = file_sums(meta.files@, footprints@, predicates@);
            &&& r.scanned_uncompressed_bytes == s.0
            &&& r.total_rows == s.1
            &&& r.units_total == meta.files@.len()
            &&& r.units_scanned == s.2
            &&& r.projected_columns == projection.width(
                max_int(meta.all_columns@.len() as int, 1) as usize,
            )
        }),
{
    let total_columns: usize = if meta.all_columns.len() == 0 {
        1
    } else {
        meta.all_columns.len()
    };
    let mut bytes: u64 = 0;
    let mut rows: u64 = 0;
    let mut units: usize = 0;
    let mut i: usize = 0;
    let ghost files = meta.files@;
    while i < meta.files.len()
        invariant
            i <= files.len(),
            files == meta.files@,
            footprints@.len() == files.len(),
            file_sums(files, footprints@, predicates@).0 <= u64::MAX,
            file_sums(files, footprints@, predicates@).1 <= u64::MAX,
            units <= i,
            (bytes as int, rows as int, units as int) == file_sums(
                files.take(i as int),
                footprints@,
                predicates@,
            ),
        decreases files.len() - i,
    {
        proof {
            let next = files.take(i + 1);
            assert(next.drop_last() =~= files.take(i as int));
            assert(next.last() == files[i as int]);
            file_sums_monotone(files, footprints@, predicates@, i + 1);
        }
        if keeps_file(&meta.files[i], predicates) {
            bytes = bytes + footprints[i];
            rows = rows + meta.files[i].record_count;
            units = units + 1;
        }
        i = i + 1;
    }
    assert(files.take(i as int) =~= files);
    ScanTotals {
        scanned_uncompressed_bytes: bytes,
        total_rows: rows,
        units_total: meta.files.len(),
        units_scanned: units,
        projected_columns: projection.projected_count(total_columns),
    }
}

/// The rows of a text object: extrapolated from the sample's ratio, else from the
/// fallback row width.
pub open spec fn text_rows(meta: TextMetadata, params: EstimateParams) -> int {
    if meta.sample_rows > 0 && meta.sample_bytes > 0 {
        (meta.object_bytes * meta.sample_rows / meta.sample_bytes as int) % 0x1_0000_0000_0000_0000
    } else if params.text_row_width_fallback > 0 {
        meta.object_bytes as int / params.text_row_width_fallback as int
    } else {
        0
    }
}

/// What a CSV or JSON scan reads: one object. `scanned_bytes` is the object's size
/// scaled by the share of its columns that is projected.
pub fn estimate_text(
    meta: &TextMetadata,
    projection: &Projection,
    params: &EstimateParams,
    scanned_bytes: u64,
) -> (r: ScanTotals)
    ensures
        r.scanned_uncompressed_bytes == scanned_bytes,
        r.total_rows == text_rows(*meta, *params),
        r.units_total == 1,
        r.units_scanned == 1,
        r.projected_columns == projection.width(max_int(meta.total_columns as int, 1) as usize),
{
    let total_rows: u64 = if meta.sample_rows > 0 && meta.sample_bytes > 0 {
        assert(meta.object_bytes * meta.sample_rows <= 0xFFFF_FFFF_FFFF_FFFF
            * 0xFFFF_FFFF_FFFF_FFFF) by (nonlinear_arith)
            requires
                meta.object_bytes <= 0xFFFF_FFFF_FFFF_FFFF,
                meta.sample_rows <= 0xFFFF_FFFF_FFFF_FFFF,
        ;
        let product: u128 = meta.object_bytes as u128 * meta.sample_rows as u128;
        let quotient: u128 = product / meta.sample_bytes as u128;
        (quotient % 0x1_0000_0000_0000_0000) as u64
    } else if params.text_row_width_fallback > 0 {
        meta.object_bytes / params.text_row_width_fallback
    } else {
        0
    };
    let total_columns: usize = if meta.total_columns == 0 {
        1
    } else {
        meta.total_columns
    };
    ScanTotals {
        scanned_uncompressed_bytes: scanned_bytes,
        total_rows,
        units_total: 1,
        units_scanned: 1,
        projected_columns: projection.projected_count(total_columns),
    }
}

/// The blocking operators of a plan.
#[derive(Debug, Clone, Copy, PartialEq, Eq, Structural)]
pub struct QueryShape {
    pub group_by: bool,
    pub distinct_groups: u64,
    /// Bytes per group entry (`0` for the scan's row width).
    pub group_payload_bytes: u64,
    pub hash_join: bool,
    pub join_build_rows: u64,
    /// Bytes per build-side row (`0` for the scan's row width).
    pub join_build_row_width: u64,
    pub sort_or_window: bool,
    pub sort_rows: u64,
    /// Bytes per buffered row (`0` for the scan's row width).
    pub sort_row_width: u64,
}

impl Default for QueryShape {
    fn default() -> (r: QueryShape)
        ensures
            r == QueryShape::streaming_spec(),
    {
        QueryShape {
            group_by: false,
            distinct_groups: 0,
            group_payload_bytes: 0,
            hash_join: false,
            join_build_rows: 0,
            join_build_row_width: 0,
            sort_or_window: false,
            sort_rows: 0,
            sort_row_width: 0,
        }
    }
}

impl QueryShape {
    pub open spec fn streaming_spec() -> QueryShape {
        QueryShape {
            group_by: false,
            distinct_groups: 0,
            group_payload_bytes: 0,
            hash_join: false,
            join_build_rows: 0,
            join_build_row_width: 0,
            sort_or_window: false,
            sort_rows: 0,
            sort_row_width: 0,
        }
    }

    /// A plan without blocking operators.
    pub fn streaming() -> (r: QueryShape)
        ensures
            r == QueryShape::streaming_spec(),
    {
        QueryShape::default()
    }

    /// A simple `GROUP BY`.
    pub fn group_by(distinct_groups: u64) -> (r: QueryShape)
        ensures
            r == (QueryShape { group_by: true, distinct_groups, ..QueryShape::streaming_spec() }),
    {
        QueryShape { group_by: true, distinct_groups, ..QueryShape::default() }
    }
}

/// The estimated peak working set of a query and its parts.
#[derive(Debug, Clone, Copy, PartialEq, Eq, Structural)]
pub struct WorkingSetEstimate {
    pub scanned_uncompressed_bytes: u64,
    pub estimated_rows: u64,
    /// The bounded streaming-scan buffer.
    pub scan_buffer_bytes: u64,
    /// Memory of the `GROUP BY` hash table.
    pub group_by_bytes: u64,
    /// Memory of the hash-join build side.
    pub join_build_bytes: u64,
    /// Memory of the sort or window buffer.
    pub sort_bytes: u64,
    /// The memory the query needs at its peak.
    pub peak_working_set_bytes: u64,
    pub estimated_runtime_ms: u64,
}

/// A width, or the scan's row width (at least one byte) where it is not given.
pub open spec fn width_or(width: u64, scan: ScanEstimate) -> int {
    if width > 0 {
        width as int
    } else {
        max_int(scan.avg_row_width_bytes as int, 1)
    }
}

pub open spec fn sat(n: int) -> int {
    min_int(n, u64::MAX as int)
}

pub open spec fn working_set_spec(
    scan: ScanEstimate,
    shape: QueryShape,
    params: EstimateParams,
) -> WorkingSetEstimate {
    let buffer = min_int(
        scan.scanned_uncompressed_bytes as int,
        params.scan_buffer_cap_bytes as int,
    );
    let group = if shape.group_by {
        sat(
            shape.distinct_groups * sat(
                width_or(shape.group_payload_bytes, scan) + params.group_entry_overhead_bytes,
            ),
        )
    } else {
        0
    };
    let join = if shape.hash_join {
        sat(shape.join_build_rows * width_or(shape.join_build_row_width, scan))
    } else {
        0
    };
    let sort = if shape.sort_or_window {
        sat(shape.sort_rows * width_or(shape.sort_row_width, scan))
    } else {
        0
    };
    WorkingSetEstimate {
        scanned_uncompressed_bytes: scan.scanned_uncompressed_bytes,
        estimated_rows: scan.estimated_output_rows,
        scan_buffer_bytes: buffer as u64,
        group_by_bytes: group as u64,
        join_build_bytes: join as u64,
        sort_bytes: sort as u64,
        peak_working_set_bytes: sat(buffer + group + join + sort) as u64,
        estimated_runtime_ms: if params.throughput_bytes_per_ms > 0 {
            scan.scanned_uncompressed_bytes / params.throughput_bytes_per_ms
        } else {
            0
        },
    }
}

fn width(given: u64, scan: &ScanEstimate) -> (r: u64)
    ensures
        r == width_or(given, *scan),
{
    if given > 0 {
        given
    } else if scan.avg_row_width_bytes > 1 {
        scan.avg_row_width_bytes
    } else {
        1
    }
}

/// The peak working set of a query: the bounded scan buffer plus the state of the
/// blocking operators, not the size of the input.
pub fn estimate_working_set(
    scan: &ScanEstimate,
    shape: &QueryShape,
    params: &EstimateParams,
) -> (r: WorkingSetEstimate)
    ensures
        r == working_set_spec(*scan, *shape, *params),
{
    let scan_buffer_bytes: u64 = min_u64(
        scan.scanned_uncompressed_bytes,
        params.scan_buffer_cap_bytes,
    );
    let group_by_bytes: u64 = if shape.group_by {
        sat_mul_u64(
            shape.distinct_groups,
            sat_add_u64(width(shape.group_payload_bytes, scan), params.group_entry_overhead_bytes),
        )
    } else {
        0
    };
    let join_build_bytes: u64 = if shape.hash_join {
        sat_mul_u64(shape.join_build_rows, width(shape.join_build_row_width, scan))
    } else {
        0
    };
    let sort_bytes: u64 = if shape.sort_or_window {
        sat_mul_u64(shape.sort_rows, width(shape.sort_row_width, scan))
    } else {
        0
    };
    let peak_working_set_bytes: u64 = sat_add_u64(
        sat_add_u64(sat_add_u64(scan_buffer_bytes, group_by_bytes), join_build_bytes),
        sort_bytes,
    );
    let estimated_runtime_ms: u64 = if params.throughput_bytes_per_ms > 0 {
        scan.scanned_uncompressed_bytes / params.throughput_bytes_per_ms
    } else {
        0
    };
    proof {
        products_are_not_negative(*scan, *shape, *params);
    }
    WorkingSetEstimate {
        scanned_uncompressed_bytes: scan.scanned_uncompressed_bytes,
        estimated_rows: scan.estimated_output_rows,
        scan_buffer_bytes,
        group_by_bytes,
        join_build_bytes,
        sort_bytes,
        peak_working_set_bytes,
        estimated_runtime_ms,
    }
}

proof fn products_are_not_negative(scan: ScanEstimate, shape: QueryShape, params: EstimateParams)
    ensures
        0 <= shape.distinct_groups * sat(
            width_or(shape.group_payload_bytes, scan) + params.group_entry_overhead_bytes,
        ),
        0 <= shape.join_build_rows * width_or(shape.join_build_row_width, scan),
        0 <= shape.sort_rows * width_or(shape.sort_row_width, scan),
{
    let a = sat(width_or(shape.group_payload_bytes, scan) + params.group_entry_overhead_bytes);
    let b = width_or(shape.join_build_row_width, scan);
    let c = width_or(shape.sort_row_width, scan);
    assert(0 <= shape.distinct_groups * a && 0 <= shape.join_build_rows * b && 0 <= shape.sort_rows
        * c) by (nonlinear_arith)
        requires
            0 <= shape.distinct_groups,
            0 <= shape.join_build_rows,
            0 <= shape.sort_rows,
            0 <= a,
            0 <= b,
            0 <= c,
    ;
}

/// A streaming plan needs only its scan buffer, however large the input.
pub proof fn streaming_needs_only_the_buffer(scan: ScanEstimate, params: EstimateParams)
    ensures
        working_set_spec(scan, QueryShape::streaming_spec(), params).peak_working_set_bytes
            == min_int(
            scan.scanned_uncompressed_bytes as int,
            params.scan_buffer_cap_bytes as int,
        ),
{
}

/// A blocking operator never lowers the peak.
pub proof fn peak_covers_every_part(scan: ScanEstimate, shape: QueryShape, params: EstimateParams)
    ensures
        ({
            let w = working_set_spec(scan, shape, params);
            &&& w.scan_buffer_bytes <= w.peak_working_set_bytes
            &&& w.group_by_bytes <= w.peak_working_set_bytes
            &&& w.join_build_bytes <= w.peak_working_set_bytes
            &&& w.sort_bytes <= w.peak_working_set_bytes
        }),
{
    products_are_not_negative(scan, shape, params);
}

/// Errors from reading object metadata.
#[derive(Debug, Clone, PartialEq, Eq)]
pub enum EstimateError {
    /// A path could not be read, and why.
    Io(String, String),
    Parse(String),
}

impl EstimateError {
    /// The text of the error.
    pub open spec fn text(self) -> Seq<char> {
        match self {
            EstimateError::Io(path, why) => "io error reading "@ + path@ + ": "@ + why@,
            EstimateError::Parse(why) => "could not parse metadata: "@ + why@,
        }
    }

    /// The text of the error.
    pub fn message(&self) -> (r: String)
        ensures
            r@ == self.text(),
    {
        match self {
            EstimateError::Io(path, why) => {
                let mut r = "io error reading ".to_owned();
                r.append(path.as_str());
                r.append(": ");
                r.append(why.as_str());
                r
            },
            EstimateError::Parse(why) => {
                let mut r = "could not parse metadata: ".to_owned();
                r.append(why.as_str());
                r
            },
        }
    }
}

/// A scan of one opaque source of `scanned_bytes` whose rows are unknown.
pub fn raw_scan_estimate(scanned_bytes: u64) -> (r: ScanEstimate)
    ensures
        r == (ScanEstimate {
            scanned_uncompressed_bytes: scanned_bytes,
            total_rows: 0,
            estimated_output_rows: 0,
            avg_row_width_bytes: 0,
            units_total: 1,
            units_scanned: 1,
            projected_columns: 0,
        }),
{
    ScanEstimate {
        scanned_uncompressed_bytes: scanned_bytes,
        total_rows: 0,
        estimated_output_rows: 0,
        avg_row_width_bytes: 0,
        units_total: 1,
        units_scanned: 1,
        projected_columns: 0,
    }
}

/// The width that an operator's entries have: the one that is given, else the scan's row
/// width, and at least one byte.
pub open spec fn is_entry_width(w: int, given: u64, row_width: u64) -> bool {
    if given > 0 {
        w == given
    } else if row_width > 0 {
        w == row_width
    } else {
        w == 1
    }
}

/// Whether `r` is `n`, or the largest size where `n` exceeds it.
pub open spec fn is_capped(r: u64, n: int) -> bool {
    if n <= u64::MAX {
        r == n
    } else {
        r == u64::MAX
    }
}

/// A `GROUP BY` holds an entry for every group: the given width or else that of a row,
/// and the overhead.
pub proof fn groups_hold_an_entry_each(
    scan: ScanEstimate,
    shape: QueryShape,
    params: EstimateParams,
    w: int,
)
    requires
        is_entry_width(w, shape.group_payload_bytes, scan.avg_row_width_bytes),
    ensures
        shape.group_by ==> is_capped(
            working_set_spec(scan, shape, params).group_by_bytes,
            shape.distinct_groups * (w + params.group_entry_overhead_bytes),
        ),
        !shape.group_by ==> working_set_spec(scan, shape, params).group_by_bytes == 0,
{
    products_are_not_negative(scan, shape, params);
    let n = w + params.group_entry_overhead_bytes;
    let g = shape.distinct_groups as int;
    assert(n > u64::MAX && g >= 1 ==> g * u64::MAX >= u64::MAX && g * n > u64::MAX)
        by (nonlinear_arith);
    assert(g == 0 ==> g * n == 0 && g * u64::MAX == 0) by (nonlinear_arith);
}

/// A hash join holds every row of its build side, and a sort or window every row that it
/// buffers.
pub proof fn joins_and_sorts_hold_their_rows(
    scan: ScanEstimate,
    shape: QueryShape,
    params: EstimateParams,
    j: int,
    s: int,
)
    requires
        is_entry_width(j, shape.join_build_row_width, scan.avg_row_width_bytes),
        is_entry_width(s, shape.sort_row_width, scan.avg_row_width_bytes),
    ensures
        ({
            let w = working_set_spec(scan, shape, params);
            &&& shape.hash_join ==> is_capped(w.join_build_bytes, shape.join_build_rows * j)
            &&& !shape.hash_join ==> w.join_build_bytes == 0
            &&& shape.sort_or_window ==> is_capped(w.sort_bytes, shape.sort_rows * s)
            &&& !shape.sort_or_window ==> w.sort_bytes == 0
        }),
{
    products_are_not_negative(scan, shape, params);
}

/// The peak is the scan's buffer and what the operators hold, together; the buffer is the
/// input where that is smaller than the most a scan buffers.
pub proof fn the_peak_is_the_sum_of_its_parts(
    scan: ScanEstimate,
    shape: QueryShape,
    params: EstimateParams,
)
    ensures
        ({
            let w = working_set_spec(scan, shape, params);
            &&& is_capped(
                w.peak_working_set_bytes,
                w.scan_buffer_bytes + w.group_by_bytes + w.join_build_bytes + w.sort_bytes,
            )
            &&& w.scan_buffer_bytes <= scan.scanned_uncompressed_bytes
            &&& w.scan_buffer_bytes <= params.scan_buffer_cap_bytes
            &&& w.scan_buffer_bytes == scan.scanned_uncompressed_bytes || w.scan_buffer_bytes
                == params.scan_buffer_cap_bytes
            &&& w.scanned_uncompressed_bytes == scan.scanned_uncompressed_bytes
            &&& w.estimated_rows == scan.estimated_output_rows
        }),
{
    products_are_not_negative(scan, shape, params);
}

/// The runtime is the time that the input takes at the assumed throughput; without one it
/// is none.
pub proof fn the_runtime_follows_the_throughput(
    scan: ScanEstimate,
    shape: QueryShape,
    params: EstimateParams,
)
    ensures
        ({
            let t = working_set_spec(scan, shape, params).estimated_runtime_ms as int;
            let rate = params.throughput_bytes_per_ms as int;
            &&& rate > 0 ==> t * rate <= scan.scanned_uncompressed_bytes
            &&& rate > 0 ==> scan.scanned_uncompressed_bytes < (t + 1) * rate
            &&& rate == 0 ==> t == 0
        }),
{
    let n = scan.scanned_uncompressed_bytes as int;
    let rate = params.throughput_bytes_per_ms as int;
    if rate > 0 {
        let t = n / rate;
        assert(t * rate <= n && n < (t + 1) * rate) by (nonlinear_arith)
            requires
                t == n / rate,
                rate > 0,
        ;
    }
}

/// A given width counts as it is given: leaving it out is the same as giving the row's.
pub proof fn a_missing_width_is_the_row_width(
    scan: ScanEstimate,
    shape: QueryShape,
    params: EstimateParams,
)
    requires
        scan.avg_row_width_bytes > 0,
        shape.group_payload_bytes == 0,
        shape.join_build_row_width == 0,
        shape.sort_row_width == 0,
    ensures
        working_set_spec(scan, shape, params) == working_set_spec(
            scan,
            QueryShape {
                group_payload_bytes: scan.avg_row_width_bytes,
                join_build_row_width: scan.avg_row_width_bytes,
                sort_row_width: scan.avg_row_width_bytes,
                ..shape
            },
            params,
        ),
{
}

/// The average row takes its part of the bytes, rounded down; no rows have no width.
pub proof fn the_average_row_takes_its_part(t: ScanTotals, output_rows: u64)
    ensures
        ({
            let e = t.estimate(output_rows);
            let w = e.avg_row_width_bytes as int;
            &&& t.total_rows > 0 ==> w * t.total_rows <= t.scanned_uncompressed_bytes
            &&& t.total_rows > 0 ==> t.scanned_uncompressed_bytes < (w + 1) * t.total_rows
            &&& t.total_rows == 0 ==> w == 0
            &&& e.scanned_uncompressed_bytes == t.scanned_uncompressed_bytes
            &&& e.total_rows == t.total_rows
            &&& e.estimated_output_rows == output_rows
            &&& e.units_total == t.units_total
            &&& e.units_scanned == t.units_scanned
            &&& e.projected_columns == t.projected_columns
        }),
{
    let n = t.scanned_uncompressed_bytes as int;
    let d = t.total_rows as int;
    if d > 0 {
        let w = n / d;
        assert(w * d <= n && n < (w + 1) * d) by (nonlinear_arith)
            requires
                w == n / d,
                d > 0,
        ;
    }
}

/// The rows of a text are in proportion to those of its sample; without a sample, every
/// row has the assumed width.
pub proof fn text_rows_are_in_proportion(meta: TextMetadata, params: EstimateParams)
    ensures
        ({
            let rows = text_rows(meta, params);
            let sampled = meta.sample_rows > 0 && meta.sample_bytes > 0;
            &&& sampled && meta.object_bytes * meta.sample_rows < 0x1_0000_0000_0000_0000
                * meta.sample_bytes ==> rows * meta.sample_bytes <= meta.object_bytes
                * meta.sample_rows && meta.object_bytes * meta.sample_rows < (rows + 1)
                * meta.sample_bytes
            &&& !sampled && params.text_row_width_fallback > 0 ==> rows
                * params.text_row_width_fallback <= meta.object_bytes && meta.object_bytes < (rows
                + 1) * params.text_row_width_fallback
            &&& !sampled && params.text_row_width_fallback == 0 ==> rows == 0
        }),
{
    let n = meta.object_bytes * meta.sample_rows;
    let d = meta.sample_bytes as int;
    assert(n >= 0) by (nonlinear_arith)
        requires
            n == meta.object_bytes * meta.sample_rows,
            0 <= meta.object_bytes,
            0 <= meta.sample_rows,
    ;
    if meta.sample_rows > 0 && meta.sample_bytes > 0 {
        if n < 0x1_0000_0000_0000_0000 * d {
            let q = n / d;
            assert(q * d <= n && n < (q + 1) * d && 0 <= q && q < 0x1_0000_0000_0000_0000)
                by (nonlinear_arith)
                requires
                    q == n / d,
                    d > 0,
                    n >= 0,
                    n < 0x1_0000_0000_0000_0000 * d,
            ;
        }
    } else if params.text_row_width_fallback > 0 {
        let f = params.text_row_width_fallback as int;
        let o = meta.object_bytes as int;
        let q = o / f;
        assert(q * f <= o && o < (q + 1) * f) by (nonlinear_arith)
            requires
                q == o / f,
                f > 0,
        ;
    }
}

/// A chunk is kept only where a value of its range can satisfy the comparison; one that
/// has no range, and any for `<>`, is always kept.
pub proof fn pruning_is_tight(op: Cmp, value: Num, min: Option<Num>, max: Option<Num>)
    ensures
        min is None || max is None || op == Cmp::Ne ==> may_match(op, value, min, max),
        min is Some && max is Some && op != Cmp::Ne && min->0.le(max->0) && may_match(
            op,
            value,
            min,
            max,
        ) ==> exists|v: Num| #[trigger]
            min->0.le(v) && v.le(max->0) && satisfies(op, v, value),
{
    if min is Some && max is Some && op != Cmp::Ne && min->0.le(max->0) && may_match(
        op,
        value,
        min,
        max,
    ) {
        let v = match op {
            Cmp::Eq => value,
            Cmp::Lt => min->0,
            Cmp::Le => min->0,
            _ => max->0,
        };
        assert(min->0.le(v) && v.le(max->0) && satisfies(op, v, value));
    }
}

/// The chunk of a column is the first of that name.
pub proof fn a_column_is_its_first_chunk(columns: Seq<ColumnChunkMeta>, name: Seq<char>, i: int)
    requires
        0 <= i <= columns.len(),
        forall|k: int| 0 <= k < i ==> (#[trigger] columns[k]).name@ != name,
        i < columns.len() ==> columns[i].name@ == name,
    ensures
        chunk_named(columns, name) == (if i < columns.len() {
            Some(columns[i])
        } else {
            None
        }),
    decreases columns.len(),
{
    if columns.len() > 0 && i > 0 {
        let rest = columns.subrange(1, columns.len() as int);
        assert(columns[0].name@ != name);
        assert forall|k: int| 0 <= k < i - 1 implies (#[trigger] rest[k]).name@ != name by {
            assert(rest[k] == columns[k + 1]);
        }
        a_column_is_its_first_chunk(rest, name, i - 1);
    }
}

/// The bounds of a column are the first of that name.
pub proof fn a_column_has_its_first_bounds(bounds: Seq<ColumnBounds>, name: Seq<char>, i: int)
    requires
        0 <= i <= bounds.len(),
        forall|k: int| 0 <= k < i ==> (#[trigger] bounds[k]).column@ != name,
        i < bounds.len() ==> bounds[i].column@ == name,
    ensures
        bounds_named(bounds, name) == (if i < bounds.len() {
            Some(bounds[i])
        } else {
            None
        }),
    decreases bounds.len(),
{
    if bounds.len() > 0 && i > 0 {
        let rest = bounds.subrange(1, bounds.len() as int);
        assert(bounds[0].column@ != name);
        assert forall|k: int| 0 <= k < i - 1 implies (#[trigger] rest[k]).column@ != name by {
            assert(rest[k] == bounds[k + 1]);
        }
        a_column_has_its_first_bounds(rest, name, i - 1);
    }
}

/// A row group is left out exactly where the range of some predicate's column excludes it.
pub proof fn groups_are_left_out_by_a_range(g: RowGroupMeta, predicates: Seq<Predicate>)
    ensures
        group_survives(g, predicates) == !exists|i: int|
            0 <= i < predicates.len() && chunk_named(
                g.columns@,
                (#[trigger] predicates[i]).column@,
            ) is Some && !may_match(
                predicates[i].op,
                predicates[i].value,
                chunk_named(g.columns@, predicates[i].column@)->0.min,
                chunk_named(g.columns@, predicates[i].column@)->0.max,
            ),
{
}

/// A data file is left out exactly where the bounds of some predicate's column exclude it.
pub proof fn files_are_left_out_by_a_range(f: DataFileMeta, predicates: Seq<Predicate>)
    ensures
        file_survives(f, predicates) == !exists|i: int|
            0 <= i < predicates.len() && bounds_named(
                f.bounds@,
                (#[trigger] predicates[i]).column@,
            ) is Some && !may_match(
                predicates[i].op,
                predicates[i].value,
                bounds_named(f.bounds@, predicates[i].column@)->0.min,
                bounds_named(f.bounds@, predicates[i].column@)->0.max,
            ),
{
}

/// The projected bytes are those of the columns that are read, and as many chunks count.
pub proof fn projection_counts_what_is_read(
    columns: Seq<ColumnChunkMeta>,
    more: ColumnChunkMeta,
    projection: Projection,
)
    ensures
        ({
            let read = match projection {
                Projection::All => true,
                Projection::Columns(cs) => exists|i: int|
                    0 <= i < cs@.len() && (#[trigger] cs@[i])@ == more.name@,
            };
            &&& projected_bytes(columns.push(more), projection) == projected_bytes(
                columns,
                projection,
            ) + (if read {
                more.total_uncompressed_size as int
            } else {
                0
            })
            &&& projected_chunks(columns.push(more), projection) == projected_chunks(
                columns,
                projection,
            ) + (if read {
                1int
            } else {
                0
            })
        }),
        projected_bytes(Seq::empty(), projection) == 0,
        projected_chunks(Seq::empty(), projection) == 0,
{
    assert(columns.push(more).drop_last() =~= columns);
    if let Projection::Columns(cs) = projection {
        let v = strs(cs@);
        if v.contains(more.name@) {
            let i = choose|i: int| 0 <= i < v.len() && v[i] == more.name@;
            assert(cs@[i]@ == more.name@);
        }
        if exists|i: int| 0 <= i < cs@.len() && (#[trigger] cs@[i])@ == more.name@ {
            let i = choose|i: int| 0 <= i < cs@.len() && (#[trigger] cs@[i])@ == more.name@;
            assert(v[i] == more.name@);
        }
    }
}

/// A row group adds what is read of it, its rows and itself, where it is scanned, and
/// nothing where it is left out.
pub proof fn row_groups_add_up(
    groups: Seq<RowGroupMeta>,
    more: RowGroupMeta,
    projection: Projection,
    predicates: Seq<Predicate>,
)
    ensures
        ({
            let a = parquet_sums(groups, projection, predicates);
            let b = parquet_sums(groups.push(more), projection, predicates);
            if group_survives(more, predicates) {
                &&& b.0 == a.0 + projected_bytes(more.columns@, projection)
                &&& b.1 == a.1 + more.num_rows
                &&& b.2 == a.2 + 1
                &&& b.3 >= a.3 && b.3 >= projected_chunks(more.columns@, projection)
                &&& b.3 == a.3 || b.3 == projected_chunks(more.columns@, projection)
            } else {
                b == a
            }
        }),
        parquet_sums(Seq::empty(), projection, predicates) == (0int, 0int, 0int, 0int),
{
    assert(groups.push(more).drop_last() =~= groups);
}

/// A data file adds its footprint, its records and itself, where it is scanned, and
/// nothing where it is left out.
pub proof fn data_files_add_up(
    files: Seq<DataFileMeta>,
    more: DataFileMeta,
    footprints: Seq<u64>,
    predicates: Seq<Predicate>,
)
    requires
        files.len() < footprints.len(),
    ensures
        ({
            let a = file_sums(files, footprints, predicates);
            let b = file_sums(files.push(more), footprints, predicates);
            if file_survives(more, predicates) {
                &&& b.0 == a.0 + footprints[files.len() as int]
                &&& b.1 == a.1 + more.record_count
                &&& b.2 == a.2 + 1
            } else {
                b == a
            }
        }),
        file_sums(Seq::empty(), footprints, predicates) == (0int, 0int, 0int),
{
    assert(files.push(more).drop_last() =~= files);
}

/// A projection counts its columns, all of the table's where it names none in particular,
/// and one at least.
pub proof fn a_projection_counts_its_columns(projection: Projection, total: usize)
    ensures
        projection is All && total > 0 ==> projection.width(total) == total,
        projection is All && total == 0 ==> projection.width(total) == 1,
        projection is Columns && projection->Columns_0@.len() > 0 ==> projection.width(total)
            == projection->Columns_0@.len(),
        projection is Columns && projection->Columns_0@.len() == 0 ==> projection.width(total) == 1,
{
}

/// Numbers order as the floating-point values of their bits: magnitudes upwards, negated
/// ones downwards and below them, both zeros alike; beyond the infinities there is nothing
/// to compare.
pub proof fn numbers_order_as_their_values(a: u64, b: u64)
    requires
        a <= MAGNITUDE_MASK,
        b <= MAGNITUDE_MASK,
    ensures
        ({
            let neg = |m: u64| Num::of_bits((m + 0x8000_0000_0000_0000) as u64);
            let pos = |m: u64| Num::of_bits(m);
            &&& a <= INFINITY_BITS && b <= INFINITY_BITS ==> {
                &&& pos(a).le(pos(b)) <==> a <= b
                &&& pos(a).lt(pos(b)) <==> a < b
                &&& neg(a).le(neg(b)) <==> b <= a
                &&& neg(a).lt(neg(b)) <==> b < a
                &&& neg(a).le(pos(b))
                &&& neg(a).lt(pos(b)) <==> a > 0 || b > 0
                &&& pos(b).le(neg(a)) <==> a == 0 && b == 0
            }
            &&& a > INFINITY_BITS ==> pos(a) == Num::Nan && neg(a) == Num::Nan
        }),
        !Num::Nan.le(Num::of_bits(b)) && !Num::of_bits(b).le(Num::Nan),
        !Num::Nan.lt(Num::of_bits(b)) && !Num::of_bits(b).lt(Num::Nan),
{
}

} // verus!
