//! Parquet file metadata out of the engine's `parquet_metadata` table.

use vstd::prelude::*;
use crate::engine::{ResultSet, Value};
use crate::estimator::{ColumnChunkMeta, Num, ParquetMetadata, RowGroupMeta};
use crate::scan::{decimal_i64, decimal_i64_seq, parse_i64, parse_i64_spec};
use crate::text::{ascii_lower_seq, ascii_lowercase, trim, trim_seq};
use crate::types::strs;

verus! {

/// The first column, from `from` on, with this name in any ASCII case.
pub open spec fn column_from(columns: Seq<Seq<char>>, name: Seq<char>, from: int) -> Option<int>
    decreases columns.len() - from,
{
    if from >= columns.len() {
        None
    } else if ascii_lower_seq(columns[from]) == ascii_lower_seq(name) {
        Some(from)
    } else {
        column_from(columns, name, from + 1)
    }
}

fn column(columns: &[String], name: &str) -> (r: Option<usize>)
    ensures
        r is Some <==> column_from(strs(columns@), name@, 0) is Some,
        r is Some ==> r->0 == column_from(strs(columns@), name@, 0)->0,
{
    let wanted = ascii_lowercase(name);
    let mut i: usize = 0;
    while i < columns.len()
        invariant
            i <= columns@.len(),
            wanted@ == ascii_lower_seq(name@),
            column_from(strs(columns@), name@, i as int) == column_from(
                strs(columns@),
                name@,
                0,
            ),
        decreases columns@.len() - i,
    {
        assert(strs(columns@)[i as int] == columns@[i as int]@);
        if ascii_lowercase(columns[i].as_str()) == wanted {
            return Some(i);
        }
        i = i + 1;
    }
    None
}

/// A cell of a row, if the row is that long.
pub open spec fn cell(row: Seq<Value>, i: int) -> Option<Value> {
    if 0 <= i < row.len() {
        Some(row[i])
    } else {
        None
    }
}

/// The integer that a cell holds or writes.
pub open spec fn cell_i64(v: Option<Value>) -> Option<i64> {
    match v {
        Some(Value::Int(i)) => Some(i),
        Some(Value::Float(f)) => Some(f.truncated),
        Some(Value::Text(s)) => parse_i64_spec(trim_seq(s@)),
        _ => None,
    }
}

/// The unsigned integer that a cell holds or writes.
pub open spec fn cell_u64(v: Option<Value>) -> Option<u64> {
    match cell_i64(v) {
        Some(i) => if i >= 0 {
            Some(i as u64)
        } else {
            None
        },
        None => None,
    }
}

/// The text of a text or integer cell.
pub open spec fn cell_text(v: Option<Value>) -> Option<Seq<char>> {
    match v {
        Some(Value::Text(s)) => Some(s@),
        Some(Value::Int(i)) => Some(decimal_i64_seq(i as int)),
        _ => None,
    }
}

fn i64_at(row: &[Value], i: usize) -> (r: Option<i64>)
    ensures
        r == cell_i64(cell(row@, i as int)),
{
    if i >= row.len() {
        return None;
    }
    match &row[i] {
        Value::Int(n) => Some(*n),
        Value::Float(f) => Some(f.truncated),
        Value::Text(s) => parse_i64(trim(s.as_str()).as_str()),
        _ => None,
    }
}

fn u64_at(row: &[Value], i: usize) -> (r: Option<u64>)
    ensures
        r == cell_u64(cell(row@, i as int)),
{
    match i64_at(row, i) {
        Some(n) => if n >= 0 {
            Some(n as u64)
        } else {
            None
        },
        None => None,
    }
}

fn text_at(row: &[Value], i: usize) -> (r: Option<String>)
    ensures
        crate::types::opt_str(r) == cell_text(cell(row@, i as int)),
{
    if i >= row.len() {
        return None;
    }
    match &row[i] {
        Value::Text(s) => Some(s.clone()),
        Value::Int(n) => Some(decimal_i64(*n)),
        _ => None,
    }
}

/// The number that a cell holds or writes, out of the numbers of all cells.
pub open spec fn number_at(numbers: Seq<Vec<Option<Num>>>, row: int, column: Option<int>) -> Option<
    Num,
> {
    if column is Some && 0 <= row < numbers.len() && 0 <= column->0 < numbers[row]@.len() {
        numbers[row]@[column->0]
    } else {
        None
    }
}

fn number(numbers: &[Vec<Option<Num>>], row: usize, column: Option<usize>) -> (r: Option<Num>)
    ensures
        r == number_at(
            numbers@,
            row as int,
            match column {
                Some(c) => Some(c as int),
                None => None,
            },
        ),
{
    match column {
        Some(c) => if row < numbers.len() && c < numbers[row].len() {
            numbers[row][c]
        } else {
            None
        },
        None => None,
    }
}

/// Which columns of the table hold what.
pub ghost struct Layout {
    pub group: int,
    pub rows: int,
    pub path: int,
    pub values: int,
    pub size: int,
    pub min: Option<int>,
    pub max: Option<int>,
}

/// The layout of a table, if it has every column that is needed.
pub open spec fn layout_of(columns: Seq<Seq<char>>) -> Option<Layout> {
    let group = column_from(columns, "row_group_id"@, 0);
    let rows = column_from(columns, "row_group_num_rows"@, 0);
    let path = column_from(columns, "path_in_schema"@, 0);
    let values = column_from(columns, "num_values"@, 0);
    let size = column_from(columns, "total_uncompressed_size"@, 0);
    if group is Some && rows is Some && path is Some && values is Some && size is Some {
        Some(
            Layout {
                group: group->0,
                rows: rows->0,
                path: path->0,
                values: values->0,
                size: size->0,
                min: column_from(columns, "stats_min_value"@, 0),
                max: column_from(columns, "stats_max_value"@, 0),
            },
        )
    } else {
        None
    }
}

/// A column chunk over mathematical values.
pub struct ChunkView {
    pub name: Seq<char>,
    pub total_uncompressed_size: u64,
    pub num_values: u64,
    pub min: Option<Num>,
    pub max: Option<Num>,
}

/// A row group over mathematical values.
pub struct GroupView {
    pub num_rows: u64,
    pub columns: Seq<ChunkView>,
}

impl View for ColumnChunkMeta {
    type V = ChunkView;

    open spec fn view(&self) -> ChunkView {
        ChunkView {
            name: self.name@,
            total_uncompressed_size: self.total_uncompressed_size,
            num_values: self.num_values,
            min: self.min,
            max: self.max,
        }
    }
}

impl View for RowGroupMeta {
    type V = GroupView;

    open spec fn view(&self) -> GroupView {
        GroupView {
            num_rows: self.num_rows,
            columns: self.columns@.map_values(|c: ColumnChunkMeta| c@),
        }
    }
}

pub open spec fn or_zero(n: Option<u64>) -> u64 {
    match n {
        Some(x) => x,
        None => 0,
    }
}

/// The row group that a row belongs to.
pub open spec fn group_id(row: Seq<Value>, layout: Layout) -> i64 {
    match cell_i64(cell(row, layout.group)) {
        Some(i) => i,
        None => 0,
    }
}

/// The column chunk that a row describes.
pub open spec fn chunk_of(
    row: Seq<Value>,
    numbers: Seq<Vec<Option<Num>>>,
    i: int,
    layout: Layout,
) -> ChunkView {
    ChunkView {
        name: match cell_text(cell(row, layout.path)) {
            Some(s) => s,
            None => Seq::empty(),
        },
        total_uncompressed_size: or_zero(cell_u64(cell(row, layout.size))),
        num_values: or_zero(cell_u64(cell(row, layout.values))),
        min: number_at(numbers, i, layout.min),
        max: number_at(numbers, i, layout.max),
    }
}

/// Where an identifier stands among `ids`, if it does.
pub open spec fn place(ids: Seq<i64>, id: i64, from: int) -> Option<int>
    decreases ids.len() - from,
{
    if from >= ids.len() {
        None
    } else if ids[from] == id {
        Some(from)
    } else {
        place(ids, id, from + 1)
    }
}

/// The row groups of the first `n` rows, with their identifiers, in the order in which
/// they first occur. A group takes its row count from its first row.
pub open spec fn grouped(
    rows: Seq<Vec<Value>>,
    numbers: Seq<Vec<Option<Num>>>,
    layout: Layout,
    n: nat,
) -> (Seq<i64>, Seq<GroupView>)
    decreases n,
{
    if n == 0 {
        (Seq::empty(), Seq::empty())
    } else {
        let i = n - 1;
        let rest = grouped(rows, numbers, layout, i as nat);
        let row = rows[i]@;
        let id = group_id(row, layout);
        let chunk = chunk_of(row, numbers, i, layout);
        match place(rest.0, id, 0) {
            Some(g) => (
                rest.0,
                rest.1.update(
                    g,
                    GroupView {
                        num_rows: rest.1[g].num_rows,
                        columns: rest.1[g].columns.push(chunk),
                    },
                ),
            ),
            None => (
                rest.0.push(id),
                rest.1.push(
                    GroupView {
                        num_rows: or_zero(cell_u64(cell(row, layout.rows))),
                        columns: seq![chunk],
                    },
                ),
            ),
        }
    }
}

/// The row groups that the table describes; none where a needed column is missing.
pub open spec fn parquet_groups(
    columns: Seq<Seq<char>>,
    rows: Seq<Vec<Value>>,
    numbers: Seq<Vec<Option<Num>>>,
) -> Seq<GroupView> {
    match layout_of(columns) {
        Some(layout) => grouped(rows, numbers, layout, rows.len()).1,
        None => Seq::empty(),
    }
}

pub open spec fn group_views(groups: Seq<RowGroupMeta>) -> Seq<GroupView> {
    groups.map_values(|g: RowGroupMeta| g@)
}

fn find_place(ids: &[i64], id: i64) -> (r: Option<usize>)
    ensures
        r is Some <==> place(ids@, id, 0) is Some,
        r is Some ==> r->0 == place(ids@, id, 0)->0 && r->0 < ids@.len(),
{
    let mut i: usize = 0;
    while i < ids.len()
        invariant
            i <= ids@.len(),
            place(ids@, id, i as int) == place(ids@, id, 0),
        decreases ids@.len() - i,
    {
        if ids[i] == id {
            return Some(i);
        }
        i = i + 1;
    }
    None
}

fn zero_if_none(n: Option<u64>) -> (r: u64)
    ensures
        r == or_zero(n),
{
    match n {
        Some(x) => x,
        None => 0,
    }
}

fn add_chunk(groups: &mut Vec<RowGroupMeta>, g: usize, chunk: ColumnChunkMeta)
    requires
        g < old(groups)@.len(),
    ensures
        final(groups)@.len() == old(groups)@.len(),
        group_views(final(groups)@) == group_views(old(groups)@).update(
            g as int,
            GroupView {
                num_rows: old(groups)@[g as int].num_rows,
                columns: old(groups)@[g as int]@.columns.push(chunk@),
            },
        ),
{
    let ghost before = groups@;
    let mut group = groups.remove(g);
    let ghost columns = group.columns@;
    group.columns.push(chunk);
    proof {
        assert(group@.columns =~= before[g as int]@.columns.push(chunk@));
    }
    groups.insert(g, group);
    proof {
        assert(groups@ =~= before.update(g as int, group));
        assert(group_views(groups@) =~= group_views(before).update(g as int, group@));
    }
}

/// Parquet metadata out of the rows of a `parquet_metadata` query. Columns are found by
/// name in any case. `numbers` holds, for each cell, the number it holds or writes.
pub fn parquet_metadata_from_resultset(
    rs: &ResultSet,
    numbers: &[Vec<Option<Num>>],
) -> (r: ParquetMetadata)
    ensures
        group_views(r.row_groups@) == parquet_groups(strs(rs.columns@), rs.rows@, numbers@),
{
    let c_group = column(&rs.columns, "row_group_id");
    let c_rows = column(&rs.columns, "row_group_num_rows");
    let c_path = column(&rs.columns, "path_in_schema");
    let c_values = column(&rs.columns, "num_values");
    let c_size = column(&rs.columns, "total_uncompressed_size");
    let c_min = column(&rs.columns, "stats_min_value");
    let c_max = column(&rs.columns, "stats_max_value");
    let mut groups: Vec<RowGroupMeta> = Vec::new();
    assert(group_views(groups@) =~= Seq::empty());
    if c_group.is_none() || c_rows.is_none() || c_path.is_none() || c_values.is_none()
        || c_size.is_none() {
        return ParquetMetadata { row_groups: groups };
    }
    let i_group: usize = c_group.unwrap();
    let i_rows: usize = c_rows.unwrap();
    let i_path: usize = c_path.unwrap();
    let i_values: usize = c_values.unwrap();
    let i_size: usize = c_size.unwrap();
    let ghost layout = layout_of(strs(rs.columns@))->0;
    let mut ids: Vec<i64> = Vec::new();
    let mut i: usize = 0;
    assert(ids@ =~= Seq::empty());
    while i < rs.rows.len()
        invariant
            i <= rs.rows@.len(),
            ids@.len() == groups@.len(),
            (ids@, group_views(groups@)) == grouped(rs.rows@, numbers@, layout, i as nat),
            layout.group == i_group,
            layout.rows == i_rows,
            layout.path == i_path,
            layout.values == i_values,
            layout.size == i_size,
            layout.min == (match c_min {
                Some(c) => Some(c as int),
                None => None,
            }),
            layout.max == (match c_max {
                Some(c) => Some(c as int),
                None => None,
            }),
        decreases rs.rows@.len() - i,
    {
        let row = &rs.rows[i];
        let id: i64 = match i64_at(row, i_group) {
            Some(n) => n,
            None => 0,
        };
        let name = match text_at(row, i_path) {
            Some(s) => s,
            None => String::new(),
        };
        let chunk = ColumnChunkMeta {
            name,
            total_uncompressed_size: zero_if_none(u64_at(row, i_size)),
            num_values: zero_if_none(u64_at(row, i_values)),
            min: number(numbers, i, c_min),
            max: number(numbers, i, c_max),
        };
        proof {
            assert(name@ =~= chunk_of(row@, numbers@, i as int, layout).name);
            assert(chunk@ == chunk_of(row@, numbers@, i as int, layout));
        }
        match find_place(&ids, id) {
            Some(g) => {
                add_chunk(&mut groups, g, chunk);
            },
            None => {
                let ghost before = groups@;
                let mut columns: Vec<ColumnChunkMeta> = Vec::new();
                columns.push(chunk);
                let group = RowGroupMeta {
                    num_rows: zero_if_none(u64_at(row, i_rows)),
                    columns,
                };
                proof {
                    assert(group@.columns =~= seq![chunk@]);
                }
                groups.push(group);
                ids.push(id);
                assert(group_views(groups@) =~= group_views(before).push(group@));
            },
        }
        i = i + 1;
    }
    ParquetMetadata { row_groups: groups }
}

/// A column is the first of its name, in any case.
pub proof fn columns_go_by_their_names(
    columns: Seq<Seq<char>>,
    name: Seq<char>,
    from: int,
    i: int,
)
    requires
        0 <= from <= i <= columns.len(),
        forall|k: int|
            from <= k < i ==> ascii_lower_seq(#[trigger] columns[k]) != ascii_lower_seq(name),
        i < columns.len() ==> ascii_lower_seq(columns[i]) == ascii_lower_seq(name),
    ensures
        column_from(columns, name, from) == (if i < columns.len() {
            Some(i)
        } else {
            None
        }),
    decreases i - from,
{
    if from < i {
        assert(ascii_lower_seq(columns[from]) != ascii_lower_seq(name));
        columns_go_by_their_names(columns, name, from + 1, i);
    }
}

/// A table is read by its columns' names, and only where it has all five that are needed.
pub proof fn tables_are_read_by_their_columns(columns: Seq<Seq<char>>)
    ensures
        layout_of(columns) is Some <==> {
            &&& column_from(columns, "row_group_id"@, 0) is Some
            &&& column_from(columns, "row_group_num_rows"@, 0) is Some
            &&& column_from(columns, "path_in_schema"@, 0) is Some
            &&& column_from(columns, "num_values"@, 0) is Some
            &&& column_from(columns, "total_uncompressed_size"@, 0) is Some
        },
        layout_of(columns) is Some ==> {
            let l = layout_of(columns)->0;
            &&& l.group == column_from(columns, "row_group_id"@, 0)->0
            &&& l.rows == column_from(columns, "row_group_num_rows"@, 0)->0
            &&& l.path == column_from(columns, "path_in_schema"@, 0)->0
            &&& l.values == column_from(columns, "num_values"@, 0)->0
            &&& l.size == column_from(columns, "total_uncompressed_size"@, 0)->0
            &&& l.min == column_from(columns, "stats_min_value"@, 0)
            &&& l.max == column_from(columns, "stats_max_value"@, 0)
        },
{
}

/// Cells are read as numbers whether they are written as such or as text; a negative
/// number is no size.
pub proof fn cells_are_read_as_numbers(v: Value)
    ensures
        v matches Value::Int(i) ==> cell_i64(Some(v)) == Some(i),
        v matches Value::Float(f) ==> cell_i64(Some(v)) == Some(f.truncated),
        v matches Value::Text(s) ==> cell_i64(Some(v)) == parse_i64_spec(trim_seq(s@)),
        v is Null || v is Bool || v is Blob ==> cell_i64(Some(v)) is None,
        cell_i64(None) is None,
        cell_u64(Some(v)) is Some <==> cell_i64(Some(v)) is Some && cell_i64(Some(v))->0 >= 0,
        cell_u64(Some(v)) is Some ==> cell_u64(Some(v))->0 == cell_i64(Some(v))->0,
        v matches Value::Text(s) ==> cell_text(Some(v)) == Some(s@),
        v matches Value::Int(i) ==> cell_text(Some(v)) == Some(decimal_i64_seq(i as int)),
{
}

/// A row of the table is a chunk: of the column, the size, the values and the range that
/// it gives; what it does not give is nothing.
pub proof fn rows_are_chunks(
    row: Seq<Value>,
    numbers: Seq<Vec<Option<Num>>>,
    i: int,
    l: Layout,
)
    ensures
        ({
            let c = chunk_of(row, numbers, i, l);
            let name = cell_text(cell(row, l.path));
            let size = cell_u64(cell(row, l.size));
            let values = cell_u64(cell(row, l.values));
            &&& name is Some ==> c.name == name->0
            &&& name is None ==> c.name.len() == 0
            &&& size is Some ==> c.total_uncompressed_size == size->0
            &&& size is None ==> c.total_uncompressed_size == 0
            &&& values is Some ==> c.num_values == values->0
            &&& values is None ==> c.num_values == 0
            &&& c.min == number_at(numbers, i, l.min)
            &&& c.max == number_at(numbers, i, l.max)
            &&& 0 <= l.path < row.len() ==> cell(row, l.path) == Some(row[l.path])
        }),
{
}

/// Rows of the same group are gathered in it, in order; the first of a group opens it,
/// with its number of rows.
pub proof fn rows_are_gathered_by_group(
    rows: Seq<Vec<Value>>,
    numbers: Seq<Vec<Option<Num>>>,
    l: Layout,
    n: nat,
)
    ensures
        ({
            let (ids, groups) = grouped(rows, numbers, l, n);
            let (ids2, groups2) = grouped(rows, numbers, l, n + 1);
            let row = rows[n as int]@;
            let number = cell_i64(cell(row, l.group));
            let id = if number is Some {
                number->0
            } else {
                0i64
            };
            let chunk = chunk_of(row, numbers, n as int, l);
            let count = cell_u64(cell(row, l.rows));
            match place(ids, id, 0) {
                Some(g) => ids2 == ids && groups2 == groups.update(
                    g,
                    GroupView {
                        num_rows: groups[g].num_rows,
                        columns: groups[g].columns.push(chunk),
                    },
                ),
                None => ids2 == ids.push(id) && groups2.drop_last() == groups
                    && groups2.last().columns == seq![chunk] && groups2.last().num_rows == (if count
                    is Some {
                    count->0
                } else {
                    0
                }),
            }
        }),
        grouped(rows, numbers, l, 0).1.len() == 0,
{
    let before = grouped(rows, numbers, l, n);
    let after = grouped(rows, numbers, l, n + 1);
    let id = group_id(rows[n as int]@, l);
    if place(before.0, id, 0) is None {
        assert(after.1.drop_last() =~= before.1);
    }
}

/// A group is the first of its number.
pub proof fn groups_go_by_their_number(ids: Seq<i64>, id: i64, from: int, i: int)
    requires
        0 <= from <= i <= ids.len(),
        forall|k: int| from <= k < i ==> #[trigger] ids[k] != id,
        i < ids.len() ==> ids[i] == id,
    ensures
        place(ids, id, from) == (if i < ids.len() {
            Some(i)
        } else {
            None
        }),
    decreases i - from,
{
    if from < i {
        assert(ids[from] != id);
        groups_go_by_their_number(ids, id, from + 1, i);
    }
}

} // verus!
