//! Metadata of CSV and JSON objects from a sample of their bytes.

use vstd::prelude::*;
use crate::estimator::TextMetadata;
use crate::json::{json_object_len, object_len};
use crate::math::max_int;

verus! {

/// How often `b` stands in `s`.
pub open spec fn count_of(s: Seq<u8>, b: u8) -> int
    decreases s.len(),
{
    if s.len() == 0 {
        0
    } else {
        count_of(s.drop_last(), b) + (if s.last() == b {
            1int
        } else {
            0
        })
    }
}

/// The first index of `s`, from `from` on, that holds `b`, or the length of `s`.
pub open spec fn byte_end(s: Seq<u8>, b: u8, from: int) -> int
    decreases s.len() - from,
{
    if from < s.len() && s[from] != b {
        byte_end(s, b, from + 1)
    } else {
        from
    }
}

/// The length of `s` up to and with its last `b`; `0` where `s` has none.
pub open spec fn last_end(s: Seq<u8>, b: u8) -> int
    decreases s.len(),
{
    if s.len() == 0 {
        0
    } else if s.last() == b {
        s.len() as int
    } else {
        last_end(s.drop_last(), b)
    }
}

fn count(s: &[u8], b: u8, to: usize) -> (r: usize)
    requires
        to <= s@.len(),
    ensures
        r == count_of(s@.take(to as int), b),
        r <= to,
{
    let mut r: usize = 0;
    let mut i: usize = 0;
    while i < to
        invariant
            i <= to <= s@.len(),
            r <= i,
            r == count_of(s@.take(i as int), b),
        decreases to - i,
    {
        proof {
            let next = s@.take(i + 1);
            assert(next.drop_last() =~= s@.take(i as int));
            assert(next.last() == s@[i as int]);
        }
        if s[i] == b {
            r = r + 1;
        }
        i = i + 1;
    }
    r
}

fn first(s: &[u8], b: u8) -> (r: usize)
    ensures
        r == byte_end(s@, b, 0),
        r <= s@.len(),
        forall|k: int| 0 <= k < r ==> s@[k] != b,
        r < s@.len() ==> s@[r as int] == b,
{
    let mut i: usize = 0;
    while i < s.len() && s[i] != b
        invariant
            i <= s@.len(),
            byte_end(s@, b, i as int) == byte_end(s@, b, 0),
            forall|k: int| 0 <= k < i ==> s@[k] != b,
        decreases s@.len() - i,
    {
        i = i + 1;
    }
    i
}

fn last(s: &[u8], b: u8) -> (r: usize)
    ensures
        r == last_end(s@, b),
        r <= s@.len(),
{
    let n: usize = s.len();
    let mut i: usize = n;
    assert(s@.take(n as int) =~= s@);
    while i > 0 && s[i - 1] != b
        invariant
            i <= n,
            n == s@.len(),
            last_end(s@.take(i as int), b) == last_end(s@, b),
        decreases i,
    {
        assert(s@.take(i as int).drop_last() =~= s@.take(i - 1));
        i = i - 1;
    }
    i
}

/// The columns of a CSV header: one more than its delimiters.
pub open spec fn header_columns(header: Seq<u8>, delimiter: u8) -> int {
    if header.len() == 0 {
        1
    } else {
        count_of(header, delimiter) + 1
    }
}

/// What a sample says of a CSV object. The first line is the header; only complete
/// lines count, and the sampled bytes are those of the data rows, up to the last
/// row's newline.
pub open spec fn csv_spec(object_bytes: u64, sample: Seq<u8>, delimiter: u8) -> TextMetadata {
    let lines = count_of(sample, 10);
    let header_end = byte_end(sample, 10, 0);
    TextMetadata {
        object_bytes,
        sample_bytes: (if lines > 1 {
            last_end(sample, 10) - 1 - (header_end + 1)
        } else {
            0
        }) as u64,
        sample_rows: max_int(lines - 1, 0) as u64,
        total_columns: header_columns(sample.take(header_end), delimiter) as usize,
    }
}

proof fn two_newlines(s: Seq<u8>, b: u8)
    requires
        count_of(s, b) > 1,
    ensures
        last_end(s, b) >= byte_end(s, b, 0) + 2,
    decreases s.len(),
{
    let t = s.drop_last();
    if s.last() == b {
        first_before(t, b, 0);
        extend_first(s, b, 0);
    } else {
        two_newlines(t, b);
        first_before(t, b, 0);
        extend_first(s, b, 0);
    }
}

/// Where `b` stands in `s`, its first index is in range.
proof fn first_before(s: Seq<u8>, b: u8, from: int)
    requires
        count_of(s, b) > 0,
        0 <= from <= s.len(),
        forall|k: int| 0 <= k < from ==> s[k] != b,
    ensures
        byte_end(s, b, from) < s.len(),
    decreases s.len() - from,
{
    if from == s.len() {
        none_counted(s, b);
    } else if s[from] != b {
        first_before(s, b, from + 1);
    }
}

proof fn none_counted(s: Seq<u8>, b: u8)
    requires
        forall|k: int| 0 <= k < s.len() ==> s[k] != b,
    ensures
        count_of(s, b) == 0,
    decreases s.len(),
{
    if s.len() > 0 {
        none_counted(s.drop_last(), b);
    }
}

/// A first index within `s.drop_last()` is the first index within `s`.
proof fn extend_first(s: Seq<u8>, b: u8, from: int)
    requires
        s.len() > 0,
        0 <= from,
        byte_end(s.drop_last(), b, from) < s.len() - 1,
    ensures
        byte_end(s, b, from) == byte_end(s.drop_last(), b, from),
    decreases s.len() - from,
{
    if from < s.len() - 1 && s[from] != b {
        extend_first(s, b, from + 1);
    }
}

/// Metadata of a CSV object of `object_bytes` from its first bytes.
pub fn csv_metadata(object_bytes: u64, sample: &[u8], delimiter: u8) -> (r: TextMetadata)
    requires
        sample@.len() < usize::MAX,
    ensures
        r == csv_spec(object_bytes, sample@, delimiter),
{
    let n: usize = sample.len();
    let lines = count(sample, 10, n);
    assert(sample@.take(n as int) =~= sample@);
    let header_end = first(sample, 10);
    let total_columns: usize = if header_end == 0 {
        1
    } else {
        count(sample, delimiter, header_end) + 1
    };
    let sample_rows: u64 = if lines > 1 {
        (lines - 1) as u64
    } else {
        0
    };
    let sample_bytes: u64 = if lines > 1 {
        let end = last(sample, 10);
        proof {
            two_newlines(sample@, 10);
        }
        (end - 1 - (header_end + 1)) as u64
    } else {
        0
    };
    TextMetadata { object_bytes, sample_bytes, sample_rows, total_columns }
}

/// What a sample says of an object of newline-delimited JSON. The columns are the keys
/// of the first line's object.
pub open spec fn ndjson_spec(object_bytes: u64, sample: Seq<u8>) -> TextMetadata {
    let end = byte_end(sample, 10, 0);
    TextMetadata {
        object_bytes,
        sample_bytes: last_end(sample, 10) as u64,
        sample_rows: count_of(sample, 10) as u64,
        total_columns: (if end < sample.len() && json_object_len(sample.take(end)) is Some {
            max_int(json_object_len(sample.take(end))->0 as int, 1)
        } else {
            1
        }) as usize,
    }
}

/// Metadata of an object of newline-delimited JSON from its first bytes.
pub fn ndjson_metadata(object_bytes: u64, sample: &[u8]) -> (r: TextMetadata)
    ensures
        r == ndjson_spec(object_bytes, sample@),
{
    let n: usize = sample.len();
    let end = first(sample, 10);
    let keys: Option<usize> = if end < n {
        let line = vstd::slice::slice_subrange(sample, 0, end);
        assert(line@ =~= sample@.take(end as int));
        object_len(line)
    } else {
        None
    };
    let total_columns: usize = match keys {
        Some(k) => if k > 1 {
            k
        } else {
            1
        },
        None => 1,
    };
    let rows = count(sample, 10, n);
    assert(sample@.take(n as int) =~= sample@);
    let sample_bytes = last(sample, 10);
    TextMetadata {
        object_bytes,
        sample_bytes: sample_bytes as u64,
        sample_rows: rows as u64,
        total_columns,
    }
}

/// The bytes are counted where they stand.
pub proof fn bytes_are_counted(s: Seq<u8>, b: u8)
    ensures
        count_of(s, b) == s.filter(|x: u8| x == b).len(),
    decreases s.len(),
{
    reveal(Seq::filter);
    if s.len() > 0 {
        bytes_are_counted(s.drop_last(), b);
    }
}

proof fn first_found(s: Seq<u8>, b: u8, from: int, at: int)
    requires
        0 <= from <= at <= s.len(),
        forall|k: int| from <= k < at ==> #[trigger] s[k] != b,
        at < s.len() ==> s[at] == b,
    ensures
        byte_end(s, b, from) == at,
    decreases at - from,
{
    if from < at {
        first_found(s, b, from + 1, at);
    }
}

proof fn last_found(s: Seq<u8>, b: u8, at: int)
    requires
        -1 <= at < s.len(),
        at >= 0 ==> s[at] == b,
        forall|k: int| at < k < s.len() ==> #[trigger] s[k] != b,
    ensures
        last_end(s, b) == at + 1,
    decreases s.len(),
{
    if s.len() > 0 && at < s.len() - 1 {
        assert(s[s.len() - 1] != b);
        last_found(s.drop_last(), b, at);
    }
}

proof fn something_counted(s: Seq<u8>, b: u8, i: int)
    requires
        0 <= i < s.len(),
        s[i] == b,
    ensures
        count_of(s, b) > 0,
    decreases s.len(),
{
    if i < s.len() - 1 {
        something_counted(s.drop_last(), b, i);
    } else {
        counted_is_not_negative(s.drop_last(), b);
    }
}

proof fn counted_is_not_negative(s: Seq<u8>, b: u8)
    ensures
        0 <= count_of(s, b) <= s.len(),
    decreases s.len(),
{
    if s.len() > 0 {
        counted_is_not_negative(s.drop_last(), b);
    }
}

proof fn two_counted(s: Seq<u8>, b: u8, i: int, j: int)
    requires
        0 <= i < j < s.len(),
        s[i] == b,
        s[j] == b,
    ensures
        count_of(s, b) > 1,
    decreases s.len(),
{
    if j < s.len() - 1 {
        two_counted(s.drop_last(), b, i, j);
    } else {
        something_counted(s.drop_last(), b, i);
    }
}

proof fn one_counted(s: Seq<u8>, b: u8, i: int)
    requires
        -1 <= i < s.len(),
        i >= 0 ==> s[i] == b,
        forall|k: int| 0 <= k < s.len() && k != i ==> #[trigger] s[k] != b,
    ensures
        count_of(s, b) == (if i >= 0 {
            1int
        } else {
            0
        }),
    decreases s.len(),
{
    if s.len() > 0 {
        assert(s.last() == s[s.len() - 1]);
        if i == s.len() - 1 {
            one_counted(s.drop_last(), b, -1);
        } else {
            one_counted(s.drop_last(), b, i);
        }
    }
}

/// A sample of CSV: every line but the first is a row, the rows reach from the end of the
/// first line to the last line's, and the first line has a column more than delimiters.
/// `first` and `last` are where its first and its last newline stand.
pub proof fn a_csv_sample_is_its_lines(
    object_bytes: u64,
    sample: Seq<u8>,
    delimiter: u8,
    first: int,
    last: int,
)
    requires
        sample.len() <= u64::MAX,
        0 <= first <= last < sample.len(),
        sample[first] == 10,
        sample[last] == 10,
        forall|k: int| 0 <= k < first ==> #[trigger] sample[k] != 10,
        forall|k: int| last < k < sample.len() ==> #[trigger] sample[k] != 10,
    ensures
        ({
            let m = csv_spec(object_bytes, sample, delimiter);
            &&& m.object_bytes == object_bytes
            &&& m.sample_rows == sample.filter(|x: u8| x == 10).len() - 1
            &&& first < last ==> m.sample_bytes == last - first - 1
            &&& first == last ==> m.sample_bytes == 0
            &&& sample.len() < usize::MAX ==> m.total_columns == sample.take(first).filter(
                |x: u8| x == delimiter,
            ).len() + 1
        }),
{
    bytes_are_counted(sample, 10);
    bytes_are_counted(sample.take(first), delimiter);
    counted_is_not_negative(sample, 10);
    counted_is_not_negative(sample.take(first), delimiter);
    first_found(sample, 10, 0, first);
    last_found(sample, 10, last);
    something_counted(sample, 10, first);
    if first < last {
        two_counted(sample, 10, first, last);
    } else {
        assert forall|k: int| 0 <= k < sample.len() && k != first implies #[trigger] sample[k]
            != 10 by {}
        one_counted(sample, 10, first);
    }
    if first == 0 {
        assert(sample.take(first) =~= Seq::<u8>::empty());
    }
}

/// A sample of CSV without a newline is all header.
pub proof fn a_csv_sample_without_a_line_has_no_rows(
    object_bytes: u64,
    sample: Seq<u8>,
    delimiter: u8,
)
    requires
        sample.len() < usize::MAX,
        sample.len() <= u64::MAX,
        forall|k: int| 0 <= k < sample.len() ==> #[trigger] sample[k] != 10,
    ensures
        ({
            let m = csv_spec(object_bytes, sample, delimiter);
            &&& m.object_bytes == object_bytes
            &&& m.sample_rows == 0
            &&& m.sample_bytes == 0
            &&& m.total_columns == sample.filter(|x: u8| x == delimiter).len() + 1
        }),
{
    one_counted(sample, 10, -1);
    first_found(sample, 10, 0, sample.len() as int);
    assert(sample.take(sample.len() as int) =~= sample);
    bytes_are_counted(sample, delimiter);
    counted_is_not_negative(sample, delimiter);
}

/// A sample of JSON lines: every line is a row, the rows reach to the last line's end, and
/// the columns are the keys of the first line's object, one at least.
pub proof fn a_json_sample_is_its_lines(
    object_bytes: u64,
    sample: Seq<u8>,
    first: int,
    last: int,
)
    requires
        sample.len() <= u64::MAX,
        0 <= first <= last < sample.len(),
        sample[first] == 10,
        sample[last] == 10,
        forall|k: int| 0 <= k < first ==> #[trigger] sample[k] != 10,
        forall|k: int| last < k < sample.len() ==> #[trigger] sample[k] != 10,
    ensures
        ({
            let m = ndjson_spec(object_bytes, sample);
            let keys = json_object_len(sample.take(first));
            &&& m.object_bytes == object_bytes
            &&& m.sample_rows == sample.filter(|x: u8| x == 10).len()
            &&& m.sample_bytes == last + 1
            &&& keys is Some && 0 < keys->0 <= usize::MAX ==> m.total_columns == keys->0
            &&& keys is None || keys->0 == 0 ==> m.total_columns == 1
        }),
{
    bytes_are_counted(sample, 10);
    counted_is_not_negative(sample, 10);
    first_found(sample, 10, 0, first);
    last_found(sample, 10, last);
}

} // verus!
