//! What a query's text and its plan say about its size.

use vstd::prelude::*;
use crate::input_resolver::sources::{
    has_head, head_is_start, is_name_char, lowered, name_char, standing_is_head, stands_in,
};
use crate::scan::{all_digits, digits_u64, is_digit, read_digits};
use crate::text::{
    ascii_lower_seq, ascii_lowercase, at, chars_of, contains, contains_seq, occurs_at, skip_white,
    starts_with_seq, string_of_range, trim_start_seq,
};

verus! {

/// Characters of a number with grouped thousands.
pub open spec fn is_grouped(c: char) -> bool {
    is_digit(c) || c == ',' || c == '_'
}

/// Where the run of number characters ends that begins at `from`.
pub open spec fn group_end(s: Seq<char>, from: int) -> int
    decreases s.len() - from,
{
    if from < s.len() && is_grouped(s[from]) {
        group_end(s, from + 1)
    } else {
        from
    }
}

/// The digits among `s`.
pub open spec fn digits_of(s: Seq<char>) -> Seq<char>
    decreases s.len(),
{
    if s.len() == 0 {
        Seq::empty()
    } else if is_digit(s.last()) {
        digits_of(s.drop_last()).push(s.last())
    } else {
        digits_of(s.drop_last())
    }
}

/// The number with grouped thousands at the start of `s`, if there is one and it fits.
pub open spec fn grouped_number(s: Seq<char>) -> Option<u64> {
    digits_u64(digits_of(s.take(group_end(s, 0))))
}

/// The larger of two counts, where there are any.
pub open spec fn larger(a: Option<u64>, b: Option<u64>) -> Option<u64> {
    match a {
        Some(x) => match b {
            Some(y) => Some(if x >= y {
                x
            } else {
                y
            }),
            None => a,
        },
        None => b,
    }
}

/// Where the cell of a plan ends that goes on at `from`: at a newline, a bar or the end.
pub open spec fn cell_end(s: Seq<char>, from: int) -> int
    decreases s.len() - from,
{
    if from < s.len() && s[from] != '\n' && s[from] != '|' {
        cell_end(s, from + 1)
    } else {
        from
    }
}

/// What follows in the same cell from `from` on, without leading white space.
pub open spec fn cell_rest(s: Seq<char>, from: int) -> Seq<char> {
    trim_start_seq(s.subrange(from, cell_end(s, from)))
}

/// The row count that a plan is annotated with at `i`, as `EC: n` or as `~n rows`.
pub open spec fn annotation(s: Seq<char>, i: int) -> Option<u64> {
    if occurs_at(s, "EC:"@, i) {
        grouped_number(cell_rest(s, i + 3))
    } else if occurs_at(s, "~"@, i) {
        let rest = cell_rest(s, i + 1);
        let unit = trim_start_seq(rest.subrange(group_end(rest, 0), rest.len() as int));
        if starts_with_seq(unit, "row"@) {
            grouped_number(rest)
        } else {
            None
        }
    } else {
        None
    }
}

/// The largest row count that `s` is annotated with from `from` on.
pub open spec fn largest_count(s: Seq<char>, from: int) -> Option<u64>
    decreases s.len() - from,
{
    if from >= s.len() {
        None
    } else {
        larger(annotation(s, from), largest_count(s, from + 1))
    }
}

/// The count that is taken from a plan is the largest: no annotation exceeds it, and it
/// is one of them.
pub proof fn largest_count_is_the_maximum(s: Seq<char>, i: int)
    requires
        0 <= i < s.len(),
        annotation(s, i) is Some,
    ensures
        largest_count(s, 0) is Some,
        annotation(s, i)->0 <= largest_count(s, 0)->0,
        exists|k: int|
            0 <= k < s.len() && #[trigger] annotation(s, k) == Some(largest_count(s, 0)->0),
{
    maximum_from(s, 0, i);
}

proof fn maximum_from(s: Seq<char>, from: int, i: int)
    requires
        0 <= from <= i < s.len(),
        annotation(s, i) is Some,
    ensures
        largest_count(s, from) is Some,
        annotation(s, i)->0 <= largest_count(s, from)->0,
        exists|k: int|
            from <= k < s.len() && #[trigger] annotation(s, k) == Some(largest_count(s, from)->0),
    decreases s.len() - from,
{
    if from < i {
        maximum_from(s, from + 1, i);
        let k = choose|k: int|
            from + 1 <= k < s.len() && #[trigger] annotation(s, k) == Some(
                largest_count(s, from + 1)->0,
            );
        if largest_count(s, from) == largest_count(s, from + 1) {
            assert(annotation(s, k) == Some(largest_count(s, from)->0));
        } else {
            assert(annotation(s, from) == Some(largest_count(s, from)->0));
        }
    } else if exists|j: int| i < j < s.len() && #[trigger] annotation(s, j) is Some {
        let j = choose|j: int| i < j < s.len() && #[trigger] annotation(s, j) is Some;
        maximum_from(s, from + 1, j);
        let k = choose|k: int|
            from + 1 <= k < s.len() && #[trigger] annotation(s, k) == Some(
                largest_count(s, from + 1)->0,
            );
        if largest_count(s, from) == largest_count(s, from + 1) {
            assert(annotation(s, k) == Some(largest_count(s, from)->0));
        } else {
            assert(annotation(s, from) == Some(largest_count(s, from)->0));
        }
    } else {
        none_from(s, from + 1);
        assert(annotation(s, from) == Some(largest_count(s, from)->0));
    }
}

proof fn none_from(s: Seq<char>, from: int)
    requires
        0 <= from,
        forall|j: int| from <= j < s.len() ==> #[trigger] annotation(s, j) is None,
    ensures
        largest_count(s, from) is None,
    decreases s.len() - from,
{
    if from < s.len() {
        assert(annotation(s, from) is None);
        none_from(s, from + 1);
    }
}

fn run_end(v: &[char]) -> (i: usize)
    ensures
        i == group_end(v@, 0),
        i <= v@.len(),
{
    let mut i: usize = 0;
    while i < v.len() && (('0' <= v[i] && v[i] <= '9') || v[i] == ',' || v[i] == '_')
        invariant
            i <= v@.len(),
            group_end(v@, i as int) == group_end(v@, 0),
        decreases v@.len() - i,
    {
        i = i + 1;
    }
    i
}

fn number_at_start(v: &[char]) -> (r: Option<u64>)
    ensures
        r == grouped_number(v@),
{
    let end = run_end(v);
    let mut digits: Vec<char> = Vec::new();
    let mut i: usize = 0;
    while i < end
        invariant
            i <= end <= v@.len(),
            digits@ == digits_of(v@.take(i as int)),
            all_digits(digits@),
        decreases end - i,
    {
        proof {
            let next = v@.take(i + 1);
            assert(next.drop_last() =~= v@.take(i as int));
            assert(next.last() == v@[i as int]);
        }
        if '0' <= v[i] && v[i] <= '9' {
            digits.push(v[i]);
        }
        i = i + 1;
    }
    read_digits(&digits)
}

/// The characters of `v` between two indices, without leading white space.
fn rest_of(v: &[char], from: usize, to: usize) -> (r: Vec<char>)
    requires
        from <= to <= v@.len(),
    ensures
        r@ == trim_start_seq(v@.subrange(from as int, to as int)),
{
    let i = skip_white(v, from, to);
    chars_of(&string_of_range(v, i, to))
}

fn rest_of_cell(v: &[char], from: usize) -> (r: Vec<char>)
    requires
        from <= v@.len(),
    ensures
        r@ == cell_rest(v@, from as int),
{
    let mut end: usize = from;
    while end < v.len() && v[end] != '\n' && v[end] != '|'
        invariant
            from <= end <= v@.len(),
            cell_end(v@, end as int) == cell_end(v@, from as int),
        decreases v@.len() - end,
    {
        end = end + 1;
    }
    rest_of(v, from, end)
}

fn annotation_at(v: &[char], i: usize) -> (r: Option<u64>)
    requires
        i < v@.len(),
    ensures
        r == annotation(v@, i as int),
{
    let n: usize = v.len();
    proof {
        reveal_strlit("EC:");
        reveal_strlit("~");
        if v@[i as int] == '~' {
            assert(v@.subrange(i as int, i + 1) =~= "~"@);
        }
        if occurs_at(v@, "~"@, i as int) {
            assert(v@.subrange(i as int, i + 1)[0] == v@[i as int]);
        }
    }
    if at(v, &chars_of("EC:"), i) {
        assert(i + 3 <= n);
        return number_at_start(&rest_of_cell(v, i + 3));
    }
    if v[i] != '~' {
        return None;
    }
    let rest = rest_of_cell(v, i + 1);
    let end = run_end(&rest);
    let unit = rest_of(&rest, end, rest.len());
    if at(&unit, &chars_of("row"), 0) {
        number_at_start(&rest)
    } else {
        None
    }
}

fn max_count(a: Option<u64>, b: Option<u64>) -> (r: Option<u64>)
    ensures
        r == larger(a, b),
{
    match a {
        Some(x) => match b {
            Some(y) => Some(if x >= y {
                x
            } else {
                y
            }),
            None => Some(x),
        },
        None => b,
    }
}

/// The largest row count that a query plan is annotated with.
pub fn parse_explain_cardinality(explain_text: &str) -> (r: Option<u64>)
    ensures
        r == largest_count(explain_text@, 0),
{
    let v = chars_of(explain_text);
    let mut best: Option<u64> = None;
    let mut i: usize = 0;
    while i < v.len()
        invariant
            v@ == explain_text@,
            i <= v@.len(),
            larger(best, largest_count(v@, i as int)) == largest_count(v@, 0),
        decreases v@.len() - i,
    {
        best = max_count(best, annotation_at(&v, i));
        i = i + 1;
    }
    best
}

/// Whether `word` stands at `i` and is no part of a longer word. What follows a number
/// begins a word of its own.
pub open spec fn word_at(s: Seq<char>, word: Seq<char>, i: int) -> bool {
    &&& occurs_at(s, word, i)
    &&& i == 0 || !is_name_char(s[i - 1]) || ('0' <= s[i - 1] && s[i - 1] <= '9')
    &&& i + word.len() == s.len() || !is_name_char(s[i + word.len()])
}

/// Whether `word` stands anywhere as a word: between white space, brackets, quotes,
/// operators or an end of the text.
pub open spec fn has_word(s: Seq<char>, word: Seq<char>) -> bool {
    exists|i: int| #[trigger] word_at(s, word, i)
}

fn contains_word(s: &str, word: &str) -> (r: bool)
    requires
        word@.len() > 0,
    ensures
        r == has_word(s@, word@),
{
    let v = chars_of(s);
    let p = chars_of(word);
    let n: usize = v.len();
    let mut i: usize = 0;
    while i < n
        invariant
            n == v@.len(),
            v@ == s@,
            p@ == word@,
            p@.len() > 0,
            i <= n,
            forall|k: int| 0 <= k < i ==> !(#[trigger] word_at(s@, word@, k)),
        decreases n - i,
    {
        if at(&v, &p, i) {
            let end: usize = i + p.len();
            let begins = i == 0 || !name_char(v[i - 1]) || ('0' <= v[i - 1] && v[i - 1] <= '9');
            let ends = end == n || !name_char(v[end]);
            if begins && ends {
                assert(word_at(s@, word@, i as int));
                return true;
            }
        }
        assert(!word_at(s@, word@, i as int));
        i = i + 1;
    }
    assert forall|k: int| !(#[trigger] word_at(s@, word@, k)) by {
        if k >= i {
            assert(!occurs_at(s@, word@, k));
        }
    }
    false
}

/// The words that introduce data from outside a query.
pub open spec fn source_words() -> Seq<Seq<char>> {
    seq!["from"@, "join"@, "copy"@, "attach"@]
}

/// The texts that mark a query as reading data from outside itself.
pub open spec fn source_markers() -> Seq<Seq<char>> {
    seq![
        "read_"@,
        "scan_"@,
        "parquet_"@,
        "_scan("@,
        "glob("@,
        "query_table("@,
        "copy "@,
        "attach "@,
        "delta_"@,
        "iceberg_"@,
        ".parquet"@,
        ".csv"@,
        ".json"@,
        ".ndjson"@,
        "://"@,
    ]
}

/// Whether any of the words or marking texts stands in the query, whatever its case.
pub open spec fn mentions_source(sql: Seq<char>) -> bool {
    ||| exists|i: int|
        0 <= i < source_words().len() && has_word(
            ascii_lower_seq(sql),
            #[trigger] source_words()[i],
        )
    ||| exists|i: int|
        0 <= i < source_markers().len() && contains_seq(
            ascii_lower_seq(sql),
            #[trigger] source_markers()[i],
        )
}

/// Whether the query may read data from outside itself: a relation, a reader function,
/// a file or object literal, `COPY` or `ATTACH`. Errs on the side of `true`.
pub fn has_data_source(sql: &str) -> (r: bool)
    ensures
        r == mentions_source(sql@),
{
    let lower = ascii_lowercase(sql);
    let l = lower.as_str();
    proof {
        reveal_strlit("from");
        reveal_strlit("join");
        reveal_strlit("copy");
        reveal_strlit("attach");
    }
    let word = contains_word(l, "from") || contains_word(l, "join") || contains_word(l, "copy")
        || contains_word(l, "attach");
    let marker = contains(l, "read_") || contains(l, "scan_") || contains(l, "parquet_")
        || contains(l, "_scan(") || contains(l, "glob(") || contains(l, "query_table(")
        || contains(l, "copy ") || contains(l, "attach ") || contains(l, "delta_") || contains(
        l,
        "iceberg_",
    ) || contains(l, ".parquet") || contains(l, ".csv") || contains(l, ".json") || contains(
        l,
        ".ndjson",
    ) || contains(l, "://");
    proof {
        let w = source_words();
        let m = source_markers();
        let s = ascii_lower_seq(sql@);
        assert(w.len() == 4);
        assert(word == (has_word(s, w[0]) || has_word(s, w[1]) || has_word(s, w[2]) || has_word(
            s,
            w[3],
        )));
        assert(m.len() == 15);
        assert(marker == (contains_seq(s, m[0]) || contains_seq(s, m[1]) || contains_seq(s, m[2])
            || contains_seq(s, m[3]) || contains_seq(s, m[4]) || contains_seq(s, m[5])
            || contains_seq(s, m[6]) || contains_seq(s, m[7]) || contains_seq(s, m[8])
            || contains_seq(s, m[9]) || contains_seq(s, m[10]) || contains_seq(s, m[11])
            || contains_seq(s, m[12]) || contains_seq(s, m[13]) || contains_seq(s, m[14])));
    }
    word || marker
}

proof fn digits_are_filtered(s: Seq<char>)
    ensures
        digits_of(s) == s.filter(|c: char| '0' <= c && c <= '9'),
    decreases s.len(),
{
    reveal(Seq::filter);
    if s.len() > 0 {
        digits_are_filtered(s.drop_last());
    } else {
        assert(digits_of(s) =~= s.filter(|c: char| '0' <= c && c <= '9'));
    }
}

proof fn group_ends(s: Seq<char>, from: int, at: int)
    requires
        0 <= from <= at <= s.len(),
        forall|k: int|
            from <= k < at ==> ('0' <= #[trigger] s[k] && s[k] <= '9') || s[k] == ',' || s[k]
                == '_',
        at < s.len() ==> !(('0' <= s[at] && s[at] <= '9') || s[at] == ',' || s[at] == '_'),
    ensures
        group_end(s, from) == at,
    decreases at - from,
{
    if from < at {
        assert(is_grouped(s[from]));
        group_ends(s, from + 1, at);
    }
}

proof fn cell_ends(s: Seq<char>, from: int, at: int)
    requires
        0 <= from <= at <= s.len(),
        forall|k: int| from <= k < at ==> #[trigger] s[k] != '\n' && s[k] != '|',
        at < s.len() ==> s[at] == '\n' || s[at] == '|',
    ensures
        cell_end(s, from) == at,
    decreases at - from,
{
    if from < at {
        cell_ends(s, from + 1, at);
    }
}

proof fn spaces_trimmed(s: Seq<char>, n: int)
    requires
        0 <= n <= s.len(),
        forall|k: int| 0 <= k < n ==> #[trigger] s[k] == ' ',
        n < s.len() ==> !crate::text::is_white(s[n]),
    ensures
        trim_start_seq(s) == s.subrange(n, s.len() as int),
    decreases n,
{
    if n > 0 {
        assert(s[0] == ' ');
        let rest = s.subrange(1, s.len() as int);
        assert forall|k: int| 0 <= k < n - 1 implies #[trigger] rest[k] == ' ' by {
            assert(rest[k] == s[k + 1]);
        }
        spaces_trimmed(rest, n - 1);
        assert(rest.subrange(n - 1, rest.len() as int) =~= s.subrange(n, s.len() as int));
    } else {
        assert(s.subrange(0, s.len() as int) =~= s);
    }
}

/// A plan is annotated with the number that follows `EC:` in the same cell: its digits,
/// whether or not they are grouped. The number stands from `at` to `end`, and the cell
/// ends at `cell`.
pub proof fn estimates_are_read(s: Seq<char>, i: int, at: int, end: int, cell: int)
    requires
        0 <= i,
        i + 3 <= at < end <= cell <= s.len(),
        s[i] == 'E' && s[i + 1] == 'C' && s[i + 2] == ':',
        forall|k: int| i + 3 <= k < at ==> #[trigger] s[k] == ' ',
        forall|k: int|
            at <= k < end ==> ('0' <= #[trigger] s[k] && s[k] <= '9') || s[k] == ',' || s[k] == '_',
        end < cell ==> !(('0' <= s[end] && s[end] <= '9') || s[end] == ',' || s[end] == '_'),
        forall|k: int| end <= k < cell ==> #[trigger] s[k] != '\n' && s[k] != '|',
        cell < s.len() ==> s[cell] == '\n' || s[cell] == '|',
    ensures
        annotation(s, i) == digits_u64(s.subrange(at, end).filter(|c: char| '0' <= c && c <= '9')),
{
    reveal_strlit("EC:");
    assert(s.subrange(i, i + 3) =~= "EC:"@);
    cell_ends(s, i + 3, cell);
    let rest = s.subrange(i + 3, cell);
    let n = at - (i + 3);
    assert forall|k: int| 0 <= k < n implies #[trigger] rest[k] == ' ' by {
        assert(rest[k] == s[i + 3 + k]);
    }
    assert(rest[n] == s[at]);
    spaces_trimmed(rest, n);
    let t = rest.subrange(n, rest.len() as int);
    assert forall|k: int| 0 <= k < t.len() implies #[trigger] t[k] == s[at + k] by {}
    group_ends(t, 0, end - at);
    assert(t.take(end - at) =~= s.subrange(at, end));
    digits_are_filtered(s.subrange(at, end));
}

/// A plan is annotated with the number between `~` and `row` in the same cell.
pub proof fn row_counts_are_read(s: Seq<char>, i: int, end: int, unit: int, cell: int)
    requires
        0 <= i,
        i + 1 < end < unit,
        unit + 3 <= cell <= s.len(),
        s[i] == '~',
        forall|k: int|
            i + 1 <= k < end ==> ('0' <= #[trigger] s[k] && s[k] <= '9') || s[k] == ',' || s[k]
                == '_',
        forall|k: int| end <= k < unit ==> #[trigger] s[k] == ' ',
        s[unit] == 'r' && s[unit + 1] == 'o' && s[unit + 2] == 'w',
        forall|k: int| unit <= k < cell ==> #[trigger] s[k] != '\n' && s[k] != '|',
        cell < s.len() ==> s[cell] == '\n' || s[cell] == '|',
    ensures
        annotation(s, i) == digits_u64(
            s.subrange(i + 1, end).filter(|c: char| '0' <= c && c <= '9'),
        ),
{
    reveal_strlit("EC:");
    reveal_strlit("~");
    reveal_strlit("row");
    assert(s.subrange(i, i + 1) =~= "~"@);
    assert(!occurs_at(s, "EC:"@, i)) by {
        if occurs_at(s, "EC:"@, i) {
            assert(s.subrange(i, i + 3)[0] == s[i]);
        }
    }
    cell_ends(s, i + 1, cell);
    let rest = s.subrange(i + 1, cell);
    assert(rest[0] == s[i + 1]);
    spaces_trimmed(rest, 0);
    assert(rest.subrange(0, rest.len() as int) =~= rest);
    assert forall|k: int| 0 <= k < rest.len() implies #[trigger] rest[k] == s[i + 1 + k] by {}
    group_ends(rest, 0, end - i - 1);
    let u = rest.subrange(end - i - 1, rest.len() as int);
    assert forall|k: int| 0 <= k < u.len() implies #[trigger] u[k] == s[end + k] by {}
    spaces_trimmed(u, unit - end);
    let v = u.subrange(unit - end, u.len() as int);
    assert(v.subrange(0, 3) =~= "row"@);
    assert(rest.take(end - i - 1) =~= s.subrange(i + 1, end));
    digits_are_filtered(s.subrange(i + 1, end));
}

/// A plan without annotations has no count.
pub proof fn plans_without_annotations_have_no_count(s: Seq<char>, from: int)
    requires
        0 <= from,
        forall|k: int| from <= k < s.len() ==> #[trigger] annotation(s, k) is None,
    ensures
        largest_count(s, from) is None,
    decreases s.len() - from,
{
    if from < s.len() {
        plans_without_annotations_have_no_count(s, from + 1);
        assert(annotation(s, from) is None);
    }
}

/// Whether a word stands in `t` at `i`, with nothing of another name around it but digits
/// before it.
pub open spec fn stands_alone(t: Seq<char>, word: Seq<char>, i: int) -> bool {
    &&& 0 <= i <= t.len()
    &&& has_head(t.skip(i), word)
    &&& i > 0 ==> !(('a' <= t[i - 1] && t[i - 1] <= 'z') || ('A' <= t[i - 1] && t[i - 1] <= 'Z')
        || t[i - 1] == '_')
    &&& i + word.len() < t.len() ==> {
        let c = t[i + word.len()];
        !(('a' <= c && c <= 'z') || ('A' <= c && c <= 'Z') || ('0' <= c && c <= '9') || c == '_')
    }
}

proof fn alone_is_a_word(t: Seq<char>, word: Seq<char>)
    requires
        word.len() > 0,
    ensures
        has_word(t, word) == exists|i: int| #[trigger] stands_alone(t, word, i),
{
    if has_word(t, word) {
        let i = choose|i: int| #[trigger] word_at(t, word, i);
        assert(t.skip(i).subrange(0, word.len() as int) =~= t.subrange(i, i + word.len()));
        head_is_start(t.skip(i), word);
        assert(stands_alone(t, word, i));
    }
    if exists|i: int| #[trigger] stands_alone(t, word, i) {
        let i = choose|i: int| #[trigger] stands_alone(t, word, i);
        head_is_start(t.skip(i), word);
        assert(t.skip(i).subrange(0, word.len() as int) =~= t.subrange(i, i + word.len()));
        assert(word_at(t, word, i));
    }
}

/// A query may read data from outside exactly where its text, in lower case, holds one of
/// the words that introduce a source, or a text that marks one.
pub proof fn sources_are_noticed(sql: Seq<char>, lower: Seq<char>)
    requires
        lowered(sql, lower),
    ensures
        mentions_source(sql) == ({
            ||| exists|i: int| #[trigger] stands_alone(lower, "from"@, i)
            ||| exists|i: int| #[trigger] stands_alone(lower, "join"@, i)
            ||| exists|i: int| #[trigger] stands_alone(lower, "copy"@, i)
            ||| exists|i: int| #[trigger] stands_alone(lower, "attach"@, i)
            ||| stands_in(lower, "read_"@)
            ||| stands_in(lower, "scan_"@)
            ||| stands_in(lower, "parquet_"@)
            ||| stands_in(lower, "_scan("@)
            ||| stands_in(lower, "glob("@)
            ||| stands_in(lower, "query_table("@)
            ||| stands_in(lower, "copy "@)
            ||| stands_in(lower, "attach "@)
            ||| stands_in(lower, "delta_"@)
            ||| stands_in(lower, "iceberg_"@)
            ||| stands_in(lower, ".parquet"@)
            ||| stands_in(lower, ".csv"@)
            ||| stands_in(lower, ".json"@)
            ||| stands_in(lower, ".ndjson"@)
            ||| stands_in(lower, "://"@)
        }),
{
    assert(lower =~= ascii_lower_seq(sql));
    reveal_strlit("from");
    reveal_strlit("join");
    reveal_strlit("copy");
    reveal_strlit("attach");
    alone_is_a_word(lower, "from"@);
    alone_is_a_word(lower, "join"@);
    alone_is_a_word(lower, "copy"@);
    alone_is_a_word(lower, "attach"@);
    standing_is_head(lower, "read_"@);
    standing_is_head(lower, "scan_"@);
    standing_is_head(lower, "parquet_"@);
    standing_is_head(lower, "_scan("@);
    standing_is_head(lower, "glob("@);
    standing_is_head(lower, "query_table("@);
    standing_is_head(lower, "copy "@);
    standing_is_head(lower, "attach "@);
    standing_is_head(lower, "delta_"@);
    standing_is_head(lower, "iceberg_"@);
    standing_is_head(lower, ".parquet"@);
    standing_is_head(lower, ".csv"@);
    standing_is_head(lower, ".json"@);
    standing_is_head(lower, ".ndjson"@);
    standing_is_head(lower, "://"@);
    let w = source_words();
    let m = source_markers();
    assert(w.len() == 4 && m.len() == 15);
    assert(w[0] == "from"@ && w[1] == "join"@ && w[2] == "copy"@ && w[3] == "attach"@);
    assert(m[0] == "read_"@ && m[1] == "scan_"@ && m[2] == "parquet_"@ && m[3] == "_scan("@ && m[4]
        == "glob("@ && m[5] == "query_table("@ && m[6] == "copy "@ && m[7] == "attach "@ && m[8]
        == "delta_"@ && m[9] == "iceberg_"@ && m[10] == ".parquet"@ && m[11] == ".csv"@ && m[12]
        == ".json"@ && m[13] == ".ndjson"@ && m[14] == "://"@);
}

} // verus!
