//! What a query may hold besides its literals: comments, quoted names and quoted text.

use vstd::prelude::*;
use crate::input_resolver::sources::{is_name_char, name_char};
use crate::scan::{char_end, char_end_bounds, find, find_char, first_at};
use crate::text::{is_white, is_whitespace, occurs_at};

verus! {

/// Whether two characters stand at `i`.
pub open spec fn pair_at(s: Seq<char>, i: int, a: char, b: char) -> bool {
    0 <= i && i + 1 < s.len() && s[i] == a && s[i + 1] == b
}

fn has_pair(v: &[char], i: usize, a: char, b: char) -> (r: bool)
    requires
        i < v@.len(),
    ensures
        r == pair_at(v@, i as int, a, b),
{
    v[i] == a && i < v.len() - 1 && v[i + 1] == b
}

/// The end of the line from `i` on.
pub open spec fn line_end(s: Seq<char>, i: int) -> int
    decreases s.len() - i,
{
    if i < s.len() && s[i] != '\n' && s[i] != '\r' {
        line_end(s, i + 1)
    } else {
        i
    }
}

/// The end of a block comment that goes on at `i`. Comments nest: `depth` of them are
/// open.
pub open spec fn block_end(s: Seq<char>, i: int, depth: nat) -> int
    decreases s.len() - i,
{
    if i >= s.len() {
        i
    } else if pair_at(s, i, '*', '/') {
        if depth <= 1 {
            i + 2
        } else {
            block_end(s, i + 2, (depth - 1) as nat)
        }
    } else if pair_at(s, i, '/', '*') {
        block_end(s, i + 2, depth + 1)
    } else {
        block_end(s, i + 1, depth)
    }
}

/// The end of the comment that begins at `i`, if one does.
pub open spec fn comment_end(s: Seq<char>, i: int) -> Option<int> {
    if pair_at(s, i, '-', '-') {
        Some(line_end(s, i + 2))
    } else if pair_at(s, i, '/', '*') {
        Some(block_end(s, i + 2, 1))
    } else {
        None
    }
}

fn end_of_line(v: &[char], from: usize) -> (r: usize)
    requires
        from <= v@.len(),
    ensures
        r == line_end(v@, from as int),
        from <= r <= v@.len(),
{
    let mut i: usize = from;
    while i < v.len() && v[i] != '\n' && v[i] != '\r'
        invariant
            from <= i <= v@.len(),
            line_end(v@, i as int) == line_end(v@, from as int),
        decreases v@.len() - i,
    {
        i = i + 1;
    }
    i
}

fn end_of_block(v: &[char], from: usize) -> (r: usize)
    requires
        from <= v@.len(),
    ensures
        r == block_end(v@, from as int, 1),
        from <= r <= v@.len(),
{
    let n: usize = v.len();
    let mut i: usize = from;
    let mut depth: usize = 1;
    while i < n
        invariant
            from <= i <= n,
            n == v@.len(),
            1 <= depth <= i + 1,
            block_end(v@, i as int, depth as nat) == block_end(v@, from as int, 1),
        decreases n - i,
    {
        if has_pair(v, i, '*', '/') {
            if depth == 1 {
                return i + 2;
            }
            depth = depth - 1;
            i = i + 2;
        } else if has_pair(v, i, '/', '*') {
            depth = depth + 1;
            i = i + 2;
        } else {
            i = i + 1;
        }
    }
    n
}

/// The end of the comment that begins at `i`, if one does.
pub fn end_of_comment(v: &[char], i: usize) -> (r: Option<usize>)
    requires
        i < v@.len(),
    ensures
        r is Some <==> comment_end(v@, i as int) is Some,
        r is Some ==> r->0 == comment_end(v@, i as int)->0 && i < r->0 <= v@.len(),
{
    let n: usize = v.len();
    assert(n == v@.len());
    if has_pair(v, i, '-', '-') {
        Some(end_of_line(v, i + 2))
    } else if has_pair(v, i, '/', '*') {
        Some(end_of_block(v, i + 2))
    } else {
        None
    }
}

proof fn block_bounds(s: Seq<char>, i: int, depth: nat)
    requires
        0 <= i <= s.len(),
    ensures
        i <= block_end(s, i, depth) <= s.len(),
    decreases s.len() - i,
{
    if i < s.len() {
        if pair_at(s, i, '*', '/') {
            if depth > 1 {
                block_bounds(s, i + 2, (depth - 1) as nat);
            }
        } else if pair_at(s, i, '/', '*') {
            block_bounds(s, i + 2, depth + 1);
        } else {
            block_bounds(s, i + 1, depth);
        }
    }
}

proof fn line_bounds(s: Seq<char>, i: int)
    requires
        0 <= i <= s.len(),
    ensures
        i <= line_end(s, i) <= s.len(),
    decreases s.len() - i,
{
    if i < s.len() && s[i] != '\n' && s[i] != '\r' {
        line_bounds(s, i + 1);
    }
}

/// A comment ends after it begins, and within the text.
pub proof fn comment_bounds(s: Seq<char>, i: int)
    requires
        comment_end(s, i) is Some,
    ensures
        0 <= i < comment_end(s, i)->0 <= s.len(),
{
    if pair_at(s, i, '-', '-') {
        line_bounds(s, i + 2);
    } else {
        block_bounds(s, i + 2, 1);
    }
}

/// The first index from `i` on that is neither in a comment nor white space nor an
/// opening bracket.
pub open spec fn argument_start(s: Seq<char>, i: int) -> int
    decreases s.len() - i,
    via argument_start_decreases
{
    if i < 0 || i >= s.len() {
        i
    } else if is_white(s[i]) || s[i] == '[' || s[i] == '(' {
        argument_start(s, i + 1)
    } else {
        match comment_end(s, i) {
            Some(end) => argument_start(s, end),
            None => i,
        }
    }
}

#[via_fn]
proof fn argument_start_decreases(s: Seq<char>, i: int) {
    if comment_end(s, i) is Some {
        comment_bounds(s, i);
    }
}

/// The first index from `from` on that is neither in a comment nor white space nor an
/// opening bracket.
pub fn skip_to_argument(v: &[char], from: usize) -> (r: usize)
    requires
        from <= v@.len(),
    ensures
        r == argument_start(v@, from as int),
        from <= r <= v@.len(),
{
    let n: usize = v.len();
    let mut i: usize = from;
    while i < n
        invariant
            from <= i <= n,
            n == v@.len(),
            argument_start(v@, i as int) == argument_start(v@, from as int),
        decreases n - i,
    {
        let c = v[i];
        if is_whitespace(c) || c == '[' || c == '(' {
            i = i + 1;
        } else {
            match end_of_comment(v, i) {
                Some(end) => {
                    i = end;
                },
                None => {
                    return i;
                },
            }
        }
    }
    i
}

/// Whether a word may begin at `i`.
pub open spec fn word_starts(s: Seq<char>, i: int) -> bool {
    i <= 0 || !is_name_char(s[i - 1])
}

/// The end of a literal with escapes that goes on at `i`: a backslash takes the next
/// character with it, and two quotes stand for one.
pub open spec fn escape_end(s: Seq<char>, i: int) -> int
    decreases s.len() + 1 - i,
{
    if i >= s.len() {
        s.len() as int
    } else if s[i] == '\\' {
        escape_end(s, i + 2)
    } else if s[i] != '\'' {
        escape_end(s, i + 1)
    } else if i + 1 < s.len() && s[i + 1] == '\'' {
        escape_end(s, i + 2)
    } else {
        i + 1
    }
}

fn end_of_escapes(v: &[char], from: usize) -> (r: usize)
    requires
        from <= v@.len(),
    ensures
        r == escape_end(v@, from as int),
        from <= r <= v@.len(),
{
    let n: usize = v.len();
    let mut i: usize = from;
    while i < n
        invariant
            from <= i <= n,
            n == v@.len(),
            escape_end(v@, i as int) == escape_end(v@, from as int),
        decreases n - i,
    {
        if v[i] == '\\' {
            if i + 1 >= n {
                assert(escape_end(v@, i + 2) == n);
                return n;
            }
            i = i + 2;
        } else if v[i] != '\'' {
            i = i + 1;
        } else if i + 1 < n && v[i + 1] == '\'' {
            i = i + 2;
        } else {
            return i + 1;
        }
    }
    n
}

/// The end of the literal with escapes that begins at `i`, if one does: `E`, and a
/// literal with a backslash in it.
pub open spec fn escaped_literal_end(s: Seq<char>, i: int) -> Option<int> {
    let end = escape_end(s, i + 2);
    if (pair_at(s, i, 'e', '\'') || pair_at(s, i, 'E', '\'')) && word_starts(s, i) && char_end(
        s,
        '\\',
        i + 2,
    ) < end {
        Some(end)
    } else {
        None
    }
}

/// The first index from `i` on that does not hold a character of a name.
pub open spec fn name_end(s: Seq<char>, i: int) -> int
    decreases s.len() - i,
{
    if i < s.len() && is_name_char(s[i]) {
        name_end(s, i + 1)
    } else {
        i
    }
}

fn end_of_name(v: &[char], from: usize) -> (r: usize)
    requires
        from <= v@.len(),
    ensures
        r == name_end(v@, from as int),
        from <= r <= v@.len(),
{
    let mut i: usize = from;
    while i < v.len() && name_char(v[i])
        invariant
            from <= i <= v@.len(),
            name_end(v@, i as int) == name_end(v@, from as int),
        decreases v@.len() - i,
    {
        i = i + 1;
    }
    i
}

/// The end of the dollar-quoted text that begins at `i`, if one does: a name or nothing
/// between two dollars, and all up to where they stand again.
pub open spec fn dollar_end(s: Seq<char>, i: int) -> Option<int> {
    let k = name_end(s, i + 1);
    if 0 <= i < s.len() && s[i] == '$' && word_starts(s, i) && k < s.len() && s[k] == '$' && !('0'
        <= s[i + 1] <= '9') {
        let mark = s.subrange(i, k + 1);
        match first_at(s, mark, k + 1) {
            Some(j) => Some(j + mark.len()),
            None => Some(s.len() as int),
        }
    } else {
        None
    }
}

/// The end of what begins at `i` and is no plain literal though quotes may stand in it: a
/// comment, a quoted name, a literal with escapes or dollar-quoted text.
pub open spec fn passed_over(s: Seq<char>, i: int) -> Option<int> {
    if comment_end(s, i) is Some {
        comment_end(s, i)
    } else if 0 <= i < s.len() && s[i] == '"' {
        let close = char_end(s, '"', i + 1);
        Some(
            if close < s.len() {
                close + 1
            } else {
                close
            },
        )
    } else if escaped_literal_end(s, i) is Some {
        escaped_literal_end(s, i)
    } else {
        dollar_end(s, i)
    }
}

/// The end of what begins at `i` and is no plain literal though quotes may stand in it.
pub fn pass_over(v: &[char], i: usize) -> (r: Option<usize>)
    requires
        i < v@.len(),
    ensures
        r is Some <==> passed_over(v@, i as int) is Some,
        r is Some ==> r->0 == passed_over(v@, i as int)->0 && i < r->0 <= v@.len(),
{
    let n: usize = v.len();
    let comment = end_of_comment(v, i);
    if comment.is_some() {
        return comment;
    }
    if v[i] == '"' {
        let close: usize = find_char(v, '"', i + 1);
        return Some(
            if close < n {
                close + 1
            } else {
                close
            },
        );
    }
    let bounded = i == 0 || !name_char(v[i - 1]);
    if (has_pair(v, i, 'e', '\'') || has_pair(v, i, 'E', '\'')) && bounded {
        let end: usize = end_of_escapes(v, i + 2);
        if find_char(v, '\\', i + 2) < end {
            return Some(end);
        }
    }
    if v[i] == '$' && bounded {
        let k: usize = end_of_name(v, i + 1);
        if k < n && v[k] == '$' && !('0' <= v[i + 1] && v[i + 1] <= '9') {
            let mark = vstd::slice::slice_subrange(v, i, k + 1);
            return match find(v, mark, k + 1) {
                Some(j) => Some(j + (k + 1 - i)),
                None => Some(n),
            };
        }
    }
    None
}

/// What is passed over ends after it begins, and within the text.
pub proof fn passed_over_bounds(s: Seq<char>, i: int)
    requires
        passed_over(s, i) is Some,
    ensures
        0 <= i < passed_over(s, i)->0 <= s.len(),
{
    if comment_end(s, i) is Some {
        comment_bounds(s, i);
    } else if 0 <= i < s.len() && s[i] == '"' {
        char_end_bounds(s, '"', i + 1);
    } else if escaped_literal_end(s, i) is Some {
        escape_bounds(s, i + 2);
    } else {
        name_bounds(s, i + 1);
        let k = name_end(s, i + 1);
        first_bounds(s, s.subrange(i, k + 1), k + 1);
    }
}

proof fn escape_bounds(s: Seq<char>, i: int)
    requires
        0 <= i <= s.len(),
    ensures
        i <= escape_end(s, i) <= s.len(),
    decreases s.len() - i,
{
    if i < s.len() {
        if s[i] == '\\' {
            if i + 2 <= s.len() {
                escape_bounds(s, i + 2);
            }
        } else if s[i] != '\'' {
            escape_bounds(s, i + 1);
        } else if i + 1 < s.len() && s[i + 1] == '\'' {
            escape_bounds(s, i + 2);
        }
    }
}

proof fn name_bounds(s: Seq<char>, i: int)
    requires
        0 <= i <= s.len(),
    ensures
        i <= name_end(s, i) <= s.len(),
    decreases s.len() - i,
{
    if i < s.len() && is_name_char(s[i]) {
        name_bounds(s, i + 1);
    }
}

proof fn first_bounds(s: Seq<char>, p: Seq<char>, from: int)
    requires
        0 <= from,
    ensures
        first_at(s, p, from) is Some ==> from <= first_at(s, p, from)->0 && first_at(s, p, from)->0
            + p.len() <= s.len(),
    decreases s.len() + 1 - from,
{
    if from + p.len() <= s.len() && !crate::text::occurs_at(s, p, from) {
        first_bounds(s, p, from + 1);
    }
}

/// A comment of a line ends with the line.
pub proof fn line_comments_end_with_the_line(s: Seq<char>, i: int, end: int)
    requires
        0 <= i,
        i + 2 <= end <= s.len(),
        s[i] == '-' && s[i + 1] == '-',
        forall|k: int| i + 2 <= k < end ==> #[trigger] s[k] != '\n' && s[k] != '\r',
        end < s.len() ==> s[end] == '\n' || s[end] == '\r',
    ensures
        comment_end(s, i) == Some(end),
{
    line_found(s, i + 2, end);
}

proof fn line_found(s: Seq<char>, from: int, end: int)
    requires
        0 <= from <= end <= s.len(),
        forall|k: int| from <= k < end ==> #[trigger] s[k] != '\n' && s[k] != '\r',
        end < s.len() ==> s[end] == '\n' || s[end] == '\r',
    ensures
        line_end(s, from) == end,
    decreases end - from,
{
    if from < end {
        line_found(s, from + 1, end);
    }
}

/// A block comment ends at the first `*/` behind it, where no other begins before.
pub proof fn block_comments_end_where_they_close(s: Seq<char>, i: int, end: int)
    requires
        0 <= i,
        i + 2 <= end,
        end + 2 <= s.len(),
        s[i] == '/' && s[i + 1] == '*',
        s[end] == '*' && s[end + 1] == '/',
        forall|k: int| i + 2 <= k < end ==> !(#[trigger] s[k] == '*' && s[k + 1] == '/'),
        forall|k: int| i + 2 <= k < end ==> !(#[trigger] s[k] == '/' && s[k + 1] == '*'),
    ensures
        comment_end(s, i) == Some(end + 2),
{
    block_found(s, i + 2, end);
}

proof fn block_found(s: Seq<char>, from: int, end: int)
    requires
        0 <= from <= end,
        end + 2 <= s.len(),
        s[end] == '*' && s[end + 1] == '/',
        forall|k: int| from <= k < end ==> !(#[trigger] s[k] == '*' && s[k + 1] == '/'),
        forall|k: int| from <= k < end ==> !(#[trigger] s[k] == '/' && s[k + 1] == '*'),
    ensures
        block_end(s, from, 1) == end + 2,
    decreases end - from,
{
    if from < end {
        assert(!(s[from] == '*' && s[from + 1] == '/'));
        assert(!(s[from] == '/' && s[from + 1] == '*'));
        block_found(s, from + 1, end);
    }
}

/// A quoted name is passed over up to its closing quote.
pub proof fn quoted_names_are_passed_over(s: Seq<char>, i: int, close: int)
    requires
        0 <= i < close < s.len(),
        s[i] == '"',
        s[close] == '"',
        forall|k: int| i < k < close ==> #[trigger] s[k] != '"',
    ensures
        passed_over(s, i) == Some(close + 1),
{
    quote_found(s, i + 1, close);
}

proof fn quote_found(s: Seq<char>, from: int, close: int)
    requires
        0 <= from <= close < s.len(),
        s[close] == '"',
        forall|k: int| from <= k < close ==> #[trigger] s[k] != '"',
    ensures
        char_end(s, '"', from) == close,
    decreases close - from,
{
    if from < close {
        quote_found(s, from + 1, close);
    }
}

/// A comment before an argument is passed over.
pub proof fn comments_before_an_argument_are_passed_over(s: Seq<char>, i: int)
    requires
        comment_end(s, i) is Some,
    ensures
        argument_start(s, i) == argument_start(s, comment_end(s, i)->0),
{
    comment_bounds(s, i);
    crate::text::blanks_are_white_space('-');
    crate::text::blanks_are_white_space('/');
}

/// Comments nest: one inside a block comment, from `k` to `e`, closes itself only, and the
/// outer one ends where it is closed behind it.
pub proof fn comments_nest(s: Seq<char>, i: int, k: int, e: int, end: int)
    requires
        0 <= i,
        i + 2 <= k,
        k + 2 <= s.len(),
        s[i] == '/' && s[i + 1] == '*',
        s[k] == '/' && s[k + 1] == '*',
        forall|x: int| i + 2 <= x < k ==> !(#[trigger] s[x] == '*' && s[x + 1] == '/'),
        forall|x: int| i + 2 <= x < k ==> !(#[trigger] s[x] == '/' && s[x + 1] == '*'),
        comment_end(s, k) == Some(e),
        e <= end,
        end + 2 <= s.len(),
        s[end] == '*' && s[end + 1] == '/',
        forall|x: int| e <= x < end ==> !(#[trigger] s[x] == '*' && s[x + 1] == '/'),
        forall|x: int| e <= x < end ==> !(#[trigger] s[x] == '/' && s[x + 1] == '*'),
    ensures
        comment_end(s, i) == Some(end + 2),
{
    block_goes_on(s, i + 2, k, 1);
    block_closes_inside_first(s, k + 2, 1, 1);
    comment_bounds(s, k);
    block_found(s, e, end);
}

proof fn block_goes_on(s: Seq<char>, from: int, to: int, depth: nat)
    requires
        0 <= from <= to,
        to + 2 <= s.len(),
        forall|x: int| from <= x < to ==> !(#[trigger] s[x] == '*' && s[x + 1] == '/'),
        forall|x: int| from <= x < to ==> !(#[trigger] s[x] == '/' && s[x + 1] == '*'),
    ensures
        block_end(s, from, depth) == block_end(s, to, depth),
    decreases to - from,
{
    if from < to {
        assert(!(s[from] == '*' && s[from + 1] == '/'));
        assert(!(s[from] == '/' && s[from + 1] == '*'));
        block_goes_on(s, from + 1, to, depth);
    }
}

proof fn block_closes_inside_first(s: Seq<char>, i: int, a: nat, b: nat)
    requires
        a >= 1,
        b >= 1,
    ensures
        block_end(s, i, a + b) == block_end(s, block_end(s, i, a), b),
    decreases s.len() - i,
{
    if i < s.len() {
        if pair_at(s, i, '*', '/') {
            if a > 1 {
                block_closes_inside_first(s, i + 2, (a - 1) as nat, b);
            }
        } else if pair_at(s, i, '/', '*') {
            block_closes_inside_first(s, i + 2, a + 1, b);
        } else {
            block_closes_inside_first(s, i + 1, a, b);
        }
    }
}

/// A literal with escapes goes on behind a backslash and the character that it takes with
/// it, and ends at the first quote that neither follows a backslash nor is doubled. Without
/// a backslash it is a plain literal.
pub proof fn escapes_take_the_next_character(s: Seq<char>, i: int, b: int, q: int)
    requires
        0 <= i,
        i + 2 <= b <= q < s.len(),
        s[i] == 'e' || s[i] == 'E',
        s[i + 1] == '\'',
        i > 0 ==> !is_name_char(s[i - 1]),
        forall|x: int| i + 2 <= x < b ==> #[trigger] s[x] != '\'' && s[x] != '\\',
        b < q ==> s[b] == '\\' && b + 2 <= q,
        forall|x: int| b + 2 <= x < q ==> #[trigger] s[x] != '\'' && s[x] != '\\',
        s[q] == '\'',
        q + 1 < s.len() ==> s[q + 1] != '\'',
    ensures
        b < q ==> passed_over(s, i) == Some(q + 1),
        b == q ==> passed_over(s, i) is None,
{
    if b < q {
        escapes_go_on(s, i + 2, b);
        assert(escape_end(s, b) == escape_end(s, b + 2));
        escapes_go_on(s, b + 2, q);
        assert(escape_end(s, q) == q + 1);
        backslash_before(s, i + 2, b);
    } else {
        escapes_go_on(s, i + 2, q);
        backslash_behind(s, i + 2, q + 1);
    }
}

/// Two quotes in a literal with escapes stand for one, and do not end it.
pub proof fn doubled_quotes_go_on(s: Seq<char>, from: int, q: int)
    requires
        0 <= from <= q,
        q + 1 < s.len(),
        forall|x: int| from <= x < q ==> #[trigger] s[x] != '\'' && s[x] != '\\',
        s[q] == '\'' && s[q + 1] == '\'',
    ensures
        escape_end(s, from) == escape_end(s, q + 2),
{
    escapes_go_on(s, from, q);
}

proof fn escapes_go_on(s: Seq<char>, from: int, to: int)
    requires
        0 <= from <= to <= s.len(),
        forall|x: int| from <= x < to ==> #[trigger] s[x] != '\'' && s[x] != '\\',
    ensures
        escape_end(s, from) == escape_end(s, to),
    decreases to - from,
{
    if from < to {
        assert(s[from] != '\'' && s[from] != '\\');
        escapes_go_on(s, from + 1, to);
    }
}

proof fn backslash_before(s: Seq<char>, from: int, b: int)
    requires
        0 <= from <= b < s.len(),
        s[b] == '\\',
    ensures
        char_end(s, '\\', from) <= b,
    decreases b - from,
{
    if from < b {
        backslash_before(s, from + 1, b);
    }
}

proof fn backslash_behind(s: Seq<char>, from: int, end: int)
    requires
        0 <= from <= end <= s.len(),
        forall|x: int| from <= x < end ==> #[trigger] s[x] != '\\',
    ensures
        char_end(s, '\\', from) >= end,
    decreases end - from,
{
    if from < end {
        assert(s[from] != '\\');
        backslash_behind(s, from + 1, end);
    } else {
        char_end_bounds(s, '\\', from);
    }
}

/// Dollar-quoted text, from a mark at `i` to `k`, goes on to where the mark stands next, and
/// to the end where it does not.
pub proof fn dollar_quotes_end_with_their_mark(s: Seq<char>, i: int, k: int, j: int)
    requires
        0 <= i < k < s.len(),
        s[i] == '$' && s[k] == '$',
        i > 0 ==> !is_name_char(s[i - 1]),
        forall|x: int| i < x < k ==> is_name_char(#[trigger] s[x]),
        !('0' <= s[i + 1] <= '9'),
        k < j <= s.len(),
        forall|x: int| k < x < j ==> !occurs_at(s, s.subrange(i, k + 1), #[trigger] (x + 0)),
        j < s.len() ==> occurs_at(s, s.subrange(i, k + 1), j),
    ensures
        passed_over(s, i) == Some(
            if j < s.len() {
                j + (k + 1 - i)
            } else {
                s.len() as int
            },
        ),
{
    names_go_on(s, i + 1, k);
    let mark = s.subrange(i, k + 1);
    assert forall|x: int| k + 1 <= x < j implies !occurs_at(s, mark, x) by {
        assert(!occurs_at(s, mark, x + 0));
    }
    mark_stands(s, mark, k + 1, j);
}

proof fn names_go_on(s: Seq<char>, from: int, k: int)
    requires
        0 <= from <= k < s.len(),
        forall|x: int| from <= x < k ==> is_name_char(#[trigger] s[x]),
        !is_name_char(s[k]),
    ensures
        name_end(s, from) == k,
    decreases k - from,
{
    if from < k {
        assert(is_name_char(s[from]));
        names_go_on(s, from + 1, k);
    }
}

proof fn mark_stands(s: Seq<char>, mark: Seq<char>, from: int, j: int)
    requires
        0 <= from <= j <= s.len(),
        mark.len() > 0,
        forall|x: int| from <= x < j ==> !occurs_at(s, mark, x),
        j < s.len() ==> occurs_at(s, mark, j),
    ensures
        first_at(s, mark, from) == (if j < s.len() {
            Some(j)
        } else {
            None
        }),
    decreases j - from,
{
    if from < j && from + mark.len() <= s.len() {
        assert(!occurs_at(s, mark, from));
        mark_stands(s, mark, from + 1, j);
    }
}

/// White space and opening brackets before an argument are passed over, and anything else
/// that begins no comment is where it starts.
pub proof fn arguments_start_behind_blanks_and_brackets(s: Seq<char>, i: int)
    requires
        0 <= i < s.len(),
    ensures
        is_white(s[i]) || s[i] == '[' || s[i] == '(' ==> argument_start(s, i) == argument_start(
            s,
            i + 1,
        ),
        !is_white(s[i]) && s[i] != '[' && s[i] != '(' && !(i + 1 < s.len() && (s[i] == '-'
            && s[i + 1] == '-' || s[i] == '/' && s[i + 1] == '*')) ==> argument_start(s, i) == i,
{
}

} // verus!
