//! Scanning text: searching, splitting into lines, ordering, and numbers.

use vstd::prelude::*;
use crate::text::{at, chars_of, decimal, decimal_seq, occurs_at, string_of_range};
use crate::types::strs;

verus! {

/// The first index of `s`, from `from` on, at which `p` stands.
pub open spec fn first_at(s: Seq<char>, p: Seq<char>, from: int) -> Option<int>
    decreases s.len() + 1 - from,
{
    if from + p.len() > s.len() {
        None
    } else if occurs_at(s, p, from) {
        Some(from)
    } else {
        first_at(s, p, from + 1)
    }
}

/// The first index of `v`, from `from` on, at which `p` stands.
pub fn find(v: &[char], p: &[char], from: usize) -> (r: Option<usize>)
    requires
        from <= v@.len(),
    ensures
        r is Some <==> first_at(v@, p@, from as int) is Some,
        r is Some ==> r->0 == first_at(v@, p@, from as int)->0,
        r is Some ==> from <= r->0 && r->0 + p@.len() <= v@.len(),
        v@.len() <= usize::MAX,
{
    let n: usize = v.len();
    let m: usize = p.len();
    let mut i: usize = from;
    while m <= n - i
        invariant
            from <= i <= n,
            n == v@.len(),
            m == p@.len(),
            first_at(v@, p@, i as int) == first_at(v@, p@, from as int),
        decreases n - i,
    {
        if at(v, p, i) {
            return Some(i);
        }
        proof {
            if m == 0 {
                assert(v@.subrange(i as int, i + m) =~= p@);
            }
        }
        i = i + 1;
    }
    None
}

/// Whether `s` ends with `p`.
pub open spec fn ends_with_seq(s: Seq<char>, p: Seq<char>) -> bool {
    p.len() <= s.len() && occurs_at(s, p, s.len() - p.len())
}

/// Whether `s` ends with `p`.
pub fn ends_with(s: &str, p: &str) -> (r: bool)
    ensures
        r == ends_with_seq(s@, p@),
{
    let v = chars_of(s);
    let q = chars_of(p);
    let n: usize = v.len();
    let m: usize = q.len();
    m <= n && at(&v, &q, n - m)
}

/// The text after the prefix `p`, or all of it where it does not begin with `p`.
pub open spec fn strip_prefix_seq(s: Seq<char>, p: Seq<char>) -> Seq<char> {
    if occurs_at(s, p, 0) {
        s.subrange(p.len() as int, s.len() as int)
    } else {
        s
    }
}

/// The text after the prefix `p`, or all of it where it does not begin with `p`.
pub fn strip_prefix(s: &str, p: &str) -> (r: String)
    ensures
        r@ == strip_prefix_seq(s@, p@),
{
    let v = chars_of(s);
    let q = chars_of(p);
    let n: usize = v.len();
    let m: usize = q.len();
    if at(&v, &q, 0) {
        string_of_range(&v, m, n)
    } else {
        s.to_owned()
    }
}

/// `a` followed by `b`.
pub fn join(a: &str, b: &str) -> (r: String)
    ensures
        r@ == a@ + b@,
{
    let mut r = a.to_owned();
    r.append(b);
    r
}

/// The first index of `s`, from `from` on, that holds `c`, or the length of `s`.
pub open spec fn char_end(s: Seq<char>, c: char, from: int) -> int
    decreases s.len() - from,
{
    if from < s.len() && s[from] != c {
        char_end(s, c, from + 1)
    } else {
        from
    }
}

/// The first index of `v`, from `from` on, that holds `c`, or the length of `v`.
pub fn find_char(v: &[char], c: char, from: usize) -> (r: usize)
    requires
        from <= v@.len(),
    ensures
        r == char_end(v@, c, from as int),
        from <= r <= v@.len(),
        r < v@.len() ==> v@[r as int] == c,
        forall|k: int| from <= k < r ==> v@[k] != c,
{
    let mut i: usize = from;
    while i < v.len() && v[i] != c
        invariant
            from <= i <= v@.len(),
            char_end(v@, c, i as int) == char_end(v@, c, from as int),
            forall|k: int| from <= k < i ==> v@[k] != c,
        decreases v@.len() - i,
    {
        i = i + 1;
    }
    i
}

/// A line without the carriage return that may precede its newline.
pub open spec fn without_return(s: Seq<char>) -> Seq<char> {
    if s.len() > 0 && s.last() == '\r' {
        s.drop_last()
    } else {
        s
    }
}

/// The lines of `s` from index `from` on. A line ends in a newline, or in a carriage
/// return and a newline; the last line may end with the text.
pub open spec fn lines_from(s: Seq<char>, from: int) -> Seq<Seq<char>>
    decreases s.len() - from,
    when 0 <= from
    via lines_from_decreases
{
    if from >= s.len() {
        Seq::empty()
    } else {
        let end = char_end(s, '\n', from);
        if end < s.len() {
            seq![without_return(s.subrange(from, end))] + lines_from(s, end + 1)
        } else {
            seq![s.subrange(from, s.len() as int)]
        }
    }
}

#[via_fn]
proof fn lines_from_decreases(s: Seq<char>, from: int) {
    char_end_bounds(s, '\n', from);
}

/// `char_end` lies between its start and the end of the text.
pub proof fn char_end_bounds(s: Seq<char>, c: char, from: int)
    ensures
        from <= char_end(s, c, from),
        from <= s.len() ==> char_end(s, c, from) <= s.len(),
    decreases s.len() - from,
{
    if from < s.len() && s[from] != c {
        char_end_bounds(s, c, from + 1);
    }
}

/// The lines of `s`.
pub open spec fn lines_seq(s: Seq<char>) -> Seq<Seq<char>> {
    lines_from(s, 0)
}

/// The lines of `text`.
pub fn lines(text: &str) -> (r: Vec<String>)
    ensures
        strs(r@) == lines_seq(text@),
{
    let v = chars_of(text);
    let n: usize = v.len();
    let mut r: Vec<String> = Vec::new();
    let mut i: usize = 0;
    assert(strs(r@) + lines_from(v@, 0) =~= lines_from(v@, 0));
    while i < n
        invariant
            i <= n,
            n == v@.len(),
            strs(r@) + lines_from(v@, i as int) == lines_from(v@, 0),
        decreases n - i,
    {
        let end = find_char(&v, '\n', i);
        let ghost before = strs(r@);
        if end < n {
            let cut: usize = if end > i && v[end - 1] == '\r' {
                end - 1
            } else {
                end
            };
            let line = string_of_range(&v, i, cut);
            let ghost piece = v@.subrange(i as int, end as int);
            proof {
                if end > i && v@[end - 1] == '\r' {
                    assert(piece.drop_last() =~= v@.subrange(i as int, cut as int));
                }
                assert(line@ =~= without_return(piece));
            }
            r.push(line);
            proof {
                assert(strs(r@) =~= before.push(without_return(piece)));
                assert(strs(r@) + lines_from(v@, end + 1) =~= before + lines_from(v@, i as int));
            }
            i = end + 1;
        } else {
            let line = string_of_range(&v, i, n);
            r.push(line);
            proof {
                assert(strs(r@) =~= before.push(line@));
                assert(lines_from(v@, n as int) =~= Seq::empty());
                assert(strs(r@) + lines_from(v@, n as int) =~= before + lines_from(v@, i as int));
            }
            i = n;
        }
    }
    assert(lines_from(v@, i as int) =~= Seq::empty());
    assert(strs(r@) =~= strs(r@) + lines_from(v@, i as int));
    r
}

/// Whether `a` comes before `b` in the order of their characters' code points.
pub open spec fn text_lt(a: Seq<char>, b: Seq<char>) -> bool
    decreases a.len(),
{
    if b.len() == 0 {
        false
    } else if a.len() == 0 {
        true
    } else if a[0] == b[0] {
        text_lt(a.subrange(1, a.len() as int), b.subrange(1, b.len() as int))
    } else {
        a[0] < b[0]
    }
}

/// Whether `a` comes before `b` in the order of their characters' code points.
pub fn comes_first(a: &str, b: &str) -> (r: bool)
    ensures
        r == text_lt(a@, b@),
{
    let v = chars_of(a);
    let w = chars_of(b);
    let mut i: usize = 0;
    assert(v@.subrange(0, v@.len() as int) =~= v@);
    assert(w@.subrange(0, w@.len() as int) =~= w@);
    while i < v.len() && i < w.len()
        invariant
            v@ == a@,
            w@ == b@,
            i <= v@.len(),
            i <= w@.len(),
            text_lt(v@.subrange(i as int, v@.len() as int), w@.subrange(i as int, w@.len() as int))
                == text_lt(v@, w@),
        decreases v@.len() - i,
    {
        let ghost x = v@.subrange(i as int, v@.len() as int);
        let ghost y = w@.subrange(i as int, w@.len() as int);
        assert(x[0] == v@[i as int] && y[0] == w@[i as int]);
        if v[i] != w[i] {
            return v[i] < w[i];
        }
        i = i + 1;
        assert(x.subrange(1, x.len() as int) =~= v@.subrange(i as int, v@.len() as int));
        assert(y.subrange(1, y.len() as int) =~= w@.subrange(i as int, w@.len() as int));
    }
    i < w.len()
}

/// The order of texts is transitive.
pub proof fn text_lt_transitive(a: Seq<char>, b: Seq<char>, c: Seq<char>)
    requires
        text_lt(a, b),
        text_lt(b, c),
    ensures
        text_lt(a, c),
    decreases a.len(),
{
    if a.len() > 0 && a[0] == b[0] && b[0] == c[0] {
        text_lt_transitive(
            a.subrange(1, a.len() as int),
            b.subrange(1, b.len() as int),
            c.subrange(1, c.len() as int),
        );
    }
}

/// Of two different texts one comes before the other, and not the other way round.
pub proof fn text_lt_total(a: Seq<char>, b: Seq<char>)
    ensures
        a == b || text_lt(a, b) || text_lt(b, a),
        !(text_lt(a, b) && text_lt(b, a)),
        !text_lt(a, a),
    decreases a.len(),
{
    if a.len() == 0 && b.len() == 0 {
        assert(a =~= b);
    } else if a.len() > 0 {
        let x = a.subrange(1, a.len() as int);
        text_lt_total(x, x);
        if b.len() > 0 && a[0] == b[0] {
            let y = b.subrange(1, b.len() as int);
            text_lt_total(x, y);
            if x == y {
                assert(a =~= seq![a[0]] + x);
                assert(b =~= seq![b[0]] + y);
            }
        }
    }
}

pub open spec fn is_digit(c: char) -> bool {
    '0' <= c && c <= '9'
}

pub open spec fn all_digits(s: Seq<char>) -> bool {
    forall|i: int| 0 <= i < s.len() ==> is_digit(#[trigger] s[i])
}

/// The number that decimal digits write.
pub open spec fn digits_value(s: Seq<char>) -> nat
    decreases s.len(),
{
    if s.len() == 0 {
        0
    } else {
        digits_value(s.drop_last()) * 10 + ((s.last() as int) - 48) as nat
    }
}

/// The number that the digits `v` write, if there are any and it fits.
pub open spec fn digits_u64(s: Seq<char>) -> Option<u64> {
    if s.len() > 0 && digits_value(s) <= u64::MAX {
        Some(digits_value(s) as u64)
    } else {
        None
    }
}

/// The number that the digits `v` write, if there are any and it fits.
pub fn read_digits(v: &[char]) -> (r: Option<u64>)
    requires
        all_digits(v@),
    ensures
        r == digits_u64(v@),
{
    let mut total: u64 = 0;
    let mut fits = true;
    let mut i: usize = 0;
    while i < v.len()
        invariant
            i <= v@.len(),
            all_digits(v@),
            fits ==> total == digits_value(v@.take(i as int)),
            !fits ==> digits_value(v@.take(i as int)) > u64::MAX,
        decreases v@.len() - i,
    {
        proof {
            let next = v@.take(i + 1);
            assert(next.drop_last() =~= v@.take(i as int));
            assert(next.last() == v@[i as int]);
            assert(is_digit(v@[i as int]));
        }
        let d: u64 = (v[i] as u32 - 48) as u64;
        if fits {
            match total.checked_mul(10) {
                Some(t) => match t.checked_add(d) {
                    Some(x) => {
                        total = x;
                    },
                    None => {
                        fits = false;
                    },
                },
                None => {
                    fits = false;
                },
            }
        }
        i = i + 1;
    }
    assert(v@.take(i as int) =~= v@);
    if fits && v.len() > 0 {
        Some(total)
    } else {
        None
    }
}

/// Whether all of `v` is digits.
pub fn only_digits(v: &[char]) -> (r: bool)
    ensures
        r == all_digits(v@),
{
    let mut i: usize = 0;
    while i < v.len()
        invariant
            i <= v@.len(),
            forall|k: int| 0 <= k < i ==> is_digit(#[trigger] v@[k]),
        decreases v@.len() - i,
    {
        if !('0' <= v[i] && v[i] <= '9') {
            assert(!is_digit(v@[i as int]));
            return false;
        }
        i = i + 1;
    }
    true
}

/// The text after a leading plus sign, if there is one.
pub open spec fn without_plus(s: Seq<char>) -> Seq<char> {
    if s.len() > 0 && s[0] == '+' {
        s.subrange(1, s.len() as int)
    } else {
        s
    }
}

/// The unsigned number that `s` writes: digits, with a plus sign before them or not.
pub open spec fn parse_u64_spec(s: Seq<char>) -> Option<u64> {
    let d = without_plus(s);
    if all_digits(d) {
        digits_u64(d)
    } else {
        None
    }
}

/// The unsigned number that `s` writes.
pub fn parse_u64(s: &str) -> (r: Option<u64>)
    ensures
        r == parse_u64_spec(s@),
{
    let v = chars_of(s);
    let n: usize = v.len();
    let from: usize = if n > 0 && v[0] == '+' {
        1
    } else {
        0
    };
    let d = crate::text::chars_of(&string_of_range(&v, from, n));
    assert(d@ =~= without_plus(s@));
    if only_digits(&d) {
        read_digits(&d)
    } else {
        None
    }
}

/// The signed number that `s` writes: digits, with a sign before them or not.
pub open spec fn parse_i64_spec(s: Seq<char>) -> Option<i64> {
    let negative = s.len() > 0 && s[0] == '-';
    let d = if negative {
        s.subrange(1, s.len() as int)
    } else {
        without_plus(s)
    };
    if !all_digits(d) || d.len() == 0 {
        None
    } else if negative && digits_value(d) <= 0x8000_0000_0000_0000 {
        Some((0 - digits_value(d)) as i64)
    } else if !negative && digits_value(d) <= i64::MAX {
        Some(digits_value(d) as i64)
    } else {
        None
    }
}

/// The signed number that `s` writes.
pub fn parse_i64(s: &str) -> (r: Option<i64>)
    ensures
        r == parse_i64_spec(s@),
{
    let v = chars_of(s);
    let n: usize = v.len();
    let negative = n > 0 && v[0] == '-';
    let from: usize = if n > 0 && (v[0] == '-' || v[0] == '+') {
        1
    } else {
        0
    };
    let d = chars_of(&string_of_range(&v, from, n));
    assert(d@ =~= if negative {
        s@.subrange(1, s@.len() as int)
    } else {
        without_plus(s@)
    });
    if !only_digits(&d) {
        return None;
    }
    match read_digits(&d) {
        Some(x) => if negative {
            if x < 0x8000_0000_0000_0000 {
                Some(0 - (x as i64))
            } else if x == 0x8000_0000_0000_0000 {
                Some(i64::MIN)
            } else {
                None
            }
        } else if x <= 0x7FFF_FFFF_FFFF_FFFF {
            Some(x as i64)
        } else {
            None
        },
        None => None,
    }
}

/// A signed number in decimal.
pub open spec fn decimal_i64_seq(n: int) -> Seq<char> {
    if n < 0 {
        seq!['-'] + decimal_seq((0 - n) as nat)
    } else {
        decimal_seq(n as nat)
    }
}

/// `n` written in decimal.
pub fn decimal_i64(n: i64) -> (s: String)
    ensures
        s@ == decimal_i64_seq(n as int),
{
    if n >= 0 {
        decimal(n as u64)
    } else {
        let magnitude: u64 = if n == i64::MIN {
            0x8000_0000_0000_0000
        } else {
            (0 - n) as u64
        };
        let mut s = String::new();
        s.push('-');
        assert(s@ =~= seq!['-']);
        s.append(decimal(magnitude).as_str());
        s
    }
}

/// Whether no text comes before the one in front of it.
pub open spec fn ascending_texts(s: Seq<Seq<char>>) -> bool {
    forall|i: int, j: int| 0 <= i < j < s.len() ==> !text_lt(#[trigger] s[j], #[trigger] s[i])
}

fn put_text(v: &mut Vec<String>, s: String)
    requires
        ascending_texts(strs(old(v)@)),
    ensures
        ascending_texts(strs(final(v)@)),
        final(v)@.to_multiset() == old(v)@.to_multiset().insert(s),
{
    let n: usize = v.len();
    let mut i: usize = n;
    let ghost before = v@;
    while i > 0 && comes_first(s.as_str(), v[i - 1].as_str())
        invariant
            i <= n,
            n == v@.len(),
            v@ == before,
            forall|k: int| i <= k < n ==> text_lt(s@, (#[trigger] v@[k])@),
        decreases i,
    {
        i = i - 1;
    }
    v.insert(i, s);
    proof {
        assert(v@ =~= before.insert(i as int, s));
        vstd::seq_lib::to_multiset_insert(before, i as int, s);
        let t = strs(v@);
        let b = strs(before);
        assert forall|x: int, y: int| 0 <= x < y < t.len() implies !text_lt(
            #[trigger] t[y],
            #[trigger] t[x],
        ) by {
            if x == i {
                assert(t[y] == b[y - 1] && text_lt(s@, before[y - 1]@));
                text_lt_total(s@, b[y - 1]);
            } else if y == i {
                assert(t[x] == b[x]);
                if text_lt(s@, b[x]) {
                    let p = b[i - 1];
                    assert(!text_lt(s@, p));
                    if x < i - 1 {
                        assert(!text_lt(p, b[x]));
                        text_lt_total(p, b[x]);
                        if p != b[x] {
                            text_lt_transitive(s@, b[x], p);
                        }
                    }
                }
            } else {
                let xx = if x < i { x } else { x - 1 };
                let yy = if y < i { y } else { y - 1 };
                assert(t[x] == b[xx] && t[y] == b[yy]);
            }
        }
    }
}

/// The texts `v`, in ascending order.
pub fn sort_texts(v: &[String]) -> (r: Vec<String>)
    ensures
        ascending_texts(strs(r@)),
        r@.to_multiset() == v@.to_multiset(),
{
    let mut r: Vec<String> = Vec::new();
    let mut i: usize = 0;
    assert(v@.take(0) =~= r@);
    while i < v.len()
        invariant
            i <= v@.len(),
            ascending_texts(strs(r@)),
            r@.to_multiset() == v@.take(i as int).to_multiset(),
        decreases v@.len() - i,
    {
        put_text(&mut r, v[i].clone());
        proof {
            assert(v@.take(i + 1) =~= v@.take(i as int).push(v@[i as int]));
            v@.take(i as int).to_multiset_ensures();
        }
        i = i + 1;
    }
    assert(v@.take(i as int) =~= v@);
    r
}

/// A number in decimal reads back: it is digits, it has no leading zero, and they write
/// the number.
pub proof fn decimals_read_back(n: nat)
    ensures
        decimal_seq(n).len() > 0,
        all_digits(decimal_seq(n)),
        digits_value(decimal_seq(n)) == n,
        n > 0 ==> decimal_seq(n)[0] != '0',
    decreases n,
{
    let s = decimal_seq(n);
    if n >= 10 {
        decimals_read_back(n / 10);
        assert(s.drop_last() =~= decimal_seq(n / 10));
        assert(s.last() as int == 48 + n % 10);
        assert forall|i: int| 0 <= i < s.len() implies is_digit(#[trigger] s[i]) by {
            if i < s.len() - 1 {
                assert(s[i] == decimal_seq(n / 10)[i]);
            }
        }
        assert(s[0] == decimal_seq(n / 10)[0]);
        assert(digits_value(s) == digits_value(s.drop_last()) * 10 + n % 10);
    } else {
        assert(s.drop_last() =~= Seq::<char>::empty());
        assert(s.last() as int == 48 + n);
        assert(digits_value(s.drop_last()) == 0);
        assert(digits_value(s) == digits_value(s.drop_last()) * 10 + n);
    }
}

/// Unsigned numbers are read as they are written, with a plus sign or without; anything
/// but digits is no number.
pub proof fn unsigned_numbers_are_read(n: u64, s: Seq<char>)
    ensures
        parse_u64_spec(decimal_seq(n as nat)) == Some(n),
        parse_u64_spec(seq!['+'] + decimal_seq(n as nat)) == Some(n),
        s.len() == 0 ==> parse_u64_spec(s) is None,
        (exists|i: int| 0 < i < s.len() && !(('0' <= #[trigger] s[i] && s[i] <= '9')))
            ==> parse_u64_spec(s) is None,
{
    decimals_read_back(n as nat);
    let d = decimal_seq(n as nat);
    assert(is_digit(d[0]));
    assert((seq!['+'] + d).subrange(1, d.len() as int + 1) =~= d);
    if exists|i: int| 0 < i < s.len() && !(('0' <= #[trigger] s[i] && s[i] <= '9')) {
        let i = choose|i: int| 0 < i < s.len() && !(('0' <= #[trigger] s[i] && s[i] <= '9'));
        let t = without_plus(s);
        if s[0] == '+' {
            assert(t[i - 1] == s[i]);
        } else {
            assert(t[i] == s[i]);
        }
    }
}

/// Signed numbers are read as they are written.
pub proof fn signed_numbers_are_read(n: i64)
    ensures
        parse_i64_spec(decimal_i64_seq(n as int)) == Some(n),
{
    if n < 0 {
        decimals_read_back((0 - n) as nat);
        let d = decimal_seq((0 - n) as nat);
        assert((seq!['-'] + d).subrange(1, d.len() as int + 1) =~= d);
    } else {
        decimals_read_back(n as nat);
        assert(is_digit(decimal_seq(n as nat)[0]));
    }
}

/// A line is what stands before a newline, without a carriage return before that.
pub proof fn lines_end_at_newlines(line: Seq<char>, rest: Seq<char>)
    requires
        forall|i: int| 0 <= i < line.len() ==> #[trigger] line[i] != '\n',
    ensures
        ({
            let s = line + seq!['\n'] + rest;
            &&& lines_seq(s).len() > 0
            &&& line.len() > 0 && line.last() == '\r' ==> lines_seq(s)[0] == line.drop_last()
            &&& line.len() == 0 || line.last() != '\r' ==> lines_seq(s)[0] == line
        }),
{
    let s = line + seq!['\n'] + rest;
    newline_found(s, 0, line.len() as int);
    assert(s.subrange(0, line.len() as int) =~= line);
}

proof fn newline_found(s: Seq<char>, from: int, at: int)
    requires
        0 <= from <= at < s.len(),
        forall|i: int| from <= i < at ==> #[trigger] s[i] != '\n',
        s[at] == '\n',
    ensures
        char_end(s, '\n', from) == at,
    decreases at - from,
{
    if from < at {
        newline_found(s, from + 1, at);
    }
}

} // verus!
