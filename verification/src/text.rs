//! Character-level string operations shared by the parsers and SQL builders.

use vstd::prelude::*;
use vstd::string::StringSliceAdditionalSpecFns;

verus! {

/// `String::push` appends one character at the end of the string.
pub assume_specification[ String::push ](s: &mut String, c: char)
    ensures
        final(s)@ == old(s)@.push(c),
;

/// The Unicode `White_Space` characters.
pub open spec fn is_white(c: char) -> bool {
    let n = c as u32;
    (9 <= n <= 13) || n == 0x20 || n == 0x85 || n == 0xA0 || n == 0x1680 || (0x2000 <= n <= 0x200A)
        || n == 0x2028 || n == 0x2029 || n == 0x202F || n == 0x205F || n == 0x3000
}

pub fn is_whitespace(c: char) -> (r: bool)
    ensures
        r == is_white(c),
{
    let n: u32 = c as u32;
    (9 <= n && n <= 13) || n == 0x20 || n == 0x85 || n == 0xA0 || n == 0x1680 || (0x2000 <= n && n
        <= 0x200A) || n == 0x2028 || n == 0x2029 || n == 0x202F || n == 0x205F || n == 0x3000
}

/// `s` without its leading white space.
pub open spec fn trim_start_seq(s: Seq<char>) -> Seq<char>
    decreases s.len(),
{
    if s.len() > 0 && is_white(s[0]) {
        trim_start_seq(s.subrange(1, s.len() as int))
    } else {
        s
    }
}

/// `s` without its trailing white space.
pub open spec fn trim_end_seq(s: Seq<char>) -> Seq<char>
    decreases s.len(),
{
    if s.len() > 0 && is_white(s[s.len() - 1]) {
        trim_end_seq(s.subrange(0, s.len() - 1))
    } else {
        s
    }
}

/// `s` without leading and trailing white space.
pub open spec fn trim_seq(s: Seq<char>) -> Seq<char> {
    trim_end_seq(trim_start_seq(s))
}

/// The characters of `s`, in order.
pub fn chars_of(s: &str) -> (v: Vec<char>)
    ensures
        v@ == s@,
{
    let mut v: Vec<char> = Vec::new();
    for c in it: s.chars()
        invariant
            v@ == s@.take(it.index() as int),
            it.seq() == s@,
    {
        v.push(c);
        assert(v@ =~= s@.take(it.index() + 1));
    }
    assert(s@.take(s@.len() as int) =~= s@);
    v
}

/// The string that holds the characters `v[from..to]`.
pub fn string_of_range(v: &[char], from: usize, to: usize) -> (s: String)
    requires
        from <= to <= v@.len(),
    ensures
        s@ == v@.subrange(from as int, to as int),
{
    let mut s = String::new();
    let mut i: usize = from;
    while i < to
        invariant
            from <= i <= to <= v@.len(),
            s@ == v@.subrange(from as int, i as int),
        decreases to - i,
    {
        s.push(v[i]);
        i = i + 1;
        assert(s@ =~= v@.subrange(from as int, i as int));
    }
    s
}

/// Whether two strings hold the same characters.
pub fn str_eq(a: &str, b: &str) -> (r: bool)
    ensures
        r == (a@ == b@),
{
    a.to_owned() == b.to_owned()
}


proof fn trim_start_step(s: Seq<char>, i: int)
    requires
        0 <= i < s.len(),
    ensures
        is_white(s[i]) ==> trim_start_seq(s.subrange(i, s.len() as int)) == trim_start_seq(
            s.subrange(i + 1, s.len() as int),
        ),
        !is_white(s[i]) ==> trim_start_seq(s.subrange(i, s.len() as int)) == s.subrange(
            i,
            s.len() as int,
        ),
{
    let t = s.subrange(i, s.len() as int);
    assert(t[0] == s[i]);
    assert(t.subrange(1, t.len() as int) =~= s.subrange(i + 1, s.len() as int));
}

proof fn trim_end_step(s: Seq<char>, from: int, j: int)
    requires
        0 <= from < j <= s.len(),
    ensures
        is_white(s[j - 1]) ==> trim_end_seq(s.subrange(from, j)) == trim_end_seq(
            s.subrange(from, j - 1),
        ),
        !is_white(s[j - 1]) ==> trim_end_seq(s.subrange(from, j)) == s.subrange(from, j),
{
    let t = s.subrange(from, j);
    assert(t[t.len() - 1] == s[j - 1]);
    assert(t.subrange(0, t.len() - 1) =~= s.subrange(from, j - 1));
}

/// The first index in `v[from..to]` that holds no white space, or `to`.
pub fn skip_white(v: &[char], from: usize, to: usize) -> (i: usize)
    requires
        from <= to <= v@.len(),
    ensures
        from <= i <= to,
        forall|k: int| from <= k < i ==> is_white(v@[k]),
        i < to ==> !is_white(v@[i as int]),
        v@.subrange(i as int, to as int) == trim_start_seq(v@.subrange(from as int, to as int)),
{
    let ghost w = v@.subrange(0, to as int);
    let mut i: usize = from;
    proof {
        assert(w.subrange(from as int, w.len() as int) =~= v@.subrange(from as int, to as int));
    }
    while i < to && is_whitespace(v[i])
        invariant
            from <= i <= to <= v@.len(),
            w == v@.subrange(0, to as int),
            forall|k: int| from <= k < i ==> is_white(v@[k]),
            trim_start_seq(w.subrange(i as int, to as int)) == trim_start_seq(
                v@.subrange(from as int, to as int),
            ),
        decreases to - i,
    {
        proof {
            trim_start_step(w, i as int);
        }
        i = i + 1;
    }
    proof {
        if i < to {
            trim_start_step(w, i as int);
        }
        assert(w.subrange(i as int, to as int) =~= v@.subrange(i as int, to as int));
    }
    i
}

/// The end of `v[from..to]` once its trailing white space is cut off.
pub fn cut_white(v: &[char], from: usize, to: usize) -> (j: usize)
    requires
        from <= to <= v@.len(),
    ensures
        from <= j <= to,
        v@.subrange(from as int, j as int) == trim_end_seq(v@.subrange(from as int, to as int)),
{
    let mut j: usize = to;
    while j > from && is_whitespace(v[j - 1])
        invariant
            from <= j <= to <= v@.len(),
            trim_end_seq(v@.subrange(from as int, j as int)) == trim_end_seq(
                v@.subrange(from as int, to as int),
            ),
        decreases j - from,
    {
        proof {
            trim_end_step(v@, from as int, j as int);
        }
        j = j - 1;
    }
    proof {
        if j > from {
            trim_end_step(v@, from as int, j as int);
        }
    }
    j
}

/// `s` without leading and trailing white space.
pub fn trim(s: &str) -> (r: String)
    ensures
        r@ == trim_seq(s@),
{
    let v = chars_of(s);
    let n: usize = v.len();
    let i = skip_white(&v, 0, n);
    let j = cut_white(&v, i, n);
    assert(v@.subrange(0, n as int) =~= v@);
    string_of_range(&v, i, j)
}

/// Whether `s` begins with `p`.
pub open spec fn starts_with_seq(s: Seq<char>, p: Seq<char>) -> bool {
    p.len() <= s.len() && s.subrange(0, p.len() as int) == p
}

/// Whether `p` stands in `s` at index `i`.
pub open spec fn occurs_at(s: Seq<char>, p: Seq<char>, i: int) -> bool {
    0 <= i && i + p.len() <= s.len() && s.subrange(i, i + p.len()) == p
}

/// Whether `p` stands anywhere in `s`.
pub open spec fn contains_seq(s: Seq<char>, p: Seq<char>) -> bool {
    exists|i: int| occurs_at(s, p, i)
}

/// Whether `p` stands in `v` at index `i`.
pub fn at(v: &[char], p: &[char], i: usize) -> (r: bool)
    requires
        i <= v@.len(),
    ensures
        r == occurs_at(v@, p@, i as int),
{
    let n: usize = v.len();
    if p.len() > n - i {
        return false;
    }
    let mut k: usize = 0;
    while k < p.len()
        invariant
            k <= p@.len(),
            i + p@.len() <= n,
            n == v@.len(),
            forall|q: int| 0 <= q < k ==> v@[i + q] == p@[q],
        decreases p@.len() - k,
    {
        if v[i + k] != p[k] {
            assert(v@.subrange(i as int, i + p@.len())[k as int] != p@[k as int]);
            return false;
        }
        k = k + 1;
    }
    assert(v@.subrange(i as int, i + p@.len()) =~= p@);
    true
}

/// The first index of `v`, from `from` on, at which `p` stands.
pub fn find_from(v: &[char], p: &[char], from: usize) -> (r: Option<usize>)
    requires
        from <= v@.len(),
    ensures
        match r {
            Some(i) => from <= i && occurs_at(v@, p@, i as int) && forall|k: int|
                from <= k < i ==> !occurs_at(v@, p@, k),
            None => forall|k: int| from <= k ==> !occurs_at(v@, p@, k),
        },
{
    let mut i: usize = from;
    let n: usize = v.len();
    while i < n
        invariant
            from <= i <= n,
            n == v@.len(),
            forall|k: int| from <= k < i ==> !occurs_at(v@, p@, k),
        decreases n - i,
    {
        if at(v, p, i) {
            return Some(i);
        }
        i = i + 1;
    }
    if at(v, p, n) {
        return Some(n);
    }
    None
}

/// Whether `needle` stands anywhere in `hay`.
pub fn contains(hay: &str, needle: &str) -> (r: bool)
    ensures
        r == contains_seq(hay@, needle@),
{
    let v = chars_of(hay);
    let p = chars_of(needle);
    match find_from(&v, &p, 0) {
        Some(i) => {
            assert(occurs_at(hay@, needle@, i as int));
            true
        },
        None => {
            assert forall|k: int| !occurs_at(hay@, needle@, k) by {
                if k < 0 {
                }
            }
            false
        },
    }
}

/// Whether `s` begins with `p`.
pub fn starts_with(s: &str, p: &str) -> (r: bool)
    ensures
        r == starts_with_seq(s@, p@),
{
    let v = chars_of(s);
    let q = chars_of(p);
    at(&v, &q, 0)
}

/// `s` with every occurrence of `from` replaced by `to`: matches are taken from
/// left to right and do not overlap. `from` is not empty.
pub open spec fn replace_seq(s: Seq<char>, from: Seq<char>, to: Seq<char>) -> Seq<char>
    decreases s.len(),
{
    if s.len() == 0 || from.len() == 0 {
        s
    } else if occurs_at(s, from, 0) {
        to + replace_seq(s.subrange(from.len() as int, s.len() as int), from, to)
    } else {
        seq![s[0]] + replace_seq(s.subrange(1, s.len() as int), from, to)
    }
}

/// Replace every occurrence of `from` in `s` by `to`.
pub fn replace(s: &str, from: &str, to: &str) -> (r: String)
    requires
        from@.len() > 0,
    ensures
        r@ == replace_seq(s@, from@, to@),
{
    let v = chars_of(s);
    let p = chars_of(from);
    let n: usize = v.len();
    let mut out = String::new();
    let mut i: usize = 0;
    assert(v@.subrange(0, n as int) =~= v@);
    while i < n
        invariant
            i <= n,
            n == v@.len(),
            v@ == s@,
            p@ == from@,
            from@.len() > 0,
            out@ + replace_seq(v@.subrange(i as int, n as int), from@, to@) == replace_seq(
                s@,
                from@,
                to@,
            ),
        decreases n - i,
    {
        let ghost rest = v@.subrange(i as int, n as int);
        let ghost before = out@;
        let hit = at(&v, &p, i);
        proof {
            if hit {
                assert(rest.subrange(0, from@.len() as int) =~= v@.subrange(
                    i as int,
                    i + from@.len(),
                ));
            } else if occurs_at(rest, from@, 0) {
                assert(v@.subrange(i as int, i + from@.len()) =~= rest.subrange(
                    0,
                    from@.len() as int,
                ));
            }
        }
        if hit {
            out.append(to);
            i = i + p.len();
            proof {
                assert(rest.subrange(from@.len() as int, rest.len() as int) =~= v@.subrange(
                    i as int,
                    n as int,
                ));
                let tail = replace_seq(v@.subrange(i as int, n as int), from@, to@);
                assert(before + (to@ + tail) =~= before + to@ + tail);
            }
        } else {
            out.push(v[i]);
            i = i + 1;
            proof {
                assert(rest.subrange(1, rest.len() as int) =~= v@.subrange(i as int, n as int));
                let tail = replace_seq(v@.subrange(i as int, n as int), from@, to@);
                assert(before + (seq![rest[0]] + tail) =~= before.push(rest[0]) + tail);
            }
        }
    }
    proof {
        assert(v@.subrange(n as int, n as int) =~= Seq::<char>::empty());
        assert(out@ + Seq::<char>::empty() =~= out@);
    }
    out
}

/// ASCII upper-case letters become lower-case; every other character stays.
pub open spec fn lower_char(c: char) -> char {
    if 'A' <= c && c <= 'Z' {
        ((c as u8) + 32) as char
    } else {
        c
    }
}

pub open spec fn ascii_lower_seq(s: Seq<char>) -> Seq<char> {
    s.map_values(|c: char| lower_char(c))
}

pub fn ascii_lower(c: char) -> (r: char)
    ensures
        r == lower_char(c),
{
    if 'A' <= c && c <= 'Z' {
        ((c as u8) + 32u8) as char
    } else {
        c
    }
}

/// `s` with its ASCII letters in lower case.
pub fn ascii_lowercase(s: &str) -> (r: String)
    ensures
        r@ == ascii_lower_seq(s@),
{
    let v = chars_of(s);
    let mut out = String::new();
    let mut i: usize = 0;
    while i < v.len()
        invariant
            i <= v@.len(),
            v@ == s@,
            out@ == ascii_lower_seq(s@.take(i as int)),
        decreases v@.len() - i,
    {
        out.push(ascii_lower(v[i]));
        i = i + 1;
        assert(out@ =~= ascii_lower_seq(s@.take(i as int)));
    }
    assert(s@.take(i as int) =~= s@);
    out
}

/// The decimal digits of `n`.
pub open spec fn decimal_seq(n: nat) -> Seq<char>
    decreases n,
{
    if n < 10 {
        seq![((48 + n) as u8) as char]
    } else {
        decimal_seq(n / 10).push(((48 + n % 10) as u8) as char)
    }
}

/// `n` written in decimal.
pub fn decimal(n: u64) -> (s: String)
    ensures
        s@ == decimal_seq(n as nat),
    decreases n,
{
    if n < 10 {
        let mut s = String::new();
        s.push((48u8 + n as u8) as char);
        assert(s@ =~= decimal_seq(n as nat));
        s
    } else {
        let mut s = decimal(n / 10);
        s.push((48u8 + (n % 10) as u8) as char);
        s
    }
}

/// The length of a text in bytes.
pub open spec fn byte_len(s: Seq<char>) -> nat {
    vstd::utf8::encode_utf8(s).len()
}

/// Where the i-th character of `s` begins, in bytes.
pub open spec fn byte_offset(s: Seq<char>, i: int) -> nat {
    vstd::utf8::encode_utf8(s.take(i)).len()
}

/// Texts are encoded piece by piece.
pub proof fn encoding_concatenates(a: Seq<char>, b: Seq<char>)
    ensures
        vstd::utf8::encode_utf8(a + b) == vstd::utf8::encode_utf8(a) + vstd::utf8::encode_utf8(b),
    decreases a.len(),
{
    if a.len() == 0 {
        assert(a + b =~= b);
        assert(vstd::utf8::encode_utf8(a) =~= Seq::empty());
    } else {
        encoding_concatenates(a.drop_first(), b);
        assert((a + b).drop_first() =~= a.drop_first() + b);
        assert((a + b)[0] == a[0]);
    }
    assert(vstd::utf8::encode_utf8(a + b) =~= vstd::utf8::encode_utf8(a)
        + vstd::utf8::encode_utf8(b));
}

/// A character begins where the one before it ends, and none beyond the text.
proof fn next_offset(s: Seq<char>, i: int)
    requires
        0 <= i < s.len(),
    ensures
        byte_offset(s, i + 1) == byte_offset(s, i) + vstd::utf8::encode_scalar(s[i] as u32).len(),
        byte_offset(s, i + 1) <= vstd::utf8::encode_utf8(s).len(),
{
    let one = seq![s[i]];
    assert(s.take(i + 1) =~= s.take(i) + one);
    encoding_concatenates(s.take(i), one);
    assert(one.drop_first() =~= Seq::empty());
    assert(vstd::utf8::encode_utf8(one.drop_first()) =~= Seq::empty());
    assert(vstd::utf8::encode_utf8(one) =~= vstd::utf8::encode_scalar(s[i] as u32));
    assert(s =~= s.take(i + 1) + s.subrange(i + 1, s.len() as int));
    encoding_concatenates(s.take(i + 1), s.subrange(i + 1, s.len() as int));
}

/// How many bytes a character takes.
fn width_of(c: char) -> (r: usize)
    ensures
        r == vstd::utf8::encode_scalar(c as u32).len(),
        r <= 4,
{
    let n: u32 = c as u32;
    if n <= 0x7F {
        1
    } else if n <= 0x7FF {
        2
    } else if n <= 0xFFFF {
        3
    } else {
        4
    }
}

/// Where each character of `s` begins, in bytes, and where `s` ends.
pub fn byte_offsets(s: &str) -> (r: Vec<usize>)
    ensures
        r@.len() == s@.len() + 1,
        forall|i: int| 0 <= i < r@.len() ==> #[trigger] r@[i] == byte_offset(s@, i),
{
    let v = chars_of(s);
    let total: usize = s.as_bytes().len();
    let mut r: Vec<usize> = Vec::new();
    let mut at: usize = 0;
    r.push(at);
    let mut i: usize = 0;
    assert(s@.take(0) =~= Seq::empty());
    while i < v.len()
        invariant
            v@ == s@,
            i <= v@.len(),
            total == vstd::utf8::encode_utf8(s@).len(),
            at == byte_offset(s@, i as int),
            r@.len() == i + 1,
            forall|k: int| 0 <= k <= i ==> #[trigger] r@[k] == byte_offset(s@, k),
        decreases v@.len() - i,
    {
        proof {
            next_offset(s@, i as int);
        }
        at = at + width_of(v[i]);
        i = i + 1;
        r.push(at);
    }
    r
}

proof fn start_trimmed(a: Seq<char>, b: Seq<char>)
    requires
        forall|i: int| 0 <= i < a.len() ==> is_white(#[trigger] a[i]),
        b.len() > 0 ==> !is_white(b[0]),
    ensures
        trim_start_seq(a + b) == b,
    decreases a.len(),
{
    let s = a + b;
    if a.len() == 0 {
        assert(s =~= b);
    } else {
        assert(s[0] == a[0]);
        assert(s.subrange(1, s.len() as int) =~= a.skip(1) + b);
        start_trimmed(a.skip(1), b);
    }
}

proof fn end_trimmed(a: Seq<char>, b: Seq<char>)
    requires
        forall|i: int| 0 <= i < b.len() ==> is_white(#[trigger] b[i]),
        a.len() > 0 ==> !is_white(a.last()),
    ensures
        trim_end_seq(a + b) == a,
    decreases b.len(),
{
    let s = a + b;
    if b.len() == 0 {
        assert(s =~= a);
        if a.len() > 0 {
            assert(s[s.len() - 1] == a.last());
        }
    } else {
        assert(s[s.len() - 1] == b[b.len() - 1]);
        assert(s.subrange(0, s.len() - 1) =~= a + b.drop_last());
        end_trimmed(a, b.drop_last());
    }
}

/// White space around a text is taken off, and nothing of the text.
pub proof fn white_space_is_taken_off(before: Seq<char>, text: Seq<char>, after: Seq<char>)
    requires
        forall|i: int| 0 <= i < before.len() ==> is_white(#[trigger] before[i]),
        forall|i: int| 0 <= i < after.len() ==> is_white(#[trigger] after[i]),
        text.len() > 0 ==> !is_white(text[0]) && !is_white(text.last()),
    ensures
        trim_seq(before + text + after) == text,
{
    assert(before + text + after =~= before + (text + after));
    if text.len() > 0 {
        assert((text + after)[0] == text[0]);
        start_trimmed(before, text + after);
        end_trimmed(text, after);
    } else {
        let all = before + after;
        assert(before + text + after =~= all + Seq::<char>::empty());
        assert forall|i: int| 0 <= i < all.len() implies is_white(#[trigger] all[i]) by {
            if i < before.len() {
                assert(all[i] == before[i]);
            } else {
                assert(all[i] == after[i - before.len()]);
            }
        }
        start_trimmed(all, Seq::empty());
        assert(trim_end_seq(Seq::<char>::empty()) =~= Seq::<char>::empty());
        assert(text =~= Seq::<char>::empty());
    }
}

/// Blanks, tabs and line ends are white space; letters, digits and signs are not.
pub proof fn blanks_are_white_space(c: char)
    ensures
        c == ' ' || c == '\t' || c == '\n' || c == '\r' ==> is_white(c),
        '!' <= c && c <= '~' ==> !is_white(c),
{
}

/// Upper-case letters of ASCII are lowered, and nothing else changes.
pub proof fn letters_are_lowered(s: Seq<char>, i: int)
    requires
        0 <= i < s.len(),
    ensures
        ascii_lower_seq(s).len() == s.len(),
        !('A' <= s[i] && s[i] <= 'Z') ==> ascii_lower_seq(s)[i] == s[i],
        'A' <= s[i] && s[i] <= 'Z' ==> ascii_lower_seq(s)[i] as int == s[i] as int + 32,
{
}

} // verus!
