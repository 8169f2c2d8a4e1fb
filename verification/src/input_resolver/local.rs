//! Pinning objects of the local file system.

use vstd::prelude::*;
use crate::digest::{blake3_digest, blake3_hash};
use crate::estimator::delta::is_log_name;
use crate::estimator::explain::larger;
use crate::hexadecimal::{encode, hex_text};
use crate::input_resolver::sources::{glob_text, holds_wildcard, is_glob, wildcard_is_glob};
use crate::input_resolver::{InputResolveError, ResolveErrorView};
use crate::scan::{
    comes_first, ends_with, ends_with_seq, join, parse_u64, parse_u64_spec, strip_prefix,
    strip_prefix_seq, text_lt, text_lt_total, text_lt_transitive,
};
use crate::text::{at, chars_of, str_eq, string_of_range};
use crate::types::{ObjectVersion, PinnedObject};

verus! {

/// Pins files of the local file system by their content.
#[derive(Debug, Clone, Copy, PartialEq, Eq, Structural)]
pub struct LocalFsProbe;

impl LocalFsProbe {
    /// The path of a `file://` URI or a bare path.
    pub fn path_of(uri: &str) -> (r: String)
        ensures
            r@ == strip_prefix_seq(uri@, "file://"@),
    {
        strip_prefix(uri, "file://")
    }

    /// The pin of a file with these bytes: the digest of its content, in hexadecimal.
    pub fn pin_file(uri: &str, bytes: &[u8]) -> (r: PinnedObject)
        ensures
            r.uri@ == uri@,
            r.provider@ == "local-fake"@,
            r.version is ContentAddressed,
            r.version->sha256@ == hex_text(blake3_digest(bytes@)),
    {
        let digest = blake3_hash(bytes);
        PinnedObject {
            uri: uri.to_owned(),
            provider: "local-fake".to_owned(),
            version: ObjectVersion::ContentAddressed { sha256: encode(&digest) },
        }
    }
}

/// The last index of `s` that holds `c`, if any does.
pub open spec fn last_index(s: Seq<char>, c: char) -> Option<int>
    decreases s.len(),
{
    if s.len() == 0 {
        None
    } else if s.last() == c {
        Some(s.len() - 1)
    } else {
        last_index(s.drop_last(), c)
    }
}

/// The directory part of a path; the current directory for a bare name.
pub open spec fn dir_part(raw: Seq<char>) -> Seq<char> {
    match last_index(raw, '/') {
        Some(i) => raw.subrange(0, i),
        None => "."@,
    }
}

/// The last part of a path.
pub open spec fn name_part(raw: Seq<char>) -> Seq<char> {
    match last_index(raw, '/') {
        Some(i) => raw.subrange(i + 1, raw.len() as int),
        None => raw,
    }
}

/// The part of a pattern after a leading star.
pub open spec fn fixed_part(pattern: Seq<char>) -> Seq<char> {
    strip_prefix_seq(pattern, "*"@)
}

/// Whether a glob is simple enough to be expanded completely: in one directory, all
/// files, those with a fixed ending, or one name.
pub open spec fn simple_glob(raw: Seq<char>) -> bool {
    !glob_text(dir_part(raw)) && !glob_text(fixed_part(name_part(raw)))
}

/// Whether a pattern matches a file name.
pub open spec fn pattern_matches(pattern: Seq<char>, name: Seq<char>) -> bool {
    if strip_prefix_seq(pattern, "*"@) != pattern {
        ends_with_seq(name, fixed_part(pattern))
    } else {
        name == pattern
    }
}

/// A simple glob: a directory and a pattern for its files.
#[derive(Debug, Clone, PartialEq, Eq)]
pub struct LocalGlob {
    pub dir: String,
    pub pattern: String,
}

fn find_last(v: &[char], c: char) -> (r: Option<usize>)
    ensures
        r is Some <==> last_index(v@, c) is Some,
        r is Some ==> r->0 == last_index(v@, c)->0 && r->0 < v@.len(),
{
    let mut i: usize = v.len();
    assert(v@.take(i as int) =~= v@);
    while i > 0
        invariant
            i <= v@.len(),
            last_index(v@.take(i as int), c) == last_index(v@, c),
        decreases i,
    {
        proof {
            let here = v@.take(i as int);
            assert(here.last() == v@[i - 1]);
            assert(here.drop_last() =~= v@.take(i - 1));
        }
        if v[i - 1] == c {
            return Some(i - 1);
        }
        i = i - 1;
    }
    None
}

impl LocalGlob {
    /// The directory and the pattern of a glob. A glob that cannot be expanded
    /// completely is refused, so that no partial set is ever pinned.
    pub fn parse(glob: &str) -> (r: Result<LocalGlob, InputResolveError>)
        ensures
            ({
                let raw = strip_prefix_seq(glob@, "file://"@);
                &&& r is Ok <==> simple_glob(raw)
                &&& r is Ok ==> r->Ok_0.dir@ == dir_part(raw) && r->Ok_0.pattern@ == name_part(raw)
                &&& r is Err ==> r->Err_0@ == ResolveErrorView::NotPinnable(
                    "unsupported glob pattern: "@ + glob@,
                )
            }),
    {
        let raw = chars_of(&strip_prefix(glob, "file://"));
        let n: usize = raw.len();
        let (dir, pattern) = match find_last(&raw, '/') {
            Some(i) => (string_of_range(&raw, 0, i), string_of_range(&raw, i + 1, n)),
            None => {
                assert(raw@.subrange(0, n as int) =~= raw@);
                (".".to_owned(), string_of_range(&raw, 0, n))
            },
        };
        let fixed = strip_prefix(pattern.as_str(), "*");
        if is_glob(dir.as_str()) || is_glob(fixed.as_str()) {
            return Err(
                InputResolveError::NotPinnable(join("unsupported glob pattern: ", glob)),
            );
        }
        Ok(LocalGlob { dir, pattern })
    }

    /// Whether a file of the directory belongs to the glob.
    pub fn matches(&self, name: &str) -> (r: bool)
        ensures
            r == pattern_matches(self.pattern@, name@),
    {
        let fixed = strip_prefix(self.pattern.as_str(), "*");
        if fixed == self.pattern {
            str_eq(name, self.pattern.as_str())
        } else {
            ends_with(name, fixed.as_str())
        }
    }

    /// The URI of a file of the directory.
    pub fn uri_of(&self, name: &str) -> (r: String)
        ensures
            r@ == self.dir@ + "/"@ + name@,
    {
        join(join(self.dir.as_str(), "/").as_str(), name)
    }
}

/// Whether objects ascend by URI.
pub open spec fn ascending_uris(s: Seq<PinnedObject>) -> bool {
    forall|i: int, j: int|
        0 <= i < j < s.len() ==> !text_lt((#[trigger] s[j]).uri@, (#[trigger] s[i]).uri@)
}

/// The objects in ascending order of their URIs, so that equal contents are listed
/// equally.
pub fn sort_objects(objects: Vec<PinnedObject>) -> (r: Vec<PinnedObject>)
    ensures
        ascending_uris(r@),
        r@.to_multiset() == objects@.to_multiset(),
{
    let ghost all = objects@;
    let mut rest = objects;
    let mut r: Vec<PinnedObject> = Vec::new();
    proof {
        assert(r@ =~= Seq::empty());
        r@.to_multiset_ensures();
        assert(r@.to_multiset().add(rest@.to_multiset()) =~= all.to_multiset());
    }
    while rest.len() > 0
        invariant
            ascending_uris(r@),
            r@.to_multiset().add(rest@.to_multiset()) == all.to_multiset(),
        decreases rest@.len(),
    {
        let ghost before = rest@;
        if let Some(x) = rest.pop() {
            let ghost sofar = r@;
            proof {
                assert(before =~= rest@.push(x));
                rest@.to_multiset_ensures();
            }
            put_object(&mut r, x);
            assert(r@.to_multiset().add(rest@.to_multiset()) =~= sofar.to_multiset().add(
                before.to_multiset(),
            ));
        }
    }
    proof {
        assert(rest@ =~= Seq::empty());
        rest@.to_multiset_ensures();
        assert(r@.to_multiset() =~= all.to_multiset());
    }
    r
}

fn put_object(v: &mut Vec<PinnedObject>, x: PinnedObject)
    requires
        ascending_uris(old(v)@),
    ensures
        ascending_uris(final(v)@),
        final(v)@.to_multiset() == old(v)@.to_multiset().insert(x),
{
    let n: usize = v.len();
    let mut i: usize = n;
    let ghost before = v@;
    while i > 0 && comes_first(x.uri.as_str(), v[i - 1].uri.as_str())
        invariant
            i <= n,
            n == v@.len(),
            v@ == before,
            forall|k: int| i <= k < n ==> text_lt(x.uri@, (#[trigger] v@[k]).uri@),
        decreases i,
    {
        i = i - 1;
    }
    v.insert(i, x);
    proof {
        let b = before;
        assert(v@ =~= before.insert(i as int, x));
        vstd::seq_lib::to_multiset_insert(before, i as int, x);
        assert forall|p: int, q: int| 0 <= p < q < v@.len() implies !text_lt(
            (#[trigger] v@[q]).uri@,
            (#[trigger] v@[p]).uri@,
        ) by {
            if p == i {
                assert(v@[q] == b[q - 1]);
                text_lt_total(x.uri@, b[q - 1].uri@);
            } else if q == i {
                assert(v@[p] == b[p]);
                if text_lt(x.uri@, b[p].uri@) {
                    let last = b[i - 1].uri@;
                    assert(!text_lt(x.uri@, last));
                    if p < i - 1 {
                        assert(!text_lt(last, b[p].uri@));
                        text_lt_total(last, b[p].uri@);
                        if last != b[p].uri@ {
                            text_lt_transitive(x.uri@, b[p].uri@, last);
                        }
                    }
                }
            } else {
                let pp = if p < i { p } else { p - 1 };
                let qq = if q < i { q } else { q - 1 };
                assert(v@[p] == b[pp] && v@[q] == b[qq]);
            }
        }
    }
}

/// The text after its leading zeros.
pub open spec fn without_zeros(s: Seq<char>) -> Seq<char>
    decreases s.len(),
{
    if s.len() > 0 && s[0] == '0' {
        without_zeros(s.subrange(1, s.len() as int))
    } else {
        s
    }
}

/// The version that a commit file's name writes: its number, with or without leading
/// zeros.
pub open spec fn commit_version(name: Seq<char>) -> Option<u64> {
    if !is_log_name(name) {
        None
    } else {
        let digits = without_zeros(name.subrange(0, name.len() - 5));
        if digits.len() == 0 {
            Some(0)
        } else {
            parse_u64_spec(digits)
        }
    }
}

/// The highest version among commit files.
pub open spec fn highest_version(names: Seq<String>) -> Option<u64>
    decreases names.len(),
{
    if names.len() == 0 {
        None
    } else {
        larger(highest_version(names.drop_last()), commit_version(names.last()@))
    }
}

fn version_of(name: &str) -> (r: Option<u64>)
    ensures
        r == commit_version(name@),
{
    let v = chars_of(name);
    let suffix = chars_of(".json");
    proof {
        reveal_strlit(".json");
    }
    let n: usize = v.len();
    if n <= 5 || !at(&v, &suffix, n - 5) {
        return None;
    }
    let end: usize = n - 5;
    let ghost stem = v@.subrange(0, end as int);
    let mut i: usize = 0;
    assert(v@.subrange(0, end as int) =~= stem);
    while i < end && v[i] == '0'
        invariant
            i <= end,
            end <= v@.len(),
            stem == v@.subrange(0, end as int),
            without_zeros(v@.subrange(i as int, end as int)) == without_zeros(stem),
        decreases end - i,
    {
        let ghost here = v@.subrange(i as int, end as int);
        i = i + 1;
        assert(here.subrange(1, here.len() as int) =~= v@.subrange(i as int, end as int));
    }
    assert(without_zeros(stem) == v@.subrange(i as int, end as int));
    if i == end {
        Some(0)
    } else {
        parse_u64(string_of_range(&v, i, end).as_str())
    }
}

/// The current version of a Delta table, from the names in its log directory: the
/// highest commit, if there is any.
pub fn delta_latest_version(names: &[String]) -> (r: Option<u64>)
    ensures
        r == highest_version(names@),
{
    let mut best: Option<u64> = None;
    let mut i: usize = 0;
    while i < names.len()
        invariant
            i <= names@.len(),
            best == highest_version(names@.take(i as int)),
        decreases names@.len() - i,
    {
        proof {
            let next = names@.take(i + 1);
            assert(next.drop_last() =~= names@.take(i as int));
            assert(next.last() == names@[i as int]);
        }
        let here = version_of(names[i].as_str());
        best = match best {
            Some(b) => match here {
                Some(h) => Some(if b >= h {
                    b
                } else {
                    h
                }),
                None => Some(b),
            },
            None => here,
        };
        i = i + 1;
    }
    assert(names@.take(i as int) =~= names@);
    best
}

/// The pinned version is the highest: no commit of the log has a higher one.
pub proof fn highest_version_bounds_all(names: Seq<String>, i: int)
    requires
        0 <= i < names.len(),
        commit_version(names[i]@) is Some,
    ensures
        highest_version(names) is Some,
        commit_version(names[i]@)->0 <= highest_version(names)->0,
    decreases names.len(),
{
    if i < names.len() - 1 {
        assert(names.drop_last()[i] == names[i]);
        highest_version_bounds_all(names.drop_last(), i);
    }
}

proof fn slash_found(s: Seq<char>, c: char, at: int)
    requires
        -1 <= at < s.len(),
        at >= 0 ==> s[at] == c,
        forall|i: int| at < i < s.len() ==> #[trigger] s[i] != c,
    ensures
        last_index(s, c) == (if at >= 0 {
            Some(at)
        } else {
            None
        }),
    decreases s.len(),
{
    if s.len() > 0 && at < s.len() - 1 {
        assert(s[s.len() - 1] != c);
        slash_found(s.drop_last(), c, at);
    }
}

/// A path is split at its last slash; one without a slash is a name in the current
/// directory.
pub proof fn paths_are_split_at_the_last_slash(dir: Seq<char>, name: Seq<char>)
    requires
        forall|i: int| 0 <= i < name.len() ==> #[trigger] name[i] != '/',
    ensures
        dir_part(dir + seq!['/'] + name) == dir,
        name_part(dir + seq!['/'] + name) == name,
        dir_part(name) == "."@,
        name_part(name) == name,
{
    let s = dir + seq!['/'] + name;
    slash_found(s, '/', dir.len() as int);
    assert(s.subrange(0, dir.len() as int) =~= dir);
    assert(s.subrange(dir.len() as int + 1, s.len() as int) =~= name);
    slash_found(name, '/', -1);
}

/// A star at the front of a pattern stands for any beginning; without it the name is the
/// pattern.
pub proof fn stars_stand_for_any_beginning(tail: Seq<char>, front: Seq<char>, name: Seq<char>)
    requires
        tail.len() > 0 ==> tail[0] != '*',
    ensures
        pattern_matches(seq!['*'] + tail, front + tail),
        tail.len() > 0 ==> (pattern_matches(tail, name) <==> name == tail),
        pattern_matches(seq!['*'] + tail, name) ==> name.len() >= tail.len() && name.subrange(
            name.len() - tail.len(),
            name.len() as int,
        ) == tail,
{
    reveal_strlit("*");
    let p = seq!['*'] + tail;
    assert(p.subrange(0, 1) =~= "*"@);
    assert(p.subrange(1, p.len() as int) =~= tail);
    assert(p.len() != tail.len());
    let n = front + tail;
    assert(n.subrange(front.len() as int, (front.len() + tail.len()) as int) =~= tail);
    if tail.len() > 0 {
        assert(!crate::text::occurs_at(tail, "*"@, 0)) by {
            if crate::text::occurs_at(tail, "*"@, 0) {
                assert(tail.subrange(0, 1)[0] == tail[0]);
            }
        }
    }
}

/// A commit is numbered by its name: leading zeros, the number, and `.json`.
pub proof fn commits_are_numbered_by_their_name(zeros: Seq<char>, n: u64)
    requires
        forall|i: int| 0 <= i < zeros.len() ==> #[trigger] zeros[i] == '0',
        n > 0 || zeros.len() > 0,
    ensures
        n > 0 ==> commit_version(zeros + crate::text::decimal_seq(n as nat) + ".json"@) == Some(n),
        n == 0 ==> commit_version(zeros + ".json"@) == Some(0u64),
{
    reveal_strlit(".json");
    crate::scan::decimals_read_back(n as nat);
    crate::scan::unsigned_numbers_are_read(n, Seq::empty());
    let d = crate::text::decimal_seq(n as nat);
    let digits = if n > 0 {
        d
    } else {
        Seq::empty()
    };
    let name = zeros + digits + ".json"@;
    if n == 0 {
        assert(name =~= zeros + ".json"@);
    }
    assert(name.subrange(name.len() - 5, name.len() as int) =~= ".json"@);
    assert(name.subrange(0, name.len() - 5) =~= zeros + digits);
    zeros_dropped(zeros, digits);
}

proof fn zeros_dropped(zeros: Seq<char>, rest: Seq<char>)
    requires
        forall|i: int| 0 <= i < zeros.len() ==> #[trigger] zeros[i] == '0',
        rest.len() > 0 ==> rest[0] != '0',
    ensures
        without_zeros(zeros + rest) == rest,
    decreases zeros.len(),
{
    let s = zeros + rest;
    if zeros.len() == 0 {
        assert(s =~= rest);
    } else {
        assert(s[0] == zeros[0]);
        assert(s.subrange(1, s.len() as int) =~= zeros.skip(1) + rest);
        zeros_dropped(zeros.skip(1), rest);
    }
}

/// The version of a table is that of one of its commits, and there is none without a
/// commit.
pub proof fn the_version_is_a_commits(names: Seq<String>)
    ensures
        highest_version(names) is Some ==> exists|i: int|
            0 <= i < names.len() && commit_version((#[trigger] names[i])@) == highest_version(
                names,
            ),
        highest_version(names) is None ==> forall|i: int|
            0 <= i < names.len() ==> commit_version((#[trigger] names[i])@) is None,
    decreases names.len(),
{
    if names.len() > 0 {
        let rest = names.drop_last();
        the_version_is_a_commits(rest);
        assert(names[names.len() - 1] == names.last());
        if highest_version(rest) is Some {
            let i = choose|i: int|
                0 <= i < rest.len() && commit_version((#[trigger] rest[i])@) == highest_version(
                    rest,
                );
            assert(names[i] == rest[i]);
        }
        if highest_version(names) is None {
            assert forall|i: int| 0 <= i < names.len() implies commit_version(
                (#[trigger] names[i])@,
            ) is None by {
                if i < rest.len() {
                    assert(rest[i] == names[i]);
                }
            }
        }
    }
}

/// A glob can be expanded where no wildcard stands in its directory, and none in its name
/// but for a star in front.
pub proof fn globs_are_expanded_in_one_directory(dir: Seq<char>, name: Seq<char>)
    requires
        forall|i: int| 0 <= i < name.len() ==> #[trigger] name[i] != '/',
    ensures
        holds_wildcard(dir) ==> !simple_glob(dir + seq!['/'] + name),
        !holds_wildcard(dir) && !holds_wildcard(name) ==> simple_glob(dir + seq!['/'] + name)
            && simple_glob(dir + seq!['/'] + (seq!['*'] + name)),
        holds_wildcard(name) && (name[0] != '*' || holds_wildcard(name.skip(1))) ==> !simple_glob(
            dir + seq!['/'] + name,
        ) && !simple_glob(name),
{
    reveal_strlit("*");
    let star = seq!['*'] + name;
    paths_are_split_at_the_last_slash(dir, name);
    paths_are_split_at_the_last_slash(dir, star);
    wildcard_is_glob(dir);
    wildcard_is_glob(name);
    wildcard_is_glob(name.skip(1));
    assert("*"@ =~= seq!['*']);
    assert(star.subrange(0, 1) =~= "*"@);
    assert(star.subrange(1, star.len() as int) =~= name);
    if name.len() > 0 {
        assert(name.subrange(0, 1) =~= seq![name[0]]);
        assert(name.subrange(0, 1)[0] == name[0]);
        assert(name.subrange(1, name.len() as int) =~= name.skip(1));
    }
}

} // verus!
