//! The failure text a requester is shown.

use vstd::prelude::*;
use crate::text::{
    at, chars_of, cut_white, skip_white, starts_with_seq, string_of_range, trim_seq,
    trim_start_seq,
};
use crate::types::{NodeId, Verdict};

verus! {

/// A provider that answered with a failure.
#[derive(Debug, Clone, PartialEq, Eq)]
pub struct Failure {
    pub node: NodeId,
    pub verdict: Verdict,
    /// The failure text as the provider sent it.
    pub detail: String,
}

/// The wrapper prefixes that accrete as an engine error travels to the requester.
pub open spec fn wrapper_prefixes() -> Seq<Seq<char>> {
    seq![
        "exec error: "@,
        "execution failed: "@,
        "query rejected by lockdown policy: "@,
        "query: "@,
        "prepare: "@,
        "fetch: "@,
    ]
}

/// What is left of `s` after the first of the prefixes from `k` on that it begins
/// with, without leading white space.
pub open spec fn strip_one(s: Seq<char>, k: int) -> Option<Seq<char>>
    decreases wrapper_prefixes().len() - k,
{
    if k < 0 || k >= wrapper_prefixes().len() {
        None
    } else if starts_with_seq(s, wrapper_prefixes()[k]) {
        Some(trim_start_seq(s.subrange(wrapper_prefixes()[k].len() as int, s.len() as int)))
    } else {
        strip_one(s, k + 1)
    }
}

/// `s` with every leading wrapper prefix taken off.
pub open spec fn strip_wrappers(s: Seq<char>) -> Seq<char>
    decreases s.len(),
{
    match strip_one(s, 0) {
        Some(rest) => if rest.len() < s.len() {
            strip_wrappers(rest)
        } else {
            s
        },
        None => s,
    }
}

proof fn prefixes_are_not_empty(k: int)
    requires
        0 <= k < wrapper_prefixes().len(),
    ensures
        wrapper_prefixes()[k].len() > 0,
{
    reveal_strlit("exec error: ");
    reveal_strlit("execution failed: ");
    reveal_strlit("query rejected by lockdown policy: ");
    reveal_strlit("query: ");
    reveal_strlit("prepare: ");
    reveal_strlit("fetch: ");
}

proof fn trim_start_shrinks(s: Seq<char>)
    ensures
        trim_start_seq(s).len() <= s.len(),
    decreases s.len(),
{
    if s.len() > 0 {
        trim_start_shrinks(s.subrange(1, s.len() as int));
    }
}

proof fn strip_one_shrinks(s: Seq<char>, k: int)
    requires
        0 <= k,
    ensures
        strip_one(s, k) is Some ==> strip_one(s, k)->0.len() < s.len(),
    decreases wrapper_prefixes().len() - k,
{
    if k < wrapper_prefixes().len() {
        prefixes_are_not_empty(k);
        if starts_with_seq(s, wrapper_prefixes()[k]) {
            trim_start_shrinks(
                s.subrange(wrapper_prefixes()[k].len() as int, s.len() as int),
            );
        } else {
            strip_one_shrinks(s, k + 1);
        }
    }
}

/// Taking off the wrappers leaves no wrapper at the front.
pub proof fn strip_wrappers_is_exhaustive(s: Seq<char>)
    ensures
        strip_one(strip_wrappers(s), 0) is None,
    decreases s.len(),
{
    strip_one_shrinks(s, 0);
    if strip_one(s, 0) is Some {
        strip_wrappers_is_exhaustive(strip_one(s, 0)->0);
    }
}

fn prefix_chars() -> (r: Vec<Vec<char>>)
    ensures
        r@.len() == wrapper_prefixes().len(),
        forall|k: int| 0 <= k < r@.len() ==> (#[trigger] r@[k])@ == wrapper_prefixes()[k],
{
    let mut r: Vec<Vec<char>> = Vec::new();
    r.push(chars_of("exec error: "));
    r.push(chars_of("execution failed: "));
    r.push(chars_of("query rejected by lockdown policy: "));
    r.push(chars_of("query: "));
    r.push(chars_of("prepare: "));
    r.push(chars_of("fetch: "));
    r
}

/// The underlying engine message, without the internal wrapper prefixes.
pub fn clean_engine_detail(detail: &str) -> (r: String)
    ensures
        r@ == strip_wrappers(trim_seq(detail@)),
{
    let v = chars_of(detail);
    let n: usize = v.len();
    let prefixes = prefix_chars();
    let mut from: usize = skip_white(&v, 0, n);
    let to: usize = cut_white(&v, from, n);
    assert(v@.subrange(0, n as int) =~= v@);
    let mut stripped = true;
    while stripped
        invariant
            from <= to <= v@.len(),
            prefixes@.len() == wrapper_prefixes().len(),
            forall|k: int| 0 <= k < prefixes@.len() ==> (#[trigger] prefixes@[k])@ == wrapper_prefixes()[k],
            strip_wrappers(v@.subrange(from as int, to as int)) == strip_wrappers(trim_seq(detail@)),
            !stripped ==> strip_one(v@.subrange(from as int, to as int), 0) is None,
        decreases to - from + (if stripped { 1int } else { 0int }),
    {
        stripped = false;
        let ghost s = v@.subrange(from as int, to as int);
        let mut k: usize = 0;
        let ghost start = from;
        while k < prefixes.len() && !stripped
            invariant
                k <= prefixes@.len(),
                from <= to <= v@.len(),
                start <= from,
                !stripped ==> start == from,
                stripped ==> start < from,
                s == v@.subrange(start as int, to as int),
                prefixes@.len() == wrapper_prefixes().len(),
                forall|j: int| 0 <= j < prefixes@.len() ==> (#[trigger] prefixes@[j])@ == wrapper_prefixes()[j],
                !stripped ==> strip_one(s, 0) == strip_one(s, k as int),
                stripped ==> strip_one(s, 0) == Some(v@.subrange(from as int, to as int)),
            decreases prefixes@.len() - k + (if stripped { 0int } else { 1int }),
        {
            let len: usize = prefixes[k].len();
            let hit = len <= to - from && at(&v, &prefixes[k], from);
            proof {
                assert(prefixes@[k as int]@ == wrapper_prefixes()[k as int]);
                if len <= to - from {
                    assert(s.subrange(0, len as int) =~= v@.subrange(from as int, from + len));
                }
                prefixes_are_not_empty(k as int);
            }
            if hit {
                let next = skip_white(&v, from + len, to);
                proof {
                    assert(s.subrange(len as int, s.len() as int) =~= v@.subrange(
                        from + len,
                        to as int,
                    ));
                }
                from = next;
                stripped = true;
            } else {
                k = k + 1;
            }
        }
    }
    string_of_range(&v, from, to)
}

/// The failure that represents a consensus: the first infeasible one, else the first.
pub open spec fn representative(failed: Seq<Failure>, k: int) -> Option<Seq<char>>
    decreases failed.len() - k,
{
    if failed.len() == 0 {
        None
    } else if k < 0 || k >= failed.len() {
        Some(failed[0].detail@)
    } else if failed[k].verdict == Verdict::Infeasible {
        Some(failed[k].detail@)
    } else {
        representative(failed, k + 1)
    }
}

/// The failure text shown to the requester, if any is left once it is cleaned.
pub open spec fn detail_spec(failed: Seq<Failure>) -> Option<Seq<char>> {
    match representative(failed, 0) {
        Some(raw) => {
            let cleaned = strip_wrappers(trim_seq(raw));
            if cleaned.len() == 0 {
                None
            } else {
                Some(cleaned)
            }
        },
        None => None,
    }
}

/// A representative failure text of a consensus failure.
pub fn consensus_failure_detail(failed: &[Failure]) -> (r: Option<String>)
    ensures
        crate::types::opt_str(r) == detail_spec(failed@),
{
    if failed.len() == 0 {
        return None;
    }
    let mut k: usize = 0;
    while k < failed.len() && failed[k].verdict != Verdict::Infeasible
        invariant
            k <= failed@.len(),
            failed@.len() > 0,
            representative(failed@, 0) == representative(failed@, k as int),
        decreases failed@.len() - k,
    {
        k = k + 1;
    }
    let cleaned = if k < failed.len() {
        clean_engine_detail(failed[k].detail.as_str())
    } else {
        clean_engine_detail(failed[0].detail.as_str())
    };
    if cleaned.as_str().is_empty() {
        None
    } else {
        Some(cleaned)
    }
}

/// Whether `p` is one of the texts that wrap an engine's own.
pub open spec fn wraps(p: Seq<char>) -> bool {
    p == "exec error: "@ || p == "execution failed: "@ || p
        == "query rejected by lockdown policy: "@ || p == "query: "@ || p == "prepare: "@ || p
        == "fetch: "@
}

proof fn the_wrappers()
    ensures
        wrapper_prefixes().len() == 6,
        forall|k: int| 0 <= k < 6 ==> wraps(#[trigger] wrapper_prefixes()[k]),
        forall|k: int| 0 <= k < 6 ==> (#[trigger] wrapper_prefixes()[k]).len() >= 7,
        wrapper_prefixes()[0] == "exec error: "@,
        wrapper_prefixes()[1] == "execution failed: "@,
        wrapper_prefixes()[2] == "query rejected by lockdown policy: "@,
        wrapper_prefixes()[3] == "query: "@,
        wrapper_prefixes()[4] == "prepare: "@,
        wrapper_prefixes()[5] == "fetch: "@,
{
    reveal_strlit("exec error: ");
    reveal_strlit("execution failed: ");
    reveal_strlit("query rejected by lockdown policy: ");
    reveal_strlit("query: ");
    reveal_strlit("prepare: ");
    reveal_strlit("fetch: ");
    let w = wrapper_prefixes();
    assert(w.len() == 6);
    assert(w[0] == "exec error: "@);
    assert(w[1] == "execution failed: "@);
    assert(w[2] == "query rejected by lockdown policy: "@);
    assert(w[3] == "query: "@);
    assert(w[4] == "prepare: "@);
    assert(w[5] == "fetch: "@);
    assert forall|k: int| 0 <= k < 6 implies wraps(#[trigger] w[k]) && w[k].len() >= 7 by {
        assert(k == 0 || k == 1 || k == 2 || k == 3 || k == 4 || k == 5);
    }
}

proof fn heads_differ(a: Seq<char>, b: Seq<char>, s: Seq<char>)
    requires
        starts_with_seq(s, a),
        starts_with_seq(s, b),
        a.len() <= b.len(),
    ensures
        b.take(a.len() as int) == a,
{
    assert(s.subrange(0, b.len() as int).take(a.len() as int) =~= s.subrange(0, a.len() as int));
}

proof fn strip_finds(s: Seq<char>, from: int, k: int)
    requires
        0 <= from <= k < 6,
        starts_with_seq(s, wrapper_prefixes()[k]),
        forall|q: int| from <= q < k ==> !starts_with_seq(s, #[trigger] wrapper_prefixes()[q]),
    ensures
        strip_one(s, from) == Some(
            trim_start_seq(s.subrange(wrapper_prefixes()[k].len() as int, s.len() as int)),
        ),
    decreases k - from,
{
    the_wrappers();
    if from < k {
        assert(!starts_with_seq(s, wrapper_prefixes()[from]));
        strip_finds(s, from + 1, k);
    }
}

proof fn strip_finds_none(s: Seq<char>, from: int)
    requires
        0 <= from <= 6,
        forall|q: int| from <= q < 6 ==> !starts_with_seq(s, #[trigger] wrapper_prefixes()[q]),
    ensures
        strip_one(s, from) is None,
    decreases 6 - from,
{
    the_wrappers();
    if from < 6 {
        assert(!starts_with_seq(s, wrapper_prefixes()[from]));
        strip_finds_none(s, from + 1);
    }
}

proof fn wrappers_tell_apart(s: Seq<char>, p: Seq<char>, q: Seq<char>)
    requires
        wraps(p),
        wraps(q),
        starts_with_seq(s, p),
        starts_with_seq(s, q),
    ensures
        p == q,
{
    the_wrappers();
    reveal_strlit("exec error: ");
    reveal_strlit("execution failed: ");
    reveal_strlit("query rejected by lockdown policy: ");
    reveal_strlit("query: ");
    reveal_strlit("prepare: ");
    reveal_strlit("fetch: ");
    assert(s.subrange(0, p.len() as int)[0] == s[0]);
    assert(s.subrange(0, q.len() as int)[0] == s[0]);
    assert(s.subrange(0, p.len() as int)[4] == s[4]);
    assert(s.subrange(0, q.len() as int)[4] == s[4]);
    assert(s.subrange(0, p.len() as int)[5] == s[5]);
    assert(s.subrange(0, q.len() as int)[5] == s[5]);
}

/// Each text that wraps an engine's own is taken off, with the space behind it.
pub proof fn wrappers_are_taken_off(p: Seq<char>, rest: Seq<char>)
    requires
        wraps(p),
    ensures
        strip_wrappers(p + rest) == strip_wrappers(trim_start_seq(rest)),
{
    the_wrappers();
    let s = p + rest;
    assert(s.subrange(0, p.len() as int) =~= p);
    let w = wrapper_prefixes();
    let k = choose|k: int| 0 <= k < 6 && #[trigger] w[k] == p;
    assert(exists|k: int| 0 <= k < 6 && #[trigger] w[k] == p) by {
        if p == w[0] {
        } else if p == w[1] {
        } else if p == w[2] {
        } else if p == w[3] {
        } else if p == w[4] {
        } else {
            assert(p == w[5]);
        }
    }
    assert(starts_with_seq(s, w[k]));
    let m = first_wrapper(s, k);
    wrappers_tell_apart(s, w[m], p);
    strip_finds(s, 0, m);
    assert(s.subrange(p.len() as int, s.len() as int) =~= rest);
    trim_shortens(rest);
}

proof fn trim_shortens(s: Seq<char>)
    ensures
        trim_start_seq(s).len() <= s.len(),
    decreases s.len(),
{
    if s.len() > 0 && crate::text::is_white(s[0]) {
        trim_shortens(s.subrange(1, s.len() as int));
    }
}

proof fn first_wrapper(s: Seq<char>, k: int) -> (m: int)
    requires
        0 <= k < 6,
        starts_with_seq(s, wrapper_prefixes()[k]),
    ensures
        0 <= m <= k,
        starts_with_seq(s, wrapper_prefixes()[m]),
        forall|q: int| 0 <= q < m ==> !starts_with_seq(s, #[trigger] wrapper_prefixes()[q]),
    decreases k,
{
    if forall|q: int| 0 <= q < k ==> !starts_with_seq(s, #[trigger] wrapper_prefixes()[q]) {
        k
    } else {
        let q = choose|q: int| 0 <= q < k && starts_with_seq(s, #[trigger] wrapper_prefixes()[q]);
        first_wrapper(s, q)
    }
}

/// A text that nothing wraps is left as it is.
pub proof fn bare_texts_are_left(s: Seq<char>)
    requires
        forall|p: Seq<char>| #[trigger] wraps(p) ==> !starts_with_seq(s, p),
    ensures
        strip_wrappers(s) == s,
{
    the_wrappers();
    assert forall|q: int| 0 <= q < 6 implies !starts_with_seq(
        s,
        #[trigger] wrapper_prefixes()[q],
    ) by {
        assert(wraps(wrapper_prefixes()[q]));
    }
    strip_finds_none(s, 0);
}

/// A failure that calls the query infeasible speaks for all, the first of them; without
/// one the first failure does. `k` is the first that calls it infeasible.
pub proof fn infeasible_failures_speak_first(failed: Seq<Failure>, k: int)
    requires
        failed.len() > 0,
        0 <= k <= failed.len(),
        forall|q: int| 0 <= q < k ==> (#[trigger] failed[q]).verdict != Verdict::Infeasible,
        k < failed.len() ==> failed[k].verdict == Verdict::Infeasible,
    ensures
        ({
            let spoken = if k < failed.len() {
                failed[k].detail@
            } else {
                failed[0].detail@
            };
            let text = strip_wrappers(trim_seq(spoken));
            detail_spec(failed) == (if text.len() > 0 {
                Some(text)
            } else {
                None
            })
        }),
{
    spoken_from(failed, 0, k);
}

proof fn spoken_from(failed: Seq<Failure>, from: int, k: int)
    requires
        failed.len() > 0,
        0 <= from <= k <= failed.len(),
        forall|q: int| from <= q < k ==> (#[trigger] failed[q]).verdict != Verdict::Infeasible,
        k < failed.len() ==> failed[k].verdict == Verdict::Infeasible,
    ensures
        representative(failed, from) == Some(
            if k < failed.len() {
                failed[k].detail@
            } else {
                failed[0].detail@
            },
        ),
    decreases k - from,
{
    if from < k {
        assert(failed[from].verdict != Verdict::Infeasible);
        spoken_from(failed, from + 1, k);
    }
}

/// What an engine puts before its reason is taken off again: the requester sees the reason.
pub proof fn engine_errors_show_their_reason(s: String)
    ensures
        strip_wrappers(crate::engine::EngineError::Exec(s).text()) == strip_wrappers(
            trim_start_seq(s@),
        ),
        strip_wrappers(crate::engine::EngineError::Rejected(s).text()) == strip_wrappers(
            trim_start_seq(s@),
        ),
{
    wrappers_are_taken_off("execution failed: "@, s@);
    wrappers_are_taken_off("query rejected by lockdown policy: "@, s@);
}

} // verus!
