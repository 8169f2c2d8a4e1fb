//! Options by their keys: each key once, in ascending order.

use vstd::prelude::*;
use crate::scan::{comes_first, text_lt, text_lt_total, text_lt_transitive};
use crate::text::str_eq;
use crate::types::opt_str;

verus! {

/// An option.
#[derive(Debug, Clone, PartialEq, Eq)]
pub struct ExtraOption {
    pub key: String,
    pub value: String,
}

/// An option over mathematical values.
pub struct ExtraView {
    pub key: Seq<char>,
    pub value: Seq<char>,
}

impl View for ExtraOption {
    type V = ExtraView;

    open spec fn view(&self) -> ExtraView {
        ExtraView { key: self.key@, value: self.value@ }
    }
}

pub open spec fn extra_views(v: Seq<ExtraOption>) -> Seq<ExtraView> {
    v.map_values(|e: ExtraOption| e@)
}

/// Whether each key occurs once, and the keys come in ascending order.
pub open spec fn keys_ascend(s: Seq<ExtraView>) -> bool {
    forall|i: int, j: int|
        0 <= i < j < s.len() ==> text_lt((#[trigger] s[i]).key, (#[trigger] s[j]).key)
}

/// The value of a key.
pub open spec fn value_of(options: Seq<ExtraView>, key: Seq<char>, from: int) -> Option<Seq<char>>
    decreases options.len() - from,
{
    if from >= options.len() {
        None
    } else if options[from].key == key {
        Some(options[from].value)
    } else {
        value_of(options, key, from + 1)
    }
}

/// Options by their keys: each key once, in ascending order.
#[derive(Debug, PartialEq, Eq)]
pub struct OptionMap {
    entries: Vec<ExtraOption>,
}

impl View for OptionMap {
    type V = Seq<ExtraView>;

    closed spec fn view(&self) -> Seq<ExtraView> {
        extra_views(self.entries@)
    }
}

impl OptionMap {
    #[verifier::type_invariant]
    spec fn inv(self) -> bool {
        keys_ascend(extra_views(self.entries@))
    }

    pub fn new() -> (r: OptionMap)
        ensures
            r@.len() == 0,
    {
        OptionMap { entries: Vec::new() }
    }

    /// The options of a list that is in order.
    pub(crate) fn of_ascending(entries: Vec<ExtraOption>) -> (r: OptionMap)
        requires
            keys_ascend(extra_views(entries@)),
        ensures
            r@ == extra_views(entries@),
    {
        OptionMap { entries }
    }

    /// The options, by their keys.
    pub fn entries(&self) -> (r: &Vec<ExtraOption>)
        ensures
            extra_views(r@) == self@,
            keys_ascend(self@),
    {
        proof {
            use_type_invariant(self);
        }
        &self.entries
    }

    pub fn is_empty(&self) -> (r: bool)
        ensures
            r == (self@.len() == 0),
    {
        self.entries.len() == 0
    }

    /// The value of a key.
    pub fn get(&self, key: &str) -> (r: Option<String>)
        ensures
            opt_str(r) == value_of(self@, key@, 0),
    {
        let ghost views = self@;
        let mut i: usize = 0;
        while i < self.entries.len()
            invariant
                i <= self.entries@.len(),
                views == extra_views(self.entries@),
                value_of(views, key@, i as int) == value_of(views, key@, 0),
            decreases self.entries@.len() - i,
        {
            assert(views[i as int] == self.entries@[i as int]@);
            if str_eq(self.entries[i].key.as_str(), key) {
                return Some(self.entries[i].value.clone());
            }
            i = i + 1;
        }
        None
    }

    /// Sets the value of a key, in place of the one before.
    pub fn insert(&mut self, key: String, value: String)
        ensures
            keys_ascend(final(self)@),
            forall|k: Seq<char>|
                (#[trigger] value_of(final(self)@, k, 0)) == (if k == key@ {
                    Some(value@)
                } else {
                    value_of(old(self)@, k, 0)
                }),
    {
        proof {
            use_type_invariant(&*self);
        }
        let ghost before = extra_views(self.entries@);
        let mut entries: Vec<ExtraOption> = Vec::new();
        std::mem::swap(&mut entries, &mut self.entries);
        let n: usize = entries.len();
        let mut i: usize = 0;
        while i < n && comes_first(entries[i].key.as_str(), key.as_str())
            invariant
                i <= n,
                n == entries@.len(),
                before == extra_views(entries@),
                forall|q: int| 0 <= q < i ==> text_lt((#[trigger] before[q]).key, key@),
            decreases n - i,
        {
            assert(before[i as int] == entries@[i as int]@);
            i = i + 1;
        }
        let same = i < n && str_eq(entries[i].key.as_str(), key.as_str());
        if i < n {
            assert(before[i as int] == entries@[i as int]@);
            proof {
                text_lt_total(before[i as int].key, key@);
            }
        }
        let ghost x = ExtraView { key: key@, value: value@ };
        if same {
            let _ = entries.remove(i);
        }
        let ghost rest = extra_views(entries@);
        assert(rest =~= if same {
            before.remove(i as int)
        } else {
            before
        });
        entries.insert(i, ExtraOption { key, value });
        proof {
            let after = extra_views(entries@);
            assert(after =~= rest.insert(i as int, x));
            put_in_place(before, rest, x, i as int, same);
        }
        *self = OptionMap { entries };
    }
}

impl Clone for OptionMap {
    fn clone(&self) -> (r: OptionMap)
        ensures
            r@ == self@,
    {
        proof {
            use_type_invariant(self);
        }
        let mut entries: Vec<ExtraOption> = Vec::new();
        let mut i: usize = 0;
        while i < self.entries.len()
            invariant
                i <= self.entries@.len(),
                entries@.len() == i,
                forall|k: int| 0 <= k < i ==> (#[trigger] entries@[k])@ == self.entries@[k]@,
            decreases self.entries@.len() - i,
        {
            let e = &self.entries[i];
            entries.push(ExtraOption { key: e.key.clone(), value: e.value.clone() });
            i = i + 1;
        }
        assert(extra_views(entries@) =~= extra_views(self.entries@));
        OptionMap { entries }
    }
}

/// The value of a key that is there, and only of such a key.
proof fn looked_up(s: Seq<ExtraView>, key: Seq<char>, from: int)
    requires
        0 <= from <= s.len(),
    ensures
        match value_of(s, key, from) {
            Some(v) => exists|i: int|
                from <= i < s.len() && (#[trigger] s[i]).key == key && s[i].value == v && forall|
                    k: int,
                |
                    from <= k < i ==> (#[trigger] s[k]).key != key,
            None => forall|i: int| from <= i < s.len() ==> (#[trigger] s[i]).key != key,
        },
    decreases s.len() - from,
{
    if from < s.len() && s[from].key != key {
        looked_up(s, key, from + 1);
    }
}

/// Of options in order, the value of a key is the one that stands beside it.
pub proof fn value_stands_beside_its_key(s: Seq<ExtraView>, i: int)
    requires
        keys_ascend(s),
        0 <= i < s.len(),
    ensures
        value_of(s, s[i].key, 0) == Some(s[i].value),
{
    looked_up(s, s[i].key, 0);
    let j = choose|j: int|
        0 <= j < s.len() && (#[trigger] s[j]).key == s[i].key && Some(s[j].value) == value_of(
            s,
            s[i].key,
            0,
        );
    if value_of(s, s[i].key, 0) is Some {
        text_lt_total(s[i].key, s[j].key);
        if i < j {
            assert(text_lt(s[i].key, s[j].key));
        } else if j < i {
            assert(text_lt(s[j].key, s[i].key));
        }
    }
}

proof fn put_in_place(
    s: Seq<ExtraView>,
    rest: Seq<ExtraView>,
    x: ExtraView,
    i: int,
    same: bool,
)
    requires
        rest == (if same {
            s.remove(i)
        } else {
            s
        }),
        keys_ascend(s),
        0 <= i <= s.len(),
        forall|q: int| 0 <= q < i ==> text_lt((#[trigger] s[q]).key, x.key),
        same ==> i < s.len() && s[i].key == x.key,
        !same && i < s.len() ==> text_lt(x.key, s[i].key),
    ensures
        keys_ascend(rest.insert(i, x)),
        forall|k: Seq<char>|
            (#[trigger] value_of(rest.insert(i, x), k, 0)) == (if k == x.key {
                Some(x.value)
            } else {
                value_of(s, k, 0)
            }),
{
    let t = rest.insert(i, x);
    let shift: int = if same {
        0
    } else {
        1
    };
    assert(t.len() == s.len() + shift);
    assert(forall|q: int| 0 <= q < i ==> t[q] == s[q]);
    assert(t[i] == x);
    assert(forall|q: int| i < q < t.len() ==> t[q] == s[q - shift]);
    assert forall|a: int, b: int| 0 <= a < b < t.len() implies text_lt(
        (#[trigger] t[a]).key,
        (#[trigger] t[b]).key,
    ) by {
        if b < i {
            assert(text_lt(s[a].key, s[b].key));
        } else if b == i {
            assert(t[a] == s[a]);
        } else if a > i {
            assert(text_lt(s[a - shift].key, s[b - shift].key));
        } else if a < i {
            assert(text_lt(s[a].key, s[b - shift].key));
        } else if same {
            assert(text_lt(s[i].key, s[b].key));
        } else {
            if b - 1 > i {
                assert(text_lt(s[i].key, s[b - 1].key));
                text_lt_transitive(x.key, s[i].key, s[b - 1].key);
            }
        }
    }
    assert forall|k: Seq<char>|
        (#[trigger] value_of(t, k, 0)) == (if k == x.key {
            Some(x.value)
        } else {
            value_of(s, k, 0)
        }) by {
        if k == x.key {
            value_stands_beside_its_key(t, i);
        } else {
            looked_up(t, k, 0);
            looked_up(s, k, 0);
            if value_of(s, k, 0) is Some {
                let q = choose|q: int| 0 <= q < s.len() && (#[trigger] s[q]).key == k;
                value_stands_beside_its_key(s, q);
                let p = if q < i {
                    q
                } else {
                    q + shift
                };
                assert(t[p] == s[q]);
                value_stands_beside_its_key(t, p);
            } else if value_of(t, k, 0) is Some {
                let p = choose|p: int| 0 <= p < t.len() && (#[trigger] t[p]).key == k;
                let q = if p < i {
                    p
                } else {
                    p - shift
                };
                assert(t[p] == s[q]);
            }
        }
    }
}

} // verus!
