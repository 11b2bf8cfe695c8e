use vstd::prelude::*;
use crate::text::{decimal, write_decimal};

verus! {

/// What the lowering needs to know of a host expression.
pub enum ExprKind {
    /// A bare name reference, such as `foo`.
    Ident(String),
    /// A string literal, with its text.
    Str(String),
    /// Any other expression.
    Other,
}

/// The expression a value stands for: one of the host's, by its handle, or a
/// `null` literal supplied by the lowering itself.
#[derive(Clone, Copy, PartialEq, Eq, Structural, Debug)]
pub enum ExprRef {
    Host(usize),
    Null,
}

/// A host expression as the lowering sees it.
pub struct ExprItem {
    pub kind: ExprKind,
    pub expr: ExprRef,
}

/// A value of a message together with the placeholder that names it.
pub struct ValueWithPlaceholder {
    pub placeholder: String,
    pub value: ExprRef,
}

/// A value as the contracts see it: its placeholder and its expression.
pub type Entry = (Seq<char>, ExprRef);

impl View for ValueWithPlaceholder {
    type V = Entry;

    open spec fn view(&self) -> Entry {
        (self.placeholder@, self.value)
    }
}

/// The views of a list of values.
pub open spec fn entries(s: Seq<ValueWithPlaceholder>) -> Seq<Entry> {
    s.map_values(|v: ValueWithPlaceholder| v@)
}

impl ExprItem {
    /// The name of a bare name reference.
    pub open spec fn name(&self) -> Option<Seq<char>> {
        match self.kind {
            ExprKind::Ident(n) => Some(n@),
            _ => None,
        }
    }

    pub open spec fn is_named(&self) -> bool {
        self.kind is Ident
    }
}

/// The placeholder of an expression: its name where it is a bare name
/// reference, else the position `index` it is given among unnamed values.
pub open spec fn placeholder_key(name: Option<Seq<char>>, index: nat) -> Seq<char> {
    match name {
        Some(n) => n,
        None => decimal(index),
    }
}

/// `{key}`: how a placeholder stands in a message.
pub open spec fn braced(key: Seq<char>) -> Seq<char> {
    seq!['{'] + key + seq!['}']
}

impl ExprItem {
    /// A copy of this expression's description, with the same handle.
    pub fn duplicate(&self) -> (r: ExprItem)
        ensures
            r == *self,
    {
        let kind = match &self.kind {
            ExprKind::Ident(n) => ExprKind::Ident(n.clone()),
            ExprKind::Str(s) => ExprKind::Str(s.clone()),
            ExprKind::Other => ExprKind::Other,
        };
        ExprItem { kind, expr: self.expr }
    }
}

/// Pairs an expression with its placeholder, taking `index` where it has no name.
pub fn get_value_with_placeholder(item: &ExprItem, index: usize) -> (r: ValueWithPlaceholder)
    ensures
        r.placeholder@ == placeholder_key(item.name(), index as nat),
        r.value == item.expr,
{
    let placeholder = match &item.kind {
        ExprKind::Ident(n) => n.clone(),
        _ => {
            let mut s = String::new();
            write_decimal(index, &mut s);
            assert(s@ =~= decimal(index as nat));
            s
        },
    };
    ValueWithPlaceholder { placeholder, value: item.expr }
}

/// Some entry of `s` before position `end` has placeholder `key`.
pub open spec fn key_in(s: Seq<Entry>, end: int, key: Seq<char>) -> bool {
    exists|j: int| 0 <= j < end && (#[trigger] s[j]).0 == key
}

/// The entries of `s` whose placeholder no earlier entry has, in order.
pub open spec fn dedup_spec(s: Seq<Entry>) -> Seq<Entry>
    decreases s.len(),
{
    if s.len() == 0 {
        s
    } else {
        let prev = dedup_spec(s.drop_last());
        if key_in(s, s.len() - 1, s.last().0) {
            prev
        } else {
            prev.push(s.last())
        }
    }
}

/// No two entries share a placeholder.
pub open spec fn keys_unique(s: Seq<Entry>) -> bool {
    forall|i: int, j: int|
        0 <= i < j < s.len() ==> (#[trigger] s[i]).0 != (#[trigger] s[j]).0
}

/// A placeholder occurs in the deduplicated prefix exactly when it occurs in the prefix.
proof fn lemma_dedup_keys(s: Seq<Entry>, key: Seq<char>)
    ensures
        key_in(dedup_spec(s), dedup_spec(s).len() as int, key) == key_in(s, s.len() as int, key),
    decreases s.len(),
{
    if s.len() > 0 {
        let t = s.drop_last();
        lemma_dedup_keys(t, key);
        let d = dedup_spec(s);
        let dt = dedup_spec(t);
        if key_in(t, t.len() as int, key) {
            let j = choose|j: int| 0 <= j < t.len() && (#[trigger] t[j]).0 == key;
            assert(s[j] == t[j]);
        }
        if key_in(s, s.len() as int, key) {
            let j = choose|j: int| 0 <= j < s.len() && (#[trigger] s[j]).0 == key;
            if j < t.len() {
                assert(t[j] == s[j]);
            } else if !key_in(s, s.len() - 1, s.last().0) {
                assert(d[d.len() - 1] == s.last());
            } else {
                let k = choose|k: int| 0 <= k < s.len() - 1 && (#[trigger] s[k]).0 == s.last().0;
                assert(t[k] == s[k]);
            }
        }
        if key_in(d, d.len() as int, key) {
            let j = choose|j: int| 0 <= j < d.len() && (#[trigger] d[j]).0 == key;
            if j < dt.len() {
                assert(dt[j] == d[j]);
            } else {
                assert(s[s.len() - 1].0 == key);
            }
        }
        if key_in(dt, dt.len() as int, key) {
            let j = choose|j: int| 0 <= j < dt.len() && (#[trigger] dt[j]).0 == key;
            assert(d[j] == dt[j]);
        }
    }
}

/// The elements of `v` in reverse order; popping them hands them out in
/// their original order.
pub fn reversed<T>(v: Vec<T>) -> (r: Vec<T>)
    ensures
        r@ == v@.reverse(),
        forall|k: int| 0 <= k < v@.len() ==> #[trigger] r@[k] == v@[v@.len() - 1 - k],
{
    let mut v = v;
    let ghost all = v@;
    let mut rest: Vec<T> = Vec::new();
    while v.len() > 0
        invariant
            all == v@ + rest@.reverse(),
        decreases v.len(),
    {
        let x = v.pop().unwrap();
        proof {
            assert(all =~= v@ + rest@.push(x).reverse());
        }
        rest.push(x);
    }
    assert(all =~= rest@.reverse());
    assert(rest@ =~= all.reverse());
    rest
}

/// Keeps the first value for each placeholder, in order of first occurrence.
pub fn dedup_values(v: Vec<ValueWithPlaceholder>) -> (r: Vec<ValueWithPlaceholder>)
    ensures
        entries(r@) == dedup_spec(entries(v@)),
{
    let mut r: Vec<ValueWithPlaceholder> = Vec::new();
    let ghost all = v@;
    let ghost es = entries(v@);
    let mut rest = reversed(v);
    let n = rest.len();
    let mut i: usize = 0;
    assert(all.subrange(0, 0) =~= Seq::<ValueWithPlaceholder>::empty());
    while i < n
        invariant
            n == all.len(),
            i <= n,
            rest@.len() == n - i,
            forall|k: int| 0 <= k < n - i ==> #[trigger] rest@[k] == all[n - 1 - k],
            es == entries(all),
            entries(r@) == dedup_spec(es.subrange(0, i as int)),
        decreases n - i,
    {
        let x = rest.pop().unwrap();
        assert(x == all[i as int]);
        let ghost pre = es.subrange(0, i as int);
        let ghost next = es.subrange(0, i + 1);
        assert(next.drop_last() =~= pre);
        let mut seen = false;
        let mut j: usize = 0;
        while j < r.len()
            invariant
                j <= r@.len(),
                seen == key_in(entries(r@), j as int, x.placeholder@),
            decreases r@.len() - j,
        {
            if r[j].placeholder == x.placeholder {
                seen = true;
            }
            proof {
                let e = entries(r@);
                assert(e[j as int] == r@[j as int]@);
                if key_in(e, j as int, x.placeholder@) {
                    let k = choose|k: int| 0 <= k < j && (#[trigger] e[k]).0 == x.placeholder@;
                }
            }
            j = j + 1;
        }
        proof {
            lemma_dedup_keys(pre, x.placeholder@);
            if key_in(pre, pre.len() as int, x.placeholder@) {
                let k = choose|k: int| 0 <= k < pre.len() && (#[trigger] pre[k]).0 == x.placeholder@;
                assert(next[k] == pre[k]);
            }
            if key_in(next, next.len() - 1, x.placeholder@) {
                let k = choose|k: int| 0 <= k < next.len() - 1 && (#[trigger] next[k]).0 == x.placeholder@;
                assert(next[k] == pre[k]);
            }
        }
        if !seen {
            r.push(x);
            assert(entries(r@) =~= dedup_spec(next));
        } else {
            assert(entries(r@) =~= dedup_spec(next));
        }
        i = i + 1;
    }
    assert(es.subrange(0, n as int) =~= es);
    r
}


/// Deduplicated values never share a placeholder.
pub proof fn lemma_dedup_unique(s: Seq<Entry>)
    ensures
        keys_unique(dedup_spec(s)),
    decreases s.len(),
{
    if s.len() > 0 {
        let t = s.drop_last();
        lemma_dedup_unique(t);
        let d = dedup_spec(s);
        let dt = dedup_spec(t);
        if !key_in(s, s.len() - 1, s.last().0) {
            lemma_dedup_keys(t, s.last().0);
            assert forall|i: int, j: int| 0 <= i < j < d.len() implies
                (#[trigger] d[i]).0 != (#[trigger] d[j]).0 by {
                if j == d.len() - 1 {
                    assert(d[i] == dt[i]);
                    if d[i].0 == d[j].0 {
                        assert(key_in(dt, dt.len() as int, s.last().0));
                        let k = choose|k: int| 0 <= k < t.len() && (#[trigger] t[k]).0 == s.last().0;
                        assert(s[k] == t[k]);
                    }
                } else {
                    assert(d[i] == dt[i] && d[j] == dt[j]);
                }
            }
        }
    }
}

/// Values with distinct placeholders are kept as they are.
pub proof fn lemma_dedup_of_unique(s: Seq<Entry>)
    requires
        keys_unique(s),
    ensures
        dedup_spec(s) == s,
    decreases s.len(),
{
    if s.len() > 0 {
        let t = s.drop_last();
        assert forall|i: int, j: int| 0 <= i < j < t.len() implies
            (#[trigger] t[i]).0 != (#[trigger] t[j]).0 by {
            assert(t[i] == s[i] && t[j] == s[j]);
        }
        lemma_dedup_of_unique(t);
        if key_in(s, s.len() - 1, s.last().0) {
            let k = choose|k: int| 0 <= k < s.len() - 1 && (#[trigger] s[k]).0 == s.last().0;
            assert(s[k].0 != s[s.len() - 1].0);
        }
        assert(dedup_spec(s) =~= s);
    }
}

/// Deduplicating twice gives what deduplicating once gave.
pub proof fn lemma_dedup_idempotent(s: Seq<Entry>)
    ensures
        dedup_spec(dedup_spec(s)) == dedup_spec(s),
{
    lemma_dedup_unique(s);
    lemma_dedup_of_unique(dedup_spec(s));
}

/// Each deduplicated value is the first value of the input with its
/// placeholder, and every placeholder of the input keeps a value.
pub proof fn lemma_dedup_keeps_first(s: Seq<Entry>)
    ensures
        forall|i: int| 0 <= i < dedup_spec(s).len() ==> exists|j: int|
            0 <= j < s.len() && #[trigger] dedup_spec(s)[i] == s[j] && !key_in(s, j, s[j].0),
        forall|j: int| 0 <= j < s.len() ==> key_in(dedup_spec(s), dedup_spec(s).len() as int, (#[trigger] s[j]).0),
    decreases s.len(),
{
    if s.len() > 0 {
        let t = s.drop_last();
        lemma_dedup_keeps_first(t);
        let d = dedup_spec(s);
        let dt = dedup_spec(t);
        assert forall|i: int| 0 <= i < d.len() implies exists|j: int|
            0 <= j < s.len() && #[trigger] d[i] == s[j] && !key_in(s, j, s[j].0) by {
            if i < dt.len() {
                assert(d[i] == dt[i]);
                let j = choose|j: int| 0 <= j < t.len() && dt[i] == t[j] && !key_in(t, j, t[j].0);
                assert(t[j] == s[j]);
                if key_in(s, j, s[j].0) {
                    let k = choose|k: int| 0 <= k < j && (#[trigger] s[k]).0 == s[j].0;
                    assert(t[k] == s[k]);
                }
            } else {
                let j = s.len() - 1;
                assert(d[i] == s[j]);
            }
        }
        assert forall|j: int| 0 <= j < s.len() implies key_in(d, d.len() as int, (#[trigger] s[j]).0) by {
            lemma_dedup_keys(s, s[j].0);
        }
    }
}

} // verus!
