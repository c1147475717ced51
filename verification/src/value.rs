//! The JSON-shaped value model: a recursive sum type over null, booleans,
//! numbers (kept as their decimal text, compared only for equality), strings,
//! ordered sequences and insertion-ordered mappings.

use vstd::prelude::*;

verus! {

/// A JSON-shaped value. Mappings are kept as entry lists in insertion order;
/// that order governs the order in which the differ emits operations.
/// Numbers carry their decimal text: the differ never interprets them beyond
/// deep equality.
///
/// A well-formed mapping has pairwise distinct keys (see [`wf_val`]); entry
/// lists with repeated keys lie outside the JSON value space, though every
/// function here still gives them the behavior its contract states, pass by
/// pass over the entries.
#[derive(Debug, PartialEq, Eq)]
pub enum Value {
    Null,
    Bool(bool),
    Num(String),
    Str(String),
    Arr(Vec<Value>),
    Obj(Vec<(String, Value)>),
}

/// The mathematical model of a [`Value`].
pub enum ValueView {
    Null,
    Bool(bool),
    Num(Seq<char>),
    Str(Seq<char>),
    Arr(Seq<ValueView>),
    Obj(Seq<(Seq<char>, ValueView)>),
}

pub open spec fn view_of(v: Value) -> ValueView
    decreases v, 1int,
{
    match v {
        Value::Null => ValueView::Null,
        Value::Bool(b) => ValueView::Bool(b),
        Value::Num(s) => ValueView::Num(s@),
        Value::Str(s) => ValueView::Str(s@),
        Value::Arr(a) => ValueView::Arr(view_of_seq(a@, 0)),
        Value::Obj(m) => ValueView::Obj(view_of_entries(m@, 0)),
    }
}

/// The views of the elements of `s` from position `k` on.
pub open spec fn view_of_seq(s: Seq<Value>, k: int) -> Seq<ValueView>
    decreases s, 2int, s.len() - k,
{
    if k < 0 || k >= s.len() {
        Seq::empty()
    } else {
        seq![view_of(s[k])] + view_of_seq(s, k + 1)
    }
}

/// The views of the entries of `m` from position `k` on.
pub open spec fn view_of_entries(m: Seq<(String, Value)>, k: int) -> Seq<(Seq<char>, ValueView)>
    decreases m, 2int, m.len() - k,
{
    if k < 0 || k >= m.len() {
        Seq::empty()
    } else {
        seq![(m[k].0@, view_of(m[k].1))] + view_of_entries(m, k + 1)
    }
}

impl View for Value {
    type V = ValueView;

    open spec fn view(&self) -> ValueView {
        view_of(*self)
    }
}

pub proof fn lemma_view_of_seq(s: Seq<Value>, k: int)
    requires
        0 <= k <= s.len(),
    ensures
        view_of_seq(s, k).len() == s.len() - k,
        forall|d: int| 0 <= d < s.len() - k ==> view_of_seq(s, k)[d] == view_of(s[k + d]),
    decreases s.len() - k,
{
    if k < s.len() {
        lemma_view_of_seq(s, k + 1);
    }
}

pub proof fn lemma_view_of_entries(m: Seq<(String, Value)>, k: int)
    requires
        0 <= k <= m.len(),
    ensures
        view_of_entries(m, k).len() == m.len() - k,
        forall|d: int| 0 <= d < m.len() - k
            ==> view_of_entries(m, k)[d] == (m[k + d].0@, view_of(m[k + d].1)),
    decreases m.len() - k,
{
    if k < m.len() {
        lemma_view_of_entries(m, k + 1);
    }
}

/// Whether some entry of `m` carries the key `k`.
pub open spec fn has_key(m: Seq<(Seq<char>, ValueView)>, k: Seq<char>) -> bool {
    exists|i: int| 0 <= i < m.len() && (#[trigger] m[i]).0 == k
}

pub open spec fn lookup_from(m: Seq<(Seq<char>, ValueView)>, k: Seq<char>, idx: int) -> ValueView
    decreases m.len() - idx,
{
    if idx < 0 || idx >= m.len() {
        ValueView::Null
    } else if m[idx].0 == k {
        m[idx].1
    } else {
        lookup_from(m, k, idx + 1)
    }
}

/// The value of the first entry of `m` whose key is `k` (`Null` if there is none).
pub open spec fn lookup(m: Seq<(Seq<char>, ValueView)>, k: Seq<char>) -> ValueView {
    lookup_from(m, k, 0)
}

pub proof fn lemma_lookup_first(m: Seq<(Seq<char>, ValueView)>, k: Seq<char>, j: int)
    requires
        0 <= j < m.len(),
        m[j].0 == k,
        forall|jj: int| 0 <= jj < j ==> #[trigger] m[jj].0 != k,
    ensures
        lookup(m, k) == m[j].1,
{
    lemma_lookup_from_first(m, k, 0, j);
}

proof fn lemma_lookup_from_first(m: Seq<(Seq<char>, ValueView)>, k: Seq<char>, idx: int, j: int)
    requires
        0 <= idx <= j < m.len(),
        m[j].0 == k,
        forall|jj: int| idx <= jj < j ==> #[trigger] m[jj].0 != k,
    ensures
        lookup_from(m, k, idx) == m[j].1,
    decreases j - idx,
{
    if idx < j {
        lemma_lookup_from_first(m, k, idx + 1, j);
    }
}

/// No two entries of `m` share a key.
pub open spec fn keys_unique(m: Seq<(Seq<char>, ValueView)>) -> bool {
    forall|i: int, j: int| 0 <= i < j < m.len() ==> #[trigger] m[i].0 != #[trigger] m[j].0
}

/// A well-formed value: every mapping in it has pairwise distinct keys.
pub open spec fn wf_val(v: ValueView) -> bool
    decreases v,
{
    match v {
        ValueView::Arr(a) => forall|i: int| 0 <= i < a.len() ==> wf_val(#[trigger] a[i]),
        ValueView::Obj(m) => keys_unique(m) && forall|i: int|
            0 <= i < m.len() ==> wf_val(#[trigger] m[i].1),
        _ => true,
    }
}

/// Deep structural equality: order-sensitive for sequences, key-and-value
/// equality regardless of entry order for mappings.
pub open spec fn eq_val(x: ValueView, y: ValueView) -> bool
    decreases x, y,
{
    match (x, y) {
        (ValueView::Null, ValueView::Null) => true,
        (ValueView::Bool(a), ValueView::Bool(b)) => a == b,
        (ValueView::Num(a), ValueView::Num(b)) => a == b,
        (ValueView::Str(a), ValueView::Str(b)) => a == b,
        (ValueView::Arr(a), ValueView::Arr(b)) => a.len() == b.len() && forall|i: int|
            0 <= i < a.len() ==> eq_val(#[trigger] a[i], b[i]),
        (ValueView::Obj(p), ValueView::Obj(q)) => p.len() == q.len() && forall|i: int|
            0 <= i < p.len() ==> has_key(q, (#[trigger] p[i]).0) && eq_val(p[i].1, lookup(q, p[i].0)),
        _ => false,
    }
}

pub proof fn lemma_eq_val_refl(v: ValueView)
    requires
        wf_val(v),
    ensures
        eq_val(v, v),
    decreases v,
{
    match v {
        ValueView::Arr(a) => {
            assert forall|i: int| 0 <= i < a.len() implies eq_val(#[trigger] a[i], a[i]) by {
                lemma_eq_val_refl(a[i]);
            }
        },
        ValueView::Obj(m) => {
            assert forall|i: int|
                0 <= i < m.len() implies has_key(m, (#[trigger] m[i]).0) && eq_val(
                m[i].1,
                lookup(m, m[i].0),
            ) by {
                assert(m[i].0 == m[i].0);
                lemma_lookup_first(m, m[i].0, i);
                lemma_eq_val_refl(m[i].1);
            }
        },
        _ => {},
    }
}

/// Whether `v` is the null value.
pub fn is_null(v: &Value) -> (r: bool)
    ensures
        r == (v@ is Null),
{
    match v {
        Value::Null => true,
        _ => false,
    }
}

/// Index of the first entry of `m` whose key equals `k`, if any.
pub fn find_key(m: &Vec<(String, Value)>, k: &String) -> (r: Option<usize>)
    ensures
        match r {
            Some(j) => j < m@.len() && m@[j as int].0@ == k@ && forall|jj: int|
                0 <= jj < j ==> #[trigger] m@[jj].0@ != k@,
            None => forall|jj: int| 0 <= jj < m@.len() ==> #[trigger] m@[jj].0@ != k@,
        },
{
    let n = m.len();
    let mut i: usize = 0;
    while i < n
        invariant
            n == m@.len(),
            i <= n,
            forall|jj: int| 0 <= jj < i ==> #[trigger] m@[jj].0@ != k@,
        decreases n - i,
    {
        if m[i].0 == *k {
            return Some(i);
        }
        i += 1;
    }
    None
}

/// Deep equality test, the one shape dispatch and the differ rely on.
#[verifier::loop_isolation(false)]
pub fn value_eq(x: &Value, y: &Value) -> (r: bool)
    ensures
        r == eq_val(x@, y@),
    decreases x, y,
{
    match (x, y) {
        (Value::Null, Value::Null) => true,
        (Value::Bool(a), Value::Bool(b)) => *a == *b,
        (Value::Num(a), Value::Num(b)) => *a == *b,
        (Value::Str(a), Value::Str(b)) => *a == *b,
        (Value::Arr(a), Value::Arr(b)) => {
            proof {
                lemma_view_of_seq(a@, 0);
                lemma_view_of_seq(b@, 0);
            }
            let n = a.len();
            if n != b.len() {
                return false;
            }
            let mut i: usize = 0;
            while i < n
                invariant
                    x@ == ValueView::Arr(view_of_seq(a@, 0)),
                    y@ == ValueView::Arr(view_of_seq(b@, 0)),
                    n == a@.len() == b@.len(),
                    view_of_seq(a@, 0).len() == n,
                    view_of_seq(b@, 0).len() == n,
                    forall|j: int| 0 <= j < a@.len()
                        ==> view_of_seq(a@, 0)[j] == view_of(a@[j]),
                    forall|j: int| 0 <= j < b@.len()
                        ==> view_of_seq(b@, 0)[j] == view_of(b@[j]),
                    i <= n,
                    forall|j: int| 0 <= j < i
                        ==> eq_val(#[trigger] view_of_seq(a@, 0)[j], view_of_seq(b@, 0)[j]),
                decreases n - i,
            {
                if !value_eq(&a[i], &b[i]) {
                    assert(!eq_val(view_of_seq(a@, 0)[i as int], view_of_seq(b@, 0)[i as int]));
                    return false;
                }
                i += 1;
            }
            true
        },
        (Value::Obj(p), Value::Obj(q)) => {
            proof {
                lemma_view_of_entries(p@, 0);
                lemma_view_of_entries(q@, 0);
            }
            let ghost pv = view_of_entries(p@, 0);
            let ghost qv = view_of_entries(q@, 0);
            let n = p.len();
            if n != q.len() {
                return false;
            }
            let mut i: usize = 0;
            while i < n
                invariant
                    x@ == ValueView::Obj(pv),
                    y@ == ValueView::Obj(qv),
                    pv == view_of_entries(p@, 0),
                    qv == view_of_entries(q@, 0),
                    n == p@.len() == q@.len(),
                    pv.len() == n,
                    qv.len() == n,
                    forall|j: int| 0 <= j < p@.len() ==> pv[j] == (p@[j].0@, view_of(p@[j].1)),
                    forall|j: int| 0 <= j < q@.len() ==> qv[j] == (q@[j].0@, view_of(q@[j].1)),
                    i <= n,
                    forall|j: int| 0 <= j < i
                        ==> has_key(qv, (#[trigger] pv[j]).0) && eq_val(pv[j].1, lookup(qv, pv[j].0)),
                decreases n - i,
            {
                match find_key(q, &p[i].0) {
                    None => {
                        assert(!has_key(qv, pv[i as int].0)) by {
                            assert forall|jj: int| 0 <= jj < qv.len() implies
                                (#[trigger] qv[jj]).0 != pv[i as int].0 by {
                                assert(q@[jj].0@ != p@[i as int].0@);
                            }
                        }
                        return false;
                    },
                    Some(j) => {
                        proof {
                            assert forall|jj: int| 0 <= jj < j implies
                                (#[trigger] qv[jj]).0 != pv[i as int].0 by {
                                assert(q@[jj].0@ != p@[i as int].0@);
                            }
                            lemma_lookup_first(qv, pv[i as int].0, j as int);
                        }
                        if !value_eq(&p[i].1, &q[j].1) {
                            assert(!eq_val(pv[i as int].1, lookup(qv, pv[i as int].0)));
                            return false;
                        }
                    },
                }
                i += 1;
            }
            true
        },
        _ => {
            assert(!eq_val(x@, y@));
            false
        },
    }
}

/// A structural copy whose model is the same as the original's.
#[verifier::loop_isolation(false)]
pub fn clone_value(v: &Value) -> (r: Value)
    ensures
        r@ == v@,
    decreases v,
{
    match v {
        Value::Null => Value::Null,
        Value::Bool(b) => Value::Bool(*b),
        Value::Num(s) => Value::Num(s.clone()),
        Value::Str(s) => Value::Str(s.clone()),
        Value::Arr(a) => {
            proof {
                lemma_view_of_seq(a@, 0);
            }
            let n = a.len();
            let mut out: Vec<Value> = Vec::new();
            let mut i: usize = 0;
            while i < n
                invariant
                    v@ == ValueView::Arr(view_of_seq(a@, 0)),
                    n == a@.len(),
                    view_of_seq(a@, 0).len() == n,
                    forall|j: int| 0 <= j < a@.len()
                        ==> view_of_seq(a@, 0)[j] == view_of(a@[j]),
                    i <= n,
                    out@.len() == i,
                    forall|j: int| 0 <= j < i ==> view_of(#[trigger] out@[j]) == view_of(a@[j]),
                decreases n - i,
            {
                let e = clone_value(&a[i]);
                out.push(e);
                i += 1;
            }
            proof {
                lemma_view_of_seq(out@, 0);
                assert(view_of_seq(out@, 0) =~= view_of_seq(a@, 0));
            }
            Value::Arr(out)
        },
        Value::Obj(m) => {
            proof {
                lemma_view_of_entries(m@, 0);
            }
            let n = m.len();
            let mut out: Vec<(String, Value)> = Vec::new();
            let mut i: usize = 0;
            while i < n
                invariant
                    v@ == ValueView::Obj(view_of_entries(m@, 0)),
                    n == m@.len(),
                    view_of_entries(m@, 0).len() == n,
                    forall|j: int| 0 <= j < m@.len()
                        ==> view_of_entries(m@, 0)[j] == (m@[j].0@, view_of(m@[j].1)),
                    i <= n,
                    out@.len() == i,
                    forall|j: int| 0 <= j < i
                        ==> (#[trigger] out@[j]).0@ == m@[j].0@ && view_of(out@[j].1) == view_of(
                            m@[j].1,
                        ),
                decreases n - i,
            {
                let key = m[i].0.clone();
                let val = clone_value(&m[i].1);
                out.push((key, val));
                i += 1;
            }
            proof {
                lemma_view_of_entries(out@, 0);
                assert(view_of_entries(out@, 0) =~= view_of_entries(m@, 0));
            }
            Value::Obj(out)
        },
    }
}

} // verus!
