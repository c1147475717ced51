//! The differencing engine: the structural dispatcher, the object differ and
//! the array differ (a dynamic-programming alignment over index pairs plus an
//! index-correction pass that accounts for drift as operations are applied).

use vstd::prelude::*;
use crate::value::{
    Value, ValueView, view_of, view_of_seq, view_of_entries, lemma_view_of_seq,
    lemma_view_of_entries, has_key, lookup, lemma_lookup_first, eq_val, value_eq, clone_value,
    find_key, is_null,
};
use crate::op::{PatchOperation, OpView, ops_view};
use crate::pointer::{index_token, joined, key_path, index_path};
use crate::keys::subtract_spec;

verus! {

/// One primitive alignment step, with indices into the original arrays:
/// remove `old[idx]`, insert `new[src]` at raw position `raw`, or replace
/// `old[idx]` by `new[src]`.
#[derive(Clone, Copy, Debug)]
pub enum Step {
    Remove { idx: usize },
    Add { raw: usize, src: usize },
    Replace { idx: usize, src: usize },
}

/// The non-negative part of `i`, as a position.
pub open spec fn pos_usize(i: int) -> usize {
    if i <= 0 {
        0
    } else {
        i as usize
    }
}

/// The minimum-length list of steps turning `a[0..i)` into `b[0..j)`. Among
/// equal-length alternatives, remove is preferred over add, and add over
/// replace.
pub open spec fn dist_spec(a: Seq<ValueView>, b: Seq<ValueView>, i: int, j: int) -> Seq<Step>
    decreases (if i <= 0 { 0int } else { i }) + (if j <= 0 { 0int } else { j }),
{
    if i <= 0 && j <= 0 {
        Seq::empty()
    } else if i > 0 && j > 0 && eq_val(a[i - 1], b[j - 1]) {
        dist_spec(a, b, i - 1, j - 1)
    } else if j <= 0 {
        dist_spec(a, b, i - 1, j).push(Step::Remove { idx: (i - 1) as usize })
    } else if i <= 0 {
        dist_spec(a, b, i, j - 1).push(Step::Add { raw: pos_usize(i), src: (j - 1) as usize })
    } else {
        let rem = dist_spec(a, b, i - 1, j).push(Step::Remove { idx: (i - 1) as usize });
        let add = dist_spec(a, b, i, j - 1).push(
            Step::Add { raw: pos_usize(i), src: (j - 1) as usize },
        );
        let rep = dist_spec(a, b, i - 1, j - 1).push(
            Step::Replace { idx: (i - 1) as usize, src: (j - 1) as usize },
        );
        if rem.len() <= add.len() && rem.len() <= rep.len() {
            rem
        } else if add.len() <= rep.len() {
            add
        } else {
            rep
        }
    }
}

/// The backpointer tag of a cell: which alternative the alignment takes there.
#[derive(Clone, Copy, Debug)]
pub enum Choice {
    Done,
    Diag,
    Rem,
    Add,
    Rep,
}

/// The tag the alignment assigns to cell `(i, j)`.
pub open spec fn choice_of(a: Seq<ValueView>, b: Seq<ValueView>, i: int, j: int) -> Choice {
    if i <= 0 && j <= 0 {
        Choice::Done
    } else if i > 0 && j > 0 && eq_val(a[i - 1], b[j - 1]) {
        Choice::Diag
    } else if j <= 0 {
        Choice::Rem
    } else if i <= 0 {
        Choice::Add
    } else {
        let lr = dist_spec(a, b, i - 1, j).len();
        let la = dist_spec(a, b, i, j - 1).len();
        let lp = dist_spec(a, b, i - 1, j - 1).len();
        if lr <= la && lr <= lp {
            Choice::Rem
        } else if la <= lp {
            Choice::Add
        } else {
            Choice::Rep
        }
    }
}

pub proof fn lemma_dist_len(a: Seq<ValueView>, b: Seq<ValueView>, i: int, j: int)
    ensures
        dist_spec(a, b, i, j).len() <= (if i <= 0 { 0int } else { i }) + (if j <= 0 {
            0int
        } else {
            j
        }),
    decreases (if i <= 0 { 0int } else { i }) + (if j <= 0 { 0int } else { j }),
{
    if i <= 0 && j <= 0 {
    } else if i > 0 && j > 0 && eq_val(a[i - 1], b[j - 1]) {
        lemma_dist_len(a, b, i - 1, j - 1);
    } else if j <= 0 {
        lemma_dist_len(a, b, i - 1, j);
    } else if i <= 0 {
        lemma_dist_len(a, b, i, j - 1);
    } else {
        lemma_dist_len(a, b, i - 1, j);
        lemma_dist_len(a, b, i, j - 1);
        lemma_dist_len(a, b, i - 1, j - 1);
    }
}

/// The operations for `steps[k..]`, applied after `k` earlier steps have
/// accumulated the index offset `drift`. An insertion's target is its raw
/// position corrected by the drift; one that lands at the live tail uses the
/// append token `-`; a replace recurses into the structural differ at the
/// corrected position.
pub open spec fn render_spec(
    a: Seq<ValueView>,
    b: Seq<ValueView>,
    ptr: Seq<char>,
    steps: Seq<Step>,
    k: int,
    drift: int,
) -> Seq<OpView>
    decreases a, b, 1int, steps.len() - k,
{
    if k < 0 || k >= steps.len() {
        Seq::empty()
    } else {
        match steps[k] {
            Step::Add { raw, src } => {
                let target = raw + drift;
                let token = if target < a.len() + drift {
                    index_token(target)
                } else {
                    seq!['-']
                };
                let value = if src < b.len() {
                    b[src as int]
                } else {
                    ValueView::Null
                };
                seq![OpView::Add { path: joined(ptr, token), value }] + render_spec(
                    a,
                    b,
                    ptr,
                    steps,
                    k + 1,
                    drift + 1,
                )
            },
            Step::Remove { idx } => {
                seq![OpView::Remove { path: joined(ptr, index_token(idx + drift)) }] + render_spec(
                    a,
                    b,
                    ptr,
                    steps,
                    k + 1,
                    drift - 1,
                )
            },
            Step::Replace { idx, src } => {
                let inner = if idx < a.len() && src < b.len() {
                    diff_any_spec(a[idx as int], b[src as int], joined(ptr, index_token(idx + drift)))
                } else {
                    Seq::empty()
                };
                inner + render_spec(a, b, ptr, steps, k + 1, drift)
            },
        }
    }
}

/// The operations of the array differ: the alignment for the full arrays,
/// rendered in application order with drift correction.
pub open spec fn diff_arrays_spec(a: Seq<ValueView>, b: Seq<ValueView>, ptr: Seq<char>) -> Seq<
    OpView,
>
    decreases a, b, 2int, 0int,
{
    render_spec(a, b, ptr, dist_spec(a, b, a.len() as int, b.len() as int), 0, 0)
}

/// `Remove` operations for `keys` under `ptr`, in order.
pub open spec fn removals_of(keys: Seq<Seq<char>>, ptr: Seq<char>) -> Seq<OpView>
    decreases keys.len(),
{
    if keys.len() == 0 {
        Seq::empty()
    } else {
        removals_of(keys.drop_last(), ptr).push(
            OpView::Remove { path: joined(ptr, keys.last()) },
        )
    }
}

/// `Add` operations, in `q`'s entry order, for the members of `q` that do not
/// hold null and whose key is absent from `p`.
pub open spec fn add_pass(
    q: Seq<(Seq<char>, ValueView)>,
    p: Seq<(Seq<char>, ValueView)>,
    ptr: Seq<char>,
) -> Seq<OpView>
    decreases q.len(),
{
    if q.len() == 0 {
        Seq::empty()
    } else {
        let rest = add_pass(q.drop_last(), p, ptr);
        if !(q.last().1 is Null) && !has_key(p, q.last().0) {
            rest.push(OpView::Add { path: joined(ptr, q.last().0), value: q.last().1 })
        } else {
            rest
        }
    }
}

/// Nested diffs, in `p`'s entry order, for the members `p` and `q` share.
pub open spec fn common_pass(
    p: Seq<(Seq<char>, ValueView)>,
    q: Seq<(Seq<char>, ValueView)>,
    ptr: Seq<char>,
) -> Seq<OpView>
    decreases p, q, 1int,
{
    if p.len() == 0 {
        Seq::empty()
    } else {
        common_pass(p.drop_last(), q, ptr) + (if has_key(q, p.last().0) {
            diff_any_spec(p.last().1, lookup(q, p.last().0), joined(ptr, p.last().0))
        } else {
            Seq::empty()
        })
    }
}

/// The operations of the object differ: removed keys, then added keys, then
/// the nested diffs of the shared keys. That fixed order is part of the
/// contract.
pub open spec fn diff_objects_spec(
    p: Seq<(Seq<char>, ValueView)>,
    q: Seq<(Seq<char>, ValueView)>,
    ptr: Seq<char>,
) -> Seq<OpView>
    decreases p, q, 2int,
{
    removals_of(subtract_spec(p, q), ptr) + add_pass(q, p, ptr) + common_pass(p, q, ptr)
}

/// The operations of the structural differ: nothing for deep-equal values,
/// the array or object differ for matching shapes, and a single whole-value
/// replace at `ptr` otherwise.
pub open spec fn diff_any_spec(x: ValueView, y: ValueView, ptr: Seq<char>) -> Seq<OpView>
    decreases x, y, 3int,
{
    if eq_val(x, y) {
        Seq::empty()
    } else {
        match (x, y) {
            (ValueView::Arr(a), ValueView::Arr(b)) => diff_arrays_spec(a, b, ptr),
            (ValueView::Obj(p), ValueView::Obj(q)) => diff_objects_spec(p, q, ptr),
            _ => seq![OpView::Replace { path: ptr, value: y }],
        }
    }
}

/// Fill the alignment table for `a` and `b`: one backpointer tag and one cost
/// per cell, filled iteratively so neither the recursion depth nor the cell
/// size grows with the input.
fn fill_table(a: &Vec<Value>, b: &Vec<Value>) -> (table: Vec<Vec<(Choice, u128)>>)
    ensures
        table@.len() == a@.len() + 1,
        forall|i: int| 0 <= i <= a@.len() ==> (#[trigger] table@[i])@.len() == b@.len() + 1,
        forall|i: int, j: int|
            0 <= i <= a@.len() && 0 <= j <= b@.len() ==> (#[trigger] table@[i]@[j]).0
                == choice_of(view_of_seq(a@, 0), view_of_seq(b@, 0), i, j) && table@[i]@[j].1
                == dist_spec(view_of_seq(a@, 0), view_of_seq(b@, 0), i, j).len(),
{
    proof {
        lemma_view_of_seq(a@, 0);
        lemma_view_of_seq(b@, 0);
    }
    let ghost av = view_of_seq(a@, 0);
    let ghost bv = view_of_seq(b@, 0);
    let n = a.len();
    let m = b.len();
    let mut table: Vec<Vec<(Choice, u128)>> = Vec::new();
    let mut i: usize = 0;
    loop
        invariant_except_break
            i <= n,
            table@.len() == i,
        invariant
            av == view_of_seq(a@, 0),
            bv == view_of_seq(b@, 0),
            n == a@.len(),
            m == b@.len(),
            av.len() == n,
            bv.len() == m,
            forall|d: int| 0 <= d < n ==> av[d] == view_of(a@[d]),
            forall|d: int| 0 <= d < m ==> bv[d] == view_of(b@[d]),
            table@.len() <= n + 1,
            forall|ii: int| 0 <= ii < table@.len() ==> (#[trigger] table@[ii])@.len() == m + 1,
            forall|ii: int, jj: int|
                0 <= ii < table@.len() && 0 <= jj <= m ==> (#[trigger] table@[ii]@[jj]).0
                    == choice_of(av, bv, ii, jj) && table@[ii]@[jj].1
                    == dist_spec(av, bv, ii, jj).len(),
        ensures
            table@.len() == n + 1,
        decreases n - i,
    {
        let mut row: Vec<(Choice, u128)> = Vec::new();
        let mut j: usize = 0;
        loop
            invariant_except_break
                j <= m,
                row@.len() == j,
            invariant
                av == view_of_seq(a@, 0),
                bv == view_of_seq(b@, 0),
                n == a@.len(),
                m == b@.len(),
                av.len() == n,
                bv.len() == m,
                forall|d: int| 0 <= d < n ==> av[d] == view_of(a@[d]),
                forall|d: int| 0 <= d < m ==> bv[d] == view_of(b@[d]),
                i <= n,
                table@.len() == i,
                forall|ii: int| 0 <= ii < i ==> (#[trigger] table@[ii])@.len() == m + 1,
                forall|ii: int, jj: int|
                    0 <= ii < i && 0 <= jj <= m ==> (#[trigger] table@[ii]@[jj]).0
                        == choice_of(av, bv, ii, jj) && table@[ii]@[jj].1
                        == dist_spec(av, bv, ii, jj).len(),
                forall|jj: int|
                    0 <= jj < row@.len() ==> (#[trigger] row@[jj]).0 == choice_of(
                        av,
                        bv,
                        i as int,
                        jj,
                    ) && row@[jj].1 == dist_spec(av, bv, i as int, jj).len(),
            ensures
                row@.len() == m + 1,
            decreases m - j,
        {
            proof {
                lemma_dist_len(av, bv, i as int, j as int);
                lemma_dist_len(av, bv, i as int - 1, j as int);
                lemma_dist_len(av, bv, i as int, j as int - 1);
                lemma_dist_len(av, bv, i as int - 1, j as int - 1);
            }
            let cell: (Choice, u128) = if i == 0 && j == 0 {
                (Choice::Done, 0)
            } else if i > 0 && j > 0 && value_eq(&a[i - 1], &b[j - 1]) {
                (Choice::Diag, table[i - 1][j - 1].1)
            } else if j == 0 {
                (Choice::Rem, table[i - 1][0].1 + 1)
            } else if i == 0 {
                (Choice::Add, row[j - 1].1 + 1)
            } else {
                let cr = table[i - 1][j].1 + 1;
                let ca = row[j - 1].1 + 1;
                let cp = table[i - 1][j - 1].1 + 1;
                if cr <= ca && cr <= cp {
                    (Choice::Rem, cr)
                } else if ca <= cp {
                    (Choice::Add, ca)
                } else {
                    (Choice::Rep, cp)
                }
            };
            proof {
                assert(cell.0 == choice_of(av, bv, i as int, j as int) && cell.1 == dist_spec(
                    av,
                    bv,
                    i as int,
                    j as int,
                ).len());
            }
            row.push(cell);
            if j == m {
                break;
            }
            j += 1;
        }
        table.push(row);
        if i == n {
            break;
        }
        i += 1;
    }
    table
}

/// Walk the backpointers from the last cell to the first and collect the
/// chosen steps in forward order.
#[verifier::loop_isolation(false)]
fn reconstruct(table: &Vec<Vec<(Choice, u128)>>, a: &Vec<Value>, b: &Vec<Value>) -> (steps: Vec<
    Step,
>)
    requires
        table@.len() == a@.len() + 1,
        forall|i: int| 0 <= i <= a@.len() ==> (#[trigger] table@[i])@.len() == b@.len() + 1,
        forall|i: int, j: int|
            0 <= i <= a@.len() && 0 <= j <= b@.len() ==> (#[trigger] table@[i]@[j]).0
                == choice_of(view_of_seq(a@, 0), view_of_seq(b@, 0), i, j),
    ensures
        steps@ == dist_spec(
            view_of_seq(a@, 0),
            view_of_seq(b@, 0),
            a@.len() as int,
            b@.len() as int,
        ),
{
    let ghost av = view_of_seq(a@, 0);
    let ghost bv = view_of_seq(b@, 0);
    let n = a.len();
    let m = b.len();
    let ghost total = dist_spec(av, bv, n as int, m as int);
    let mut steps: Vec<Step> = Vec::new();
    let mut ci = n;
    let mut cj = m;
    proof {
        assert(total =~= dist_spec(av, bv, ci as int, cj as int) + steps@);
    }
    while ci > 0 || cj > 0
        invariant
            ci <= n,
            cj <= m,
            total == dist_spec(av, bv, ci as int, cj as int) + steps@,
        decreases ci + cj,
    {
        let ghost steps0 = steps@;
        let tag = table[ci][cj].0;
        match tag {
            Choice::Done => {
                proof {
                    assert(false);
                }
            },
            Choice::Diag => {
                ci -= 1;
                cj -= 1;
            },
            Choice::Rem => {
                steps.insert(0, Step::Remove { idx: ci - 1 });
                proof {
                    assert(dist_spec(av, bv, ci as int, cj as int) == dist_spec(
                        av,
                        bv,
                        ci as int - 1,
                        cj as int,
                    ).push(Step::Remove { idx: (ci - 1) as usize }));
                    assert(dist_spec(av, bv, ci as int - 1, cj as int) + steps@ =~= dist_spec(
                        av,
                        bv,
                        ci as int,
                        cj as int,
                    ) + steps0);
                }
                ci -= 1;
            },
            Choice::Add => {
                steps.insert(0, Step::Add { raw: ci, src: cj - 1 });
                proof {
                    assert(dist_spec(av, bv, ci as int, cj as int) == dist_spec(
                        av,
                        bv,
                        ci as int,
                        cj as int - 1,
                    ).push(Step::Add { raw: pos_usize(ci as int), src: (cj - 1) as usize }));
                    assert(dist_spec(av, bv, ci as int, cj as int - 1) + steps@ =~= dist_spec(
                        av,
                        bv,
                        ci as int,
                        cj as int,
                    ) + steps0);
                }
                cj -= 1;
            },
            Choice::Rep => {
                steps.insert(0, Step::Replace { idx: ci - 1, src: cj - 1 });
                proof {
                    assert(dist_spec(av, bv, ci as int, cj as int) == dist_spec(
                        av,
                        bv,
                        ci as int - 1,
                        cj as int - 1,
                    ).push(Step::Replace { idx: (ci - 1) as usize, src: (cj - 1) as usize }));
                    assert(dist_spec(av, bv, ci as int - 1, cj as int - 1) + steps@ =~= dist_spec(
                        av,
                        bv,
                        ci as int,
                        cj as int,
                    ) + steps0);
                }
                ci -= 1;
                cj -= 1;
            },
        }
    }
    proof {
        assert(steps@ =~= total);
    }
    steps
}

/// Render the steps in order, tracking the drift that earlier insertions and
/// removals impose on live positions.
#[verifier::loop_isolation(false)]
fn render_steps(a: &Vec<Value>, b: &Vec<Value>, steps: &Vec<Step>, ptr: &str) -> (ops: Vec<
    PatchOperation,
>)
    ensures
        ops_view(ops@) == render_spec(
            view_of_seq(a@, 0),
            view_of_seq(b@, 0),
            ptr@,
            steps@,
            0,
            0,
        ),
    decreases a, b, 1int, 0int,
{
    proof {
        lemma_view_of_seq(a@, 0);
        lemma_view_of_seq(b@, 0);
    }
    let ghost av = view_of_seq(a@, 0);
    let ghost bv = view_of_seq(b@, 0);
    let n = a.len();
    let m = b.len();
    let mut ops: Vec<PatchOperation> = Vec::new();
    let mut drift: i128 = 0;
    let mut k: usize = 0;
    proof {
        assert(ops_view(ops@) + render_spec(av, bv, ptr@, steps@, 0, 0) =~= render_spec(
            av,
            bv,
            ptr@,
            steps@,
            0,
            0,
        ));
    }
    while k < steps.len()
        invariant
            k <= steps@.len(),
            -(k as int) <= drift as int <= k as int,
            ops_view(ops@) + render_spec(av, bv, ptr@, steps@, k as int, drift as int)
                == render_spec(av, bv, ptr@, steps@, 0, 0),
        decreases steps@.len() - k,
    {
        let ghost ops0 = ops@;
        let ghost drift0 = drift as int;
        let st = steps[k];
        match st {
            Step::Add { raw, src } => {
                let target: i128 = raw as i128 + drift;
                let value = if src < m {
                    clone_value(&b[src])
                } else {
                    Value::Null
                };
                let path = if target < n as i128 + drift {
                    index_path(ptr, target)
                } else {
                    key_path(ptr, "-")
                };
                ops.push(PatchOperation::Add { path, value });
                proof {
                    reveal_strlit("-");
                    assert("-"@ =~= seq!['-']);
                    assert(ops_view(ops@) + render_spec(
                        av,
                        bv,
                        ptr@,
                        steps@,
                        k as int + 1,
                        drift0 + 1,
                    ) =~= ops_view(ops0) + render_spec(av, bv, ptr@, steps@, k as int, drift0));
                }
                drift += 1;
            },
            Step::Remove { idx } => {
                let target: i128 = idx as i128 + drift;
                let path = index_path(ptr, target);
                ops.push(PatchOperation::Remove { path });
                proof {
                    assert(ops_view(ops@) + render_spec(
                        av,
                        bv,
                        ptr@,
                        steps@,
                        k as int + 1,
                        drift0 - 1,
                    ) =~= ops_view(ops0) + render_spec(av, bv, ptr@, steps@, k as int, drift0));
                }
                drift -= 1;
            },
            Step::Replace { idx, src } => {
                if idx < n && src < m {
                    let target: i128 = idx as i128 + drift;
                    let p = index_path(ptr, target);
                    let mut sub = diff_any(&a[idx], &b[src], p.as_str());
                    let ghost subv = sub@;
                    ops.append(&mut sub);
                    proof {
                        assert(ops_view(subv) =~= diff_any_spec(
                            av[idx as int],
                            bv[src as int],
                            joined(ptr@, index_token(idx + drift0)),
                        ));
                        assert(ops_view(ops@) =~= ops_view(ops0) + ops_view(subv));
                    }
                }
                proof {
                    assert(ops_view(ops@) + render_spec(
                        av,
                        bv,
                        ptr@,
                        steps@,
                        k as int + 1,
                        drift0,
                    ) =~= ops_view(ops0) + render_spec(av, bv, ptr@, steps@, k as int, drift0));
                }
            },
        }
        k += 1;
    }
    proof {
        assert(ops_view(ops@) =~= render_spec(av, bv, ptr@, steps@, 0, 0));
    }
    ops
}

/// The array differ: a minimum-length alignment of the two arrays, rendered
/// as operations in application order with drift-corrected indices.
#[verifier::loop_isolation(false)]
pub fn diff_arrays(a: &Vec<Value>, b: &Vec<Value>, ptr: &str) -> (ops: Vec<PatchOperation>)
    ensures
        ops_view(ops@) == diff_arrays_spec(view_of_seq(a@, 0), view_of_seq(b@, 0), ptr@),
    decreases a, b, 2int, 0int,
{
    proof {
        lemma_view_of_seq(a@, 0);
        lemma_view_of_seq(b@, 0);
    }
    let table = fill_table(a, b);
    let steps = reconstruct(&table, a, b);
    let ops = render_steps(a, b, &steps, ptr);
    proof {
        assert(ops_view(ops@) == diff_arrays_spec(view_of_seq(a@, 0), view_of_seq(b@, 0), ptr@));
    }
    ops
}

proof fn lemma_removals_push(ks: Seq<Seq<char>>, k: Seq<char>, ptr: Seq<char>)
    ensures
        removals_of(ks.push(k), ptr) == removals_of(ks, ptr).push(
            OpView::Remove { path: joined(ptr, k) },
        ),
{
    assert(ks.push(k).drop_last() =~= ks);
    assert(ks.push(k).last() == k);
}

/// The object differ: removed keys, then added keys, then nested diffs of
/// shared keys, each pass in entry order. A member holding null is treated as
/// absent by the first two passes.
#[verifier::loop_isolation(false)]
pub fn diff_objects(
    p: &Vec<(String, Value)>,
    q: &Vec<(String, Value)>,
    ptr: &str,
) -> (ops: Vec<PatchOperation>)
    ensures
        ops_view(ops@) == diff_objects_spec(
            view_of_entries(p@, 0),
            view_of_entries(q@, 0),
            ptr@,
        ),
    decreases p, q, 2int, 0int,
{
    proof {
        lemma_view_of_entries(p@, 0);
        lemma_view_of_entries(q@, 0);
    }
    let ghost pv = view_of_entries(p@, 0);
    let ghost qv = view_of_entries(q@, 0);
    let np = p.len();
    let nq = q.len();
    let mut ops: Vec<PatchOperation> = Vec::new();

    // Pass one: members removed from `p`.
    let mut i: usize = 0;
    proof {
        assert(ops_view(ops@) =~= removals_of(subtract_spec(pv.take(0), qv), ptr@));
    }
    while i < np
        invariant
            i <= np,
            ops_view(ops@) == removals_of(subtract_spec(pv.take(i as int), qv), ptr@),
        decreases np - i,
    {
        let ghost ops0 = ops@;
        let nul = is_null(&p[i].1);
        let fk = find_key(q, &p[i].0);
        proof {
            match fk {
                Some(j) => {
                    assert((qv[j as int]).0 == pv[i as int].0);
                    assert(has_key(qv, pv[i as int].0));
                },
                None => {
                    assert forall|jj: int| 0 <= jj < qv.len() implies (#[trigger] qv[jj]).0
                        != pv[i as int].0 by {
                        assert(q@[jj].0@ != p@[i as int].0@);
                    }
                },
            }
        }
        if !nul && fk.is_none() {
            let path = key_path(ptr, &p[i].0);
            ops.push(PatchOperation::Remove { path });
            proof {
                assert(pv.take(i + 1).drop_last() =~= pv.take(i as int));
                assert(pv.take(i + 1).last() == pv[i as int]);
                assert(subtract_spec(pv.take(i + 1), qv) == subtract_spec(
                    pv.take(i as int),
                    qv,
                ).push(pv[i as int].0));
                lemma_removals_push(subtract_spec(pv.take(i as int), qv), pv[i as int].0, ptr@);
                assert(ops_view(ops@) =~= ops_view(ops0).push(
                    OpView::Remove { path: joined(ptr@, pv[i as int].0) },
                ));
            }
        } else {
            proof {
                assert(pv.take(i + 1).drop_last() =~= pv.take(i as int));
                assert(pv.take(i + 1).last() == pv[i as int]);
                assert(subtract_spec(pv.take(i + 1), qv) == subtract_spec(pv.take(i as int), qv));
            }
        }
        proof {
            assert(ops_view(ops@) == removals_of(subtract_spec(pv.take(i + 1), qv), ptr@));
        }
        i += 1;
    }
    proof {
        assert(pv.take(np as int) =~= pv);
    }

    // Pass two: members added in `q`.
    let ghost removes = removals_of(subtract_spec(pv, qv), ptr@);
    let mut i2: usize = 0;
    proof {
        assert(ops_view(ops@) =~= removes + add_pass(qv.take(0), pv, ptr@));
    }
    while i2 < nq
        invariant
            i2 <= nq,
            ops_view(ops@) == removes + add_pass(qv.take(i2 as int), pv, ptr@),
        decreases nq - i2,
    {
        let ghost ops0 = ops@;
        let nul = is_null(&q[i2].1);
        let fk = find_key(p, &q[i2].0);
        proof {
            match fk {
                Some(j) => {
                    assert((pv[j as int]).0 == qv[i2 as int].0);
                    assert(has_key(pv, qv[i2 as int].0));
                },
                None => {
                    assert forall|jj: int| 0 <= jj < pv.len() implies (#[trigger] pv[jj]).0
                        != qv[i2 as int].0 by {
                        assert(p@[jj].0@ != q@[i2 as int].0@);
                    }
                },
            }
        }
        if !nul && fk.is_none() {
            let path = key_path(ptr, &q[i2].0);
            let value = clone_value(&q[i2].1);
            ops.push(PatchOperation::Add { path, value });
            proof {
                assert(qv.take(i2 + 1).drop_last() =~= qv.take(i2 as int));
                assert(qv.take(i2 + 1).last() == qv[i2 as int]);
                assert(add_pass(qv.take(i2 + 1), pv, ptr@) == add_pass(
                    qv.take(i2 as int),
                    pv,
                    ptr@,
                ).push(
                    OpView::Add { path: joined(ptr@, qv[i2 as int].0), value: qv[i2 as int].1 },
                ));
                assert(ops_view(ops@) =~= ops_view(ops0).push(
                    OpView::Add { path: joined(ptr@, qv[i2 as int].0), value: qv[i2 as int].1 },
                ));
                assert(ops_view(ops@) =~= removes + add_pass(qv.take(i2 + 1), pv, ptr@));
            }
        } else {
            proof {
                assert(qv.take(i2 + 1).drop_last() =~= qv.take(i2 as int));
                assert(qv.take(i2 + 1).last() == qv[i2 as int]);
                assert(add_pass(qv.take(i2 + 1), pv, ptr@) == add_pass(qv.take(i2 as int), pv, ptr@));
            }
        }
        proof {
            assert(ops_view(ops@) == removes + add_pass(qv.take(i2 + 1), pv, ptr@));
        }
        i2 += 1;
    }
    proof {
        assert(qv.take(nq as int) =~= qv);
    }

    // Pass three: nested diffs for the members both mappings share.
    let ghost adds = add_pass(qv, pv, ptr@);
    let mut i3: usize = 0;
    proof {
        assert(ops_view(ops@) =~= removes + adds + common_pass(pv.take(0), qv, ptr@));
    }
    while i3 < np
        invariant
            i3 <= np,
            ops_view(ops@) == removes + adds + common_pass(pv.take(i3 as int), qv, ptr@),
        decreases np - i3,
    {
        let ghost ops0 = ops@;
        let fk = find_key(q, &p[i3].0);
        match fk {
            Some(j) => {
                proof {
                    assert((qv[j as int]).0 == pv[i3 as int].0);
                    assert(has_key(qv, pv[i3 as int].0));
                    assert forall|jj: int| 0 <= jj < j implies (#[trigger] qv[jj]).0
                        != pv[i3 as int].0 by {
                        assert(q@[jj].0@ != p@[i3 as int].0@);
                    }
                    lemma_lookup_first(qv, pv[i3 as int].0, j as int);
                }
                let path = key_path(ptr, &p[i3].0);
                let mut sub = diff_any(&p[i3].1, &q[j].1, path.as_str());
                let ghost subv = sub@;
                ops.append(&mut sub);
                proof {
                    assert(pv.take(i3 + 1).drop_last() =~= pv.take(i3 as int));
                    assert(pv.take(i3 + 1).last() == pv[i3 as int]);
                    assert(ops_view(subv) == diff_any_spec(
                        pv[i3 as int].1,
                        lookup(qv, pv[i3 as int].0),
                        joined(ptr@, pv[i3 as int].0),
                    ));
                    assert(common_pass(pv.take(i3 + 1), qv, ptr@) == common_pass(
                        pv.take(i3 as int),
                        qv,
                        ptr@,
                    ) + diff_any_spec(
                        pv[i3 as int].1,
                        lookup(qv, pv[i3 as int].0),
                        joined(ptr@, pv[i3 as int].0),
                    ));
                    assert(ops_view(ops@) =~= ops_view(ops0) + ops_view(subv));
                    assert(ops_view(ops@) =~= removes + adds + common_pass(
                        pv.take(i3 + 1),
                        qv,
                        ptr@,
                    ));
                }
            },
            None => {
                proof {
                    assert forall|jj: int| 0 <= jj < qv.len() implies (#[trigger] qv[jj]).0
                        != pv[i3 as int].0 by {
                        assert(q@[jj].0@ != p@[i3 as int].0@);
                    }
                    assert(pv.take(i3 + 1).drop_last() =~= pv.take(i3 as int));
                    assert(pv.take(i3 + 1).last() == pv[i3 as int]);
                    assert(common_pass(pv.take(i3 + 1), qv, ptr@) =~= common_pass(
                        pv.take(i3 as int),
                        qv,
                        ptr@,
                    ));
                }
            },
        }
        proof {
            assert(ops_view(ops@) == removes + adds + common_pass(pv.take(i3 + 1), qv, ptr@));
        }
        i3 += 1;
    }
    proof {
        assert(pv.take(np as int) =~= pv);
        assert(ops_view(ops@) =~= diff_objects_spec(pv, qv, ptr@));
    }
    ops
}

/// The structural differ: the top-level entry point. Deep-equal values yield
/// no operations; two sequences or two mappings are delegated; any other pair
/// becomes a single whole-value replace at `ptr`.
pub fn diff_any(input: &Value, output: &Value, ptr: &str) -> (ops: Vec<PatchOperation>)
    ensures
        ops_view(ops@) == diff_any_spec(input@, output@, ptr@),
    decreases input, output, 3int, 0int,
{
    if value_eq(input, output) {
        let ops: Vec<PatchOperation> = Vec::new();
        proof {
            assert(ops_view(ops@) =~= diff_any_spec(input@, output@, ptr@));
        }
        return ops;
    }
    match (input, output) {
        (Value::Arr(a), Value::Arr(b)) => {
            let ops = diff_arrays(a, b, ptr);
            proof {
                assert(ops_view(ops@) == diff_any_spec(input@, output@, ptr@));
            }
            ops
        },
        (Value::Obj(p), Value::Obj(q)) => {
            let ops = diff_objects(p, q, ptr);
            proof {
                assert(ops_view(ops@) == diff_any_spec(input@, output@, ptr@));
            }
            ops
        },
        _ => {
            let mut ops: Vec<PatchOperation> = Vec::new();
            let path = ptr.to_owned();
            let value = clone_value(output);
            ops.push(PatchOperation::Replace { path, value });
            proof {
                assert(ops_view(ops@) =~= diff_any_spec(input@, output@, ptr@));
            }
            ops
        },
    }
}

} // verus!
