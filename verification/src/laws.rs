//! Laws of the differ, stated over the specification functions and proved
//! once and for all.

use vstd::prelude::*;
use crate::value::{ValueView, wf_val, eq_val, lemma_eq_val_refl, has_key};
use crate::op::OpView;
use crate::diff::{diff_any_spec, diff_objects_spec, removals_of, add_pass, common_pass, dist_spec, pos_usize, Step};
use crate::keys::subtract_spec;

verus! {

/// Identity: diffing a well-formed value against itself yields no operations.
pub proof fn lemma_diff_identity(v: ValueView, ptr: Seq<char>)
    requires
        wf_val(v),
    ensures
        diff_any_spec(v, v, ptr) == Seq::<OpView>::empty(),
{
    lemma_eq_val_refl(v);
}

/// Replace minimality on shape change: two unequal values that are not both
/// sequences and not both mappings diff to a single whole-value replace
/// carrying the new value, whatever their nesting.
pub proof fn lemma_shape_mismatch_replace(x: ValueView, y: ValueView, ptr: Seq<char>)
    requires
        !eq_val(x, y),
        !(x is Arr && y is Arr),
        !(x is Obj && y is Obj),
    ensures
        diff_any_spec(x, y, ptr) == seq![OpView::Replace { path: ptr, value: y }],
{
}

/// Null exclusion: a mapping whose only member holds null and the empty
/// mapping diff to no operations, in either direction. A null member is as
/// good as absent to the removal and addition passes.
pub proof fn lemma_null_exclusion(k: Seq<char>, ptr: Seq<char>)
    ensures
        diff_any_spec(
            ValueView::Obj(seq![(k, ValueView::Null)]),
            ValueView::Obj(Seq::empty()),
            ptr,
        ) == Seq::<OpView>::empty(),
        diff_any_spec(
            ValueView::Obj(Seq::empty()),
            ValueView::Obj(seq![(k, ValueView::Null)]),
            ptr,
        ) == Seq::<OpView>::empty(),
{
    let p = seq![(k, ValueView::Null)];
    let q = Seq::<(Seq<char>, ValueView)>::empty();
    assert(p.drop_last() =~= q);
    assert(!eq_val(ValueView::Obj(p), ValueView::Obj(q)));
    assert(!eq_val(ValueView::Obj(q), ValueView::Obj(p)));
    assert(subtract_spec(q, q) =~= Seq::<Seq<char>>::empty());
    assert(subtract_spec(q, p) =~= Seq::<Seq<char>>::empty());
    assert(subtract_spec(p, q) =~= Seq::<Seq<char>>::empty());
    assert(removals_of(Seq::<Seq<char>>::empty(), ptr) =~= Seq::<OpView>::empty());
    assert(!has_key(q, k));
    assert(add_pass(q, p, ptr) =~= Seq::<OpView>::empty());
    assert(add_pass(q, q, ptr) =~= Seq::<OpView>::empty());
    assert(add_pass(p, q, ptr) =~= Seq::<OpView>::empty());
    assert(common_pass(q, q, ptr) =~= Seq::<OpView>::empty());
    assert(common_pass(q, p, ptr) =~= Seq::<OpView>::empty());
    assert(common_pass(p, q, ptr) =~= Seq::<OpView>::empty());
    assert(diff_objects_spec(p, q, ptr) =~= Seq::<OpView>::empty());
    assert(diff_objects_spec(q, p, ptr) =~= Seq::<OpView>::empty());
    assert(diff_any_spec(ValueView::Obj(p), ValueView::Obj(q), ptr) =~= Seq::<OpView>::empty());
    assert(diff_any_spec(ValueView::Obj(q), ValueView::Obj(p), ptr) =~= Seq::<OpView>::empty());
}

/// Tie-break determinism, first half: at a contested cell, if the remove
/// alternative is no longer than the add and the replace alternatives, the
/// aligner takes the remove.
pub proof fn lemma_tiebreak_remove_first(a: Seq<ValueView>, b: Seq<ValueView>, i: int, j: int)
    requires
        i > 0,
        j > 0,
        !eq_val(a[i - 1], b[j - 1]),
        dist_spec(a, b, i - 1, j).len() <= dist_spec(a, b, i, j - 1).len(),
        dist_spec(a, b, i - 1, j).len() <= dist_spec(a, b, i - 1, j - 1).len(),
    ensures
        dist_spec(a, b, i, j) == dist_spec(a, b, i - 1, j).push(
            Step::Remove { idx: (i - 1) as usize },
        ),
{
}

/// Tie-break determinism, second half: at a contested cell where the remove
/// alternative loses, if the add alternative is no longer than the replace
/// alternative, the aligner takes the add.
pub proof fn lemma_tiebreak_add_over_replace(a: Seq<ValueView>, b: Seq<ValueView>, i: int, j: int)
    requires
        i > 0,
        j > 0,
        !eq_val(a[i - 1], b[j - 1]),
        !(dist_spec(a, b, i - 1, j).len() <= dist_spec(a, b, i, j - 1).len() && dist_spec(
            a,
            b,
            i - 1,
            j,
        ).len() <= dist_spec(a, b, i - 1, j - 1).len()),
        dist_spec(a, b, i, j - 1).len() <= dist_spec(a, b, i - 1, j - 1).len(),
    ensures
        dist_spec(a, b, i, j) == dist_spec(a, b, i, j - 1).push(
            Step::Add { raw: pos_usize(i), src: (j - 1) as usize },
        ),
{
}

} // verus!
