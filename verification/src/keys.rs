//! Key-set operations over mapping entries: `subtract` and `intersection`,
//! the two passes the object differ is built from.

use vstd::prelude::*;
use crate::value::{
    Value, ValueView, view_of_entries, lemma_view_of_entries, has_key, is_null, find_key,
};

verus! {

/// The models of a list of keys.
pub open spec fn keys_view(s: Seq<String>) -> Seq<Seq<char>> {
    s.map(|i: int, k: String| k@)
}

/// The models of a list of mapping-entry lists.
pub open spec fn objects_view(s: Seq<Vec<(String, Value)>>) -> Seq<Seq<(Seq<char>, ValueView)>> {
    s.map(|i: int, o: Vec<(String, Value)>| view_of_entries(o@, 0))
}

/// Keys of `p`, in entry order, whose member value is not null and whose key
/// is absent from `q`. A member holding null counts as absent on both sides:
/// it is neither reported as removed nor as added.
pub open spec fn subtract_spec(
    p: Seq<(Seq<char>, ValueView)>,
    q: Seq<(Seq<char>, ValueView)>,
) -> Seq<Seq<char>>
    decreases p.len(),
{
    if p.len() == 0 {
        Seq::empty()
    } else {
        let rest = subtract_spec(p.drop_last(), q);
        if !(p.last().1 is Null) && !has_key(q, p.last().0) {
            rest.push(p.last().0)
        } else {
            rest
        }
    }
}

/// Whether every object in `objs` has a member named `k`.
pub open spec fn in_every(objs: Seq<Seq<(Seq<char>, ValueView)>>, k: Seq<char>) -> bool {
    forall|oi: int| 0 <= oi < objs.len() ==> #[trigger] has_key(objs[oi], k)
}

/// Keys of `first`, each at its first occurrence, that every object in `objs`
/// contains.
pub open spec fn inter_sel(
    first: Seq<(Seq<char>, ValueView)>,
    objs: Seq<Seq<(Seq<char>, ValueView)>>,
) -> Seq<Seq<char>>
    decreases first.len(),
{
    if first.len() == 0 {
        Seq::empty()
    } else {
        let rest = inter_sel(first.drop_last(), objs);
        if !has_key(first.drop_last(), first.last().0) && in_every(objs, first.last().0) {
            rest.push(first.last().0)
        } else {
            rest
        }
    }
}

/// Keys occurring in every object, in first-seen order, each exactly once.
/// A key in every object first occurs in the first one, so the selection
/// walks the first object's entries.
pub open spec fn intersection_spec(objs: Seq<Seq<(Seq<char>, ValueView)>>) -> Seq<Seq<char>> {
    if objs.len() == 0 {
        Seq::empty()
    } else {
        inter_sel(objs[0], objs)
    }
}

/// Keys of `minuend` whose member value is not null and that `subtrahend`
/// lacks, in `minuend`'s entry order.
#[verifier::loop_isolation(false)]
pub fn subtract(
    minuend: &Vec<(String, Value)>,
    subtrahend: &Vec<(String, Value)>,
) -> (keys: Vec<String>)
    ensures
        keys_view(keys@) == subtract_spec(
            view_of_entries(minuend@, 0),
            view_of_entries(subtrahend@, 0),
        ),
{
    proof {
        lemma_view_of_entries(minuend@, 0);
        lemma_view_of_entries(subtrahend@, 0);
    }
    let ghost mv = view_of_entries(minuend@, 0);
    let ghost sv = view_of_entries(subtrahend@, 0);
    let n = minuend.len();
    let mut keys: Vec<String> = Vec::new();
    proof {
        assert(keys_view(keys@) =~= subtract_spec(mv.take(0), sv));
    }
    let mut i: usize = 0;
    while i < n
        invariant
            i <= n,
            keys_view(keys@) == subtract_spec(mv.take(i as int), sv),
        decreases n - i,
    {
        let nul = is_null(&minuend[i].1);
        let fk = find_key(subtrahend, &minuend[i].0);
        proof {
            match fk {
                Some(j) => {
                    assert((sv[j as int]).0 == mv[i as int].0);
                    assert(has_key(sv, mv[i as int].0));
                },
                None => {
                    assert forall|jj: int| 0 <= jj < sv.len() implies (#[trigger] sv[jj]).0
                        != mv[i as int].0 by {
                        assert(subtrahend@[jj].0@ != minuend@[i as int].0@);
                    }
                },
            }
        }
        if !nul && fk.is_none() {
            keys.push(minuend[i].0.clone());
        }
        proof {
            assert(mv.take(i + 1).drop_last() =~= mv.take(i as int));
            assert(mv.take(i + 1).last() == mv[i as int]);
            assert(keys_view(keys@) =~= subtract_spec(mv.take(i + 1), sv));
        }
        i += 1;
    }
    proof {
        assert(mv.take(n as int) =~= mv);
    }
    keys
}

/// Keys present in every given object, in first-seen order, each once.
#[verifier::loop_isolation(false)]
pub fn intersection(objects: &Vec<Vec<(String, Value)>>) -> (keys: Vec<String>)
    ensures
        keys_view(keys@) == intersection_spec(objects_view(objects@)),
{
    let mut keys: Vec<String> = Vec::new();
    if objects.len() == 0 {
        proof {
            assert(keys_view(keys@) =~= intersection_spec(objects_view(objects@)));
        }
        return keys;
    }
    let ghost objsv = objects_view(objects@);
    let first = &objects[0];
    proof {
        lemma_view_of_entries(first@, 0);
        assert(objsv[0] == view_of_entries(first@, 0));
    }
    let ghost fv = view_of_entries(first@, 0);
    let n = first.len();
    let mut i: usize = 0;
    while i < n
        invariant
            i <= n,
            keys_view(keys@) == inter_sel(fv.take(i as int), objsv),
        decreases n - i,
    {
        // Is this the key's first occurrence?
        let fk = find_key(first, &first[i].0);
        let fresh = match fk {
            Some(j) => j == i,
            None => false,
        };
        proof {
            match fk {
                Some(j) => {
                    if j == i {
                        assert forall|jj: int| 0 <= jj < fv.take(i as int).len() implies
                            (#[trigger] fv.take(i as int)[jj]).0 != fv[i as int].0 by {
                            assert(first@[jj].0@ != first@[i as int].0@);
                        }
                        assert(!has_key(fv.take(i as int), fv[i as int].0));
                    } else {
                        assert(first@[i as int].0@ == first@[i as int].0@);
                        assert(j < i);
                        assert((fv.take(i as int)[j as int]).0 == fv[i as int].0);
                        assert(has_key(fv.take(i as int), fv[i as int].0));
                    }
                },
                None => {
                    assert(first@[i as int].0@ == first@[i as int].0@);
                    assert(false);
                },
            }
        }
        let mut all = true;
        let no = objects.len();
        let mut oi: usize = 0;
        while oi < no
            invariant
                oi <= no,
                all ==> forall|o: int| 0 <= o < oi ==> #[trigger] has_key(objsv[o], fv[i as int].0),
                !all ==> !in_every(objsv, fv[i as int].0),
            decreases no - oi,
        {
            proof {
                lemma_view_of_entries(objects@[oi as int]@, 0);
                assert(objsv[oi as int] == view_of_entries(objects@[oi as int]@, 0));
            }
            match find_key(&objects[oi], &first[i].0) {
                Some(j) => {
                    proof {
                        assert((objsv[oi as int][j as int]).0 == fv[i as int].0);
                        assert(has_key(objsv[oi as int], fv[i as int].0));
                    }
                },
                None => {
                    proof {
                        assert forall|jj: int| 0 <= jj < objsv[oi as int].len() implies
                            (#[trigger] objsv[oi as int][jj]).0 != fv[i as int].0 by {
                            assert(objects@[oi as int]@[jj].0@ != first@[i as int].0@);
                        }
                        assert(!has_key(objsv[oi as int], fv[i as int].0));
                    }
                    all = false;
                },
            }
            oi += 1;
        }
        if fresh && all {
            keys.push(first[i].0.clone());
        }
        proof {
            assert(fv.take(i + 1).drop_last() =~= fv.take(i as int));
            assert(fv.take(i + 1).last() == fv[i as int]);
            assert(keys_view(keys@) =~= inter_sel(fv.take(i + 1), objsv));
        }
        i += 1;
    }
    proof {
        assert(fv.take(n as int) =~= fv);
    }
    keys
}

} // verus!
