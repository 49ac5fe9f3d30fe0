//! The traversal of lists in the `List` applicative: every way of picking
//! one value from the result of the effect on each element.
//!
//! The values end up in fresh cells: each is taken out of its cell as
//! `List::decompose` does and then cloned once more for every row it starts,
//! so the contract relates them to the model by `clones_twice`.
use vstd::prelude::*;

use crate::function::{
    callable_on_clones, clone_preserves, clones_seq, computes, lemma_callable_drop_first, lemma_clones_seq_eq,
};
use crate::list::{List, ListInstance};
use crate::list_model::{list_views, prepend_each, seq_bind, seq_sequence_list, seq_traverse_list};
use crate::maybe::Maybe;

verus! {

/// `c` is a clone of a clone of `a` (each step may also keep the value).
pub open spec fn clones_twice<T: Clone>(a: T, c: T) -> bool {
    exists|b: T| #[trigger] cloned(a, b) && cloned(b, c)
}

/// `rs` has the shape of `ms`, and each value of `rs` is `clones_twice` of
/// the value of `ms` at the same place.
pub open spec fn rows_cloned<T: Clone>(ms: Seq<Seq<T>>, rs: Seq<Seq<T>>) -> bool {
    &&& rs.len() == ms.len()
    &&& forall|k: int| 0 <= k < ms.len() ==> (#[trigger] rs[k]).len() == ms[k].len()
    &&& forall|k: int, j: int|
        0 <= k < ms.len() && 0 <= j < ms[k].len() ==> clones_twice(ms[k][j], #[trigger] rs[k][j])
}

/// Where cloning gives back equal values, rows of clones are the rows.
pub proof fn lemma_rows_cloned_eq<T: Clone>(ms: Seq<Seq<T>>, rs: Seq<Seq<T>>)
    requires
        clone_preserves::<T>(),
        rows_cloned(ms, rs),
    ensures
        rs == ms,
{
    assert forall|k: int| 0 <= k < ms.len() implies #[trigger] rs[k] == ms[k] by {
        assert forall|j: int| 0 <= j < ms[k].len() implies rs[k][j] == ms[k][j] by {
            assert(clones_twice(ms[k][j], rs[k][j]));
            let b = choose|b: T| #[trigger] cloned(ms[k][j], b) && cloned(b, rs[k][j]);
            assert(cloned(ms[k][j], b));
        }
        assert(rs[k] =~= ms[k]);
    }
    assert(rs =~= ms);
}

proof fn lemma_rows_cloned_concat<T: Clone>(m1: Seq<Seq<T>>, m2: Seq<Seq<T>>, r1: Seq<Seq<T>>, r2: Seq<Seq<T>>)
    requires
        rows_cloned(m1, r1),
        rows_cloned(m2, r2),
    ensures
        rows_cloned(m1 + m2, r1 + r2),
{
    let m = m1 + m2;
    let r = r1 + r2;
    assert forall|k: int| 0 <= k < m.len() implies (#[trigger] r[k]).len() == m[k].len() by {
        if k >= m1.len() {
            assert(r[k] == r2[k - m1.len()]);
        }
    }
    assert forall|k: int, j: int| 0 <= k < m.len() && 0 <= j < m[k].len() implies clones_twice(
        m[k][j],
        #[trigger] r[k][j],
    ) by {
        if k < m1.len() {
            assert(r1[k][j] == r[k][j]);
        } else {
            assert(r2[k - m1.len()] == r[k]);
            assert(r2[k - m1.len()][j] == r[k][j]);
        }
    }
}

/// The lists of `ls`, each with a clone of `b` in front.
fn prepend_all<B: Clone>(b: &B, ls: List<List<B>>) -> (r: List<List<B>>)
    ensures
        r@.len() == ls@.len(),
        forall|k: int|
            0 <= k < ls@.len() ==> (#[trigger] r@[k])@.len() == ls@[k]@.len() + 1 && cloned(*b, r@[k]@[0])
                && r@[k]@.drop_first() == ls@[k]@,
    decreases ls@.len(),
{
    let ghost ls0 = ls@;
    match ls.decompose() {
        Maybe::Just((l, rest)) => {
            proof {
                List::<B>::lemma_clone_preserves();
            }
            let c = b.clone();
            let row = List::cons(c, l);
            let rows = prepend_all(b, rest);
            let r = List::cons(row, rows);
            proof {
                assert(row@.drop_first() =~= l@);
                assert forall|k: int| 0 <= k < ls0.len() implies (#[trigger] r@[k])@.len() == ls0[k]@.len() + 1
                    && cloned(*b, r@[k]@[0]) && r@[k]@.drop_first() == ls0[k]@ by {
                    if k > 0 {
                        assert(r@[k] == rows@[k - 1]);
                        assert(ls0[k] == rest@[k - 1]);
                    }
                }
            }
            r
        },
        Maybe::Nothing => List::empty(),
    }
}

/// For each value of `ys`, in order, the lists of `rest` with (a clone of)
/// that value in front; `model` is what the rows of `rest` stand for.
fn prepend_rows<B: Clone>(ys: List<B>, rest: &List<List<B>>, Ghost(model): Ghost<Seq<Seq<B>>>) -> (r: List<List<B>>)
    requires
        rows_cloned(model, list_views(rest@)),
    ensures
        rows_cloned(seq_bind(ys@, prepend_each(model)), list_views(r@)),
    decreases ys@.len(),
{
    let ghost ys0 = ys@;
    match ys.decompose() {
        Maybe::Just((b, more)) => {
            let ghost bg = b;
            let row = prepend_all(&b, rest.clone());
            let others = prepend_rows(more, rest, Ghost(model));
            let r = row.append(others);
            proof {
                List::<B>::lemma_clone_preserves();
                lemma_clones_seq_eq(row@, r@.take(row@.len() as int));
                assert(r@ =~= row@ + others@);
                assert(list_views(r@) =~= list_views(row@) + list_views(others@));
                let head_rows = prepend_each(model)(ys0[0]);
                assert forall|k: int| 0 <= k < head_rows.len() implies (#[trigger] list_views(row@)[k]).len()
                    == head_rows[k].len() by {
                    assert(list_views(rest@)[k] == rest@[k]@);
                    assert(list_views(row@)[k] == row@[k]@);
                    assert(head_rows[k] == seq![ys0[0]] + model[k]);
                }
                assert forall|k: int, j: int| 0 <= k < head_rows.len() && 0 <= j < head_rows[k].len() implies clones_twice(
                    head_rows[k][j],
                    #[trigger] list_views(row@)[k][j],
                ) by {
                    let rk = row@[k]@;
                    assert(list_views(row@)[k] == rk);
                    assert(list_views(rest@)[k] == rest@[k]@);
                    if j == 0 {
                        assert(cloned(ys0[0], bg) && cloned(bg, rk[0]));
                    } else {
                        assert(rk[j] == rk.drop_first()[j - 1]);
                        assert(head_rows[k][j] == model[k][j - 1]);
                        assert(clones_twice(model[k][j - 1], list_views(rest@)[k][j - 1]));
                    }
                }
                assert(rows_cloned(head_rows, list_views(row@)));
                lemma_rows_cloned_concat(head_rows, seq_bind(more@, prepend_each(model)), list_views(row@), list_views(others@));
                assert(more@ == ys0.drop_first());
            }
            r
        },
        Maybe::Nothing => {
            let r = List::empty();
            assert(list_views(r@) =~= Seq::<Seq<B>>::empty());
            r
        },
    }
}

/// `traverse_list` by reference to the mapping; also returns the clones it
/// was given and its results.
fn traverse_list_rec<A: Clone, B: Clone, G: Fn(A) -> List<B>>(map: &G, xs: List<A>) -> (r: (
    List<List<B>>,
    Ghost<(Seq<A>, Seq<List<B>>)>,
))
    requires
        callable_on_clones(*map, xs@),
    ensures
        clones_seq(xs@, r.1@.0),
        r.1@.1.len() == xs@.len(),
        forall|i: int| 0 <= i < xs@.len() ==> call_ensures(*map, (r.1@.0[i],), #[trigger] r.1@.1[i]),
        rows_cloned(seq_sequence_list(list_views(r.1@.1)), list_views(r.0@)),
    decreases xs@.len(),
{
    let ghost xs0 = xs@;
    match xs.decompose() {
        Maybe::Just((x, rest)) => {
            let ghost xg = x;
            assert(cloned(xs0[0], x));
            let y = map(x);
            let ghost yg = y;
            proof {
                lemma_callable_drop_first(*map, xs0);
            }
            let (ts, Ghost(run)) = traverse_list_rec(map, rest);
            let ghost model = seq_sequence_list(list_views(run.1));
            let r = prepend_rows(y, &ts, Ghost(model));
            let ghost args = seq![xg] + run.0;
            let ghost outs = seq![yg] + run.1;
            proof {
                assert(list_views(outs).drop_first() =~= list_views(run.1));
                assert(list_views(outs)[0] == yg@);
                assert forall|i: int| 0 <= i < xs0.len() implies cloned(xs0[i], #[trigger] args[i]) by {
                    if i > 0 {
                        assert(xs0[i] == rest@[i - 1]);
                        assert(args[i] == run.0[i - 1]);
                    }
                }
                assert forall|i: int| 0 <= i < xs0.len() implies call_ensures(*map, (args[i],), #[trigger] outs[i]) by {
                    if i > 0 {
                        assert(args[i] == run.0[i - 1]);
                        assert(outs[i] == run.1[i - 1]);
                    }
                }
            }
            (r, Ghost((args, outs)))
        },
        Maybe::Nothing => {
            let r = List::singleton(List::empty());
            proof {
                let ms = seq_sequence_list(list_views(Seq::<List<B>>::empty()));
                assert(list_views(Seq::<List<B>>::empty()) =~= Seq::<Seq<B>>::empty());
                assert(ms == seq![Seq::<B>::empty()]);
                assert(list_views(r@)[0] =~= Seq::<B>::empty());
                assert(list_views(r@) =~= ms);
                assert forall|k: int, j: int| 0 <= k < ms.len() && 0 <= j < ms[k].len() implies clones_twice(
                    ms[k][j],
                    #[trigger] list_views(r@)[k][j],
                ) by {}
            }
            (r, Ghost((Seq::empty(), Seq::empty())))
        },
    }
}

impl ListInstance {
    /// Traverses `container` with the effectful `map` in the `List`
    /// applicative: every list made by picking one value from the result of
    /// `map` on each element, in order, the choice for the first element
    /// varying slowest. `map` is applied to (a clone of) every element, in
    /// order.
    pub fn traverse_list<A: Clone, B: Clone, G: Fn(A) -> List<B>>(map: G, container: List<A>) -> (r: List<List<B>>)
        requires
            callable_on_clones(map, container@),
        ensures
            exists|args: Seq<A>, outs: Seq<List<B>>| #![trigger clones_seq(container@, args), outs.len()]
                {
                    &&& clones_seq(container@, args)
                    &&& outs.len() == container@.len()
                    &&& forall|i: int| 0 <= i < container@.len() ==> call_ensures(map, (args[i],), #[trigger] outs[i])
                    &&& rows_cloned(seq_sequence_list(list_views(outs)), list_views(r@))
                },
            forall|f: spec_fn(A) -> List<B>|
                clone_preserves::<A>() && clone_preserves::<B>() && computes(map, f) ==> list_views(r@)
                    == #[trigger] seq_traverse_list(container@, f),
    {
        let ghost c0 = container@;
        let (r, Ghost(run)) = traverse_list_rec(&map, container);
        let ghost args = run.0;
        let ghost outs = run.1;
        assert(clones_seq(c0, args));
        assert forall|f: spec_fn(A) -> List<B>|
            clone_preserves::<A>() && clone_preserves::<B>() && computes(map, f) implies list_views(r@)
            == #[trigger] seq_traverse_list(c0, f) by {
            lemma_clones_seq_eq(c0, args);
            assert forall|i: int| 0 <= i < c0.len() implies #[trigger] list_views(outs)[i] == c0.map_values(
                |a: A| f(a)@,
            )[i] by {
                assert(call_ensures(map, (args[i],), outs[i]));
            }
            assert(list_views(outs) =~= c0.map_values(|a: A| f(a)@));
            lemma_rows_cloned_eq(seq_sequence_list(list_views(outs)), list_views(r@));
        }
        r
    }
}

} // verus!
