//! An immutable singly linked list whose cells are shared between lists.
use std::sync::Arc;

use vstd::prelude::*;

use crate::function::{clone_preserves, clones_seq};
use crate::maybe::Maybe;

verus! {

/// A cell of a non-empty list: its first element and the rest.
#[derive(Debug, Clone, PartialEq, Eq, PartialOrd, Ord, Hash, Default)]
pub struct ListNode<T> {
    head: T,
    tail: List<T>,
}

/// A linked list: empty (`Nil`) or a first element followed by a list.
#[derive(Debug, PartialEq, Eq, PartialOrd, Ord, Hash, Default)]
pub enum List<T> {
    #[default]
    Nil,
    Cons(Arc<ListNode<T>>),
}

/// Shares the cell behind `node`: `Arc::clone` gives another pointer to the
/// same allocation, so the result holds the same cell.
#[verifier::external_body]
fn share<T>(node: &Arc<ListNode<T>>) -> (r: Arc<ListNode<T>>)
    ensures
        r == *node,
{
    Arc::clone(node)
}

/// Takes the cell out of `node` when no other pointer shares it: per the
/// documentation of `Arc::try_unwrap`, `Ok` holds the inner value, and `Err`
/// gives back the same pointer. Which of the two happens depends on the
/// other pointers alive, which the contract does not state.
#[verifier::external_body]
fn try_unwrap<T>(node: Arc<ListNode<T>>) -> (r: Result<ListNode<T>, Arc<ListNode<T>>>)
    ensures
        match r {
            Ok(cell) => cell == *node,
            Err(same) => same == node,
        },
{
    Arc::try_unwrap(node)
}

impl<T> ListNode<T> {
    fn new(head: T, tail: List<T>) -> (r: Self)
        ensures
            r.head == head,
            r.tail == tail,
    {
        ListNode { head, tail }
    }

    /// The element held by this cell.
    pub closed spec fn spec_head(self) -> T {
        self.head
    }

    /// The list that follows this cell.
    pub closed spec fn spec_tail(self) -> List<T> {
        self.tail
    }

    /// The element held by this cell.
    pub fn head(&self) -> (r: &T)
        ensures
            *r == self.spec_head(),
    {
        &self.head
    }

    /// The list that follows this cell.
    pub fn tail(&self) -> (r: &List<T>)
        ensures
            *r == self.spec_tail(),
    {
        &self.tail
    }
}

impl<T> List<T> {
    /// The elements of the list, first to last.
    pub closed spec fn elems(self) -> Seq<T>
        decreases self,
    {
        match self {
            List::Nil => Seq::empty(),
            List::Cons(node) => seq![node.head].add(node.tail.elems()),
        }
    }

    /// The list with the elements of `s`, in order.
    pub closed spec fn from_seq(s: Seq<T>) -> List<T>
        decreases s.len(),
    {
        if s.len() == 0 {
            List::Nil
        } else {
            List::Cons(Arc::new(ListNode { head: s[0], tail: Self::from_seq(s.drop_first()) }))
        }
    }

    /// The list after the first cell (the empty list stays empty).
    pub closed spec fn spec_rest(self) -> List<T> {
        match self {
            List::Nil => List::Nil,
            List::Cons(node) => node.tail,
        }
    }

    /// A list is determined by its elements.
    pub proof fn lemma_from_seq_elems(self)
        ensures
            Self::from_seq(self.elems()) == self,
        decreases self.elems().len(),
    {
        if self is Cons {
            let tail = self.spec_rest();
            assert(self.elems().drop_first() =~= tail.elems());
            tail.lemma_from_seq_elems();
        }
    }

    /// `from_seq` builds a list with exactly the given elements.
    pub proof fn lemma_elems_from_seq(s: Seq<T>)
        ensures
            Self::from_seq(s).elems() == s,
        decreases s.len(),
    {
        if s.len() > 0 {
            Self::lemma_elems_from_seq(s.drop_first());
            assert(s =~= seq![s[0]].add(s.drop_first()));
        }
    }

    /// The elements of a non-empty list are those of its cell: the cell's
    /// element followed by the elements of the cell's tail.
    pub proof fn lemma_cons_elems(self)
        ensures
            self matches List::Cons(node) ==> self@ == seq![node.spec_head()] + node.spec_tail()@,
            self is Nil ==> self@ == Seq::<T>::empty(),
    {
    }

    /// The empty list has no elements.
    pub proof fn lemma_nil_elems()
        ensures
            List::<T>::Nil@ == Seq::<T>::empty(),
    {
        assert(List::<T>::Nil@ =~= Seq::<T>::empty());
    }

    /// Two lists with the same elements are equal.
    pub proof fn lemma_elems_injective(a: List<T>, b: List<T>)
        requires
            a@ == b@,
        ensures
            a == b,
    {
        a.lemma_from_seq_elems();
        b.lemma_from_seq_elems();
    }
}

impl<T> View for List<T> {
    type V = Seq<T>;

    open spec fn view(&self) -> Seq<T> {
        self.elems()
    }
}

impl<T> List<T> {
    /// The empty list.
    pub fn empty() -> (r: Self)
        ensures
            r@ == Seq::<T>::empty(),
    {
        List::Nil
    }

    /// The list with `head` in front of `tail`.
    pub fn cons(head: T, tail: List<T>) -> (r: Self)
        ensures
            r@ == seq![head] + tail@,
    {
        List::Cons(Arc::new(ListNode::new(head, tail)))
    }

    /// The list holding `head` alone.
    pub fn singleton(head: T) -> (r: Self)
        ensures
            r@ == seq![head],
    {
        let r = Self::cons(head, Self::empty());
        assert(r@ =~= seq![head]);
        r
    }

    /// The first element, if the list is not empty.
    pub fn head(&self) -> (r: Maybe<&T>)
        ensures
            self@.len() == 0 ==> r == Maybe::<&T>::Nothing,
            self@.len() > 0 ==> r == Maybe::Just(&self@[0]),
    {
        match self {
            List::Cons(node) => Maybe::Just(node.head()),
            List::Nil => Maybe::Nothing,
        }
    }

    /// The list without its first element, if the list is not empty.
    pub fn tail(&self) -> (r: Maybe<&List<T>>)
        ensures
            self@.len() == 0 ==> r == Maybe::<&List<T>>::Nothing,
            self@.len() > 0 ==> (r matches Maybe::Just(t) && t@ == self@.drop_first()),
    {
        match self {
            List::Cons(node) => {
                assert(self@.drop_first() =~= node.tail@);
                Maybe::Just(node.tail())
            },
            List::Nil => Maybe::Nothing,
        }
    }

}

impl<T: Clone> List<T> {
    /// The elements of `self` followed by those of `other`. The cells of
    /// `self` are rebuilt: an element whose cell no other list shares is
    /// moved, one in a shared cell is cloned. The cells of `other` are kept.
    pub fn append(self, other: List<T>) -> (r: List<T>)
        ensures
            r@.len() == self@.len() + other@.len(),
            clones_seq(self@, r@.take(self@.len() as int)),
            r@.skip(self@.len() as int) == other@,
        decreases self@.len(),
    {
        let ghost s0 = self@;
        match self.decompose() {
            Maybe::Just((head, tail)) => {
                let rest = tail.append(other);
                let r = List::cons(head, rest);
                proof {
                    assert(r@.skip(s0.len() as int) =~= rest@.skip(tail@.len() as int));
                    assert forall|i: int| 0 <= i < s0.len() implies cloned(
                        s0[i],
                        #[trigger] r@.take(s0.len() as int)[i],
                    ) by {
                        if i > 0 {
                            assert(s0[i] == tail@[i - 1]);
                            assert(r@.take(s0.len() as int)[i] == rest@.take(tail@.len() as int)[i - 1]);
                        }
                    }
                }
                r
            },
            Maybe::Nothing => {
                assert(other@.skip(0) =~= other@);
                other
            },
        }
    }

    /// Splits a non-empty list into its first element and the rest. The
    /// element is moved out when no other list shares the first cell, and
    /// cloned otherwise; the rest is shared.
    pub fn decompose(self) -> (r: Maybe<(T, List<T>)>)
        ensures
            self@.len() == 0 <==> r is Nothing,
            r matches Maybe::Just((h, t)) ==> cloned(self@[0], h) && t@ == self@.drop_first(),
    {
        match self {
            List::Cons(node) => {
                assert(self@.drop_first() =~= node.spec_tail()@);
                match try_unwrap(node) {
                    Ok(ListNode { head, tail }) => Maybe::Just((head, tail)),
                    Err(shared) => {
                        let head = shared.head.clone();
                        let tail = shared.tail.clone();
                        Maybe::Just((head, tail))
                    },
                }
            },
            List::Nil => Maybe::Nothing,
        }
    }
}

impl<T> Clone for List<T> {
    /// The same list: the first cell is shared, not copied.
    fn clone(&self) -> (r: Self)
        ensures
            r == *self,
    {
        match self {
            List::Nil => List::Nil,
            List::Cons(node) => List::Cons(share(node)),
        }
    }
}

impl<T> List<T> {
    /// Cloning a list gives back the same list.
    pub proof fn lemma_clone_preserves()
        ensures
            clone_preserves::<List<T>>(),
    {
        assert forall|a: List<T>, b: List<T>| #[trigger] cloned(a, b) implies a == b by {
            if vstd::pervasive::strictly_cloned(a, b) {
                assert(call_ensures(<List<T> as Clone>::clone, (&a,), b));
            }
        }
    }
}

impl<T> From<Vec<T>> for List<T> {
    /// The list of the vector's elements, in order.
    fn from(value: Vec<T>) -> (r: Self) {
        let ghost all = value@;
        let mut v = value;
        let mut l = List::empty();
        while v.len() > 0
            invariant
                v@ + l@ == all,
            decreases v.len(),
        {
            let ghost before = v@;
            let x = v.pop().unwrap();
            l = List::cons(x, l);
            assert(v@ + l@ =~= before + (l@.drop_first()));
        }
        assert(l@ =~= all);
        proof {
            l.lemma_from_seq_elems();
        }
        l
    }
}

impl<T> vstd::std_specs::convert::FromSpecImpl<Vec<T>> for List<T> {
    open spec fn obeys_from_spec() -> bool {
        true
    }

    open spec fn from_spec(v: Vec<T>) -> Self {
        List::from_seq(v@)
    }
}

/// The array's elements moved into a vector, in order: this is
/// `<Vec<T> as From<[T; N]>>::from`, which the standard library documents as
/// allocating a `Vec<T>` and moving the array's items into it.
#[verifier::external_body]
fn array_to_vec<T, const N: usize>(items: [T; N]) -> (r: Vec<T>)
    ensures
        r@ == items@,
{
    Vec::from(items)
}

impl<T, const N: usize> From<[T; N]> for List<T> {
    /// The list of the array's elements, in order.
    fn from(value: [T; N]) -> (r: Self) {
        List::from(array_to_vec(value))
    }
}

impl<T, const N: usize> vstd::std_specs::convert::FromSpecImpl<[T; N]> for List<T> {
    open spec fn obeys_from_spec() -> bool {
        true
    }

    open spec fn from_spec(v: [T; N]) -> Self {
        List::from_seq(v@)
    }
}

/// Marker for the instances of `List`.
#[derive(Debug, Clone, Copy, PartialEq, Eq, PartialOrd, Ord, Hash, Default)]
pub struct ListInstance;

} // verus!
