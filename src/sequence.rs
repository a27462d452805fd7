//! The capability shared by every sequence of the crate.
use vstd::prelude::*;
use crate::bounds::{bounds_hold, count_dec, within, Count};

verus! {

/// A lazy, pull-driven sequence of values.
///
/// Its abstract state is the count of elements still to come
/// (`remaining`, unbounded when `None`) and the element at each position
/// (`at`). Pulling yields the element at position 0 and shifts the rest.
pub trait Sequence: Sized {
    type Item;

    spec fn inv(&self) -> bool;

    spec fn remaining(&self) -> Count;

    spec fn at(&self, i: int) -> Self::Item;

    /// The bounds that `size_hint` reports in this state.
    spec fn hint(&self) -> (usize, Option<usize>);

    /// The reported bounds are truthful in every well-formed state.
    proof fn lemma_hint(&self)
        requires
            self.inv(),
        ensures
            bounds_hold(self.hint(), self.remaining()),
    ;

    fn next(&mut self) -> (r: Option<Self::Item>)
        requires
            old(self).inv(),
        ensures
            final(self).inv(),
            old(self).remaining() == Some(0nat) ==> r is None && final(self).remaining() == Some(0nat),
            old(self).remaining() != Some(0nat) ==> {
                &&& r == Some(old(self).at(0))
                &&& final(self).remaining() == count_dec(old(self).remaining())
                &&& forall|i: int| within(final(self).remaining(), i)
                    ==> #[trigger] final(self).at(i) == old(self).at(i + 1)
            },
    ;

    fn size_hint(&self) -> (r: (usize, Option<usize>))
        requires
            self.inv(),
        ensures
            r == self.hint(),
    ;
}

/// One pull from the front took `pre` to `post` and yielded `r`. Once the
/// sequence is at its end, it stays there.
pub open spec fn advanced<S: Sequence>(pre: S, post: S, r: Option<S::Item>) -> bool {
    &&& post.inv()
    &&& if pre.remaining() == Some(0nat) {
        r is None && post.remaining() == Some(0nat)
    } else {
        &&& r == Some(pre.at(0))
        &&& post.remaining() == count_dec(pre.remaining())
        &&& forall|i: int| within(post.remaining(), i) ==> #[trigger] post.at(i) == pre.at(i + 1)
    }
}

/// Bounds stay truthful through every pull, to the end: after any pull
/// from a well-formed state, the bounds reported for the new state hold of
/// what is left.
pub proof fn lemma_bounds_after_pull<S: Sequence>(pre: S, post: S, r: Option<S::Item>)
    requires
        pre.inv(),
        advanced(pre, post, r),
    ensures
        bounds_hold(post.hint(), post.remaining()),
        post.remaining() is Some ==> post.remaining().unwrap() <= pre.remaining().unwrap(),
{
    post.lemma_hint();
}

/// Once a sequence has ended, a pull yields nothing and leaves it ended.
pub proof fn lemma_end_is_final<S: Sequence>(pre: S, post: S, r: Option<S::Item>)
    requires
        pre.remaining() == Some(0nat),
        advanced(pre, post, r),
    ensures
        r is None,
        post.remaining() == Some(0nat),
{
}

/// One pull from the back took `pre` to `post` and yielded `r`.
pub open spec fn retreated<S: Sequence>(pre: S, post: S, r: Option<S::Item>) -> bool {
    &&& post.inv()
    &&& match pre.remaining() {
        Some(n) => if n == 0 {
            r is None && post.remaining() == Some(0nat)
        } else {
            &&& r == Some(pre.at(n - 1))
            &&& post.remaining() == Some((n - 1) as nat)
            &&& forall|i: int| 0 <= i < n - 1 ==> #[trigger] post.at(i) == pre.at(i)
        },
        None => false,
    }
}

/// `a` and `b` hold the same elements still to come.
pub open spec fn same_rest<S: Sequence>(a: S, b: S) -> bool {
    &&& a.remaining() == b.remaining()
    &&& forall|i: int| within(a.remaining(), i) ==> #[trigger] a.at(i) == b.at(i)
}

/// A finite sequence that can also be pulled from its back end.
pub trait BackSequence: Sequence {
    /// The exact number of elements left.
    fn len(&self) -> (r: usize)
        requires
            self.inv(),
        ensures
            self.remaining() == Some(r as nat),
    ;

    fn next_back(&mut self) -> (r: Option<Self::Item>)
        requires
            old(self).inv(),
        ensures
            retreated(*old(self), *final(self), r),
    ;
}

/// A finite sequence whose elements can be probed by position without
/// consuming them.
pub trait Indexed: Sequence {
    fn indexable(&self) -> (r: usize)
        requires
            self.inv(),
        ensures
            self.remaining() == Some(r as nat),
    ;

    fn idx(&self, i: usize) -> (r: Option<Self::Item>)
        requires
            self.inv(),
        ensures
            within(self.remaining(), i as int) ==> r == Some(self.at(i as int)),
            !within(self.remaining(), i as int) ==> r is None,
    ;
}

/// A sequence that can be copied into an independent one with the same
/// elements still to come.
pub trait Replay: Sequence {
    fn replay(&self) -> (r: Self)
        requires
            self.inv(),
        ensures
            r.inv(),
            same_rest(r, *self),
    ;
}

} // verus!
