//! Adaptors that hold one piece of state of their own: alternation,
//! mapping, batching, a put-back slot and the removal of consecutive
//! duplicates.
use vstd::prelude::*;
use crate::bounds::{
    bounds_hold, count_add, count_dec, lemma_sum_holds, sum_spec, within, Count,
};
use crate::sequence::{advanced, Sequence};
use vstd::std_specs::cmp::PartialEqSpec;

verus! {

/// Alternates between two sequences, taking from the other one when the
/// one whose turn it is has ended, until both have ended.
pub struct Interleave<I, J> {
    a: I,
    b: J,
    flag: bool,
}

impl<I: Sequence, J: Sequence<Item = I::Item>> Interleave<I, J> {
    pub closed spec fn first(&self) -> I {
        self.a
    }

    pub closed spec fn second(&self) -> J {
        self.b
    }

    /// The next pull asks the first sequence before the second one.
    pub closed spec fn first_turn(&self) -> bool {
        !self.flag
    }

    pub open spec fn inv(&self) -> bool {
        self.first().inv() && self.second().inv()
    }

    pub open spec fn remaining(&self) -> Count {
        count_add(self.first().remaining(), self.second().remaining())
    }

    pub fn new(a: I, b: J) -> (r: Self)
        ensures
            r.first() == a,
            r.second() == b,
            r.first_turn(),
    {
        Interleave { a, b, flag: false }
    }

    pub fn next(&mut self) -> (r: Option<I::Item>)
        requires
            old(self).inv(),
        ensures
            final(self).inv(),
            final(self).first_turn() == !old(self).first_turn(),
            old(self).first_turn() && old(self).first().remaining() != Some(0nat) ==> {
                &&& advanced(old(self).first(), final(self).first(), r)
                &&& final(self).second() == old(self).second()
            },
            old(self).first_turn() && old(self).first().remaining() == Some(0nat) ==> {
                &&& final(self).first().remaining() == Some(0nat)
                &&& advanced(old(self).second(), final(self).second(), r)
            },
            !old(self).first_turn() && old(self).second().remaining() != Some(0nat) ==> {
                &&& advanced(old(self).second(), final(self).second(), r)
                &&& final(self).first() == old(self).first()
            },
            !old(self).first_turn() && old(self).second().remaining() == Some(0nat) ==> {
                &&& final(self).second().remaining() == Some(0nat)
                &&& advanced(old(self).first(), final(self).first(), r)
            },
            final(self).remaining() == (if r is Some { count_dec(old(self).remaining()) } else { old(self).remaining() }),
            r is None <==> old(self).remaining() == Some(0nat),
    {
        self.flag = !self.flag;
        if self.flag {
            match self.a.next() {
                None => self.b.next(),
                r => r,
            }
        } else {
            match self.b.next() {
                None => self.a.next(),
                r => r,
            }
        }
    }

    pub fn size_hint(&self) -> (r: (usize, Option<usize>))
        requires
            self.inv(),
        ensures
            r == sum_spec(self.first().hint(), self.second().hint()),
            bounds_hold(r, self.remaining()),
    {
        proof {
            self.a.lemma_hint();
            self.b.lemma_hint();
            lemma_sum_holds(self.a.hint(), self.a.remaining(), self.b.hint(), self.b.remaining());
        }
        crate::bounds::combine_sum(self.a.size_hint(), self.b.size_hint())
    }
}

/// A sequence with a slot in front of it for one value put back.
pub struct PutBack<I: Sequence> {
    top: Option<I::Item>,
    iter: I,
}

impl<I: Sequence> PutBack<I> {
    pub closed spec fn slot(&self) -> Option<I::Item> {
        self.top
    }

    pub closed spec fn inner(&self) -> I {
        self.iter
    }

    pub fn new(it: I) -> (r: Self)
        ensures
            r.slot() is None,
            r.inner() == it,
    {
        PutBack { top: None, iter: it }
    }

    /// Puts `x` in front; a value already in the slot is overwritten.
    pub fn put_back(&mut self, x: I::Item)
        ensures
            final(self).slot() == Some(x),
            final(self).inner() == old(self).inner(),
    {
        self.top = Some(x)
    }
}

impl<I: Sequence> Sequence for PutBack<I> {
    type Item = I::Item;

    open spec fn inv(&self) -> bool {
        self.inner().inv()
    }

    open spec fn remaining(&self) -> Count {
        match self.slot() {
            Some(_) => count_add(Some(1nat), self.inner().remaining()),
            None => self.inner().remaining(),
        }
    }

    open spec fn at(&self, i: int) -> I::Item {
        match self.slot() {
            Some(x) => if i == 0 { x } else { self.inner().at(i - 1) },
            None => self.inner().at(i),
        }
    }

    open spec fn hint(&self) -> (usize, Option<usize>) {
        match self.slot() {
            Some(_) => sum_spec((1, Some(1)), self.inner().hint()),
            None => self.inner().hint(),
        }
    }

    proof fn lemma_hint(&self) {
        self.iter.lemma_hint();
        lemma_sum_holds((1, Some(1)), Some(1nat), self.iter.hint(), self.iter.remaining());
    }

    fn next(&mut self) -> (r: Option<I::Item>) {
        match self.top.take() {
            None => self.iter.next(),
            some => some,
        }
    }

    fn size_hint(&self) -> (r: (usize, Option<usize>)) {
        match self.top {
            Some(_) => crate::bounds::combine_sum((1, Some(1)), self.iter.size_hint()),
            None => self.iter.size_hint(),
        }
    }
}

/// Maps each element of a sequence through a function.
pub struct FnMap<I, F> {
    iter: I,
    map: F,
}

impl<B, I: Sequence, F: Fn(I::Item) -> B> FnMap<I, F> {
    pub closed spec fn inner(&self) -> I {
        self.iter
    }

    pub closed spec fn function(&self) -> F {
        self.map
    }

    /// The inner sequence is well formed and the function takes every element.
    pub open spec fn inv(&self) -> bool {
        &&& self.inner().inv()
        &&& forall|x: I::Item| #[trigger] self.function().requires((x,))
    }

    pub fn new(iter: I, map: F) -> (r: Self)
        ensures
            r.inner() == iter,
            r.function() == map,
    {
        FnMap { iter, map }
    }

    /// The image of the next inner element.
    pub fn next(&mut self) -> (r: Option<B>)
        requires
            old(self).inv(),
        ensures
            final(self).inv(),
            final(self).function() == old(self).function(),
            old(self).inner().remaining() == Some(0nat) ==> {
                &&& r is None
                &&& final(self).inner().remaining() == Some(0nat)
            },
            old(self).inner().remaining() != Some(0nat) ==> {
                &&& r is Some
                &&& old(self).function().ensures((old(self).inner().at(0),), r.unwrap())
                &&& final(self).inner().remaining() == count_dec(old(self).inner().remaining())
                &&& forall|i: int| within(final(self).inner().remaining(), i)
                    ==> #[trigger] final(self).inner().at(i) == old(self).inner().at(i + 1)
            },
    {
        let pulled = self.iter.next();
        proof {
            assert(self.map == old(self).map);
            assert(self.function() == old(self).function());
        }
        match pulled {
            Some(x) => {
                proof {
                    assert(old(self).function().requires((x,)));
                }
                Some((self.map)(x))
            },
            None => None,
        }
    }

    /// The bounds of the inner sequence: one image per element.
    pub fn size_hint(&self) -> (r: (usize, Option<usize>))
        requires
            self.inv(),
        ensures
            r == self.inner().hint(),
            bounds_hold(r, self.inner().remaining()),
    {
        proof {
            self.iter.lemma_hint();
        }
        self.iter.size_hint()
    }
}

/// A sequence whose every element is made by a function that may take as
/// many elements of the inner sequence as it likes.
pub struct Batching<I, F> {
    f: F,
    iter: I,
}

impl<B, I: Sequence, F: FnMut(&mut I) -> Option<B>> Batching<I, F> {
    pub closed spec fn function(&self) -> F {
        self.f
    }

    pub closed spec fn inner(&self) -> I {
        self.iter
    }

    pub fn new(iter: I, f: F) -> (r: Self)
        ensures
            r.inner() == iter,
            r.function() == f,
    {
        Batching { f, iter }
    }

    /// What the function makes of the inner sequence in its current state.
    pub fn next(&mut self) -> (r: Option<B>)
        requires
            forall|it: &mut I| #[trigger] old(self).function().requires((it,)),
        ensures
            exists|it: &mut I| {
                &&& *it == old(self).inner()
                &&& *final(it) == final(self).inner()
                &&& #[trigger] old(self).function().ensures((it,), r)
            },
    {
        proof {
            assert(self.f == old(self).function());
        }
        (self.f)(&mut self.iter)
    }

    /// Nothing is known of what the function takes or yields.
    pub fn size_hint(&self) -> (r: (usize, Option<usize>))
        ensures
            r == (0usize, None::<usize>),
    {
        (0, None)
    }
}

/// `x` repeats `last`, the element most recently yielded.
pub open spec fn repeats<T: PartialEq>(last: Option<T>, x: T) -> bool {
    match last {
        Some(y) => y.eq_spec(&x),
        None => false,
    }
}

/// A finite sequence with each run of consecutive equal elements cut down
/// to its first element.
pub struct Dedup<I: Sequence> {
    last: Option<I::Item>,
    iter: I,
}

impl<I: Sequence> Dedup<I> where I::Item: Copy + PartialEq {
    /// The element most recently yielded.
    pub closed spec fn last(&self) -> Option<I::Item> {
        self.last
    }

    pub closed spec fn inner(&self) -> I {
        self.iter
    }

    pub open spec fn inv(&self) -> bool {
        self.inner().inv() && self.inner().remaining() is Some
    }

    /// Position `k` of the inner sequence holds the next element to yield.
    pub open spec fn first_fresh(&self, k: int) -> bool {
        &&& within(self.inner().remaining(), k)
        &&& !repeats(self.last(), self.inner().at(k))
        &&& forall|j: int| 0 <= j < k ==> repeats(self.last(), #[trigger] self.inner().at(j))
    }

    pub fn new(iter: I) -> (r: Self)
        ensures
            r.last() is None,
            r.inner() == iter,
    {
        Dedup { last: None, iter }
    }

    /// Yields the next element that differs from the one yielded before it.
    pub fn next(&mut self) -> (r: Option<I::Item>)
        requires
            old(self).inv(),
            I::Item::obeys_eq_spec(),
        ensures
            final(self).inv(),
            r is Some ==> exists|k: int| {
                &&& #[trigger] old(self).first_fresh(k)
                &&& r == Some(old(self).inner().at(k))
                &&& final(self).last() == r
                &&& final(self).inner().remaining() == Some((old(self).inner().remaining().unwrap() - k - 1) as nat)
                &&& forall|i: int| within(final(self).inner().remaining(), i)
                    ==> #[trigger] final(self).inner().at(i) == old(self).inner().at(i + k + 1)
            },
            r is None ==> {
                &&& forall|j: int| within(old(self).inner().remaining(), j)
                    ==> repeats(old(self).last(), #[trigger] old(self).inner().at(j))
                &&& final(self).inner().remaining() == Some(0nat)
            },
    {
        let ghost start = self.iter;
        let ghost n = start.remaining().unwrap() as int;
        let ghost mut k: int = 0;
        loop
            invariant
                self.iter.inv(),
                I::Item::obeys_eq_spec(),
                start.remaining() == Some(n as nat),
                self.last == old(self).last,
                start == old(self).iter,
                0 <= k <= n,
                self.iter.remaining() == Some((n - k) as nat),
                forall|i: int| within(self.iter.remaining(), i) ==> #[trigger] self.iter.at(i) == start.at(i + k),
                forall|j: int| 0 <= j < k ==> repeats(self.last, #[trigger] start.at(j)),
            decreases n - k,
        {
            let ghost before = self.iter;
            match self.iter.next() {
                None => {
                    proof {
                        assert(n == k);
                    }
                    return None;
                },
                Some(x) => {
                    let fresh = match self.last {
                        Some(y) => !y.eq(&x),
                        None => true,
                    };
                    proof {
                        assert(x == start.at(k));
                        assert(fresh == !repeats(self.last, x));
                    }
                    if fresh {
                        self.last = Some(x);
                        proof {
                            assert(old(self).first_fresh(k));
                            assert forall|i: int| within(self.iter.remaining(), i)
                                implies #[trigger] self.iter.at(i) == start.at(i + k + 1) by {
                                assert(self.iter.at(i) == before.at(i + 1));
                            }
                        }
                        return Some(x);
                    }
                    proof {
                        assert(repeats(self.last, start.at(k)));
                        assert forall|i: int| within(self.iter.remaining(), i)
                            implies #[trigger] self.iter.at(i) == start.at(i + k + 1) by {
                            assert(self.iter.at(i) == before.at(i + 1));
                        }
                        k = k + 1;
                    }
                },
            }
        }
    }

    /// At least one element is to come when nothing was yielded yet and the
    /// inner sequence is not empty; the inner upper bound holds.
    pub fn size_hint(&self) -> (r: (usize, Option<usize>))
        requires
            self.inv(),
        ensures
            r.1 == self.inner().hint().1,
            r.0 == (if self.last() is None && self.inner().hint().0 > 0 { 1usize } else { 0usize }),
    {
        let (lower, upper) = self.iter.size_hint();
        if self.last.is_some() || lower == 0 {
            (0, upper)
        } else {
            (1, upper)
        }
    }
}

} // verus!
