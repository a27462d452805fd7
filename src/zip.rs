//! Lockstep composition: `Zip` stops at the first member that ends,
//! `ZipLongest` goes on until both have ended and tags what it yields.
use vstd::prelude::*;
use crate::bounds::{
    count_max, count_min, is_exact, lemma_max_holds, lemma_min_holds,
    max_spec, min_spec, within, Count,
};
use crate::sequence::{BackSequence, Indexed, Sequence};
use crate::sources::VecSeq;

verus! {

/// Two sequences advanced together, yielding pairs until either ends.
#[derive(Clone, Debug)]
pub struct Zip<A, B> {
    a: A,
    b: B,
}

impl<A: Sequence, B: Sequence> Zip<A, B> {
    /// The first member in its current state.
    pub closed spec fn first(&self) -> A {
        self.a
    }

    /// The second member in its current state.
    pub closed spec fn second(&self) -> B {
        self.b
    }

    pub fn new(a: A, b: B) -> (r: Self)
        ensures
            r.first() == a,
            r.second() == b,
    {
        Zip { a, b }
    }
}

impl<A: Sequence, B: Sequence> Sequence for Zip<A, B> {
    type Item = (A::Item, B::Item);

    open spec fn inv(&self) -> bool {
        self.first().inv() && self.second().inv()
    }

    open spec fn remaining(&self) -> Count {
        count_min(self.first().remaining(), self.second().remaining())
    }

    open spec fn at(&self, i: int) -> (A::Item, B::Item) {
        (self.first().at(i), self.second().at(i))
    }

    open spec fn hint(&self) -> (usize, Option<usize>) {
        min_spec(self.first().hint(), self.second().hint())
    }

    proof fn lemma_hint(&self) {
        self.a.lemma_hint();
        self.b.lemma_hint();
        lemma_min_holds(self.a.hint(), self.a.remaining(), self.b.hint(), self.b.remaining());
    }

    fn next(&mut self) -> (r: Option<(A::Item, B::Item)>) {
        match self.a.next() {
            None => None,
            Some(x) => match self.b.next() {
                None => None,
                Some(y) => Some((x, y)),
            },
        }
    }

    fn size_hint(&self) -> (r: (usize, Option<usize>)) {
        crate::bounds::combine_min(self.a.size_hint(), self.b.size_hint())
    }
}

/// Pulls `s` from the back until `n` elements are left.
fn trim_back<S: BackSequence>(s: &mut S, len: usize, n: usize)
    requires
        old(s).inv(),
        old(s).remaining() == Some(len as nat),
        n <= len,
    ensures
        final(s).inv(),
        final(s).remaining() == Some(n as nat),
        forall|i: int| 0 <= i < n ==> #[trigger] final(s).at(i) == old(s).at(i),
{
    let mut k: usize = len;
    while k > n
        invariant
            s.inv(),
            n <= k <= len,
            s.remaining() == Some(k as nat),
            forall|i: int| 0 <= i < k ==> #[trigger] s.at(i) == old(s).at(i),
        decreases k,
    {
        let _ = s.next_back();
        k = k - 1;
    }
}

impl<A: BackSequence, B: BackSequence> BackSequence for Zip<A, B> {
    fn len(&self) -> (r: usize) {
        let la = self.a.len();
        let lb = self.b.len();
        if la <= lb { la } else { lb }
    }

    /// The longer member is first cut to the length of the shorter one, so
    /// that the pair taken from the back is the last pair of the zip.
    fn next_back(&mut self) -> (r: Option<(A::Item, B::Item)>) {
        let la = self.a.len();
        let lb = self.b.len();
        if la > lb {
            trim_back(&mut self.a, la, lb);
        } else if lb > la {
            trim_back(&mut self.b, lb, la);
        }
        match self.a.next_back() {
            None => None,
            Some(x) => match self.b.next_back() {
                None => None,
                Some(y) => Some((x, y)),
            },
        }
    }
}

impl<A: Indexed, B: Indexed> Indexed for Zip<A, B> {
    fn indexable(&self) -> (r: usize) {
        let la = self.a.indexable();
        let lb = self.b.indexable();
        if la <= lb { la } else { lb }
    }

    fn idx(&self, i: usize) -> (r: Option<(A::Item, B::Item)>) {
        match (self.a.idx(i), self.b.idx(i)) {
            (Some(x), Some(y)) => Some((x, y)),
            _ => None,
        }
    }
}

/// Over members whose bounds are exact, the zip's bounds are exact too and
/// give the length of the shorter member.
pub proof fn lemma_zip_exact<A: Sequence, B: Sequence>(z: Zip<A, B>)
    requires
        z.inv(),
        is_exact(z.first().hint()),
        is_exact(z.second().hint()),
    ensures
        is_exact(z.hint()),
        z.remaining() == Some(z.hint().0 as nat),
{
    z.first().lemma_hint();
    z.second().lemma_hint();
}

/// A zip of two vectors' elements reports exact bounds in every state, so
/// that each pull lowers both of them by exactly one, down to `(0, Some(0))`.
pub proof fn lemma_vec_zip_exact<T: Copy, U: Copy>(z: Zip<VecSeq<T>, VecSeq<U>>)
    requires
        z.inv(),
    ensures
        is_exact(z.hint()),
        z.remaining() == Some(z.hint().0 as nat),
{
    z.first().lemma_exact();
    z.second().lemma_exact();
    lemma_zip_exact(z);
}

/// What `ZipLongest` yields: a pair while both members last, then the
/// elements of the longer one alone.
#[derive(Clone, Copy, Debug, PartialEq, Eq)]
pub enum EitherOrBoth<A, B> {
    Both(A, B),
    Left(A),
    Right(B),
}

/// Two sequences advanced together until both have ended.
#[derive(Clone, Debug)]
pub struct ZipLongest<A, B> {
    a: A,
    b: B,
}

impl<A: Sequence, B: Sequence> ZipLongest<A, B> {
    pub closed spec fn first(&self) -> A {
        self.a
    }

    pub closed spec fn second(&self) -> B {
        self.b
    }

    pub fn new(a: A, b: B) -> (r: Self)
        ensures
            r.first() == a,
            r.second() == b,
    {
        ZipLongest { a, b }
    }
}

/// The element at position `i` of the longest zip of `a` and `b`.
pub open spec fn longest_at<A: Sequence, B: Sequence>(a: A, b: B, i: int) -> EitherOrBoth<A::Item, B::Item> {
    if within(a.remaining(), i) && within(b.remaining(), i) {
        EitherOrBoth::Both(a.at(i), b.at(i))
    } else if within(a.remaining(), i) {
        EitherOrBoth::Left(a.at(i))
    } else {
        EitherOrBoth::Right(b.at(i))
    }
}

impl<A: Sequence, B: Sequence> Sequence for ZipLongest<A, B> {
    type Item = EitherOrBoth<A::Item, B::Item>;

    open spec fn inv(&self) -> bool {
        self.first().inv() && self.second().inv()
    }

    open spec fn remaining(&self) -> Count {
        count_max(self.first().remaining(), self.second().remaining())
    }

    open spec fn at(&self, i: int) -> EitherOrBoth<A::Item, B::Item> {
        longest_at(self.first(), self.second(), i)
    }

    open spec fn hint(&self) -> (usize, Option<usize>) {
        max_spec(self.first().hint(), self.second().hint())
    }

    proof fn lemma_hint(&self) {
        self.a.lemma_hint();
        self.b.lemma_hint();
        lemma_max_holds(self.a.hint(), self.a.remaining(), self.b.hint(), self.b.remaining());
    }

    fn next(&mut self) -> (r: Option<EitherOrBoth<A::Item, B::Item>>) {
        let r = match (self.a.next(), self.b.next()) {
            (None, None) => None,
            (Some(x), None) => Some(EitherOrBoth::Left(x)),
            (None, Some(y)) => Some(EitherOrBoth::Right(y)),
            (Some(x), Some(y)) => Some(EitherOrBoth::Both(x, y)),
        };
        proof {
            assert forall|i: int| within(self.remaining(), i) implies #[trigger] self.at(i) == old(self).at(i + 1) by {
                assert(within(self.a.remaining(), i) == within(old(self).a.remaining(), i + 1));
                assert(within(self.b.remaining(), i) == within(old(self).b.remaining(), i + 1));
            }
        }
        r
    }

    fn size_hint(&self) -> (r: (usize, Option<usize>)) {
        crate::bounds::combine_max(self.a.size_hint(), self.b.size_hint())
    }
}

impl<A: BackSequence, B: BackSequence> BackSequence for ZipLongest<A, B> {
    fn len(&self) -> (r: usize) {
        let la = self.a.len();
        let lb = self.b.len();
        if la >= lb { la } else { lb }
    }

    /// The longer member's tail beyond the other's length comes out first,
    /// then pairs, from the back.
    fn next_back(&mut self) -> (r: Option<EitherOrBoth<A::Item, B::Item>>) {
        let la = self.a.len();
        let lb = self.b.len();
        if la == lb {
            match (self.a.next_back(), self.b.next_back()) {
                (Some(x), Some(y)) => Some(EitherOrBoth::Both(x, y)),
                _ => None,
            }
        } else if la > lb {
            match self.a.next_back() {
                Some(x) => Some(EitherOrBoth::Left(x)),
                None => None,
            }
        } else {
            match self.b.next_back() {
                Some(y) => Some(EitherOrBoth::Right(y)),
                None => None,
            }
        }
    }
}

impl<A: Indexed, B: Indexed> Indexed for ZipLongest<A, B> {
    fn indexable(&self) -> (r: usize) {
        let la = self.a.indexable();
        let lb = self.b.indexable();
        if la >= lb { la } else { lb }
    }

    fn idx(&self, i: usize) -> (r: Option<EitherOrBoth<A::Item, B::Item>>) {
        match (self.a.idx(i), self.b.idx(i)) {
            (Some(x), Some(y)) => Some(EitherOrBoth::Both(x, y)),
            (Some(x), None) => Some(EitherOrBoth::Left(x)),
            (None, Some(y)) => Some(EitherOrBoth::Right(y)),
            (None, None) => None,
        }
    }
}

/// Tuples `((x, y), z)` of a nested zip or product, flattened to `(x, y, z)`.
#[derive(Clone, Debug)]
pub struct FlatTuples<I> {
    pub iter: I,
}

pub open spec fn flatten<X, Y, Z>(t: ((X, Y), Z)) -> (X, Y, Z) {
    (t.0.0, t.0.1, t.1)
}

impl<X: Copy, Y: Copy, Z: Copy, I: Sequence<Item = ((X, Y), Z)>> Sequence for FlatTuples<I> {
    type Item = (X, Y, Z);

    open spec fn inv(&self) -> bool {
        self.iter.inv()
    }

    open spec fn remaining(&self) -> Count {
        self.iter.remaining()
    }

    open spec fn at(&self, i: int) -> (X, Y, Z) {
        flatten(self.iter.at(i))
    }

    open spec fn hint(&self) -> (usize, Option<usize>) {
        self.iter.hint()
    }

    proof fn lemma_hint(&self) {
        self.iter.lemma_hint();
    }

    fn next(&mut self) -> (r: Option<(X, Y, Z)>) {
        match self.iter.next() {
            Some(((x, y), z)) => Some((x, y, z)),
            None => None,
        }
    }

    fn size_hint(&self) -> (r: (usize, Option<usize>)) {
        self.iter.size_hint()
    }
}

impl<X: Copy, Y: Copy, Z: Copy, I: BackSequence<Item = ((X, Y), Z)>> BackSequence for FlatTuples<I> {
    fn len(&self) -> (r: usize) {
        self.iter.len()
    }

    fn next_back(&mut self) -> (r: Option<(X, Y, Z)>) {
        match self.iter.next_back() {
            Some(((x, y), z)) => Some((x, y, z)),
            None => None,
        }
    }
}

/// Three sequences advanced together, yielding triples until any ends.
pub fn zip3<A: Sequence, B: Sequence, C: Sequence>(a: A, b: B, c: C) -> (r: FlatTuples<Zip<Zip<A, B>, C>>)
    ensures
        r.iter.first().first() == a,
        r.iter.first().second() == b,
        r.iter.second() == c,
{
    FlatTuples { iter: Zip::new(Zip::new(a, b), c) }
}

} // verus!
