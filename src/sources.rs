//! Sequences that produce values of their own: one over the elements of a
//! vector, and an endless counter.
use vstd::prelude::*;
use crate::bounds::{is_exact, within, Count};
use crate::sequence::{BackSequence, Indexed, Replay, Sequence};

verus! {

/// The elements of a vector between a front and a back cursor.
#[derive(Clone, Debug)]
pub struct VecSeq<T> {
    items: Vec<T>,
    front: usize,
    back: usize,
}

impl<T: Copy> VecSeq<T> {
    /// A sequence over all elements of `items`, in order.
    pub fn new(items: Vec<T>) -> (r: Self)
        ensures
            r.inv(),
            r.remaining() == Some(items@.len()),
            forall|i: int| 0 <= i < items@.len() ==> #[trigger] r.at(i) == items@[i],
    {
        let back = items.len();
        VecSeq { items, front: 0, back }
    }
}

impl<T: Copy> VecSeq<T> {
    /// The bounds of a vector's elements are exact: both give the count left.
    pub proof fn lemma_exact(&self)
        requires
            self.inv(),
        ensures
            is_exact(self.hint()),
            self.remaining() == Some(self.hint().0 as nat),
    {
    }
}

impl<T: Copy> Sequence for VecSeq<T> {
    type Item = T;

    closed spec fn inv(&self) -> bool {
        self.front <= self.back <= self.items@.len()
    }

    closed spec fn remaining(&self) -> Count {
        Some((self.back - self.front) as nat)
    }

    closed spec fn at(&self, i: int) -> T {
        self.items@[self.front + i]
    }

    closed spec fn hint(&self) -> (usize, Option<usize>) {
        ((self.back - self.front) as usize, Some((self.back - self.front) as usize))
    }

    proof fn lemma_hint(&self) {
    }

    fn next(&mut self) -> (r: Option<T>) {
        if self.front < self.back {
            let x = self.items[self.front];
            self.front = self.front + 1;
            Some(x)
        } else {
            None
        }
    }

    fn size_hint(&self) -> (r: (usize, Option<usize>)) {
        let n = self.back - self.front;
        (n, Some(n))
    }
}

impl<T: Copy> BackSequence for VecSeq<T> {
    fn len(&self) -> (r: usize) {
        self.back - self.front
    }

    fn next_back(&mut self) -> (r: Option<T>) {
        if self.front < self.back {
            self.back = self.back - 1;
            Some(self.items[self.back])
        } else {
            None
        }
    }
}

impl<T: Copy> Indexed for VecSeq<T> {
    fn indexable(&self) -> (r: usize) {
        self.back - self.front
    }

    fn idx(&self, i: usize) -> (r: Option<T>) {
        if i < self.back - self.front {
            Some(self.items[self.front + i])
        } else {
            None
        }
    }
}

impl<T: Copy> Replay for VecSeq<T> {
    fn replay(&self) -> (r: Self) {
        let mut items: Vec<T> = Vec::new();
        let mut k: usize = self.front;
        while k < self.back
            invariant
                self.inv(),
                self.front <= k <= self.back,
                items@.len() == k - self.front,
                forall|j: int| 0 <= j < items@.len() ==> #[trigger] items@[j] == self.items@[self.front + j],
            decreases self.back - k,
        {
            items.push(self.items[k]);
            k = k + 1;
        }
        let back = items.len();
        VecSeq { items, front: 0, back }
    }
}

pub open spec fn wrap_u64(x: int) -> u64 {
    (x % 0x1_0000_0000_0000_0000) as u64
}

/// The integers from a start on, without end, wrapping past `u64::MAX`.
#[derive(Clone, Debug)]
pub struct Counter {
    cur: u64,
}

/// An endless sequence `start, start + 1, ...`.
pub fn count(start: u64) -> (r: Counter)
    ensures
        r.inv(),
        r.remaining() is None,
        forall|i: int| 0 <= i ==> #[trigger] r.at(i) == wrap_u64(start + i),
{
    Counter { cur: start }
}

impl Sequence for Counter {
    type Item = u64;

    closed spec fn inv(&self) -> bool {
        true
    }

    closed spec fn remaining(&self) -> Count {
        None
    }

    closed spec fn at(&self, i: int) -> u64 {
        wrap_u64(self.cur + i)
    }

    closed spec fn hint(&self) -> (usize, Option<usize>) {
        (usize::MAX, None)
    }

    proof fn lemma_hint(&self) {
    }

    fn next(&mut self) -> (r: Option<u64>) {
        let x = self.cur;
        self.cur = self.cur.wrapping_add(1);
        proof {
            assert forall|i: int| within(self.remaining(), i) implies #[trigger] self.at(i) == old(self).at(i + 1) by {
                vstd::arithmetic::div_mod::lemma_add_mod_noop(old(self).cur + 1, i, 0x1_0000_0000_0000_0000);
                vstd::arithmetic::div_mod::lemma_small_mod(i as nat % 0x1_0000_0000_0000_0000, 0x1_0000_0000_0000_0000);
                vstd::arithmetic::div_mod::lemma_mod_twice(i, 0x1_0000_0000_0000_0000);
            }
            assert(x == old(self).at(0));
        }
        Some(x)
    }

    fn size_hint(&self) -> (r: (usize, Option<usize>)) {
        (usize::MAX, None)
    }
}

} // verus!
