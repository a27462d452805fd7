//! Extra methods on every sequence: the adaptors of this crate by name, and
//! eager helpers that drop or gather elements.
use vstd::prelude::*;
use crate::adaptors::{Batching, Dedup, FnMap, Interleave};
use crate::bounds::{count_min, within, Count};
use crate::sequence::Sequence;
use crate::shared::{Handle, Shared};
use crate::tee::Tee;
use crate::zip::ZipLongest;

verus! {

/// The count left after `k` elements have been taken.
pub open spec fn count_sub(c: Count, k: nat) -> Count {
    match c {
        Some(n) => Some((n - k) as nat),
        None => None,
    }
}

pub trait Itertools: Sequence {
    /// Maps each element through `map`.
    fn fn_map<B, F: Fn(Self::Item) -> B>(self, map: F) -> (r: FnMap<Self, F>)
        ensures
            r.inner() == self,
            r.function() == map,
    {
        FnMap::new(self, map)
    }

    /// Alternates elements with `other` until both have ended.
    fn interleave<J: Sequence<Item = Self::Item>>(self, other: J) -> (r: Interleave<Self, J>)
        ensures
            r.first() == self,
            r.second() == other,
            r.first_turn(),
    {
        Interleave::new(self, other)
    }

    /// Pairs with `other` until both have ended.
    fn zip_longest<U: Sequence>(self, other: U) -> (r: ZipLongest<Self, U>)
        ensures
            r.first() == self,
            r.second() == other,
    {
        ZipLongest::new(self, other)
    }

    /// Elements made by `f`, each from as many elements as it takes.
    fn batching<B, F: FnMut(&mut Self) -> Option<B>>(self, f: F) -> (r: Batching<Self, F>)
        ensures
            r.inner() == self,
            r.function() == f,
    {
        Batching::new(self, f)
    }

    /// Cuts each run of equal elements down to its first one.
    fn dedup(self) -> (r: Dedup<Self>)
        where
            Self::Item: Copy + PartialEq,
        ensures
            r.last() is None,
            r.inner() == self,
    {
        Dedup::new(self)
    }

    /// Two cursors that both read every element.
    fn tee(self) -> (r: Tee<Self>)
        where
            Self::Item: Copy,
        requires
            self.inv(),
        ensures
            r.inv(),
            r.source() == self,
            r.pending(crate::tee::Side::A).len() == 0,
            r.pending(crate::tee::Side::B).len() == 0,
    {
        Tee::new(self)
    }

    /// A group of handles that read this one sequence, with its first handle.
    fn into_rc(self) -> (r: (Shared<Self>, Handle))
        requires
            self.inv(),
        ensures
            r.0.inv(),
            r.0.source() == self,
            r.0.owns(r.1),
            r.0.issued() == 1,
    {
        Shared::new(self)
    }

    /// Pulls up to `n` elements and drops them. Returns how many there were.
    fn dropn(&mut self, n: usize) -> (r: usize)
        requires
            old(self).inv(),
        ensures
            final(self).inv(),
            count_min(Some(n as nat), old(self).remaining()) == Some(r as nat),
            final(self).remaining() == count_sub(old(self).remaining(), r as nat),
            forall|i: int| within(final(self).remaining(), i)
                ==> #[trigger] final(self).at(i) == old(self).at(i + r),
    {
        let ghost start = *self;
        let mut k: usize = 0;
        while k < n
            invariant
                self.inv(),
                start == *old(self),
                k <= n,
                count_min(Some(k as nat), start.remaining()) == Some(k as nat),
                self.remaining() == count_sub(start.remaining(), k as nat),
                forall|i: int| within(self.remaining(), i) ==> #[trigger] self.at(i) == start.at(i + k),
            decreases n - k,
        {
            let ghost before = *self;
            match self.next() {
                None => {
                    proof {
                        assert(before.remaining() == Some(0nat));
                    }
                    return k;
                },
                Some(_) => {
                    proof {
                        assert forall|i: int| within(self.remaining(), i)
                            implies #[trigger] self.at(i) == start.at(i + k + 1) by {
                            assert(self.at(i) == before.at(i + 1));
                        }
                    }
                    k = k + 1;
                },
            }
        }
        k
    }

    /// Drops up to `n` elements and hands back what is left.
    fn dropping(self, n: usize) -> (r: Self)
        requires
            self.inv(),
        ensures
            r.inv(),
            r.remaining() == count_sub(self.remaining(), count_min(Some(n as nat), self.remaining()).unwrap()),
            forall|i: int| within(r.remaining(), i)
                ==> #[trigger] r.at(i) == self.at(i + count_min(Some(n as nat), self.remaining()).unwrap()),
    {
        let mut s = self;
        s.dropn(n);
        s
    }

    /// Pulls every element of a finite sequence and drops it.
    fn drain(&mut self)
        requires
            old(self).inv(),
            old(self).remaining() is Some,
        ensures
            final(self).inv(),
            final(self).remaining() == Some(0nat),
    {
        let ghost n = self.remaining().unwrap();
        loop
            invariant
                self.inv(),
                self.remaining() is Some,
                self.remaining().unwrap() <= n,
            decreases self.remaining().unwrap(),
        {
            match self.next() {
                None => {
                    return;
                },
                Some(_) => {},
            }
        }
    }

    /// The elements of a finite sequence, in order.
    fn collect_vec(self) -> (r: Vec<Self::Item>)
        requires
            self.inv(),
            self.remaining() is Some,
        ensures
            r@.len() == self.remaining().unwrap(),
            forall|i: int| 0 <= i < r@.len() ==> #[trigger] r@[i] == self.at(i),
    {
        let ghost start = self;
        let ghost n = self.remaining().unwrap();
        let mut s = self;
        let mut v: Vec<Self::Item> = Vec::new();
        loop
            invariant
                s.inv(),
                start == self,
                v@.len() <= n,
                start.remaining() == Some(n),
                s.remaining() == Some((n - v@.len()) as nat),
                forall|i: int| within(s.remaining(), i) ==> #[trigger] s.at(i) == start.at(i + v@.len()),
                forall|i: int| 0 <= i < v@.len() ==> #[trigger] v@[i] == start.at(i),
            decreases n - v@.len(),
        {
            let ghost before = s;
            match s.next() {
                None => {
                    proof {
                        assert(before.remaining() == Some(0nat));
                    }
                    return v;
                },
                Some(x) => {
                    proof {
                        assert(x == start.at(v@.len() as int));
                        assert forall|i: int| within(s.remaining(), i)
                            implies #[trigger] s.at(i) == start.at(i + v@.len() + 1) by {
                            assert(s.at(i) == before.at(i + 1));
                        }
                    }
                    v.push(x);
                },
            }
        }
    }
}

impl<T: Sequence> Itertools for T {
}

} // verus!
