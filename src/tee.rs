//! Fan-out: two cursors that each read every element of one source, at
//! their own pace, through a buffer of what the lagging cursor has not read.
use vstd::prelude::*;
use crate::bounds::{bounds_hold, count_add, count_dec, lemma_sum_holds, sum_spec, within, Count};
use crate::sequence::Sequence;

verus! {

/// One of the two cursors of a `Tee`.
#[derive(Clone, Copy, Debug, PartialEq, Eq, Structural)]
pub enum Side {
    A,
    B,
}

pub open spec fn other(side: Side) -> Side {
    match side {
        Side::A => Side::B,
        Side::B => Side::A,
    }
}

/// A source shared by two cursors. An element goes to whichever cursor asks
/// for it first, and a copy waits in the other cursor's buffer.
pub struct Tee<S: Sequence> {
    src: S,
    buf_a: Vec<S::Item>,
    buf_b: Vec<S::Item>,
}

impl<S: Sequence> Tee<S> where S::Item: Copy {
    pub closed spec fn source(&self) -> S {
        self.src
    }

    /// Elements pulled from the source that `side` has not read yet.
    pub closed spec fn pending(&self, side: Side) -> Seq<S::Item> {
        match side {
            Side::A => self.buf_a@,
            Side::B => self.buf_b@,
        }
    }

    /// At most one cursor lags behind, so one buffer is always empty.
    pub open spec fn inv(&self) -> bool {
        &&& self.source().inv()
        &&& (self.pending(Side::A).len() == 0 || self.pending(Side::B).len() == 0)
    }

    /// How many elements `side` will still read.
    pub open spec fn cursor_remaining(&self, side: Side) -> Count {
        count_add(Some(self.pending(side).len()), self.source().remaining())
    }

    /// The element that `side` reads at position `i` from now.
    pub open spec fn cursor_at(&self, side: Side, i: int) -> S::Item {
        if i < self.pending(side).len() {
            self.pending(side)[i]
        } else {
            self.source().at(i - self.pending(side).len())
        }
    }

    /// The bounds reported for `side`.
    pub open spec fn cursor_hint(&self, side: Side) -> (usize, Option<usize>) {
        let n = self.pending(side).len();
        sum_spec((n as usize, Some(n as usize)), self.source().hint())
    }

    /// Splits `src` in two cursors that both read all of it.
    pub fn new(src: S) -> (r: Self)
        requires
            src.inv(),
        ensures
            r.inv(),
            r.source() == src,
            r.pending(Side::A).len() == 0,
            r.pending(Side::B).len() == 0,
            r.cursor_remaining(Side::A) == src.remaining(),
            r.cursor_remaining(Side::B) == src.remaining(),
            forall|i: int| within(src.remaining(), i) ==> #[trigger] r.cursor_at(Side::A, i) == src.at(i),
            forall|i: int| within(src.remaining(), i) ==> #[trigger] r.cursor_at(Side::B, i) == src.at(i),
    {
        Tee { src, buf_a: Vec::new(), buf_b: Vec::new() }
    }

    /// Reads the next element of `side`. The other cursor still reads the
    /// same elements as before.
    pub fn pull(&mut self, side: Side) -> (r: Option<S::Item>)
        requires
            old(self).inv(),
        ensures
            final(self).inv(),
            old(self).cursor_remaining(side) == Some(0nat) ==> {
                &&& r is None
                &&& final(self).cursor_remaining(side) == Some(0nat)
            },
            old(self).cursor_remaining(side) != Some(0nat) ==> {
                &&& r == Some(old(self).cursor_at(side, 0))
                &&& final(self).cursor_remaining(side) == count_dec(old(self).cursor_remaining(side))
                &&& forall|i: int| within(final(self).cursor_remaining(side), i)
                    ==> #[trigger] final(self).cursor_at(side, i) == old(self).cursor_at(side, i + 1)
            },
            final(self).cursor_remaining(other(side)) == old(self).cursor_remaining(other(side)),
            forall|i: int| within(old(self).cursor_remaining(other(side)), i)
                ==> #[trigger] final(self).cursor_at(other(side), i) == old(self).cursor_at(other(side), i),
    {
        match side {
            Side::A => {
                if self.buf_a.len() > 0 {
                    let x = self.buf_a.remove(0);
                    Some(x)
                } else {
                    match self.src.next() {
                        Some(x) => {
                            self.buf_b.push(x);
                            Some(x)
                        },
                        None => None,
                    }
                }
            },
            Side::B => {
                if self.buf_b.len() > 0 {
                    let x = self.buf_b.remove(0);
                    Some(x)
                } else {
                    match self.src.next() {
                        Some(x) => {
                            self.buf_a.push(x);
                            Some(x)
                        },
                        None => None,
                    }
                }
            },
        }
    }

    /// Truthful bounds on what `side` will still read.
    pub fn size_hint(&self, side: Side) -> (r: (usize, Option<usize>))
        requires
            self.inv(),
        ensures
            r == self.cursor_hint(side),
            bounds_hold(r, self.cursor_remaining(side)),
    {
        let n = match side {
            Side::A => self.buf_a.len(),
            Side::B => self.buf_b.len(),
        };
        proof {
            self.src.lemma_hint();
            lemma_sum_holds((n, Some(n)), Some(n as nat), self.src.hint(), self.src.remaining());
        }
        crate::bounds::combine_sum((n, Some(n)), self.src.size_hint())
    }
}

} // verus!
