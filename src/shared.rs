//! One sequence read through several handles. Every pull advances the one
//! underlying sequence, whichever handle makes it.
//!
//! A pull takes the group by exclusive borrow, so no pull can start while
//! another one is in progress: the exclusivity that a runtime flag would
//! check is a fact of every well-typed caller here.
use vstd::prelude::*;
use crate::bounds::{bounds_hold, count_dec, within};
use crate::sequence::Sequence;

verus! {

/// A reader of a `Shared` group.
#[derive(Clone, Copy, Debug, PartialEq, Eq, Structural)]
pub struct Handle {
    id: usize,
}

impl Handle {
    pub closed spec fn spec_id(&self) -> nat {
        self.id as nat
    }

    /// The number that tells this handle apart from the others of its group.
    pub fn id(&self) -> (r: usize)
        ensures
            r as nat == self.spec_id(),
    {
        self.id
    }
}

/// A sequence together with the handles that read it.
pub struct Shared<S> {
    src: S,
    issued: usize,
}

impl<S: Sequence> Shared<S> {
    pub closed spec fn source(&self) -> S {
        self.src
    }

    /// How many handles the group has handed out.
    pub closed spec fn issued(&self) -> nat {
        self.issued as nat
    }

    /// `h` was handed out by this group.
    pub open spec fn owns(&self, h: Handle) -> bool {
        h.spec_id() < self.issued()
    }

    pub open spec fn inv(&self) -> bool {
        self.source().inv()
    }

    /// Shares `src`, and hands out its first handle.
    pub fn new(src: S) -> (r: (Self, Handle))
        requires
            src.inv(),
        ensures
            r.0.inv(),
            r.0.source() == src,
            r.0.owns(r.1),
            r.0.issued() == 1,
    {
        (Shared { src, issued: 1 }, Handle { id: 0 })
    }

    /// A further handle to the same sequence.
    pub fn clone_handle(&mut self, h: Handle) -> (r: Handle)
        requires
            old(self).owns(h),
            old(self).issued() < usize::MAX,
        ensures
            final(self).source() == old(self).source(),
            final(self).issued() == old(self).issued() + 1,
            final(self).owns(r),
            r != h,
    {
        let r = Handle { id: self.issued };
        self.issued = self.issued + 1;
        r
    }

    /// Pulls the underlying sequence on behalf of `h`.
    pub fn pull(&mut self, h: Handle) -> (r: Option<S::Item>)
        requires
            old(self).inv(),
            old(self).owns(h),
        ensures
            final(self).inv(),
            final(self).issued() == old(self).issued(),
            old(self).source().remaining() == Some(0nat) ==> {
                &&& r is None
                &&& final(self).source().remaining() == Some(0nat)
            },
            old(self).source().remaining() != Some(0nat) ==> {
                &&& r == Some(old(self).source().at(0))
                &&& final(self).source().remaining() == count_dec(old(self).source().remaining())
                &&& forall|i: int| within(final(self).source().remaining(), i)
                    ==> #[trigger] final(self).source().at(i) == old(self).source().at(i + 1)
            },
    {
        self.src.next()
    }

    /// The pair of the next pulls through `h1` and then `h2`, as a zip of
    /// the two handles yields it. When only one element is left, it is
    /// pulled and lost, and the result is `None`.
    pub fn pull_pair(&mut self, h1: Handle, h2: Handle) -> (r: Option<(S::Item, S::Item)>)
        requires
            old(self).inv(),
            old(self).owns(h1),
            old(self).owns(h2),
        ensures
            final(self).inv(),
            final(self).issued() == old(self).issued(),
            within(old(self).source().remaining(), 1) ==> {
                &&& r == Some((old(self).source().at(0), old(self).source().at(1)))
                &&& final(self).source().remaining() == count_dec(count_dec(old(self).source().remaining()))
                &&& forall|i: int| within(final(self).source().remaining(), i)
                    ==> #[trigger] final(self).source().at(i) == old(self).source().at(i + 2)
            },
            !within(old(self).source().remaining(), 1) ==> {
                &&& r is None
                &&& final(self).source().remaining() == Some(0nat)
            },
    {
        match self.pull(h1) {
            None => None,
            Some(x) => match self.pull(h2) {
                None => None,
                Some(y) => Some((x, y)),
            },
        }
    }

    /// Bounds of the underlying sequence.
    pub fn size_hint(&self) -> (r: (usize, Option<usize>))
        requires
            self.inv(),
        ensures
            r == self.source().hint(),
            bounds_hold(r, self.source().remaining()),
    {
        proof {
            self.src.lemma_hint();
        }
        self.src.size_hint()
    }
}

} // verus!
