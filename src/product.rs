//! The cartesian product of two sequences, in odometer order: the right
//! member varies fastest and is replayed for each element of the left one.
use vstd::prelude::*;
use crate::bounds::{
    count_dec, lemma_product_holds, lemma_sum_holds, product_spec, sum_spec,
    within, Count,
};
use crate::sequence::{same_rest, Replay, Sequence};
use vstd::arithmetic::div_mod::{lemma_fundamental_div_mod, lemma_fundamental_div_mod_converse, lemma_mod_pos_bound};

verus! {

/// Pairs `(x, y)` of every element `x` of a left sequence with every element
/// `y` of a replayable right sequence.
pub struct Product<L: Sequence, R> {
    a: L,
    cur: Option<L::Item>,
    b: R,
    orig: R,
}

/// Elements left in a product whose current left element is `cur`, with
/// `l` left elements after it, `r` right elements left in the current pass
/// and `o` in a full pass.
pub open spec fn product_count(cur_present: bool, l: Count, r: Count, o: Count) -> Count {
    if !cur_present {
        Some(0nat)
    } else {
        match (r, o) {
            (Some(r), Some(o)) => if o == 0 {
                Some(r)
            } else {
                match l {
                    Some(l) => Some(r + l * o),
                    None => None,
                }
            },
            _ => None,
        }
    }
}

/// Bounds of a product from the bounds of its parts: nothing once the left
/// sequence is spent, otherwise a full right pass for each left element to
/// come, plus what is left of the current pass.
pub open spec fn product_hint(
    cur_present: bool,
    l: (usize, Option<usize>),
    r: (usize, Option<usize>),
    o: (usize, Option<usize>),
) -> (usize, Option<usize>) {
    if !cur_present {
        (0, Some(0))
    } else {
        sum_spec(product_spec(l, o), r)
    }
}

proof fn lemma_next_block(j: int, o: int)
    requires
        0 <= j,
        0 < o,
    ensures
        (j + o) / o == j / o + 1,
        (j + o) % o == j % o,
{
    lemma_fundamental_div_mod(j, o);
    lemma_mod_pos_bound(j, o);
    assert(j + o == (j / o + 1) * o + j % o) by (nonlinear_arith)
        requires
            j == o * (j / o) + j % o,
    ;
    lemma_fundamental_div_mod_converse(j + o, o, j / o + 1, j % o);
}

proof fn lemma_first_block(j: int, o: int)
    requires
        0 <= j < o,
    ensures
        j / o == 0,
        j % o == j,
{
    lemma_fundamental_div_mod_converse(j, o, 0, j);
}

impl<L: Sequence, R: Replay> Product<L, R> where L::Item: Copy {
    pub closed spec fn left(&self) -> L {
        self.a
    }

    pub closed spec fn current(&self) -> Option<L::Item> {
        self.cur
    }

    pub closed spec fn right(&self) -> R {
        self.b
    }

    pub closed spec fn full_pass(&self) -> R {
        self.orig
    }

    /// Takes the first left element at once; a left sequence that is empty
    /// makes the product empty.
    pub fn new(i: L, j: R) -> (r: Self)
        requires
            i.inv(),
            j.inv(),
        ensures
            r.inv(),
            i.remaining() == Some(0nat) ==> r.remaining() == Some(0nat),
            i.remaining() != Some(0nat) ==> {
                &&& r.current() == Some(i.at(0))
                &&& r.left().remaining() == count_dec(i.remaining())
                &&& forall|k: int| within(r.left().remaining(), k) ==> #[trigger] r.left().at(k) == i.at(k + 1)
                &&& same_rest(r.right(), j)
                &&& same_rest(r.full_pass(), j)
            },
    {
        let mut i = i;
        let cur = i.next();
        let b = j.replay();
        Product { a: i, cur, b, orig: j }
    }
}

impl<L: Sequence, R: Replay> Sequence for Product<L, R> where L::Item: Copy {
    type Item = (L::Item, R::Item);

    open spec fn inv(&self) -> bool {
        &&& self.left().inv()
        &&& self.right().inv()
        &&& self.full_pass().inv()
        &&& (self.right().remaining() is None) == (self.full_pass().remaining() is None)
    }

    open spec fn remaining(&self) -> Count {
        product_count(
            self.current() is Some,
            self.left().remaining(),
            self.right().remaining(),
            self.full_pass().remaining(),
        )
    }

    open spec fn at(&self, i: int) -> (L::Item, R::Item) {
        let r = self.right().remaining();
        if within(r, i) {
            (self.current().unwrap(), self.right().at(i))
        } else {
            let j = i - r.unwrap();
            let o = self.full_pass().remaining().unwrap() as int;
            (self.left().at(j / o), self.full_pass().at(j % o))
        }
    }

    open spec fn hint(&self) -> (usize, Option<usize>) {
        product_hint(
            self.current() is Some,
            self.left().hint(),
            self.right().hint(),
            self.full_pass().hint(),
        )
    }

    proof fn lemma_hint(&self) {
        self.a.lemma_hint();
        self.b.lemma_hint();
        self.orig.lemma_hint();
        if self.cur is Some {
            match (self.a.remaining(), self.orig.remaining()) {
                (Some(l), Some(o)) => {
                    lemma_product_holds(self.a.hint(), l, self.orig.hint(), o);
                    lemma_sum_holds(product_spec(self.a.hint(), self.orig.hint()), Some(l * o), self.b.hint(), self.b.remaining());
                    if o == 0 {
                        assert(l * o == 0) by (nonlinear_arith) requires o == 0;
                    }
                },
                _ => {},
            }
        }
    }

    fn next(&mut self) -> (r: Option<(L::Item, R::Item)>) {
        let a_cur = match self.cur {
            None => return None,
            Some(c) => c,
        };
        match self.b.next() {
            Some(y) => {
                proof {
                    let o = self.orig.remaining();
                    if let (Some(rr), Some(oo)) = (old(self).b.remaining(), o) {
                        assert forall|i: int| within(self.remaining(), i) implies #[trigger] self.at(i) == old(self).at(i + 1) by {
                            if i >= rr - 1 {
                                assert(i - (rr - 1) == (i + 1) - rr);
                            }
                        }
                    }
                }
                Some((a_cur, y))
            },
            None => {
                self.b = self.orig.replay();
                match self.b.next() {
                    None => None,
                    Some(y) => {
                        let ghost pre_a = self.a;
                        self.cur = self.a.next();
                        match self.cur {
                            None => None,
                            Some(c) => {
                                proof {
                                    assert(old(self).b.remaining() == Some(0nat));
                                    assert(self.orig.remaining() is Some);
                                    let oo = self.orig.remaining().unwrap() as int;
                                    assert(oo > 0);
                                    lemma_first_block(0, oo);
                                    assert(old(self).at(0) == (c, y));
                                    if let Some(l) = pre_a.remaining() {
                                        assert((oo - 1) + (l - 1) * oo == l * oo - 1) by (nonlinear_arith);
                                        assert(0 + l * oo - 1 == (oo - 1) + (l - 1) * oo);
                                    }
                                    assert forall|i: int| within(self.remaining(), i) implies #[trigger] self.at(i) == old(self).at(i + 1) by {
                                        if i < oo - 1 {
                                            lemma_first_block(i + 1, oo);
                                        } else {
                                            let j = i - (oo - 1);
                                            lemma_next_block(j, oo);
                                            lemma_fundamental_div_mod(j, oo);
                                            if let Some(l2) = self.a.remaining() {
                                                assert(j < l2 * oo);
                                                assert(j / oo < l2) by (nonlinear_arith)
                                                    requires
                                                        j < l2 * oo,
                                                        j == oo * (j / oo) + j % oo,
                                                        0 <= j % oo,
                                                        oo > 0,
                                                ;
                                            }
                                            assert(self.at(i) == (self.a.at(j / oo), self.orig.at(j % oo)));
                                            assert(old(self).at(i + 1) == (pre_a.at((j + oo) / oo), self.orig.at((j + oo) % oo)));
                                            lemma_mod_pos_bound(j, oo);
                                            vstd::arithmetic::div_mod::lemma_div_pos_is_pos(j, oo);
                                        }
                                    }
                                }
                                Some((c, y))
                            },
                        }
                    },
                }
            },
        }
    }

    fn size_hint(&self) -> (r: (usize, Option<usize>)) {
        if self.cur.is_none() {
            return (0, Some(0));
        }
        crate::bounds::combine_sum(
            crate::bounds::combine_product(self.a.size_hint(), self.orig.size_hint()),
            self.b.size_hint(),
        )
    }
}

} // verus!
