//! Lazily evaluated sequence adaptors with verified size bounds.
//!
//! Every sequence of this crate implements [`Sequence`]: it is pulled one
//! element at a time and reports a (lower, upper) bound on what it still
//! holds. The adaptors combine sequences in lockstep ([`Zip`],
//! [`ZipLongest`]), as a cartesian product ([`Product`]), fan one out to two
//! readers ([`Tee`]) or share one among several handles ([`Shared`]).

pub mod adaptors;
pub mod bounds;
pub mod methods;
pub mod product;
pub mod sequence;
pub mod shared;
pub mod sources;
pub mod tee;
pub mod zip;

pub use adaptors::{Batching, Dedup, FnMap, Interleave, PutBack};
pub use bounds::{combine_max, combine_min, combine_product, combine_sum};
pub use methods::Itertools;
pub use product::Product;
pub use sequence::{BackSequence, Indexed, Replay, Sequence};
pub use shared::{Handle, Shared};
pub use sources::{count, Counter, VecSeq};
pub use tee::{Side, Tee};
pub use zip::{zip3, EitherOrBoth, FlatTuples, Zip, ZipLongest};

use vstd::prelude::*;
use crate::bounds::{count_dec, count_min, within};

verus! {

/// Assigns to the slots of `to`, in order, the elements of `from`, stopping
/// at the shorter of the two. Returns the number of slots written.
pub fn write<I: Sequence>(to: &mut Vec<I::Item>, from: I) -> (r: usize)
    requires
        from.inv(),
    ensures
        count_min(Some(old(to)@.len()), from.remaining()) == Some(r as nat),
        final(to)@.len() == old(to)@.len(),
        forall|i: int| 0 <= i < r ==> #[trigger] final(to)@[i] == from.at(i),
        forall|i: int| r <= i < old(to)@.len() ==> #[trigger] final(to)@[i] == old(to)@[i],
{
    let ghost start = from;
    let mut src = from;
    let mut count: usize = 0;
    while count < to.len()
        invariant
            src.inv(),
            start == from,
            count <= to@.len(),
            to@.len() == old(to)@.len(),
            count_min(Some(count as nat), start.remaining()) == Some(count as nat),
            src.remaining() == (match start.remaining() {
                Some(n) => Some((n - count) as nat),
                None => None,
            }),
            forall|k: int| within(src.remaining(), k) ==> #[trigger] src.at(k) == start.at(k + count),
            forall|i: int| 0 <= i < count ==> #[trigger] to@[i] == start.at(i),
            forall|i: int| count <= i < to@.len() ==> #[trigger] to@[i] == old(to)@[i],
        decreases to@.len() - count,
    {
        let ghost before = src;
        match src.next() {
            None => {
                proof {
                    assert(before.remaining() == Some(0nat));
                    assert(start.remaining() == Some(count as nat));
                    assert(start == from);
                }
                return count;
            },
            Some(x) => {
                proof {
                    assert(src.remaining() == count_dec(before.remaining()));
                }
                to.set(count, x);
                count = count + 1;
            },
        }
    }
    count
}

} // verus!
