//! Size bounds: a lower bound and an optional upper bound on the number of
//! elements that a sequence still yields.
use vstd::prelude::*;

verus! {

/// The number of elements left in a sequence: `None` when it never ends.
pub type Count = Option<nat>;

/// `h` is a truthful bound on a sequence with `rem` elements left.
pub open spec fn bounds_hold(h: (usize, Option<usize>), rem: Count) -> bool {
    match rem {
        Some(n) => h.0 as nat <= n && match h.1 {
            Some(u) => n <= u as nat,
            None => true,
        },
        None => h.1 is None,
    }
}

/// `h` pins the count down: lower and upper agree.
pub open spec fn is_exact(h: (usize, Option<usize>)) -> bool {
    h.1 == Some(h.0)
}

/// An integer clamped to the range of `usize`.
pub open spec fn clamp(x: int) -> usize {
    if x > usize::MAX { usize::MAX } else if x < 0 { 0 } else { x as usize }
}

/// An integer as an upper bound: unknown when it does not fit.
pub open spec fn fit(x: int) -> Option<usize> {
    if 0 <= x <= usize::MAX { Some(x as usize) } else { None }
}

pub open spec fn sum_spec(a: (usize, Option<usize>), b: (usize, Option<usize>)) -> (usize, Option<usize>) {
    (
        clamp(a.0 + b.0),
        match (a.1, b.1) {
            (Some(x), Some(y)) => fit(x + y),
            _ => None,
        },
    )
}

pub open spec fn product_spec(a: (usize, Option<usize>), b: (usize, Option<usize>)) -> (usize, Option<usize>) {
    (
        clamp(a.0 * b.0),
        match (a.1, b.1) {
            (Some(x), Some(y)) => fit(x * y),
            _ => None,
        },
    )
}

pub open spec fn min_spec(a: (usize, Option<usize>), b: (usize, Option<usize>)) -> (usize, Option<usize>) {
    (
        if a.0 <= b.0 { a.0 } else { b.0 },
        match (a.1, b.1) {
            (Some(x), Some(y)) => Some(if x <= y { x } else { y }),
            (Some(x), None) => Some(x),
            (None, Some(y)) => Some(y),
            (None, None) => None,
        },
    )
}

pub open spec fn max_spec(a: (usize, Option<usize>), b: (usize, Option<usize>)) -> (usize, Option<usize>) {
    (
        if a.0 >= b.0 { a.0 } else { b.0 },
        match (a.1, b.1) {
            (Some(x), Some(y)) => Some(if x >= y { x } else { y }),
            _ => None,
        },
    )
}

/// Counts added: unbounded when either is.
pub open spec fn count_add(a: Count, b: Count) -> Count {
    match (a, b) {
        (Some(x), Some(y)) => Some(x + y),
        _ => None,
    }
}

/// The smaller of two counts; an unbounded one loses.
pub open spec fn count_min(a: Count, b: Count) -> Count {
    match (a, b) {
        (Some(x), Some(y)) => Some(if x <= y { x } else { y }),
        (Some(x), None) => Some(x),
        (None, Some(y)) => Some(y),
        (None, None) => None,
    }
}

/// The larger of two counts; an unbounded one wins.
pub open spec fn count_max(a: Count, b: Count) -> Count {
    match (a, b) {
        (Some(x), Some(y)) => Some(if x >= y { x } else { y }),
        _ => None,
    }
}

/// `i` is the position of an element still to come.
pub open spec fn within(rem: Count, i: int) -> bool {
    0 <= i && match rem {
        Some(n) => i < n,
        None => true,
    }
}

/// The count after one element has been taken.
pub open spec fn count_dec(rem: Count) -> Count {
    match rem {
        Some(n) => if n == 0 { Some(0nat) } else { Some((n - 1) as nat) },
        None => None,
    }
}

/// Bounds of two sequences laid end to end: lowers add and saturate, uppers
/// add and become unknown on overflow.
pub fn combine_sum(a: (usize, Option<usize>), b: (usize, Option<usize>)) -> (r: (usize, Option<usize>))
    ensures
        r == sum_spec(a, b),
{
    let lo = match a.0.checked_add(b.0) {
        Some(x) => x,
        None => usize::MAX,
    };
    let hi = match (a.1, b.1) {
        (Some(x), Some(y)) => x.checked_add(y),
        _ => None,
    };
    (lo, hi)
}

/// Bounds of the pairs of two sequences: lowers multiply and saturate, uppers
/// multiply and become unknown on overflow.
pub fn combine_product(a: (usize, Option<usize>), b: (usize, Option<usize>)) -> (r: (usize, Option<usize>))
    ensures
        r == product_spec(a, b),
{
    proof {
        vstd::arithmetic::mul::lemma_mul_nonnegative(a.0 as int, b.0 as int);
    }
    let lo = match a.0.checked_mul(b.0) {
        Some(x) => x,
        None => usize::MAX,
    };
    let hi = match (a.1, b.1) {
        (Some(x), Some(y)) => {
            proof {
                vstd::arithmetic::mul::lemma_mul_nonnegative(x as int, y as int);
            }
            x.checked_mul(y)
        },
        _ => None,
    };
    (lo, hi)
}

/// Bounds of the shorter of two sequences.
pub fn combine_min(a: (usize, Option<usize>), b: (usize, Option<usize>)) -> (r: (usize, Option<usize>))
    ensures
        r == min_spec(a, b),
{
    let lo = if a.0 <= b.0 { a.0 } else { b.0 };
    let hi = match (a.1, b.1) {
        (Some(x), Some(y)) => Some(if x <= y { x } else { y }),
        (Some(x), None) => Some(x),
        (None, Some(y)) => Some(y),
        (None, None) => None,
    };
    (lo, hi)
}

/// Bounds of the longer of two sequences.
pub fn combine_max(a: (usize, Option<usize>), b: (usize, Option<usize>)) -> (r: (usize, Option<usize>))
    ensures
        r == max_spec(a, b),
{
    let lo = if a.0 >= b.0 { a.0 } else { b.0 };
    let hi = match (a.1, b.1) {
        (Some(x), Some(y)) => Some(if x >= y { x } else { y }),
        _ => None,
    };
    (lo, hi)
}

/// Summing truthful bounds gives a truthful bound on the concatenation.
pub proof fn lemma_sum_holds(a: (usize, Option<usize>), ra: Count, b: (usize, Option<usize>), rb: Count)
    requires
        bounds_hold(a, ra),
        bounds_hold(b, rb),
    ensures
        bounds_hold(sum_spec(a, b), count_add(ra, rb)),
{
}

/// Multiplying truthful bounds gives a truthful bound on the count of pairs.
pub proof fn lemma_product_holds(a: (usize, Option<usize>), x: nat, b: (usize, Option<usize>), y: nat)
    requires
        bounds_hold(a, Some(x)),
        bounds_hold(b, Some(y)),
    ensures
        bounds_hold(product_spec(a, b), Some(x * y)),
{
    vstd::arithmetic::mul::lemma_mul_inequality(a.0 as int, x as int, b.0 as int);
    vstd::arithmetic::mul::lemma_mul_inequality(b.0 as int, y as int, x as int);
    vstd::arithmetic::mul::lemma_mul_is_commutative(b.0 as int, x as int);
    if let (Some(u), Some(v)) = (a.1, b.1) {
        vstd::arithmetic::mul::lemma_mul_inequality(x as int, u as int, y as int);
        vstd::arithmetic::mul::lemma_mul_inequality(y as int, v as int, u as int);
        vstd::arithmetic::mul::lemma_mul_is_commutative(y as int, u as int);
    }
}

/// The minimum of truthful bounds is a truthful bound on the shorter sequence.
pub proof fn lemma_min_holds(a: (usize, Option<usize>), ra: Count, b: (usize, Option<usize>), rb: Count)
    requires
        bounds_hold(a, ra),
        bounds_hold(b, rb),
    ensures
        bounds_hold(min_spec(a, b), count_min(ra, rb)),
{
}

/// The maximum of truthful bounds is a truthful bound on the longer sequence.
pub proof fn lemma_max_holds(a: (usize, Option<usize>), ra: Count, b: (usize, Option<usize>), rb: Count)
    requires
        bounds_hold(a, ra),
        bounds_hold(b, rb),
    ensures
        bounds_hold(max_spec(a, b), count_max(ra, rb)),
{
}

} // verus!
