use std::fmt::Debug;

use seqtools::zip3;
use seqtools::EitherOrBoth::{Both, Left};
use seqtools::{count, BackSequence, Indexed, Itertools, Sequence, VecSeq, Zip};

#[test]
fn test_zip_longest_size_hint() {
    let c = count(0);
    let v = VecSeq::new(vec![0u64, 1, 2, 3, 4, 5, 6, 7, 8, 9]);
    let v2 = VecSeq::new(vec![10u64, 11, 12]);

    assert_eq!(c.zip_longest(v.clone()).size_hint(), (usize::MAX, None));

    assert_eq!(v.zip_longest(v2).size_hint(), (10, Some(10)));
}

#[test]
fn test_double_ended_zip_longest() {
    let a = VecSeq::new(vec![1, 2, 3, 4, 5, 6]);
    let b = VecSeq::new(vec![1, 2, 3, 7]);
    let mut it = a.zip_longest(b);
    assert_eq!(it.next(), Some(Both(1, 1)));
    assert_eq!(it.next(), Some(Both(2, 2)));
    assert_eq!(it.next_back(), Some(Left(6)));
    assert_eq!(it.next_back(), Some(Left(5)));
    assert_eq!(it.next_back(), Some(Both(4, 7)));
    assert_eq!(it.next(), Some(Both(3, 3)));
    assert_eq!(it.next(), None);
}

fn check_randacc_iter<A, T>(a: T, len: usize)
where
    A: PartialEq + Debug,
    T: Clone + Indexed<Item = A>,
{
    let mut b = a.clone();
    assert_eq!(len, b.indexable());
    let mut n = 0;
    let mut a = a;
    let mut i = 0;
    while let Some(elt) = a.next() {
        assert!(Some(elt) == b.idx(i));
        n += 1;
        i += 1;
    }
    assert_eq!(n, len);
    assert!(None == b.idx(n));
    // call recursively to check after picking off an element
    if len > 0 {
        b.next();
        check_randacc_iter(b, len - 1);
    }
}

#[test]
fn test_random_access_zip_longest() {
    let xs = [1, 2, 3, 4, 5];
    let ys = [7, 9, 11];
    check_randacc_iter(
        VecSeq::new(xs.to_vec()).zip_longest(VecSeq::new(ys.to_vec())),
        std::cmp::max(xs.len(), ys.len()),
    );
}

#[test]
fn zip_tuple() {
    let xs = [1, 2, 3];
    let ys = b"ab";
    let mut it = VecSeq::new(xs.to_vec());
    assert!(it.next() != None);
    let mut jt = Zip::new(VecSeq::new(xs.to_vec()), VecSeq::new(ys.to_vec()));
    assert_eq!(jt.next(), Some((1, b'a')));
    assert_eq!(jt.next(), Some((2, b'b')));
    assert_eq!(jt.next(), None);

    let mut jt = zip3(
        VecSeq::new(xs.to_vec()),
        VecSeq::new(xs.to_vec()),
        VecSeq::new(xs.to_vec()),
    );
    assert_eq!(jt.next(), Some((1, 1, 1)));
}

fn assert_iters_equal<A, I, J>(mut it: I, mut jt: J)
where
    A: PartialEq + Debug,
    I: Sequence<Item = A>,
    J: Iterator<Item = A>,
{
    loop {
        let elti = it.next();
        let eltj = jt.next();
        assert_eq!(elti, eltj);
        if elti.is_none() {
            break;
        }
    }
}

#[test]
fn ziptrusted_1() {
    let mut xs = [0; 6];
    let mut ys = [0; 8];
    let mut zs = [0; 7];

    xs.iter_mut().enumerate().for_each(|(i, elt)| *elt = i as i32);
    ys.iter_mut().enumerate().for_each(|(i, elt)| *elt = i as i32);
    zs.iter_mut().enumerate().for_each(|(i, elt)| *elt = i as i32);

    let it = Zip::new(VecSeq::new(xs.to_vec()), VecSeq::new(ys.to_vec()));
    assert_eq!(it.size_hint(), (6, Some(6)));
    assert_iters_equal(it, xs.iter().cloned().zip(ys.iter().cloned()));

    let it = zip3(
        VecSeq::new(xs.to_vec()),
        VecSeq::new(ys.to_vec()),
        VecSeq::new(zs.to_vec()),
    );
    assert_eq!(it.size_hint(), (6, Some(6)));
    assert_iters_equal(
        it,
        xs.iter()
            .cloned()
            .zip(ys.iter().cloned())
            .zip(zs.iter().cloned())
            .map(|((a, b), c)| (a, b, c)),
    );
}
