use seqtools::{
    combine_max, combine_min, combine_product, combine_sum, count, BackSequence, Dedup,
    EitherOrBoth, FnMap, Indexed, Interleave, Itertools, Product, PutBack, Sequence, Shared, Side,
    Tee, VecSeq, Zip, ZipLongest,
};

/// Pulls `it` to its end, checking after each pull that the reported
/// bounds hold of what is left.
fn bounds_hold_throughout<S: Sequence>(mut it: S) -> bool {
    let mut hints = vec![it.size_hint()];
    while it.next().is_some() {
        hints.push(it.size_hint());
    }
    assert!(it.next().is_none());
    let mut left = hints.len();
    for (low, hi) in hints {
        left -= 1;
        if low > left || hi.map_or(false, |h| h < left) {
            return false;
        }
    }
    true
}

fn v(xs: &[i32]) -> VecSeq<i32> {
    VecSeq::new(xs.to_vec())
}

#[test]
fn bounds_hold_for_composed_sequences() {
    assert!(bounds_hold_throughout(v(&[1, 2, 3])));
    assert!(bounds_hold_throughout(Zip::new(v(&[1, 2, 3]), v(&[4, 5]))));
    assert!(bounds_hold_throughout(ZipLongest::new(v(&[1, 2, 3]), v(&[4, 5]))));
    assert!(bounds_hold_throughout(Product::new(v(&[1, 2, 3]), v(&[4, 5]))));
    assert!(bounds_hold_throughout(Product::new(v(&[]), v(&[4, 5]))));
    assert!(bounds_hold_throughout(Product::new(v(&[1, 2]), v(&[]))));
    assert!(bounds_hold_throughout(Product::new(
        Product::new(v(&[1, 2]), v(&[3, 4, 5])),
        v(&[6, 7])
    )));
    let mut pb = PutBack::new(v(&[1, 2]));
    pb.put_back(9);
    assert!(bounds_hold_throughout(pb));
}

#[test]
fn product_bounds_are_exact_over_vectors() {
    let mut p = Product::new(v(&[1, 2, 3]), v(&[4, 5]));
    let mut n = 6;
    assert_eq!(p.size_hint(), (6, Some(6)));
    while p.next().is_some() {
        n -= 1;
        assert_eq!(p.size_hint(), (n, Some(n)));
    }
    assert_eq!(n, 0);
    assert_eq!(Product::new(v(&[]), v(&[1, 2])).size_hint(), (0, Some(0)));
}

#[test]
fn zip_of_exact_members_is_exact() {
    let mut z = Zip::new(v(&[1, 2, 3, 4]), v(&[5, 6, 7]));
    let mut n = 3;
    assert_eq!(z.size_hint(), (3, Some(3)));
    while z.next().is_some() {
        n -= 1;
        assert_eq!(z.size_hint(), (n, Some(n)));
    }
    assert_eq!(z.size_hint(), (0, Some(0)));
}

#[test]
fn tee_cursors_read_independently() {
    let mut t = Tee::new(v(&[0, 1, 2, 3]));
    assert_eq!(t.pull(Side::A), Some(0));
    assert_eq!(t.pull(Side::A), Some(1));
    assert_eq!(t.pull(Side::B), Some(0));
    assert_eq!(t.pull(Side::A), Some(2));
    assert_eq!(t.pull(Side::A), Some(3));
    assert_eq!(t.pull(Side::A), None);
    assert_eq!(t.pull(Side::B), Some(1));
    assert_eq!(t.size_hint(Side::B), (2, Some(2)));
    assert_eq!(t.size_hint(Side::A), (0, Some(0)));
    assert_eq!(t.pull(Side::B), Some(2));
    assert_eq!(t.pull(Side::B), Some(3));
    assert_eq!(t.pull(Side::B), None);
}

#[test]
fn tee_cursors_reproduce_source_in_any_order() {
    let s = [5, 6, 7, 8, 9];
    for pattern in 0u32..64 {
        let mut t = v(&s).tee();
        let mut a = Vec::new();
        let mut b = Vec::new();
        let mut bit = 0;
        while a.len() < s.len() || b.len() < s.len() {
            let side = if a.len() == s.len() {
                Side::B
            } else if b.len() == s.len() {
                Side::A
            } else if pattern >> (bit % 6) & 1 == 1 {
                Side::A
            } else {
                Side::B
            };
            bit += 1;
            let x = t.pull(side).unwrap();
            if side == Side::A { a.push(x) } else { b.push(x) }
        }
        assert_eq!(a, s.to_vec());
        assert_eq!(b, s.to_vec());
        assert_eq!(t.pull(Side::A), None);
        assert_eq!(t.pull(Side::B), None);
    }
}

#[test]
fn shared_handle_zipped_with_its_clone() {
    let (mut rit, h) = Shared::new(v(&[0, 1, 1, 1, 2, 1, 3, 5, 6, 7]));
    let h2 = rit.clone_handle(h);
    assert_ne!(h.id(), h2.id());
    assert_eq!(rit.pull_pair(h, h2), Some((0, 1)));
    assert_eq!(rit.pull_pair(h, h2), Some((1, 1)));
    assert_eq!(rit.pull_pair(h, h2), Some((2, 1)));
    assert_eq!(rit.pull(h), Some(3));
    assert_eq!(rit.size_hint(), (3, Some(3)));
    assert_eq!(rit.pull_pair(h, h2), Some((5, 6)));
    assert_eq!(rit.pull_pair(h, h2), None);
    assert_eq!(rit.pull(h2), None);
}

#[test]
fn product_in_odometer_order() {
    let mut p = Product::new(VecSeq::new(vec!['a', 'b']), VecSeq::new(vec!['x', 'y']));
    assert_eq!(p.next(), Some(('a', 'x')));
    assert_eq!(p.next(), Some(('a', 'y')));
    assert_eq!(p.next(), Some(('b', 'x')));
    assert_eq!(p.next(), Some(('b', 'y')));
    assert_eq!(p.next(), None);

    let mut p = Product::new(VecSeq::new(vec![]), VecSeq::new(vec!['x', 'y']));
    assert_eq!(p.next(), None::<(char, char)>);
    let mut p = Product::new(VecSeq::new(vec!['a', 'b']), VecSeq::<char>::new(vec![]));
    assert_eq!(p.next(), None);
    assert_eq!(p.next(), None);
}

#[test]
fn zip_longest_tags_both_ends() {
    let mut it = v(&[1, 2, 3, 4, 5, 6]).zip_longest(v(&[1, 2, 3, 7]));
    assert_eq!(it.size_hint(), (6, Some(6)));
    let mut rest = Vec::new();
    while let Some(e) = it.next() {
        rest.push(e);
    }
    assert_eq!(
        rest,
        vec![
            EitherOrBoth::Both(1, 1),
            EitherOrBoth::Both(2, 2),
            EitherOrBoth::Both(3, 3),
            EitherOrBoth::Both(4, 7),
            EitherOrBoth::Left(5),
            EitherOrBoth::Left(6),
        ]
    );
    let mut it = v(&[1]).zip_longest(v(&[4, 5]));
    assert_eq!(it.next(), Some(EitherOrBoth::Both(1, 4)));
    assert_eq!(it.next(), Some(EitherOrBoth::Right(5)));
    assert_eq!(it.next(), None);
}

#[test]
fn end_is_final() {
    let mut a = v(&[1]);
    a.next();
    for _ in 0..3 {
        assert_eq!(a.next(), None);
    }
    let mut z = Zip::new(v(&[1, 2]), v(&[3]));
    assert_eq!(z.next(), Some((1, 3)));
    for _ in 0..3 {
        assert_eq!(z.next(), None);
    }
    let mut p = Product::new(v(&[1]), v(&[2]));
    assert_eq!(p.next(), Some((1, 2)));
    for _ in 0..3 {
        assert_eq!(p.next(), None);
    }
    let mut zl = ZipLongest::new(v(&[]), v(&[1]));
    assert_eq!(zl.next(), Some(EitherOrBoth::Right(1)));
    for _ in 0..3 {
        assert_eq!(zl.next(), None);
    }
}

#[test]
fn bounds_combinators() {
    assert_eq!(combine_sum((2, Some(3)), (4, Some(5))), (6, Some(8)));
    assert_eq!(combine_sum((usize::MAX, None), (1, Some(1))), (usize::MAX, None));
    assert_eq!(combine_sum((1, Some(usize::MAX)), (1, Some(1))), (2, None));
    assert_eq!(combine_product((2, Some(3)), (4, Some(5))), (8, Some(15)));
    assert_eq!(combine_product((usize::MAX, Some(usize::MAX)), (2, Some(2))), (usize::MAX, None));
    assert_eq!(combine_product((0, None), (4, Some(5))), (0, None));
    assert_eq!(combine_min((2, Some(9)), (4, None)), (2, Some(9)));
    assert_eq!(combine_min((2, None), (4, Some(5))), (2, Some(5)));
    assert_eq!(combine_min((2, Some(9)), (4, Some(5))), (2, Some(5)));
    assert_eq!(combine_max((2, Some(9)), (4, None)), (4, None));
    assert_eq!(combine_max((2, Some(9)), (4, Some(5))), (4, Some(9)));
}

#[test]
fn counter_is_endless() {
    let mut c = count(u64::MAX - 1);
    assert_eq!(c.next(), Some(u64::MAX - 1));
    assert_eq!(c.next(), Some(u64::MAX));
    assert_eq!(c.next(), Some(0));
    assert_eq!(c.size_hint(), (usize::MAX, None));
    let z = Zip::new(count(0), v(&[1, 2]));
    assert_eq!(z.size_hint(), (2, Some(2)));
}

#[test]
fn interleave_alternates_then_drains() {
    let mut it = Interleave::new(v(&[1, 2, 3, 4]), v(&[10, 20]));
    assert_eq!(it.size_hint(), (6, Some(6)));
    let mut out = Vec::new();
    while let Some(x) = it.next() {
        out.push(x);
    }
    assert_eq!(out, vec![1, 10, 2, 20, 3, 4]);
    let mut it = v(&[1]).interleave(v(&[7, 8, 9]));
    let mut out = Vec::new();
    while let Some(x) = it.next() {
        out.push(x);
    }
    assert_eq!(out, vec![1, 7, 8, 9]);
}

#[test]
fn put_back_overwrites_slot() {
    let mut it = PutBack::new(v(&[1, 2]));
    assert_eq!(it.next(), Some(1));
    it.put_back(5);
    it.put_back(6);
    assert_eq!(it.size_hint(), (2, Some(2)));
    assert_eq!(it.next(), Some(6));
    assert_eq!(it.next(), Some(2));
    assert_eq!(it.next(), None);
}

#[test]
fn dedup_cuts_runs() {
    let mut d = Dedup::new(v(&[1, 1, 2, 3, 3, 3, 1, 4, 4]));
    assert_eq!(d.size_hint(), (1, Some(9)));
    let mut out = Vec::new();
    while let Some(x) = d.next() {
        out.push(x);
        assert_eq!(d.size_hint().0, 0);
    }
    assert_eq!(out, vec![1, 2, 3, 1, 4]);
    let mut d = v(&[]).dedup();
    assert_eq!(d.size_hint(), (0, Some(0)));
    assert_eq!(d.next(), None);
}

#[test]
fn write_stops_at_shorter() {
    let mut to = vec![0, 0, 0];
    assert_eq!(seqtools::write(&mut to, v(&[7, 8])), 2);
    assert_eq!(to, vec![7, 8, 0]);
    let mut to = vec![0, 0];
    assert_eq!(seqtools::write(&mut to, count(5)), 2);
    assert_eq!(to, vec![5, 6]);
}

#[test]
fn dropn_and_collect() {
    let mut it = v(&[1, 2, 3, 4]);
    assert_eq!(it.dropn(3), 3);
    assert_eq!(it.dropn(3), 1);
    assert_eq!(it.next(), None);
    let it = v(&[1, 2, 3, 4]).dropping(1);
    assert_eq!(it.collect_vec(), vec![2, 3, 4]);
    let mut it = v(&[1, 2]);
    it.drain();
    assert_eq!(it.next(), None);
    let (mut rit, h) = v(&[4, 5]).into_rc();
    assert_eq!(rit.pull(h), Some(4));
}

fn double(x: i32) -> i64 {
    2 * x as i64
}

#[test]
fn fn_map_applies_function() {
    let mut m = FnMap::new(v(&[1, 2, 3]), double);
    assert_eq!(m.size_hint(), (3, Some(3)));
    assert_eq!(m.next(), Some(2));
    assert_eq!(m.next(), Some(4));
    assert_eq!(m.next(), Some(6));
    assert_eq!(m.next(), None);
    let mut m = v(&[5]).fn_map(|x| x + 1);
    assert_eq!(m.next(), Some(6));
}

#[test]
fn zip_from_the_back_and_by_index() {
    let mut z = Zip::new(v(&[1, 2, 3, 4, 5]), v(&[6, 7, 8]));
    assert_eq!(z.indexable(), 3);
    assert_eq!(z.idx(2), Some((3, 8)));
    assert_eq!(z.idx(3), None);
    assert_eq!(z.len(), 3);
    assert_eq!(z.next_back(), Some((3, 8)));
    assert_eq!(z.next(), Some((1, 6)));
    assert_eq!(z.next_back(), Some((2, 7)));
    assert_eq!(z.next_back(), None);
    assert_eq!(z.next(), None);
}

#[test]
fn batching_gathers_pairs() {
    let mut pit = v(&[0, 1, 2, 1, 3]).batching(|it: &mut VecSeq<i32>| match it.next() {
        None => None,
        Some(x) => match it.next() {
            None => None,
            Some(y) => Some((x, y)),
        },
    });
    assert_eq!(pit.size_hint(), (0, None));
    assert_eq!(pit.next(), Some((0, 1)));
    assert_eq!(pit.next(), Some((2, 1)));
    assert_eq!(pit.next(), None);
}
