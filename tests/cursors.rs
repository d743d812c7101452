use custom_vector::iter::{Drain, IntoIter, Iter, IterMut};
use custom_vector::raw_vec::RawVec;

fn filled() -> RawVec<i32> {
    let mut raw = RawVec::with_capacity(3);
    raw.write_at(0, 1);
    raw.write_at(1, 2);
    raw.write_at(2, 3);
    raw
}

#[test]
fn iter_test_into_iter() {
    let raw = filled();
    let mut iter = IntoIter::new(raw, 0, 3);
    let mut collected: Vec<i32> = Vec::new();
    while let Some(x) = iter.next() {
        collected.push(x);
    }
    assert_eq!(collected, vec![1, 2, 3]);
}

#[test]
fn iter_test_iter() {
    let raw = filled();
    let mut iter = Iter::new(&raw, 0, 3);
    let mut collected: Vec<&i32> = Vec::new();
    while let Some(x) = iter.next() {
        collected.push(x);
    }
    assert_eq!(collected, vec![&1, &2, &3]);
}

#[test]
fn iter_test_iter_mut() {
    let mut raw = filled();
    let mut iter = IterMut::new(&mut raw, 0, 3);
    let mut collected: Vec<i32> = Vec::new();
    while let Some(x) = iter.next() {
        collected.push(*x);
    }
    assert_eq!(collected, vec![1, 2, 3]);
}

#[test]
fn iter_test_drain() {
    let mut raw = filled();
    let mut drain = Drain::new(&mut raw, 0, 3, 3);
    let mut collected: Vec<i32> = Vec::new();
    while let Some(x) = drain.next() {
        collected.push(x);
    }
    assert_eq!(collected, vec![1, 2, 3]);
}

#[test]
fn test_into_iter_double_ended() {
    let raw = filled();
    let mut iter = IntoIter::new(raw, 0, 3);
    assert_eq!(iter.next(), Some(1));
    assert_eq!(iter.next_back(), Some(3));
    assert_eq!(iter.next(), Some(2));
    assert_eq!(iter.next(), None);
    assert_eq!(iter.next_back(), None);
}

#[test]
fn test_iter_double_ended() {
    let raw = filled();
    let mut iter = Iter::new(&raw, 0, 3);
    assert_eq!(iter.next(), Some(&1));
    assert_eq!(iter.next_back(), Some(&3));
    assert_eq!(iter.next(), Some(&2));
    assert_eq!(iter.next(), None);
    assert_eq!(iter.next_back(), None);
}

#[test]
fn test_iter_mut_double_ended() {
    let mut raw = filled();
    let mut iter = IterMut::new(&mut raw, 0, 3);
    assert_eq!(*iter.next().unwrap(), 1);
    assert_eq!(*iter.next_back().unwrap(), 3);
    assert_eq!(*iter.next().unwrap(), 2);
    assert_eq!(iter.next(), None);
    assert_eq!(iter.next_back(), None);
}

#[test]
fn test_drain_double_ended() {
    let mut raw = filled();
    let mut drain = Drain::new(&mut raw, 0, 3, 3);
    assert_eq!(drain.next(), Some(1));
    assert_eq!(drain.next_back(), Some(3));
    assert_eq!(drain.next(), Some(2));
    assert_eq!(drain.next(), None);
    assert_eq!(drain.next_back(), None);
}

#[test]
fn test_size_hint() {
    // Test IntoIter
    let raw1 = filled();
    let iter = IntoIter::new(raw1, 0, 3);
    assert_eq!(iter.size_hint(), (3, Some(3)));

    // Test immutable iterator
    let mut raw2 = filled();
    let iter = Iter::new(&raw2, 0, 3);
    assert_eq!(iter.size_hint(), (3, Some(3)));

    // Test mutable iterator
    let iter = IterMut::new(&mut raw2, 0, 3);
    assert_eq!(iter.size_hint(), (3, Some(3)));
    drop(iter); // Explicitly drop to release mutable borrow

    // Test drain
    let drain = Drain::new(&mut raw2, 0, 3, 3);
    assert_eq!(drain.size_hint(), (3, Some(3)));
}
