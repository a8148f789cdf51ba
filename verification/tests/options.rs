use option_result_iter::optioniter::OptionSource;
use option_result_iter::OptionIter;

#[test]
fn options_unwrap() {
    let a: Vec<Option<i32>> = vec![Some(1), Some(2), Some(3)];
    let v: Vec<i32> = OptionSource::new(a).unwrap().into_vec();
    assert_eq!(v, vec![1i32, 2, 3]);
}

#[test]
fn options_unwrap_or() {
    let a: Vec<Option<i32>> = vec![Some(1), None, Some(3)];
    let v: Vec<i32> = OptionSource::new(a).unwrap_or(5).into_vec();
    assert_eq!(v, vec![1i32, 5, 3]);
}

#[test]
fn options_count_some() {
    let a: Vec<Option<i32>> = vec![Some(1), None, Some(3)];
    let n = OptionSource::new(a).count_some();
    assert_eq!(n, 2);
}

#[test]
fn options_find_some() {
    let a: Vec<Option<i32>> = vec![Some(1), None, Some(3)];
    let mut it = OptionSource::new(a);
    assert_eq!(it.find_some(), Some(1));
    assert_eq!(it.find_some(), Some(3));
    assert_eq!(it.find_some(), None);
}

#[test]
fn options_has_some() {
    let a: Vec<Option<i32>> = vec![None, Some(3), None];
    assert_eq!(OptionSource::new(a).has_some(), true);
    let a: Vec<Option<i32>> = vec![None, None, None];
    assert_eq!(OptionSource::new(a).has_some(), false);
}

#[test]
fn options_has_none() {
    let a: Vec<Option<i32>> = vec![Some(3), None, Some(1)];
    assert_eq!(OptionSource::new(a).has_none(), true);
    let a: Vec<Option<i32>> = vec![Some(1), Some(2), Some(3)];
    assert_eq!(OptionSource::new(a).has_none(), false);
}

#[test]
fn options_some_iter() {
    let a: Vec<Option<i32>> = vec![Some(3), None, Some(1)];
    let v: Vec<i32> = OptionSource::new(a).some_iter().into_vec();
    assert_eq!(vec![3i32, 1], v);
}

#[test]
fn options_unwrap_next_steps() {
    let a: Vec<Option<i32>> = vec![Some(4), Some(5)];
    let mut u = OptionSource::new(a).unwrap();
    assert_eq!(u.next(), Some(4));
    assert_eq!(u.next(), Some(5));
    assert_eq!(u.next(), None);
}

#[test]
fn options_unwrap_or_next_steps() {
    let a: Vec<Option<i32>> = vec![None, Some(7)];
    let mut u = OptionSource::new(a).unwrap_or(5);
    assert_eq!(u.next(), Some(5));
    assert_eq!(u.next(), Some(7));
    assert_eq!(u.next(), None);
}

#[test]
fn options_unwrap_or_each_absent_gets_default() {
    let a: Vec<Option<i32>> = vec![None, Some(7), None];
    let v: Vec<i32> = OptionSource::new(a).unwrap_or(5).into_vec();
    assert_eq!(v, vec![5i32, 7, 5]);
}

#[test]
fn options_some_iter_next_steps() {
    let a: Vec<Option<i32>> = vec![None, Some(3), None, Some(1)];
    let mut f = OptionSource::new(a).some_iter();
    assert_eq!(f.next(), Some(3));
    assert_eq!(f.next(), Some(1));
    assert_eq!(f.next(), None);
}

#[test]
fn options_unwrap_or_matches_unwrap_without_absent() {
    let a: Vec<Option<i32>> = vec![Some(4), Some(5), Some(6)];
    let u: Vec<i32> = OptionSource::new(a.clone()).unwrap().into_vec();
    let d: Vec<i32> = OptionSource::new(a).unwrap_or(9).into_vec();
    assert_eq!(u, d);
}

#[test]
fn options_counts_cover_length() {
    let a: Vec<Option<i32>> = vec![Some(1), None, Some(3), None];
    let len = a.len();
    let n_some = OptionSource::new(a.clone()).count_some();
    let mut it = OptionSource::new(a);
    let mut n_none = 0usize;
    while it.has_none() {
        n_none += 1;
    }
    assert_eq!(n_some, 2);
    assert_eq!(n_some + n_none, len);
}

#[test]
fn options_empty_source() {
    let empty: Vec<Option<i32>> = vec![];
    assert_eq!(OptionSource::new(empty.clone()).count_some(), 0);
    assert_eq!(OptionSource::new(empty.clone()).find_some(), None);
    assert_eq!(OptionSource::new(empty.clone()).has_some(), false);
    assert_eq!(OptionSource::new(empty.clone()).has_none(), false);
    let filtered: Vec<i32> = OptionSource::new(empty.clone()).some_iter().into_vec();
    assert_eq!(filtered, vec![]);
    let defaulted: Vec<i32> = OptionSource::new(empty).unwrap_or(5).into_vec();
    assert_eq!(defaulted, vec![]);
}

#[test]
fn options_size_hints() {
    let a: Vec<Option<i32>> = vec![Some(1), None, Some(3)];
    let src = OptionSource::new(a);
    assert_eq!(src.size_hint(), (3, Some(3)));
    let f = src.some_iter();
    assert_eq!(f.size_hint(), (0, Some(3)));
    let b: Vec<Option<i32>> = vec![Some(1), None];
    let u = OptionSource::new(b).unwrap_or(0);
    assert_eq!(u.size_hint(), (2, Some(2)));
}
