use option_result_iter::resultiter::ResultSource;
use option_result_iter::ResultIter;

#[test]
fn results_unwrap() {
    let a: Vec<Result<i32, ()>> = vec![Ok(1), Ok(2), Ok(3)];
    let v: Vec<i32> = ResultSource::new(a).unwrap().into_vec();
    assert_eq!(v, vec![1i32, 2, 3]);
}

#[test]
fn results_unwrap_or() {
    let a: Vec<Result<i32, ()>> = vec![Ok(1), Err(()), Ok(3)];
    let v: Vec<i32> = ResultSource::new(a).unwrap_or(5).into_vec();
    assert_eq!(v, vec![1i32, 5, 3]);
}

#[test]
fn results_count_ok() {
    let a: Vec<Result<i32, ()>> = vec![Ok(1), Err(()), Ok(3)];
    assert_eq!(ResultSource::new(a).count_ok(), 2);
}

#[test]
fn results_count_err() {
    let a: Vec<Result<i32, ()>> = vec![Ok(1), Err(()), Ok(3)];
    assert_eq!(ResultSource::new(a).count_err(), 1)
}

#[test]
fn results_count_ok_err() {
    let a: Vec<Result<i32, ()>> = vec![Ok(1), Err(()), Ok(3)];
    assert_eq!(ResultSource::new(a).count_ok_err(), (2, 1))
}

#[test]
fn results_find_ok() {
    let a: Vec<Result<i32, ()>> = vec![Ok(1), Err(()), Ok(3)];
    let mut it = ResultSource::new(a);
    assert_eq!(it.find_ok(), Some(1));
    assert_eq!(it.find_ok(), Some(3));
    assert_eq!(it.find_ok(), None);
}

#[test]
fn results_find_err() {
    let a: Vec<Result<(), i32>> = vec![Err(1), Ok(()), Err(3)];
    let mut it = ResultSource::new(a);
    assert_eq!(it.find_err(), Some(1));
    assert_eq!(it.find_err(), Some(3));
    assert_eq!(it.find_err(), None);
}

#[test]
fn results_has_ok() {
    let a: Vec<Result<(), ()>> = vec![Err(()), Err(()), Ok(())];
    assert_eq!(ResultSource::new(a).has_ok(), true);
    let a: Vec<Result<(), ()>> = vec![Err(()), Err(()), Err(())];
    assert_eq!(ResultSource::new(a).has_ok(), false);
}

#[test]
fn results_has_err() {
    let a: Vec<Result<(), ()>> = vec![Ok(()), Err(()), Ok(())];
    assert_eq!(ResultSource::new(a).has_err(), true);
    let a: Vec<Result<(), ()>> = vec![Ok(()), Ok(()), Ok(())];
    assert_eq!(ResultSource::new(a).has_err(), false);
}

#[test]
fn results_ok_iter() {
    let a: Vec<Result<i32, i32>> = vec![Ok(1), Err(2), Ok(3), Err(4)];
    let v: Vec<i32> = ResultSource::new(a).ok_iter().into_vec();
    assert_eq!(vec![1i32, 3], v);
}

#[test]
fn results_err_iter() {
    let a: Vec<Result<i32, i32>> = vec![Ok(1), Err(2), Ok(3), Err(4)];
    let v: Vec<i32> = ResultSource::new(a).err_iter().into_vec();
    assert_eq!(vec![2i32, 4], v);
}

#[test]
fn results_unwrap_next_steps() {
    let a: Vec<Result<i32, ()>> = vec![Ok(4), Ok(5)];
    let mut u = ResultSource::new(a).unwrap();
    assert_eq!(u.next(), Some(4));
    assert_eq!(u.next(), Some(5));
    assert_eq!(u.next(), None);
}

#[test]
fn results_unwrap_or_next_steps() {
    let a: Vec<Result<i32, i32>> = vec![Err(9), Ok(7)];
    let mut u = ResultSource::new(a).unwrap_or(5);
    assert_eq!(u.next(), Some(5));
    assert_eq!(u.next(), Some(7));
    assert_eq!(u.next(), None);
}

#[test]
fn results_ok_iter_next_steps() {
    let a: Vec<Result<i32, i32>> = vec![Err(2), Ok(3), Err(4), Ok(1)];
    let mut f = ResultSource::new(a).ok_iter();
    assert_eq!(f.next(), Some(3));
    assert_eq!(f.next(), Some(1));
    assert_eq!(f.next(), None);
}

#[test]
fn results_err_iter_next_steps() {
    let a: Vec<Result<i32, i32>> = vec![Ok(2), Err(3), Ok(4), Err(1)];
    let mut f = ResultSource::new(a).err_iter();
    assert_eq!(f.next(), Some(3));
    assert_eq!(f.next(), Some(1));
    assert_eq!(f.next(), None);
}

#[test]
fn results_unwrap_or_matches_unwrap_without_failure() {
    let a: Vec<Result<i32, i32>> = vec![Ok(4), Ok(5), Ok(6)];
    let u: Vec<i32> = ResultSource::new(a.clone()).unwrap().into_vec();
    let d: Vec<i32> = ResultSource::new(a).unwrap_or(9).into_vec();
    assert_eq!(u, d);
}

#[test]
fn results_counts_agree() {
    let a: Vec<Result<i32, i32>> = vec![Ok(1), Err(2), Err(3), Ok(4), Err(5)];
    let (ok_n, err_n) = ResultSource::new(a.clone()).count_ok_err();
    assert_eq!(ok_n, ResultSource::new(a.clone()).count_ok());
    assert_eq!(err_n, ResultSource::new(a.clone()).count_err());
    assert_eq!(ok_n + err_n, a.len());
}

#[test]
fn results_split_covers_all_elements() {
    let a: Vec<Result<i32, i32>> = vec![Ok(1), Err(2), Ok(3), Err(4), Err(5)];
    let oks: Vec<i32> = ResultSource::new(a.clone()).ok_iter().into_vec();
    let errs: Vec<i32> = ResultSource::new(a.clone()).err_iter().into_vec();
    assert_eq!(oks, vec![1i32, 3]);
    assert_eq!(errs, vec![2i32, 4, 5]);
    assert_eq!(oks.len() + errs.len(), a.len());
}

#[test]
fn results_empty_source() {
    let empty: Vec<Result<i32, i32>> = vec![];
    assert_eq!(ResultSource::new(empty.clone()).count_ok(), 0);
    assert_eq!(ResultSource::new(empty.clone()).count_err(), 0);
    assert_eq!(ResultSource::new(empty.clone()).count_ok_err(), (0, 0));
    assert_eq!(ResultSource::new(empty.clone()).find_ok(), None);
    assert_eq!(ResultSource::new(empty.clone()).find_err(), None);
    assert_eq!(ResultSource::new(empty.clone()).has_ok(), false);
    assert_eq!(ResultSource::new(empty.clone()).has_err(), false);
    let oks: Vec<i32> = ResultSource::new(empty.clone()).ok_iter().into_vec();
    assert_eq!(oks, vec![]);
    let errs: Vec<i32> = ResultSource::new(empty).err_iter().into_vec();
    assert_eq!(errs, vec![]);
}

#[test]
fn results_size_hints() {
    let a: Vec<Result<i32, i32>> = vec![Ok(1), Err(2)];
    let src = ResultSource::new(a);
    assert_eq!(src.size_hint(), (2, Some(2)));
    let f = src.err_iter();
    assert_eq!(f.size_hint(), (0, Some(2)));
    let b: Vec<Result<i32, i32>> = vec![Ok(1)];
    let u = ResultSource::new(b).unwrap_or(0);
    assert_eq!(u.size_hint(), (1, Some(1)));
}
