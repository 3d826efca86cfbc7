use nblast::bins::find_bin_binary;
use nblast::table::{table_to_fn, ScoreTable, TableError};

/// Maps a real number to an integer that orders as the number does.
fn key(x: f64) -> i64 {
    let bits = (x + 0.0).to_bits() as i64;
    if bits < 0 {
        bits ^ i64::MAX
    } else {
        bits
    }
}

fn keys(xs: &[f64]) -> Vec<i64> {
    xs.iter().map(|x| key(*x)).collect()
}

fn is_close(a: f64, b: f64) -> bool {
    (a - b).abs() < 0.001
}

fn score_mat() -> (Vec<f64>, Vec<f64>, Vec<f64>) {
    let dists = vec![10.0, 20.0, 30.0, 40.0, 50.0];
    let dots = vec![0.1, 0.2, 0.3, 0.4, 0.5, 0.6, 0.7, 0.8, 0.9, 1.0];
    let mut values = vec![];
    let n_values = dots.len() * dists.len();
    for v in 0..n_values {
        values.push(v as f64);
    }
    (dists, dots, values)
}

fn score(table: &ScoreTable<f64>, dist: f64, dot: f64) -> f64 {
    table.score(key(dist), key(dot))
}

#[test]
fn test_find_bin_binary() {
    let dots = keys(&[0.1, 0.2, 0.3, 0.4, 0.5, 0.6, 0.7, 0.8, 0.9, 1.0]);
    assert_eq!(find_bin_binary(key(0.0), &dots), 0);
    assert_eq!(find_bin_binary(key(0.15), &dots), 1);
    assert_eq!(find_bin_binary(key(0.95), &dots), 9);
    assert_eq!(find_bin_binary(key(-10.0), &dots), 0);
    assert_eq!(find_bin_binary(key(10.0), &dots), 9);
    assert_eq!(find_bin_binary(key(0.1), &dots), 1);
}

#[test]
fn test_score_fn() {
    let (dists, dots, values) = score_mat();
    let func = table_to_fn(keys(&dists), keys(&dots), values).unwrap();
    assert!(is_close(score(&func, 0.0, 0.0), 0.0));
    assert!(is_close(score(&func, 0.0, 0.1), 1.0));
    assert!(is_close(score(&func, 11.0, 0.0), 10.0));
    assert!(is_close(score(&func, 55.0, 0.0), 40.0));
    assert!(is_close(score(&func, 55.0, 10.0), 49.0));
    assert!(is_close(score(&func, 15.0, 0.15), 11.0));
}

#[test]
fn bin_of_value_on_each_bound() {
    let upper = keys(&[1.0, 2.0, 3.0]);
    assert_eq!(find_bin_binary(key(1.0), &upper), 1);
    assert_eq!(find_bin_binary(key(2.0), &upper), 2);
    assert_eq!(find_bin_binary(key(3.0), &upper), 2);
    assert_eq!(find_bin_binary(key(0.999), &upper), 0);
}

#[test]
fn bin_with_one_bound() {
    let upper = keys(&[5.0]);
    assert_eq!(find_bin_binary(key(-1.0), &upper), 0);
    assert_eq!(find_bin_binary(key(5.0), &upper), 0);
    assert_eq!(find_bin_binary(key(100.0), &upper), 0);
}

#[test]
fn bins_never_decrease() {
    let upper = keys(&[0.1, 0.2, 0.3, 0.4, 0.5, 0.6, 0.7, 0.8, 0.9, 1.0]);
    let values = [-3.0, 0.0, 0.05, 0.1, 0.1, 0.35, 0.5, 0.99, 1.0, 7.0];
    let mut last = 0;
    for v in values.iter() {
        let b = find_bin_binary(key(*v), &upper);
        assert!(b >= last);
        last = b;
    }
}

#[test]
fn negative_zero_is_zero() {
    let upper = keys(&[0.0, 1.0]);
    assert_eq!(find_bin_binary(key(-0.0), &upper), find_bin_binary(key(0.0), &upper));
}

#[test]
fn table_dimension_mismatch() {
    let r = table_to_fn(keys(&[1.0, 2.0]), keys(&[0.5, 1.0]), vec![1.0, 2.0, 4.0]);
    assert!(matches!(r, Err(TableError::TableDimensionMismatch)));
    let r = table_to_fn(keys(&[1.0, 2.0]), keys(&[0.5, 1.0]), vec![1.0, 2.0, 4.0, 8.0, 9.0]);
    assert!(matches!(r, Err(TableError::TableDimensionMismatch)));
}

#[test]
fn small_table_lookup() {
    let table = table_to_fn(keys(&[1.0, 2.0]), keys(&[0.5, 1.0]), vec![1.0, 2.0, 4.0, 8.0]).unwrap();
    assert_eq!(score(&table, 0.0, 1.0), 2.0);
    assert_eq!(score(&table, 0.0, 0.2), 1.0);
    assert_eq!(score(&table, 1.5, 0.2), 4.0);
    assert_eq!(score(&table, 1.5, 0.9), 8.0);
    assert_eq!(score(&table, 9.0, 0.9), 8.0);
}
