use rsqrt_test::stats::max_value;
use rsqrt_test::stats::min_from;
use rsqrt_test::stats::percentile_points;
use rsqrt_test::stats::select_rank;

// The reducer works on order-preserving keys: for the non-negative values an
// error buffer holds, `f32::to_bits` read as `u32` orders as the values do.
fn keys(values: &[f32]) -> Vec<u32> {
    values.iter().map(|v| v.to_bits()).collect()
}

fn sorted(mut v: Vec<u32>) -> Vec<u32> {
    v.sort();
    v
}

#[test]
fn select_rank_partitions_and_permutes() {
    let original: Vec<u32> = vec![5, 1, 4, 2, 3, 3, 9, 0];
    let mut v = original.clone();
    select_rank(&mut v, 4);
    assert_eq!(v.len(), original.len());
    assert_eq!(sorted(v.clone()), sorted(original));
    let pivot = v[4];
    assert_eq!(pivot, 3);
    for i in 0..4 {
        assert!(v[i] <= pivot);
    }
    for j in 5..v.len() {
        assert!(pivot <= v[j]);
    }
}

#[test]
fn select_rank_matches_full_sort_at_every_rank() {
    let original: Vec<u32> = vec![7, 7, 2, 9, 4, 2, 8];
    let by_sort = sorted(original.clone());
    for k in 0..original.len() {
        let mut v = original.clone();
        select_rank(&mut v, k);
        assert_eq!(v[k], by_sort[k]);
    }
}

#[test]
fn select_rank_first_and_last() {
    let mut v: Vec<u32> = vec![4, 2, 9, 7, 1];
    select_rank(&mut v, 0);
    assert_eq!(v[0], 1);
    let mut v: Vec<u32> = vec![4, 2, 9, 7, 1];
    select_rank(&mut v, 4);
    assert_eq!(v[4], 9);
}

#[test]
fn max_and_min_from() {
    let v: Vec<u32> = vec![3, 8, 1, 8, 2];
    assert_eq!(max_value(&v), 8);
    assert_eq!(min_from(&v, 0), 1);
    assert_eq!(min_from(&v, 3), 2);
    assert_eq!(min_from(&v, 4), 2);
}

#[test]
fn percentile_integer_rank_is_exact_order_statistic() {
    // N * p integral: 4 * 75 / 100 = 3, fraction 0 — the percentile is the
    // key at sorted rank 3 itself.
    let mut v = keys(&[0.2, 0.4, 0.1, 0.3]);
    let r = percentile_points(&mut v, 75, 100);
    assert_eq!(r.rank, 3);
    assert_eq!(r.frac_num, 0);
    assert_eq!(r.frac_den, 100);
    assert_eq!(f32::from_bits(r.lower), 0.4);
}

#[test]
fn percentile_fractional_rank_interpolation_points() {
    // N * p fractional: 4 * 45 / 100 = 1.8 — rank 1 with fraction 0.8; the
    // convention weights the *lower* neighbour by the fractional part:
    // 0.2 * 0.8 + 0.3 * (1 - 0.8) = 0.22.
    let mut v = keys(&[0.2, 0.4, 0.1, 0.3]);
    let r = percentile_points(&mut v, 45, 100);
    assert_eq!(r.rank, 1);
    assert_eq!(r.frac_num, 80);
    assert_eq!(r.frac_den, 100);
    assert_eq!(f32::from_bits(r.lower), 0.2);
    assert_eq!(f32::from_bits(r.upper), 0.3);
    let frac = r.frac_num as f64 / r.frac_den as f64;
    let value = f32::from_bits(r.lower) as f64 * frac + f32::from_bits(r.upper) as f64 * (1.0
        - frac);
    assert!((value - 0.22).abs() < 1e-6);
}

#[test]
fn percentile_fraction_at_last_rank_uses_lower_twice() {
    // 4 * 95 / 100 = 3.8: rank 3 is the last position, so there is no higher
    // key and both interpolation points are the rank-3 key.
    let mut v = keys(&[0.1, 0.2, 0.3, 0.4]);
    let r = percentile_points(&mut v, 95, 100);
    assert_eq!(r.rank, 3);
    assert_eq!(r.frac_num, 80);
    assert_eq!(r.upper, r.lower);
    assert_eq!(f32::from_bits(r.lower), 0.4);
}

#[test]
fn percentile_reorders_but_keeps_all_keys() {
    let original = keys(&[0.9, 0.1, 0.5, 0.3, 0.7, 0.2]);
    let mut v = original.clone();
    let _ = percentile_points(&mut v, 99, 100);
    assert_eq!(sorted(v), sorted(original));
}
