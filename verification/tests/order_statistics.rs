use stat_engine::outliers::outlier_positions;
use stat_engine::ranks::{
    order_key, picks_from_order, quantile_picks, rank_order, MedianAt, RankPicks,
};

fn keys_of(values: &[f64]) -> Vec<i64> {
    values.iter().map(|x| order_key(x.to_bits())).collect()
}

fn median_of(values: &[f64], picks: &RankPicks) -> f64 {
    match picks.median {
        MedianAt::Single(at) => values[at],
        MedianAt::Pair(low, high) => (values[low] + values[high]) / 2.0,
    }
}

#[test]
fn keys_order_numbers_as_their_values_do() {
    let ascending = [
        f64::NEG_INFINITY,
        f64::MIN,
        -1.0e10,
        -2.5,
        -1.0,
        -f64::MIN_POSITIVE,
        -5e-324,
        0.0,
        5e-324,
        f64::MIN_POSITIVE,
        0.1,
        1.0,
        1.5,
        3.0,
        1.0e10,
        f64::MAX,
        f64::INFINITY,
    ];
    for pair in ascending.windows(2) {
        assert!(
            order_key(pair[0].to_bits()) < order_key(pair[1].to_bits()),
            "{} and {}",
            pair[0],
            pair[1]
        );
    }
}

#[test]
fn key_is_the_signed_magnitude() {
    assert_eq!(order_key(0), 0);
    assert_eq!(order_key(1), 1);
    assert_eq!(order_key(0x7fff_ffff_ffff_ffff), i64::MAX);
    assert_eq!(order_key(0x8000_0000_0000_0000), 0);
    assert_eq!(order_key(0x8000_0000_0000_0001), -1);
    assert_eq!(order_key(0xffff_ffff_ffff_ffff), -i64::MAX);
    assert_eq!(order_key((0.0f64).to_bits()), order_key((-0.0f64).to_bits()));
    assert_eq!(order_key((1.0f64).to_bits()), 0x3ff0_0000_0000_0000);
    assert_eq!(order_key((-1.0f64).to_bits()), -0x3ff0_0000_0000_0000);
    assert!(order_key(f64::NAN.to_bits()).abs() > order_key(f64::INFINITY.to_bits()));
}

#[test]
fn summary_of_one_to_ten() {
    let values = [1.0, 2.0, 3.0, 4.0, 5.0, 6.0, 7.0, 8.0, 9.0, 10.0];
    let keys = keys_of(&values);
    let picks = quantile_picks(&keys).unwrap();
    assert_eq!(picks.sample_size, 10);
    assert_eq!(median_of(&values, &picks), 5.5);
    assert_eq!(picks.median, MedianAt::Pair(4, 5));
    assert_eq!(picks.q1_at, 2);
    assert_eq!(values[picks.q1_at], 3.0);
    assert_eq!(picks.q3_at, 7);
    assert_eq!(values[picks.q3_at], 8.0);
    assert_eq!(values[picks.min_at], 1.0);
    assert_eq!(values[picks.max_at], 10.0);
    let q1 = values[picks.q1_at];
    let q3 = values[picks.q3_at];
    let iqr = q3 - q1;
    let lower = q1 - 1.5 * iqr;
    let upper = q3 + 1.5 * iqr;
    assert_eq!((lower, upper), (-4.5, 15.5));
    let outliers =
        outlier_positions(&keys, order_key(lower.to_bits()), order_key(upper.to_bits()));
    assert_eq!(outliers.len(), 0);
}

#[test]
fn rank_order_sorts_and_keeps_ties_in_place() {
    let keys = vec![5, 1, 4, 1, 5, 9, 2, 6, 5, 3];
    assert_eq!(rank_order(&keys), vec![1, 3, 6, 9, 2, 0, 4, 8, 7, 5]);
    assert_eq!(rank_order(&Vec::new()), Vec::<usize>::new());
    assert_eq!(rank_order(&vec![7]), vec![0]);
    assert_eq!(rank_order(&vec![3, 3, 3, 3]), vec![0, 1, 2, 3]);
    assert_eq!(rank_order(&vec![2, 1]), vec![1, 0]);
    assert_eq!(rank_order(&vec![i64::MAX, i64::MIN, 0]), vec![1, 2, 0]);
}

#[test]
fn rank_order_agrees_with_a_stable_sort() {
    let mut state: u64 = 0x2545_f491_4f6c_dd1d;
    for len in [0usize, 1, 2, 3, 7, 16, 33, 100, 1000] {
        let mut keys = Vec::new();
        for _ in 0..len {
            state ^= state << 13;
            state ^= state >> 7;
            state ^= state << 17;
            keys.push((state % 17) as i64 - 8);
        }
        let mut expected: Vec<usize> = (0..len).collect();
        expected.sort_by_key(|at| keys[*at]);
        assert_eq!(rank_order(&keys), expected, "length {}", len);
    }
}

#[test]
fn picks_for_small_samples() {
    assert_eq!(quantile_picks(&Vec::new()), None);
    assert_eq!(picks_from_order(&Vec::new()), None);
    assert_eq!(
        quantile_picks(&vec![42]),
        Some(RankPicks {
            sample_size: 1,
            min_at: 0,
            max_at: 0,
            median: MedianAt::Single(0),
            q1_at: 0,
            q3_at: 0
        })
    );
    assert_eq!(
        quantile_picks(&vec![20, 10]),
        Some(RankPicks {
            sample_size: 2,
            min_at: 1,
            max_at: 0,
            median: MedianAt::Pair(1, 0),
            q1_at: 1,
            q3_at: 0
        })
    );
    assert_eq!(
        quantile_picks(&vec![30, 10, 20]),
        Some(RankPicks {
            sample_size: 3,
            min_at: 1,
            max_at: 0,
            median: MedianAt::Single(2),
            q1_at: 1,
            q3_at: 0
        })
    );
}

#[test]
fn quartiles_are_read_at_truncated_ranks() {
    for n in 1usize..=64 {
        let order: Vec<usize> = (0..n).collect();
        let picks = picks_from_order(&order).unwrap();
        assert_eq!(picks.q1_at, n / 4, "size {}", n);
        assert_eq!(picks.q3_at, 3 * n / 4, "size {}", n);
        assert_eq!(picks.min_at, 0);
        assert_eq!(picks.max_at, n - 1);
        let expected = if n % 2 == 0 {
            MedianAt::Pair(n / 2 - 1, n / 2)
        } else {
            MedianAt::Single(n / 2)
        };
        assert_eq!(picks.median, expected, "size {}", n);
    }
}

#[test]
fn median_of_unsorted_samples() {
    let odd = [9.0, 1.0, 5.0];
    let picks = quantile_picks(&keys_of(&odd)).unwrap();
    assert_eq!(median_of(&odd, &picks), 5.0);
    let even = [4.0, 1.0, 3.0, 2.0];
    let picks = quantile_picks(&keys_of(&even)).unwrap();
    assert_eq!(median_of(&even, &picks), 2.5);
    assert_eq!(even[picks.min_at], 1.0);
    assert_eq!(even[picks.max_at], 4.0);
}

#[test]
fn outliers_keep_their_order_and_their_doubles() {
    let values = [100.0, 1.0, 2.0, -50.0, 3.0, 100.0, 2.0, -50.0];
    let keys = keys_of(&values);
    let lower = order_key((0.0f64).to_bits());
    let upper = order_key((10.0f64).to_bits());
    assert_eq!(outlier_positions(&keys, lower, upper), vec![0, 3, 5, 7]);
}

#[test]
fn items_on_a_fence_are_no_outliers() {
    let keys = vec![1, 2, 3, 4, 5];
    assert_eq!(outlier_positions(&keys, 2, 4), vec![0, 4]);
    assert_eq!(outlier_positions(&keys, 1, 5), Vec::<usize>::new());
    assert_eq!(outlier_positions(&keys, 6, 7), vec![0, 1, 2, 3, 4]);
    assert_eq!(outlier_positions(&keys, i64::MIN, i64::MAX), Vec::<usize>::new());
    assert_eq!(outlier_positions(&Vec::new(), 0, 0), Vec::<usize>::new());
}

#[test]
fn a_far_value_is_an_outlier() {
    let values = [10.0, 12.0, 11.0, 13.0, 12.0, 11.0, 10.0, 1000.0];
    let keys = keys_of(&values);
    let picks = quantile_picks(&keys).unwrap();
    let q1 = values[picks.q1_at];
    let q3 = values[picks.q3_at];
    assert_eq!((q1, q3), (11.0, 13.0));
    let iqr = q3 - q1;
    let lower = order_key((q1 - 1.5 * iqr).to_bits());
    let upper = order_key((q3 + 1.5 * iqr).to_bits());
    assert_eq!(outlier_positions(&keys, lower, upper), vec![7]);
}

#[test]
fn same_input_gives_the_same_picks() {
    let keys = vec![3, -1, 4, -1, 5, -9, 2, 6];
    assert_eq!(quantile_picks(&keys), quantile_picks(&keys));
    assert_eq!(rank_order(&keys), rank_order(&keys));
    assert_eq!(outlier_positions(&keys, 0, 4), outlier_positions(&keys, 0, 4));
}
