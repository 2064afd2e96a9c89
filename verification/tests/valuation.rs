use coin_portfolio::valuation::{
    bucket_of, bucket_samples, bucket_size, coin_history, fits, held_at, history_query, merge_points,
    value_points, POINTS_NUM,
};

#[test]
fn two_units_over_two_buckets() {
    let rows = vec![(0i64, 10.0f64), (1, 12.0), (2, 15.0)];
    let states = vec![(0i64, 2.0f64)];
    let points = coin_history(&rows, 0, 100, &states, 2, 0.0, 0.0);
    assert_eq!(points, vec![(0, (10.0, 2.0)), (50, (12.0, 2.0))]);
    let fx_rate = 1.0;
    let values: Vec<(i64, f64)> =
        points.iter().map(|&(t, (price, amount))| (t, price * amount * fx_rate)).collect();
    assert_eq!(values, vec![(0, 20.0), (50, 24.0)]);
}

#[test]
fn bucket_size_is_the_window_in_parts_and_at_least_one() {
    assert_eq!(POINTS_NUM, 100);
    assert_eq!(bucket_size(0, 100, 2), 50);
    assert_eq!(bucket_size(1000, 1000 + 86400, 100), 864);
    assert_eq!(bucket_size(0, 99, 100), 1);
    assert_eq!(bucket_size(500, 100, 100), 1);
    assert_eq!(bucket_size(0, i64::MAX, 1), i64::MAX);
}

#[test]
fn buckets_round_down() {
    assert_eq!(bucket_of(0, 50), 0);
    assert_eq!(bucket_of(49, 50), 0);
    assert_eq!(bucket_of(50, 50), 1);
    assert_eq!(bucket_of(-1, 50), -1);
    assert_eq!(bucket_of(-50, 50), -1);
    assert_eq!(bucket_of(-51, 50), -2);
    assert_eq!(bucket_of(i64::MIN, 1), i64::MIN);
    assert_eq!(bucket_of(i64::MIN, i64::MAX), -2);
}

#[test]
fn series_has_one_point_per_bucket_in_ascending_order() {
    let rows: Vec<(i64, f64)> = Vec::new();
    let states = vec![(1000i64, 1.0f64)];
    let points = coin_history(&rows, 1000, 1000 + 86400, &states, 100, 0.0, 0.0);
    assert_eq!(points.len(), 100);
    assert_eq!(points[0].0, 864);
    for w in points.windows(2) {
        assert!(w[0].0 < w[1].0);
        assert_eq!(w[1].0 - w[0].0, 864);
    }
    // a window that ends earlier in its bucket than it begins in its own
    let odd = coin_history(&rows, 3, 204, &states, 100, 0.0, 0.0);
    assert_eq!(odd.len(), 101);
    let none = coin_history(&rows, 500, 100, &states, 100, 0.0, 0.0);
    assert!(none.is_empty());
}

#[test]
fn gaps_repeat_the_bucket_before() {
    // buckets of width 10 from 0 to 60; samples in buckets 1 and 4 only
    let rows = vec![(1i64, 5.0f64), (4, 7.0)];
    let states = vec![(0i64, 1.0f64), (35, 3.0)];
    let points = coin_history(&rows, 0, 60, &states, 6, 0.0, 0.0);
    assert_eq!(
        points,
        vec![
            (0, (0.0, 0.0)),
            (10, (5.0, 1.0)),
            (20, (5.0, 1.0)),
            (30, (5.0, 1.0)),
            (40, (7.0, 3.0)),
            (50, (7.0, 3.0)),
        ]
    );
}

#[test]
fn samples_before_the_first_event_only_seed_the_price() {
    // first event in bucket 3: buckets 0..3 carry the seed price and no amount
    let rows = vec![(0i64, 1.0f64), (2, 2.0), (3, 4.0), (3, 5.0)];
    let states = vec![(30i64, 9.0f64)];
    let points = coin_history(&rows, 0, 50, &states, 5, -1.0, -2.0);
    assert_eq!(
        points,
        vec![
            (0, (2.0, -2.0)),
            (10, (2.0, -2.0)),
            (20, (2.0, -2.0)),
            (30, (5.0, 9.0)),
            (40, (5.0, 9.0)),
        ]
    );
    let unseeded = coin_history(&vec![(3i64, 4.0f64)], 0, 40, &states, 4, -1.0, -2.0);
    assert_eq!(unseeded[0], (0, (-1.0, -2.0)));
}

#[test]
fn holdings_are_a_step_function() {
    let states = vec![(10i64, 1.0f64), (20, 2.0), (30, 3.0)];
    assert_eq!(held_at(&states, 10), Some(0));
    assert_eq!(held_at(&states, 19), Some(0));
    assert_eq!(held_at(&states, 20), Some(1));
    assert_eq!(held_at(&states, 29), Some(1));
    assert_eq!(held_at(&states, 30), Some(2));
    assert_eq!(held_at(&states, 1000), Some(2));
    // nothing is held before the first event
    assert_eq!(held_at(&states, 9), None);
    assert_eq!(held_at(&vec![(10i64, 1.0f64)], 5), None);
    assert_eq!(held_at(&Vec::<(i64, f64)>::new(), 5), None);
}

#[test]
fn no_amount_is_applied_before_its_event() {
    // the first event lies within its bucket, and a later event is far off
    let states = vec![(75i64, 1.0f64), (1000, 5.0)];
    let rows = vec![(1i64, 10.0f64), (2, 11.0), (20, 12.0)];
    let points = coin_history(&rows, 75, 5075, &states, 100, 0.0, 0.0);
    assert_eq!(points.len(), 100);
    assert_eq!(points[0], (50, (10.0, 0.0)));
    assert_eq!(points[1], (100, (11.0, 1.0)));
    assert_eq!(points[18], (950, (11.0, 1.0)));
    assert_eq!(points[19], (1000, (12.0, 5.0)));
    assert_eq!(points[99], (5000, (12.0, 5.0)));
}

#[test]
fn query_reaches_a_tenth_of_the_points_back() {
    let q = history_query(0, 10000, 2000, 100);
    assert_eq!((q.bucket_size, q.bucket_since, q.since_time), (100, 20, 1000));
    let q = history_query(0, 100, 0, 2);
    assert_eq!((q.bucket_size, q.bucket_since, q.since_time), (50, 0, -10));
    let q = history_query(1000, 1000 + 86400, 5000, 100);
    assert_eq!((q.bucket_size, q.bucket_since, q.since_time), (864, 5, 5 * 864 - 8640));
    let q = history_query(0, 50, 7, 100);
    assert_eq!((q.bucket_size, q.bucket_since, q.since_time), (1, 7, -3));
}

#[test]
fn merge_keeps_every_share_once() {
    let a = vec![(0i64, (10.0f64, 2.0f64)), (50, (12.0, 2.0))];
    let b = vec![(50i64, (1.0f64, 100.0f64)), (100, (2.0, 100.0))];
    let merged = merge_points(&vec![a, b]);
    assert_eq!(
        merged,
        vec![
            (0, vec![(10.0, 2.0)]),
            (50, vec![(12.0, 2.0), (1.0, 100.0)]),
            (100, vec![(2.0, 100.0)]),
        ]
    );
    let fx_rate = 6.5;
    let totals: Vec<(i64, f64)> = merged
        .iter()
        .map(|(t, shares)| (*t, shares.iter().map(|&(p, q)| p * q * fx_rate).sum()))
        .collect();
    assert_eq!(totals, vec![(0, 130.0), (50, 24.0 * 6.5 + 100.0 * 6.5), (100, 1300.0)]);
}

#[test]
fn merge_orders_times_however_the_points_come() {
    let a = vec![(30i64, (1u8, 1u8)), (10, (2, 2)), (30, (3, 3))];
    let b = vec![(20i64, (4u8, 4u8))];
    let merged = merge_points(&vec![a, b, Vec::new()]);
    assert_eq!(merged, vec![(10, vec![(2, 2)]), (20, vec![(4, 4)]), (30, vec![(1, 1), (3, 3)])]);
    let empty: Vec<Vec<(i64, (u8, u8))>> = Vec::new();
    assert!(merge_points(&empty).is_empty());
}

#[test]
fn samples_are_grouped_by_bucket() {
    let samples = vec![
        (5i64, 1.0f64),
        (10, 2.0),
        (49, 3.0),
        (50, 4.0),
        (120, 5.0),
        (51, 6.0),
        (-1, 7.0),
    ];
    let groups = bucket_samples(&samples, 50, 5);
    assert_eq!(groups, vec![(0, vec![2.0, 3.0]), (1, vec![4.0, 6.0]), (2, vec![5.0])]);
    let all = bucket_samples(&samples, 50, i64::MIN);
    assert_eq!(all[0], (-1, vec![7.0]));
    assert_eq!(all[1], (0, vec![1.0, 2.0, 3.0]));
    let rows: Vec<(i64, f64)> = groups
        .iter()
        .map(|(k, prices)| (*k, prices.iter().sum::<f64>() / prices.len() as f64))
        .collect();
    assert_eq!(rows, vec![(0, 2.5), (1, 5.0), (2, 5.0)]);
    assert!(bucket_samples(&Vec::<(i64, f64)>::new(), 1, 0).is_empty());
}

#[test]
fn raw_samples_to_value_points() {
    // prices 10, 12 and 15 at the times 0, 50 and 100; two units held from the start
    let samples = vec![(0i64, 10.0f64), (50, 12.0), (100, 15.0)];
    let states = vec![(0i64, 2.0f64)];
    let q = history_query(0, 100, states[0].0, 2);
    let rows: Vec<(i64, f64)> = bucket_samples(&samples, q.bucket_size, q.since_time)
        .iter()
        .map(|(k, prices)| (*k, prices.iter().sum::<f64>() / prices.len() as f64))
        .collect();
    let points = coin_history(&rows, 0, 100, &states, 2, 0.0, 0.0);
    let merged = merge_points(&vec![points]);
    let values: Vec<(i64, f64)> = merged
        .iter()
        .map(|(t, shares)| (*t, shares.iter().map(|&(p, a)| p * a * 6.0).sum()))
        .collect();
    assert_eq!(values, vec![(0, 120.0), (50, 144.0)]);
}

#[test]
fn times_before_the_epoch_are_laid_out_too() {
    let rows = vec![(-2i64, 5.0f64), (0, 6.0)];
    let states = vec![(-15i64, 1.0f64)];
    assert!(fits(-17, 13, -15, 3));
    let q = history_query(-17, 13, -15, 3);
    assert_eq!((q.bucket_size, q.bucket_since, q.since_time), (10, -2, -23));
    let points = coin_history(&rows, -17, 13, &states, 3, 0.0, 0.0);
    assert_eq!(points, vec![(-20, (5.0, 0.0)), (-10, (5.0, 0.0)), (0, (6.0, 1.0))]);
}

#[test]
fn windows_beyond_the_range_of_times_do_not_fit() {
    assert!(fits(0, 100, 0, 2));
    assert!(fits(1500000000, 1600000000, 1550000000, 100));
    assert!(!fits(0, 100, 0, 0));
    assert!(!fits(0, 100, 0, -1));
    assert!(!fits(-1, i64::MAX, 0, 100));
    assert!(!fits(i64::MIN, i64::MIN + 100, 0, 2));
    assert!(!fits(0, 100, i64::MIN, 2));
    assert!(fits(0, i64::MAX, 0, 100));
    assert!(fits(i64::MIN, i64::MIN + 5, i64::MIN + 200, 100));
}

#[test]
fn all_assets_give_one_share_at_each_time() {
    let groups = vec![
        ("bitcoin".to_string(), vec![(0i64, 2.0f64)]),
        ("ethereum".to_string(), vec![(60i64, 10.0f64)]),
    ];
    let rows = vec![vec![(0i64, 10.0f64), (1, 12.0)], vec![(0i64, 1.0f64), (1, 3.0)]];
    let merged = value_points(&groups, &rows, 0, 100, 2, 0.0, 0.0);
    assert_eq!(
        merged,
        vec![(0, vec![(10.0, 2.0), (1.0, 0.0)]), (50, vec![(12.0, 2.0), (3.0, 0.0)])]
    );
    let later = value_points(&groups, &rows, 0, 150, 3, 0.0, 0.0);
    assert_eq!(later.len(), 3);
    assert_eq!(later[2], (100, vec![(12.0, 2.0), (3.0, 0.0)]));
    let none: Vec<(String, Vec<(i64, f64)>)> = Vec::new();
    assert!(value_points(&none, &Vec::<Vec<(i64, f64)>>::new(), 0, 100, 2, 0.0, 0.0).is_empty());
}
