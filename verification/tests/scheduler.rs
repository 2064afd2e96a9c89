use coin_portfolio::worker::{
    max_updated, plan_refresh, record_failure, record_success, select_next, wait_secs, Asset, Plan,
};

fn asset(id: &str, last_updated: i64, priority_score: i64) -> Asset {
    Asset { id: id.to_string(), last_updated, priority_score }
}

#[test]
fn selects_the_stalest_asset() {
    let assets = vec![asset("a", 30, 0), asset("b", 10, -5), asset("c", 20, 3)];
    assert_eq!(select_next(&assets), Some(1));
}

#[test]
fn ties_go_to_the_higher_score_then_to_the_first() {
    let assets = vec![asset("a", 10, -1), asset("b", 10, 0), asset("c", 10, 0)];
    assert_eq!(select_next(&assets), Some(1));
    assert_eq!(select_next(&Vec::new()), None);
}

#[test]
fn waits_for_what_is_left_of_the_interval() {
    assert_eq!(wait_secs(103, 100, 7), 4);
    assert_eq!(wait_secs(107, 100, 7), 0);
    assert_eq!(wait_secs(200, 100, 7), 0);
    assert_eq!(wait_secs(i64::MIN, i64::MAX, i64::MAX), u64::MAX);
}

#[test]
fn plans_a_wait_then_a_fetch() {
    let assets = vec![asset("a", 100, 0), asset("b", 90, 0)];
    assert_eq!(max_updated(&assets), Some(100));
    assert!(matches!(plan_refresh(&assets, 104, 7), Plan::Wait { secs: 3 }));
    assert!(matches!(plan_refresh(&assets, 107, 7), Plan::Fetch { index: 1, from: 90, to: 107 }));
    assert!(matches!(plan_refresh(&Vec::new(), 107, 7), Plan::Idle));
}

#[test]
fn success_resets_and_failure_penalizes() {
    let mut assets = vec![asset("a", 100, -2), asset("b", 90, 0)];
    record_success(&mut assets, 0, 150);
    assert_eq!((assets[0].last_updated, assets[0].priority_score), (150, 0));
    record_failure(&mut assets, 1);
    record_failure(&mut assets, 1);
    assert_eq!((assets[1].last_updated, assets[1].priority_score), (90, -2));
    assert_eq!(assets[1].id, "b");
    let mut lowest = vec![asset("c", 1, i64::MIN)];
    record_failure(&mut lowest, 0);
    assert_eq!(lowest[0].priority_score, i64::MIN);
}

#[test]
fn failing_assets_take_turns() {
    let mut assets = vec![asset("a", 100, 0), asset("b", 100, 0), asset("c", 200, 0)];
    let first = select_next(&assets).unwrap();
    assert_eq!(first, 0);
    record_failure(&mut assets, first);
    let second = select_next(&assets).unwrap();
    assert_eq!(second, 1);
    record_failure(&mut assets, second);
    let third = select_next(&assets).unwrap();
    assert_eq!(third, 0);
    record_success(&mut assets, third, 300);
    assert_eq!(select_next(&assets), Some(1));
}

#[test]
fn refreshes_are_spaced_and_their_windows_touch() {
    let mut assets = vec![asset("a", 100, 0), asset("b", 100, 0)];
    let mut now = 107;
    let mut windows: Vec<(usize, i64, i64)> = Vec::new();
    for _ in 0..6 {
        // too early: the scheduler waits for what is left of the interval
        if let Some((_, _, last)) = windows.last() {
            assert!(matches!(plan_refresh(&assets, last + 6, 7), Plan::Wait { secs: 1 }));
        }
        match plan_refresh(&assets, now, 7) {
            Plan::Fetch { index, from, to } => {
                assert!(from < to);
                let before: Vec<i64> = assets.iter().map(|a| a.last_updated).collect();
                record_success(&mut assets, index, to);
                for (a, was) in assets.iter().zip(before) {
                    assert!(was <= a.last_updated);
                }
                windows.push((index, from, to));
            }
            _ => panic!("a request was due"),
        }
        now += 7;
    }
    let order: Vec<usize> = windows.iter().map(|w| w.0).collect();
    assert_eq!(order, vec![0, 1, 0, 1, 0, 1]);
    for pair in windows.windows(2) {
        assert!(pair[1].2 - pair[0].2 >= 7);
    }
    // the window of an asset begins where its last window ended
    assert_eq!(windows[2], (0, 107, 121));
    assert_eq!(windows[3], (1, 114, 128));
    assert_eq!(windows[4].1, windows[2].2);
}

#[test]
fn a_penalty_does_not_bring_an_asset_forward() {
    let mut assets = vec![asset("a", 50, 0), asset("b", 10, 2), asset("c", 10, 1)];
    assert_eq!(select_next(&assets), Some(1));
    record_failure(&mut assets, 2);
    assert_eq!(select_next(&assets), Some(1));
    record_failure(&mut assets, 0);
    assert_eq!(select_next(&assets), Some(1));
    // among equally stale assets the one that keeps failing falls behind
    record_failure(&mut assets, 1);
    record_failure(&mut assets, 1);
    assert_eq!(select_next(&assets), Some(1));
    record_failure(&mut assets, 1);
    assert_eq!(select_next(&assets), Some(2));
}
