use rust_core::data::Tick;
use rust_core::engine::{backtest, Engine, START_CASH};
use rust_core::equity::{window_of, EquityPoint};
use rust_core::grid::{evaluate, grid_pairs, grid_search};
use rust_core::walkforward::walk_forward;

fn tick_number(i: usize, price: i32) -> Tick {
    Tick { ts: 1_600_000_000_000 + 1_000 * (i as i64), price, volume: 3 }
}

fn zigzag(len: usize) -> Vec<Tick> {
    let mut out: Vec<Tick> = Vec::new();
    for i in 0..len {
        let phase: i32 = (i % 14) as i32;
        let leg: i32 = if phase < 7 { phase } else { 14 - phase };
        out.push(tick_number(i, 400_000 + 250 * leg + 3 * (i as i32)));
    }
    out
}

fn sorted(mut pairs: Vec<(usize, usize)>) -> Vec<(usize, usize)> {
    pairs.sort();
    pairs
}

#[test]
fn walk_forward_concatenates_the_test_segments() {
    let ticks = zigzag(50);
    // Blocks of 7 + 5 ticks, starting 5 apart: the blocks start at 0, 5, ..., 35.
    let out = walk_forward(&ticks, 7, 5, 2, 3);
    let mut expected: Vec<EquityPoint> = Vec::new();
    for start in [0usize, 5, 10, 15, 20, 25, 30, 35] {
        let segment: Vec<Tick> = ticks[start + 7..start + 12].to_vec();
        expected.extend(backtest(segment, 2, 3, START_CASH));
    }
    assert_eq!(out.len(), 40);
    assert_eq!(out, expected);
    assert_eq!(out[0].ts, ticks[7].ts);
    assert_eq!(out[5].ts, ticks[12].ts);
    assert_eq!(out[39].ts, ticks[46].ts);
    assert!(out.iter().any(|p| p.equity != START_CASH as i128));
}

#[test]
fn walk_forward_has_test_len_points_per_full_window() {
    for len in 0usize..40 {
        let ticks = zigzag(len);
        for train_len in 0usize..9 {
            for test_len in 1usize..9 {
                let out = walk_forward(&ticks, train_len, test_len, 2, 4);
                let windows: usize =
                    if len < train_len { 0 } else { (len - train_len) / test_len };
                assert_eq!(out.len(), windows * test_len);
            }
        }
    }
}

#[test]
fn walk_forward_starts_every_window_cold() {
    let ticks = zigzag(60);
    // With a slow period of 6 and test segments of 5 ticks no window ever
    // has a full strategy window, whatever the training ticks held.
    let out = walk_forward(&ticks, 20, 5, 2, 6);
    assert_eq!(out.len(), 40);
    for (i, point) in out.iter().enumerate() {
        assert_eq!(point.equity, START_CASH as i128);
        assert_eq!(point.lookback, i % 5 + 1);
    }
}

#[test]
fn walk_forward_windows_look_back_within_the_window() {
    let ticks = zigzag(64);
    let out = walk_forward(&ticks, 4, 10, 2, 3);
    assert_eq!(out.len(), 60);
    for i in 0..out.len() {
        assert_eq!(out[i].lookback, i % 10 + 1);
        let window = window_of(&out, i);
        let first: usize = i - i % 10;
        let expected: Vec<i128> = out[first..=i].iter().map(|p| p.equity).collect();
        assert_eq!(window, expected);
        assert_eq!(out[i].has_sharpe(), i % 10 >= 2);
    }
}

#[test]
fn walk_forward_without_a_full_window_is_empty() {
    let ticks = zigzag(10);
    assert!(walk_forward(&ticks, 11, 1, 2, 4).is_empty());
    assert!(walk_forward(&ticks, 6, 5, 2, 4).is_empty());
    assert!(walk_forward(&ticks, 0, 11, 2, 4).is_empty());
    assert!(walk_forward(&ticks, usize::MAX, 1, 2, 4).is_empty());
    assert!(walk_forward(&ticks, 1, usize::MAX, 2, 4).is_empty());
    assert!(walk_forward(&ticks, usize::MAX, usize::MAX, 2, 4).is_empty());
    assert!(walk_forward(&[], 0, 1, 2, 4).is_empty());
    assert_eq!(walk_forward(&ticks, 5, 5, 2, 4).len(), 5);
    assert_eq!(walk_forward(&ticks, 0, 10, 2, 4).len(), 10);
    assert_eq!(walk_forward(&ticks, 0, 1, 2, 4).len(), 10);
}

#[test]
fn grid_pairs_are_the_pairs_with_fast_below_slow() {
    assert_eq!(
        sorted(grid_pairs(&(1..=3), &(2..=4))),
        vec![(1, 2), (1, 3), (1, 4), (2, 3), (2, 4), (3, 4)]
    );
    assert_eq!(sorted(grid_pairs(&(3..=5), &(1..=4))), vec![(3, 4)]);
    assert_eq!(sorted(grid_pairs(&(2..=2), &(2..=2))), vec![]);
    assert_eq!(sorted(grid_pairs(&(0..=1), &(1..=1))), vec![(0, 1)]);
    assert_eq!(sorted(grid_pairs(&(7..=9), &(1..=7))), vec![]);
    assert_eq!(
        sorted(grid_pairs(&(usize::MAX - 1..=usize::MAX), &(usize::MAX - 1..=usize::MAX))),
        vec![(usize::MAX - 1, usize::MAX)]
    );
}

#[test]
fn grid_pairs_of_an_empty_range_are_none() {
    #[allow(clippy::reversed_empty_ranges)]
    let backwards = 5..=1;
    assert!(grid_pairs(&backwards, &(1..=9)).is_empty());
    assert!(grid_pairs(&(1..=9), &backwards).is_empty());
    let mut used = 1..=3;
    assert_eq!(used.by_ref().count(), 3);
    assert!(grid_pairs(&used, &(1..=9)).is_empty());
    assert!(grid_pairs(&(1..=9), &used).is_empty());
}

#[test]
fn grid_search_reports_what_a_single_backtest_ends_with() {
    let ticks = zigzag(120);
    let cells = grid_search(&ticks, 1..=4, 3..=6);
    let pairs: Vec<(usize, usize)> = cells.iter().map(|c| (c.fast, c.slow)).collect();
    assert_eq!(
        sorted(pairs),
        vec![
            (1, 3), (1, 4), (1, 5), (1, 6), (2, 3), (2, 4), (2, 5), (2, 6), (3, 4), (3, 5),
            (3, 6), (4, 5), (4, 6),
        ]
    );
    let mut differing: usize = 0;
    for cell in cells.iter() {
        let curve = backtest(ticks.clone(), cell.fast, cell.slow, START_CASH);
        assert_eq!(cell.window, window_of(&curve, curve.len() - 1));
        let mut engine = Engine::new(cell.fast, cell.slow, START_CASH);
        engine.run(ticks.clone());
        assert_eq!(cell.window, engine.window());
        assert_eq!(cell.window.len(), 120);
        assert!(cell.has_sharpe());
        if cell.window != cells[0].window {
            differing += 1;
        }
    }
    assert!(differing > 0);
}

#[test]
fn grid_search_over_no_ticks_has_empty_windows() {
    let cells = grid_search(&[], 1..=2, 2..=3);
    assert_eq!(cells.len(), 3);
    for cell in cells.iter() {
        assert!(cell.window.is_empty());
        assert!(!cell.has_sharpe());
    }
    let short = grid_search(&zigzag(2), 1..=1, 2..=2);
    assert_eq!(short.len(), 1);
    assert_eq!(short[0].window, vec![START_CASH as i128, START_CASH as i128]);
    assert!(!short[0].has_sharpe());
}

#[test]
fn evaluate_runs_the_pair_it_is_given() {
    let ticks = zigzag(80);
    let cell = evaluate(&ticks, 2, 5);
    assert_eq!((cell.fast, cell.slow), (2, 5));
    let curve = backtest(ticks.clone(), 2, 5, START_CASH);
    let equities: Vec<i128> = curve.iter().map(|p| p.equity).collect();
    assert_eq!(cell.window, equities);
    let other = evaluate(&ticks, 5, 2);
    assert_eq!((other.fast, other.slow), (5, 2));
    assert!(other.window.iter().all(|e| *e == START_CASH as i128));
}
