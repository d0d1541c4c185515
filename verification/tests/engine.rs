use rust_core::data::Tick;
use rust_core::engine::{backtest, Engine, COMMISSION, MULTIPLIER, START_CASH};
use rust_core::equity::{window_of, EquityPoint, ROLL};

fn tick_at(i: usize, price: i32) -> Tick {
    Tick { ts: 1_700_000_000_000 + 60_000 * (i as i64), price, volume: 10 }
}

fn ticks_of(prices: &[i32]) -> Vec<Tick> {
    prices.iter().enumerate().map(|(i, p)| tick_at(i, *p)).collect()
}

/// A fixed series that wanders up and down.
fn wandering(len: usize) -> Vec<i32> {
    let mut state: u64 = 0x2545_f491_4f6c_dd1d;
    let mut price: i32 = 500_000;
    let mut out: Vec<i32> = Vec::new();
    for _ in 0..len {
        state ^= state << 13;
        state ^= state >> 7;
        state ^= state << 17;
        let step: i32 = (state % 401) as i32 - 200;
        price += step;
        out.push(price);
    }
    out
}

/// The rolling Sharpe ratio of a window of equity values.
fn sharpe(window: &[i128]) -> f64 {
    if window.len() <= 2 {
        return 0.0;
    }
    let returns: Vec<f64> = window.windows(2).map(|w| w[1] as f64 / w[0] as f64 - 1.0).collect();
    let count: f64 = returns.len() as f64;
    let mean: f64 = returns.iter().sum::<f64>() / count;
    let variance: f64 = returns.iter().map(|r| (r - mean) * (r - mean)).sum::<f64>() / count;
    if variance > 0.0 {
        mean / variance.sqrt() * 252_f64.sqrt()
    } else {
        0.0
    }
}

#[test]
fn scenario_equity_curve_and_cash() {
    let prices: [i32; 10] = [10, 10, 10, 10, 11, 12, 13, 9, 8, 7];
    let mut engine = Engine::new(2, 4, 1_000_000);
    engine.run(ticks_of(&prices));
    let equities: Vec<i128> = engine.result().iter().map(|p| p.equity).collect();
    // Entry at index 4 at 11: cash 1,000,000 - 11 * 50 - 250 = 999,200.
    // Exit at index 7 at 9: cash 999,200 + 9 * 50 - 250 = 999,400.
    let expected: Vec<i128> = vec![
        1_000_000, 1_000_000, 1_000_000, 1_000_000, 1_000_000, 999_800, 999_850, 999_650, 999_400,
        999_400,
    ];
    assert_eq!(equities, expected);
    assert_eq!(engine.cash(), 999_400);
    assert_eq!(engine.position(), 0);
    let lookbacks: Vec<usize> = engine.result().iter().map(|p| p.lookback).collect();
    assert_eq!(lookbacks, vec![1, 2, 3, 4, 5, 6, 7, 8, 9, 10]);
    assert_eq!(engine.window(), expected);
}

#[test]
fn scenario_position_and_cash_tick_by_tick() {
    let prices: [i32; 10] = [10, 10, 10, 10, 11, 12, 13, 9, 8, 7];
    let positions: [i32; 10] = [0, 0, 0, 0, 1, 1, 1, 0, 0, 0];
    let cash: [i128; 10] = [
        1_000_000, 1_000_000, 1_000_000, 1_000_000, 999_200, 999_200, 999_200, 999_400, 999_400,
        999_400,
    ];
    let mut engine = Engine::new(2, 4, 1_000_000);
    for (i, price) in prices.iter().enumerate() {
        engine.step(tick_at(i, *price));
        assert_eq!(engine.position(), positions[i]);
        assert_eq!(engine.cash(), cash[i]);
        assert_eq!(engine.result().len(), i + 1);
    }
}

#[test]
fn scenario_in_hundredths() {
    // fast 2, slow 3, prices around 5000.00.
    let prices: [i32; 6] = [500_000, 500_025, 500_100, 500_050, 499_900, 499_800];
    let curve = backtest(ticks_of(&prices), 2, 3, 10_000_000);
    let equities: Vec<i128> = curve.iter().map(|p| p.equity).collect();
    // Entry at index 2 at 5001.00: cash 10,000,000 - 25,005,000 - 250.
    // Index 3: marked at 5000.50, 50 * 50 hundredths below the entry.
    // Exit at index 4 at 4999.00.
    assert_eq!(
        equities,
        vec![10_000_000, 10_000_000, 10_000_000, 9_997_250, 9_989_750, 9_989_500]
    );
}

#[test]
fn curve_has_one_point_per_tick() {
    for len in [0usize, 1, 2, 3, 7, 50, 333] {
        let prices = wandering(len);
        let ticks = ticks_of(&prices);
        let curve = backtest(ticks.clone(), 3, 8, 5_000_000);
        assert_eq!(curve.len(), len);
        for i in 0..len {
            assert_eq!(curve[i].ts, ticks[i].ts);
        }
    }
}

#[test]
fn curve_grows_over_repeated_runs() {
    let prices = wandering(40);
    let ticks = ticks_of(&prices);
    let mut engine = Engine::new(2, 5, 5_000_000);
    engine.run(ticks[..15].to_vec());
    assert_eq!(engine.result().len(), 15);
    engine.run(Vec::new());
    assert_eq!(engine.result().len(), 15);
    engine.run(ticks[15..].to_vec());
    assert_eq!(engine.result().len(), 40);
    let whole = backtest(ticks, 2, 5, 5_000_000);
    assert_eq!(engine.result(), whole.as_slice());
}

#[test]
fn step_by_step_equals_run() {
    let prices = wandering(200);
    let ticks = ticks_of(&prices);
    let mut stepped = Engine::new(4, 9, 7_500_000);
    for tick in ticks.iter() {
        stepped.step(*tick);
    }
    let mut ran = Engine::new(4, 9, 7_500_000);
    ran.run(ticks);
    assert_eq!(stepped.result(), ran.result());
    assert_eq!(stepped.cash(), ran.cash());
    assert_eq!(stepped.position(), ran.position());
    assert_eq!(stepped.window(), ran.window());
}

#[test]
fn first_two_points_have_no_sharpe() {
    let prices = wandering(30);
    let curve = backtest(ticks_of(&prices), 1, 2, 5_000_000);
    assert_eq!(curve[0].lookback, 1);
    assert_eq!(curve[1].lookback, 2);
    assert!(!curve[0].has_sharpe());
    assert!(!curve[1].has_sharpe());
    assert_eq!(sharpe(&window_of(&curve, 0)), 0.0);
    assert_eq!(sharpe(&window_of(&curve, 1)), 0.0);
    for i in 2..curve.len() {
        assert!(curve[i].has_sharpe());
        assert_eq!(curve[i].lookback, i + 1);
    }
}

#[test]
fn sharpe_is_not_zero_once_returns_vary() {
    // fast 1, slow 2 on 100, 200, 300, 200: entry at index 1, so the equity
    // moves from index 2 on.
    let curve = backtest(ticks_of(&[100, 200, 300, 200]), 1, 2, 1_000_000);
    let equities: Vec<i128> = curve.iter().map(|p| p.equity).collect();
    assert_eq!(equities, vec![1_000_000, 1_000_000, 1_004_750, 999_750]);
    assert_eq!(window_of(&curve, 2), vec![1_000_000, 1_000_000, 1_004_750]);
    // Returns 0 and 0.00475: mean 0.002375, deviation 0.002375.
    let third: f64 = sharpe(&window_of(&curve, 2));
    assert!((third - 252_f64.sqrt()).abs() < 1e-9);
    assert!(sharpe(&window_of(&curve, 3)) != 0.0);
}

#[test]
fn position_is_flat_or_long_throughout() {
    let prices = wandering(1500);
    for (fast, slow) in [(1usize, 2usize), (2, 4), (5, 20), (10, 10), (20, 5), (0, 3), (3, 0)] {
        let mut engine = Engine::new(fast, slow, 10_000_000);
        assert_eq!(engine.position(), 0);
        for (i, price) in prices.iter().enumerate() {
            engine.step(tick_at(i, *price));
            let position: i32 = engine.position();
            assert!(position == 0 || position == 1);
        }
    }
}

#[test]
fn commission_is_paid_once_per_fill() {
    assert_eq!(COMMISSION, 250);
    assert_eq!(MULTIPLIER, 50);
    let prices = wandering(1500);
    let mut engine = Engine::new(3, 7, 10_000_000);
    let mut fills: i128 = 0;
    let mut spent: i128 = 0;
    for (i, price) in prices.iter().enumerate() {
        let cash_before: i128 = engine.cash();
        let position_before: i32 = engine.position();
        engine.step(tick_at(i, *price));
        let bought: i128 = (engine.position() - position_before) as i128;
        if bought == 0 {
            assert_eq!(engine.cash(), cash_before);
        } else {
            assert_eq!(engine.cash(), cash_before - bought * (*price as i128) * 50 - 250);
            fills += 1;
            spent += bought * (*price as i128) * 50;
        }
    }
    assert!(fills > 10);
    assert_eq!(engine.cash(), 10_000_000 - spent - 250 * fills);
}

#[test]
fn equity_is_marked_before_the_fill_of_the_same_tick() {
    // fast 1, slow 2: entry at index 1 at 200, exit at index 3 at 100.
    let mut engine = Engine::new(1, 2, 0);
    engine.step(tick_at(0, 100));
    engine.step(tick_at(1, 200));
    assert_eq!(engine.result()[1].equity, 0);
    assert_eq!(engine.position(), 1);
    assert_eq!(engine.cash(), -200 * 50 - 250);
    engine.step(tick_at(2, 300));
    assert_eq!(engine.result()[2].equity, -200 * 50 - 250 + 300 * 50);
    engine.step(tick_at(3, 100));
    assert_eq!(engine.result()[3].equity, -200 * 50 - 250 + 100 * 50);
    assert_eq!(engine.position(), 0);
    assert_eq!(engine.cash(), -200 * 50 - 250 + 100 * 50 - 250);
}

#[test]
fn constant_series_never_trades() {
    for (fast, slow) in [(2usize, 4usize), (1, 1), (3, 9), (9, 3)] {
        let prices: Vec<i32> = vec![432_100; 25];
        let mut engine = Engine::new(fast, slow, 10_000_000);
        for (i, price) in prices.iter().enumerate() {
            engine.step(tick_at(i, *price));
            assert_eq!(engine.position(), 0);
            assert_eq!(engine.cash(), 10_000_000);
        }
        let curve = engine.result();
        assert_eq!(curve.len(), 25);
        for i in 0..curve.len() {
            assert_eq!(curve[i].equity, 10_000_000);
            assert_eq!(sharpe(&window_of(curve, i)), 0.0);
        }
    }
}

#[test]
fn history_keeps_the_last_values_only() {
    assert_eq!(ROLL, 2000);
    let prices = wandering(2005);
    let mut engine = Engine::new(5, 20, 10_000_000);
    engine.run(ticks_of(&prices));
    let curve = engine.result();
    assert_eq!(curve[1999].lookback, 2000);
    assert_eq!(curve[2000].lookback, 2001);
    assert_eq!(curve[2001].lookback, 2001);
    assert_eq!(curve[2004].lookback, 2001);
    let equities: Vec<i128> = curve.iter().map(|p| p.equity).collect();
    assert_eq!(engine.window(), equities[4..].to_vec());
    assert_eq!(window_of(curve, 2004), equities[4..].to_vec());
    assert_eq!(window_of(curve, 2001), equities[1..2002].to_vec());
    assert_eq!(window_of(curve, 2000), equities[..2001].to_vec());
    assert_eq!(window_of(curve, 10), equities[..11].to_vec());
}

#[test]
fn window_of_follows_the_lookback_of_the_point() {
    let points: Vec<EquityPoint> = vec![
        EquityPoint { ts: 1, equity: 10, lookback: 1 },
        EquityPoint { ts: 2, equity: 20, lookback: 2 },
        EquityPoint { ts: 3, equity: 30, lookback: 1 },
        EquityPoint { ts: 4, equity: 40, lookback: 2 },
        EquityPoint { ts: 5, equity: 50, lookback: 0 },
        EquityPoint { ts: 6, equity: 60, lookback: 9 },
    ];
    assert_eq!(window_of(&points, 0), vec![10]);
    assert_eq!(window_of(&points, 1), vec![10, 20]);
    assert_eq!(window_of(&points, 2), vec![30]);
    assert_eq!(window_of(&points, 3), vec![30, 40]);
    assert_eq!(window_of(&points, 4), Vec::<i128>::new());
    assert_eq!(window_of(&points, 5), vec![10, 20, 30, 40, 50, 60]);
}

#[test]
fn a_new_engine_is_flat_and_empty() {
    let engine = Engine::new(2, 4, -17);
    assert_eq!(engine.position(), 0);
    assert_eq!(engine.cash(), -17);
    assert!(engine.result().is_empty());
    assert!(engine.window().is_empty());
    assert_eq!(START_CASH, 10_000_000);
}

#[test]
fn extreme_capital_and_prices_fit() {
    let prices: [i32; 8] =
        [i32::MAX, i32::MAX, i32::MIN, i32::MIN, i32::MAX, i32::MAX, i32::MAX, i32::MIN];
    // fast 1, slow 3: entry at index 4 at the highest price, exit at index 7
    // at the lowest.
    let mut engine = Engine::new(1, 3, i64::MAX);
    engine.run(ticks_of(&prices));
    let top: i128 = i32::MAX as i128;
    let bottom: i128 = i32::MIN as i128;
    let start: i128 = i64::MAX as i128;
    assert_eq!(engine.result()[4].equity, start);
    assert_eq!(engine.result()[5].equity, start - 250);
    assert_eq!(engine.result()[7].equity, start - top * 50 - 250 + bottom * 50);
    assert_eq!(engine.cash(), start - top * 50 - 250 + bottom * 50 - 250);
    assert_eq!(engine.position(), 0);
    let mut low = Engine::new(1, 3, i64::MIN);
    low.run(ticks_of(&prices));
    assert_eq!(low.cash(), i64::MIN as i128 - top * 50 - 250 + bottom * 50 - 250);
}
