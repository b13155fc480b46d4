use chartcore::candle::Candle;
use chartcore::fixed::SCALE;
use chartcore::indicators::{
    bollinger_bands, compute_opening_range, exponential_moving_average, macd,
    relative_strength_index, simple_moving_average,
};

fn units(x: f64) -> i64 {
    (x * SCALE as f64).round() as i64
}

fn to_f64_3(v: i64) -> f64 {
    (v as f64 / SCALE as f64 * 1000.0).round() / 1000.0
}

#[test]
fn sma_scenario_five_closes() {
    // closes [100, 102, 101, 105, 110], SMA(3)
    let closes: Vec<i64> = vec![units(100.0), units(102.0), units(101.0), units(105.0), units(110.0)];
    let r = simple_moving_average(&closes, 3);
    assert_eq!(r.len(), 5);
    assert_eq!(r[0], None);
    assert_eq!(r[1], None);
    assert_eq!(r[2], Some(101_000_000));
    assert_eq!(r[3], Some(102_666_667));
    assert_eq!(r[4], Some(105_333_333));
    assert_eq!(to_f64_3(r[2].unwrap()), 101.0);
    assert_eq!(to_f64_3(r[3].unwrap()), 102.667);
    assert_eq!(to_f64_3(r[4].unwrap()), 105.333);
}

#[test]
fn sma_defined_count() {
    // period p > 1, length n: exactly n - p + 1 defined trailing values
    let closes: Vec<i64> = (1..=9).map(|x: i64| x * SCALE).collect();
    for p in 2..=9usize {
        let r = simple_moving_average(&closes, p);
        let defined = r.iter().filter(|v| v.is_some()).count();
        assert_eq!(defined, 9 - p + 1);
        for i in 0..r.len() {
            assert_eq!(r[i].is_some(), i + 1 >= p);
        }
    }
}

#[test]
fn sma_degenerate_periods() {
    let closes: Vec<i64> = vec![units(1.0), units(2.0)];
    assert_eq!(simple_moving_average(&closes, 0), vec![None, None]);
    assert_eq!(simple_moving_average(&closes, 3), vec![None, None]);
}

#[test]
fn ema_one_on_constant_series() {
    let closes: Vec<i64> = vec![units(42.5); 6];
    let r = exponential_moving_average(&closes, 1);
    for v in &r {
        assert_eq!(*v, Some(units(42.5)));
    }
}

#[test]
fn ema_reporting_starts_at_period_minus_one() {
    let closes: Vec<i64> = vec![units(10.0), units(20.0), units(30.0), units(40.0)];
    let r = exponential_moving_average(&closes, 3);
    assert_eq!(r[0], None);
    assert_eq!(r[1], None);
    assert!(r[2].is_some());
    assert!(r[3].is_some());
    // seed runs from index 0: ema0 = 10, ema1 = 10 + (20-10)*2/4 = 15,
    // ema2 = 15 + (30-15)*2/4 = 22.5, ema3 = 22.5 + (40-22.5)*2/4 = 31.25
    assert_eq!(r[2], Some(units(22.5)));
    assert_eq!(r[3], Some(units(31.25)));
}

#[test]
fn bollinger_width_is_two_k_sigma() {
    let closes: Vec<i64> = vec![units(1.0), units(2.0), units(3.0), units(4.0)];
    let (upper, lower) = bollinger_bands(&closes, 2, 2);
    assert_eq!(upper[0], None);
    assert_eq!(lower[0], None);
    // window [1, 2]: mean 1.5, sigma 0.5 => upper 2.5, lower 0.5
    assert_eq!(upper[1], Some(units(2.5)));
    assert_eq!(lower[1], Some(units(0.5)));
    for i in 0..4 {
        match (upper[i], lower[i]) {
            (Some(u), Some(l)) => {
                // width = 2 * k * sigma, and sigma = (u - mean) / k exactly here
                assert_eq!((u - l) % 4, 0);
                let sigma = (u - l) / 4;
                assert_eq!(u - l, 2 * 2 * sigma);
            }
            (None, None) => {}
            _ => panic!("bands must be defined together"),
        }
    }
}

#[test]
fn bollinger_degenerate_period() {
    let closes: Vec<i64> = vec![units(1.0); 3];
    let (upper, lower) = bollinger_bands(&closes, 0, 2);
    assert!(upper.iter().all(|v| v.is_none()));
    assert!(lower.iter().all(|v| v.is_none()));
    let (upper2, _) = bollinger_bands(&closes, 4, 2);
    assert!(upper2.iter().all(|v| v.is_none()));
}

#[test]
fn rsi_bounds_and_short_series() {
    let closes: Vec<i64> = vec![
        units(44.0),
        units(44.3),
        units(44.1),
        units(43.6),
        units(44.3),
        units(44.8),
        units(45.1),
        units(45.4),
        units(45.1),
        units(46.0),
        units(45.8),
        units(46.0),
        units(46.4),
        units(46.2),
        units(46.3),
        units(46.3),
    ];
    let r = relative_strength_index(&closes, 14);
    for i in 0..14 {
        assert_eq!(r[i], None);
    }
    for i in 14..16 {
        let v = r[i].expect("defined from the period index on");
        assert!(0 <= v && v <= 100 * SCALE);
    }
    let short: Vec<i64> = vec![units(1.0)];
    assert_eq!(relative_strength_index(&short, 14), vec![None]);
}

#[test]
fn rsi_strictly_increasing_is_pegged_at_hundred() {
    let closes: Vec<i64> = (1..=20).map(|x: i64| x * SCALE).collect();
    let r = relative_strength_index(&closes, 14);
    for i in 0..14 {
        assert_eq!(r[i], None);
    }
    for i in 14..20 {
        assert_eq!(r[i], Some(100 * SCALE));
    }
}

#[test]
fn macd_histogram_is_difference_where_both_defined() {
    let closes: Vec<i64> = (0..30).map(|x: i64| units(50.0) + x * units(0.5)).collect();
    let m = macd(&closes, 12, 26, 9);
    assert_eq!(m.macd.len(), 30);
    assert_eq!(m.signal.len(), 30);
    assert_eq!(m.histogram.len(), 30);
    for i in 0..30 {
        match (m.macd[i], m.signal[i]) {
            (Some(line), Some(sig)) => {
                assert_eq!(m.histogram[i], Some(line - sig));
            }
            _ => assert_eq!(m.histogram[i], None),
        }
    }
    // the MACD line needs both EMAs: undefined before index 25
    for i in 0..25 {
        assert_eq!(m.macd[i], None);
        assert_eq!(m.histogram[i], None);
    }
    assert!(m.macd[25].is_some());
    // the signal line is the EMA of the zero-filled line: defined from index 8
    assert_eq!(m.signal[7], None);
    assert!(m.signal[8].is_some());
    assert!(m.histogram[25].is_some());
}

fn candle_at(ts_s: i64, offset_s: i32, high: f64, low: f64) -> Candle {
    Candle {
        ts_utc_millis: ts_s * 1000,
        local_offset_secs: offset_s,
        open: units(1.0),
        high: units(high),
        low: units(low),
        close: units(1.0),
        volume: None,
    }
}

#[test]
fn orb_window_scenario() {
    // Local (Berlin, CET = +01:00) times on 2024-03-11: 08:59, 09:00,
    // 09:10, 09:16 with highs 10/12/15/20. Window [09:00, 09:15] local.
    let day_utc = 1_710_115_200; // 2024-03-11T00:00:00Z
    let off = 3600;
    let local = |h: i64, m: i64| day_utc + h * 3600 + m * 60 - off as i64;
    let candles = vec![
        candle_at(local(8, 59), off, 10.0, 9.0),
        candle_at(local(9, 0), off, 12.0, 8.0),
        candle_at(local(9, 10), off, 15.0, 7.0),
        candle_at(local(9, 16), off, 20.0, 1.0),
    ];
    let orb = compute_opening_range(&candles, 15).expect("candles inside the window");
    assert_eq!(orb.start_utc_millis, local(9, 0) * 1000);
    assert_eq!(orb.end_utc_millis, local(9, 15) * 1000);
    assert_eq!(orb.local_offset_secs, off);
    assert_eq!(orb.high, units(15.0));
    assert_eq!(orb.low, units(7.0));
}

#[test]
fn orb_empty_and_miss() {
    assert!(compute_opening_range(&Vec::new(), 15).is_none());
    // one candle at 23:30 local: outside the [09:00, 09:15] window
    let day_utc = 1_710_115_200;
    let c = candle_at(day_utc + 23 * 3600 + 30 * 60 - 3600, 3600, 5.0, 4.0);
    assert!(compute_opening_range(&vec![c], 15).is_none());
}
