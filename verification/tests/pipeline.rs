use chartcore::assemble::{assemble_series, sort_candles};
use chartcore::candle::Candle;
use chartcore::json::{JsonNum, JsonValue};
use chartcore::models::IndicatorOptions;
use chartcore::{chart_from_payload, ChartError};

fn num_i(v: i64) -> JsonValue {
    JsonValue::Num(JsonNum::Int(v))
}

fn record(ts_s: i64, close: i64) -> JsonValue {
    JsonValue::Arr(vec![num_i(ts_s), num_i(close), num_i(close), num_i(close), num_i(close)])
}

fn options_none() -> IndicatorOptions {
    IndicatorOptions {
        sma_periods: Vec::new(),
        ema_periods: Vec::new(),
        show_bollinger: false,
        show_rsi: false,
        show_macd: false,
        show_volume: false,
        orb_minutes: 15,
    }
}

#[test]
fn empty_items_envelope_is_the_no_data_error() {
    let payload = JsonValue::Obj(vec![("items".to_string(), JsonValue::Arr(Vec::new()))]);
    let r = chart_from_payload(payload, &options_none());
    match r {
        Err(e) => {
            assert_eq!(e, ChartError::NoData);
            assert_eq!(e.message(), "Keine Kursdaten vom Server erhalten");
        }
        Ok(_) => panic!("an empty candidate list must be fatal"),
    }
}

#[test]
fn unparseable_records_are_dropped_but_survivors_win() {
    let payload = JsonValue::Arr(vec![
        JsonValue::Str("garbage".to_string()),
        record(1_710_061_200, 10),
        JsonValue::Null,
        record(1_710_061_260, 11),
    ]);
    let r = chart_from_payload(payload, &options_none()).unwrap();
    assert_eq!(r.candles.len(), 2);
    assert_eq!(r.candles[0].ts_utc_millis, 1_710_061_200_000);
    assert_eq!(r.candles[1].ts_utc_millis, 1_710_061_260_000);
}

#[test]
fn assembler_sorts_ascending_by_timestamp() {
    let payload = JsonValue::Arr(vec![
        record(300, 3),
        record(100, 1),
        record(200, 2),
    ]);
    let r = assemble_series(payload).unwrap();
    let ts: Vec<i64> = r.iter().map(|c| c.ts_utc_millis).collect();
    assert_eq!(ts, vec![100_000, 200_000, 300_000]);
}

#[test]
fn assembler_sort_is_idempotent_on_sorted_input() {
    let mk = |ts: i64| Candle {
        ts_utc_millis: ts,
        local_offset_secs: 3600,
        open: 1,
        high: 2,
        low: 0,
        close: 1,
        volume: None,
    };
    let sorted = vec![mk(1), mk(2), mk(2), mk(5)];
    let once = sort_candles(sorted.clone());
    assert_eq!(once, sorted);
    let twice = sort_candles(once.clone());
    assert_eq!(twice, once);
}

#[test]
fn stable_sort_keeps_equal_timestamps_in_arrival_order() {
    let mk = |ts: i64, close: i64| Candle {
        ts_utc_millis: ts,
        local_offset_secs: 0,
        open: 1,
        high: 1,
        low: 1,
        close,
        volume: None,
    };
    let input = vec![mk(5, 50), mk(1, 10), mk(5, 51), mk(1, 11)];
    let out = sort_candles(input);
    let keyed: Vec<(i64, i64)> = out.iter().map(|c| (c.ts_utc_millis, c.close)).collect();
    assert_eq!(keyed, vec![(1, 10), (1, 11), (5, 50), (5, 51)]);
}

#[test]
fn chart_response_series_are_aligned_and_toggled() {
    let mut payload_records: Vec<JsonValue> = Vec::new();
    for i in 0..30i64 {
        payload_records.push(record(1_710_000_000 + i * 60, 100 + i));
    }
    let payload = JsonValue::Arr(payload_records);
    let opts = IndicatorOptions {
        sma_periods: vec![1, 3, 0],
        ema_periods: vec![5],
        show_bollinger: true,
        show_rsi: true,
        show_macd: true,
        show_volume: true,
        orb_minutes: 15,
    };
    let r = chart_from_payload(payload, &opts).unwrap();
    let n = r.candles.len();
    assert_eq!(n, 30);
    // only periods greater than one produce a series
    assert_eq!(r.sma.len(), 1);
    assert_eq!(r.sma[0].period, 3);
    assert_eq!(r.sma[0].values.len(), n);
    assert_eq!(r.ema.len(), 1);
    assert_eq!(r.ema[0].period, 5);
    assert_eq!(r.ema[0].values.len(), n);
    let b = r.bollinger.expect("requested");
    assert_eq!(b.upper.len(), n);
    assert_eq!(b.lower.len(), n);
    let rsi = r.rsi.expect("requested");
    assert_eq!(rsi.len(), n);
    let m = r.macd.expect("requested");
    assert_eq!(m.macd.len(), n);
    assert_eq!(m.signal.len(), n);
    assert_eq!(m.histogram.len(), n);
    let vol = r.volume.expect("requested");
    assert_eq!(vol.len(), n);
    assert!(vol.iter().all(|v| v.is_none()));
    // 30 strictly increasing candles: Bollinger window of 20 is full from index 19
    assert!(b.upper[18].is_none());
    assert!(b.upper[19].is_some());
}

#[test]
fn chart_response_omits_unrequested_series() {
    let payload = JsonValue::Arr(vec![record(1_710_061_200, 10)]);
    let r = chart_from_payload(payload, &options_none()).unwrap();
    assert!(r.sma.is_empty());
    assert!(r.ema.is_empty());
    assert!(r.bollinger.is_none());
    assert!(r.rsi.is_none());
    assert!(r.macd.is_none());
    assert!(r.volume.is_none());
}
