use chartcore::candle::parse_candle;
use chartcore::json::{extract_candidates, JsonNum, JsonValue};
use chartcore::time::parse_timestamp_str;

fn obj(fields: Vec<(&str, JsonValue)>) -> JsonValue {
    JsonValue::Obj(fields.into_iter().map(|(k, v)| (k.to_string(), v)).collect())
}

fn num_i(v: i64) -> JsonValue {
    JsonValue::Num(JsonNum::Int(v))
}

fn s(v: &str) -> JsonValue {
    JsonValue::Str(v.to_string())
}

const T0: i64 = 1_710_061_200_000; // 2024-03-10T09:00:00Z

#[test]
fn timestamp_string_formats_agree() {
    let a = parse_timestamp_str("2024-03-10T09:00:00Z").unwrap();
    let b = parse_timestamp_str("10.03.2024 09:00:00").unwrap();
    let c = parse_timestamp_str("2024-03-10 09:00:00").unwrap();
    assert_eq!(a, T0);
    assert_eq!(a, b);
    assert_eq!(a, c);
}

#[test]
fn timestamp_numeric_magnitude_disambiguation() {
    // integers below the threshold are seconds, above it milliseconds
    let c1 = parse_candle(&JsonValue::Arr(vec![
        num_i(1_710_060_000),
        num_i(1),
        num_i(1),
        num_i(1),
        num_i(1),
    ]))
    .unwrap();
    let c2 = parse_candle(&JsonValue::Arr(vec![
        num_i(1_710_060_000_000),
        num_i(1),
        num_i(1),
        num_i(1),
        num_i(1),
    ]))
    .unwrap();
    assert_eq!(c1.ts_utc_millis, 1_710_060_000_000);
    assert_eq!(c2.ts_utc_millis, 1_710_060_000_000);
    assert_eq!(c1.ts_utc_millis, c2.ts_utc_millis);
}

#[test]
fn timestamp_fractional_seconds_round_to_millis() {
    // 1710060000.5 seconds arrives as millionths; rounds to 1710060000500 ms
    let c = parse_candle(&JsonValue::Arr(vec![
        JsonValue::Num(JsonNum::Frac(1_710_060_000_500_000)),
        num_i(1),
        num_i(1),
        num_i(1),
        num_i(1),
    ]))
    .unwrap();
    assert_eq!(c.ts_utc_millis, 1_710_060_000_500);
}

#[test]
fn timestamp_rfc3339_offsets_and_fractions() {
    let z = parse_timestamp_str("2024-03-10T09:00:00Z").unwrap();
    let p = parse_timestamp_str("2024-03-10T10:00:00+01:00").unwrap();
    let m = parse_timestamp_str("2024-03-10T04:00:00-05:00").unwrap();
    let f = parse_timestamp_str("2024-03-10T09:00:00.250Z").unwrap();
    assert_eq!(z, p);
    assert_eq!(z, m);
    assert_eq!(f, z + 250);
    assert_eq!(parse_timestamp_str("not a time"), None);
    assert_eq!(parse_timestamp_str("2024-13-01T00:00:00Z"), None);
    assert_eq!(parse_timestamp_str("2024-02-30 00:00:00"), None);
    assert_eq!(parse_timestamp_str("2024-03-10T09:00:00"), None);
}

#[test]
fn object_shape_with_long_names() {
    let v = obj(vec![
        ("timestamp", s("2024-03-10T09:00:00Z")),
        ("open", num_i(10)),
        ("high", num_i(12)),
        ("low", num_i(9)),
        ("close", num_i(11)),
        ("volume", num_i(5000)),
    ]);
    let c = parse_candle(&v).unwrap();
    assert_eq!(c.ts_utc_millis, T0);
    assert_eq!(c.open, 10_000_000);
    assert_eq!(c.high, 12_000_000);
    assert_eq!(c.low, 9_000_000);
    assert_eq!(c.close, 11_000_000);
    assert_eq!(c.volume, Some(5_000_000_000));
}

#[test]
fn object_shape_with_short_aliases() {
    let v = obj(vec![
        ("time", num_i(1_710_061_200)),
        ("o", num_i(1)),
        ("h", num_i(2)),
        ("l", num_i(1)),
        ("c", num_i(2)),
        ("v", num_i(7)),
    ]);
    let c = parse_candle(&v).unwrap();
    assert_eq!(c.ts_utc_millis, T0);
    assert_eq!(c.close, 2_000_000);
    assert_eq!(c.volume, Some(7_000_000));
}

#[test]
fn object_shape_long_name_wins_over_alias() {
    let v = obj(vec![
        ("date", num_i(1_710_061_200)),
        ("open", num_i(5)),
        ("o", num_i(99)),
        ("high", num_i(5)),
        ("low", num_i(5)),
        ("close", num_i(5)),
    ]);
    let c = parse_candle(&v).unwrap();
    assert_eq!(c.open, 5_000_000);
}

#[test]
fn object_shape_missing_price_drops_record() {
    let v = obj(vec![
        ("timestamp", num_i(1_710_061_200)),
        ("open", num_i(1)),
        ("high", num_i(1)),
        ("low", num_i(1)),
    ]);
    assert!(parse_candle(&v).is_none());
    let bad_ts = obj(vec![
        ("timestamp", s("garbage")),
        ("open", num_i(1)),
        ("high", num_i(1)),
        ("low", num_i(1)),
        ("close", num_i(1)),
    ]);
    assert!(parse_candle(&bad_ts).is_none());
}

#[test]
fn object_shape_non_numeric_volume_is_dropped_silently() {
    let v = obj(vec![
        ("timestamp", num_i(1_710_061_200)),
        ("open", num_i(1)),
        ("high", num_i(1)),
        ("low", num_i(1)),
        ("close", num_i(1)),
        ("volume", s("n/a")),
    ]);
    let c = parse_candle(&v).unwrap();
    assert_eq!(c.volume, None);
}

#[test]
fn array_shape_positions() {
    let v = JsonValue::Arr(vec![
        num_i(1_710_061_200),
        num_i(1),
        num_i(4),
        num_i(1),
        num_i(3),
        num_i(100),
    ]);
    let c = parse_candle(&v).unwrap();
    assert_eq!(c.ts_utc_millis, T0);
    assert_eq!(c.open, 1_000_000);
    assert_eq!(c.high, 4_000_000);
    assert_eq!(c.low, 1_000_000);
    assert_eq!(c.close, 3_000_000);
    assert_eq!(c.volume, Some(100_000_000));
}

#[test]
fn array_shape_too_short_drops_record() {
    let v = JsonValue::Arr(vec![num_i(1_710_061_200), num_i(1), num_i(1), num_i(1)]);
    assert!(parse_candle(&v).is_none());
    assert!(parse_candle(&JsonValue::Null).is_none());
    assert!(parse_candle(&s("text")).is_none());
}

#[test]
fn berlin_offset_winter_and_summer() {
    // 2024-01-15 (CET, +01:00) and 2024-07-15 (CEST, +02:00)
    let winter = parse_candle(&JsonValue::Arr(vec![
        s("2024-01-15T12:00:00Z"),
        num_i(1),
        num_i(1),
        num_i(1),
        num_i(1),
    ]))
    .unwrap();
    let summer = parse_candle(&JsonValue::Arr(vec![
        s("2024-07-15T12:00:00Z"),
        num_i(1),
        num_i(1),
        num_i(1),
        num_i(1),
    ]))
    .unwrap();
    assert_eq!(winter.local_offset_secs, 3600);
    assert_eq!(summer.local_offset_secs, 7200);
}

#[test]
fn normalizer_passes_arrays_through() {
    let v = JsonValue::Arr(vec![num_i(1), num_i(2)]);
    let out = extract_candidates(v);
    assert_eq!(out.len(), 2);
}

#[test]
fn normalizer_unwraps_wrapper_keys_in_order() {
    let v = obj(vec![
        ("noise", num_i(0)),
        ("data", JsonValue::Arr(vec![num_i(7)])),
    ]);
    let out = extract_candidates(v);
    assert_eq!(out.len(), 1);
    match &out[0] {
        JsonValue::Num(JsonNum::Int(7)) => {}
        other => panic!("unexpected candidate: {:?}", other),
    }
    // "items" wins over "data"
    let v2 = obj(vec![
        ("data", JsonValue::Arr(vec![num_i(1), num_i(2)])),
        ("items", JsonValue::Arr(vec![num_i(3)])),
    ]);
    assert_eq!(extract_candidates(v2).len(), 1);
}

#[test]
fn normalizer_recurses_through_nested_wrappers() {
    let inner = obj(vec![("values", JsonValue::Arr(vec![num_i(1), num_i(2), num_i(3)]))]);
    let v = obj(vec![("chart", inner)]);
    assert_eq!(extract_candidates(v).len(), 3);
}

#[test]
fn normalizer_treats_plain_object_as_single_candidate() {
    let v = obj(vec![("close", num_i(5))]);
    let out = extract_candidates(v);
    assert_eq!(out.len(), 1);
    let scalar = extract_candidates(JsonValue::Bool(true));
    assert_eq!(scalar.len(), 1);
}

#[test]
fn price_cap_boundary() {
    // |price| up to 10^9 whole units is representable; beyond it the
    // record is dropped
    let ok = JsonValue::Arr(vec![
        num_i(1_710_061_200),
        num_i(1_000_000_000),
        num_i(1_000_000_000),
        num_i(-1_000_000_000),
        num_i(1_000_000_000),
    ]);
    let c = parse_candle(&ok).unwrap();
    assert_eq!(c.high, 1_000_000_000_000_000);
    assert_eq!(c.low, -1_000_000_000_000_000);
    let over = JsonValue::Arr(vec![
        num_i(1_710_061_200),
        num_i(1_000_000_001),
        num_i(1),
        num_i(1),
        num_i(1),
    ]);
    assert!(parse_candle(&over).is_none());
}

#[test]
fn out_of_range_timestamps_drop_the_record() {
    let too_large = JsonValue::Arr(vec![
        num_i(999_999_999_999_999),
        num_i(1),
        num_i(1),
        num_i(1),
        num_i(1),
    ]);
    assert!(parse_candle(&too_large).is_none());
    assert_eq!(parse_timestamp_str("0000-01-01T00:00:00Z"), None);
}

#[test]
fn oversized_volume_becomes_undefined() {
    let v = JsonValue::Arr(vec![
        num_i(1_710_061_200),
        num_i(1),
        num_i(1),
        num_i(1),
        num_i(1),
        num_i(9_300_000_000_000),
    ]);
    let c = parse_candle(&v).unwrap();
    assert_eq!(c.volume, None);
}
