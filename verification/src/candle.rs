//! Canonical candles and the candle parser.
//!
//! One record candidate is parsed into a candle in either of two wire
//! shapes: an object with aliased field names, or a fixed-position array.
//! Prices are fixed-point sub-units; the timestamp is kept as the UTC
//! instant together with the Europe/Berlin UTC offset at that instant.

use vstd::prelude::*;
use crate::fixed::PRICE_CAP;
use crate::json::{find_key, obj_lookup, JsonNum, JsonValue};
use crate::time::{
    berlin_offset_secs, berlin_utc_offset, parse_timestamp_chars, parse_timestamp_str,
    TS_MAX_MILLIS, TS_MIN_MILLIS,
};

verus! {

/// One canonical OHLCV candle. `local_offset_secs` is the UTC offset of
/// the Europe/Berlin civil calendar at `ts_utc_millis`; prices and the
/// optional volume are fixed-point sub-units.
#[derive(Clone, Copy, PartialEq, Eq, Structural, Debug)]
pub struct Candle {
    pub ts_utc_millis: i64,
    pub local_offset_secs: i32,
    pub open: i64,
    pub high: i64,
    pub low: i64,
    pub close: i64,
    pub volume: Option<i64>,
}

pub open spec fn candle_wf(c: Candle) -> bool {
    &&& TS_MIN_MILLIS <= c.ts_utc_millis <= TS_MAX_MILLIS
    &&& -PRICE_CAP <= c.open <= PRICE_CAP
    &&& -PRICE_CAP <= c.high <= PRICE_CAP
    &&& -PRICE_CAP <= c.low <= PRICE_CAP
    &&& -PRICE_CAP <= c.close <= PRICE_CAP
}

/// Fixed-point reading of a JSON number as a price, within the cap.
pub open spec fn price_from_num(n: JsonNum) -> Option<int> {
    match n {
        JsonNum::Int(v) => if -1_000_000_000 <= v <= 1_000_000_000 {
            Some(v * 1_000_000)
        } else {
            None
        },
        JsonNum::Frac(u) => if -PRICE_CAP <= u <= PRICE_CAP {
            Some(u as int)
        } else {
            None
        },
        JsonNum::Big => None,
    }
}

pub open spec fn price_of_value(v: JsonValue) -> Option<int> {
    match v {
        JsonValue::Num(n) => price_from_num(n),
        _ => None,
    }
}

/// Fixed-point reading of a JSON number as a volume (no cap beyond the
/// machine word).
pub open spec fn volume_from_num(n: JsonNum) -> Option<int> {
    match n {
        JsonNum::Int(v) => if -9_223_372_036_854 <= v <= 9_223_372_036_854 {
            Some(v * 1_000_000)
        } else {
            None
        },
        JsonNum::Frac(u) => Some(u as int),
        JsonNum::Big => None,
    }
}

pub open spec fn volume_of_value(v: JsonValue) -> Option<int> {
    match v {
        JsonValue::Num(n) => volume_from_num(n),
        _ => None,
    }
}

/// Timestamp disambiguation of a JSON number: an integer above the
/// magnitude threshold is Unix milliseconds, any other integer is Unix
/// seconds, and a fractional value is seconds scaled to milliseconds with
/// rounding. Out-of-range instants are rejected.
pub open spec fn millis_from_num(n: JsonNum) -> Option<int> {
    match n {
        JsonNum::Int(v) => {
            let ms: int = if v > 10_000_000_000 {
                v as int
            } else {
                v * 1000
            };
            if TS_MIN_MILLIS <= ms <= TS_MAX_MILLIS {
                Some(ms)
            } else {
                None
            }
        },
        JsonNum::Frac(u) => {
            let ms: int = crate::fixed::rdiv(u as int, 1000);
            if TS_MIN_MILLIS <= ms <= TS_MAX_MILLIS {
                Some(ms)
            } else {
                None
            }
        },
        JsonNum::Big => None,
    }
}

/// Timestamp reading of a JSON value: strings go through the three-format
/// parser, numbers through the magnitude disambiguation.
pub open spec fn millis_of_value(v: JsonValue) -> Option<int> {
    match v {
        JsonValue::Str(s) => match parse_timestamp_chars(s@) {
            Some(ms) => if TS_MIN_MILLIS <= ms <= TS_MAX_MILLIS {
                Some(ms)
            } else {
                None
            },
            None => None,
        },
        JsonValue::Num(n) => millis_from_num(n),
        _ => None,
    }
}

/// First field among the ordered aliases, if any.
pub open spec fn field_or2(
    fs: Seq<(String, JsonValue)>,
    k1: Seq<char>,
    k2: Seq<char>,
) -> Option<JsonValue> {
    if obj_lookup(fs, k1) is Some {
        obj_lookup(fs, k1)
    } else {
        obj_lookup(fs, k2)
    }
}

pub open spec fn field_or3(
    fs: Seq<(String, JsonValue)>,
    k1: Seq<char>,
    k2: Seq<char>,
    k3: Seq<char>,
) -> Option<JsonValue> {
    if obj_lookup(fs, k1) is Some {
        obj_lookup(fs, k1)
    } else if obj_lookup(fs, k2) is Some {
        obj_lookup(fs, k2)
    } else {
        obj_lookup(fs, k3)
    }
}

/// The parsed reading of an object-shape record: timestamp from
/// `timestamp`/`time`/`date`, each price from its long/short alias pair,
/// optional volume from `volume`/`v`. Any missing or unreadable mandatory
/// field discards the record.
pub open spec fn obj_candle(fs: Seq<(String, JsonValue)>) -> Option<
    (int, int, int, int, int, Option<int>),
> {
    match field_or3(fs, "timestamp"@, "time"@, "date"@) {
        None => None,
        Some(tv) => match millis_of_value(tv) {
            None => None,
            Some(ts) => match opt_price(field_or2(fs, "open"@, "o"@)) {
                None => None,
                Some(o) => match opt_price(field_or2(fs, "high"@, "h"@)) {
                    None => None,
                    Some(h) => match opt_price(field_or2(fs, "low"@, "l"@)) {
                        None => None,
                        Some(l) => match opt_price(field_or2(fs, "close"@, "c"@)) {
                            None => None,
                            Some(c) => Some(
                                (ts, o, h, l, c, opt_volume(field_or2(fs, "volume"@, "v"@))),
                            ),
                        },
                    },
                },
            },
        },
    }
}

pub open spec fn opt_price(fv: Option<JsonValue>) -> Option<int> {
    match fv {
        Some(v) => price_of_value(v),
        None => None,
    }
}

pub open spec fn opt_volume(fv: Option<JsonValue>) -> Option<int> {
    match fv {
        Some(v) => volume_of_value(v),
        None => None,
    }
}

/// The parsed reading of an array-shape record: positions timestamp,
/// open, high, low, close, optional volume; fewer than five elements
/// discards the record.
pub open spec fn arr_candle(a: Seq<JsonValue>) -> Option<
    (int, int, int, int, int, Option<int>),
> {
    if a.len() < 5 {
        None
    } else {
        match millis_of_value(a[0]) {
            None => None,
            Some(ts) => match price_of_value(a[1]) {
                None => None,
                Some(o) => match price_of_value(a[2]) {
                    None => None,
                    Some(h) => match price_of_value(a[3]) {
                        None => None,
                        Some(l) => match price_of_value(a[4]) {
                            None => None,
                            Some(c) => Some(
                                (
                                    ts,
                                    o,
                                    h,
                                    l,
                                    c,
                                    if a.len() >= 6 {
                                        volume_of_value(a[5])
                                    } else {
                                        None
                                    },
                                ),
                            ),
                        },
                    },
                },
            },
        }
    }
}

/// The parsed reading of one record candidate, in either wire shape.
pub open spec fn parsed_candle(v: JsonValue) -> Option<(int, int, int, int, int, Option<int>)> {
    match v {
        JsonValue::Obj(fs) => obj_candle(fs@),
        JsonValue::Arr(a) => arr_candle(a@),
        _ => None,
    }
}

/// What a successfully parsed candle holds: the parsed reading, with the
/// Berlin offset of its instant attached.
pub open spec fn candle_matches_parsed(
    c: Candle,
    p: (int, int, int, int, int, Option<int>),
) -> bool {
    &&& c.ts_utc_millis == p.0
    &&& c.open == p.1
    &&& c.high == p.2
    &&& c.low == p.3
    &&& c.close == p.4
    &&& match p.5 {
        Some(vol) => c.volume == Some(vol as i64),
        None => c.volume is None,
    }
    &&& c.local_offset_secs == berlin_utc_offset(p.0)
    &&& candle_wf(c)
}

fn price_of(v: &JsonValue) -> (r: Option<i64>)
    ensures
        match r {
            Some(p) => price_of_value(*v) == Some(p as int) && -PRICE_CAP <= p <= PRICE_CAP,
            None => price_of_value(*v) is None,
        },
{
    match v {
        JsonValue::Num(n) => match n {
            JsonNum::Int(x) => {
                let x: i64 = *x;
                if -1_000_000_000 <= x && x <= 1_000_000_000 {
                    Some(x * 1_000_000)
                } else {
                    None
                }
            },
            JsonNum::Frac(u) => {
                let u: i64 = *u;
                if -PRICE_CAP <= u && u <= PRICE_CAP {
                    Some(u)
                } else {
                    None
                }
            },
            JsonNum::Big => None,
        },
        _ => None,
    }
}

fn volume_of(v: &JsonValue) -> (r: Option<i64>)
    ensures
        match r {
            Some(p) => volume_of_value(*v) == Some(p as int),
            None => volume_of_value(*v) is None,
        },
{
    match v {
        JsonValue::Num(n) => match n {
            JsonNum::Int(x) => {
                let x: i64 = *x;
                if -9_223_372_036_854 <= x && x <= 9_223_372_036_854 {
                    Some(x * 1_000_000)
                } else {
                    None
                }
            },
            JsonNum::Frac(u) => Some(*u),
            JsonNum::Big => None,
        },
        _ => None,
    }
}

fn millis_of(v: &JsonValue) -> (r: Option<i64>)
    ensures
        match r {
            Some(ms) => millis_of_value(*v) == Some(ms as int) && TS_MIN_MILLIS <= ms
                <= TS_MAX_MILLIS,
            None => millis_of_value(*v) is None,
        },
{
    match v {
        JsonValue::Str(s) => {
            match parse_timestamp_str(s.as_str()) {
                Some(ms) => {
                    if TS_MIN_MILLIS <= ms && ms <= TS_MAX_MILLIS {
                        Some(ms)
                    } else {
                        None
                    }
                },
                None => None,
            }
        },
        JsonValue::Num(n) => match n {
            JsonNum::Int(x) => {
                let x: i64 = *x;
                let ms: i64 = if x > 10_000_000_000 {
                    x
                } else if x >= -62_135_596_800 {
                    x * 1000
                } else {
                    return None;
                };
                if TS_MIN_MILLIS <= ms && ms <= TS_MAX_MILLIS {
                    Some(ms)
                } else {
                    None
                }
            },
            JsonNum::Frac(u) => {
                let ms128: i128 = crate::fixed::rdiv_i128(*u as i128, 1000);
                let ms: i64 = ms128 as i64;
                proof {
                    crate::fixed::lemma_rdiv_abs_le(*u as int, 1000, 0x7fffffffffffffff);
                }
                if TS_MIN_MILLIS <= ms && ms <= TS_MAX_MILLIS {
                    Some(ms)
                } else {
                    None
                }
            },
            JsonNum::Big => None,
        },
        _ => None,
    }
}

pub(crate) fn alias2<'a>(fs: &'a Vec<(String, JsonValue)>, k1: &str, k2: &str) -> (r: Option<&'a JsonValue>)
    ensures
        match r {
            Some(v) => field_or2(fs@, k1@, k2@) == Some(*v),
            None => field_or2(fs@, k1@, k2@) is None,
        },
{
    let r1: Option<usize> = find_key(fs, &k1.to_owned());
    match r1 {
        Some(i) => Some(&fs[i].1),
        None => {
            let r2: Option<usize> = find_key(fs, &k2.to_owned());
            match r2 {
                Some(i) => Some(&fs[i].1),
                None => None,
            }
        },
    }
}

pub(crate) fn alias3<'a>(fs: &'a Vec<(String, JsonValue)>, k1: &str, k2: &str, k3: &str) -> (r: Option<
    &'a JsonValue,
>)
    ensures
        match r {
            Some(v) => field_or3(fs@, k1@, k2@, k3@) == Some(*v),
            None => field_or3(fs@, k1@, k2@, k3@) is None,
        },
{
    let r1: Option<usize> = find_key(fs, &k1.to_owned());
    match r1 {
        Some(i) => Some(&fs[i].1),
        None => {
            let r2: Option<usize> = find_key(fs, &k2.to_owned());
            match r2 {
                Some(i) => Some(&fs[i].1),
                None => {
                    let r3: Option<usize> = find_key(fs, &k3.to_owned());
                    match r3 {
                        Some(i) => Some(&fs[i].1),
                        None => None,
                    }
                },
            }
        },
    }
}

fn opt_price_of(fv: Option<&JsonValue>) -> (r: Option<i64>)
    ensures
        match r {
            Some(p) => opt_price(
                match fv {
                    Some(v) => Some(*v),
                    None => None,
                },
            ) == Some(p as int) && -PRICE_CAP <= p <= PRICE_CAP,
            None => opt_price(
                match fv {
                    Some(v) => Some(*v),
                    None => None,
                },
            ) is None,
        },
{
    match fv {
        Some(v) => price_of(v),
        None => None,
    }
}

/// Candle parser: one record candidate to one canonical candle, or "no
/// candle" on any malformed input. Never fails.
pub fn parse_candle(v: &JsonValue) -> (r: Option<Candle>)
    ensures
        match r {
            Some(c) => parsed_candle(*v) is Some && candle_matches_parsed(
                c,
                parsed_candle(*v).unwrap(),
            ),
            None => parsed_candle(*v) is None,
        },
{
    match v {
        JsonValue::Obj(fs) => {
            let tv: Option<&JsonValue> = alias3(fs, "timestamp", "time", "date");
            let tv: &JsonValue = match tv {
                Some(x) => x,
                None => {
                    return None;
                },
            };
            let ts: i64 = match millis_of(tv) {
                Some(x) => x,
                None => {
                    return None;
                },
            };
            let o: i64 = match opt_price_of(alias2(fs, "open", "o")) {
                Some(x) => x,
                None => {
                    return None;
                },
            };
            let h: i64 = match opt_price_of(alias2(fs, "high", "h")) {
                Some(x) => x,
                None => {
                    return None;
                },
            };
            let l: i64 = match opt_price_of(alias2(fs, "low", "l")) {
                Some(x) => x,
                None => {
                    return None;
                },
            };
            let c: i64 = match opt_price_of(alias2(fs, "close", "c")) {
                Some(x) => x,
                None => {
                    return None;
                },
            };
            let vol: Option<i64> = match alias2(fs, "volume", "v") {
                Some(vv) => volume_of(vv),
                None => None,
            };
            let off: i32 = berlin_offset_secs(ts);
            Some(
                Candle {
                    ts_utc_millis: ts,
                    local_offset_secs: off,
                    open: o,
                    high: h,
                    low: l,
                    close: c,
                    volume: vol,
                },
            )
        },
        JsonValue::Arr(a) => {
            if a.len() < 5 {
                return None;
            }
            let ts: i64 = match millis_of(&a[0]) {
                Some(x) => x,
                None => {
                    return None;
                },
            };
            let o: i64 = match price_of(&a[1]) {
                Some(x) => x,
                None => {
                    return None;
                },
            };
            let h: i64 = match price_of(&a[2]) {
                Some(x) => x,
                None => {
                    return None;
                },
            };
            let l: i64 = match price_of(&a[3]) {
                Some(x) => x,
                None => {
                    return None;
                },
            };
            let c: i64 = match price_of(&a[4]) {
                Some(x) => x,
                None => {
                    return None;
                },
            };
            let vol: Option<i64> = if a.len() >= 6 {
                volume_of(&a[5])
            } else {
                None
            };
            let off: i32 = berlin_offset_secs(ts);
            Some(
                Candle {
                    ts_utc_millis: ts,
                    local_offset_secs: off,
                    open: o,
                    high: h,
                    low: l,
                    close: c,
                    volume: vol,
                },
            )
        },
        _ => None,
    }
}

} // verus!
