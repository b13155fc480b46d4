//! Series assembler.
//!
//! Collects the candles parsed from all record candidates, sorts them
//! ascending by UTC timestamp with a stable insertion sort whose result is
//! pinned exactly by a spec-level recurrence, and treats an empty result
//! as the fatal "no data" condition.

use vstd::prelude::*;
use crate::candle::{
    candle_matches_parsed, candle_wf, parse_candle, parsed_candle, Candle,
};
use crate::json::{candidates_of, extract_candidates, JsonValue};
use crate::time::berlin_utc_offset;
use crate::ChartError;

verus! {

pub open spec fn ts_sorted(s: Seq<Candle>) -> bool {
    forall|i: int, j: int|
        0 <= i < j < s.len() ==> #[trigger] s[i].ts_utc_millis <= #[trigger] s[j].ts_utc_millis
}

/// Stable insertion of `x` into `s`: `x` goes after every element whose
/// timestamp is not greater.
pub open spec fn insert_by_ts(x: Candle, s: Seq<Candle>) -> Seq<Candle>
    decreases s.len(),
{
    if s.len() == 0 {
        seq![x]
    } else if s[0].ts_utc_millis <= x.ts_utc_millis {
        seq![s[0]] + insert_by_ts(x, s.drop_first())
    } else {
        seq![x] + s
    }
}

/// Stable sort by UTC timestamp, as a spec-level insertion sort: elements
/// with equal timestamps keep their original relative order.
pub open spec fn sort_by_ts(s: Seq<Candle>) -> Seq<Candle>
    decreases s.len(),
{
    if s.len() == 0 {
        Seq::empty()
    } else {
        insert_by_ts(s.last(), sort_by_ts(s.drop_last()))
    }
}

/// Inserting at the first position whose timestamp exceeds `x`'s is what
/// `insert_by_ts` does.
proof fn lemma_insert_at(x: Candle, s: Seq<Candle>, j: int)
    requires
        0 <= j <= s.len(),
        forall|t: int| 0 <= t < j ==> #[trigger] s[t].ts_utc_millis <= x.ts_utc_millis,
        j == s.len() || s[j].ts_utc_millis > x.ts_utc_millis,
    ensures
        insert_by_ts(x, s) == s.take(j) + seq![x] + s.skip(j),
    decreases s.len(),
{
    if s.len() == 0 {
        assert(insert_by_ts(x, s) =~= s.take(j) + seq![x] + s.skip(j));
    } else if j == 0 {
        assert(s[0].ts_utc_millis > x.ts_utc_millis);
        assert(insert_by_ts(x, s) =~= s.take(0) + seq![x] + s.skip(0));
    } else {
        assert(s[0].ts_utc_millis <= x.ts_utc_millis);
        let d: Seq<Candle> = s.drop_first();
        lemma_insert_at(x, d, j - 1);
        assert(insert_by_ts(x, s) =~= s.take(j) + seq![x] + s.skip(j));
    }
}

proof fn lemma_insert_sorted(x: Candle, s: Seq<Candle>)
    requires
        ts_sorted(s),
    ensures
        ts_sorted(insert_by_ts(x, s)),
        insert_by_ts(x, s).len() == s.len() + 1,
        forall|i: int|
            0 <= i < insert_by_ts(x, s).len() ==> (#[trigger] insert_by_ts(x, s)[i] == x
                || exists|j: int| 0 <= j < s.len() && insert_by_ts(x, s)[i] == s[j]),
    decreases s.len(),
{
    if s.len() == 0 {
    } else if s[0].ts_utc_millis <= x.ts_utc_millis {
        lemma_insert_sorted(x, s.drop_first());
        let r: Seq<Candle> = seq![s[0]] + insert_by_ts(x, s.drop_first());
        assert forall|i: int, j: int| 0 <= i < j < r.len() implies #[trigger] r[i].ts_utc_millis
            <= #[trigger] r[j].ts_utc_millis by {
            if i > 0 {
                assert(r[i] == insert_by_ts(x, s.drop_first())[i - 1]);
                assert(r[j] == insert_by_ts(x, s.drop_first())[j - 1]);
            } else {
                assert(r[j] == insert_by_ts(x, s.drop_first())[j - 1]);
                let rr: Seq<Candle> = insert_by_ts(x, s.drop_first());
                assert(rr[j - 1] == x || exists|t: int|
                    0 <= t < s.drop_first().len() && rr[j - 1] == s.drop_first()[t]);
                if rr[j - 1] != x {
                    let t: int = choose|t: int|
                        0 <= t < s.drop_first().len() && rr[j - 1] == s.drop_first()[t];
                    assert(s.drop_first()[t] == s[t + 1]);
                    assert(s[0].ts_utc_millis <= s[t + 1].ts_utc_millis);
                }
            }
        }
        assert forall|i: int| 0 <= i < r.len() implies (#[trigger] r[i] == x || exists|j: int|
            0 <= j < s.len() && r[i] == s[j]) by {
            if i == 0 {
                assert(r[0] == s[0]);
            } else {
                let rr: Seq<Candle> = insert_by_ts(x, s.drop_first());
                assert(r[i] == rr[i - 1]);
                if rr[i - 1] != x {
                    let t: int = choose|t: int|
                        0 <= t < s.drop_first().len() && rr[i - 1] == s.drop_first()[t];
                    assert(s.drop_first()[t] == s[t + 1]);
                }
            }
        }
    } else {
        let r: Seq<Candle> = seq![x] + s;
        assert forall|i: int| 0 <= i < r.len() implies (#[trigger] r[i] == x || exists|j: int|
            0 <= j < s.len() && r[i] == s[j]) by {
            if i > 0 {
                assert(r[i] == s[i - 1]);
            }
        }
    }
}

/// The sorted order of a sort by timestamp, with every element drawn from
/// the input.
pub proof fn lemma_sort_by_ts_sorted(s: Seq<Candle>)
    ensures
        ts_sorted(sort_by_ts(s)),
        sort_by_ts(s).len() == s.len(),
        forall|i: int|
            0 <= i < sort_by_ts(s).len() ==> exists|j: int|
                0 <= j < s.len() && #[trigger] sort_by_ts(s)[i] == s[j],
    decreases s.len(),
{
    if s.len() > 0 {
        lemma_sort_by_ts_sorted(s.drop_last());
        lemma_insert_sorted(s.last(), sort_by_ts(s.drop_last()));
        assert forall|i: int| 0 <= i < sort_by_ts(s).len() implies exists|j: int|
            0 <= j < s.len() && #[trigger] sort_by_ts(s)[i] == s[j] by {
            let r: Seq<Candle> = sort_by_ts(s);
            if r[i] == s.last() {
                assert(r[i] == s[s.len() - 1]);
            } else {
                let t: int = choose|t: int|
                    0 <= t < sort_by_ts(s.drop_last()).len() && r[i] == sort_by_ts(
                        s.drop_last(),
                    )[t];
                let j: int = choose|j: int|
                    0 <= j < s.drop_last().len() && sort_by_ts(s.drop_last())[t]
                        == s.drop_last()[j];
                assert(s.drop_last()[j] == s[j]);
            }
        }
    }
}

proof fn lemma_insert_at_end(x: Candle, s: Seq<Candle>)
    requires
        forall|t: int| 0 <= t < s.len() ==> #[trigger] s[t].ts_utc_millis <= x.ts_utc_millis,
    ensures
        insert_by_ts(x, s) == s + seq![x],
{
    lemma_insert_at(x, s, s.len() as int);
    assert(s.take(s.len() as int) + seq![x] + s.skip(s.len() as int) =~= s + seq![x]);
}

/// Sorting an already-sorted series leaves it identical: the sort is
/// idempotent on its own output.
pub proof fn lemma_sort_sorted_identity(s: Seq<Candle>)
    requires
        ts_sorted(s),
    ensures
        sort_by_ts(s) == s,
    decreases s.len(),
{
    if s.len() > 0 {
        assert(ts_sorted(s.drop_last()));
        lemma_sort_sorted_identity(s.drop_last());
        assert forall|t: int|
            0 <= t < s.drop_last().len() implies #[trigger] s.drop_last()[t].ts_utc_millis
            <= s.last().ts_utc_millis by {
            assert(s.drop_last()[t] == s[t]);
        }
        lemma_insert_at_end(s.last(), s.drop_last());
        assert(s.drop_last() + seq![s.last()] =~= s);
    }
}

/// Sorts candles ascending by UTC timestamp; the exec code matches the
/// spec-level stable insertion sort exactly.
pub fn sort_candles(candles: Vec<Candle>) -> (r: Vec<Candle>)
    ensures
        r@ == sort_by_ts(candles@),
{
    let mut out: Vec<Candle> = Vec::new();
    let mut i: usize = 0;
    proof {
        assert(candles@.take(0) =~= Seq::<Candle>::empty());
    }
    while i < candles.len()
        invariant
            i <= candles@.len(),
            out@ == sort_by_ts(candles@.take(i as int)),
            out@.len() == i,
        decreases candles@.len() - i,
    {
        proof {
            lemma_sort_by_ts_sorted(candles@.take(i as int));
        }
        let x: Candle = candles[i];
        let mut j: usize = 0;
        while j < out.len() && out[j].ts_utc_millis <= x.ts_utc_millis
            invariant
                j <= out@.len(),
                forall|t: int| 0 <= t < j ==> #[trigger] out@[t].ts_utc_millis <= x.ts_utc_millis,
            decreases out@.len() - j,
        {
            j = j + 1;
        }
        proof {
            lemma_insert_at(x, out@, j as int);
        }
        out.insert(j, x);
        proof {
            assert(out@ =~= sort_by_ts(candles@.take(i as int)).take(j as int) + seq![x]
                + sort_by_ts(candles@.take(i as int)).skip(j as int));
            assert(candles@.take(i + 1).drop_last() =~= candles@.take(i as int));
            assert(candles@.take(i + 1).last() == x);
        }
        i = i + 1;
    }
    proof {
        assert(candles@.take(candles@.len() as int) =~= candles@);
    }
    out
}

/// The spec-level candle of a successful parse.
pub open spec fn candle_from_parts(p: (int, int, int, int, int, Option<int>)) -> Candle {
    Candle {
        ts_utc_millis: p.0 as i64,
        local_offset_secs: berlin_utc_offset(p.0) as i32,
        open: p.1 as i64,
        high: p.2 as i64,
        low: p.3 as i64,
        close: p.4 as i64,
        volume: match p.5 {
            Some(v) => Some(v as i64),
            None => None,
        },
    }
}

/// The candles collected, in order, from the candidates that parse.
pub open spec fn collected_candles(cands: Seq<JsonValue>) -> Seq<Candle>
    decreases cands.len(),
{
    if cands.len() == 0 {
        Seq::empty()
    } else {
        let rest: Seq<Candle> = collected_candles(cands.drop_last());
        match parsed_candle(cands.last()) {
            Some(p) => rest.push(candle_from_parts(p)),
            None => rest,
        }
    }
}

pub proof fn lemma_collected_candles_wf(cands: Seq<JsonValue>)
    ensures
        forall|i: int|
            0 <= i < collected_candles(cands).len() ==> candle_wf(
                #[trigger] collected_candles(cands)[i],
            ),
    decreases cands.len(),
{
    if cands.len() > 0 {
        lemma_collected_candles_wf(cands.drop_last());
        let rest: Seq<Candle> = collected_candles(cands.drop_last());
        match parsed_candle(cands.last()) {
            Some(p) => {
                assert forall|i: int| 0 <= i < collected_candles(cands).len() implies candle_wf(
                    #[trigger] collected_candles(cands)[i],
                ) by {
                    if i < rest.len() {
                        assert(collected_candles(cands)[i] == rest[i]);
                    }
                }
            },
            None => {
            },
        }
    }
}

/// Parses every candidate of the payload and collects the candles that
/// survive, in candidate order.
pub fn collect_candles(payload: JsonValue) -> (r: Vec<Candle>)
    ensures
        r@ == collected_candles(candidates_of(payload)),
        forall|i: int| 0 <= i < r@.len() ==> candle_wf(#[trigger] r@[i]),
{
    let cands: Vec<JsonValue> = extract_candidates(payload);
    let mut out: Vec<Candle> = Vec::new();
    let mut i: usize = 0;
    proof {
        assert(cands@.take(0) =~= Seq::<JsonValue>::empty());
    }
    while i < cands.len()
        invariant
            i <= cands@.len(),
            cands@ == candidates_of(payload),
            out@ == collected_candles(cands@.take(i as int)),
            forall|t: int| 0 <= t < out@.len() ==> candle_wf(#[trigger] out@[t]),
        decreases cands@.len() - i,
    {
        let parsed: Option<Candle> = parse_candle(&cands[i]);
        proof {
            assert(cands@.take(i + 1).drop_last() =~= cands@.take(i as int));
            assert(cands@.take(i + 1).last() == cands@[i as int]);
        }
        match parsed {
            Some(c) => {
                proof {
                    let p = parsed_candle(cands@[i as int]).unwrap();
                    assert(candle_matches_parsed(c, p));
                    assert(c == candle_from_parts(p));
                }
                out.push(c);
            },
            None => {
            },
        }
        i = i + 1;
    }
    proof {
        assert(cands@.take(cands@.len() as int) =~= cands@);
    }
    out
}

/// Series assembler over a raw payload: normalize, parse each candidate,
/// sort ascending by UTC timestamp; an empty surviving series is the
/// fatal "no data" condition.
pub fn assemble_series(payload: JsonValue) -> (r: Result<Vec<Candle>, ChartError>)
    ensures
        match r {
            Ok(out) => {
                &&& collected_candles(candidates_of(payload)).len() > 0
                &&& out@ == sort_by_ts(collected_candles(candidates_of(payload)))
                &&& ts_sorted(out@)
                &&& out@.len() == collected_candles(candidates_of(payload)).len()
                &&& forall|i: int| 0 <= i < out@.len() ==> candle_wf(#[trigger] out@[i])
            },
            Err(e) => {
                &&& e == ChartError::NoData
                &&& collected_candles(candidates_of(payload)).len() == 0
            },
        },
{
    let candles: Vec<Candle> = collect_candles(payload);
    if candles.len() == 0 {
        return Err(ChartError::NoData);
    }
    proof {
        lemma_sort_by_ts_sorted(candles@);
        lemma_collected_candles_wf(candidates_of(payload));
    }
    let sorted: Vec<Candle> = sort_candles(candles);
    proof {
        assert forall|i: int| 0 <= i < sorted@.len() implies candle_wf(
            #[trigger] sorted@[i],
        ) by {
            let j: int = choose|j: int| 0 <= j < candles@.len() && sorted@[i] == candles@[j];
        }
    }
    Ok(sorted)
}


} // verus!
