//! Search-result parsing.
//!
//! A search payload is normalized into candidates and each candidate is
//! parsed into a search hit: an object with aliased name and identifier
//! fields, or an array with name and identifier in the first two
//! positions. Malformed candidates are dropped silently.

use vstd::prelude::*;
use crate::candle::{field_or2, field_or3};
use crate::json::{candidates_of, extract_candidates, JsonValue};
use crate::models::SearchResult;

verus! {

/// The optional market label of an object candidate: the first of
/// `market`/`segment` when it holds a string.
pub open spec fn market_of(fs: Seq<(String, JsonValue)>) -> Option<Seq<char>> {
    match field_or2(fs, "market"@, "segment"@) {
        Some(JsonValue::Str(s)) => Some(s@),
        _ => None,
    }
}

/// The parsed reading of one search candidate: name from
/// `name`/`symbol`, identifier from `isin`/`identifier`/`wkn`, both
/// mandatory strings; the market label is optional.
pub open spec fn search_of(v: JsonValue) -> Option<(Seq<char>, Seq<char>, Option<Seq<char>>)> {
    match v {
        JsonValue::Obj(fs) => match field_or2(fs@, "name"@, "symbol"@) {
            Some(JsonValue::Str(ns)) => match field_or3(fs@, "isin"@, "identifier"@, "wkn"@) {
                Some(JsonValue::Str(ids)) => Some((ns@, ids@, market_of(fs@))),
                _ => None,
            },
            _ => None,
        },
        JsonValue::Arr(a) => if a@.len() >= 2 {
            match (a@[0], a@[1]) {
                (JsonValue::Str(ns), JsonValue::Str(ids)) => Some((ns@, ids@, None)),
                _ => None,
            }
        } else {
            None
        },
        _ => None,
    }
}

pub open spec fn result_matches(
    r: SearchResult,
    p: (Seq<char>, Seq<char>, Option<Seq<char>>),
) -> bool {
    &&& r.name@ == p.0
    &&& r.identifier@ == p.1
    &&& match p.2 {
        Some(m) => r.market matches Some(ms) && ms@ == m,
        None => r.market is None,
    }
}

/// Parses one search candidate, or drops it silently.
pub fn parse_search_candidate(v: &JsonValue) -> (r: Option<SearchResult>)
    ensures
        match r {
            Some(sr) => search_of(*v) is Some && result_matches(sr, search_of(*v).unwrap()),
            None => search_of(*v) is None,
        },
{
    match v {
        JsonValue::Obj(fs) => {
            let nv: Option<&JsonValue> = crate::candle::alias2(fs, "name", "symbol");
            let name: String = match nv {
                Some(JsonValue::Str(s)) => s.clone(),
                _ => {
                    return None;
                },
            };
            let iv: Option<&JsonValue> = crate::candle::alias3(
                fs,
                "isin",
                "identifier",
                "wkn",
            );
            let ident: String = match iv {
                Some(JsonValue::Str(s)) => s.clone(),
                _ => {
                    return None;
                },
            };
            let mv: Option<&JsonValue> = crate::candle::alias2(fs, "market", "segment");
            let market: Option<String> = match mv {
                Some(JsonValue::Str(s)) => Some(s.clone()),
                _ => None,
            };
            Some(SearchResult { name, identifier: ident, market })
        },
        JsonValue::Arr(a) => {
            if a.len() < 2 {
                return None;
            }
            let name: String = match &a[0] {
                JsonValue::Str(s) => s.clone(),
                _ => {
                    return None;
                },
            };
            let ident: String = match &a[1] {
                JsonValue::Str(s) => s.clone(),
                _ => {
                    return None;
                },
            };
            Some(SearchResult { name, identifier: ident, market: None })
        },
        _ => None,
    }
}

/// The search hits collected, in order, from the candidates that parse.
pub open spec fn collected_results(cands: Seq<JsonValue>) -> Seq<
    (Seq<char>, Seq<char>, Option<Seq<char>>),
>
    decreases cands.len(),
{
    if cands.len() == 0 {
        Seq::empty()
    } else {
        let rest: Seq<(Seq<char>, Seq<char>, Option<Seq<char>>)> = collected_results(
            cands.drop_last(),
        );
        match search_of(cands.last()) {
            Some(p) => rest.push(p),
            None => rest,
        }
    }
}

/// Parses a whole search payload: normalize the envelope, parse each
/// candidate, drop the malformed ones.
pub fn parse_search_results(payload: JsonValue) -> (r: Vec<SearchResult>)
    ensures
        r@.len() == collected_results(candidates_of(payload)).len(),
        forall|k: int|
            0 <= k < r@.len() ==> result_matches(
                #[trigger] r@[k],
                collected_results(candidates_of(payload))[k],
            ),
{
    let cands: Vec<JsonValue> = extract_candidates(payload);
    let mut out: Vec<SearchResult> = Vec::new();
    let mut i: usize = 0;
    proof {
        assert(cands@.take(0) =~= Seq::<JsonValue>::empty());
    }
    while i < cands.len()
        invariant
            i <= cands@.len(),
            cands@ == candidates_of(payload),
            out@.len() == collected_results(cands@.take(i as int)).len(),
            forall|k: int|
                0 <= k < out@.len() ==> result_matches(
                    #[trigger] out@[k],
                    collected_results(cands@.take(i as int))[k],
                ),
        decreases cands@.len() - i,
    {
        let parsed: Option<SearchResult> = parse_search_candidate(&cands[i]);
        proof {
            assert(cands@.take(i + 1).drop_last() =~= cands@.take(i as int));
            assert(cands@.take(i + 1).last() == cands@[i as int]);
        }
        match parsed {
            Some(sr) => {
                out.push(sr);
            },
            None => {
            },
        }
        i = i + 1;
    }
    proof {
        assert(cands@.take(cands@.len() as int) =~= cands@);
    }
    out
}

} // verus!
