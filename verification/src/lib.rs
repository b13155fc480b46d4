//! Market-data normalization and technical-indicator pipeline.
//!
//! Raw provider JSON is collapsed into record candidates, each candidate is
//! parsed into a canonical candle (prices as fixed-point sub-units,
//! timestamps as UTC epoch milliseconds with a Berlin-local offset), the
//! candles are sorted into a series, and a fixed set of charting indicators
//! is derived from the series.

pub mod assemble;
pub mod candle;
pub mod fixed;
pub mod indicators;
pub mod json;
pub mod models;
pub mod search;
pub mod time;
pub mod watchlist;

use vstd::prelude::*;

verus! {

/// The fatal failure conditions of the pipeline: an unknown
/// range-selection key, and a series with no surviving candles.
#[derive(Clone, Copy, PartialEq, Eq, Structural, Debug)]
pub enum ChartError {
    UnknownRangeKey,
    NoData,
}

impl ChartError {
    /// A human-readable description of the failure.
    pub fn message(&self) -> (r: &'static str)
        ensures
            (*self is UnknownRangeKey) ==> r@ == "Unbekannte Range-Auswahl"@,
            (*self is NoData) ==> r@ == "Keine Kursdaten vom Server erhalten"@,
    {
        match self {
            ChartError::UnknownRangeKey => "Unbekannte Range-Auswahl",
            ChartError::NoData => "Keine Kursdaten vom Server erhalten",
        }
    }
}

/// Runs the whole pipeline on one raw price-history payload: normalize
/// the envelope, parse each record, assemble the sorted series, and
/// derive the requested indicators. Fails only when no candle survives.
pub fn chart_from_payload(
    payload: json::JsonValue,
    options: &models::IndicatorOptions,
) -> (r: Result<indicators::ChartResponse, ChartError>)
    ensures
        match r {
            Ok(resp) => {
                &&& assemble::collected_candles(json::candidates_of(payload)).len() > 0
                &&& resp.candles@ == assemble::sort_by_ts(
                    assemble::collected_candles(json::candidates_of(payload)),
                )
                &&& indicators::chart_response_matches(resp.candles@, *options, resp)
            },
            Err(e) => {
                &&& e == ChartError::NoData
                &&& assemble::collected_candles(json::candidates_of(payload)).len() == 0
            },
        },
{
    match assemble::assemble_series(payload) {
        Ok(candles) => Ok(indicators::build_chart_response(candles, options)),
        Err(e) => Err(e),
    }
}

} // verus!
