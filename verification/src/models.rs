//! Request and result models: instruments, indicator options, search
//! results, and the fixed range-selection table.

use vstd::prelude::*;
use vstd::string::StrSliceExecFns;
use crate::ChartError;

verus! {

/// A Unicode white-space character (the set `str::trim` removes).
pub open spec fn is_space_char(c: char) -> bool {
    c == ' ' || c == '\t' || c == '\n' || c == '\r' || c == '\u{b}' || c == '\u{c}' || c == '\u{85}'
        || c == '\u{a0}' || c == '\u{1680}' || ('\u{2000}' <= c && c <= '\u{200a}') || c
        == '\u{2028}' || c == '\u{2029}' || c == '\u{202f}' || c == '\u{205f}' || c == '\u{3000}'
}

/// A string whose trimmed form is empty.
pub open spec fn blank(s: Seq<char>) -> bool {
    forall|i: int| 0 <= i < s.len() ==> is_space_char(#[trigger] s[i])
}

fn space_char(c: char) -> (b: bool)
    ensures
        b == is_space_char(c),
{
    c == ' ' || c == '\t' || c == '\n' || c == '\r' || c == '\u{b}' || c == '\u{c}' || c == '\u{85}'
        || c == '\u{a0}' || c == '\u{1680}' || ('\u{2000}' <= c && c <= '\u{200a}') || c
        == '\u{2028}' || c == '\u{2029}' || c == '\u{202f}' || c == '\u{205f}' || c == '\u{3000}'
}

/// Whether the string trims to empty.
pub fn is_blank(s: &String) -> (b: bool)
    ensures
        b == blank(s@),
{
    let st: &str = s.as_str();
    let n: usize = st.unicode_len();
    let mut i: usize = 0;
    while i < n
        invariant
            i <= n,
            n == st@.len(),
            st@ == s@,
            forall|t: int| 0 <= t < i ==> is_space_char(#[trigger] s@[t]),
        decreases n - i,
    {
        if !space_char(st.get_char(i)) {
            return false;
        }
        i = i + 1;
    }
    true
}

/// Keeps a textual field only when it holds visible content.
pub open spec fn opt_norm(out: Option<String>, inp: Option<String>) -> bool {
    match inp {
        Some(s) => if blank(s@) {
            out is None
        } else {
            out == Some(s)
        },
        None => out is None,
    }
}

fn norm_field(f: Option<String>) -> (r: Option<String>)
    ensures
        opt_norm(r, f),
{
    match f {
        Some(s) => {
            if is_blank(&s) {
                None
            } else {
                Some(s)
            }
        },
        None => None,
    }
}

/// A watchlist instrument.
#[derive(Clone, Debug)]
pub struct Instrument {
    pub name: String,
    pub identifier: String,
    pub market: Option<String>,
    pub cluster: Option<String>,
    pub primary_triggers: Option<String>,
    pub entry_setup: Option<String>,
    pub stop_rule: Option<String>,
    pub tp_management: Option<String>,
    pub time_window: Option<String>,
    pub notes: Option<String>,
}

impl Instrument {
    /// Normalises the optional fields: a value that trims to empty is
    /// dropped; name and identifier are kept as they are.
    pub fn normalised(self) -> (r: Instrument)
        ensures
            r.name == self.name,
            r.identifier == self.identifier,
            opt_norm(r.market, self.market),
            opt_norm(r.cluster, self.cluster),
            opt_norm(r.primary_triggers, self.primary_triggers),
            opt_norm(r.entry_setup, self.entry_setup),
            opt_norm(r.stop_rule, self.stop_rule),
            opt_norm(r.tp_management, self.tp_management),
            opt_norm(r.time_window, self.time_window),
            opt_norm(r.notes, self.notes),
    {
        Instrument {
            name: self.name,
            identifier: self.identifier,
            market: norm_field(self.market),
            cluster: norm_field(self.cluster),
            primary_triggers: norm_field(self.primary_triggers),
            entry_setup: norm_field(self.entry_setup),
            stop_rule: norm_field(self.stop_rule),
            tp_management: norm_field(self.tp_management),
            time_window: norm_field(self.time_window),
            notes: norm_field(self.notes),
        }
    }
}

/// Which indicator series a chart request asks for.
#[derive(Clone, Debug)]
pub struct IndicatorOptions {
    pub sma_periods: Vec<u32>,
    pub ema_periods: Vec<u32>,
    pub show_bollinger: bool,
    pub show_rsi: bool,
    pub show_macd: bool,
    pub show_volume: bool,
    pub orb_minutes: u32,
}

/// The default opening-range window, in minutes.
pub fn default_orb_minutes() -> (r: u32)
    ensures
        r == 15,
{
    15
}

/// One search hit.
#[derive(Clone, Debug)]
pub struct SearchResult {
    pub name: String,
    pub identifier: String,
    pub market: Option<String>,
}

/// One chart request.
#[derive(Clone, Debug)]
pub struct FetchChartRequest {
    pub identifier: String,
    pub name: String,
    pub range_key: String,
    pub indicators: IndicatorOptions,
}

/// Which price-history endpoint a range queries.
#[derive(Clone, Copy, PartialEq, Eq, Structural, Debug)]
pub enum Endpoint {
    Intraday,
    History,
}

/// One entry of the fixed range-selection table.
#[derive(Clone, Debug)]
pub struct RangeOption {
    pub range: String,
    pub interval: String,
    pub endpoint: Endpoint,
}

/// The fixed range-selection table, by key.
pub open spec fn range_table(key: Seq<char>) -> Option<(Seq<char>, Seq<char>, Endpoint)> {
    if key == "1 Tag"@ {
        Some(("1d"@, "1m"@, Endpoint::Intraday))
    } else if key == "5 Tage"@ {
        Some(("5d"@, "5m"@, Endpoint::Intraday))
    } else if key == "1 Monat"@ {
        Some(("1mo"@, "30m"@, Endpoint::Intraday))
    } else if key == "3 Monate"@ {
        Some(("3mo"@, "1h"@, Endpoint::Intraday))
    } else if key == "6 Monate"@ {
        Some(("6mo"@, "2h"@, Endpoint::History))
    } else if key == "1 Jahr"@ {
        Some(("1y"@, "1d"@, Endpoint::History))
    } else if key == "3 Jahre"@ {
        Some(("3y"@, "1d"@, Endpoint::History))
    } else if key == "5 Jahre"@ {
        Some(("5y"@, "1d"@, Endpoint::History))
    } else {
        None
    }
}

fn range_entry(range: &str, interval: &str, endpoint: Endpoint) -> (r: RangeOption)
    ensures
        r.range@ == range@,
        r.interval@ == interval@,
        r.endpoint == endpoint,
{
    RangeOption { range: range.to_owned(), interval: interval.to_owned(), endpoint }
}

/// Looks a range-selection key up in the fixed table.
pub fn range_option_for(key: &String) -> (r: Option<RangeOption>)
    ensures
        match r {
            Some(o) => range_table(key@) == Some((o.range@, o.interval@, o.endpoint)),
            None => range_table(key@) is None,
        },
{
    if *key == "1 Tag".to_owned() {
        Some(range_entry("1d", "1m", Endpoint::Intraday))
    } else if *key == "5 Tage".to_owned() {
        Some(range_entry("5d", "5m", Endpoint::Intraday))
    } else if *key == "1 Monat".to_owned() {
        Some(range_entry("1mo", "30m", Endpoint::Intraday))
    } else if *key == "3 Monate".to_owned() {
        Some(range_entry("3mo", "1h", Endpoint::Intraday))
    } else if *key == "6 Monate".to_owned() {
        Some(range_entry("6mo", "2h", Endpoint::History))
    } else if *key == "1 Jahr".to_owned() {
        Some(range_entry("1y", "1d", Endpoint::History))
    } else if *key == "3 Jahre".to_owned() {
        Some(range_entry("3y", "1d", Endpoint::History))
    } else if *key == "5 Jahre".to_owned() {
        Some(range_entry("5y", "1d", Endpoint::History))
    } else {
        None
    }
}

/// Resolves a range-selection key, failing on an unknown key before any
/// further work.
pub fn resolve_range(key: &String) -> (r: Result<RangeOption, ChartError>)
    ensures
        match r {
            Ok(o) => range_table(key@) == Some((o.range@, o.interval@, o.endpoint)),
            Err(e) => range_table(key@) is None && e == ChartError::UnknownRangeKey,
        },
{
    match range_option_for(key) {
        Some(o) => Ok(o),
        None => Err(ChartError::UnknownRangeKey),
    }
}

} // verus!
