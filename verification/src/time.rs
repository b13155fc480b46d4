//! Instants and civil time.
//!
//! An instant is a count of UTC epoch milliseconds. Timestamp strings in
//! three wire formats are parsed here against an exact character-level
//! grammar; the Europe/Berlin UTC offset of an instant comes from the time
//! zone database through one trusted wrapper.

use chrono::{Offset, TimeZone};
use vstd::prelude::*;
use vstd::string::StrSliceExecFns;

verus! {

/// Smallest instant the pipeline accepts: 0001-01-01T00:00:00Z.
pub const TS_MIN_MILLIS: i64 = -62_135_596_800_000;

/// Largest instant the pipeline accepts: 9999-12-31T23:59:59.999Z.
pub const TS_MAX_MILLIS: i64 = 253_402_300_799_999;

pub open spec fn is_digit(c: char) -> bool {
    48 <= c as u32 <= 57
}

pub open spec fn digit(c: char) -> int {
    c as u32 - 48
}

pub open spec fn digits2_at(s: Seq<char>, i: int) -> bool {
    is_digit(s[i]) && is_digit(s[i + 1])
}

pub open spec fn digits4_at(s: Seq<char>, i: int) -> bool {
    digits2_at(s, i) && digits2_at(s, i + 2)
}

pub open spec fn num2_at(s: Seq<char>, i: int) -> int {
    digit(s[i]) * 10 + digit(s[i + 1])
}

pub open spec fn num4_at(s: Seq<char>, i: int) -> int {
    num2_at(s, i) * 100 + num2_at(s, i + 2)
}

pub open spec fn is_leap_year(y: int) -> bool {
    y % 4 == 0 && (y % 100 != 0 || y % 400 == 0)
}

pub open spec fn days_in_month(y: int, m: int) -> int {
    if m == 2 {
        if is_leap_year(y) {
            29
        } else {
            28
        }
    } else if m == 4 || m == 6 || m == 9 || m == 11 {
        30
    } else {
        31
    }
}

/// A proleptic-Gregorian calendar date with a time of day, within the
/// four-digit-year range.
pub open spec fn valid_civil(y: int, m: int, d: int, hh: int, mm: int, ss: int) -> bool {
    &&& 1 <= y <= 9999
    &&& 1 <= m <= 12
    &&& 1 <= d <= days_in_month(y, m)
    &&& 0 <= hh <= 23
    &&& 0 <= mm <= 59
    &&& 0 <= ss <= 59
}

/// Days since 1970-01-01 of a calendar date (era decomposition of the
/// Gregorian cycle).
pub open spec fn days_from_civil(y: int, m: int, d: int) -> int {
    let yy: int = if m <= 2 {
        y - 1
    } else {
        y
    };
    let era: int = yy / 400;
    let yoe: int = yy - era * 400;
    let mp: int = if m > 2 {
        m - 3
    } else {
        m + 9
    };
    let doy: int = (153 * mp + 2) / 5 + d - 1;
    let doe: int = yoe * 365 + yoe / 4 - yoe / 100 + doy;
    era * 146097 + doe - 719468
}

/// UTC epoch milliseconds of a civil date-time read as UTC wall clock.
pub open spec fn civil_to_millis(y: int, m: int, d: int, hh: int, mm: int, ss: int) -> int {
    days_from_civil(y, m, d) * 86400000 + hh * 3600000 + mm * 60000 + ss * 1000
}

pub(crate) fn digit_at(s: &str, i: usize) -> (b: bool)
    requires
        i < s@.len(),
    ensures
        b == is_digit(s@[i as int]),
{
    let u: u32 = s.get_char(i) as u32;
    48 <= u && u <= 57
}

pub(crate) fn digit2_check(s: &str, n: usize, i: usize) -> (b: bool)
    requires
        n == s@.len(),
        i + 2 <= n,
    ensures
        b == digits2_at(s@, i as int),
{
    let c0: u32 = s.get_char(i) as u32;
    let c1: u32 = s.get_char(i + 1) as u32;
    48 <= c0 && c0 <= 57 && 48 <= c1 && c1 <= 57
}

pub(crate) fn read2(s: &str, i: usize) -> (v: u32)
    requires
        i + 2 <= usize::MAX,
        i + 2 <= s@.len(),
        digits2_at(s@, i as int),
    ensures
        v == num2_at(s@, i as int),
        v <= 99,
{
    let c0: u32 = s.get_char(i) as u32;
    let c1: u32 = s.get_char(i + 1) as u32;
    (c0 - 48) * 10 + (c1 - 48)
}

pub(crate) fn read4(s: &str, i: usize) -> (v: u32)
    requires
        i + 4 <= usize::MAX,
        i + 4 <= s@.len(),
        digits4_at(s@, i as int),
    ensures
        v == num4_at(s@, i as int),
        v <= 9999,
{
    let hi: u32 = read2(s, i);
    let lo: u32 = read2(s, i + 2);
    hi * 100 + lo
}

pub(crate) fn civil_check(y: u32, m: u32, d: u32, hh: u32, mm: u32, ss: u32) -> (b: bool)
    ensures
        b == valid_civil(y as int, m as int, d as int, hh as int, mm as int, ss as int),
{
    let dim: u32 = if m == 2 {
        if y % 4 == 0 && (y % 100 != 0 || y % 400 == 0) {
            29
        } else {
            28
        }
    } else if m == 4 || m == 6 || m == 9 || m == 11 {
        30
    } else {
        31
    };
    1 <= y && y <= 9999 && 1 <= m && m <= 12 && 1 <= d && d <= dim && hh <= 23 && mm <= 59
        && ss <= 59
}

/// Epoch milliseconds of a valid civil date-time, always inside
/// `[TS_MIN_MILLIS, TS_MAX_MILLIS]`.
pub fn civil_millis(y: u32, m: u32, d: u32, hh: u32, mm: u32, ss: u32) -> (r: i64)
    requires
        valid_civil(y as int, m as int, d as int, hh as int, mm as int, ss as int),
    ensures
        r == civil_to_millis(y as int, m as int, d as int, hh as int, mm as int, ss as int),
        TS_MIN_MILLIS <= r <= TS_MAX_MILLIS - 999,
{
    let yy: u64 = if m <= 2 {
        (y - 1) as u64
    } else {
        y as u64
    };
    let era: u64 = yy / 400;
    let yoe: u64 = yy - era * 400;
    let mp: u64 = if m > 2 {
        (m - 3) as u64
    } else {
        (m + 9) as u64
    };
    let doy: u64 = (153 * mp + 2) / 5 + d as u64 - 1;
    let doe: u64 = yoe * 365 + yoe / 4 - yoe / 100 + doy;
    let days: i64 = (era * 146097 + doe) as i64 - 719468;
    assert(days == days_from_civil(y as int, m as int, d as int));
    assert(-719162 <= days < 2932897);
    days * 86400000 + (hh as i64) * 3600000 + (mm as i64) * 60000 + (ss as i64) * 1000
}

/// End of the run of digit characters that starts at `j`.
pub open spec fn skip_digits(s: Seq<char>, j: int) -> int
    decreases s.len() - j,
{
    if j < s.len() && is_digit(s[j]) {
        skip_digits(s, j + 1)
    } else {
        j
    }
}

proof fn lemma_skip_digits_value(s: Seq<char>, j: int, k: int)
    requires
        0 <= j <= k <= s.len(),
        forall|t: int| j <= t < k ==> is_digit(#[trigger] s[t]),
        k == s.len() || !is_digit(s[k]),
    ensures
        skip_digits(s, j) == k,
    decreases k - j,
{
    if j < k {
        lemma_skip_digits_value(s, j + 1, k);
    }
}

/// Milliseconds named by a fraction-of-a-second digit run (digits beyond
/// the third are ignored).
pub open spec fn frac_millis(s: Seq<char>, j: int, k: int) -> int {
    if k - j >= 3 {
        digit(s[j]) * 100 + digit(s[j + 1]) * 10 + digit(s[j + 2])
    } else if k - j == 2 {
        digit(s[j]) * 100 + digit(s[j + 1]) * 10
    } else {
        digit(s[j]) * 100
    }
}

/// The date-time core `YYYY-MM-DDxHH:MM:SS` (separator `T`, `t` or space)
/// at the start of the string, with a valid civil reading.
pub open spec fn iso_core_ok(s: Seq<char>) -> bool {
    &&& s.len() >= 19
    &&& digits4_at(s, 0)
    &&& s[4] == '-'
    &&& digits2_at(s, 5)
    &&& s[7] == '-'
    &&& digits2_at(s, 8)
    &&& (s[10] == 'T' || s[10] == 't' || s[10] == ' ')
    &&& digits2_at(s, 11)
    &&& s[13] == ':'
    &&& digits2_at(s, 14)
    &&& s[16] == ':'
    &&& digits2_at(s, 17)
    &&& valid_civil(
        num4_at(s, 0),
        num2_at(s, 5),
        num2_at(s, 8),
        num2_at(s, 11),
        num2_at(s, 14),
        num2_at(s, 17),
    )
}

pub open spec fn iso_core_millis(s: Seq<char>) -> int {
    civil_to_millis(
        num4_at(s, 0),
        num2_at(s, 5),
        num2_at(s, 8),
        num2_at(s, 11),
        num2_at(s, 14),
        num2_at(s, 17),
    )
}

/// The offset tail of an RFC 3339 timestamp, starting at `j`: `Z`/`z`, or
/// a signed `HH:MM` offset, which shifts the wall-clock reading back to
/// UTC.
pub open spec fn iso_finish(s: Seq<char>, wall_ms: int, j: int) -> Option<int> {
    if j == s.len() {
        None
    } else if (s[j] == 'Z' || s[j] == 'z') && s.len() == j + 1 {
        Some(wall_ms)
    } else if (s[j] == '+' || s[j] == '-') && s.len() == j + 6 && digits2_at(s, j + 1) && s[j + 3]
        == ':' && digits2_at(s, j + 4) && num2_at(s, j + 1) <= 23 && num2_at(s, j + 4) <= 59 {
        let off_sec: int = num2_at(s, j + 1) * 3600 + num2_at(s, j + 4) * 60;
        if s[j] == '+' {
            Some(wall_ms - off_sec * 1000)
        } else {
            Some(wall_ms + off_sec * 1000)
        }
    } else {
        None
    }
}

/// RFC 3339 timestamp: core, optional `.` fraction, mandatory offset.
pub open spec fn parse_iso(s: Seq<char>) -> Option<int> {
    if !iso_core_ok(s) {
        None
    } else {
        let base: int = iso_core_millis(s);
        if s.len() > 19 && s[19] == '.' {
            let k: int = skip_digits(s, 20);
            if k == 20 {
                None
            } else {
                iso_finish(s, base + frac_millis(s, 20, k), k)
            }
        } else {
            iso_finish(s, base, 19)
        }
    }
}

/// `YYYY-MM-DD HH:MM:SS`, read as UTC wall clock.
pub open spec fn parse_sql(s: Seq<char>) -> Option<int> {
    if s.len() == 19 && iso_core_ok(s) && s[10] == ' ' {
        Some(iso_core_millis(s))
    } else {
        None
    }
}

/// `DD.MM.YYYY HH:MM:SS`, read as UTC wall clock.
pub open spec fn parse_dmy(s: Seq<char>) -> Option<int> {
    if s.len() == 19 && digits2_at(s, 0) && s[2] == '.' && digits2_at(s, 3) && s[5] == '.'
        && digits4_at(s, 6) && s[10] == ' ' && digits2_at(s, 11) && s[13] == ':' && digits2_at(
        s,
        14,
    ) && s[16] == ':' && digits2_at(s, 17) && valid_civil(
        num4_at(s, 6),
        num2_at(s, 3),
        num2_at(s, 0),
        num2_at(s, 11),
        num2_at(s, 14),
        num2_at(s, 17),
    ) {
        Some(
            civil_to_millis(
                num4_at(s, 6),
                num2_at(s, 3),
                num2_at(s, 0),
                num2_at(s, 11),
                num2_at(s, 14),
                num2_at(s, 17),
            ),
        )
    } else {
        None
    }
}

/// Timestamp string disambiguation: RFC 3339 first, then the two literal
/// formats, read as UTC wall clock.
pub open spec fn parse_timestamp_chars(s: Seq<char>) -> Option<int> {
    if parse_iso(s) is Some {
        parse_iso(s)
    } else if parse_sql(s) is Some {
        parse_sql(s)
    } else {
        parse_dmy(s)
    }
}

pub open spec fn opt_millis_matches(r: Option<i64>, m: Option<int>) -> bool {
    match r {
        Some(v) => m == Some(v as int),
        None => m is None,
    }
}

fn iso_core_check(s: &str, n: usize) -> (b: bool)
    requires
        n == s@.len(),
    ensures
        b == iso_core_ok(s@),
{
    if n < 19 {
        return false;
    }
    if !(digit2_check(s, n, 0) && digit2_check(s, n, 2) && digit2_check(s, n, 5) && digit2_check(
        s,
        n,
        8,
    ) && digit2_check(s, n, 11) && digit2_check(s, n, 14) && digit2_check(s, n, 17)) {
        return false;
    }
    let sep: char = s.get_char(10);
    if !(s.get_char(4) == '-' && s.get_char(7) == '-' && (sep == 'T' || sep == 't' || sep == ' ')
        && s.get_char(13) == ':' && s.get_char(16) == ':') {
        return false;
    }
    civil_check(read4(s, 0), read2(s, 5), read2(s, 8), read2(s, 11), read2(s, 14), read2(s, 17))
}

fn iso_finish_exec(s: &str, n: usize, wall_ms: i64, j: usize) -> (r: Option<i64>)
    requires
        n == s@.len(),
        j <= n,
        TS_MIN_MILLIS <= wall_ms <= TS_MAX_MILLIS,
    ensures
        opt_millis_matches(r, iso_finish(s@, wall_ms as int, j as int)),
{
    if j == n {
        return None;
    }
    let c: char = s.get_char(j);
    if (c == 'Z' || c == 'z') && n == j + 1 {
        return Some(wall_ms);
    }
    if (c == '+' || c == '-') && n >= 6 && j == n - 6 && digit2_check(s, n, j + 1) && s.get_char(
        j + 3,
    ) == ':' && digit2_check(s, n, j + 4) {
        let oh: u32 = read2(s, j + 1);
        let om: u32 = read2(s, j + 4);
        if oh <= 23 && om <= 59 {
            let off_sec: i64 = (oh as i64) * 3600 + (om as i64) * 60;
            if c == '+' {
                return Some(wall_ms - off_sec * 1000);
            } else {
                return Some(wall_ms + off_sec * 1000);
            }
        }
    }
    None
}

fn parse_iso_exec(s: &str, n: usize) -> (r: Option<i64>)
    requires
        n == s@.len(),
    ensures
        opt_millis_matches(r, parse_iso(s@)),
{
    if !iso_core_check(s, n) {
        return None;
    }
    let base: i64 = civil_millis(
        read4(s, 0),
        read2(s, 5),
        read2(s, 8),
        read2(s, 11),
        read2(s, 14),
        read2(s, 17),
    );
    if n > 19 && s.get_char(19) == '.' {
        let mut k: usize = 20;
        while k < n && digit_at(s, k)
            invariant
                20 <= k <= n,
                n == s@.len(),
                forall|t: int| 20 <= t < k ==> is_digit(#[trigger] s@[t]),
            decreases n - k,
        {
            k = k + 1;
        }
        proof {
            lemma_skip_digits_value(s@, 20, k as int);
        }
        if k == 20 {
            return None;
        }
        let d0: u32 = s.get_char(20) as u32 - 48;
        let fms: i64 = if k >= 23 {
            let d1: u32 = s.get_char(21) as u32 - 48;
            let d2: u32 = s.get_char(22) as u32 - 48;
            (d0 as i64) * 100 + (d1 as i64) * 10 + d2 as i64
        } else if k == 22 {
            let d1: u32 = s.get_char(21) as u32 - 48;
            (d0 as i64) * 100 + (d1 as i64) * 10
        } else {
            (d0 as i64) * 100
        };
        iso_finish_exec(s, n, base + fms, k)
    } else {
        iso_finish_exec(s, n, base, 19)
    }
}

fn parse_sql_exec(s: &str, n: usize) -> (r: Option<i64>)
    requires
        n == s@.len(),
    ensures
        opt_millis_matches(r, parse_sql(s@)),
{
    if n == 19 && iso_core_check(s, n) && s.get_char(10) == ' ' {
        Some(
            civil_millis(
                read4(s, 0),
                read2(s, 5),
                read2(s, 8),
                read2(s, 11),
                read2(s, 14),
                read2(s, 17),
            ),
        )
    } else {
        None
    }
}

fn parse_dmy_exec(s: &str, n: usize) -> (r: Option<i64>)
    requires
        n == s@.len(),
    ensures
        opt_millis_matches(r, parse_dmy(s@)),
{
    if n != 19 {
        return None;
    }
    if !(digit2_check(s, n, 0) && digit2_check(s, n, 3) && digit2_check(s, n, 6) && digit2_check(
        s,
        n,
        8,
    ) && digit2_check(s, n, 11) && digit2_check(s, n, 14) && digit2_check(s, n, 17)) {
        return None;
    }
    if !(s.get_char(2) == '.' && s.get_char(5) == '.' && s.get_char(10) == ' ' && s.get_char(13)
        == ':' && s.get_char(16) == ':') {
        return None;
    }
    let y: u32 = read4(s, 6);
    let m: u32 = read2(s, 3);
    let d: u32 = read2(s, 0);
    let hh: u32 = read2(s, 11);
    let mm: u32 = read2(s, 14);
    let ss: u32 = read2(s, 17);
    if civil_check(y, m, d, hh, mm, ss) {
        Some(civil_millis(y, m, d, hh, mm, ss))
    } else {
        None
    }
}

/// Parses a timestamp string to UTC epoch milliseconds, trying RFC 3339,
/// then `YYYY-MM-DD HH:MM:SS`, then `DD.MM.YYYY HH:MM:SS`.
pub fn parse_timestamp_str(s: &str) -> (r: Option<i64>)
    ensures
        opt_millis_matches(r, parse_timestamp_chars(s@)),
{
    let n: usize = s.unicode_len();
    match parse_iso_exec(s, n) {
        Some(v) => Some(v),
        None => match parse_sql_exec(s, n) {
            Some(v) => Some(v),
            None => parse_dmy_exec(s, n),
        },
    }
}

/// UTC offset, in seconds, of the Europe/Berlin civil calendar at a given
/// instant. The offset is a function of the instant alone: the time zone
/// data is compiled into the time zone crate.
pub uninterp spec fn berlin_utc_offset(utc_millis: int) -> int;

/// Relies on chrono-tz's `Europe::Berlin` together with chrono's
/// `TimeZone::timestamp_millis_opt`: for an in-range instant the lookup
/// always yields a single local time, and the offset comes back as a
/// `FixedOffset`, whose seconds are strictly within one day of zero.
#[verifier::external_body]
pub(crate) fn berlin_offset_secs(utc_millis: i64) -> (r: i32)
    requires
        TS_MIN_MILLIS <= utc_millis <= TS_MAX_MILLIS,
    ensures
        r == berlin_utc_offset(utc_millis as int),
        -86400 < r < 86400,
{
    match chrono_tz::Europe::Berlin.timestamp_millis_opt(utc_millis) {
        chrono::LocalResult::Single(dt) => dt.offset().fix().local_minus_utc(),
        _ => 0,
    }
}

} // verus!
