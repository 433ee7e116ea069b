//! Log levels and the timestamp arithmetic behind the log lines.

use vstd::prelude::*;

verus! {

use crate::text::{string_bytes, dec_pad, to_dec_pad, extend_bytes, ascii_to_string, lemma_dec_bytes_ascii};

/// The severity of a log line.
#[derive(Debug, Clone, Copy, PartialEq, Eq, PartialOrd, Ord, Hash)]
#[allow(dead_code)]
pub enum LogLevel {
    DEBUG,
    INFO,
    WARN,
    ERROR,
    FATAL,
    TRACE,
}

/// True for leap years.
pub open spec fn is_leap(y: int) -> bool {
    (y % 4 == 0 && y % 100 != 0) || y % 400 == 0
}

/// Days in a year.
pub open spec fn days_in_year(y: int) -> int {
    if is_leap(y) {
        366
    } else {
        365
    }
}

/// Days in a month (1-based).
pub open spec fn days_in_month(y: int, m: int) -> int {
    if m == 2 {
        if is_leap(y) {
            29
        } else {
            28
        }
    } else if m == 4 || m == 6 || m == 9 || m == 11 {
        30
    } else {
        31
    }
}

/// Days from the epoch to the first day of year `y`.
pub open spec fn days_before_year(y: int) -> int
    decreases y - 1970,
{
    if y <= 1970 {
        0
    } else {
        days_before_year(y - 1) + days_in_year(y - 1)
    }
}

/// Days from the first of January to the first day of month `m` (1-based).
pub open spec fn days_before_month(y: int, m: int) -> int
    decreases m,
{
    if m <= 1 {
        0
    } else {
        days_before_month(y, m - 1) + days_in_month(y, m - 1)
    }
}

/// Years add at least 365 days each.
proof fn lemma_days_before_year_lower(y: int)
    requires
        y >= 1970,
    ensures
        days_before_year(y) >= 365 * (y - 1970),
    decreases y - 1970,
{
    if y > 1970 {
        lemma_days_before_year_lower(y - 1);
    }
}

/// The months of a year sum to its days.
proof fn lemma_months_sum(y: int)
    ensures
        days_before_month(y, 13) == days_in_year(y),
{
    reveal_with_fuel(days_before_month, 14);
}

/// Days in a year (executable form).
fn days_in_year_x(y: i64) -> (r: u64)
    ensures
        r == days_in_year(y as int),
{
    if (y % 4 == 0 && y % 100 != 0) || y % 400 == 0 {
        366
    } else {
        365
    }
}

/// Days in a month (executable form).
fn days_in_month_x(y: i64, m: u64) -> (r: u64)
    ensures
        r == days_in_month(y as int, m as int),
{
    if m == 2 {
        if (y % 4 == 0 && y % 100 != 0) || y % 400 == 0 {
            29
        } else {
            28
        }
    } else if m == 4 || m == 6 || m == 9 || m == 11 {
        30
    } else {
        31
    }
}

/// The timestamp helper.
#[derive(Debug)]
pub struct SimpleTime;

impl SimpleTime {
    /// Splits a moment — seconds and subsecond nanoseconds since the Unix
    /// epoch — into calendar year, month, day, hour, minute, second and
    /// millisecond.  The date returned is the unique calendar date whose
    /// day count from the epoch is the moment's whole-day count.
    pub fn epoch_to_ymdhms(seconds: u64, nanos: u32) -> (r: (i32, u32, u32, u32, u32, u32, u32))
        requires
            seconds < 253402300800,
        ensures
            1970 <= r.0,
            1 <= r.1 <= 12,
            1 <= r.2 <= days_in_month(r.0 as int, r.1 as int),
            days_before_year(r.0 as int) + days_before_month(r.0 as int, r.1 as int) + (r.2 - 1)
                == seconds / 86400,
            r.3 == (seconds % 86400) / 3600,
            r.4 == ((seconds % 86400) % 3600) / 60,
            r.5 == seconds % 60,
            r.6 == nanos / 1000000,
    {
        let total_days: u64 = seconds / 86400;
        let mut year: i64 = 1970;
        let mut remaining: u64 = total_days;
        proof {
            lemma_days_before_year_lower(1970);
        }
        while remaining >= days_in_year_x(year)
            invariant
                1970 <= year,
                total_days == days_before_year(year as int) + remaining,
                365 * (year - 1970) <= days_before_year(year as int),
                total_days < 2932897,
            decreases remaining,
        {
            proof {
                assert(year - 1970 <= total_days / 365) by (nonlinear_arith)
                    requires
                        365 * (year - 1970) <= days_before_year(year as int),
                        days_before_year(year as int) <= total_days,
                ;
            }
            let d = days_in_year_x(year);
            remaining = remaining - d;
            year = year + 1;
        }
        proof {
            assert(year - 1970 <= total_days / 365) by (nonlinear_arith)
                requires
                    365 * (year - 1970) <= days_before_year(year as int),
                    days_before_year(year as int) <= total_days,
            ;
            assert(year <= 10006) by (nonlinear_arith)
                requires
                    year - 1970 <= total_days / 365,
                    total_days < 2932897,
            ;
        }
        let ghost day_rem0: int = remaining as int;
        let mut m: u64 = 1;
        while remaining >= days_in_month_x(year, m)
            invariant
                1970 <= year <= 10006,
                1 <= m <= 12,
                day_rem0 == days_before_month(year as int, m as int) + remaining,
                day_rem0 < days_in_year(year as int),
            decreases 12 - m,
        {
            proof {
                if m == 12 {
                    lemma_months_sum(year as int);
                    assert(days_before_month(year as int, 13) == days_before_month(
                        year as int,
                        12,
                    ) + days_in_month(year as int, 12));
                    assert(false);
                }
            }
            let d = days_in_month_x(year, m);
            remaining = remaining - d;
            m = m + 1;
        }
        let day: u64 = remaining + 1;
        let rem_secs: u64 = seconds % 86400;
        let hour: u32 = (rem_secs / 3600) as u32;
        let minute: u32 = ((rem_secs % 3600) / 60) as u32;
        let second: u32 = (seconds % 60) as u32;
        let millis: u32 = nanos / 1000000;
        proof {
            assert(rem_secs % 3600 == (seconds % 86400) % 3600);
            assert((seconds % 86400) % 60 == seconds % 60) by (nonlinear_arith);
        }
        (year as i32, m as u32, day as u32, hour, minute, second, millis)
    }

    /// Relies on `std::time::SystemTime::now` and `duration_since`: the
    /// moment of the call, in whole seconds since the Unix epoch and the
    /// subsecond nanoseconds.  Nothing can be assumed of the clock's value.
    #[verifier::external_body]
    fn now_unix() -> (u64, u32) {
        match std::time::SystemTime::now().duration_since(std::time::UNIX_EPOCH) {
            Ok(d) => (d.as_secs(), d.subsec_nanos()),
            Err(_) => (0, 0),
        }
    }

    /// A timestamp for the moment of the call, as
    /// `YYYY-MM-DD HH:MM:SS.mmm`: each field is the zero-padded decimal of
    /// a calendar split of the clock's value.  (A clock beyond the largest
    /// representable calendar year is pinned to its last second.)
    pub fn get_current_timestamp() -> (r: String)
        ensures
            (exists|y: u32, mo: u32, d: u32, h: u32, mi: u32, sec: u32, ms: u32|
                {
                    &&& 1970 <= y
                    &&& 1 <= mo <= 12
                    &&& 1 <= d <= 31
                    &&& h < 24
                    &&& mi < 60
                    &&& sec < 60
                    &&& ms < 1000
                    &&& string_bytes(r) == #[trigger] stamp_bytes(y, mo, d, h, mi, sec, ms)
                }),
    {
        let (secs0, nanos) = Self::now_unix();
        let secs: u64 = if secs0 < 253402300800 {
            secs0
        } else {
            253402300799
        };
        let nanos: u32 = if nanos < 1000000000 {
            nanos
        } else {
            999999999
        };
        let (y, mo, d, h, mi, sec, ms) = Self::epoch_to_ymdhms(secs, nanos);
        proof {
            assert(1 <= mo <= 12);
            assert(days_in_month(y as int, mo as int) <= 31);
            assert((secs % 86400) / 3600 < 24) by (nonlinear_arith);
            assert(((secs % 86400) % 3600) / 60 < 60) by (nonlinear_arith);
            assert(secs % 60 < 60);
            assert(nanos / 1000000 < 1000);
        }
        let mut out = to_dec_pad(y as u64, 4);
        out.push(45);
        let p = to_dec_pad(mo as u64, 2);
        extend_bytes(&mut out, &p);
        out.push(45);
        let p = to_dec_pad(d as u64, 2);
        extend_bytes(&mut out, &p);
        out.push(32);
        let p = to_dec_pad(h as u64, 2);
        extend_bytes(&mut out, &p);
        out.push(58);
        let p = to_dec_pad(mi as u64, 2);
        extend_bytes(&mut out, &p);
        out.push(58);
        let p = to_dec_pad(sec as u64, 2);
        extend_bytes(&mut out, &p);
        out.push(46);
        let p = to_dec_pad(ms as u64, 3);
        extend_bytes(&mut out, &p);
        proof {
            assert(out@ =~= stamp_bytes(y as u32, mo, d, h, mi, sec, ms));
            lemma_stamp_ascii(y as u32, mo, d, h, mi, sec, ms);
        }
        let s = ascii_to_string(out);
        s
    }
}

/// The bytes of a formatted timestamp.
pub open spec fn stamp_bytes(y: u32, mo: u32, d: u32, h: u32, mi: u32, sec: u32, ms: u32) -> Seq<
    u8,
> {
    dec_pad(y as nat, 4) + seq![45u8] + dec_pad(mo as nat, 2) + seq![45u8] + dec_pad(d as nat, 2)
        + seq![32u8] + dec_pad(h as nat, 2) + seq![58u8] + dec_pad(mi as nat, 2) + seq![58u8]
        + dec_pad(sec as nat, 2) + seq![46u8] + dec_pad(ms as nat, 3)
}

/// A formatted timestamp holds only ASCII bytes.
proof fn lemma_stamp_ascii(y: u32, mo: u32, d: u32, h: u32, mi: u32, sec: u32, ms: u32)
    ensures
        forall|i: int|
            0 <= i < stamp_bytes(y, mo, d, h, mi, sec, ms).len() ==> #[trigger] stamp_bytes(
                y,
                mo,
                d,
                h,
                mi,
                sec,
                ms,
            )[i] < 128,
{
    lemma_dec_pad_ascii(y as nat, 4);
    lemma_dec_pad_ascii(mo as nat, 2);
    lemma_dec_pad_ascii(d as nat, 2);
    lemma_dec_pad_ascii(h as nat, 2);
    lemma_dec_pad_ascii(mi as nat, 2);
    lemma_dec_pad_ascii(sec as nat, 2);
    lemma_dec_pad_ascii(ms as nat, 3);
}

/// Zero-padded numerals hold only digit bytes.
proof fn lemma_dec_pad_ascii(n: nat, w: nat)
    ensures
        forall|i: int| 0 <= i < dec_pad(n, w).len() ==> 48 <= #[trigger] dec_pad(n, w)[i] <= 57,
{
    lemma_dec_bytes_ascii(n);
}

} // verus!
