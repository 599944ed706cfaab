//! Points in time, and the calls into `chrono` that judge and write them.

use vstd::prelude::*;

use crate::text::{decimal, decimal_text};

verus! {

/// The first second that a date can be given for.
pub const FIRST_SECOND: i64 = -8_334_601_228_800;

/// The last second that a date can be given for.
pub const LAST_SECOND: i64 = 8_210_266_876_799;

/// A point in time: whole seconds since 1970 in UTC, and a fraction of a second.
#[derive(Debug, Clone, Copy, PartialEq, Eq)]
pub struct Timestamp {
    pub seconds: i64,
    pub nanos: u32,
}

impl Timestamp {
    /// Whether a date can be given for the point in time.
    pub open spec fn is_valid(self) -> bool {
        FIRST_SECOND <= self.seconds <= LAST_SECOND && self.nanos < 1_000_000_000
    }

    /// The nanoseconds since 1970.
    pub open spec fn total(self) -> int {
        self.seconds * 1_000_000_000 + self.nanos
    }
}

/// A quotient rounded towards zero.
pub open spec fn toward_zero(n: int, d: int) -> int {
    if n >= 0 {
        n / d
    } else {
        -((-n) / d)
    }
}

/// What `chrono`'s RFC 3339 form of a point in time reads.
pub uninterp spec fn rfc3339_words(seconds: i64, nanos: u32) -> Seq<char>;

/// What `chrono` writes for a point in time as `%Y%m%dT%H%M%S%.3fZ`.
pub uninterp spec fn compact_words(seconds: i64, nanos: u32) -> Seq<char>;

/// `chrono::TimeZone::timestamp_opt` of `Utc` with no fraction: a time exactly
/// for the seconds of the years from -262143 to 262142, and then that second.
#[verifier::external_body]
fn utc_second(seconds: i64) -> (r: Option<Timestamp>)
    ensures
        r == (if FIRST_SECOND <= seconds <= LAST_SECOND {
            Some(Timestamp { seconds, nanos: 0 })
        } else {
            None
        }),
{
    let single = chrono::TimeZone::timestamp_opt(&chrono::Utc, seconds, 0).single();
    single.map(|time| Timestamp {
        seconds: time.timestamp(),
        nanos: time.timestamp_subsec_nanos(),
    })
}

/// `chrono::DateTime::to_rfc3339` of a point in time in UTC.
#[verifier::external_body]
fn format_rfc3339(time: Timestamp) -> (r: String)
    requires
        time.is_valid(),
    ensures
        r@ == rfc3339_words(time.seconds, time.nanos),
{
    chrono::DateTime::from_timestamp(time.seconds, time.nanos).unwrap_or_default().to_rfc3339()
}

/// `chrono::DateTime::format` of a point in time in UTC, to the millisecond and
/// without separators.
#[verifier::external_body]
fn format_compact(time: Timestamp) -> (r: String)
    requires
        time.is_valid(),
    ensures
        r@ == compact_words(time.seconds, time.nanos),
{
    let time = chrono::DateTime::from_timestamp(time.seconds, time.nanos).unwrap_or_default();
    time.format("%Y%m%dT%H%M%S%.3fZ").to_string()
}

/// A point in time as the log writes it; nothing where no date can be given.
pub fn stamp(time: Timestamp) -> (r: Option<String>)
    ensures
        match r {
            Some(s) => time.is_valid() && s@ == rfc3339_words(time.seconds, time.nanos),
            None => !time.is_valid(),
        },
{
    if FIRST_SECOND <= time.seconds && time.seconds <= LAST_SECOND && time.nanos < 1_000_000_000 {
        Some(format_rfc3339(time))
    } else {
        None
    }
}

/// A point in time as part of a file name; nothing where no date can be given.
pub fn compact_stamp(time: Timestamp) -> (r: Option<String>)
    ensures
        match r {
            Some(s) => time.is_valid() && s@ == compact_words(time.seconds, time.nanos),
            None => !time.is_valid(),
        },
{
    if FIRST_SECOND <= time.seconds && time.seconds <= LAST_SECOND && time.nanos < 1_000_000_000 {
        Some(format_compact(time))
    } else {
        None
    }
}

/// The seconds that a count of seconds, milliseconds or microseconds stands for,
/// by its magnitude.
pub open spec fn seconds_in(raw: int) -> int {
    if raw > 100_000_000_000_000 || raw < -100_000_000_000_000 {
        toward_zero(raw, 1_000_000)
    } else if raw > 100_000_000_000 || raw < -100_000_000_000 {
        toward_zero(raw, 1_000)
    } else {
        raw
    }
}

/// A quotient rounded towards zero.
fn quotient(n: i128, d: i128) -> (r: i128)
    requires
        i128::MIN < n,
        d > 1,
    ensures
        r == toward_zero(n as int, d as int),
{
    let m: i128 = if n >= 0 {
        n
    } else {
        -n
    };
    assert(0 <= (m as int) / (d as int) <= m) by (nonlinear_arith)
        requires
            m >= 0,
            d > 1,
    ;
    if n >= 0 {
        m / d
    } else {
        -(m / d)
    }
}

/// Reads a point in time given in seconds, milliseconds or microseconds.
pub fn timestamp_from_unknown_unit(raw: i64) -> (r: Option<Timestamp>)
    ensures
        r == (if FIRST_SECOND <= seconds_in(raw as int) <= LAST_SECOND {
            Some(Timestamp { seconds: seconds_in(raw as int) as i64, nanos: 0 })
        } else {
            None
        }),
{
    let seconds: i64 = if raw > 100_000_000_000_000 || raw < -100_000_000_000_000 {
        quotient(raw as i128, 1_000_000) as i64
    } else if raw > 100_000_000_000 || raw < -100_000_000_000 {
        quotient(raw as i128, 1_000) as i64
    } else {
        raw
    };
    utc_second(seconds)
}

/// A time after 1973 and before 5138 reads the same in seconds, in milliseconds
/// and in microseconds.
pub proof fn lemma_units_agree(seconds: int)
    requires
        100_000_000 < seconds <= 100_000_000_000,
    ensures
        seconds_in(seconds) == seconds,
        seconds_in(seconds * 1_000) == seconds,
        seconds_in(seconds * 1_000_000) == seconds,
{
}

/// The time from `earlier` to `later` in nanoseconds.
fn nanos_between(earlier: Timestamp, later: Timestamp) -> (r: i128)
    ensures
        r == later.total() - earlier.total(),
{
    (later.seconds as i128 * 1_000_000_000 + later.nanos as i128) - (earlier.seconds as i128
        * 1_000_000_000 + earlier.nanos as i128)
}

/// The whole minutes from `earlier` to `later`, rounded towards zero.
pub open spec fn minutes_between(earlier: Timestamp, later: Timestamp) -> int {
    toward_zero(later.total() - earlier.total(), 60_000_000_000)
}

/// The whole seconds from `earlier` to `later`, rounded towards zero.
pub open spec fn seconds_between(earlier: Timestamp, later: Timestamp) -> int {
    toward_zero(later.total() - earlier.total(), 1_000_000_000)
}

/// Something is so many minutes old exactly when that many times sixty seconds
/// have passed since.
pub proof fn lemma_age_in_minutes(time: Timestamp, now: Timestamp, minutes: int)
    ensures
        now.total() >= time.total() && minutes >= 0 ==> (minutes_between(time, now) >= minutes
            <==> now.total() - time.total() >= minutes * 60_000_000_000),
        now.total() < time.total() ==> minutes_between(time, now) <= 0,
        minutes <= 0 ==> (minutes_between(time, now) >= minutes <==> now.total() - time.total()
            > (minutes - 1) * 60_000_000_000),
{
    let span = now.total() - time.total();
    vstd::arithmetic::div_mod::lemma_fundamental_div_mod(span, 60_000_000_000);
    vstd::arithmetic::div_mod::lemma_fundamental_div_mod(-span, 60_000_000_000);
}

/// What is stale stays so as time goes on, and with a lower limit.
pub proof fn lemma_stale_stays_stale(
    time: Timestamp,
    now: Timestamp,
    later: Timestamp,
    limit: int,
    lower: int,
)
    requires
        minutes_between(time, now) >= limit,
        later.total() >= now.total(),
        lower <= limit,
    ensures
        minutes_between(time, later) >= lower,
{
    lemma_toward_zero(now.total() - time.total(), 60_000_000_000);
    lemma_toward_zero(later.total() - time.total(), 60_000_000_000);
    let a = minutes_between(time, now);
    let b = minutes_between(time, later);
    assert(a <= b) by {
        if b < a {
            if b >= 0 {
                assert(now.total() - time.total() >= a * 60_000_000_000);
                assert(later.total() - time.total() < (b + 1) * 60_000_000_000);
            } else {
                assert(later.total() - time.total() <= b * 60_000_000_000);
                assert(a <= 0 ==> now.total() - time.total() > (a - 1) * 60_000_000_000);
            }
        }
    }
}

/// A quotient that is rounded towards zero is the whole number of times that the
/// divisor goes into the number, whatever its sign.
pub proof fn lemma_toward_zero(n: int, d: int)
    requires
        d > 0,
    ensures
        n >= 0 ==> 0 <= toward_zero(n, d) && toward_zero(n, d) * d <= n < (toward_zero(n, d) + 1)
            * d,
        n <= 0 ==> toward_zero(n, d) <= 0 && (toward_zero(n, d) - 1) * d < n <= toward_zero(n, d)
            * d,
        toward_zero(-n, d) == -toward_zero(n, d),
{
    let m = if n >= 0 {
        n
    } else {
        -n
    };
    let q = m / d;
    vstd::arithmetic::div_mod::lemma_fundamental_div_mod(m, d);
    assert(0 <= q && q * d <= m < (q + 1) * d) by (nonlinear_arith)
        requires
            m == d * q + m % d,
            0 <= m % d < d,
            m >= 0,
            d > 0,
    ;
    assert((-q) * d == -(q * d) && (-q - 1) * d == -((q + 1) * d)) by (nonlinear_arith);
    if n == 0 {
        assert(q == 0) by (nonlinear_arith)
            requires
                0 <= q,
                q * d <= 0,
                d > 0,
        ;
    }
}

/// Whether something of the time `time` is at least `stale_after_minutes` old.
pub fn is_stale(time: Timestamp, now: Timestamp, stale_after_minutes: i64) -> (r: bool)
    ensures
        r == (minutes_between(time, now) >= stale_after_minutes),
        now.total() >= time.total() && stale_after_minutes >= 0 ==> (r <==> now.total()
            - time.total() >= stale_after_minutes * 60_000_000_000),
{
    proof {
        lemma_age_in_minutes(time, now, stale_after_minutes as int);
    }
    let span: i128 = nanos_between(time, now);
    quotient(span, 60_000_000_000) >= stale_after_minutes as i128
}

/// The time until a reset in words.
pub open spec fn countdown_words(seconds: int) -> Seq<char> {
    let days = seconds / 86_400;
    let hours = (seconds % 86_400) / 3_600;
    let minutes = (seconds % 3_600) / 60;
    if seconds <= 0 {
        "已到重置时间，等待官方刷新"@
    } else if days > 0 {
        "还有 "@ + decimal(days) + " 天 "@ + decimal(hours) + " 小时"@
    } else if hours > 0 {
        "还有 "@ + decimal(hours) + " 小时 "@ + decimal(minutes) + " 分钟"@
    } else {
        "还有 "@ + decimal(if minutes < 1 {
            1
        } else {
            minutes
        }) + " 分钟"@
    }
}

/// The time until a reset is shown in whole days and hours that are left, below
/// a day in hours and minutes, and below an hour in minutes, at least one.
pub proof fn lemma_countdown_adds_up(now: Timestamp, reset: Timestamp, big: int, small: int)
    ensures
        ({
            let left = reset.total() - now.total();
            let words = countdown_words(seconds_between(now, reset));
            &&& 0 < big && 0 <= small < 24 && (big * 86_400 + small * 3_600) * 1_000_000_000 <= left
                < (big * 86_400 + (small + 1) * 3_600) * 1_000_000_000 ==> words == "还有 "@
                + decimal(big) + " 天 "@ + decimal(small) + " 小时"@
            &&& 0 < big < 24 && 0 <= small < 60 && (big * 3_600 + small * 60) * 1_000_000_000
                <= left < (big * 3_600 + (small + 1) * 60) * 1_000_000_000 ==> words == "还有 "@
                + decimal(big) + " 小时 "@ + decimal(small) + " 分钟"@
            &&& 0 < small < 60 && small * 60 * 1_000_000_000 <= left < (small + 1) * 60
                * 1_000_000_000 ==> words == "还有 "@ + decimal(small) + " 分钟"@
            &&& 1_000_000_000 <= left < 60_000_000_000 ==> words == "还有 "@ + decimal(1) + " 分钟"@
            &&& left < 1_000_000_000 ==> words == "已到重置时间，等待官方刷新"@
        }),
{
    lemma_toward_zero(reset.total() - now.total(), 1_000_000_000);
}

/// The time from `now` until a reset in words.
pub fn countdown(reset: Timestamp, now: Timestamp) -> (r: String)
    ensures
        r@ == countdown_words(seconds_between(now, reset)),
{
    let span: i128 = nanos_between(now, reset);
    let seconds: i128 = quotient(span, 1_000_000_000);
    if seconds <= 0 {
        return "已到重置时间，等待官方刷新".to_owned();
    }
    let days: i64 = (seconds / 86_400) as i64;
    let hours: i64 = ((seconds % 86_400) / 3_600) as i64;
    let minutes: i64 = ((seconds % 3_600) / 60) as i64;
    let mut out = "还有 ".to_owned();
    if days > 0 {
        out.append(decimal_text(days).as_str());
        out.append(" 天 ");
        out.append(decimal_text(hours).as_str());
        out.append(" 小时");
    } else if hours > 0 {
        out.append(decimal_text(hours).as_str());
        out.append(" 小时 ");
        out.append(decimal_text(minutes).as_str());
        out.append(" 分钟");
    } else {
        let shown: i64 = if minutes < 1 {
            1
        } else {
            minutes
        };
        out.append(decimal_text(shown).as_str());
        out.append(" 分钟");
    }
    out
}

/// The times that a date can be given for have no gaps: between two such seconds every
/// second is one, with any whole number of nanoseconds.
pub proof fn lemma_dates_have_no_gaps(first: Timestamp, between: Timestamp, last: Timestamp)
    requires
        first.is_valid(),
        last.is_valid(),
        first.seconds <= between.seconds <= last.seconds,
    ensures
        between.is_valid() <==> between.nanos < 1_000_000_000,
        (Timestamp { seconds: FIRST_SECOND, nanos: 0 }).is_valid(),
        (Timestamp { seconds: LAST_SECOND, nanos: 999_999_999 }).is_valid(),
        -8_334_601_228_800 <= between.seconds <= 8_210_266_876_799,
{
}

} // verus!
