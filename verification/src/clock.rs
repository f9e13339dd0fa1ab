//! Turning Unix seconds into something a person can act on.
//!
//! Timestamps render as UTC rather than local time on purpose: this output is
//! compared across a fleet whose hosts are in different zones. The relative
//! form is what the eye actually uses.

use crate::text;
use std::time::{SystemTime, UNIX_EPOCH};
use vstd::prelude::*;
use vstd::string::*;

verus! {

pub const MINUTE: u64 = 60;

pub const HOUR: u64 = 3_600;

pub const DAY: u64 = 86_400;

// ---------------------------------------------------------------------------
// The calendar

pub open spec fn is_leap(year: int) -> bool {
    year % 4 == 0 && (year % 100 != 0 || year % 400 == 0)
}

pub open spec fn days_in_month(year: int, month: int) -> int {
    if month == 2 {
        if is_leap(year) {
            29
        } else {
            28
        }
    } else if month == 4 || month == 6 || month == 9 || month == 11 {
        30
    } else {
        31
    }
}

pub open spec fn valid_date(year: int, month: int, day: int) -> bool {
    1 <= month <= 12 && 1 <= day <= days_in_month(year, month)
}

/// How many leap years come before a year.
pub open spec fn leap_years_before(year: int) -> int {
    (year - 1) / 4 - (year - 1) / 100 + (year - 1) / 400
}

/// The days of a year that come before a month.
pub open spec fn days_before_month(year: int, month: int) -> int
    decreases month,
{
    if month <= 1 {
        0
    } else {
        days_before_month(year, month - 1) + days_in_month(year, month - 1)
    }
}

/// The days from 1970-01-01 to a date of the Gregorian calendar.
pub open spec fn day_number(year: int, month: int, day: int) -> int {
    365 * (year - 1970) + leap_years_before(year) - leap_years_before(1970) + days_before_month(
        year,
        month,
    ) + day - 1
}

/// The date after a date.
pub open spec fn next_date(date: (int, int, int)) -> (int, int, int) {
    let (year, month, day) = date;
    if day < days_in_month(year, month) {
        (year, month, day + 1)
    } else if month < 12 {
        (year, month + 1, 1)
    } else {
        (year + 1, 1, 1)
    }
}

/// One date is earlier than another.
pub open spec fn date_before(a: (int, int, int), b: (int, int, int)) -> bool {
    a.0 < b.0 || (a.0 == b.0 && (a.1 < b.1 || (a.1 == b.1 && a.2 < b.2)))
}

proof fn lemma_month_table(year: int)
    ensures
        days_before_month(year, 1) == 0,
        days_before_month(year, 2) == 31,
        days_before_month(year, 3) == if is_leap(year) { 60int } else { 59 },
        days_before_month(year, 4) == days_before_month(year, 3) + 31,
        days_before_month(year, 5) == days_before_month(year, 3) + 61,
        days_before_month(year, 6) == days_before_month(year, 3) + 92,
        days_before_month(year, 7) == days_before_month(year, 3) + 122,
        days_before_month(year, 8) == days_before_month(year, 3) + 153,
        days_before_month(year, 9) == days_before_month(year, 3) + 184,
        days_before_month(year, 10) == days_before_month(year, 3) + 214,
        days_before_month(year, 11) == days_before_month(year, 3) + 245,
        days_before_month(year, 12) == days_before_month(year, 3) + 275,
        days_before_month(year, 13) == days_before_month(year, 3) + 306,
{
    reveal_with_fuel(days_before_month, 14);
}

proof fn lemma_multiples_step(year: int, n: int)
    by (nonlinear_arith)
    requires
        n == 4 || n == 100 || n == 400,
    ensures
        year / n == (year - 1) / n + if year % n == 0 {
            1int
        } else {
            0
        },
{
}

proof fn lemma_leap_step(year: int)
    ensures
        leap_years_before(year + 1) == leap_years_before(year) + if is_leap(year) {
            1int
        } else {
            0
        },
{
    lemma_multiples_step(year, 4);
    lemma_multiples_step(year, 100);
    lemma_multiples_step(year, 400);
    assert(year % 100 == 0 ==> year % 4 == 0) by (nonlinear_arith);
    assert(year % 400 == 0 ==> year % 100 == 0) by (nonlinear_arith);
    assert(year + 1 - 1 == year);
    assert(leap_years_before(year + 1) == year / 4 - year / 100 + year / 400);
}

/// The next date is one day later.
pub proof fn law_next_date(date: (int, int, int))
    requires
        valid_date(date.0, date.1, date.2),
    ensures
        ({
            let next = next_date(date);
            &&& valid_date(next.0, next.1, next.2)
            &&& day_number(next.0, next.1, next.2) == day_number(date.0, date.1, date.2) + 1
        }),
{
    let (year, month, day) = date;
    lemma_month_table(year);
    lemma_month_table(year + 1);
    lemma_leap_step(year);
}

proof fn lemma_year_start_grows(a: int, b: int)
    requires
        a <= b,
    ensures
        day_number(b, 1, 1) - day_number(a, 1, 1) >= 365 * (b - a),
    decreases b - a,
{
    lemma_month_table(a);
    if a < b {
        lemma_leap_step(a);
        lemma_month_table(a + 1);
        lemma_year_start_grows(a + 1, b);
    }
}

/// Dates are numbered in calendar order: an earlier date has a smaller number,
/// so no two dates share one.
pub proof fn law_dates_in_order(a: (int, int, int), b: (int, int, int))
    requires
        valid_date(a.0, a.1, a.2),
        valid_date(b.0, b.1, b.2),
    ensures
        date_before(a, b) <==> day_number(a.0, a.1, a.2) < day_number(b.0, b.1, b.2),
        a == b <==> day_number(a.0, a.1, a.2) == day_number(b.0, b.1, b.2),
{
    if date_before(a, b) {
        lemma_date_order(a, b);
    } else if date_before(b, a) {
        lemma_date_order(b, a);
    }
}

proof fn lemma_date_order(a: (int, int, int), b: (int, int, int))
    requires
        valid_date(a.0, a.1, a.2),
        valid_date(b.0, b.1, b.2),
        date_before(a, b),
    ensures
        day_number(a.0, a.1, a.2) < day_number(b.0, b.1, b.2),
{
    lemma_month_table(a.0);
    lemma_month_table(b.0);
    if a.0 < b.0 {
        lemma_year_start_grows(a.0 + 1, b.0);
        lemma_leap_step(a.0);
        lemma_month_table(a.0 + 1);
        assert(day_number(a.0, a.1, a.2) < day_number(a.0 + 1, 1, 1));
        assert(day_number(b.0, 1, 1) <= day_number(b.0, b.1, b.2));
    }
}

/// The year, counted from March 0000, in which a day of a 400-year era falls,
/// and the day within that year.
fn year_of_era(day_of_era: u64) -> (r: (u64, u64))
    requires
        day_of_era < 146_097,
    ensures
        r.0 < 400,
        r.1 <= 365,
        r.1 == 365 ==> is_leap(r.0 + 1),
        day_of_era == 365 * r.0 + r.0 as int / 4 - r.0 as int / 100 + r.1,
{
    let century: u64 = if day_of_era / 36_524 < 4 {
        day_of_era / 36_524
    } else {
        3
    };
    let day_of_century = day_of_era - century * 36_524;
    let cycle = day_of_century / 1_461;
    let day_of_cycle = day_of_century - cycle * 1_461;
    let year_of_cycle: u64 = if day_of_cycle / 365 < 4 {
        day_of_cycle / 365
    } else {
        3
    };
    let day = day_of_cycle - year_of_cycle * 365;
    let year = century * 100 + cycle * 4 + year_of_cycle;
    assert(cycle <= 24);
    assert(year as int / 4 == 25 * century + cycle);
    assert(year as int / 100 == century);
    (year, day)
}

/// The days of a year counted from March that come before one of its months,
/// where March is month 0.
spec fn march_start(month: int) -> int {
    (153 * month + 2) / 5
}

/// The date of a day of the month, the month counted from March of a year.
spec fn march_date(year: int, month: int, day: int) -> (int, int, int) {
    if month < 10 {
        (year, month + 3, day)
    } else {
        (year + 1, month - 9, day)
    }
}

proof fn lemma_march_starts()
    ensures
        march_start(0) == 0,
        march_start(1) == 31,
        march_start(2) == 61,
        march_start(3) == 92,
        march_start(4) == 122,
        march_start(5) == 153,
        march_start(6) == 184,
        march_start(7) == 214,
        march_start(8) == 245,
        march_start(9) == 275,
        march_start(10) == 306,
        march_start(11) == 337,
        march_start(12) == 367,
{
}

/// The month, counted from March, in which a day falls.
proof fn lemma_march_month(day_of_year: int)
    requires
        0 <= day_of_year <= 365,
    ensures
        ({
            let month = (5 * day_of_year + 2) / 153;
            &&& 0 <= month <= 11
            &&& march_start(month) <= day_of_year < march_start(month + 1)
        }),
{
}

/// The number of the first of March.
proof fn lemma_march_first(year: int)
    ensures
        day_number(year, 3, 1) == 365 * year + year / 4 - year / 100 + year / 400 - 719_468,
{
    lemma_month_table(year);
    lemma_leap_step(year);
    assert(leap_years_before(1970) == 477) by {
        assert(1969int / 4 == 492);
        assert(1969int / 100 == 19);
        assert(1969int / 400 == 4);
    }
}

/// A day of a month counted from March lies as many days after the first of
/// March as the months before it have.
proof fn lemma_march_number(year: int, month: int, day: int)
    requires
        0 <= month <= 11,
    ensures
        ({
            let date = march_date(year, month, day);
            day_number(date.0, date.1, date.2) == day_number(year, 3, 1) + march_start(month) + day
                - 1
        }),
{
    lemma_march_starts();
    lemma_month_table(year);
    lemma_month_table(year + 1);
    lemma_leap_step(year);
}

/// The day of a year counted from March is a day of the calendar.
proof fn lemma_march_valid(year: int, month: int, day_of_year: int)
    requires
        0 <= month <= 11,
        march_start(month) <= day_of_year < march_start(month + 1),
        day_of_year <= 365,
        day_of_year == 365 ==> is_leap(year + 1),
    ensures
        ({
            let date = march_date(year, month, day_of_year - march_start(month) + 1);
            valid_date(date.0, date.1, date.2)
        }),
{
    lemma_march_starts();
}

/// Years of an era, and what the eras before it add.
proof fn lemma_era(year_in_era: int, era: int)
    requires
        0 <= year_in_era < 400,
    ensures
        ({
            let year = year_in_era + era * 400;
            &&& year / 4 == year_in_era / 4 + 100 * era
            &&& year / 100 == year_in_era / 100 + 4 * era
            &&& year / 400 == era
            &&& is_leap(year + 1) == is_leap(year_in_era + 1)
        }),
{
    let year = year_in_era + era * 400;
    assert((year + 1) % 4 == (year_in_era + 1) % 4);
    assert((year + 1) % 100 == (year_in_era + 1) % 100);
    assert((year + 1) % 400 == (year_in_era + 1) % 400);
}

/// The date that lies `days` days after 1970-01-01.
fn civil_from_days(days: u64) -> (r: (u64, u64, u64))
    requires
        days <= u64::MAX / DAY,
    ensures
        valid_date(r.0 as int, r.1 as int, r.2 as int),
        day_number(r.0 as int, r.1 as int, r.2 as int) == days,
{
    let z = days + 719_468;
    let era = z / 146_097;
    let (year_in_era, day_of_year) = year_of_era(z - era * 146_097);
    let year = year_in_era + era * 400;
    let shifted_month = (5 * day_of_year + 2) / 153;
    proof {
        lemma_era(year_in_era as int, era as int);
        lemma_march_month(day_of_year as int);
        lemma_march_first(year as int);
        lemma_march_number(
            year as int,
            shifted_month as int,
            day_of_year - march_start(shifted_month as int) + 1,
        );
        lemma_march_valid(year as int, shifted_month as int, day_of_year as int);
    }
    let day = day_of_year - (153 * shifted_month + 2) / 5 + 1;
    if shifted_month < 10 {
        (year, shifted_month + 3, day)
    } else {
        (year + 1, shifted_month - 9, day)
    }
}

// ---------------------------------------------------------------------------
// Text

/// `2026-09-01T08:30:00Z`.
pub open spec fn instant_text(date: (int, int, int), time_of_day: int) -> Seq<char> {
    text::zero_padded(date.0 as nat, 4) + "-"@ + text::zero_padded(date.1 as nat, 2) + "-"@
        + text::zero_padded(date.2 as nat, 2) + "T"@ + text::zero_padded(
        (time_of_day / 3_600) as nat,
        2,
    ) + ":"@ + text::zero_padded((time_of_day % 3_600 / 60) as nat, 2) + ":"@ + text::zero_padded(
        (time_of_day % 60) as nat,
        2,
    ) + "Z"@
}

/// `date` is the date `days` days after 1970-01-01.
pub open spec fn is_date_of(date: (int, int, int), days: int) -> bool {
    valid_date(date.0, date.1, date.2) && day_number(date.0, date.1, date.2) == days
}

/// The date `days` days after 1970-01-01.
pub open spec fn date_of(days: int) -> (int, int, int) {
    choose|date: (int, int, int)| is_date_of(date, days)
}

/// The UTC date and time of an instant.
pub open spec fn unix_text(seconds: nat) -> Seq<char> {
    instant_text(date_of((seconds / 86_400) as int), (seconds % 86_400) as int)
}

pub open spec fn duration_text(seconds: nat) -> Seq<char> {
    if seconds < 60 {
        text::decimal(seconds) + "s"@
    } else if seconds < 3_600 {
        text::decimal(seconds / 60) + "m"@
    } else if seconds < 86_400 {
        text::decimal(seconds / 3_600) + "h"@ + text::zero_padded(seconds % 3_600 / 60, 2) + "m"@
    } else {
        text::decimal(seconds / 86_400) + "d"@ + text::decimal(seconds % 86_400 / 3_600) + "h"@
    }
}

/// `17m ago`, `in 4h00m`, or `now`.
pub open spec fn relative_text(seconds: nat, current: nat) -> Seq<char> {
    if seconds == current {
        "now"@
    } else if seconds > current {
        "in "@ + duration_text((seconds - current) as nat)
    } else {
        duration_text((current - seconds) as nat) + " ago"@
    }
}

pub open spec fn described_text(seconds: nat, current: nat) -> Seq<char> {
    unix_text(seconds) + " ("@ + relative_text(seconds, current) + ")"@
}

/// The last second that is written with a year of four digits.
pub const LAST_FOUR_DIGIT_YEAR: u64 = 253_402_300_799;

/// The number that stands at places `from` up to, not with, `to` of a text.
pub open spec fn number_in(s: Seq<char>, from: int, to: int) -> int {
    text::digits_value(s.subrange(from, to)) as int
}

/// The text is a UTC date and time of the form `YYYY-MM-DDTHH:MM:SSZ`: its
/// marks and digits are in their places, the date is one of the Gregorian
/// calendar, and the time is one of a day.
pub open spec fn is_timestamp(s: Seq<char>) -> bool {
    &&& s.len() == 20
    &&& s[4] == '-' && s[7] == '-' && s[10] == 'T' && s[13] == ':' && s[16] == ':' && s[19] == 'Z'
    &&& forall|i: int|
        0 <= i < 19 && i != 4 && i != 7 && i != 10 && i != 13 && i != 16 ==> text::is_digit(
            #[trigger] s[i],
        )
    &&& valid_date(number_in(s, 0, 4), number_in(s, 5, 7), number_in(s, 8, 10))
    &&& number_in(s, 11, 13) < 24 && number_in(s, 14, 16) < 60 && number_in(s, 17, 19) < 60
}

/// The seconds from the Unix epoch to the date and time that a text names.
pub open spec fn named_seconds(s: Seq<char>) -> int {
    day_number(number_in(s, 0, 4), number_in(s, 5, 7), number_in(s, 8, 10)) * 86_400 + number_in(
        s,
        11,
        13,
    ) * 3_600 + number_in(s, 14, 16) * 60 + number_in(s, 17, 19)
}

/// Every day has a date.
proof fn lemma_date_exists(days: nat) -> (date: (int, int, int))
    ensures
        is_date_of(date, days as int),
    decreases days,
{
    if days == 0 {
        lemma_month_table(1970);
        (1970, 1, 1)
    } else {
        let before = lemma_date_exists((days - 1) as nat);
        law_next_date(before);
        next_date(before)
    }
}

proof fn lemma_date_of(seconds: nat)
    requires
        seconds <= LAST_FOUR_DIGIT_YEAR,
    ensures
        is_date_of(date_of((seconds / 86_400) as int), (seconds / 86_400) as int),
        1970 <= date_of((seconds / 86_400) as int).0 < 10_000,
{
    let days = (seconds / 86_400) as int;
    let date = date_of(days);
    let found = lemma_date_exists(seconds / 86_400);
    assert(is_date_of(found, days));
    lemma_month_table(1970);
    lemma_month_table(10_000);
    assert(day_number(1970, 1, 1) == 0);
    assert(day_number(10_000, 1, 1) == 2_932_897);
    law_dates_in_order(date, (1970, 1, 1));
    law_dates_in_order(date, (10_000, 1, 1));
}

/// What stands at each place of six fields that are joined to a date and time.
proof fn lemma_joined_places(
    y: Seq<char>,
    m: Seq<char>,
    d: Seq<char>,
    hour: Seq<char>,
    minute: Seq<char>,
    second: Seq<char>,
)
    requires
        y.len() == 4,
        m.len() == 2,
        d.len() == 2,
        hour.len() == 2,
        minute.len() == 2,
        second.len() == 2,
    ensures
        ({
            let s = y + "-"@ + m + "-"@ + d + "T"@ + hour + ":"@ + minute + ":"@ + second + "Z"@;
            &&& s.len() == 20
            &&& s[4] == '-' && s[7] == '-' && s[10] == 'T' && s[13] == ':' && s[16] == ':'
                && s[19] == 'Z'
            &&& s.subrange(0, 4) == y
            &&& s.subrange(5, 7) == m
            &&& s.subrange(8, 10) == d
            &&& s.subrange(11, 13) == hour
            &&& s.subrange(14, 16) == minute
            &&& s.subrange(17, 19) == second
        }),
{
    let s = y + "-"@ + m + "-"@ + d + "T"@ + hour + ":"@ + minute + ":"@ + second + "Z"@;
    reveal_strlit("-");
    reveal_strlit("T");
    reveal_strlit(":");
    reveal_strlit("Z");
    assert(s.subrange(0, 4) =~= y);
    assert(s.subrange(5, 7) =~= m);
    assert(s.subrange(8, 10) =~= d);
    assert(s.subrange(11, 13) =~= hour);
    assert(s.subrange(14, 16) =~= minute);
    assert(s.subrange(17, 19) =~= second);
}

/// What stands at each place of a date and time.
proof fn lemma_instant_places(date: (int, int, int), time: int)
    requires
        0 <= date.0 < 10_000,
        valid_date(date.0, date.1, date.2),
        0 <= time < 86_400,
    ensures
        ({
            let s = instant_text(date, time);
            let (y, m, d) = (date.0 as nat, date.1 as nat, date.2 as nat);
            let (hour, minute, second) = (
                (time / 3_600) as nat,
                (time % 3_600 / 60) as nat,
                (time % 60) as nat,
            );
            &&& s.len() == 20
            &&& s[4] == '-' && s[7] == '-' && s[10] == 'T' && s[13] == ':' && s[16] == ':'
                && s[19] == 'Z'
            &&& s.subrange(0, 4) == text::zero_padded(y, 4)
            &&& s.subrange(5, 7) == text::zero_padded(m, 2)
            &&& s.subrange(8, 10) == text::zero_padded(d, 2)
            &&& s.subrange(11, 13) == text::zero_padded(hour, 2)
            &&& s.subrange(14, 16) == text::zero_padded(minute, 2)
            &&& s.subrange(17, 19) == text::zero_padded(second, 2)
        }),
{
    let (y, m, d) = (date.0 as nat, date.1 as nat, date.2 as nat);
    let (hour, minute, second) = (
        (time / 3_600) as nat,
        (time % 3_600 / 60) as nat,
        (time % 60) as nat,
    );
    lemma_time_parts(time);
    text::lemma_four_digits(y);
    text::lemma_two_digits(m);
    text::lemma_two_digits(d);
    text::lemma_two_digits(hour);
    text::lemma_two_digits(minute);
    text::lemma_two_digits(second);
    lemma_joined_places(
        text::zero_padded(y, 4),
        text::zero_padded(m, 2),
        text::zero_padded(d, 2),
        text::zero_padded(hour, 2),
        text::zero_padded(minute, 2),
        text::zero_padded(second, 2),
    );
}

/// A field of two digits reads back.
proof fn lemma_field_reads_back(s: Seq<char>, from: int, n: nat)
    requires
        0 <= from,
        from + 2 <= s.len(),
        n < 100,
        s.subrange(from, from + 2) == text::zero_padded(n, 2),
    ensures
        number_in(s, from, from + 2) == n,
        text::is_digit(s[from]),
        text::is_digit(s[from + 1]),
{
    let field = s.subrange(from, from + 2);
    text::lemma_two_digits(n);
    text::lemma_two_digits_value(field);
    text::lemma_digit(n / 10);
    text::lemma_digit(n % 10);
    assert(s[from] == field[0]);
    assert(s[from + 1] == field[1]);
}

/// A field of four digits reads back.
proof fn lemma_year_reads_back(s: Seq<char>, n: nat)
    requires
        4 <= s.len(),
        n < 10_000,
        s.subrange(0, 4) == text::zero_padded(n, 4),
    ensures
        number_in(s, 0, 4) == n,
        forall|i: int| 0 <= i < 4 ==> text::is_digit(#[trigger] s[i]),
{
    let field = s.subrange(0, 4);
    text::lemma_four_digits(n);
    text::lemma_four_digits_value(field);
    text::lemma_sum_of_digits(n);
    text::lemma_digit(n / 1000);
    text::lemma_digit(n / 100 % 10);
    text::lemma_digit(n / 10 % 10);
    text::lemma_digit(n % 10);
    assert(s[0] == field[0] && s[1] == field[1] && s[2] == field[2] && s[3] == field[3]);
}

/// The hours, minutes and seconds of a time of day.
proof fn lemma_time_parts(time: int)
    requires
        0 <= time < 86_400,
    ensures
        0 <= time / 3_600 < 24,
        0 <= time % 3_600 / 60 < 60,
        0 <= time % 60 < 60,
        time == time / 3_600 * 3_600 + time % 3_600 / 60 * 60 + time % 60,
{
}

/// The fields of a date and time, read back.
proof fn lemma_fields(date: (int, int, int), time: int)
    requires
        0 <= date.0 < 10_000,
        valid_date(date.0, date.1, date.2),
        0 <= time < 86_400,
    ensures
        ({
            let s = instant_text(date, time);
            &&& is_timestamp(s)
            &&& number_in(s, 0, 4) == date.0
            &&& number_in(s, 5, 7) == date.1
            &&& number_in(s, 8, 10) == date.2
            &&& number_in(s, 11, 13) == time / 3_600
            &&& number_in(s, 14, 16) == time % 3_600 / 60
            &&& number_in(s, 17, 19) == time % 60
        }),
{
    let s = instant_text(date, time);
    lemma_time_parts(time);
    lemma_instant_places(date, time);
    lemma_year_reads_back(s, date.0 as nat);
    lemma_field_reads_back(s, 5, date.1 as nat);
    lemma_field_reads_back(s, 8, date.2 as nat);
    lemma_field_reads_back(s, 11, (time / 3_600) as nat);
    lemma_field_reads_back(s, 14, (time % 3_600 / 60) as nat);
    lemma_field_reads_back(s, 17, (time % 60) as nat);
    assert forall|i: int|
        0 <= i < 19 && i != 4 && i != 7 && i != 10 && i != 13 && i != 16 implies text::is_digit(
        #[trigger] s[i],
    ) by {
        if i < 4 {
        } else if i == 5 || i == 6 {
        } else if i == 8 || i == 9 {
        } else if i == 11 || i == 12 {
        } else if i == 14 || i == 15 {
        } else {
            assert(i == 17 || i == 18);
        }
    }
}

/// Up to the year 9999 an instant is written as twenty characters that name a
/// real date and time, and reading them back gives the very same instant.
pub proof fn law_timestamp_reads_back(seconds: u64)
    requires
        seconds <= LAST_FOUR_DIGIT_YEAR,
    ensures
        is_timestamp(unix_text(seconds as nat)),
        named_seconds(unix_text(seconds as nat)) == seconds,
{
    let days = (seconds as nat / 86_400) as int;
    let time = (seconds as nat % 86_400) as int;
    lemma_date_of(seconds as nat);
    lemma_fields(date_of(days), time);
    lemma_time_parts(time);
    assert(days * 86_400 + time == seconds);
}

/// Two texts that agree before a field are ordered as the fields are.
proof fn lemma_field_decides(a: Seq<char>, b: Seq<char>, from: int, to: int)
    requires
        0 <= from <= to <= a.len(),
        to <= b.len(),
        forall|i: int| 0 <= i < from ==> #[trigger] a[i] == b[i],
        text::precedes(a.subrange(from, to), b.subrange(from, to)),
    ensures
        text::precedes(a, b),
    decreases to - from,
{
    let (x, y) = (a.subrange(from, to), b.subrange(from, to));
    assert(from < to);
    assert(x[0] == a[from] && y[0] == b[from]);
    if a[from] == b[from] {
        assert(x.drop_first() =~= a.subrange(from + 1, to));
        assert(y.drop_first() =~= b.subrange(from + 1, to));
        lemma_field_decides(a, b, from + 1, to);
    } else {
        text::lemma_precedes_at(a, b, from);
    }
}

proof fn lemma_same_field(a: Seq<char>, b: Seq<char>, from: int, to: int)
    requires
        0 <= from <= to <= a.len(),
        to <= b.len(),
        a.subrange(from, to) == b.subrange(from, to),
    ensures
        forall|i: int| from <= i < to ==> #[trigger] a[i] == b[i],
{
    assert forall|i: int| from <= i < to implies #[trigger] a[i] == b[i] by {
        assert(a[i] == a.subrange(from, to)[i - from]);
        assert(b[i] == b.subrange(from, to)[i - from]);
    }
}

/// A later time of a day is later by its hours, its minutes or its seconds.
proof fn lemma_time_order(u: int, v: int)
    requires
        0 <= u < v < 86_400,
    ensures
        u / 3_600 < v / 3_600 || (u / 3_600 == v / 3_600 && (u % 3_600 / 60 < v % 3_600 / 60 || (u
            % 3_600 / 60 == v % 3_600 / 60 && u % 60 < v % 60))),
{
}

/// Two dates and times are in order as texts where they are in order in time.
proof fn lemma_instants_in_order(p: (int, int, int), u: int, q: (int, int, int), v: int)
    requires
        0 <= p.0 < 10_000,
        0 <= q.0 < 10_000,
        valid_date(p.0, p.1, p.2),
        valid_date(q.0, q.1, q.2),
        0 <= u < 86_400,
        0 <= v < 86_400,
        date_before(p, q) || (p == q && u < v),
    ensures
        text::precedes(instant_text(p, u), instant_text(q, v)),
{
    let (s, t) = (instant_text(p, u), instant_text(q, v));
    lemma_time_parts(u);
    lemma_time_parts(v);
    lemma_instant_places(p, u);
    lemma_instant_places(q, v);
    if p.0 < q.0 {
        text::lemma_four_digits_in_order(p.0 as nat, q.0 as nat);
        lemma_field_decides(s, t, 0, 4);
    } else {
        lemma_same_field(s, t, 0, 4);
        if p.1 < q.1 {
            text::lemma_two_digits_in_order(p.1 as nat, q.1 as nat);
            lemma_field_decides(s, t, 5, 7);
        } else {
            lemma_same_field(s, t, 5, 7);
            if p.2 < q.2 {
                text::lemma_two_digits_in_order(p.2 as nat, q.2 as nat);
                lemma_field_decides(s, t, 8, 10);
            } else {
                lemma_same_field(s, t, 8, 10);
                lemma_times_in_order(s, t, u, v);
            }
        }
    }
}

/// The same within a day, for texts that agree on the date.
proof fn lemma_times_in_order(s: Seq<char>, t: Seq<char>, u: int, v: int)
    requires
        s.len() == 20,
        t.len() == 20,
        0 <= u < v < 86_400,
        forall|i: int| 0 <= i < 11 ==> #[trigger] s[i] == t[i],
        s[13] == t[13],
        s[16] == t[16],
        s.subrange(11, 13) == text::zero_padded((u / 3_600) as nat, 2),
        t.subrange(11, 13) == text::zero_padded((v / 3_600) as nat, 2),
        s.subrange(14, 16) == text::zero_padded((u % 3_600 / 60) as nat, 2),
        t.subrange(14, 16) == text::zero_padded((v % 3_600 / 60) as nat, 2),
        s.subrange(17, 19) == text::zero_padded((u % 60) as nat, 2),
        t.subrange(17, 19) == text::zero_padded((v % 60) as nat, 2),
    ensures
        text::precedes(s, t),
{
    let (h, k) = ((u / 3_600) as nat, (v / 3_600) as nat);
    let (m, n) = ((u % 3_600 / 60) as nat, (v % 3_600 / 60) as nat);
    let (x, y) = ((u % 60) as nat, (v % 60) as nat);
    lemma_time_parts(u);
    lemma_time_parts(v);
    lemma_time_order(u, v);
    if h < k {
        text::lemma_two_digits_in_order(h, k);
        lemma_field_decides(s, t, 11, 13);
    } else {
        lemma_same_field(s, t, 11, 13);
        if m < n {
            text::lemma_two_digits_in_order(m, n);
            lemma_field_decides(s, t, 14, 16);
        } else {
            lemma_same_field(s, t, 14, 16);
            text::lemma_two_digits_in_order(x, y);
            lemma_field_decides(s, t, 17, 19);
        }
    }
}

/// Up to the year 9999 the texts of instants are in the order of the instants,
/// so a record that is sorted as text is sorted in time.
pub proof fn law_timestamps_in_order(a: u64, b: u64)
    requires
        a < b <= LAST_FOUR_DIGIT_YEAR,
    ensures
        text::precedes(unix_text(a as nat), unix_text(b as nat)),
{
    let (d, e) = ((a as nat / 86_400) as int, (b as nat / 86_400) as int);
    let (u, v) = ((a as nat % 86_400) as int, (b as nat % 86_400) as int);
    assert(d < e || (d == e && u < v));
    lemma_date_of(a as nat);
    lemma_date_of(b as nat);
    law_dates_in_order(date_of(d), date_of(e));
    lemma_instants_in_order(date_of(d), u, date_of(e), v);
}

/// Seconds since the Unix epoch, now: `SystemTime::now` as a whole number of
/// seconds after `UNIX_EPOCH`, or zero where the clock stands before it.
/// Nothing is claimed of the result: it is whatever the clock says.
#[verifier::external_body]
pub fn now() -> u64 {
    SystemTime::now().duration_since(UNIX_EPOCH).unwrap_or_default().as_secs()
}

/// `2026-09-01T08:30:00Z`.
pub fn format_unix(seconds: u64) -> (r: String)
    ensures
        r@ == unix_text(seconds as nat),
{
    let days = seconds / DAY;
    let time_of_day = seconds % DAY;
    let (year, month, day) = civil_from_days(days);
    proof {
        let date = (year as int, month as int, day as int);
        assert(is_date_of(date, days as int));
        law_dates_in_order(date, date_of(days as int));
    }
    padded_parts(year, month, day, time_of_day)
}

fn padded_parts(year: u64, month: u64, day: u64, time_of_day: u64) -> (r: String)
    ensures
        r@ == instant_text((year as int, month as int, day as int), time_of_day as int),
{
    text::padded_text(year, 4).concat("-").concat(text::padded_text(month, 2).as_str()).concat(
        "-",
    ).concat(text::padded_text(day, 2).as_str()).concat("T").concat(
        text::padded_text(time_of_day / HOUR, 2).as_str(),
    ).concat(":").concat(text::padded_text(time_of_day % HOUR / MINUTE, 2).as_str()).concat(
        ":",
    ).concat(text::padded_text(time_of_day % MINUTE, 2).as_str()).concat("Z")
}

/// `2026-09-01T08:30:00Z (17m ago)`: the absolute value for the record, the
/// relative one for the reader.
pub fn describe_unix(seconds: u64) -> (r: String)
    ensures
        exists|current: u64| r@ == #[trigger] described_text(seconds as nat, current as nat),
{
    let current = now();
    describe_at(seconds, current)
}

pub fn describe_at(seconds: u64, current: u64) -> (r: String)
    ensures
        r@ == described_text(seconds as nat, current as nat),
{
    format_unix(seconds).concat(" (").concat(relative_to(seconds, current).as_str()).concat(")")
}

/// `17m ago`, `in 4h00m`, or `now`.
pub fn relative_to_now(seconds: u64) -> (r: String)
    ensures
        exists|current: u64| r@ == #[trigger] relative_text(seconds as nat, current as nat),
{
    let current = now();
    relative_to(seconds, current)
}

pub fn relative_to(seconds: u64, current: u64) -> (r: String)
    ensures
        r@ == relative_text(seconds as nat, current as nat),
{
    if seconds == current {
        "now".to_string()
    } else if seconds > current {
        "in ".to_string().concat(humanize(seconds - current).as_str())
    } else {
        humanize(current - seconds).concat(" ago")
    }
}

/// The largest unit that keeps the number small, because a duration is read at
/// a glance or not at all.
pub fn humanize(seconds: u64) -> (r: String)
    ensures
        r@ == duration_text(seconds as nat),
{
    if seconds < MINUTE {
        text::number_text(seconds).concat("s")
    } else if seconds < HOUR {
        text::number_text(seconds / MINUTE).concat("m")
    } else if seconds < DAY {
        text::number_text(seconds / HOUR).concat("h").concat(
            text::padded_text(seconds % HOUR / MINUTE, 2).as_str(),
        ).concat("m")
    } else {
        text::number_text(seconds / DAY).concat("d").concat(
            text::number_text(seconds % DAY / HOUR).as_str(),
        ).concat("h")
    }
}

/// A length of time is told in its two largest units: seconds below a minute,
/// minutes below an hour, hours and minutes below a day, and days and hours
/// from there on.
pub proof fn law_lengths_of_time(d: nat, h: nat, m: nat, s: nat)
    requires
        h < 24,
        m < 60,
        s < 60,
    ensures
        duration_text(s) == text::decimal(s) + "s"@,
        m > 0 ==> duration_text(m * 60 + s) == text::decimal(m) + "m"@,
        h > 0 ==> duration_text(h * 3_600 + m * 60 + s) == text::decimal(h) + "h"@
            + text::zero_padded(m, 2) + "m"@,
        d > 0 ==> duration_text(d * 86_400 + h * 3_600 + m * 60 + s) == text::decimal(d) + "d"@
            + text::decimal(h) + "h"@,
{
    assert((m * 60 + s) / 60 == m);
    assert((h * 3_600 + m * 60 + s) / 3_600 == h);
    assert((h * 3_600 + m * 60 + s) % 3_600 == m * 60 + s);
    assert((d * 86_400 + h * 3_600 + m * 60 + s) / 86_400 == d);
    assert((d * 86_400 + h * 3_600 + m * 60 + s) % 86_400 == h * 3_600 + m * 60 + s);
}

/// What is to come is told as coming, what was as past, by how far it is from
/// now; and a described moment is its date and time with that behind it.
pub proof fn law_past_and_future(now: nat, away: nat)
    ensures
        relative_text(now, now) == "now"@,
        away > 0 ==> relative_text(now + away, now) == "in "@ + duration_text(away),
        away > 0 ==> relative_text(now, now + away) == duration_text(away) + " ago"@,
        described_text(now, now + away) == unix_text(now) + " ("@ + relative_text(now, now + away)
            + ")"@,
{
}

/// The first date of the count is the first of January 1970, and a leap day is
/// there every fourth year but for centuries that are not divisible by four.
pub proof fn law_calendar_is_the_gregorian(year: int)
    ensures
        day_number(1970, 1, 1) == 0,
        valid_date(year, 2, 29) <==> year % 4 == 0 && (year % 100 != 0 || year % 400 == 0),
        valid_date(year, 1, 31) && valid_date(year, 12, 31) && !valid_date(year, 4, 31)
            && !valid_date(year, 2, 30) && !valid_date(year, 13, 1) && !valid_date(year, 0, 1),
        day_number(year + 1, 1, 1) - day_number(year, 1, 1) == if is_leap(year) {
            366int
        } else {
            365
        },
{
    lemma_month_table(1970);
    lemma_month_table(year);
    lemma_month_table(year + 1);
    lemma_leap_step(year);
}

} // verus!
