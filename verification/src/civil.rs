//! Calendar arithmetic: the Unix time of a date and time in the proleptic
//! Gregorian calendar, and the compact `YYYYMMDD` / `YYYYMMDDTHHMMSS` texts
//! that ICS feeds use for them.
use vstd::prelude::*;

verus! {

pub open spec fn is_digit(c: char) -> bool {
    '0' <= c && c <= '9'
}

/// All `len` characters of `s` from `from` on are decimal digits.
pub open spec fn digits_at(s: Seq<char>, from: int, len: int) -> bool {
    forall|i: int| from <= i < from + len ==> is_digit(#[trigger] s[i])
}

/// The number written by the `len` decimal digits of `s` from `from` on.
pub open spec fn number_at(s: Seq<char>, from: int, len: nat) -> int
    decreases len,
{
    if len == 0 {
        0
    } else {
        number_at(s, from, (len - 1) as nat) * 10 + (s[from + len - 1] as int - 48)
    }
}

pub open spec fn is_leap_year(y: int) -> bool {
    y % 4 == 0 && (y % 100 != 0 || y % 400 == 0)
}

pub open spec fn days_in_month(y: int, m: int) -> int {
    if m == 2 {
        if is_leap_year(y) {
            29
        } else {
            28
        }
    } else if m == 4 || m == 6 || m == 9 || m == 11 {
        30
    } else {
        31
    }
}

pub open spec fn is_valid_date(y: int, m: int, d: int) -> bool {
    1 <= m <= 12 && 1 <= d <= days_in_month(y, m)
}

/// The number of days from 1970-01-01 to the date `y`-`m`-`d` (negative before):
/// years are counted from March, so that the leap day ends a year.
pub open spec fn days_from_epoch(y: int, m: int, d: int) -> int {
    let yy = if m <= 2 {
        y - 1
    } else {
        y
    };
    let era = yy / 400;
    let yoe = yy - era * 400;
    let mp = if m > 2 {
        m - 3
    } else {
        m + 9
    };
    let doy = (153 * mp + 2) / 5 + d - 1;
    let doe = yoe * 365 + yoe / 4 - yoe / 100 + doy;
    era * 146097 + doe - 719468
}

/// The Unix time of a date and time of day in UTC.
pub open spec fn unix_seconds(y: int, m: int, d: int, h: int, mi: int, s: int) -> int {
    days_from_epoch(y, m, d) * 86400 + h * 3600 + mi * 60 + s
}

/// `v` is a valid date written `YYYYMMDD`.
pub open spec fn is_compact_date(v: Seq<char>) -> bool {
    &&& v.len() == 8
    &&& digits_at(v, 0, 8)
    &&& is_valid_date(number_at(v, 0, 4), number_at(v, 4, 2), number_at(v, 6, 2))
}

/// The Unix time of the midnight that starts the `YYYYMMDD` date `v`.
pub open spec fn compact_date_seconds(v: Seq<char>) -> int {
    days_from_epoch(number_at(v, 0, 4), number_at(v, 4, 2), number_at(v, 6, 2)) * 86400
}

/// `v` is a valid date and time written `YYYYMMDDTHHMMSS`.
pub open spec fn is_compact_datetime(v: Seq<char>) -> bool {
    &&& v.len() == 15
    &&& digits_at(v, 0, 8)
    &&& v[8] == 'T'
    &&& digits_at(v, 9, 6)
    &&& is_valid_date(number_at(v, 0, 4), number_at(v, 4, 2), number_at(v, 6, 2))
    &&& number_at(v, 9, 2) < 24
    &&& number_at(v, 11, 2) < 60
    &&& number_at(v, 13, 2) < 60
}

/// The Unix time of the `YYYYMMDDTHHMMSS` date and time `v`, read as UTC.
pub open spec fn compact_datetime_seconds(v: Seq<char>) -> int {
    unix_seconds(
        number_at(v, 0, 4),
        number_at(v, 4, 2),
        number_at(v, 6, 2),
        number_at(v, 9, 2),
        number_at(v, 11, 2),
        number_at(v, 13, 2),
    )
}

/// `v` is a valid date and time written `YYYY-MM-DD HH:MM:SS`.
pub open spec fn is_dashed_datetime(v: Seq<char>) -> bool {
    &&& v.len() == 19
    &&& digits_at(v, 0, 4)
    &&& v[4] == '-'
    &&& digits_at(v, 5, 2)
    &&& v[7] == '-'
    &&& digits_at(v, 8, 2)
    &&& v[10] == ' '
    &&& digits_at(v, 11, 2)
    &&& v[13] == ':'
    &&& digits_at(v, 14, 2)
    &&& v[16] == ':'
    &&& digits_at(v, 17, 2)
    &&& is_valid_date(number_at(v, 0, 4), number_at(v, 5, 2), number_at(v, 8, 2))
    &&& number_at(v, 11, 2) < 24
    &&& number_at(v, 14, 2) < 60
    &&& number_at(v, 17, 2) < 60
}

/// The Unix time of the `YYYY-MM-DD HH:MM:SS` date and time `v`, read as UTC.
pub open spec fn dashed_datetime_seconds(v: Seq<char>) -> int {
    unix_seconds(
        number_at(v, 0, 4),
        number_at(v, 5, 2),
        number_at(v, 8, 2),
        number_at(v, 11, 2),
        number_at(v, 14, 2),
        number_at(v, 17, 2),
    )
}

/// `v` starts with four digits of year and the month does not follow as a digit.
pub open spec fn year_then_non_digit(v: Seq<char>) -> bool {
    v.len() > 4 && digits_at(v, 0, 4) && !is_digit(v[4])
}

/// `v` starts with eight digits and goes on after them.
pub open spec fn eight_digits_then_more(v: Seq<char>) -> bool {
    v.len() > 8 && digits_at(v, 0, 8)
}

/// 1970-01-01 is day 0 of Unix time.
pub proof fn lemma_epoch_is_day_zero()
    ensures
        days_from_epoch(1970, 1, 1) == 0,
{
}

/// Within a month, the next day is one day later.
pub proof fn lemma_next_day_in_month(y: int, m: int, d: int)
    requires
        1 <= m <= 12,
    ensures
        days_from_epoch(y, m, d + 1) == days_from_epoch(y, m, d) + 1,
{
}


proof fn lemma_end_of_february(y: int)
    ensures
        days_from_epoch(y, 3, 1) == days_from_epoch(y, 2, days_in_month(y, 2)) + 1,
{
    let r = y % 400;
    let q = y / 400;
    assert(y == q * 400 + r);
    assert(y % 4 == r % 4);
    assert(y % 100 == r % 100);
    if r > 0 {
        assert((y - 1) / 400 == q);
        assert((y - 1) % 400 == r - 1);
    } else {
        assert((y - 1) / 400 == q - 1);
        assert((y - 1) % 400 == 399);
    }
}

/// The day after the last day of a month is the first day of the next month
/// (of the next year after December), leap days included.
pub proof fn lemma_next_day_across_months(y: int, m: int)
    requires
        1 <= m <= 12,
    ensures
        m < 12 ==> days_from_epoch(y, m + 1, 1) == days_from_epoch(y, m, days_in_month(y, m)) + 1,
        m == 12 ==> days_from_epoch(y + 1, 1, 1) == days_from_epoch(y, 12, 31) + 1,
{
    if m == 2 {
        lemma_end_of_february(y);
    }
}

} // verus!
