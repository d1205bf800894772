//! Calendar dates: a strict `YYYY-MM-DD` parser with real calendar
//! validation (month lengths, leap years) and day arithmetic over a civil
//! day number, so differences between dates are exact day counts.

use vstd::prelude::*;

use crate::error::TranscribeError;
use crate::num::{digit_val, is_dec_digit};

verus! {

/// A civil calendar date.
#[derive(Debug, Clone, Copy, PartialEq, Eq, Structural)]
pub struct Date {
    pub year: i32,
    pub month: u32,
    pub day: u32,
}

/// Whether a year is a leap year of the Gregorian calendar.
pub open spec fn spec_is_leap_year(y: int) -> bool {
    y % 4 == 0 && (y % 100 != 0 || y % 400 == 0)
}

/// The number of days of a month, honoring leap years.
pub open spec fn spec_days_in_month(y: int, m: int) -> int {
    if m == 2 {
        if spec_is_leap_year(y) {
            29
        } else {
            28
        }
    } else if m == 4 || m == 6 || m == 9 || m == 11 {
        30
    } else {
        31
    }
}

/// A well-formed date string: exactly `YYYY-MM-DD` with zero-padded
/// fields, a month from 1 to 12 and a day that exists in that month.
pub open spec fn spec_valid_date_str(s: Seq<char>) -> bool {
    &&& s.len() == 10
    &&& is_dec_digit(s[0])
    &&& is_dec_digit(s[1])
    &&& is_dec_digit(s[2])
    &&& is_dec_digit(s[3])
    &&& s[4] == '-'
    &&& is_dec_digit(s[5])
    &&& is_dec_digit(s[6])
    &&& s[7] == '-'
    &&& is_dec_digit(s[8])
    &&& is_dec_digit(s[9])
    &&& 1 <= spec_date_month(s) <= 12
    &&& 1 <= spec_date_day(s) <= spec_days_in_month(spec_date_year(s), spec_date_month(s))
}

/// The year a well-formed date string writes.
pub open spec fn spec_date_year(s: Seq<char>) -> int {
    digit_val(s[0]) * 1000 + digit_val(s[1]) * 100 + digit_val(s[2]) * 10 + digit_val(s[3])
}

/// The month a well-formed date string writes.
pub open spec fn spec_date_month(s: Seq<char>) -> int {
    digit_val(s[5]) * 10 + digit_val(s[6])
}

/// The day a well-formed date string writes.
pub open spec fn spec_date_day(s: Seq<char>) -> int {
    digit_val(s[8]) * 10 + digit_val(s[9])
}

fn digit_of(c: char) -> (r: Option<u32>)
    ensures
        r is Some <==> is_dec_digit(c),
        r matches Some(d) ==> d == digit_val(c) && d < 10,
{
    match c {
        '0' => Some(0u32),
        '1' => Some(1u32),
        '2' => Some(2u32),
        '3' => Some(3u32),
        '4' => Some(4u32),
        '5' => Some(5u32),
        '6' => Some(6u32),
        '7' => Some(7u32),
        '8' => Some(8u32),
        '9' => Some(9u32),
        _ => None,
    }
}

fn days_in_month(y: i32, m: u32) -> (r: u32)
    requires
        y >= 0,
    ensures
        r == spec_days_in_month(y as int, m as int),
{
    if m == 2 {
        let leap = y % 4 == 0 && (y % 100 != 0 || y % 400 == 0);
        if leap {
            29
        } else {
            28
        }
    } else if m == 4 || m == 6 || m == 9 || m == 11 {
        30
    } else {
        31
    }
}

/// Parses a strict `YYYY-MM-DD` date string, rejecting anything that is
/// not a real calendar date.
pub fn parse_date_str(date: &str) -> (r: Result<Date, TranscribeError>)
    ensures
        r is Ok <==> spec_valid_date_str(date@),
        r matches Ok(d) ==> d.year == spec_date_year(date@) && d.month == spec_date_month(date@)
            && d.day == spec_date_day(date@),
        r is Err ==> r == Err::<Date, TranscribeError>(TranscribeError::InvalidDate),
{
    if date.unicode_len() != 10 {
        return Err(TranscribeError::InvalidDate);
    }
    if !(date.get_char(4) == '-' && date.get_char(7) == '-') {
        return Err(TranscribeError::InvalidDate);
    }
    let d0 = digit_of(date.get_char(0));
    let d1 = digit_of(date.get_char(1));
    let d2 = digit_of(date.get_char(2));
    let d3 = digit_of(date.get_char(3));
    let d5 = digit_of(date.get_char(5));
    let d6 = digit_of(date.get_char(6));
    let d8 = digit_of(date.get_char(8));
    let d9 = digit_of(date.get_char(9));
    match (d0, d1, d2, d3, d5, d6, d8, d9) {
        (
            Some(y1),
            Some(y2),
            Some(y3),
            Some(y4),
            Some(m1),
            Some(m2),
            Some(dd1),
            Some(dd2),
        ) => {
            let year: u32 = y1 * 1000 + y2 * 100 + y3 * 10 + y4;
            let month: u32 = m1 * 10 + m2;
            let day: u32 = dd1 * 10 + dd2;
            if month < 1 || month > 12 {
                return Err(TranscribeError::InvalidDate);
            }
            if day < 1 || day > days_in_month(year as i32, month) {
                return Err(TranscribeError::InvalidDate);
            }
            Ok(Date { year: year as i32, month, day })
        },
        _ => Err(TranscribeError::InvalidDate),
    }
}

/// The civil day number of a date: days since the epoch day 1970-01-01,
/// negative for days before it, so that consecutive dates differ by one.
pub open spec fn spec_day_number(y: int, m: int, d: int) -> int
    recommends
        0 <= y <= 9999,
        1 <= m <= 12,
        1 <= d <= 31,
{
    let yy = if m <= 2 {
        y + 399
    } else {
        y + 400
    };
    let era = yy / 400;
    let yoe = yy - era * 400;
    let mp = if m > 2 {
        m - 3
    } else {
        m + 9
    };
    let doy = (153 * mp + 2) / 5 + d - 1;
    let doe = yoe * 365 + yoe / 4 - yoe / 100 + doy;
    era * 146097 + doe - 719468 - 146097
}

/// Computes the civil day number of a date.
pub fn day_number(date: &Date) -> (r: i64)
    requires
        0 <= date.year <= 9999,
        1 <= date.month <= 12,
        1 <= date.day <= 31,
    ensures
        r == spec_day_number(date.year as int, date.month as int, date.day as int),
        -865565 <= r <= 3_000_000,
{
    let y = date.year as i64;
    let m = date.month as i64;
    let d = date.day as i64;
    let yy: i64 = if m <= 2 {
        y + 399
    } else {
        y + 400
    };
    let era: i64 = yy / 400;
    proof {
        vstd::arithmetic::div_mod::lemma_fundamental_div_mod(yy as int, 400);
        vstd::arithmetic::div_mod::lemma_mod_bound(yy as int, 400);
        vstd::arithmetic::div_mod::lemma_div_pos_is_pos(yy as int, 400);
        assert(era <= 25) by {
            vstd::arithmetic::div_mod::lemma_div_is_ordered(yy as int, 10399int, 400);
            vstd::arithmetic::div_mod::lemma_fundamental_div_mod_converse(10399int, 400, 25, 399);
        }
    }
    let yoe: i64 = yy - era * 400;
    let mp: i64 = if m > 2 {
        m - 3
    } else {
        m + 9
    };
    let doy: i64 = (153 * mp + 2) / 5 + d - 1;
    let doe: i64 = yoe * 365 + yoe / 4 - yoe / 100 + doy;
    era * 146097 + doe - 719468 - 146097
}

/// The number of whole days from `start_date` to `end_date`, both strict
/// `YYYY-MM-DD` strings; negative when `end_date` lies before
/// `start_date`.
pub fn diff_dates_to_days(start_date: &str, end_date: &str) -> (r: Result<i64, TranscribeError>)
    ensures
        r is Ok <==> spec_valid_date_str(start_date@) && spec_valid_date_str(end_date@),
        r is Err ==> r == Err::<i64, TranscribeError>(TranscribeError::InvalidDate),
        r matches Ok(d) ==> d == spec_day_number(
            spec_date_year(end_date@),
            spec_date_month(end_date@),
            spec_date_day(end_date@),
        ) - spec_day_number(
            spec_date_year(start_date@),
            spec_date_month(start_date@),
            spec_date_day(start_date@),
        ),
{
    let start = parse_date_str(start_date)?;
    let end = parse_date_str(end_date)?;
    let a = day_number(&start);
    let b = day_number(&end);
    Ok(b - a)
}


/// The date a civil day number names, as `(year, month, day)`: the
/// inverse of [`spec_day_number`]. The day-of-year is clamped into one
/// year as a defensive guard; on day numbers that name real dates the
/// guard never fires.
#[verifier::opaque]
pub open spec fn spec_civil_from_days(dn: int) -> (int, int, int) {
    let z = dn + 719468 + 292194;
    let era = z / 146097;
    let doe = z - era * 146097;
    let yoe = (doe - doe / 1460 + doe / 36524 - doe / 146096) / 365;
    let y0 = yoe + era * 400 - 800;
    let doy_raw = doe - (365 * yoe + yoe / 4 - yoe / 100);
    let doy = if doy_raw < 0 {
        0
    } else if doy_raw > 365 {
        365
    } else {
        doy_raw
    };
    let mp = (5 * doy + 2) / 153;
    let d = doy - (153 * mp + 2) / 5 + 1;
    let m = if mp < 10 {
        mp + 3
    } else {
        mp - 9
    };
    (
        if m <= 2 {
            y0 + 1
        } else {
            y0
        },
        m,
        d,
    )
}

/// The day of the week of a civil day number, with Sunday as 0.
pub open spec fn spec_weekday(dn: int) -> int {
    (dn + 4) % 7
}

/// A non-negative value divided by a positive divisor stays between zero
/// and its bound.
proof fn lemma_div_range(x: int, d: int, bound: int)
    requires
        0 <= x <= bound,
        d >= 1,
    ensures
        0 <= x / d <= bound,
{
    vstd::arithmetic::div_mod::lemma_div_pos_is_pos(x, d);
    vstd::arithmetic::div_mod::lemma_div_is_ordered(x, bound, d);
    vstd::arithmetic::div_mod::lemma_div_is_ordered_by_denominator(bound, 1, d);
    assert(bound / 1 == bound);
}

/// Computes the date a civil day number names.
pub fn civil_from_days(dn: i64) -> (r: (i64, i64, i64))
    requires
        -1_000_000 <= dn <= 4_000_000,
    ensures
        r.0 == spec_civil_from_days(dn as int).0,
        r.1 == spec_civil_from_days(dn as int).1,
        r.2 == spec_civil_from_days(dn as int).2,
        -1000 <= r.0 <= 400000,
        1 <= r.1 <= 12,
        1 <= r.2 <= 366,
{
    proof {
        reveal(spec_civil_from_days);
    }
    let z: i64 = dn + 719468 + 292194;
    let era: i64 = z / 146097;
    proof {
        vstd::arithmetic::div_mod::lemma_fundamental_div_mod(z as int, 146097);
        vstd::arithmetic::div_mod::lemma_mod_bound(z as int, 146097);
        vstd::arithmetic::div_mod::lemma_div_pos_is_pos(z as int, 146097);
        assert(era <= 34) by {
            vstd::arithmetic::div_mod::lemma_div_is_ordered(z as int, 5011662int, 146097);
            vstd::arithmetic::div_mod::lemma_fundamental_div_mod_converse(
                5011662int,
                146097,
                34,
                44364,
            );
        }
    }
    let doe: i64 = z - era * 146097;
    proof {
        assert(0 <= doe <= 146096);
        lemma_div_range(doe as int, 1460, 146096);
        lemma_div_range(doe as int, 36524, 146096);
        lemma_div_range(doe as int, 146096, 146096);
        assert(doe as int / 36524 <= doe as int / 1460) by {
            vstd::arithmetic::div_mod::lemma_div_is_ordered_by_denominator(
                doe as int,
                1460,
                36524,
            );
        }
        lemma_div_range(
            doe as int - doe as int / 1460 + doe as int / 36524 - doe as int / 146096,
            365,
            292192int,
        );
    }
    let yoe: i64 = (doe - doe / 1460 + doe / 36524 - doe / 146096) / 365;
    proof {
        lemma_div_range(yoe as int, 4, 292192int);
        lemma_div_range(yoe as int, 100, 292192int);
    }
    let y0: i64 = yoe + era * 400 - 800;
    let doy_raw: i64 = doe - (365 * yoe + yoe / 4 - yoe / 100);
    let doy: i64 = if doy_raw < 0 {
        0
    } else if doy_raw > 365 {
        365
    } else {
        doy_raw
    };
    let mp: i64 = (5 * doy + 2) / 153;
    proof {
        lemma_div_range(5 * doy as int + 2, 153, 1827int);
        assert(mp <= 11) by {
            vstd::arithmetic::div_mod::lemma_div_is_ordered(5 * doy as int + 2, 1827int, 153);
        }
    }
    let md: i64 = (153 * mp + 2) / 5;
    let d: i64 = doy - md + 1;
    proof {
        lemma_div_range(153 * mp as int + 2, 5, 1685int);
        assert(d >= 1) by {
            vstd::arithmetic::div_mod::lemma_fundamental_div_mod(5 * doy as int + 2, 153);
            vstd::arithmetic::div_mod::lemma_mod_bound(5 * doy as int + 2, 153);
            assert(153 * (mp as int) <= 5 * doy as int + 2);
            vstd::arithmetic::div_mod::lemma_div_is_ordered(
                153 * mp as int + 2,
                5 * doy as int + 4,
                5,
            );
            vstd::arithmetic::div_mod::lemma_fundamental_div_mod_converse(
                5 * doy as int + 4,
                5,
                doy as int,
                4,
            );
        }
    }
    let m: i64 = if mp < 10 {
        mp + 3
    } else {
        mp - 9
    };
    let y: i64 = if m <= 2 {
        y0 + 1
    } else {
        y0
    };
    (y, m, d)
}

/// Computes the day of the week of a civil day number, with Sunday as 0.
pub fn weekday(dn: i64) -> (r: i64)
    requires
        -1_000_000 <= dn <= 4_000_000,
    ensures
        r == spec_weekday(dn as int),
        0 <= r < 7,
{
    let r = (dn + 4 + 1000006) % 7;
    proof {
        vstd::arithmetic::div_mod::lemma_mod_multiples_vanish(
            142858,
            dn as int + 4,
            7,
        );
        vstd::arithmetic::div_mod::lemma_mod_bound(dn as int + 4 + 1000006, 7);
    }
    r
}

/// One cell of a calendar page: the date `idx` days after `start`.
pub open spec fn spec_calendar_cell(start: int, idx: int) -> Date {
    let c = spec_civil_from_days(start + idx);
    Date { year: c.0 as i32, month: c.1 as u32, day: c.2 as u32 }
}

/// One week row of a calendar page starting at day number `start`.
pub open spec fn spec_calendar_row(start: int, row: int) -> Seq<Date> {
    Seq::new(7, |j: int| spec_calendar_cell(start, row * 7 + j))
}

/// A six-week calendar page for a month: 42 consecutive dates starting on
/// the Sunday at or before the first of the month, in six rows of seven.
pub fn get_calendar_matrix(year: i32, month: u32) -> (r: Result<
    Vec<Vec<Date>>,
    TranscribeError,
>)
    ensures
        r is Ok <==> (1 <= year <= 9998 && 1 <= month <= 12),
        r is Err ==> r == Err::<Vec<Vec<Date>>, TranscribeError>(TranscribeError::InvalidDate),
        r matches Ok(m) ==> ({
            let first = spec_day_number(year as int, month as int, 1);
            let start = first - spec_weekday(first);
            m@.len() == 6 && forall|i: int|
                0 <= i < 6 ==> #[trigger] m@[i]@ == spec_calendar_row(start, i)
        }),
{
    if year < 1 || year > 9998 || month < 1 || month > 12 {
        return Err(TranscribeError::InvalidDate);
    }
    let first = day_number(&Date { year, month, day: 1 });
    let col = weekday(first);
    let start: i64 = first - col;
    let mut matrix: Vec<Vec<Date>> = Vec::new();
    let mut row: usize = 0;
    while row < 6
        invariant
            -865572 <= start <= 3_000_000,
            start == spec_day_number(year as int, month as int, 1) - spec_weekday(
                spec_day_number(year as int, month as int, 1),
            ),
            matrix@.len() == row,
            row <= 6,
            forall|i: int| 0 <= i < row ==> #[trigger] matrix@[i]@ == spec_calendar_row(
                start as int,
                i,
            ),
        decreases 6 - row,
    {
        let mut cells: Vec<Date> = Vec::new();
        let mut col_i: usize = 0;
        while col_i < 7
            invariant
                -865572 <= start <= 3_000_000,
                row < 6,
                cells@.len() == col_i,
                col_i <= 7,
                forall|j: int|
                    0 <= j < col_i ==> #[trigger] cells@[j] == spec_calendar_cell(
                        start as int,
                        row * 7 + j,
                    ),
            decreases 7 - col_i,
        {
            let cell = civil_from_days(start + (row as i64) * 7 + col_i as i64);
            cells.push(Date { year: cell.0 as i32, month: cell.1 as u32, day: cell.2 as u32 });
            col_i = col_i + 1;
        }
        proof {
            assert(cells@ =~= spec_calendar_row(start as int, row as int));
        }
        matrix.push(cells);
        row = row + 1;
    }
    Ok(matrix)
}

} // verus!
