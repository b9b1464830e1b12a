//! The name of the probe's log file, stamped with the local time (the
//! `chrono` crate formats the stamp).

use vstd::prelude::*;
use crate::json::number::{decimal_value, digit_char};
use crate::json::text::TextBuilder;

verus! {

/// The earliest and latest years `chrono` dates can hold.
pub const MIN_YEAR: i32 = -262143;

/// See [`MIN_YEAR`].
pub const MAX_YEAR: i32 = 262142;

/// The stamp pattern: two-digit year, month, day, hour and minute joined by
/// underscores, then the file extension.
pub const STAMP_PATTERN: &'static str = "%y_%m_%d_%H_%M.txt";

/// Leap years of the proleptic Gregorian calendar.
pub open spec fn is_leap_year(y: int) -> bool {
    (y % 4 == 0 && y % 100 != 0) || y % 400 == 0
}

/// The number of days of month `m` (1 to 12) in year `y`.
pub open spec fn days_in_month(y: int, m: int) -> int {
    if m == 2 {
        if is_leap_year(y) {
            29
        } else {
            28
        }
    } else if m == 4 || m == 6 || m == 9 || m == 11 {
        30
    } else {
        31
    }
}

/// Whether the fields name an existing minute of a date `chrono` can hold.
pub open spec fn is_valid_reading(year: int, month: int, day: int, hour: int, minute: int) -> bool {
    &&& MIN_YEAR <= year <= MAX_YEAR
    &&& 1 <= month <= 12
    &&& 1 <= day <= days_in_month(year, month)
    &&& 0 <= hour < 24
    &&& 0 <= minute < 60
}

/// A reading of the local clock, to the minute.
pub struct ClockReading {
    year: i32,
    month: u32,
    day: u32,
    hour: u32,
    minute: u32,
}

/// A number below one hundred as two digits.
pub open spec fn two_digits(n: int) -> Seq<char> {
    seq![digit_char((n / 10) as nat), digit_char((n % 10) as nat)]
}

impl ClockReading {
    #[verifier::type_invariant]
    spec fn valid(self) -> bool {
        is_valid_reading(
            self.year as int,
            self.month as int,
            self.day as int,
            self.hour as int,
            self.minute as int,
        )
    }

    pub closed spec fn year(&self) -> int {
        self.year as int
    }

    pub closed spec fn month(&self) -> int {
        self.month as int
    }

    pub closed spec fn day(&self) -> int {
        self.day as int
    }

    pub closed spec fn hour(&self) -> int {
        self.hour as int
    }

    pub closed spec fn minute(&self) -> int {
        self.minute as int
    }

    /// The reading with these fields, if they name an existing minute.
    pub fn new(year: i32, month: u32, day: u32, hour: u32, minute: u32) -> (r: Option<
        ClockReading,
    >)
        ensures
            r is Some <==> is_valid_reading(
                year as int,
                month as int,
                day as int,
                hour as int,
                minute as int,
            ),
            r matches Some(c) ==> c.year() == year && c.month() == month && c.day() == day
                && c.hour() == hour && c.minute() == minute,
    {
        if year < MIN_YEAR || year > MAX_YEAR || month < 1 || month > 12 || hour >= 24 || minute
            >= 60 || day < 1 {
            return None;
        }
        // Shift by a multiple of 400 to reason about remainders of a positive number.
        let shifted: u32 = (year as i64 + 400000) as u32;
        let leap = (shifted % 4 == 0 && shifted % 100 != 0) || shifted % 400 == 0;
        assert(leap == is_leap_year(year as int)) by {
            assert((year + 400000) % 4 == year % 4);
            assert((year + 400000) % 100 == year % 100);
            assert((year + 400000) % 400 == year % 400);
        }
        let days: u32 = if month == 2 {
            if leap {
                29
            } else {
                28
            }
        } else if month == 4 || month == 6 || month == 9 || month == 11 {
            30
        } else {
            31
        };
        if day > days {
            return None;
        }
        Some(ClockReading { year, month, day, hour, minute })
    }
}

/// The stamp `chrono` writes for the pattern [`STAMP_PATTERN`]: the year
/// modulo one hundred, month, day, hour and minute as two digits each,
/// separated by underscores, followed by `.txt`.
pub open spec fn stamp_text(c: ClockReading) -> Seq<char> {
    two_digits(c.year() % 100) + seq!['_'] + two_digits(c.month()) + seq!['_'] + two_digits(
        c.day(),
    ) + seq!['_'] + two_digits(c.hour()) + seq!['_'] + two_digits(c.minute()) + seq![
        '.',
        't',
        'x',
        't',
    ]
}

/// `chrono`: builds the `NaiveDateTime` of the reading (second zero) with
/// `NaiveDate::from_ymd_opt` and `and_hms_opt`, which cannot fail on a valid
/// reading, and renders it with `format(pattern)` and `to_string`. `chrono`
/// documents `%y` as the year modulo 100 and `%m`, `%d`, `%H`, `%M` as month,
/// day, hour and minute, each zero-padded to two digits; other characters are
/// copied.
#[verifier::external_body]
fn chrono_stamp(reading: &ClockReading, pattern: &str) -> (text: String)
    requires
        pattern@ == STAMP_PATTERN@,
    ensures
        text@ == stamp_text(*reading),
{
    chrono::NaiveDate::from_ymd_opt(reading.year, reading.month, reading.day)
        .unwrap()
        .and_hms_opt(reading.hour, reading.minute, 0)
        .unwrap()
        .format(pattern)
        .to_string()
}

/// The log file name for a run started at `reading`: `prefix` followed by the
/// stamp of the reading.
pub fn log_file_name(prefix: &str, reading: &ClockReading) -> (name: String)
    ensures
        name@ == prefix@ + stamp_text(*reading),
{
    let stamp = chrono_stamp(reading, STAMP_PATTERN);
    let mut b = TextBuilder::new();
    b.push_str(prefix);
    b.push_str(stamp.as_str());
    b.finish()
}


/// Law: the month lengths are those of the Gregorian calendar: January,
/// March, May, July, August, October and December have 31 days; April,
/// June, September and November 30; February 29 in years divisible by 4 but
/// not by 100, and in years divisible by 400, and 28 otherwise.
pub proof fn law_month_lengths(y: int)
    ensures
        days_in_month(y, 1) == 31,
        days_in_month(y, 3) == 31,
        days_in_month(y, 5) == 31,
        days_in_month(y, 7) == 31,
        days_in_month(y, 8) == 31,
        days_in_month(y, 10) == 31,
        days_in_month(y, 12) == 31,
        days_in_month(y, 4) == 30,
        days_in_month(y, 6) == 30,
        days_in_month(y, 9) == 30,
        days_in_month(y, 11) == 30,
        ((y % 4 == 0 && y % 100 != 0) || y % 400 == 0) ==> days_in_month(y, 2) == 29,
        !((y % 4 == 0 && y % 100 != 0) || y % 400 == 0) ==> days_in_month(y, 2) == 28,
{
}

/// Law: every minute of every Gregorian date in `chrono`'s range is a valid
/// reading (so `ClockReading::new` accepts it), and nothing else is.
pub proof fn law_valid_readings(year: int, month: int, day: int, hour: int, minute: int)
    ensures
        is_valid_reading(year, month, day, hour, minute) <==> (-262143 <= year <= 262142 && 0
            <= hour < 24 && 0 <= minute < 60 && 1 <= day && ({
        ||| (month == 1 || month == 3 || month == 5 || month == 7 || month == 8 || month == 10
            || month == 12) && day <= 31
        ||| (month == 4 || month == 6 || month == 9 || month == 11) && day <= 30
        ||| month == 2 && day <= 28
        ||| month == 2 && day == 29 && ((year % 4 == 0 && year % 100 != 0) || year % 400 == 0)
    })),
{
}


proof fn lemma_two_digits(n: int)
    requires
        0 <= n < 100,
    ensures
        two_digits(n).len() == 2,
        decimal_value(two_digits(n)) == n,
{
    let t = two_digits(n);
    assert(((48 + n / 10) as u8) as int == 48 + n / 10);
    assert(((48 + n % 10) as u8) as int == 48 + n % 10);
    assert(t.drop_last() =~= seq![digit_char((n / 10) as nat)]);
    assert(t.drop_last().drop_last() =~= Seq::<char>::empty());
    assert(decimal_value(Seq::<char>::empty()) == 0);
    assert(decimal_value(t.drop_last()) == n / 10);
    assert(n == (n / 10) * 10 + n % 10);
}

/// Law: the stamp of a valid reading is 18 characters: the year modulo 100,
/// month, day, hour and minute as two decimal digits each (reading back as
/// those numbers) at positions 0, 3, 6, 9 and 12, underscores between them,
/// and `.txt` at the end.
pub proof fn law_stamp_fields(c: ClockReading)
    requires
        is_valid_reading(c.year(), c.month(), c.day(), c.hour(), c.minute()),
    ensures
        stamp_text(c).len() == 18,
        decimal_value(stamp_text(c).subrange(0, 2)) == c.year() % 100,
        decimal_value(stamp_text(c).subrange(3, 5)) == c.month(),
        decimal_value(stamp_text(c).subrange(6, 8)) == c.day(),
        decimal_value(stamp_text(c).subrange(9, 11)) == c.hour(),
        decimal_value(stamp_text(c).subrange(12, 14)) == c.minute(),
        stamp_text(c)[2] == '_' && stamp_text(c)[5] == '_' && stamp_text(c)[8] == '_'
            && stamp_text(c)[11] == '_',
        stamp_text(c).subrange(14, 18) == seq!['.', 't', 'x', 't'],
{
    let y = c.year() % 100;
    lemma_two_digits(y);
    lemma_two_digits(c.month());
    lemma_two_digits(c.day());
    lemma_two_digits(c.hour());
    lemma_two_digits(c.minute());
    let s = stamp_text(c);
    assert(s.subrange(0, 2) =~= two_digits(y));
    assert(s.subrange(3, 5) =~= two_digits(c.month()));
    assert(s.subrange(6, 8) =~= two_digits(c.day()));
    assert(s.subrange(9, 11) =~= two_digits(c.hour()));
    assert(s.subrange(12, 14) =~= two_digits(c.minute()));
    assert(s.subrange(14, 18) =~= seq!['.', 't', 'x', 't']);
}

} // verus!
