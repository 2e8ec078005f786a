//! Clock readings, calendar dates and the texts of points in time.
use std::time::SystemTime;
use vstd::prelude::*;
use vstd::string::*;

use crate::text::text_chars;
#[allow(unused_imports)]
use crate::text::numeral_value;

verus! {

/// `std::time::SystemTime`, a reading of the system clock.
#[verifier::external_type_specification]
#[verifier::external_body]
pub struct ExSystemTime(std::time::SystemTime);

/// Wraps `SystemTime::now`.  Nothing is known of the reading.
#[verifier::external_body]
fn system_now() -> SystemTime {
    SystemTime::now()
}

/// The whole seconds from the Unix epoch to a clock reading and the nanoseconds
/// beyond them; none if the reading lies before the epoch.
pub uninterp spec fn time_after_epoch(reading: SystemTime) -> Option<(u64, u32)>;

/// Wraps `SystemTime::duration_since` with the Unix epoch as the earlier time,
/// the duration given as its seconds and nanoseconds: the result is a function
/// of the reading, and the nanoseconds are less than a second.
#[verifier::external_body]
fn time_since_epoch(reading: SystemTime) -> (time: Option<(u64, u32)>)
    ensures
        time == time_after_epoch(reading),
        time matches Some(t) ==> t.1 < 1_000_000_000,
{
    reading.duration_since(std::time::UNIX_EPOCH).ok().map(|d| (d.as_secs(), d.subsec_nanos()))
}

/// A time in seconds and nanoseconds, in whole milliseconds.
pub open spec fn whole_millis(seconds: u64, nanos: u32) -> int {
    (seconds * 1_000_000_000 + nanos) / 1_000_000
}

/// A time after the epoch as a request timestamp: the low 64 bits of its whole
/// milliseconds.
pub open spec fn timestamp_of(time: Option<(u64, u32)>) -> Option<u64> {
    match time {
        Some((seconds, nanos)) => Some(
            (whole_millis(seconds, nanos) % 0x1_0000_0000_0000_0000) as u64,
        ),
        None => None,
    }
}

/// The request timestamp for a time after the epoch, in seconds and nanoseconds.
pub fn timestamp_from_time(time: Option<(u64, u32)>) -> (timestamp: Option<u64>)
    ensures
        timestamp == timestamp_of(time),
{
    match time {
        Some((seconds, nanos)) => {
            let millis: u128 = (seconds as u128) * 1000 + (nanos as u128) / 1_000_000;
            proof {
                assert(millis == whole_millis(seconds, nanos));
            }
            Some((millis % 0x1_0000_0000_0000_0000u128) as u64)
        },
        None => None,
    }
}

/// The current time in milliseconds since the Unix epoch, by the local clock;
/// none if the clock stands before the epoch.
pub fn get_timestamp() -> (timestamp: Option<u64>)
    ensures
        exists|reading: SystemTime|
            timestamp == timestamp_of(#[trigger] time_after_epoch(reading)),
{
    let reading = system_now();
    timestamp_from_time(time_since_epoch(reading))
}

/// The timestamp of a request: the exchange's clock where it could be read, the
/// local clock otherwise.
pub fn request_timestamp(server_time: Option<u64>) -> (timestamp: Option<u64>)
    ensures
        server_time is Some ==> timestamp == server_time,
        server_time is None ==> exists|reading: SystemTime|
            timestamp == timestamp_of(#[trigger] time_after_epoch(reading)),
{
    match server_time {
        Some(time) => Some(time),
        None => get_timestamp(),
    }
}

/// The last second that has a calendar text: the end of the year 262142.
pub const LAST_UTC_SECOND: u64 = 8_210_266_876_799;

/// The layout of a point in time, in `strftime` notation.
pub const UTC_LAYOUT: &'static str = "%Y-%m-%d %H:%M:%S UTC";

/// What `chrono` prints for a number of seconds after the Unix epoch in a
/// `strftime` layout.
pub uninterp spec fn utc_text(seconds: u64, layout: Seq<char>) -> Seq<char>;

/// The seconds before the year 10000.
pub const FOUR_DIGIT_YEARS: u64 = 253_402_300_800;

/// The time of day, to the second.
pub open spec fn time_of_day(second: int) -> Seq<char> {
    two_digits(second / 3600) + ":"@ + two_digits(second / 60 % 60) + ":"@ + two_digits(
        second % 60,
    )
}

/// `text` is the date and the time of day of a point in time, in UTC.
pub open spec fn is_calendar_text(text: Seq<char>, seconds: u64) -> bool {
    exists|date: Date|
        date.valid() && #[trigger] date.days() == seconds / 86400 && text == date.iso() + " "@
            + time_of_day(seconds as int % 86400) + " UTC"@
}

/// The text of a point in time is its date and its time of day, while the year
/// has four digits.
pub open spec fn has_calendar_text(seconds: u64) -> bool {
    seconds < FOUR_DIGIT_YEARS ==> is_calendar_text(utc_text(seconds, UTC_LAYOUT@), seconds)
}

/// Wraps `chrono`'s `DateTime::UNIX_EPOCH + Duration`, printed with
/// `DateTime::format`: the text is a function of the seconds and the layout, and
/// while the year has four digits it is the Gregorian date and the time of day.
/// The addition panics past `LAST_UTC_SECOND`, and printing fails on a layout
/// that is not well formed.
#[verifier::external_body]
fn chrono_text(seconds: u64, layout: &str) -> (text: String)
    requires
        seconds <= LAST_UTC_SECOND,
        layout@ == UTC_LAYOUT@,
    ensures
        text@ == utc_text(seconds, layout@),
        seconds < FOUR_DIGIT_YEARS ==> is_calendar_text(text@, seconds),
{
    let time = chrono::DateTime::UNIX_EPOCH + std::time::Duration::from_secs(seconds);
    time.format(layout).to_string()
}

/// The calendar text of a point in time given in seconds.
pub fn utc_from_secs(seconds: u64) -> (text: String)
    requires
        seconds <= LAST_UTC_SECOND,
    ensures
        text@ == utc_text(seconds, UTC_LAYOUT@),
        seconds < FOUR_DIGIT_YEARS ==> is_calendar_text(text@, seconds),
{
    chrono_text(seconds, UTC_LAYOUT)
}

/// The calendar text of a point in time given in milliseconds: the layout shows
/// whole seconds.
pub fn utc_from_millis(millis: u64) -> (text: String)
    requires
        millis / 1000 <= LAST_UTC_SECOND,
    ensures
        text@ == utc_text(millis / 1000, UTC_LAYOUT@),
        millis / 1000 < FOUR_DIGIT_YEARS ==> is_calendar_text(text@, millis / 1000),
{
    chrono_text(millis / 1000, UTC_LAYOUT)
}

/// A date of the Gregorian calendar in the years 0 to 9999.
#[derive(Clone, Copy, Debug)]
pub struct Date {
    pub year: u64,
    pub month: u64,
    pub day: u64,
}

/// Leap years of the Gregorian calendar.
pub open spec fn is_leap(year: int) -> bool {
    year % 4 == 0 && (year % 100 != 0 || year % 400 == 0)
}

/// The number of days in a month.
pub open spec fn month_days(year: int, month: int) -> int {
    if month == 2 {
        if is_leap(year) {
            29
        } else {
            28
        }
    } else if month == 4 || month == 6 || month == 9 || month == 11 {
        30
    } else {
        31
    }
}

/// The number of days in a year.
pub open spec fn year_days(year: int) -> int {
    if is_leap(year) {
        366
    } else {
        365
    }
}

/// The days from the start of the year 0 to the start of `year`.
pub open spec fn days_before_year(year: int) -> int
    decreases year,
{
    if year <= 0 {
        0
    } else {
        days_before_year(year - 1) + year_days(year - 1)
    }
}

/// The days from the start of `year` to the start of `month`.
pub open spec fn days_before_month(year: int, month: int) -> int
    decreases month,
{
    if month <= 1 {
        0
    } else {
        days_before_month(year, month - 1) + month_days(year, month - 1)
    }
}

impl Date {
    /// The date exists and lies in the supported years.
    pub open spec fn valid(&self) -> bool {
        &&& self.year <= 9999
        &&& 1 <= self.month <= 12
        &&& 1 <= self.day <= month_days(self.year as int, self.month as int)
    }

    /// The days from the start of 1970 to this date; negative before it.
    pub open spec fn days(&self) -> int {
        days_before_year(self.year as int) - days_before_year(1970) + days_before_month(
            self.year as int,
            self.month as int,
        ) + self.day - 1
    }

    /// The date written as `YYYY-MM-DD`.
    pub open spec fn iso(&self) -> Seq<char> {
        two_digits(self.year as int / 100) + two_digits(self.year as int % 100) + seq!['-']
            + two_digits(self.month as int) + seq!['-'] + two_digits(self.day as int)
    }
}

/// A number below one hundred written with two digits.
pub open spec fn two_digits(n: int) -> Seq<char> {
    seq![(48 + n / 10) as char, (48 + n % 10) as char]
}

fn leap(year: u64) -> (is: bool)
    ensures
        is == is_leap(year as int),
{
    year % 4 == 0 && (year % 100 != 0 || year % 400 == 0)
}

fn days_in_month(year: u64, month: u64) -> (days: u64)
    ensures
        days == month_days(year as int, month as int),
{
    if month == 2 {
        if leap(year) {
            29
        } else {
            28
        }
    } else if month == 4 || month == 6 || month == 9 || month == 11 {
        30
    } else {
        31
    }
}

/// Four digits, a dash, two digits, a dash and two digits.
spec fn has_iso_shape(text: Seq<char>) -> bool {
    &&& text.len() == 10
    &&& text[4] == '-'
    &&& text[7] == '-'
    &&& forall|k: int| 0 <= k < 10 && k != 4 && k != 7 ==> '0' <= #[trigger] text[k] <= '9'
}

/// Whether the characters have the shape of a date.
fn iso_shape(chars: &[char]) -> (has: bool)
    ensures
        has == has_iso_shape(chars@),
{
    if chars.len() != 10 || chars[4] != '-' || chars[7] != '-' {
        return false;
    }
    let mut k: usize = 0;
    while k < 10
        invariant
            k <= 10,
            chars@.len() == 10,
            forall|j: int| 0 <= j < k && j != 4 && j != 7 ==> '0' <= #[trigger] chars@[j] <= '9',
        decreases 10 - k,
    {
        let c: char = chars[k];
        if k != 4 && k != 7 && (c < '0' || '9' < c) {
            return false;
        }
        k = k + 1;
    }
    true
}

/// The number written by the two digits at `at`.
fn read_two(chars: &[char], at: usize) -> (n: u64)
    requires
        at + 2 <= chars@.len(),
        '0' <= chars@[at as int] <= '9',
        '0' <= chars@[at + 1] <= '9',
    ensures
        n < 100,
        chars@.subrange(at as int, at + 2) == two_digits(n as int),
{
    let tens: u64 = (chars[at] as u64) - 48;
    let ones: u64 = (chars[at + 1] as u64) - 48;
    let n: u64 = tens * 10 + ones;
    proof {
        assert(n / 10 == tens && n % 10 == ones);
        assert(chars@.subrange(at as int, at + 2) =~= two_digits(n as int));
    }
    n
}

/// The date that a text of the right shape writes down, whether or not it
/// exists.
fn read_date(chars: &[char]) -> (date: Date)
    requires
        has_iso_shape(chars@),
    ensures
        date.iso() == chars@,
        date.year <= 9999,
        date.month <= 99,
        date.day <= 99,
{
    let century: u64 = read_two(chars, 0);
    let rest: u64 = read_two(chars, 2);
    let month: u64 = read_two(chars, 5);
    let day: u64 = read_two(chars, 8);
    let date = Date { year: century * 100 + rest, month, day };
    proof {
        assert(date.year / 100 == century && date.year % 100 == rest);
        assert(chars@ =~= chars@.subrange(0, 2) + chars@.subrange(2, 4) + seq!['-']
            + chars@.subrange(5, 7) + seq!['-'] + chars@.subrange(8, 10));
    }
    date
}

/// Reads a date written as `YYYY-MM-DD`.
pub fn parse_date(text: &str) -> (date: Option<Date>)
    ensures
        match date {
            Some(d) => d.valid() && text@ == d.iso(),
            None => forall|d: Date| d.valid() ==> text@ != #[trigger] d.iso(),
        },
{
    let chars = text_chars(text);
    if !iso_shape(chars.as_slice()) {
        proof {
            assert forall|d: Date| d.valid() implies text@ != #[trigger] d.iso() by {
                valid_date_has_iso_shape(d);
            }
        }
        return None;
    }
    let date = read_date(chars.as_slice());
    if 1 <= date.month && date.month <= 12 && 1 <= date.day && date.day
        <= days_in_month(date.year, date.month) {
        Some(date)
    } else {
        proof {
            assert forall|d: Date| d.valid() implies text@ != #[trigger] d.iso() by {
                if text@ == d.iso() {
                    same_iso_same_date(date, d);
                }
            }
        }
        None
    }
}

/// The text of a valid date has the shape that the reader asks for.
proof fn valid_date_has_iso_shape(d: Date)
    requires
        d.valid(),
    ensures
        has_iso_shape(d.iso()),
{
    two_digits_are_digits(d.year as int / 100);
    two_digits_are_digits(d.year as int % 100);
    two_digits_are_digits(d.month as int);
    two_digits_are_digits(d.day as int);
}

proof fn two_digits_are_digits(n: int)
    requires
        0 <= n < 100,
    ensures
        '0' <= two_digits(n)[0] <= '9',
        '0' <= two_digits(n)[1] <= '9',
        two_digits(n)[0] as int - 48 == n / 10,
        two_digits(n)[1] as int - 48 == n % 10,
{
}

/// Two dates with the same text are the same.
pub(crate) proof fn same_iso_same_date(a: Date, b: Date)
    requires
        a.year <= 9999,
        a.month <= 99,
        a.day <= 99,
        b.valid(),
        a.iso() == b.iso(),
    ensures
        a.year == b.year,
        a.month == b.month,
        a.day == b.day,
{
    two_digits_at(a, b, a.year as int / 100, b.year as int / 100, 0);
    two_digits_at(a, b, a.year as int % 100, b.year as int % 100, 2);
    two_digits_at(a, b, a.month as int, b.month as int, 5);
    two_digits_at(a, b, a.day as int, b.day as int, 8);
}

proof fn two_digits_at(a: Date, b: Date, m: int, n: int, at: int)
    requires
        a.iso() == b.iso(),
        0 <= m < 100,
        0 <= n < 100,
        a.iso()[at] == two_digits(m)[0],
        a.iso()[at + 1] == two_digits(m)[1],
        b.iso()[at] == two_digits(n)[0],
        b.iso()[at + 1] == two_digits(n)[1],
    ensures
        m == n,
{
    two_digits_are_digits(m);
    two_digits_are_digits(n);
}

/// The days from the start of the year 0 to the start of 1970.
const EPOCH_DAYS: i64 = 719_528;

/// The days from the start of 1970 to a date.
fn epoch_days(date: &Date) -> (days: i64)
    requires
        date.valid(),
    ensures
        days == date.days(),
        -4_000_000 <= days <= 4_000_000,
{
    let mut days: i64 = 0;
    let mut year: u64 = 0;
    while year < date.year
        invariant
            year <= date.year <= 9999,
            days == days_before_year(year as int),
            0 <= days <= 366 * year,
        decreases date.year - year,
    {
        days = days + if leap(year) {
            366i64
        } else {
            365i64
        };
        year = year + 1;
    }
    let ghost whole = days as int;
    let mut month: u64 = 1;
    while month < date.month
        invariant
            1 <= month <= date.month <= 12,
            days == whole + days_before_month(date.year as int, month as int),
            0 <= whole <= days <= whole + 31 * (month - 1),
            whole <= 366 * 9999,
        decreases date.month - month,
    {
        days = days + days_in_month(date.year, month) as i64;
        month = month + 1;
    }
    proof {
        years_in_days(1970);
    }
    days + (date.day as i64 - 1) - EPOCH_DAYS
}

/// The milliseconds in a day.
pub const DAY_MILLIS: u64 = 86_400_000;

/// The first millisecond of a date, since the Unix epoch; negative before it.
pub fn day_start_millis(date: &Date) -> (millis: i64)
    requires
        date.valid(),
    ensures
        millis == date.days() * DAY_MILLIS,
        -400_000_000_000_000 <= millis <= 400_000_000_000_000,
{
    epoch_days(date) * 86_400_000
}

/// The last millisecond of a date, since the Unix epoch; negative before it.
pub fn day_end_millis(date: &Date) -> (millis: i64)
    requires
        date.valid(),
    ensures
        millis == (date.days() + 1) * DAY_MILLIS - 1,
{
    day_start_millis(date) + 86_399_999
}

/// `a` comes before `b` in the calendar.
pub open spec fn is_before(a: Date, b: Date) -> bool {
    ||| a.year < b.year
    ||| a.year == b.year && a.month < b.month
    ||| a.year == b.year && a.month == b.month && a.day < b.day
}

/// The days of different dates do not overlap and come in calendar order: an
/// earlier date ends before a later one starts.
pub proof fn dates_keep_their_order(a: Date, b: Date)
    requires
        a.valid(),
        b.valid(),
        is_before(a, b),
    ensures
        a.days() < b.days(),
        (a.days() + 1) * DAY_MILLIS - 1 < b.days() * DAY_MILLIS,
{
    let y = a.year as int;
    let z = b.year as int;
    months_fit_in_year(y, a.month as int);
    months_fit_in_year(z, b.month as int);
    if a.year < b.year {
        years_grow(y + 1, z);
        assert(days_before_year(y + 1) == days_before_year(y) + year_days(y));
    } else if a.month < b.month {
        months_grow(y, a.month as int + 1, b.month as int);
        assert(days_before_month(y, a.month as int + 1) == days_before_month(y, a.month as int)
            + month_days(y, a.month as int));
    }
}

/// The days of a date stay within eleven thousand years of the epoch.
pub(crate) proof fn days_are_bounded(date: Date)
    requires
        date.valid(),
    ensures
        -4_000_000 <= date.days() <= 4_000_000,
{
    years_in_days(date.year as int);
    years_in_days(1970);
    months_fit_in_year(date.year as int, date.month as int);
}

/// A point in time has at most one calendar text.
pub proof fn calendar_text_is_unique(seconds: u64, a: Seq<char>, b: Seq<char>)
    requires
        is_calendar_text(a, seconds),
        is_calendar_text(b, seconds),
    ensures
        a == b,
{
    let d = choose|d: Date|
        d.valid() && #[trigger] d.days() == seconds / 86400 && a == d.iso() + " "@ + time_of_day(
            seconds as int % 86400,
        ) + " UTC"@;
    let e = choose|e: Date|
        e.valid() && #[trigger] e.days() == seconds / 86400 && b == e.iso() + " "@ + time_of_day(
            seconds as int % 86400,
        ) + " UTC"@;
    if is_before(d, e) {
        dates_keep_their_order(d, e);
    }
    if is_before(e, d) {
        dates_keep_their_order(e, d);
    }
}

/// Every second of the years with four digits has a calendar text.
pub proof fn every_second_has_a_calendar_text(seconds: u64)
    requires
        seconds < FOUR_DIGIT_YEARS,
    ensures
        exists|text: Seq<char>| #[trigger] is_calendar_text(text, seconds),
{
    let date = date_of_day(seconds as int / 86400);
    let text = date.iso() + " "@ + time_of_day(seconds as int % 86400) + " UTC"@;
    assert(date.days() == seconds / 86400);
    assert(is_calendar_text(text, seconds));
}

/// The date of a day since the start of 1970.
proof fn date_of_day(n: int) -> (date: Date)
    requires
        0 <= n < 2932897,
    ensures
        date.valid(),
        date.days() == n,
    decreases n,
{
    if n == 0 {
        let date = Date { year: 1970, month: 1, day: 1 };
        assert(date.days() == 0);
        date
    } else {
        let before = date_of_day(n - 1);
        let y = before.year as int;
        let m = before.month as int;
        if before.day < month_days(y, m) {
            Date { year: before.year, month: before.month, day: (before.day + 1) as u64 }
        } else if m < 12 {
            let date = Date { year: before.year, month: (m + 1) as u64, day: 1 };
            assert(days_before_month(y, m + 1) == days_before_month(y, m) + month_days(y, m));
            date
        } else {
            months_fill_year(y);
            assert(days_before_year(y + 1) == days_before_year(y) + year_days(y));
            if y == 9999 {
                years_in_days(10000);
                years_in_days(1970);
            }
            let date = Date { year: (y + 1) as u64, month: 1, day: 1 };
            assert(days_before_month(y + 1, 1) == 0);
            date
        }
    }
}

proof fn months_fill_year(year: int)
    ensures
        days_before_month(year, 12) + 31 == year_days(year),
{
    reveal_with_fuel(days_before_month, 13);
}

/// The days before a year in closed form.
proof fn years_in_days(year: int)
    requires
        0 <= year,
    ensures
        days_before_year(year) == 365 * year + (year - 1) / 4 - (year - 1) / 100 + (year - 1) / 400
            + 1,
    decreases year,
{
    if year > 0 {
        years_in_days(year - 1);
        let y = year - 1;
        assert(y / 4 - (y - 1) / 4 == if y % 4 == 0 { 1int } else { 0int });
        assert(y / 100 - (y - 1) / 100 == if y % 100 == 0 { 1int } else { 0int });
        assert(y / 400 - (y - 1) / 400 == if y % 400 == 0 { 1int } else { 0int });
    }
}

proof fn years_grow(y: int, z: int)
    requires
        0 <= y <= z,
    ensures
        days_before_year(y) <= days_before_year(z),
    decreases z,
{
    if y < z {
        years_grow(y, z - 1);
    }
}

proof fn months_grow(year: int, m: int, n: int)
    requires
        1 <= m <= n,
    ensures
        0 <= days_before_month(year, m) <= days_before_month(year, n),
    decreases n,
{
    if m < n {
        months_grow(year, m, n - 1);
    } else if 1 < m {
        months_grow(year, m - 1, n - 1);
    }
}

/// A month ends within its year.
proof fn months_fit_in_year(year: int, month: int)
    requires
        1 <= month <= 12,
    ensures
        0 <= days_before_month(year, month),
        days_before_month(year, month) + month_days(year, month) <= year_days(year),
{
    reveal_with_fuel(days_before_month, 13);
}

/// A timestamp counts whole milliseconds: as many as have passed since the epoch,
/// as far as they fit into sixty-four bits.
pub proof fn timestamp_counts_milliseconds(seconds: u64, nanos: u32, timestamp: u64)
    requires
        timestamp_of(Some((seconds, nanos))) == Some(timestamp),
        seconds < 0x1_0000_0000_0000,
    ensures
        timestamp * 1_000_000 <= seconds * 1_000_000_000 + nanos < (timestamp + 1) * 1_000_000,
{
}

/// A time without reading has no timestamp, and any other one has the low bits of
/// its milliseconds.
pub proof fn timestamps_wrap(seconds: u64, nanos: u32)
    ensures
        timestamp_of(None) is None,
        timestamp_of(Some((seconds, nanos))) is Some,
        timestamp_of(Some((seconds, nanos)))->0 == ((seconds * 1_000_000_000 + nanos) / 1_000_000)
            % 0x1_0000_0000_0000_0000,
{
}

/// Two digits read back as the number.
proof fn two_digits_read_back(n: int)
    requires
        0 <= n < 100,
    ensures
        numeral_value(two_digits(n)) == n,
{
    let text = two_digits(n);
    reveal_with_fuel(numeral_value, 3);
    assert(text.drop_last() =~= seq![(48 + n / 10) as char]);
    assert(text.drop_last().drop_last() =~= Seq::<char>::empty());
}

proof fn four_digits_read_back(a: int, b: int)
    requires
        0 <= a < 100,
        0 <= b < 100,
    ensures
        numeral_value(two_digits(a) + two_digits(b)) == 100 * a + b,
{
    let text = two_digits(a) + two_digits(b);
    two_digits_read_back(a);
    reveal_with_fuel(numeral_value, 3);
    assert(text.drop_last().drop_last() =~= two_digits(a));
    assert(text.last() == two_digits(b)[1]);
    assert(text.drop_last().last() == two_digits(b)[0]);
}

/// A date is written as four digits of the year, two of the month and two of the
/// day with dashes between them, and reads back as the date.
pub proof fn date_reads_back(date: Date)
    requires
        date.valid(),
    ensures
        date.iso().len() == 10,
        date.iso()[4] == '-',
        date.iso()[7] == '-',
        forall|i: int|
            0 <= i < 10 && i != 4 && i != 7 ==> '0' <= #[trigger] date.iso()[i] <= '9',
        numeral_value(date.iso().take(4)) == date.year,
        numeral_value(date.iso().subrange(5, 7)) == date.month,
        numeral_value(date.iso().subrange(8, 10)) == date.day,
{
    let text = date.iso();
    let y = date.year as int;
    valid_date_has_iso_shape(date);
    assert(text.take(4) =~= two_digits(y / 100) + two_digits(y % 100));
    four_digits_read_back(y / 100, y % 100);
    assert(text.subrange(5, 7) =~= two_digits(date.month as int));
    two_digits_read_back(date.month as int);
    assert(text.subrange(8, 10) =~= two_digits(date.day as int));
    two_digits_read_back(date.day as int);
}

/// The dates that exist are those of the Gregorian calendar, from the year 0 to
/// the year 9999.
pub proof fn dates_are_gregorian(date: Date)
    ensures
        date.valid() <==> date.year <= 9999 && 1 <= date.month <= 12 && 1 <= date.day <= 31 && (
        date.month == 4 || date.month == 6 || date.month == 9 || date.month == 11 ==> date.day
            <= 30) && (date.month == 2 ==> date.day <= 29) && (date.month == 2 && date.day == 29
            ==> date.year % 4 == 0 && (date.year % 100 != 0 || date.year % 400 == 0)),
{
}

/// Days are counted from the first of January 1970, and the day after a date
/// counts one more.
pub proof fn days_count_up(date: Date, next: Date)
    requires
        date.valid(),
        next.valid(),
        ({
            ||| next.year == date.year && next.month == date.month && next.day == date.day + 1
            ||| next.year == date.year && next.month == date.month + 1 && next.day == 1 && !(Date {
                day: (date.day + 1) as u64,
                ..date
            }).valid()
            ||| next.year == date.year + 1 && date.month == 12 && date.day == 31 && next.month == 1
                && next.day == 1
        }),
    ensures
        next.days() == date.days() + 1,
        (Date { year: 1970, month: 1, day: 1 }).days() == 0,
{
    let y = date.year as int;
    let m = date.month as int;
    let epoch = Date { year: 1970, month: 1, day: 1 };
    assert(epoch.days() == 0);
    if next.year == date.year + 1 {
        months_fill_year(y);
        assert(days_before_year(y + 1) == days_before_year(y) + year_days(y));
        assert(days_before_month(y + 1, 1) == 0);
    } else if next.month == date.month + 1 {
        assert(date.day == month_days(y, m));
        assert(days_before_month(y, m + 1) == days_before_month(y, m) + month_days(y, m));
    }
}

/// The text of a point in time reads back as that time: a date and the hours,
/// minutes and seconds of the day, in UTC.
pub proof fn calendar_text_reads_back(text: Seq<char>, seconds: u64)
    requires
        is_calendar_text(text, seconds),
    ensures
        text.len() == 23,
        exists|date: Date|
            date.valid() && date.days() == seconds / 86400 && text.take(10) == #[trigger] date.iso(),
        text[10] == ' ',
        text[13] == ':',
        text[16] == ':',
        text.skip(19) == " UTC"@,
        numeral_value(text.subrange(11, 13)) * 3600 + numeral_value(text.subrange(14, 16)) * 60
            + numeral_value(text.subrange(17, 19)) == seconds % 86400,
        numeral_value(text.subrange(11, 13)) < 24,
        numeral_value(text.subrange(14, 16)) < 60,
        numeral_value(text.subrange(17, 19)) < 60,
{
    reveal_strlit(" ");
    reveal_strlit(":");
    reveal_strlit(" UTC");
    let date = choose|date: Date|
        date.valid() && #[trigger] date.days() == seconds / 86400 && text == date.iso() + " "@
            + time_of_day(seconds as int % 86400) + " UTC"@;
    date_reads_back(date);
    let second = seconds as int % 86400;
    let h = second / 3600;
    let m = second / 60 % 60;
    let s = second % 60;
    two_digits_read_back(h);
    two_digits_read_back(m);
    two_digits_read_back(s);
    assert(text.take(10) =~= date.iso());
    assert(text.subrange(11, 13) =~= two_digits(h));
    assert(text.subrange(14, 16) =~= two_digits(m));
    assert(text.subrange(17, 19) =~= two_digits(s));
    assert(text.skip(19) =~= " UTC"@);
    assert(second / 60 == h * 60 + m);
    assert(second == (second / 60) * 60 + s);
}

/// Before the year 10000 every time shown is a date and a time of day.
pub proof fn shown_times_are_in_the_calendar(seconds: u64)
    requires
        has_calendar_text(seconds),
        seconds < 253_402_300_800,
    ensures
        is_calendar_text(utc_text(seconds, "%Y-%m-%d %H:%M:%S UTC"@), seconds),
{
}

} // verus!
