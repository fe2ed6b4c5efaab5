//! Wall-clock times as a person types them, `YYYY-MM-DD HH:MM:SS`, and the
//! day of the week. All of the board's clocks take their initial time from
//! such a text.

use crate::text::{
    append_decimal, append_padded, chars_of, debug_quoted, decimal, digit_char, digit_value,
    is_decimal_digit, number_value, padded, quote,
};
use vstd::prelude::*;
use vstd::string::*;

verus! {

/// A point in time, without a time zone.
#[derive(Clone, Copy, Debug, PartialEq, Eq, Structural)]
pub struct WallClock {
    /// The full year.
    pub year: u16,
    /// 1 to 12.
    pub month: u8,
    /// 1 to 31.
    pub date: u8,
    /// 0 to 23.
    pub hour: u8,
    pub minute: u8,
    pub second: u8,
}

/// Whether a year of the Gregorian calendar has a 29 February.
pub open spec fn leap(year: int) -> bool {
    (year % 4 == 0 && year % 100 != 0) || year % 400 == 0
}

/// The length of a month; 0 for a month that does not exist.
pub open spec fn month_len(year: int, month: int) -> int {
    if month == 2 {
        if leap(year) {
            29
        } else {
            28
        }
    } else if month == 4 || month == 6 || month == 9 || month == 11 {
        30
    } else if 1 <= month <= 12 {
        31
    } else {
        0
    }
}

/// Whether a year has a 29 February.
pub fn is_leap_year(year: u32) -> (r: bool)
    ensures
        r == leap(year as int),
{
    (year % 4 == 0 && year % 100 != 0) || year % 400 == 0
}

/// The length of a month; 0 for a month that does not exist.
pub fn days_in_month(year: u32, month: u32) -> (days: u32)
    ensures
        days as int == month_len(year as int, month as int),
{
    match month {
        1 | 3 | 5 | 7 | 8 | 10 | 12 => 31,
        4 | 6 | 9 | 11 => 30,
        2 => if is_leap_year(year) {
            29
        } else {
            28
        },
        _ => 0,
    }
}

/// How far a month shifts the day of the week.
pub open spec fn month_shift(month: int) -> int {
    seq![0int, 3, 2, 5, 0, 3, 5, 1, 4, 6, 2, 4][month - 1]
}

/// Leap days up to the end of a year.
pub open spec fn leap_days(year: int) -> int {
    if year < 0 {
        0
    } else {
        year / 4 - year / 100 + year / 400
    }
}

/// The days that decide the day of the week, counted from a Sunday. The
/// year turns in March.
pub open spec fn day_count(year: int, month: int, date: int) -> int {
    let y = if month < 3 {
        year - 1
    } else {
        year
    };
    y + leap_days(y) + month_shift(month) + date
}

impl WallClock {
    /// The fields make a date and a time of day.
    pub open spec fn on_calendar(self) -> bool {
        &&& 1 <= self.month <= 12
        &&& 1 <= self.date <= month_len(self.year as int, self.month as int)
        &&& self.hour <= 23
        &&& self.minute <= 59
        &&& self.second <= 59
    }

    /// The day of the week, 0 for Sunday. (Date 0 of January of year 0, one
    /// day before the count begins, wraps to 255.)
    pub open spec fn weekday(self) -> int {
        let days = day_count(self.year as int, self.month as int, self.date as int);
        if days < 0 {
            255
        } else {
            days % 7
        }
    }

    /// The day of the week, 0 for Sunday to 6 for Saturday.
    pub fn weekday_sun0(&self) -> (day: u8)
        requires
            1 <= self.month <= 12,
        ensures
            day as int == self.weekday(),
            self.date >= 1 ==> day <= 6,
    {
        let shifts: [i32; 12] = [0, 3, 2, 5, 0, 3, 5, 1, 4, 6, 2, 4];
        assert(shifts@[self.month - 1] == month_shift(self.month as int));
        let y: i32 = if self.month < 3 {
            self.year as i32 - 1
        } else {
            self.year as i32
        };
        let leaps: i32 = if y < 0 {
            0
        } else {
            y / 4 - y / 100 + y / 400
        };
        let days: i32 = y + leaps + shifts[(self.month - 1) as usize] + self.date as i32;
        if days < 0 {
            255
        } else {
            (days % 7) as u8
        }
    }
}

/// The character that must stand at a place of a written time; none where a
/// digit must stand.
pub open spec fn separator(i: int) -> Option<char> {
    if i == 4 || i == 7 {
        Some('-')
    } else if i == 10 {
        Some(' ')
    } else if i == 13 || i == 16 {
        Some(':')
    } else {
        None
    }
}

/// A character stands where it may in a written time.
pub open spec fn fits_place(c: char, i: int) -> bool {
    match separator(i) {
        Some(s) => c == s,
        None => digit_value(c, 10) is Some,
    }
}

/// A text has the shape `0000-00-00 00:00:00`.
pub open spec fn well_shaped(text: Seq<char>) -> bool {
    &&& text.len() == 19
    &&& forall|i: int| 0 <= i < 19 ==> fits_place(#[trigger] text[i], i)
}

/// The number that the characters from `from` up to `to` make.
pub open spec fn field(text: Seq<char>, from: int, to: int) -> int {
    number_value(text.subrange(from, to), 10)
}

/// What is said of a text of the wrong shape, quoted as it is.
pub open spec fn shape_message(quoted: Seq<char>) -> Seq<char> {
    "expected \"YYYY-MM-DD HH:MM:SS\", got "@ + quoted
}

/// What is said of a number out of range.
pub open spec fn range_message(name: Seq<char>, value: int, range: Seq<char>) -> Seq<char> {
    name + " "@ + decimal(value as nat) + " out of range "@ + range
}

/// What is said of a date that its month does not have.
pub open spec fn date_message(year: int, month: int, date: int) -> Seq<char> {
    "date "@ + decimal(date as nat) + " out of range 1-"@ + decimal(
        month_len(year, month) as nat,
    ) + " for "@ + padded(year as nat, 4) + "-"@ + padded(month as nat, 2)
}

/// What a text stands for, or what is wrong with it: its shape first, then
/// month, hour, minute, second, and the date last.
pub open spec fn parsed(text: Seq<char>) -> Result<WallClock, Seq<char>> {
    if !well_shaped(text) {
        Err(shape_message(debug_quoted(text)))
    } else {
        let year = field(text, 0, 4);
        let month = field(text, 5, 7);
        let date = field(text, 8, 10);
        let hour = field(text, 11, 13);
        let minute = field(text, 14, 16);
        let second = field(text, 17, 19);
        if !(1 <= month <= 12) {
            Err(range_message("month"@, month, "1-12"@))
        } else if hour > 23 {
            Err(range_message("hour"@, hour, "0-23"@))
        } else if minute > 59 {
            Err(range_message("minute"@, minute, "0-59"@))
        } else if second > 59 {
            Err(range_message("second"@, second, "0-59"@))
        } else if !(1 <= date <= month_len(year, month)) {
            Err(date_message(year, month, date))
        } else {
            Ok(
                WallClock {
                    year: year as u16,
                    month: month as u8,
                    date: date as u8,
                    hour: hour as u8,
                    minute: minute as u8,
                    second: second as u8,
                },
            )
        }
    }
}

/// The message for a text of the wrong shape, quoted as it is.
pub fn shape_error(quoted: &str) -> (message: String)
    ensures
        message@ == shape_message(quoted@),
{
    let mut message = String::from_str("expected \"YYYY-MM-DD HH:MM:SS\", got ");
    message.append(quoted);
    message
}

fn range_error(name: &str, value: u32, range: &str) -> (message: String)
    ensures
        message@ == range_message(name@, value as int, range@),
{
    let mut message = String::from_str(name);
    message.append(" ");
    append_decimal(&mut message, value as u64);
    message.append(" out of range ");
    message.append(range);
    message
}

fn date_error(year: u32, month: u32, date: u32) -> (message: String)
    ensures
        message@ == date_message(year as int, month as int, date as int),
{
    let mut message = String::from_str("date ");
    append_decimal(&mut message, date as u64);
    message.append(" out of range 1-");
    append_decimal(&mut message, days_in_month(year, month) as u64);
    message.append(" for ");
    append_padded(&mut message, year as u64, 4);
    message.append("-");
    append_padded(&mut message, month as u64, 2);
    message
}

fn has_shape(text: &Vec<char>) -> (ok: bool)
    ensures
        ok == well_shaped(text@),
{
    if text.len() != 19 {
        return false;
    }
    let mut i: usize = 0;
    while i < 19
        invariant
            i <= 19,
            text@.len() == 19,
            forall|k: int| 0 <= k < i ==> fits_place(#[trigger] text@[k], k),
        decreases 19 - i,
    {
        let c: char = text[i];
        let ok = match i {
            4 | 7 => c == '-',
            10 => c == ' ',
            13 | 16 => c == ':',
            _ => is_decimal_digit(c),
        };
        if !ok {
            assert(!fits_place(text@[i as int], i as int));
            return false;
        }
        i += 1;
    }
    true
}

/// Takes the number from `from` up to `to`, digits all.
fn take_field(text: &Vec<char>, from: usize, to: usize) -> (n: u32)
    requires
        from <= to <= text@.len(),
        to - from <= 4,
        forall|k: int| from <= k < to ==> digit_value(#[trigger] text@[k], 10) is Some,
    ensures
        n as int == field(text@, from as int, to as int),
        to - from <= 2 ==> n <= 99,
        n <= 9999,
{
    let mut n: u32 = 0;
    let mut i: usize = from;
    let ghost mut bound: int = 1;
    while i < to
        invariant
            from <= i <= to <= text@.len(),
            to - from <= 4,
            forall|k: int| from <= k < to ==> digit_value(#[trigger] text@[k], 10) is Some,
            n as int == field(text@, from as int, i as int),
            n < bound,
            i - from == 0 ==> bound == 1,
            i - from == 1 ==> bound == 10,
            i - from == 2 ==> bound == 100,
            i - from == 3 ==> bound == 1000,
            i - from == 4 ==> bound == 10000,
        decreases to - i,
    {
        assert(digit_value(text@[i as int], 10) is Some);
        proof {
            let now = text@.subrange(from as int, i as int + 1);
            assert(now.drop_last() =~= text@.subrange(from as int, i as int));
            assert(now.last() == text@[i as int]);
            bound = bound * 10;
        }
        n = n * 10 + (text[i] as u32 - 0x30);
        i += 1;
    }
    n
}

/// Parses `YYYY-MM-DD HH:MM:SS`. Anything else is refused, and so is a date
/// or a time of day that does not exist.
pub fn parse(s: &str) -> (r: Result<WallClock, String>)
    ensures
        match (r, parsed(s@)) {
            (Ok(time), Ok(expected)) => time == expected && time.on_calendar(),
            (Err(message), Err(expected)) => message@ == expected,
            _ => false,
        },
{
    let text: Vec<char> = chars_of(s);
    if !has_shape(&text) {
        return Err(shape_error(quote(s).as_str()));
    }
    assert forall|k: int| 0 <= k < 19 && separator(k) is None implies digit_value(
        #[trigger] text@[k],
        10,
    ) is Some by {
        assert(fits_place(text@[k], k));
    }
    let year: u32 = take_field(&text, 0, 4);
    let month: u32 = take_field(&text, 5, 7);
    let date: u32 = take_field(&text, 8, 10);
    let hour: u32 = take_field(&text, 11, 13);
    let minute: u32 = take_field(&text, 14, 16);
    let second: u32 = take_field(&text, 17, 19);
    if month < 1 || month > 12 {
        return Err(range_error("month", month, "1-12"));
    }
    if hour > 23 {
        return Err(range_error("hour", hour, "0-23"));
    }
    if minute > 59 {
        return Err(range_error("minute", minute, "0-59"));
    }
    if second > 59 {
        return Err(range_error("second", second, "0-59"));
    }
    if date < 1 || date > days_in_month(year, month) {
        return Err(date_error(year, month, date));
    }
    Ok(
        WallClock {
            year: year as u16,
            month: month as u8,
            date: date as u8,
            hour: hour as u8,
            minute: minute as u8,
            second: second as u8,
        },
    )
}

/// The day after a date.
pub open spec fn next_day(year: int, month: int, date: int) -> (int, int, int) {
    if date < month_len(year, month) {
        (year, month, date + 1)
    } else if month < 12 {
        (year, month + 1, 1)
    } else {
        (year + 1, 1, 1)
    }
}

/// A leap year adds a leap day.
proof fn lemma_leap_days_step(year: int)
    requires
        year >= 1,
    ensures
        leap_days(year) == leap_days(year - 1) + if leap(year) {
            1int
        } else {
            0
        },
{
}

/// From one day to the next the count goes up by one, less whole weeks at
/// the end of a month.
proof fn lemma_day_count_step(year: int, month: int, date: int)
    requires
        0 <= year,
        1 <= month <= 12,
        1 <= date <= month_len(year, month),
        !(year == 0 && month == 2 && date == 29),
    ensures
        ({
            let (y, m, d) = next_day(year, month, date);
            let (before, after) = (day_count(year, month, date), day_count(y, m, d));
            &&& 0 <= before
            &&& 0 <= after
            &&& after == before + 1 || after == before + 1 - 28 || after == before + 1 - 35
        }),
{
    if year >= 1 {
        lemma_leap_days_step(year);
    }
    assert(month_shift(1) == 0 && month_shift(2) == 3 && month_shift(3) == 2 && month_shift(4) == 5
        && month_shift(5) == 0 && month_shift(6) == 3 && month_shift(7) == 5 && month_shift(8) == 1
        && month_shift(9) == 4 && month_shift(10) == 6 && month_shift(11) == 2 && month_shift(12)
        == 4);
}

/// Whole weeks do not change the day of the week.
proof fn lemma_round_week(before: int, after: int)
    requires
        0 <= before,
        0 <= after,
        after == before + 1 || after == before + 1 - 28 || after == before + 1 - 35,
    ensures
        after % 7 == (before % 7 + 1) % 7,
{
}

/// The day of the week goes on by one from each day to the next, round the
/// seven, through month ends, leap days and year ends. (From 29 February of
/// year 0 it does not: the count begins on 1 March of that year.)
pub proof fn lemma_weekday_advances(a: WallClock, b: WallClock)
    requires
        a.on_calendar(),
        !(a.year == 0 && a.month == 2 && a.date == 29),
        (b.year as int, b.month as int, b.date as int) == next_day(
            a.year as int,
            a.month as int,
            a.date as int,
        ),
    ensures
        b.weekday() == (a.weekday() + 1) % 7,
{
    let (y, m, d) = (a.year as int, a.month as int, a.date as int);
    lemma_day_count_step(y, m, d);
    lemma_round_week(
        day_count(y, m, d),
        day_count(b.year as int, b.month as int, b.date as int),
    );
}

/// A time as it is written.
pub open spec fn written(t: WallClock) -> Seq<char> {
    let y = t.year as int;
    seq![
        digit_char(y / 1000),
        digit_char((y / 100) % 10),
        digit_char((y / 10) % 10),
        digit_char(y % 10),
        '-',
        digit_char(t.month as int / 10),
        digit_char(t.month as int % 10),
        '-',
        digit_char(t.date as int / 10),
        digit_char(t.date as int % 10),
        ' ',
        digit_char(t.hour as int / 10),
        digit_char(t.hour as int % 10),
        ':',
        digit_char(t.minute as int / 10),
        digit_char(t.minute as int % 10),
        ':',
        digit_char(t.second as int / 10),
        digit_char(t.second as int % 10),
    ]
}

/// A digit is the writing of its value.
proof fn lemma_digit(c: char)
    requires
        digit_value(c, 10) is Some,
    ensures
        0 <= digit_value(c, 10).unwrap() <= 9,
        digit_char(digit_value(c, 10).unwrap()) == c,
{
}

/// A two-digit field.
proof fn lemma_pair(text: Seq<char>, from: int)
    requires
        0 <= from,
        from + 2 <= text.len(),
        digit_value(text[from], 10) is Some,
        digit_value(text[from + 1], 10) is Some,
    ensures
        field(text, from, from + 2) == digit_value(text[from], 10).unwrap() * 10 + digit_value(
            text[from + 1],
            10,
        ).unwrap(),
{
    let s = text.subrange(from, from + 2);
    reveal_with_fuel(number_value, 3);
    assert(s.drop_last() =~= seq![text[from]]);
    assert(s.drop_last().drop_last() =~= Seq::<char>::empty());
    assert(s.drop_last().last() == text[from]);
    assert(s.last() == text[from + 1]);
}

/// The year.
proof fn lemma_year(text: Seq<char>)
    requires
        text.len() >= 4,
        forall|i: int| 0 <= i < 4 ==> digit_value(#[trigger] text[i], 10) is Some,
    ensures
        field(text, 0, 4) == field(text, 0, 2) * 100 + field(text, 2, 4),
{
    let s = text.subrange(0, 4);
    lemma_pair(text, 0);
    lemma_pair(text, 2);
    assert(s.drop_last() =~= text.subrange(0, 3));
    assert(text.subrange(0, 3).drop_last() =~= text.subrange(0, 2));
    assert(s.last() == text[3]);
    let three = text.subrange(0, 3);
    assert(three.last() == text[2]);
    assert(number_value(three, 10) == number_value(three.drop_last(), 10) * 10 + digit_value(
        text[2],
        10,
    ).unwrap());
    assert(number_value(s, 10) == number_value(s.drop_last(), 10) * 10 + digit_value(
        text[3],
        10,
    ).unwrap());
}

/// A two-digit field is written as the two characters that it was read
/// from.
proof fn lemma_pair_written(text: Seq<char>, from: int)
    requires
        0 <= from,
        from + 2 <= text.len(),
        digit_value(text[from], 10) is Some,
        digit_value(text[from + 1], 10) is Some,
    ensures
        0 <= field(text, from, from + 2) <= 99,
        digit_char(field(text, from, from + 2) / 10) == text[from],
        digit_char(field(text, from, from + 2) % 10) == text[from + 1],
{
    lemma_pair(text, from);
    lemma_digit(text[from]);
    lemma_digit(text[from + 1]);
}

/// Every time on the calendar, written out, parses back to itself.
pub proof fn lemma_written_parses(t: WallClock)
    requires
        t.on_calendar(),
        t.year <= 9999,
    ensures
        parsed(written(t)) == Ok::<WallClock, Seq<char>>(t),
{
    let text = written(t);
    assert forall|i: int| 0 <= i < 19 implies fits_place(#[trigger] text[i], i) by {}
    lemma_year(text);
    lemma_pair(text, 0);
    lemma_pair(text, 2);
    lemma_pair(text, 5);
    lemma_pair(text, 8);
    lemma_pair(text, 11);
    lemma_pair(text, 14);
    lemma_pair(text, 17);
}

/// A text that parses is the writing of what it parses to.
pub proof fn lemma_parsed_is_written(text: Seq<char>)
    requires
        parsed(text) is Ok,
    ensures
        written(parsed(text)->Ok_0) == text,
        parsed(text)->Ok_0.on_calendar(),
{
    let t = parsed(text)->Ok_0;
    assert forall|i: int| 0 <= i < 19 implies fits_place(#[trigger] text[i], i) by {}
    lemma_year(text);
    lemma_pair_written(text, 0);
    lemma_pair_written(text, 2);
    lemma_pair_written(text, 5);
    lemma_pair_written(text, 8);
    lemma_pair_written(text, 11);
    lemma_pair_written(text, 14);
    lemma_pair_written(text, 17);
    let (a, b, y) = (field(text, 0, 2), field(text, 2, 4), t.year as int);
    assert(y / 1000 == a / 10 && (y / 100) % 10 == a % 10 && (y / 10) % 10 == b / 10 && y % 10 == b
        % 10);
    let again = written(t);
    assert forall|i: int| 0 <= i < 19 implies again[i] == text[i] by {}
    assert(again =~= text);
}

/// The length of a month: 30 days and one more in every other month from
/// January to July and again from August to December, but for February, which
/// has 29 days every fourth year, not at the turn of a century unless it is
/// the fourth, and 28 otherwise. There is no other month.
pub proof fn lemma_month_lengths(year: int, month: int)
    ensures
        1 <= month <= 12 && month != 2 ==> month_len(year, month) == 30 + (month + month / 8) % 2,
        !(1 <= month <= 12) ==> month_len(year, month) == 0,
        month_len(year, 2) == 28 || month_len(year, 2) == 29,
        month_len(year, 2) == 29 <==> leap(year),
        year % 4 != 0 ==> !leap(year),
        year % 100 == 0 ==> (leap(year) <==> year % 400 == 0),
        year % 4 == 0 && year % 100 != 0 ==> leap(year),
        leap(year + 400) == leap(year),
{
}

/// The day of the week by Zeller's congruence: January and February count as
/// months 13 and 14 of the year before, and Saturday as 0. (Not in January and
/// February of year 0, where the year before would be negative.)
pub proof fn lemma_weekday_by_zeller(w: WallClock)
    requires
        1 <= w.month <= 12,
        w.year >= 1 || w.month >= 3,
    ensures
        ({
            let m = if w.month < 3 {
                w.month + 12
            } else {
                w.month as int
            };
            let y = if w.month < 3 {
                w.year - 1
            } else {
                w.year as int
            };
            let (century, year) = (y / 100, y % 100);
            let saturday0 = (w.date + (13 * (m + 1)) / 5 + year + year / 4 + century / 4 + 5
                * century) % 7;
            w.weekday() == (saturday0 + 6) % 7
        }),
{
    let m = if w.month < 3 {
        w.month + 12
    } else {
        w.month as int
    };
    let y = if w.month < 3 {
        w.year - 1
    } else {
        w.year as int
    };
    let (century, year) = (y / 100, y % 100);
    assert(month_shift(1) == 0 && month_shift(2) == 3 && month_shift(3) == 2 && month_shift(4) == 5
        && month_shift(5) == 0 && month_shift(6) == 3 && month_shift(7) == 5 && month_shift(8) == 1
        && month_shift(9) == 4 && month_shift(10) == 6 && month_shift(11) == 2 && month_shift(12)
        == 4);
    let shift = month_shift(w.month as int);
    assert(((13 * (m + 1)) / 5 - shift - 1) % 7 == 0);
    assert(leap_days(y) == 24 * century + year / 4 + century / 4) by {
        assert(y == 100 * century + year);
        assert(y / 4 == 25 * century + year / 4);
        assert(y / 400 == century / 4);
    }
    let days = y + leap_days(y) + shift + w.date;
    let zeller = w.date + (13 * (m + 1)) / 5 + year + year / 4 + century / 4 + 5 * century;
    assert(w.weekday() == days % 7);
    let weeks = ((13 * (m + 1)) / 5 - shift - 1) / 7;
    assert(days + 7 * weeks + 1 == zeller + 7 * (17 * century));
    assert(days % 7 == (zeller % 7 + 6) % 7);
}

/// A few days that are known: 1 January 2000 was a Saturday, 29 February 2024 a
/// Thursday, and 4 July 1776 a Thursday.
pub proof fn lemma_known_days(w: WallClock)
    ensures
        w.year == 2000 && w.month == 1 && w.date == 1 ==> w.weekday() == 6,
        w.year == 2024 && w.month == 2 && w.date == 29 ==> w.weekday() == 4,
        w.year == 1776 && w.month == 7 && w.date == 4 ==> w.weekday() == 4,
{
    assert(month_shift(1) == 0 && month_shift(2) == 3 && month_shift(7) == 5);
}

/// What is said of a text that has the shape of a time and is none, in the
/// order in which it is looked at: month, hour, minute, second, and then the
/// date, by the length of its month.
pub proof fn lemma_refusals(text: Seq<char>)
    requires
        well_shaped(text),
    ensures
        ({
            let (year, month, date) = (field(text, 0, 4), field(text, 5, 7), field(text, 8, 10));
            let (hour, minute, second) = (
                field(text, 11, 13),
                field(text, 14, 16),
                field(text, 17, 19),
            );
            let timely = 1 <= month <= 12 && hour <= 23 && minute <= 59 && second <= 59;
            &&& parsed(text) is Ok <==> timely && 1 <= date <= month_len(year, month)
            &&& month < 1 || month > 12 ==> parsed(text) == Err::<WallClock, Seq<char>>(
                "month"@ + " "@ + decimal(month as nat) + " out of range "@ + "1-12"@,
            )
            &&& 1 <= month <= 12 && hour > 23 ==> parsed(text) == Err::<WallClock, Seq<char>>(
                "hour"@ + " "@ + decimal(hour as nat) + " out of range "@ + "0-23"@,
            )
            &&& 1 <= month <= 12 && hour <= 23 && minute > 59 ==> parsed(text) == Err::<
                WallClock,
                Seq<char>,
            >("minute"@ + " "@ + decimal(minute as nat) + " out of range "@ + "0-59"@)
            &&& 1 <= month <= 12 && hour <= 23 && minute <= 59 && second > 59 ==> parsed(text)
                == Err::<WallClock, Seq<char>>(
                "second"@ + " "@ + decimal(second as nat) + " out of range "@ + "0-59"@,
            )
            &&& timely && !(1 <= date <= month_len(year, month)) ==> parsed(text) == Err::<
                WallClock,
                Seq<char>,
            >(
                "date "@ + decimal(date as nat) + " out of range 1-"@ + decimal(
                    month_len(year, month) as nat,
                ) + " for "@ + padded(year as nat, 4) + "-"@ + padded(month as nat, 2),
            )
        }),
{
}

/// A text that has not the shape of a time is refused as a whole, quoted.
pub proof fn lemma_misshapen(text: Seq<char>)
    requires
        !well_shaped(text),
    ensures
        parsed(text) == Err::<WallClock, Seq<char>>(
            "expected \"YYYY-MM-DD HH:MM:SS\", got "@ + debug_quoted(text),
        ),
{
}

} // verus!
