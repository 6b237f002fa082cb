//! Calendar dates as plain year/month/day numbers, with the `YYYY-MM-DD`
//! text form used by the checkpoint store and the transaction-fetch windows.

use vstd::prelude::*;

verus! {

/// A calendar date. Valid dates satisfy [`Date::is_valid`].
#[derive(Clone, Copy, PartialEq, Eq, Structural, Debug)]
pub struct Date {
    pub year: u16,
    pub month: u8,
    pub day: u8,
}

/// Gregorian leap-year rule.
pub open spec fn is_leap_year(y: int) -> bool {
    (y % 4 == 0 && y % 100 != 0) || y % 400 == 0
}

/// Number of days in month `m` of year `y`, for `1 <= m <= 12`.
pub open spec fn days_in_month(y: int, m: int) -> int {
    if m == 2 {
        if is_leap_year(y) {
            29
        } else {
            28
        }
    } else if m == 4 || m == 6 || m == 9 || m == 11 {
        30
    } else {
        31
    }
}

impl Date {
    /// A date is valid when its fields name a real Gregorian calendar day
    /// in the four-digit-year era.
    pub open spec fn is_valid(self) -> bool {
        &&& 1 <= self.year <= 9999
        &&& 1 <= self.month <= 12
        &&& 1 <= self.day <= days_in_month(self.year as int, self.month as int)
    }
}

/// Whether `y` is a leap year.
pub fn leap_year(y: u16) -> (b: bool)
    ensures
        b == is_leap_year(y as int),
{
    (y % 4 == 0 && y % 100 != 0) || y % 400 == 0
}

/// Number of days in month `m` of year `y`.
pub fn month_length(y: u16, m: u8) -> (d: u8)
    requires
        1 <= m <= 12,
    ensures
        d == days_in_month(y as int, m as int),
{
    if m == 2 {
        if leap_year(y) {
            29
        } else {
            28
        }
    } else if m == 4 || m == 6 || m == 9 || m == 11 {
        30
    } else {
        31
    }
}

/// Builds a [`Date`] from plain numbers, accepting exactly the valid dates.
pub fn date_from_parts(year: i64, month: i64, day: i64) -> (r: Option<Date>)
    ensures
        r is Some <==> {
            &&& 1 <= year <= 9999
            &&& 1 <= month <= 12
            &&& 1 <= day <= days_in_month(year as int, month as int)
        },
        r is Some ==> {
            &&& r->0 == (Date { year: year as u16, month: month as u8, day: day as u8 })
            &&& r->0.is_valid()
        },
{
    if 1 <= year && year <= 9999 && 1 <= month && month <= 12 && 1 <= day {
        let y = year as u16;
        let m = month as u8;
        if day <= month_length(y, m) as i64 {
            Some(Date { year: y, month: m, day: day as u8 })
        } else {
            None
        }
    } else {
        None
    }
}

/// The character for the decimal digit `d`.
pub open spec fn digit_char(d: int) -> char {
    if d == 0 {
        '0'
    } else if d == 1 {
        '1'
    } else if d == 2 {
        '2'
    } else if d == 3 {
        '3'
    } else if d == 4 {
        '4'
    } else if d == 5 {
        '5'
    } else if d == 6 {
        '6'
    } else if d == 7 {
        '7'
    } else if d == 8 {
        '8'
    } else {
        '9'
    }
}

/// Whether `c` is a decimal digit character.
pub open spec fn is_digit_char(c: char) -> bool {
    48 <= c as u32 <= 57
}

/// Numeric value of a digit character; meaningful only when
/// [`is_digit_char`] holds.
pub open spec fn digit_val(c: char) -> int {
    c as u32 - 48
}

/// `n` zero-padded to two digit characters, for `0 <= n <= 99`.
pub open spec fn pad2(n: int) -> Seq<char> {
    seq![digit_char(n / 10), digit_char(n % 10)]
}

/// `n` zero-padded to four digit characters, for `0 <= n <= 9999`.
pub open spec fn pad4(n: int) -> Seq<char> {
    seq![
        digit_char(n / 1000),
        digit_char((n / 100) % 10),
        digit_char((n / 10) % 10),
        digit_char(n % 10),
    ]
}

/// The `YYYY-MM-DD` character sequence of a date.
pub open spec fn date_seq(d: Date) -> Seq<char> {
    pad4(d.year as int) + seq!['-'] + pad2(d.month as int) + seq!['-'] + pad2(d.day as int)
}

/// A one-character string slice for the decimal digit `d`.
pub fn digit_str(d: u16) -> (s: &'static str)
    requires
        d < 10,
    ensures
        s@ =~= seq![digit_char(d as int)],
{
    proof {
        reveal_strlit("0");
        reveal_strlit("1");
        reveal_strlit("2");
        reveal_strlit("3");
        reveal_strlit("4");
        reveal_strlit("5");
        reveal_strlit("6");
        reveal_strlit("7");
        reveal_strlit("8");
        reveal_strlit("9");
    }
    match d {
        0 => "0",
        1 => "1",
        2 => "2",
        3 => "3",
        4 => "4",
        5 => "5",
        6 => "6",
        7 => "7",
        8 => "8",
        _ => "9",
    }
}

/// Formats a date as `YYYY-MM-DD`, the form the checkpoint store and the
/// fetch windows use.
pub fn date_to_string(d: Date) -> (s: String)
    requires
        d.is_valid(),
    ensures
        s@ == date_seq(d),
{
    proof {
        reveal_strlit("-");
    }
    let mut s = String::new();
    s.append(digit_str(d.year / 1000));
    s.append(digit_str((d.year / 100) % 10));
    s.append(digit_str((d.year / 10) % 10));
    s.append(digit_str(d.year % 10));
    s.append("-");
    s.append(digit_str((d.month / 10) as u16));
    s.append(digit_str((d.month % 10) as u16));
    s.append("-");
    s.append(digit_str((d.day / 10) as u16));
    s.append(digit_str((d.day % 10) as u16));
    proof {
        assert(s@ =~= date_seq(d));
    }
    s
}

/// Whether `s` is a well-formed `YYYY-MM-DD` rendering: the right length,
/// digits and dashes in place.
pub open spec fn date_text_shaped(s: Seq<char>) -> bool {
    &&& s.len() == 10
    &&& is_digit_char(s[0])
    &&& is_digit_char(s[1])
    &&& is_digit_char(s[2])
    &&& is_digit_char(s[3])
    &&& s[4] == '-'
    &&& is_digit_char(s[5])
    &&& is_digit_char(s[6])
    &&& s[7] == '-'
    &&& is_digit_char(s[8])
    &&& is_digit_char(s[9])
}

/// The year encoded by a well-shaped date text.
pub open spec fn year_of_text(s: Seq<char>) -> int {
    digit_val(s[0]) * 1000 + digit_val(s[1]) * 100 + digit_val(s[2]) * 10 + digit_val(s[3])
}

/// The month encoded by a well-shaped date text.
pub open spec fn month_of_text(s: Seq<char>) -> int {
    digit_val(s[5]) * 10 + digit_val(s[6])
}

/// The day encoded by a well-shaped date text.
pub open spec fn day_of_text(s: Seq<char>) -> int {
    digit_val(s[8]) * 10 + digit_val(s[9])
}

/// Whether `s` spells a valid date in `YYYY-MM-DD` form.
pub open spec fn date_text_valid(s: Seq<char>) -> bool {
    &&& date_text_shaped(s)
    &&& 1 <= year_of_text(s) <= 9999
    &&& 1 <= month_of_text(s) <= 12
    &&& 1 <= day_of_text(s) <= days_in_month(year_of_text(s), month_of_text(s))
}

/// Reads one digit character of `s`, reporting its value.
fn read_digit(s: &str, i: usize) -> (r: Option<u16>)
    requires
        i < s@.len(),
    ensures
        r is Some <==> is_digit_char(s@[i as int]),
        r is Some ==> r->0 == digit_val(s@[i as int]) && r->0 <= 9,
{
    let c = s.get_char(i);
    let v = c as u32;
    if 48 <= v && v <= 57 {
        Some((v - 48) as u16)
    } else {
        None
    }
}

/// Parses a `YYYY-MM-DD` date text, accepting exactly the valid renderings.
pub fn parse_date(s: &str) -> (r: Option<Date>)
    ensures
        r is Some <==> date_text_valid(s@),
        r is Some ==> {
            &&& r->0.is_valid()
            &&& r->0.year == year_of_text(s@)
            &&& r->0.month == month_of_text(s@)
            &&& r->0.day == day_of_text(s@)
        },
{
    proof {
        reveal_strlit("-");
    }
    if s.unicode_len() != 10 {
        return None;
    }
    let (y0, y1, y2, y3) = match (read_digit(s, 0), read_digit(s, 1), read_digit(s, 2), read_digit(
        s,
        3,
    )) {
        (Some(a), Some(b), Some(c), Some(d)) => (a, b, c, d),
        _ => {
            return None;
        },
    };
    let (m0, m1) = match (read_digit(s, 5), read_digit(s, 6)) {
        (Some(a), Some(b)) => (a, b),
        _ => {
            return None;
        },
    };
    let (d0, d1) = match (read_digit(s, 8), read_digit(s, 9)) {
        (Some(a), Some(b)) => (a, b),
        _ => {
            return None;
        },
    };
    if s.get_char(4) != '-' || s.get_char(7) != '-' {
        return None;
    }
    let year: u16 = y0 * 1000 + y1 * 100 + y2 * 10 + y3;
    let month: u16 = m0 * 10 + m1;
    let day: u16 = d0 * 10 + d1;
    if year < 1 || month < 1 || month > 12 || day < 1 {
        return None;
    }
    if day > month_length(year, month as u8) as u16 {
        return None;
    }
    Some(Date { year, month: month as u8, day: day as u8 })
}

} // verus!
