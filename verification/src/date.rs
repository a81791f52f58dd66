//! Calendar dates and the names of backups.

use std::cmp::Ordering;
use vstd::prelude::*;

verus! {

/// A calendar date as a backup's name gives it. Its parts are taken as they
/// are written: nothing asks that the month or the day exist in any calendar.
#[derive(Debug, Clone, Copy, PartialEq, Eq, Structural)]
pub struct Date {
    pub year: u32,
    pub month: u32,
    pub day: u32,
}

/// Says that a name does not start with a date, so that it names no backup.
#[derive(Debug, Clone, Copy, PartialEq, Eq, Structural)]
pub struct NotBackup;

/// A name is at least as long as `YYYYMMDD` and a three-letter suffix.
pub const MIN_NAME_LEN: usize = 11;

/// The characters `0` to `9`.
pub open spec fn is_digit(c: char) -> bool {
    '0' <= c <= '9'
}

/// The number that a digit stands for.
pub open spec fn digit_value(c: char) -> int {
    c as int - '0' as int
}

/// Whether a name starts with eight digits and is long enough.
pub open spec fn names_backup(name: Seq<char>) -> bool {
    &&& name.len() >= MIN_NAME_LEN
    &&& forall|i: int| 0 <= i < 8 ==> is_digit(#[trigger] name[i])
}

/// The date that the first eight characters of a backup's name spell.
pub open spec fn date_in_name(name: Seq<char>) -> Date {
    Date {
        year: (1000 * digit_value(name[0]) + 100 * digit_value(name[1]) + 10 * digit_value(
            name[2],
        ) + digit_value(name[3])) as u32,
        month: (10 * digit_value(name[4]) + digit_value(name[5])) as u32,
        day: (10 * digit_value(name[6]) + digit_value(name[7])) as u32,
    }
}

/// What parsing a name gives: its date, where it names a backup.
pub open spec fn parse_name(name: Seq<char>) -> Option<Date> {
    if names_backup(name) {
        Some(date_in_name(name))
    } else {
        None
    }
}

/// Ten to the power `n`, for the few digits that a date has.
spec fn pow10(n: int) -> int
    decreases n,
{
    if n <= 0 {
        1
    } else {
        10 * pow10(n - 1)
    }
}

/// The number that the characters of `name` from `from` up to `to` spell in
/// base ten.
spec fn number_at(name: Seq<char>, from: int, to: int) -> int
    decreases to - from,
{
    if to <= from {
        0
    } else {
        10 * number_at(name, from, to - 1) + digit_value(name[to - 1])
    }
}

/// Reads one digit.
fn digit_of(c: char) -> (value: Option<u32>)
    ensures
        value matches Some(v) ==> is_digit(c) && v == digit_value(c),
        value is None ==> !is_digit(c),
{
    if '0' <= c && c <= '9' {
        Some(c as u32 - '0' as u32)
    } else {
        None
    }
}

/// Reads the number that the digits of `name` from `from` up to `to` spell,
/// if they are all digits.
fn digits_at(name: &str, from: usize, to: usize) -> (value: Option<u32>)
    requires
        from <= to <= name@.len(),
        to - from <= 4,
    ensures
        value is Some <==> forall|i: int| from <= i < to ==> is_digit(#[trigger] name@[i]),
        value matches Some(v) ==> v == number_at(name@, from as int, to as int),
{
    let mut total: u32 = 0;
    let mut at: usize = from;
    while at < to
        invariant
            from <= at <= to <= name@.len(),
            to - from <= 4,
            forall|i: int| from <= i < at ==> is_digit(#[trigger] name@[i]),
            total == number_at(name@, from as int, at as int),
            total < pow10(at - from),
        decreases to - at,
    {
        match digit_of(name.get_char(at)) {
            Some(digit) => {
                assert(pow10(at - from) <= 1000 && pow10(at + 1 - from) == 10 * pow10(at - from))
                    by {
                    reveal_with_fuel(pow10, 5);
                }
                total = total * 10 + digit;
            },
            None => {
                return None;
            },
        }
        at += 1;
    }
    Some(total)
}

impl Date {
    /// The date of the given year, month and day, taken as they are.
    pub fn new(year: u32, month: u32, day: u32) -> (date: Date)
        ensures
            date == (Date { year, month, day }),
    {
        Date { year, month, day }
    }

    /// Reads the date at the start of a backup's name.
    ///
    /// A name shorter than eleven characters, or with anything but a digit
    /// among its first eight, names no backup. The month and the day are
    /// not held to any range.
    pub fn parse(name: &str) -> (parsed: Result<Date, NotBackup>)
        ensures
            parsed is Ok <==> names_backup(name@),
            parsed matches Ok(date) ==> date == date_in_name(name@),
            parse_name(name@) == parsed.ok(),
    {
        if name.unicode_len() < MIN_NAME_LEN {
            return Err(NotBackup);
        }
        let year = match digits_at(name, 0, 4) {
            Some(year) => year,
            None => {
                return Err(NotBackup);
            },
        };
        let month = match digits_at(name, 4, 6) {
            Some(month) => month,
            None => {
                return Err(NotBackup);
            },
        };
        let day = match digits_at(name, 6, 8) {
            Some(day) => day,
            None => {
                return Err(NotBackup);
            },
        };
        proof {
            reveal_with_fuel(number_at, 5);
        }
        Ok(Date { year, month, day })
    }

    /// Whether this date comes before `other`: by the year, then by the
    /// month, then by the day.
    pub open spec fn is_before(self, other: Date) -> bool {
        self.year < other.year || (self.year == other.year && (self.month < other.month || (
        self.month == other.month && self.day < other.day)))
    }
}

/// The dates stand in one line: of two dates that differ one comes before
/// the other, never both, and what comes before an earlier date comes
/// before a later one.
pub proof fn lemma_dates_are_ordered(a: Date, b: Date, c: Date)
    ensures
        !a.is_before(a),
        a.is_before(b) ==> !b.is_before(a),
        a != b ==> a.is_before(b) || b.is_before(a),
        a.is_before(b) && b.is_before(c) ==> a.is_before(c),
{
}

impl PartialOrd for Date {
    /// Orders dates by the year, then by the month, then by the day.
    fn partial_cmp(&self, other: &Date) -> (order: Option<Ordering>) {
        if self.year != other.year {
            if self.year < other.year {
                Some(Ordering::Less)
            } else {
                Some(Ordering::Greater)
            }
        } else if self.month != other.month {
            if self.month < other.month {
                Some(Ordering::Less)
            } else {
                Some(Ordering::Greater)
            }
        } else if self.day != other.day {
            if self.day < other.day {
                Some(Ordering::Less)
            } else {
                Some(Ordering::Greater)
            }
        } else {
            Some(Ordering::Equal)
        }
    }
}

impl vstd::std_specs::cmp::PartialOrdSpecImpl for Date {
    open spec fn obeys_partial_cmp_spec() -> bool {
        true
    }

    open spec fn partial_cmp_spec(&self, other: &Date) -> Option<Ordering> {
        if self.is_before(*other) {
            Some(Ordering::Less)
        } else if other.is_before(*self) {
            Some(Ordering::Greater)
        } else {
            Some(Ordering::Equal)
        }
    }
}

impl std::str::FromStr for Date {
    type Err = NotBackup;

    fn from_str(name: &str) -> (parsed: Result<Date, NotBackup>)
        ensures
            parsed.ok() == parse_name(name@),
    {
        Date::parse(name)
    }
}

} // verus!
