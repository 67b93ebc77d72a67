//! Identifiers: the creation time of a note, written so that the text sorts
//! as the times do.

use crate::text::text_between;
use vstd::prelude::*;

verus! {

/// A date and a time of day, as mathematical values.
pub ghost struct DateTime {
    pub year: int,
    pub month: int,
    pub day: int,
    pub hour: int,
    pub minute: int,
    pub second: int,
}

/// Whether `year` is a leap year of the Gregorian calendar.
pub open spec fn is_leap_year(year: int) -> bool {
    year % 4 == 0 && (year % 100 != 0 || year % 400 == 0)
}

/// The number of days in `year`.
pub open spec fn year_length(year: int) -> int {
    if is_leap_year(year) {
        366
    } else {
        365
    }
}

/// The number of days in `month` of `year`.
pub open spec fn month_length(year: int, month: int) -> int {
    if month == 2 {
        if is_leap_year(year) {
            29
        } else {
            28
        }
    } else if month == 4 || month == 6 || month == 9 || month == 11 {
        30
    } else {
        31
    }
}

impl DateTime {
    /// Whether the fields name a moment in the years 0 to 9999.
    pub open spec fn is_valid(self) -> bool {
        &&& 0 <= self.year <= 9999
        &&& 1 <= self.month <= 12
        &&& 1 <= self.day <= month_length(self.year, self.month)
        &&& 0 <= self.hour <= 23
        &&& 0 <= self.minute <= 59
        &&& 0 <= self.second <= 59
    }

    /// Whether `self` comes before `other`.
    pub open spec fn is_before(self, other: DateTime) -> bool {
        self.year < other.year || (self.year == other.year && (self.month < other.month || (
        self.month == other.month && (self.day < other.day || (self.day == other.day && (self.hour
            < other.hour || (self.hour == other.hour && (self.minute < other.minute || (self.minute
            == other.minute && self.second < other.second)))))))))
    }
}

/// A moment in the years 0 to 9999, to the second.
#[derive(Clone, Copy, Debug)]
pub struct Timestamp {
    year: u16,
    month: u8,
    day: u8,
    hour: u8,
    minute: u8,
    second: u8,
}

impl View for Timestamp {
    type V = DateTime;

    closed spec fn view(&self) -> DateTime {
        DateTime {
            year: self.year as int,
            month: self.month as int,
            day: self.day as int,
            hour: self.hour as int,
            minute: self.minute as int,
            second: self.second as int,
        }
    }
}

/// Decides [`is_leap_year`].
fn leap_year(year: u16) -> (yes: bool)
    ensures
        yes == is_leap_year(year as int),
{
    year % 4 == 0 && (year % 100 != 0 || year % 400 == 0)
}

/// Computes [`month_length`].
fn days_in_month(year: u16, month: u8) -> (days: u8)
    ensures
        days == month_length(year as int, month as int),
{
    if month == 2 {
        if leap_year(year) {
            29
        } else {
            28
        }
    } else if month == 4 || month == 6 || month == 9 || month == 11 {
        30
    } else {
        31
    }
}

impl Timestamp {
    /// The year, from 0 to 9999.
    pub fn year(&self) -> (year: u16)
        ensures
            year == self@.year,
    {
        self.year
    }

    /// The month, from 1 to 12.
    pub fn month(&self) -> (month: u8)
        ensures
            month == self@.month,
    {
        self.month
    }

    /// The day of the month, from 1.
    pub fn day(&self) -> (day: u8)
        ensures
            day == self@.day,
    {
        self.day
    }

    /// The hour, from 0 to 23.
    pub fn hour(&self) -> (hour: u8)
        ensures
            hour == self@.hour,
    {
        self.hour
    }

    /// The minute, from 0 to 59.
    pub fn minute(&self) -> (minute: u8)
        ensures
            minute == self@.minute,
    {
        self.minute
    }

    /// The second, from 0 to 59.
    pub fn second(&self) -> (second: u8)
        ensures
            second == self@.second,
    {
        self.second
    }

    /// Every timestamp names a moment that exists.
    #[verifier::type_invariant]
    pub open spec fn well_formed(self) -> bool {
        self@.is_valid()
    }

    /// Makes a timestamp of the six fields, if they name a moment in the
    /// years 0 to 9999.
    pub fn new(year: u16, month: u8, day: u8, hour: u8, minute: u8, second: u8) -> (timestamp:
        Option<Timestamp>)
        ensures
            timestamp is Some <==> (DateTime {
                year: year as int,
                month: month as int,
                day: day as int,
                hour: hour as int,
                minute: minute as int,
                second: second as int,
            }).is_valid(),
            timestamp matches Some(t) ==> t@ == (DateTime {
                year: year as int,
                month: month as int,
                day: day as int,
                hour: hour as int,
                minute: minute as int,
                second: second as int,
            }),
    {
        if year <= 9999 && 1 <= month && month <= 12 && 1 <= day && day <= days_in_month(
            year,
            month,
        ) && hour <= 23 && minute <= 59 && second <= 59 {
            Some(Timestamp { year, month, day, hour, minute, second })
        } else {
            None
        }
    }
}

/// The character that stands for the digit `d`.
pub open spec fn digit_char(d: int) -> char {
    (('0' as u8 + d) as u8) as char
}

/// The last `width` decimal digits of `n`, most significant first.
pub open spec fn digits(n: int, width: nat) -> Seq<char>
    decreases width,
{
    if width == 0 {
        Seq::empty()
    } else {
        digits(n / 10, (width - 1) as nat).push(digit_char(n % 10))
    }
}

/// The identifier of a moment: year, month and day, the letter `T`, then
/// hour, minute and second, each with a fixed number of digits.
pub open spec fn identifier_of(moment: DateTime) -> Seq<char> {
    digits(moment.year, 4) + digits(moment.month, 2) + digits(moment.day, 2) + seq!['T'] + digits(
        moment.hour,
        2,
    ) + digits(moment.minute, 2) + digits(moment.second, 2)
}

/// Whether `c` is one of the ten digits.
pub open spec fn is_digit(c: char) -> bool {
    '0' <= c && c <= '9'
}

/// Whether `s` has the shape of an identifier: eight digits, the letter `T`,
/// six digits.
pub open spec fn is_identifier(s: Seq<char>) -> bool {
    &&& s.len() == 15
    &&& s[8] == 'T'
    &&& forall|i: int| 0 <= i < 15 && i != 8 ==> is_digit(#[trigger] s[i])
}

/// Appends the last `width` digits of `n` to `out`.
fn push_digits(out: &mut Vec<char>, n: u16, width: u8)
    requires
        width <= 4,
    ensures
        final(out)@ == old(out)@ + digits(n as int, width as nat),
{
    let ghost start = out@;
    let d3: u8 = ((n / 1000) % 10) as u8;
    let d2: u8 = ((n / 100) % 10) as u8;
    let d1: u8 = ((n / 10) % 10) as u8;
    let d0: u8 = (n % 10) as u8;
    proof {
        reveal_with_fuel(digits, 5);
        assert((n as int / 10) / 10 == n as int / 100);
        assert(((n as int / 10) / 10) / 10 == n as int / 1000);
    }
    if width >= 4 {
        out.push((48u8 + d3) as char);
    }
    if width >= 3 {
        out.push((48u8 + d2) as char);
    }
    if width >= 2 {
        out.push((48u8 + d1) as char);
    }
    if width >= 1 {
        out.push((48u8 + d0) as char);
    }
    assert(out@ == start + digits(n as int, width as nat));
}

/// Writes the identifier of `now`.
pub fn generate_identifier(now: &Timestamp) -> (identifier: String)
    ensures
        identifier@ == identifier_of(now@),
        is_identifier(identifier@),
{
    let mut out: Vec<char> = Vec::new();
    push_digits(&mut out, now.year, 4);
    push_digits(&mut out, now.month as u16, 2);
    push_digits(&mut out, now.day as u16, 2);
    out.push('T');
    push_digits(&mut out, now.hour as u16, 2);
    push_digits(&mut out, now.minute as u16, 2);
    push_digits(&mut out, now.second as u16, 2);
    proof {
        assert(out@ == identifier_of(now@));
        lemma_identifier_shape(now@);
    }
    text_between(&out, 0, out.len())
}

/// `digits` yields `width` digits.
pub proof fn lemma_digits_shape(n: int, width: nat)
    requires
        0 <= n,
    ensures
        digits(n, width).len() == width,
        forall|i: int| 0 <= i < width ==> is_digit(#[trigger] digits(n, width)[i]),
    decreases width,
{
    if width > 0 {
        lemma_digits_shape(n / 10, (width - 1) as nat);
    }
}

/// The identifier of a moment has the shape of an identifier.
pub proof fn lemma_identifier_shape(moment: DateTime)
    requires
        0 <= moment.year,
        0 <= moment.month,
        0 <= moment.day,
        0 <= moment.hour,
        0 <= moment.minute,
        0 <= moment.second,
    ensures
        is_identifier(identifier_of(moment)),
{
    lemma_digits_shape(moment.year, 4);
    lemma_digits_shape(moment.month, 2);
    lemma_digits_shape(moment.day, 2);
    lemma_digits_shape(moment.hour, 2);
    lemma_digits_shape(moment.minute, 2);
    lemma_digits_shape(moment.second, 2);
}

/// Decides [`is_identifier`] for `chars[from..to]`.
pub(crate) fn identifier_shaped(chars: &Vec<char>, from: usize, to: usize) -> (yes: bool)
    requires
        from <= to <= chars.len(),
    ensures
        yes == is_identifier(chars@.subrange(from as int, to as int)),
{
    if to - from != 15 {
        return false;
    }
    let ghost s = chars@.subrange(from as int, to as int);
    let mut i: usize = 0;
    while i < 15
        invariant
            i <= 15,
            from + 15 == to,
            to <= chars.len(),
            s == chars@.subrange(from as int, to as int),
            forall|k: int| 0 <= k < i && k != 8 ==> is_digit(#[trigger] s[k]),
            i > 8 ==> s[8] == 'T',
        decreases 15 - i,
    {
        let c = chars[from + i];
        assert(c == s[i as int]);
        if i == 8 {
            if c != 'T' {
                return false;
            }
        } else if !('0' <= c && c <= '9') {
            return false;
        }
        i += 1;
    }
    true
}

/// The number of days from the start of 1970 to the start of `year`.
pub open spec fn days_before_year(year: int) -> int
    decreases year - 1970,
{
    if year <= 1970 {
        0
    } else {
        days_before_year(year - 1) + year_length(year - 1)
    }
}

/// The number of days from the start of `year` to the start of `month`.
pub open spec fn days_before_month(year: int, month: int) -> int
    decreases month,
{
    if month <= 1 {
        0
    } else {
        days_before_month(year, month - 1) + month_length(year, month - 1)
    }
}

impl DateTime {
    /// The number of seconds from the start of 1970 to this moment, for a
    /// moment in 1970 or later.
    pub open spec fn unix_seconds(self) -> int {
        (days_before_year(self.year) + days_before_month(self.year, self.month) + self.day - 1)
            * 86400 + self.hour * 3600 + self.minute * 60 + self.second
    }
}

/// The number that the digits of `s` write.
pub open spec fn number(s: Seq<char>) -> int
    decreases s.len(),
{
    if s.len() == 0 {
        0
    } else {
        number(s.drop_last()) * 10 + (s.last() as u32 - 48)
    }
}

/// The moment that text of the shape of an identifier names, if there is
/// such a moment.
pub open spec fn moment_of(s: Seq<char>) -> Option<DateTime> {
    let moment = DateTime {
        year: number(s.subrange(0, 4)),
        month: number(s.subrange(4, 6)),
        day: number(s.subrange(6, 8)),
        hour: number(s.subrange(9, 11)),
        minute: number(s.subrange(11, 13)),
        second: number(s.subrange(13, 15)),
    };
    if is_identifier(s) && moment.is_valid() {
        Some(moment)
    } else {
        None
    }
}

/// Each year has as many days as its twelve months together.
pub proof fn lemma_months_fill_year(year: int)
    ensures
        days_before_month(year, 13) == year_length(year),
{
    reveal_with_fuel(days_before_month, 14);
}

/// Later years start later.
pub proof fn lemma_days_before_year_grows(earlier: int, later: int)
    requires
        earlier <= later,
    ensures
        days_before_year(earlier) <= days_before_year(later),
        1970 <= earlier < later ==> days_before_year(earlier) + year_length(earlier)
            <= days_before_year(later),
    decreases later - earlier,
{
    if earlier < later {
        lemma_days_before_year_grows(earlier, later - 1);
    }
}

/// Later months start later.
pub proof fn lemma_days_before_month_grows(year: int, earlier: int, later: int)
    requires
        1 <= earlier <= later,
    ensures
        days_before_month(year, earlier) <= days_before_month(year, later),
        earlier < later ==> days_before_month(year, earlier) + month_length(year, earlier)
            <= days_before_month(year, later),
    decreases later - earlier,
{
    if earlier < later {
        lemma_days_before_month_grows(year, earlier, later - 1);
    }
}

/// Computes [`year_length`].
fn days_in_year(year: u16) -> (days: u64)
    ensures
        days == year_length(year as int),
{
    if leap_year(year) {
        366
    } else {
        365
    }
}

/// Reads the number that `chars[from..to]` writes.
fn read_number(chars: &Vec<char>, from: usize, to: usize) -> (n: u16)
    requires
        from <= to <= chars.len(),
        to - from <= 4,
        forall|i: int| from <= i < to ==> is_digit(#[trigger] chars@[i]),
    ensures
        n == number(chars@.subrange(from as int, to as int)),
        n < 10000,
{
    let mut n: u16 = 0;
    let mut i: usize = from;
    proof {
        assert(chars@.subrange(from as int, from as int) == Seq::<char>::empty());
    }
    while i < to
        invariant
            from <= i <= to <= chars.len(),
            to - from <= 4,
            forall|k: int| from <= k < to ==> is_digit(#[trigger] chars@[k]),
            n == number(chars@.subrange(from as int, i as int)),
            i - from == 0 ==> n < 1,
            i - from == 1 ==> n < 10,
            i - from == 2 ==> n < 100,
            i - from == 3 ==> n < 1000,
            i - from == 4 ==> n < 10000,
        decreases to - i,
    {
        let c = chars[i];
        proof {
            let next = chars@.subrange(from as int, i + 1);
            assert(next.drop_last() == chars@.subrange(from as int, i as int));
            assert(next.last() == c);
            assert(is_digit(chars@[i as int]));
        }
        n = n * 10 + (c as u32 - 48) as u16;
        i += 1;
    }
    n
}

impl Timestamp {
    /// Makes a timestamp of a number of seconds since the start of 1970,
    /// counted without leap seconds. There is none for a moment in the year
    /// 10000 or later.
    pub fn from_unix_seconds(seconds: u64) -> (timestamp: Option<Timestamp>)
        ensures
            timestamp is Some <==> seconds < days_before_year(10000) * 86400,
            timestamp matches Some(t) ==> t@.year >= 1970 && t@.unix_seconds() == seconds,
    {
        let total: u64 = seconds / 86400;
        let within: u64 = seconds % 86400;
        let mut days: u64 = total;
        let mut year: u16 = 1970;
        while year < 9999 && days >= days_in_year(year)
            invariant
                1970 <= year <= 9999,
                days_before_year(year as int) + days == total,
            decreases 9999 - year,
        {
            days = days - days_in_year(year);
            year = year + 1;
        }
        if days >= days_in_year(year) {
            proof {
                assert(days_before_year(10000) == days_before_year(9999) + year_length(9999));
            }
            return None;
        }
        proof {
            lemma_days_before_year_grows(year as int, 10000);
            lemma_months_fill_year(year as int);
        }
        let ghost of_year = days;
        let mut month: u8 = 1;
        while month < 12 && days >= days_in_month(year, month) as u64
            invariant
                1 <= month <= 12,
                days_before_month(year as int, month as int) + days == of_year,
                of_year < year_length(year as int),
            decreases 12 - month,
        {
            days = days - days_in_month(year, month) as u64;
            month = month + 1;
        }
        proof {
            if month == 12 {
                assert(days_before_month(year as int, 13) == days_before_month(year as int, 12)
                    + month_length(year as int, 12));
            }
        }
        let day: u8 = (days + 1) as u8;
        let hour: u8 = (within / 3600) as u8;
        let minute: u8 = ((within % 3600) / 60) as u8;
        let second: u8 = (within % 60) as u8;
        let timestamp = Timestamp { year, month, day, hour, minute, second };
        proof {
            assert(within == hour * 3600 + minute * 60 + second);
            assert(seconds == total * 86400 + within);
        }
        Some(timestamp)
    }
}

/// Reads the moment that an identifier names. There is none if the text has
/// not the shape of an identifier or names a moment that does not exist.
pub fn parse_identifier(text: &str) -> (timestamp: Option<Timestamp>)
    ensures
        match timestamp {
            Some(t) => moment_of(text@) == Some(t@),
            None => moment_of(text@) is None,
        },
{
    let chars = crate::text::chars_of(text);
    proof {
        assert(chars@.subrange(0, chars.len() as int) == chars@);
    }
    if !identifier_shaped(&chars, 0, chars.len()) {
        return None;
    }
    let year = read_number(&chars, 0, 4);
    let month = read_number(&chars, 4, 6);
    let day = read_number(&chars, 6, 8);
    let hour = read_number(&chars, 9, 11);
    let minute = read_number(&chars, 11, 13);
    let second = read_number(&chars, 13, 15);
    if month > 255 || day > 255 || hour > 255 || minute > 255 || second > 255 {
        return None;
    }
    Timestamp::new(year, month as u8, day as u8, hour as u8, minute as u8, second as u8)
}

} // verus!
