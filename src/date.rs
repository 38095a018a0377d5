//! Calendar dates and their `YYYY-MM-DD` text form.

use vstd::prelude::*;

verus! {

/// Relies on `String::push`: appends one character at the end.
pub assume_specification[ String::push ](s: &mut String, c: char)
    ensures
        final(s)@ == old(s)@.push(c),
;

/// A calendar date in the proleptic Gregorian calendar.
#[derive(PartialEq, Eq, Structural, Clone, Copy, Debug)]
pub struct Date {
    pub year: u32,
    pub month: u32,
    pub day: u32,
}

/// Ways in which a date text can be rejected.
#[derive(PartialEq, Eq, Structural, Clone, Copy, Debug)]
pub enum DateError {
    /// The text is not four digits, a dash, two digits, a dash, two digits.
    Malformed,
    /// The text has the right shape but names no day of the calendar.
    NoSuchDay,
}

pub open spec fn is_leap_year(y: int) -> bool {
    (y % 4 == 0 && y % 100 != 0) || y % 400 == 0
}

pub open spec fn days_in_month(y: int, m: int) -> int {
    if m == 2 {
        if is_leap_year(y) { 29 } else { 28 }
    } else if m == 4 || m == 6 || m == 9 || m == 11 {
        30
    } else {
        31
    }
}

/// Year, month and day name a day of the Gregorian calendar.
pub open spec fn is_calendar_date(y: int, m: int, d: int) -> bool {
    1 <= m <= 12 && 1 <= d <= days_in_month(y, m)
}

/// The character of a decimal digit.
pub open spec fn digit_char(d: int) -> char {
    ((d + 48) as u8) as char
}

/// The value of a decimal digit character.
pub open spec fn char_digit(c: char) -> int {
    (c as int) - 48
}

pub open spec fn is_digit(c: char) -> bool {
    '0' <= c <= '9'
}

/// The last `width` decimal digits of `n`, zero-padded on the left.
pub open spec fn digits(n: nat, width: nat) -> Seq<char>
    decreases width,
{
    if width == 0 {
        Seq::empty()
    } else {
        digits(n / 10, (width - 1) as nat).push(digit_char((n % 10) as int))
    }
}

/// The number that a run of decimal digits stands for.
pub open spec fn number(s: Seq<char>) -> nat
    decreases s.len(),
{
    if s.len() == 0 {
        0
    } else {
        (number(s.drop_last()) * 10 + char_digit(s.last())) as nat
    }
}

/// `YYYY-MM-DD`.
pub open spec fn date_text(d: Date) -> Seq<char> {
    digits(d.year as nat, 4) + seq!['-'] + digits(d.month as nat, 2) + seq!['-'] + digits(
        d.day as nat,
        2,
    )
}

/// The text has the shape `DDDD-DD-DD` with `D` a decimal digit.
pub open spec fn has_date_shape(s: Seq<char>) -> bool {
    &&& s.len() == 10
    &&& s[4] == '-'
    &&& s[7] == '-'
    &&& forall|i: int| 0 <= i < 10 && i != 4 && i != 7 ==> is_digit(#[trigger] s[i])
}

/// The date that a text of the right shape spells, valid or not.
pub open spec fn date_fields(s: Seq<char>) -> Date {
    Date {
        year: number(s.subrange(0, 4)) as u32,
        month: number(s.subrange(5, 7)) as u32,
        day: number(s.subrange(8, 10)) as u32,
    }
}

/// What reading a date text gives.
pub open spec fn parse_date(s: Seq<char>) -> Result<Date, DateError> {
    if !has_date_shape(s) {
        Err(DateError::Malformed)
    } else if !date_fields(s).wf() {
        Err(DateError::NoSuchDay)
    } else {
        Ok(date_fields(s))
    }
}

impl Date {
    /// A date that can be written with a four-digit year and exists.
    pub open spec fn wf(&self) -> bool {
        self.year <= 9999 && is_calendar_date(self.year as int, self.month as int, self.day as int)
    }

    /// The first day of 1970, the date of a record that holds nothing yet.
    pub fn epoch() -> (r: Date)
        ensures
            r == (Date { year: 1970, month: 1, day: 1 }),
            r.wf(),
    {
        Date { year: 1970, month: 1, day: 1 }
    }

    /// Whether the date has a four-digit year and exists.
    pub fn is_valid(&self) -> (r: bool)
        ensures
            r == self.wf(),
    {
        self.year <= 9999 && calendar_date_exists(self.year, self.month, self.day)
    }
}

/// Relies on `chrono::NaiveDate::from_ymd_opt`, which returns `None` exactly
/// when the month or the day is invalid, the day does not exist in that month,
/// or the year is out of chrono's range (which holds every four-digit year).
#[verifier::external_body]
fn calendar_date_exists(year: u32, month: u32, day: u32) -> (r: bool)
    requires
        year <= 9999,
    ensures
        r == is_calendar_date(year as int, month as int, day as int),
{
    chrono::NaiveDate::from_ymd_opt(year as i32, month, day).is_some()
}

/// Ten to the power `e`.
pub open spec fn pow10(e: nat) -> nat
    decreases e,
{
    if e == 0 { 1 } else { 10 * pow10((e - 1) as nat) }
}

proof fn lemma_digit_round_trip(d: int)
    requires
        0 <= d < 10,
    ensures
        is_digit(digit_char(d)),
        char_digit(digit_char(d)) == d,
{
}

/// Writing a number that fits in `width` digits and reading it back gives it.
proof fn lemma_digits_round_trip(n: nat, width: nat)
    requires
        n < pow10(width),
    ensures
        digits(n, width).len() == width,
        number(digits(n, width)) == n,
        forall|i: int| 0 <= i < width ==> is_digit(#[trigger] digits(n, width)[i]),
    decreases width,
{
    if width > 0 {
        let w1 = (width - 1) as nat;
        assert(n / 10 < pow10(w1));
        lemma_digits_round_trip(n / 10, w1);
        lemma_digit_round_trip((n % 10) as int);
        let s = digits(n, width);
        assert(s.drop_last() =~= digits(n / 10, w1));
    }
}

/// A run of `k` digits stands for a number under ten to the `k`.
proof fn lemma_number_bound(s: Seq<char>)
    requires
        forall|i: int| 0 <= i < s.len() ==> is_digit(#[trigger] s[i]),
    ensures
        number(s) < pow10(s.len()),
    decreases s.len(),
{
    if s.len() > 0 {
        let t = s.drop_last();
        assert forall|i: int| 0 <= i < t.len() implies is_digit(#[trigger] t[i]) by {
            assert(t[i] == s[i]);
        }
        lemma_number_bound(t);
        assert(is_digit(s[s.len() - 1]));
    }
}

/// Appends the last `width` decimal digits of `n`.
fn push_digits(s: &mut String, n: u32, width: usize)
    ensures
        final(s)@ == old(s)@ + digits(n as nat, width as nat),
    decreases width,
{
    if width > 0 {
        push_digits(s, n / 10, width - 1);
        let c = ((n % 10) as u8 + 48u8) as char;
        s.push(c);
        proof {
            assert(s@ =~= old(s)@ + digits(n as nat, width as nat));
        }
    }
}

/// Writes a date as `YYYY-MM-DD`.
pub fn serialize(date: &Date) -> (r: String)
    requires
        date.wf(),
    ensures
        r@ == date_text(*date),
{
    let mut s = String::new();
    push_digits(&mut s, date.year, 4);
    s.push('-');
    push_digits(&mut s, date.month, 2);
    s.push('-');
    push_digits(&mut s, date.day, 2);
    proof {
        assert(s@ =~= date_text(*date));
    }
    s
}

/// Reads the number spelled by the digits of `s` from `from` up to `to`.
fn read_number(s: &str, from: usize, to: usize) -> (r: u32)
    requires
        from <= to <= s@.len(),
        to - from <= 4,
        forall|i: int| from <= i < to ==> is_digit(#[trigger] s@[i]),
    ensures
        r == number(s@.subrange(from as int, to as int)),
{
    let mut n: u32 = 0;
    let mut i: usize = from;
    while i < to
        invariant
            from <= i <= to <= s@.len(),
            to - from <= 4,
            forall|k: int| from <= k < to ==> is_digit(#[trigger] s@[k]),
            n == number(s@.subrange(from as int, i as int)),
            n < pow10((i - from) as nat),
        decreases to - i,
    {
        let c = s.get_char(i);
        proof {
            let t = s@.subrange(from as int, i + 1);
            assert(t.drop_last() =~= s@.subrange(from as int, i as int));
            assert(is_digit(s@[i as int]));
            assert(pow10((i - from) as nat) <= 1000) by {
                reveal_with_fuel(pow10, 5);
            }
            assert(pow10((i + 1 - from) as nat) == 10 * pow10((i - from) as nat));
        }
        n = n * 10 + (c as u32 - 48);
        i = i + 1;
    }
    n
}

/// Reads a date written as `YYYY-MM-DD`.
pub fn deserialize(s: &str) -> (r: Result<Date, DateError>)
    ensures
        r == parse_date(s@),
{
    let len = s.unicode_len();
    if len != 10 {
        return Err(DateError::Malformed);
    }
    let mut i: usize = 0;
    while i < 10
        invariant
            s@.len() == 10,
            0 <= i <= 10,
            forall|k: int| 0 <= k < i && k != 4 && k != 7 ==> is_digit(#[trigger] s@[k]),
            i > 4 ==> s@[4] == '-',
            i > 7 ==> s@[7] == '-',
        decreases 10 - i,
    {
        let c = s.get_char(i);
        if i == 4 || i == 7 {
            if c != '-' {
                return Err(DateError::Malformed);
            }
        } else if !('0' <= c && c <= '9') {
            return Err(DateError::Malformed);
        }
        i = i + 1;
    }
    assert(has_date_shape(s@));
    let year = read_number(s, 0, 4);
    let month = read_number(s, 5, 7);
    let day = read_number(s, 8, 10);
    proof {
        let y = s@.subrange(0, 4);
        assert forall|k: int| 0 <= k < 4 implies is_digit(#[trigger] y[k]) by {
            assert(y[k] == s@[k]);
        }
        lemma_number_bound(y);
        reveal_with_fuel(pow10, 5);
    }
    if calendar_date_exists(year, month, day) {
        Ok(Date { year, month, day })
    } else {
        Err(DateError::NoSuchDay)
    }
}

/// Reading the text that `serialize` writes for a valid date gives that date
/// back.
pub proof fn lemma_date_round_trip(d: Date)
    requires
        d.wf(),
    ensures
        parse_date(date_text(d)) == Ok::<Date, DateError>(d),
{
    reveal_with_fuel(pow10, 5);
    lemma_digits_round_trip(d.year as nat, 4);
    lemma_digits_round_trip(d.month as nat, 2);
    lemma_digits_round_trip(d.day as nat, 2);
    let t = date_text(d);
    assert(t.subrange(0, 4) =~= digits(d.year as nat, 4));
    assert(t.subrange(5, 7) =~= digits(d.month as nat, 2));
    assert(t.subrange(8, 10) =~= digits(d.day as nat, 2));
    assert forall|i: int| 0 <= i < 10 && i != 4 && i != 7 implies is_digit(#[trigger] t[i]) by {
        if i < 4 {
            assert(t[i] == digits(d.year as nat, 4)[i]);
        } else if i < 7 {
            assert(t[i] == digits(d.month as nat, 2)[i - 5]);
        } else {
            assert(t[i] == digits(d.day as nat, 2)[i - 8]);
        }
    }
    assert(date_fields(t) == d);
}

} // verus!
