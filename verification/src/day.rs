//! The `Day` value: one date of the calendar, its two texts and its order.

use vstd::prelude::*;
use vstd::string::*;
use std::cmp::Ordering;
use crate::calendar::{date_before, is_calendar_date, valid_date};
use crate::decimal::{
    all_ascii_digits, append_decimal, decimal_text, decimal_value, lemma_decimal_text, parse_decimal,
    pow10,
};
use crate::pattern::{check_day_regex, day_pattern_matches, is_ascii_digit, is_digit_position};

verus! {

/// Why a text or a triple of numbers is not a `Day`.
#[derive(Clone, Copy, Debug, PartialEq, Eq, Structural)]
pub enum DayError {
    /// The text is not of the shape `YYYY-MM-DD`.
    InvalidFormat,
    /// The text has the shape, but one of its fields is not a number.
    InvalidField,
    /// The numbers name no date of the calendar.
    InvalidCalendarDate,
}

/// The canonical text of a date: `YYYY-MM-DD`, zeros in front.
pub open spec fn canonical_text(date: (int, int, int)) -> Seq<char> {
    decimal_text(date.0, 4) + seq!['-'] + decimal_text(date.1, 2) + seq!['-'] + decimal_text(
        date.2,
        2,
    )
}

/// The name of `month` (1 to 12) in the display form.
pub open spec fn month_name_text(month: int) -> Seq<char> {
    if month == 1 {
        "Januar"@
    } else if month == 2 {
        "Februar"@
    } else if month == 3 {
        "MaÌˆrz"@
    } else if month == 4 {
        "April"@
    } else if month == 5 {
        "Mai"@
    } else if month == 6 {
        "Juni"@
    } else if month == 7 {
        "Juli"@
    } else if month == 8 {
        "August"@
    } else if month == 9 {
        "September"@
    } else if month == 10 {
        "Oktober"@
    } else if month == 11 {
        "November"@
    } else {
        "Dezember"@
    }
}

/// The display text of a date: day, a full stop, the month's name, the year.
pub open spec fn display_text(date: (int, int, int)) -> Seq<char> {
    decimal_text(date.2, 2) + seq!['.', ' '] + month_name_text(date.1) + seq![' '] + decimal_text(
        date.0,
        4,
    )
}

/// The three fields of a text of the shape `YYYY-MM-DD` hold ASCII digits
/// only, so each reads as a number.
pub open spec fn fields_numeric(text: Seq<char>) -> bool {
    &&& all_ascii_digits(text.subrange(0, 4))
    &&& all_ascii_digits(text.subrange(5, 7))
    &&& all_ascii_digits(text.subrange(8, 10))
}

/// The numbers that the three fields of a text write.
pub open spec fn text_date(text: Seq<char>) -> (int, int, int) {
    (
        decimal_value(text.subrange(0, 4)),
        decimal_value(text.subrange(5, 7)),
        decimal_value(text.subrange(8, 10)),
    )
}

/// What parsing makes of a text: the date it writes, or the first reason why
/// it writes none.
pub open spec fn parse_text(text: Seq<char>) -> Result<(int, int, int), DayError> {
    if !day_pattern_matches(text) {
        Err(DayError::InvalidFormat)
    } else if !fields_numeric(text) {
        Err(DayError::InvalidField)
    } else if !is_calendar_date(text_date(text).0, text_date(text).1, text_date(text).2) {
        Err(DayError::InvalidCalendarDate)
    } else {
        Ok(text_date(text))
    }
}

/// One calendar date. Every value is a date that exists.
#[derive(Clone, Copy, Debug, PartialEq, Eq, Structural, Ord, Hash)]
pub struct Day {
    year: u16,
    month: u8,
    day: u8,
}

impl View for Day {
    type V = (int, int, int);

    /// The date as (year, month, day).
    closed spec fn view(&self) -> (int, int, int) {
        (self.year as int, self.month as int, self.day as int)
    }
}

impl Day {
    /// Holds of every `Day` that a program can hold.
    #[verifier::type_invariant]
    pub closed spec fn is_valid(&self) -> bool {
        is_calendar_date(self.year as int, self.month as int, self.day as int)
    }

    /// A valid day's view is a date of the calendar.
    pub proof fn lemma_valid_view(self)
        ensures
            self.is_valid() == is_calendar_date(self@.0, self@.1, self@.2),
    {
    }

    /// Two days are the same value exactly when their views are the same date.
    pub proof fn lemma_view_injective(self, other: Day)
        ensures
            (self@ == other@) == (self == other),
    {
    }

    /// Builds the day from its components, or rejects them when they name no
    /// date of the calendar.
    pub fn new(year: u16, month: u8, day: u8) -> (r: Result<Day, DayError>)
        ensures
            match r {
                Ok(d) => is_calendar_date(year as int, month as int, day as int) && d@ == (
                    year as int,
                    month as int,
                    day as int,
                ) && d.is_valid(),
                Err(e) => !is_calendar_date(year as int, month as int, day as int) && e
                    == DayError::InvalidCalendarDate,
            },
    {
        if valid_date(year, month, day) {
            Ok(Day { year, month, day })
        } else {
            Err(DayError::InvalidCalendarDate)
        }
    }

    /// The year, 1 to 9999.
    pub fn year(&self) -> (y: u16)
        ensures
            y as int == self@.0,
            is_calendar_date(self@.0, self@.1, self@.2),
    {
        proof {
            use_type_invariant(self);
        }
        self.year
    }

    /// The month, 1 to 12.
    pub fn month(&self) -> (m: u8)
        ensures
            m as int == self@.1,
            is_calendar_date(self@.0, self@.1, self@.2),
    {
        proof {
            use_type_invariant(self);
        }
        self.month
    }

    /// The day of the month, 1 to 31.
    pub fn day(&self) -> (d: u8)
        ensures
            d as int == self@.2,
            is_calendar_date(self@.0, self@.1, self@.2),
    {
        proof {
            use_type_invariant(self);
        }
        self.day
    }

    /// The name of the day's month.
    pub fn month_name(&self) -> (name: &'static str)
        ensures
            name@ == month_name_text(self@.1),
    {
        proof {
            use_type_invariant(self);
        }
        if self.month == 1 {
            "Januar"
        } else if self.month == 2 {
            "Februar"
        } else if self.month == 3 {
            "MaÌˆrz"
        } else if self.month == 4 {
            "April"
        } else if self.month == 5 {
            "Mai"
        } else if self.month == 6 {
            "Juni"
        } else if self.month == 7 {
            "Juli"
        } else if self.month == 8 {
            "August"
        } else if self.month == 9 {
            "September"
        } else if self.month == 10 {
            "Oktober"
        } else if self.month == 11 {
            "November"
        } else {
            "Dezember"
        }
    }

    /// Reads a day from a text of the shape `YYYY-MM-DD`.
    pub fn from_string(text: &str) -> (r: Result<Day, DayError>)
        ensures
            match r {
                Ok(d) => parse_text(text@) == Ok::<(int, int, int), DayError>(d@) && d.is_valid(),
                Err(e) => parse_text(text@) == Err::<(int, int, int), DayError>(e),
            },
    {
        if !check_day_regex(text) {
            return Err(DayError::InvalidFormat);
        }
        let year = parse_decimal(text, 0, 4);
        let month = parse_decimal(text, 5, 7);
        let day = parse_decimal(text, 8, 10);
        match (year, month, day) {
            (Some(y), Some(m), Some(d)) => {
                proof {
                    reveal_with_fuel(pow10, 3);
                    crate::decimal::lemma_decimal_value_bound(text@.subrange(5, 7));
                    crate::decimal::lemma_decimal_value_bound(text@.subrange(8, 10));
                }
                Day::new(y, m as u8, d as u8)
            },
            _ => Err(DayError::InvalidField),
        }
    }

    /// The canonical text of the day, `YYYY-MM-DD`.
    pub fn format_canonical(&self) -> (s: String)
        ensures
            s@ == canonical_text(self@),
    {
        proof {
            use_type_invariant(self);
            reveal_with_fuel(pow10, 5);
            reveal_strlit("-");
        }
        let mut s = String::new();
        append_decimal(&mut s, self.year, 4);
        s.append("-");
        append_decimal(&mut s, self.month as u16, 2);
        s.append("-");
        append_decimal(&mut s, self.day as u16, 2);
        assert(s@ =~= canonical_text(self@));
        s
    }

    /// The display text of the day: `DD. <month's name> YYYY`.
    pub fn format_display(&self) -> (s: String)
        ensures
            s@ == display_text(self@),
    {
        proof {
            use_type_invariant(self);
            reveal_with_fuel(pow10, 5);
            reveal_strlit(". ");
            reveal_strlit(" ");
        }
        let mut s = String::new();
        append_decimal(&mut s, self.day as u16, 2);
        s.append(". ");
        s.append(self.month_name());
        s.append(" ");
        append_decimal(&mut s, self.year, 4);
        assert(s@ =~= display_text(self@));
        s
    }
}

impl PartialOrd for Day {
    fn partial_cmp(&self, other: &Day) -> (r: Option<Ordering>) {
        if self.year < other.year {
            Some(Ordering::Less)
        } else if self.year > other.year {
            Some(Ordering::Greater)
        } else if self.month < other.month {
            Some(Ordering::Less)
        } else if self.month > other.month {
            Some(Ordering::Greater)
        } else if self.day < other.day {
            Some(Ordering::Less)
        } else if self.day > other.day {
            Some(Ordering::Greater)
        } else {
            Some(Ordering::Equal)
        }
    }
}

impl vstd::std_specs::cmp::PartialOrdSpecImpl for Day {
    open spec fn obeys_partial_cmp_spec() -> bool {
        true
    }

    /// Days are ordered as their dates are: chronologically.
    open spec fn partial_cmp_spec(&self, other: &Day) -> Option<Ordering> {
        if date_before(self@, other@) {
            Some(Ordering::Less)
        } else if date_before(other@, self@) {
            Some(Ordering::Greater)
        } else {
            Some(Ordering::Equal)
        }
    }
}

/// Parsing undoes formatting: the canonical text of a day reads back as that
/// day.
pub proof fn lemma_parse_canonical_round_trip(d: Day)
    requires
        d.is_valid(),
    ensures
        parse_text(canonical_text(d@)) == Ok::<(int, int, int), DayError>(d@),
{
    d.lemma_valid_view();
    let text = canonical_text(d@);
    reveal_with_fuel(pow10, 5);
    lemma_decimal_text(d@.0, 4);
    lemma_decimal_text(d@.1, 2);
    lemma_decimal_text(d@.2, 2);
    assert(text.subrange(0, 4) =~= decimal_text(d@.0, 4));
    assert(text.subrange(5, 7) =~= decimal_text(d@.1, 2));
    assert(text.subrange(8, 10) =~= decimal_text(d@.2, 2));
    assert forall|i: int| is_digit_position(i) implies is_ascii_digit(#[trigger] text[i]) by {
        if i < 4 {
            assert(text[i] == text.subrange(0, 4)[i]);
        } else if i < 7 {
            assert(text[i] == text.subrange(5, 7)[i - 5]);
        } else {
            assert(text[i] == text.subrange(8, 10)[i - 8]);
        }
    }
}

/// Of two days exactly one holds: the first is earlier, they are the same
/// day, or the second is earlier.
pub proof fn lemma_order_total(a: Day, b: Day)
    ensures
        date_before(a@, b@) || a == b || date_before(b@, a@),
        !(date_before(a@, b@) && a == b),
        !(date_before(a@, b@) && date_before(b@, a@)),
        !(a == b && date_before(b@, a@)),
{
    a.lemma_view_injective(b);
}

/// The order of days is transitive.
pub proof fn lemma_order_transitive(a: Day, b: Day, c: Day)
    requires
        date_before(a@, b@),
        date_before(b@, c@),
    ensures
        date_before(a@, c@),
{
}

/// The canonical text is a key: two days have the same text exactly when
/// they are the same day.
pub proof fn lemma_canonical_text_injective(a: Day, b: Day)
    requires
        a.is_valid(),
        b.is_valid(),
    ensures
        (canonical_text(a@) == canonical_text(b@)) == (a == b),
{
    a.lemma_view_injective(b);
    lemma_parse_canonical_round_trip(a);
    lemma_parse_canonical_round_trip(b);
}

} // verus!
