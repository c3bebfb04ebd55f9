//! The shape `YYYY-MM-DD`, as the `regex` crate decides it.

use vstd::prelude::*;

verus! {

/// The pattern of a day's text: four digits, a hyphen, two digits, a hyphen,
/// two digits, and nothing before or after.
pub const DAY_PATTERN: &'static str = "^\\d{4}-\\d{2}-\\d{2}$";

/// The ten ASCII digits.
pub open spec fn is_ascii_digit(c: char) -> bool {
    '0' <= c <= '9'
}

/// Whether the class `\d` of the `regex` crate holds `c`. The class is the
/// Unicode category of decimal digits, which is wider than `0` to `9`.
pub uninterp spec fn regex_digit(c: char) -> bool;

/// The positions of a day's text that hold digits.
pub open spec fn is_digit_position(i: int) -> bool {
    0 <= i < 10 && i != 4 && i != 7
}

/// The texts that `DAY_PATTERN` matches: ten characters, hyphens at
/// positions 4 and 7, a digit of the class `\d` everywhere else. The digits
/// `0` to `9` belong to the class, and are named beside it.
pub open spec fn day_pattern_matches(text: Seq<char>) -> bool {
    &&& text.len() == 10
    &&& text[4] == '-'
    &&& text[7] == '-'
    &&& forall|i: int|
        is_digit_position(i) ==> is_ascii_digit(#[trigger] text[i]) || regex_digit(text[i])
}

/// Calls `regex::Regex::new` on `pattern` and `regex::Regex::is_match` on
/// `text`. Trusted: for `DAY_PATTERN` the search succeeds exactly on the texts
/// of `day_pattern_matches`. The anchors `^` and `$` stand for the two ends of
/// the text, `\d` for one character of the class, `{n}` for `n` of them, `-`
/// for itself.
#[verifier::external_body]
fn regex_is_match(pattern: &str, text: &str) -> (found: bool)
    requires
        pattern@ == DAY_PATTERN@,
    ensures
        found == (text@.len() == 10 && text@[4] == '-' && text@[7] == '-' && forall|i: int|
            is_digit_position(i) ==> is_ascii_digit(#[trigger] text@[i]) || regex_digit(
                text@[i],
            )),
{
    match regex::Regex::new(pattern) {
        Ok(re) => re.is_match(text),
        Err(_) => false,
    }
}

/// Decides whether `text` has the shape of a day.
pub fn check_day_regex(text: &str) -> (matched: bool)
    ensures
        matched == day_pattern_matches(text@),
{
    regex_is_match(DAY_PATTERN, text)
}

} // verus!
