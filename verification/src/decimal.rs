//! Decimal numbers of a fixed width, as text.

use vstd::prelude::*;
use vstd::string::*;
use crate::pattern::is_ascii_digit;

verus! {

/// The number that the digit `c` stands for.
pub open spec fn digit_value(c: char) -> int {
    c as int - '0' as int
}

/// The digit that stands for `d`, for `d` from 0 to 9.
pub open spec fn digit_char(d: int) -> char {
    if d == 0 {
        '0'
    } else if d == 1 {
        '1'
    } else if d == 2 {
        '2'
    } else if d == 3 {
        '3'
    } else if d == 4 {
        '4'
    } else if d == 5 {
        '5'
    } else if d == 6 {
        '6'
    } else if d == 7 {
        '7'
    } else if d == 8 {
        '8'
    } else {
        '9'
    }
}

/// Ten to the power `width`.
pub open spec fn pow10(width: nat) -> int
    decreases width,
{
    if width == 0 {
        1
    } else {
        10 * pow10((width - 1) as nat)
    }
}

/// Every character of `s` is one of `0` to `9`.
pub open spec fn all_ascii_digits(s: Seq<char>) -> bool {
    forall|i: int| 0 <= i < s.len() ==> is_ascii_digit(#[trigger] s[i])
}

/// The number that the digits of `s` write, most significant first.
pub open spec fn decimal_value(s: Seq<char>) -> int
    decreases s.len(),
{
    if s.len() == 0 {
        0
    } else {
        10 * decimal_value(s.drop_last()) + digit_value(s.last())
    }
}

/// `n` written with exactly `width` digits, zeros in front.
pub open spec fn decimal_text(n: int, width: nat) -> Seq<char>
    decreases width,
{
    if width == 0 {
        Seq::empty()
    } else {
        decimal_text(n / 10, (width - 1) as nat).push(digit_char(n % 10))
    }
}

/// A text of `width` digits is as long as `width`, holds digits only, and
/// reads back as the number it was written from.
pub proof fn lemma_decimal_text(n: int, width: nat)
    requires
        0 <= n < pow10(width),
    ensures
        decimal_text(n, width).len() == width,
        all_ascii_digits(decimal_text(n, width)),
        decimal_value(decimal_text(n, width)) == n,
    decreases width,
{
    if width > 0 {
        let head = decimal_text(n / 10, (width - 1) as nat);
        lemma_decimal_text(n / 10, (width - 1) as nat);
        assert(decimal_text(n, width).drop_last() =~= head);
    }
}

/// The value of a text of digits is below ten to the power of its length.
pub proof fn lemma_decimal_value_bound(s: Seq<char>)
    requires
        all_ascii_digits(s),
    ensures
        0 <= decimal_value(s) < pow10(s.len()),
    decreases s.len(),
{
    if s.len() > 0 {
        lemma_decimal_value_bound(s.drop_last());
        assert(is_ascii_digit(s[s.len() - 1]));
    }
}

/// The one-character text of the digit `d`.
pub(crate) fn digit_str(d: u8) -> (s: &'static str)
    requires
        d < 10,
    ensures
        s@ == seq![digit_char(d as int)],
{
    proof {
        reveal_strlit("0");
        reveal_strlit("1");
        reveal_strlit("2");
        reveal_strlit("3");
        reveal_strlit("4");
        reveal_strlit("5");
        reveal_strlit("6");
        reveal_strlit("7");
        reveal_strlit("8");
        reveal_strlit("9");
    }
    let s = if d == 0 {
        "0"
    } else if d == 1 {
        "1"
    } else if d == 2 {
        "2"
    } else if d == 3 {
        "3"
    } else if d == 4 {
        "4"
    } else if d == 5 {
        "5"
    } else if d == 6 {
        "6"
    } else if d == 7 {
        "7"
    } else if d == 8 {
        "8"
    } else {
        "9"
    };
    assert(s@ =~= seq![digit_char(d as int)]);
    s
}

/// Appends `n` to `out`, written with exactly `width` digits.
pub(crate) fn append_decimal(out: &mut String, n: u16, width: u8)
    requires
        n < pow10(width as nat),
    ensures
        final(out)@ == old(out)@ + decimal_text(n as int, width as nat),
    decreases width,
{
    if width > 0 {
        append_decimal(out, n / 10, width - 1);
        out.append(digit_str((n % 10) as u8));
        assert(out@ =~= old(out)@ + decimal_text(n as int, width as nat));
    } else {
        assert(out@ =~= old(out)@ + decimal_text(n as int, width as nat));
    }
}

/// Reads the characters of `text` from `from` up to `to` as a decimal number:
/// `None` when one of them is no ASCII digit.
pub(crate) fn parse_decimal(text: &str, from: usize, to: usize) -> (r: Option<u16>)
    requires
        from <= to <= text@.len(),
        to - from <= 4,
    ensures
        match r {
            Some(value) => all_ascii_digits(text@.subrange(from as int, to as int))
                && value as int == decimal_value(text@.subrange(from as int, to as int)),
            None => !all_ascii_digits(text@.subrange(from as int, to as int)),
        },
{
    let mut value: u16 = 0;
    let mut i: usize = from;
    while i < to
        invariant
            from <= i <= to <= text@.len(),
            to - from <= 4,
            all_ascii_digits(text@.subrange(from as int, i as int)),
            value as int == decimal_value(text@.subrange(from as int, i as int)),
            value < pow10((i - from) as nat),
        decreases to - i,
    {
        let c = text.get_char(i);
        let ghost done = text@.subrange(from as int, i as int);
        let ghost next = text@.subrange(from as int, i as int + 1);
        assert(next.drop_last() =~= done);
        assert(next.last() == c);
        if c < '0' || c > '9' {
            assert(!is_ascii_digit(text@.subrange(from as int, to as int)[i as int - from as int]));
            return None;
        }
        proof {
            reveal_with_fuel(pow10, 5);
            assert forall|j: int| 0 <= j < next.len() implies is_ascii_digit(#[trigger] next[j]) by {
                if j < done.len() {
                    assert(next[j] == done[j]);
                }
            }
        }
        let d: u16 = (c as u32 - '0' as u32) as u16;
        value = value * 10 + d;
        i = i + 1;
    }
    assert(text@.subrange(from as int, i as int) =~= text@.subrange(from as int, to as int));
    Some(value)
}

} // verus!
