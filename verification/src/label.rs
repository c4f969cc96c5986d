//! Short texts: names cut to a width, and numbers in decimal.

use vstd::prelude::*;

use crate::text;

verus! {

/// A name in at most `max` characters: a longer one is cut, and ends in an
/// ellipsis.
pub open spec fn truncated(s: Seq<char>, max: nat) -> Seq<char> {
    if s.len() <= max {
        s
    } else {
        s.take(max - 1).push('…')
    }
}

/// A name in at most `max` characters: a longer one is cut, and ends in an
/// ellipsis.
pub fn truncate_ssid(s: &str, max: usize) -> (label: String)
    requires
        max > 0 || s@.len() == 0,
    ensures
        label@ == truncated(s@, max as nat),
{
    if s.unicode_len() <= max {
        s.to_string()
    } else {
        let mut label = s.substring_char(0, max - 1).to_string();
        assert(label@ =~= s@.take(max - 1));
        label.push('…');
        label
    }
}

/// The decimal digit of a number below ten.
pub open spec fn digit(d: int) -> char {
    ('0' as u32 + d) as char
}

/// The decimal digits of a number.
pub open spec fn digits(n: nat) -> Seq<char>
    decreases n,
{
    if n < 10 {
        seq![digit(n as int)]
    } else {
        digits(n / 10).push(digit(n as int % 10))
    }
}

/// A number in decimal, with a minus sign if it is negative.
pub open spec fn decimal(n: int) -> Seq<char> {
    if n < 0 {
        seq!['-'] + digits((-n) as nat)
    } else {
        digits(n as nat)
    }
}

/// Writes the decimal digits of a number at the end of a text.
fn push_digits(s: &mut String, n: u64)
    ensures
        final(s)@ == old(s)@ + digits(n as nat),
    decreases n,
{
    if n >= 10 {
        push_digits(s, n / 10);
    }
    let d: u8 = (n % 10) as u8;
    let c: char = (48u8 + d) as char;
    assert(c == digit(n as int % 10));
    s.push(c);
    assert(s@ =~= old(s)@ + digits(n as nat));
}

/// A number in decimal.
pub fn decimal_text(n: i32) -> (s: String)
    ensures
        s@ == decimal(n as int),
{
    let mut s = String::new();
    if n < 0 {
        s.push('-');
        assert(s@ =~= seq!['-']);
        push_digits(&mut s, (-(n as i64)) as u64);
    } else {
        push_digits(&mut s, n as u64);
        assert(s@ =~= decimal(n as int));
    }
    s
}

/// A cut name is never wider than it may be, and a name that fits is not cut.
pub proof fn law_truncated_fits(s: Seq<char>, max: nat)
    requires
        max > 0,
    ensures
        truncated(s, max).len() <= max,
        s.len() <= max ==> truncated(s, max) == s,
        s.len() > max ==> truncated(s, max).len() == max && truncated(s, max).last() == '…',
{
}

/// A name in a column is as wide as the column.
pub proof fn law_padded_name_fills_its_column(s: Seq<char>, width: nat)
    requires
        width > 0,
    ensures
        text::pad_right(truncated(s, width), width).len() == width,
{
}

/// The value of decimal digits.
pub open spec fn value_of(s: Seq<char>) -> int
    decreases s.len(),
{
    if s.len() == 0 {
        0
    } else {
        10 * value_of(s.drop_last()) + (s.last() as u32 - '0' as u32)
    }
}

/// The digits of a number have its value.
pub proof fn law_digits_have_their_value(n: nat)
    ensures
        value_of(digits(n)) == n,
        digits(n).len() > 0,
    decreases n,
{
    if n < 10 {
        assert(digits(n).drop_last() =~= Seq::<char>::empty());
        assert(value_of(Seq::<char>::empty()) == 0);
    } else {
        law_digits_have_their_value(n / 10);
        assert(digits(n).drop_last() =~= digits(n / 10));
    }
}

} // verus!
