//! Decimal text of numbers, as the date and time formats write it.

use vstd::prelude::*;

verus! {

/// The character of decimal digit `d`.
pub open spec fn digit_char(d: nat) -> char {
    (48 + d) as char
}

/// The shortest decimal text of `n`.
pub open spec fn decimal(n: nat) -> Seq<char>
    decreases n,
{
    if n < 10 {
        seq![digit_char(n)]
    } else {
        decimal(n / 10).push(digit_char(n % 10))
    }
}

/// The decimal text of `n`, left-padded with zeros to at least `width` characters.
pub open spec fn padded(n: nat, width: nat) -> Seq<char> {
    let d = decimal(n);
    if d.len() >= width {
        d
    } else {
        Seq::new((width - d.len()) as nat, |_i: int| '0') + d
    }
}

/// `YYYY-MM-DD`, each part zero-padded to its width.
pub open spec fn date_text(year: u32, month: u32, day: u32) -> Seq<char> {
    padded(year as nat, 4) + seq!['-'] + padded(month as nat, 2) + seq!['-'] + padded(day as nat, 2)
}

/// `HH:MM:SS`, each part zero-padded to two digits.
pub open spec fn clock_text(h: u32, m: u32, s: u32) -> Seq<char> {
    padded(h as nat, 2) + seq![':'] + padded(m as nat, 2) + seq![':'] + padded(s as nat, 2)
}

/// Writes a date with std's formatting machinery (`{:04}-{:02}-{:02}`).
#[verifier::external_body]
pub(crate) fn format_date(year: u32, month: u32, day: u32) -> (r: String)
    ensures
        r@ == date_text(year, month, day),
{
    format!("{year:04}-{month:02}-{day:02}")
}

/// Writes a clock time with std's formatting machinery (`{:02}:{:02}:{:02}`).
#[verifier::external_body]
pub(crate) fn format_clock(h: u32, m: u32, s: u32) -> (r: String)
    ensures
        r@ == clock_text(h, m, s),
{
    format!("{h:02}:{m:02}:{s:02}")
}

} // verus!
