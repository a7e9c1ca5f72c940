//! Decimal rendering of unsigned integers, built up one character at a time.
use vstd::prelude::*;

verus! {

/// The character of a decimal digit.
pub open spec fn digit_char(d: nat) -> char
    recommends
        d < 10,
{
    (('0' as u8) + d) as char
}

/// The decimal digits of `n`, most significant first, without leading zeros.
pub open spec fn decimal(n: nat) -> Seq<char>
    decreases n,
{
    if n < 10 {
        seq![digit_char(n)]
    } else {
        decimal(n / 10).push(digit_char(n % 10))
    }
}

/// The decimal digits of `n`, with a leading zero where `n` has a single digit.
pub open spec fn two_digits(n: nat) -> Seq<char> {
    if n < 10 {
        seq!['0', digit_char(n)]
    } else {
        decimal(n)
    }
}

/// Relies on `String::push`: the character is appended at the end.
#[verifier::external_body]
pub(crate) fn push_char(s: &mut String, c: char)
    ensures
        final(s)@ == old(s)@.push(c),
{
    s.push(c);
}

/// Appends `text` to `s`.
pub(crate) fn push_text(s: &mut String, text: &str)
    ensures
        final(s)@ == old(s)@ + text@,
{
    s.append(text);
}

/// Appends the decimal digits of `n` to `s`.
pub(crate) fn push_decimal(s: &mut String, n: u128)
    ensures
        final(s)@ == old(s)@ + decimal(n as nat),
    decreases n,
{
    if n >= 10 {
        push_decimal(s, n / 10);
    }
    let d = (n % 10) as u8;
    push_char(s, (48u8 + d) as char);
    assert(final(s)@ =~= old(s)@ + decimal(n as nat));
}

/// Appends the digits of `n`, padded to at least two with a leading zero.
pub(crate) fn push_two_digits(s: &mut String, n: u128)
    ensures
        final(s)@ == old(s)@ + two_digits(n as nat),
{
    if n < 10 {
        push_char(s, '0');
    }
    push_decimal(s, n);
    assert(final(s)@ =~= old(s)@ + two_digits(n as nat));
}

/// Hundredths of a minute in `seconds`, rounded to the nearest (never a tie).
pub open spec fn hundredths_of_minutes(seconds: nat) -> nat {
    (seconds * 100 + 30) / 60
}

/// `seconds` as minutes with two decimals, such as `2.00` for 120 seconds.
pub open spec fn minutes_text(seconds: nat) -> Seq<char> {
    decimal(hundredths_of_minutes(seconds) / 100) + seq!['.'] + two_digits(
        hundredths_of_minutes(seconds) % 100,
    )
}

/// Writes `seconds` as minutes with two decimals.
pub fn format_minutes(seconds: u128) -> (r: String)
    ensures
        r@ == minutes_text(seconds as nat),
{
    let minutes = seconds / 60;
    let rest = seconds % 60;
    let fraction = (rest * 100 + 30) / 60;
    proof {
        let h = hundredths_of_minutes(seconds as nat);
        assert(seconds * 100 + 30 == (minutes * 100) * 60 + (rest * 100 + 30)) by (nonlinear_arith)
            requires
                seconds == minutes * 60 + rest,
        ;
        assert(fraction < 100);
        assert(h == minutes * 100 + fraction) by (nonlinear_arith)
            requires
                h == (seconds * 100 + 30) / 60,
                seconds * 100 + 30 == (minutes * 100) * 60 + (rest * 100 + 30),
                fraction == (rest * 100 + 30) / 60,
                0 <= rest < 60,
        ;
        assert(h / 100 == minutes && h % 100 == fraction) by (nonlinear_arith)
            requires
                h == minutes * 100 + fraction,
                0 <= fraction < 100,
        ;
    }
    let mut s = String::new();
    push_decimal(&mut s, minutes);
    push_char(&mut s, '.');
    push_two_digits(&mut s, fraction);
    assert(s@ =~= minutes_text(seconds as nat));
    s
}

} // verus!
