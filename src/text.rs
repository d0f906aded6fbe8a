//! Character-level helpers shared by the log format and the chart labels.
use vstd::prelude::*;

verus! {

/// Relies on `String::push`: appends one character at the end.
#[verifier::external_body]
pub(crate) fn push_char(s: &mut String, c: char)
    ensures
        final(s)@ == old(s)@.push(c),
{
    s.push(c)
}

/// The characters of `s`, in order.
pub fn chars_of(s: &str) -> (r: Vec<char>)
    ensures
        r@ == s@,
{
    broadcast use vstd::string::axiom_spec_iter;
    let mut r: Vec<char> = Vec::new();
    for c in iter: s.chars()
        invariant
            r@ == iter.seq().take(iter.index() as int),
    {
        r.push(c);
    }
    r
}

/// The decimal digit character for `n` (0 to 9).
pub open spec fn digit(n: int) -> char {
    if n == 0 {
        '0'
    } else if n == 1 {
        '1'
    } else if n == 2 {
        '2'
    } else if n == 3 {
        '3'
    } else if n == 4 {
        '4'
    } else if n == 5 {
        '5'
    } else if n == 6 {
        '6'
    } else if n == 7 {
        '7'
    } else if n == 8 {
        '8'
    } else {
        '9'
    }
}

pub fn digit_char(n: u16) -> (c: char)
    requires
        n < 10,
    ensures
        c == digit(n as int),
{
    if n == 0 {
        '0'
    } else if n == 1 {
        '1'
    } else if n == 2 {
        '2'
    } else if n == 3 {
        '3'
    } else if n == 4 {
        '4'
    } else if n == 5 {
        '5'
    } else if n == 6 {
        '6'
    } else if n == 7 {
        '7'
    } else if n == 8 {
        '8'
    } else {
        '9'
    }
}

/// Decimal digits of `n`, most significant first, without leading zeros.
pub open spec fn digits(n: nat) -> Seq<char>
    decreases n,
{
    if n < 10 {
        seq![digit(n as int)]
    } else {
        digits(n / 10).push(digit((n % 10) as int))
    }
}

/// `n` in decimal, with a leading `-` when negative.
pub open spec fn decimal(n: int) -> Seq<char> {
    if n < 0 {
        seq!['-'] + digits((-n) as nat)
    } else {
        digits(n as nat)
    }
}

fn push_digits(out: &mut String, n: u64)
    ensures
        final(out)@ == old(out)@ + digits(n as nat),
    decreases n,
{
    if n >= 10 {
        push_digits(out, n / 10);
    }
    push_char(out, digit_char((n % 10) as u16));
    assert(out@ =~= old(out)@ + digits(n as nat));
}

/// Appends `n` in decimal.
pub fn push_decimal(out: &mut String, n: i64)
    ensures
        final(out)@ == old(out)@ + decimal(n as int),
{
    if n < 0 {
        push_char(out, '-');
        let m: u64 = (0i128 - n as i128) as u64;
        push_digits(out, m);
        assert(out@ =~= old(out)@ + decimal(n as int));
    } else {
        push_digits(out, n as u64);
    }
}


/// `n` tenths as a decimal with one digit after the point (`-0.5`, `65.5`).
pub open spec fn tenths_text(n: int) -> Seq<char> {
    let m = if n < 0 {
        -n
    } else {
        n
    };
    (if n < 0 {
        seq!['-']
    } else {
        Seq::empty()
    }) + digits((m / 10) as nat) + seq!['.', digit(m % 10)]
}

/// `n` tenths rounded toward zero to a whole number.
pub open spec fn whole_of_tenths(n: int) -> int {
    if n < 0 {
        -((-n) / 10)
    } else {
        n / 10
    }
}

/// Appends `n` tenths with one digit after the point.
pub fn push_tenths(out: &mut String, n: i64)
    ensures
        final(out)@ == old(out)@ + tenths_text(n as int),
{
    let ghost start = out@;
    let m: u64 = if n < 0 {
        push_char(out, '-');
        (0i128 - n as i128) as u64
    } else {
        n as u64
    };
    push_digits(out, m / 10);
    push_char(out, '.');
    push_char(out, digit_char((m % 10) as u16));
    assert(out@ =~= start + tenths_text(n as int));
}

} // verus!
