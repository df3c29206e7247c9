//! Building the text of error messages: appending characters and writing
//! numbers in decimal.

use vstd::prelude::*;

verus! {

/// The decimal digit for a value below ten.
pub open spec fn digit_char(d: nat) -> char {
    if d == 0 {
        '0'
    } else if d == 1 {
        '1'
    } else if d == 2 {
        '2'
    } else if d == 3 {
        '3'
    } else if d == 4 {
        '4'
    } else if d == 5 {
        '5'
    } else if d == 6 {
        '6'
    } else if d == 7 {
        '7'
    } else if d == 8 {
        '8'
    } else {
        '9'
    }
}

/// The decimal numeral of `n`, without leading zeros (`"0"` for zero).
pub open spec fn decimal_chars(n: nat) -> Seq<char>
    decreases n,
{
    if n < 10 {
        seq![digit_char(n)]
    } else {
        decimal_chars(n / 10).push(digit_char(n % 10))
    }
}

/// Appends one character to a string.
///
/// Trusted: this is `String::push` of the standard library, which appends the
/// given character to the end of the string.
#[verifier::external_body]
pub(crate) fn push_char(s: &mut String, c: char)
    ensures
        final(s)@ == old(s)@.push(c),
{
    s.push(c)
}

fn digit(d: u64) -> (c: char)
    requires
        d < 10,
    ensures
        c == digit_char(d as nat),
{
    if d == 0 {
        '0'
    } else if d == 1 {
        '1'
    } else if d == 2 {
        '2'
    } else if d == 3 {
        '3'
    } else if d == 4 {
        '4'
    } else if d == 5 {
        '5'
    } else if d == 6 {
        '6'
    } else if d == 7 {
        '7'
    } else if d == 8 {
        '8'
    } else {
        '9'
    }
}

/// Appends the decimal numeral of `n` to `s`.
pub fn push_decimal(s: &mut String, n: u64)
    ensures
        final(s)@ == old(s)@ + decimal_chars(n as nat),
{
    // Collect the digits from the lowest up, then append them in reverse.
    let mut digits: Vec<char> = Vec::new();
    let mut rest: u64 = n;
    while rest >= 10
        invariant
            decimal_chars(n as nat) == decimal_chars(rest as nat) + digits@.reverse(),
        decreases rest,
    {
        let c = digit(rest % 10);
        proof {
            let before = digits@;
            assert(decimal_chars(rest as nat) == decimal_chars((rest / 10) as nat).push(c));
            assert(before.push(c).reverse() =~= seq![c] + before.reverse());
            assert(decimal_chars((rest / 10) as nat).push(c) + before.reverse()
                =~= decimal_chars((rest / 10) as nat) + (seq![c] + before.reverse()));
        }
        digits.push(c);
        rest = rest / 10;
    }
    let first = digit(rest);
    push_char(s, first);
    let ghost lead = s@;
    assert(decimal_chars(rest as nat) == seq![first]);
    let mut i: usize = digits.len();
    while i > 0
        invariant
            i <= digits@.len(),
            s@ == lead + digits@.reverse().subrange(0, digits@.len() - i),
        decreases i,
    {
        i = i - 1;
        push_char(s, digits[i]);
        proof {
            let r = digits@.reverse();
            let k = digits@.len() - i;
            assert(r[k - 1] == digits@[i as int]);
            assert(r.subrange(0, k as int) =~= r.subrange(0, k - 1).push(r[k - 1]));
            assert(s@ =~= lead + r.subrange(0, k as int));
        }
    }
    proof {
        let r = digits@.reverse();
        assert(r.subrange(0, r.len() as int) =~= r);
        assert(s@ =~= old(s)@ + (seq![first] + r));
    }
}

} // verus!
