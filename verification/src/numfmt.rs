//! Decimal formatting of machine integers as character sequences, used when
//! composing status lines and error messages.

use vstd::prelude::*;

verus! {

/// The decimal digits of `n`, most significant first; `0` is rendered as "0".
pub open spec fn spec_decimal(n: nat) -> Seq<char>
    decreases n,
{
    if n < 10 {
        seq![digit_char(n)]
    } else {
        spec_decimal(n / 10).push(digit_char(n % 10))
    }
}

/// The character for one decimal digit.
pub open spec fn digit_char(d: nat) -> char {
    if d == 0 {
        '0'
    } else if d == 1 {
        '1'
    } else if d == 2 {
        '2'
    } else if d == 3 {
        '3'
    } else if d == 4 {
        '4'
    } else if d == 5 {
        '5'
    } else if d == 6 {
        '6'
    } else if d == 7 {
        '7'
    } else if d == 8 {
        '8'
    } else {
        '9'
    }
}

fn digit_to_char(d: u64) -> (c: char)
    requires
        d < 10,
    ensures
        c == digit_char(d as nat),
{
    if d == 0 {
        '0'
    } else if d == 1 {
        '1'
    } else if d == 2 {
        '2'
    } else if d == 3 {
        '3'
    } else if d == 4 {
        '4'
    } else if d == 5 {
        '5'
    } else if d == 6 {
        '6'
    } else if d == 7 {
        '7'
    } else if d == 8 {
        '8'
    } else {
        '9'
    }
}

/// The decimal rendering of `n` as characters.
pub fn decimal_chars(n: u64) -> (r: Vec<char>)
    ensures
        r@ == spec_decimal(n as nat),
{
    let mut r: Vec<char> = Vec::new();
    let mut m: u64 = n;
    proof {
        assert(spec_decimal(n as nat) =~= spec_decimal(m as nat) + r@);
    }
    loop
        invariant_except_break
            spec_decimal(n as nat) =~= spec_decimal(m as nat) + r@,
        ensures
            spec_decimal(n as nat) =~= r@,
        decreases m,
    {
        let d: u64 = m % 10;
        let c = digit_to_char(d);
        proof {
            if m < 10 {
                assert(spec_decimal(m as nat) =~= seq![c]);
                assert(spec_decimal(n as nat) =~= (seq![c] + r@));
            } else {
                assert(spec_decimal(m as nat) =~= spec_decimal((m / 10) as nat) + seq![c]);
                assert(spec_decimal((m / 10) as nat) + seq![c] + r@
                    =~= spec_decimal((m / 10) as nat) + (seq![c] + r@));
            }
            assert(r@.insert(0, c) =~= seq![c] + r@);
        }
        r.insert(0, c);
        if m < 10 {
            break;
        }
        m = m / 10;
    }
    proof {
        assert(r@ =~= spec_decimal(n as nat));
    }
    r
}

} // verus!
