//! String-building helpers shared by the message pipeline.

use vstd::prelude::*;

verus! {

/// Relies on `String::push`: appends exactly the given character to the end
/// of the string.
#[verifier::external_body]
pub fn push_char(s: &mut String, c: char)
    ensures
        final(s)@ == old(s)@.push(c),
{
    s.push(c);
}

/// The character of one decimal digit.
pub open spec fn spec_digit(d: nat) -> char {
    if d == 0 {
        '0'
    } else if d == 1 {
        '1'
    } else if d == 2 {
        '2'
    } else if d == 3 {
        '3'
    } else if d == 4 {
        '4'
    } else if d == 5 {
        '5'
    } else if d == 6 {
        '6'
    } else if d == 7 {
        '7'
    } else if d == 8 {
        '8'
    } else {
        '9'
    }
}

/// The usual decimal writing of a number: no sign, no leading zero except on
/// zero itself.
pub open spec fn spec_decimal(n: nat) -> Seq<char>
    decreases n,
{
    if n < 10 {
        seq![spec_digit(n)]
    } else {
        spec_decimal(n / 10).push(spec_digit(n % 10))
    }
}

fn digit_char(d: u64) -> (c: char)
    requires
        d < 10,
    ensures
        c == spec_digit(d as nat),
{
    if d == 0 {
        '0'
    } else if d == 1 {
        '1'
    } else if d == 2 {
        '2'
    } else if d == 3 {
        '3'
    } else if d == 4 {
        '4'
    } else if d == 5 {
        '5'
    } else if d == 6 {
        '6'
    } else if d == 7 {
        '7'
    } else if d == 8 {
        '8'
    } else {
        '9'
    }
}

/// Writes a number in decimal.
pub fn u64_to_string(n: u64) -> (s: String)
    ensures
        s@ == spec_decimal(n as nat),
{
    let mut digits: Vec<char> = Vec::new();
    let first = digit_char(n % 10);
    digits.push(first);
    let mut m: u64 = n / 10;
    proof {
        assert(seq![first].reverse() =~= seq![first]);
        if n >= 10 {
            assert(spec_decimal(n as nat) == spec_decimal((n / 10) as nat).push(
                spec_digit((n % 10) as nat),
            ));
            assert(spec_decimal((m as u64) as nat) + seq![first] =~= spec_decimal(
                (m as u64) as nat,
            ).push(first));
        } else {
            assert(spec_decimal(n as nat) =~= seq![first]);
            assert(Seq::<char>::empty() + seq![first] =~= seq![first]);
        }
    }
    while m > 0
        invariant
            spec_decimal(n as nat) =~= (if m > 0 {
                spec_decimal(m as nat)
            } else {
                Seq::<char>::empty()
            }) + digits@.reverse(),
        decreases m,
    {
        let ghost m0 = m;
        let ghost ds = digits@;
        let d = digit_char(m % 10);
        digits.push(d);
        m = m / 10;
        proof {
            assert(ds.push(d).reverse() =~= seq![d] + ds.reverse());
            if m0 >= 10 {
                assert(spec_decimal(m0 as nat) == spec_decimal((m0 / 10) as nat).push(
                    spec_digit((m0 % 10) as nat),
                ));
                assert(spec_decimal((m0 / 10) as nat) + (seq![d] + ds.reverse()) =~= (
                spec_decimal((m0 / 10) as nat).push(d)) + ds.reverse());
                assert(spec_decimal(n as nat) =~= spec_decimal((m0 / 10) as nat) + ds.push(
                    d,
                ).reverse());
            } else {
                assert(spec_decimal(m0 as nat) =~= seq![d]);
                assert(seq![d] + ds.reverse() =~= spec_decimal(m0 as nat) + ds.reverse());
                assert(Seq::<char>::empty() + ds.push(d).reverse() =~= ds.push(d).reverse());
            }
        }
    }
    let mut s = String::new();
    proof {
        assert(digits@.skip(digits@.len() as int).reverse() =~= Seq::<char>::empty());
    }
    let mut i = digits.len();
    while i > 0
        invariant
            i <= digits@.len(),
            s@ =~= digits@.skip(i as int).reverse(),
        decreases i,
    {
        i = i - 1;
        let c = digits[i];
        push_char(&mut s, c);
        proof {
            assert(digits@.skip(i as int) =~= seq![digits@[i as int]] + digits@.skip(i + 1));
            assert(digits@.skip(i as int).reverse() =~= digits@.skip(i + 1).reverse().push(
                digits@[i as int],
            ));
        }
    }
    proof {
        assert(digits@.skip(0) =~= digits@);
        assert(s@ =~= spec_decimal(n as nat));
    }
    s
}

} // verus!
