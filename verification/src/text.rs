//! Building display text: appending strings and writing integers in decimal.
use vstd::prelude::*;

verus! {

/// The decimal digit character of `d` (0..=9).
pub open spec fn digit_char(d: int) -> char {
    if d == 0 {
        '0'
    } else if d == 1 {
        '1'
    } else if d == 2 {
        '2'
    } else if d == 3 {
        '3'
    } else if d == 4 {
        '4'
    } else if d == 5 {
        '5'
    } else if d == 6 {
        '6'
    } else if d == 7 {
        '7'
    } else if d == 8 {
        '8'
    } else {
        '9'
    }
}

/// The decimal digits of `n`, most significant first, without leading zeros
/// ("0" for zero).
pub open spec fn nat_text(n: nat) -> Seq<char>
    decreases n,
{
    if n < 10 {
        seq![digit_char(n as int)]
    } else {
        nat_text(n / 10).push(digit_char((n % 10) as int))
    }
}

/// `v` in decimal, with a leading minus sign when negative.
pub open spec fn int_text(v: int) -> Seq<char> {
    if v < 0 {
        seq!['-'] + nat_text((-v) as nat)
    } else {
        nat_text(v as nat)
    }
}

/// The digit `d` as a one-character string.
fn digit_str(d: u64) -> (s: &'static str)
    requires
        d < 10,
    ensures
        s@ == seq![digit_char(d as int)],
{
    proof {
        reveal_strlit("0");
        reveal_strlit("1");
        reveal_strlit("2");
        reveal_strlit("3");
        reveal_strlit("4");
        reveal_strlit("5");
        reveal_strlit("6");
        reveal_strlit("7");
        reveal_strlit("8");
        reveal_strlit("9");
    }
    if d == 0 {
        "0"
    } else if d == 1 {
        "1"
    } else if d == 2 {
        "2"
    } else if d == 3 {
        "3"
    } else if d == 4 {
        "4"
    } else if d == 5 {
        "5"
    } else if d == 6 {
        "6"
    } else if d == 7 {
        "7"
    } else if d == 8 {
        "8"
    } else {
        "9"
    }
}

/// Appends `n` in decimal.
pub(crate) fn push_nat(buf: &mut String, n: u64)
    ensures
        final(buf)@ == old(buf)@ + nat_text(n as nat),
    decreases n,
{
    if n >= 10 {
        push_nat(buf, n / 10);
    }
    buf.append(digit_str(n % 10));
    proof {
        if n >= 10 {
            assert(nat_text(n as nat) == nat_text((n / 10) as nat).push(digit_char((n % 10) as int)));
            assert(old(buf)@ + nat_text((n / 10) as nat) + seq![digit_char((n % 10) as int)] =~= old(buf)@
                + nat_text(n as nat));
        } else {
            assert(old(buf)@ + seq![digit_char((n % 10) as int)] =~= old(buf)@ + nat_text(n as nat));
        }
    }
}

/// Appends `v` in decimal, with a minus sign when negative.
pub(crate) fn push_int(buf: &mut String, v: i64)
    ensures
        final(buf)@ == old(buf)@ + int_text(v as int),
{
    if v < 0 {
        proof {
            reveal_strlit("-");
        }
        buf.append("-");
        let m: u64 = if v == i64::MIN { 9223372036854775808u64 } else { (-v) as u64 };
        push_nat(buf, m);
        proof {
            assert(old(buf)@ + seq!['-'] + nat_text(m as nat) =~= old(buf)@ + int_text(v as int));
        }
    } else {
        push_nat(buf, v as u64);
    }
}

} // verus!
