//! Decimal numbers in text.

use vstd::arithmetic::div_mod;
use vstd::arithmetic::power;
use vstd::prelude::*;

verus! {

/// The character of one decimal digit.
pub open spec fn digit_char(d: nat) -> char {
    ('0' as nat + d) as char
}

/// `n` in decimal, without leading zeros.
pub open spec fn decimal(n: nat) -> Seq<char>
    decreases n,
{
    if n < 10 {
        seq![digit_char(n)]
    } else {
        decimal(n / 10).push(digit_char(n % 10))
    }
}

fn digit_str(d: u64) -> (s: &'static str)
    requires
        d < 10,
    ensures
        s@ == seq![digit_char(d as nat)],
{
    proof {
        reveal_strlit("0");
        reveal_strlit("1");
        reveal_strlit("2");
        reveal_strlit("3");
        reveal_strlit("4");
        reveal_strlit("5");
        reveal_strlit("6");
        reveal_strlit("7");
        reveal_strlit("8");
        reveal_strlit("9");
    }
    match d {
        0 => "0",
        1 => "1",
        2 => "2",
        3 => "3",
        4 => "4",
        5 => "5",
        6 => "6",
        7 => "7",
        8 => "8",
        _ => "9",
    }
}

/// Appends `n` in decimal to `out`.
pub fn push_decimal(out: &mut String, n: u64)
    ensures
        final(out)@ == old(out)@ + decimal(n as nat),
    decreases n,
{
    if n >= 10 {
        push_decimal(out, n / 10);
    }
    out.append(digit_str(n % 10));
    proof {
        assert(out@ =~= old(out)@ + decimal(n as nat));
    }
}

/// The character of a digit is the one that is written for it.
pub proof fn law_digit_char(d: nat)
    requires
        d < 10,
    ensures
        digit_char(d) == seq!['0', '1', '2', '3', '4', '5', '6', '7', '8', '9'][d as int],
{
}

/// A number is written with as many digits as it has, and no leading zeros.
pub proof fn law_decimal_len(n: nat)
    ensures
        decimal(n).len() > 0,
        n < power::pow(10, decimal(n).len()),
        n > 0 ==> power::pow(10, (decimal(n).len() - 1) as nat) <= n,
        n == 0 ==> decimal(n).len() == 1,
    decreases n,
{
    if n < 10 {
        power::lemma_pow1(10);
        power::lemma_pow0(10);
    } else {
        law_decimal_len(n / 10);
        let len = decimal(n / 10).len();
        power::lemma_pow_adds(10, 1, len);
        power::lemma_pow_adds(10, 1, (len - 1) as nat);
        power::lemma_pow1(10);
    }
}

/// Character `i` of a number, counted from the right, is its decimal digit of weight
/// 10^i.
pub proof fn law_decimal_digit(n: nat, i: int)
    requires
        0 <= i < decimal(n).len(),
    ensures
        decimal(n)[decimal(n).len() - 1 - i] == seq![
            '0', '1', '2', '3', '4', '5', '6', '7', '8', '9'
        ][(n as int / power::pow(10, i as nat)) % 10],
    decreases n,
{
    if n < 10 {
        power::lemma_pow0(10);
        law_digit_char(n);
    } else if i == 0 {
        power::lemma_pow0(10);
        law_digit_char(n % 10);
    } else {
        let rest = (i - 1) as nat;
        law_decimal_digit(n / 10, i - 1);
        power::lemma_pow_positive(10, rest);
        power::lemma_pow_adds(10, 1, rest);
        power::lemma_pow1(10);
        div_mod::lemma_div_denominator(n as int, 10, power::pow(10, rest));
    }
}

} // verus!
