//! Small numeric helpers shared by the encoder, the orbit formulas and the
//! counter: saturation to the `usize` range, integer exponentiation and the
//! binomial coefficient "choose two".

use vstd::prelude::*;
use vstd::arithmetic::power::pow;
use vstd::string::StringExecFns;

verus! {

/// Clamps a mathematical integer into the `usize` range.
///
/// Counts in this library are stored as `usize`; every stored value is the
/// clamp of the exact mathematical value, so on inputs where nothing
/// exceeds `usize::MAX` (every realistic graph) the stored values are exact.
pub open spec fn sat_cap(x: int) -> usize {
    if x > usize::MAX {
        usize::MAX as usize
    } else if x < 0 {
        0usize
    } else {
        x as usize
    }
}

/// Clamps a natural number into the `usize` range.
pub open spec fn sat_nat(x: nat) -> usize {
    sat_cap(x as int)
}

/// Clamping commutes with addition: adding to an already clamped value and
/// clamping again equals clamping the exact sum.
pub proof fn lemma_sat_cap_add(x: int, y: int)
    requires
        x >= 0,
        y >= 0,
    ensures
        sat_cap(sat_cap(x) + y) == sat_cap(x + y),
{
}

/// Clamping commutes with addition of two clamped values.
pub proof fn lemma_sat_cap_add_both(x: int, y: int)
    requires
        x >= 0,
        y >= 0,
    ensures
        sat_cap(sat_cap(x) + sat_cap(y)) == sat_cap(x + y),
{
}

/// The exact value of `integer_power::<EXPONENT>(x)`: `x` raised to the
/// exponent, except that a zero exponent leaves the base unchanged.
pub open spec fn spec_integer_power(x: int, exponent: nat) -> int {
    if exponent == 0 {
        x
    } else {
        pow(x, exponent)
    }
}

/// Returns the exponentiation of the provided number with the const exponent.
pub fn integer_power<const EXPONENT: usize>(x: usize) -> (r: usize)
    requires
        spec_integer_power(x as int, EXPONENT as nat) <= usize::MAX,
    ensures
        r == spec_integer_power(x as int, EXPONENT as nat),
{
    let mut result: usize = x;
    let mut i: usize = 1;
    proof {
        vstd::arithmetic::power::lemma_pow1(x as int);
    }
    while i < EXPONENT
        invariant
            1 <= i,
            i <= EXPONENT || i == 1,
            EXPONENT >= 1 ==> result == pow(x as int, i as nat) && i <= EXPONENT,
            EXPONENT == 0 ==> result == x && i == 1,
            spec_integer_power(x as int, EXPONENT as nat) <= usize::MAX,
        decreases EXPONENT - i,
    {
        proof {
            vstd::arithmetic::power::lemma_pow_adds(x as int, i as nat, 1);
            vstd::arithmetic::power::lemma_pow1(x as int);
            if x == 0 {
                vstd::arithmetic::power::lemma0_pow((i + 1) as nat);
                assert(result * x == 0) by (nonlinear_arith)
                    requires
                        x == 0,
                ;
            } else {
                vstd::arithmetic::power::lemma_pow_increases(x as nat, (i + 1) as nat, EXPONENT as nat);
                vstd::arithmetic::power::lemma_pow_positive(x as int, (i + 1) as nat);
            }
        }
        result = result * x;
        i = i + 1;
    }
    result
}

/// The exact binomial coefficient "`x` choose two".
pub open spec fn spec_binomial_two(x: int) -> int {
    x * (x - 1) / 2
}

/// Returns the binomial of the provided number with base two, clamped to
/// the `usize` range.
pub fn binomial_two(x: usize) -> (r: usize)
    ensures
        r == sat_cap(spec_binomial_two(x as int)),
{
    if x < 2 {
        proof {
            assert((x as int) * (x as int - 1) == 0) by (nonlinear_arith)
                requires
                    x == 0 || x == 1,
            ;
        }
        return 0;
    }
    let xw: u128 = x as u128;
    proof {
        assert(xw * (xw - 1) <= 0xFFFF_FFFF_FFFF_FFFFu128 * 0xFFFF_FFFF_FFFF_FFFEu128)
            by (nonlinear_arith)
            requires
                2 <= xw <= 0xFFFF_FFFF_FFFF_FFFFu128,
        ;
        assert(xw * (xw - 1) >= 0) by (nonlinear_arith)
            requires
                xw >= 2,
        ;
    }
    let wide: u128 = xw * (xw - 1) / 2;
    if wide > usize::MAX as u128 {
        usize::MAX
    } else {
        wide as usize
    }
}


/// The character of a single decimal digit.
pub open spec fn spec_digit_char(d: int) -> char {
    if d == 0 {
        '0'
    } else if d == 1 {
        '1'
    } else if d == 2 {
        '2'
    } else if d == 3 {
        '3'
    } else if d == 4 {
        '4'
    } else if d == 5 {
        '5'
    } else if d == 6 {
        '6'
    } else if d == 7 {
        '7'
    } else if d == 8 {
        '8'
    } else {
        '9'
    }
}

/// The decimal rendering of a number, most significant digit first.
pub open spec fn spec_decimal(n: nat) -> Seq<char>
    decreases n,
{
    if n < 10 {
        seq![spec_digit_char(n as int)]
    } else {
        spec_decimal(n / 10).push(spec_digit_char((n % 10) as int))
    }
}

/// One decimal digit as a string slice.
fn digit_str(d: usize) -> (r: &'static str)
    requires
        d < 10,
    ensures
        r@ == seq![spec_digit_char(d as int)],
{
    if d == 0 {
        proof {
            reveal_strlit("0");
        }
        assert("0"@ =~= seq![spec_digit_char(0)]);
        "0"
    } else if d == 1 {
        proof {
            reveal_strlit("1");
        }
        assert("1"@ =~= seq![spec_digit_char(1)]);
        "1"
    } else if d == 2 {
        proof {
            reveal_strlit("2");
        }
        assert("2"@ =~= seq![spec_digit_char(2)]);
        "2"
    } else if d == 3 {
        proof {
            reveal_strlit("3");
        }
        assert("3"@ =~= seq![spec_digit_char(3)]);
        "3"
    } else if d == 4 {
        proof {
            reveal_strlit("4");
        }
        assert("4"@ =~= seq![spec_digit_char(4)]);
        "4"
    } else if d == 5 {
        proof {
            reveal_strlit("5");
        }
        assert("5"@ =~= seq![spec_digit_char(5)]);
        "5"
    } else if d == 6 {
        proof {
            reveal_strlit("6");
        }
        assert("6"@ =~= seq![spec_digit_char(6)]);
        "6"
    } else if d == 7 {
        proof {
            reveal_strlit("7");
        }
        assert("7"@ =~= seq![spec_digit_char(7)]);
        "7"
    } else if d == 8 {
        proof {
            reveal_strlit("8");
        }
        assert("8"@ =~= seq![spec_digit_char(8)]);
        "8"
    } else {
        proof {
            reveal_strlit("9");
        }
        assert("9"@ =~= seq![spec_digit_char(9)]);
        "9"
    }
}

/// Renders a number in decimal.
pub fn usize_to_string(n: usize) -> (r: String)
    ensures
        r@ == spec_decimal(n as nat),
    decreases n,
{
    if n < 10 {
        let mut s = String::new();
        s.append(digit_str(n));
        proof {
            assert(s@ =~= seq![spec_digit_char(n as int)]);
        }
        s
    } else {
        let mut s = usize_to_string(n / 10);
        s.append(digit_str(n % 10));
        s
    }
}


} // verus!
