//! The texts of numbers: counts, and binary64 floating-point values, which are
//! read through their IEEE 754 bits.
use core::fmt::Display;

use vstd::prelude::*;
use vstd::string::StringExecFns;

verus! {

/// The digit `d`.
pub open spec fn digit(d: nat) -> char {
    (48 + d) as char
}

/// A number in decimal notation.
pub open spec fn decimal(n: nat) -> Seq<char>
    decreases n,
{
    if n < 10 {
        seq![digit(n)]
    } else {
        decimal(n / 10).push(digit(n % 10))
    }
}

/// Writes a number in decimal notation.
pub fn format_count(n: u64) -> (text: String)
    ensures
        text@ == decimal(n as nat),
    decreases n,
{
    let mut text = if n < 10 {
        String::new()
    } else {
        format_count(n / 10)
    };
    let last: u8 = 48 + (n % 10) as u8;
    text.push(last as char);
    assert(n < 10 ==> text@ =~= seq![digit(n as nat)]);
    text
}

/// Whether the sign bit is set.
pub open spec fn is_negative(bits: u64) -> bool {
    bits >= 0x8000_0000_0000_0000
}

/// The exponent field.
pub open spec fn exponent_field(bits: u64) -> int {
    (bits as int / 0x10_0000_0000_0000) % 0x800
}

/// The fraction field.
pub open spec fn fraction_field(bits: u64) -> int {
    bits as int % 0x10_0000_0000_0000
}

pub open spec fn is_nan(bits: u64) -> bool {
    exponent_field(bits) == 0x7ff && fraction_field(bits) != 0
}

pub open spec fn is_infinite(bits: u64) -> bool {
    exponent_field(bits) == 0x7ff && fraction_field(bits) == 0
}

/// The magnitude of a finite value is `significand * 2^scale`.
pub open spec fn significand(bits: u64) -> int {
    if exponent_field(bits) == 0 {
        fraction_field(bits)
    } else {
        0x10_0000_0000_0000 + fraction_field(bits)
    }
}

pub open spec fn scale(bits: u64) -> int {
    if exponent_field(bits) == 0 {
        -1074
    } else {
        exponent_field(bits) - 1075
    }
}

/// The value is finite and its magnitude is the whole number `n`.
pub open spec fn has_magnitude(bits: u64, n: nat) -> bool {
    &&& exponent_field(bits) != 0x7ff
    &&& if scale(bits) < 0 {
        significand(bits) == n * vstd::arithmetic::power2::pow2((-scale(bits)) as nat)
    } else {
        significand(bits) * vstd::arithmetic::power2::pow2(scale(bits) as nat) == n
    }
}

/// The limit below which whole numbers are written digit by digit.
pub open spec fn whole_limit() -> nat {
    1_000_000_000_000_000
}

/// The value is a whole number below the limit.
pub open spec fn is_small_whole(bits: u64) -> bool {
    exists|n: nat| n < whole_limit() && #[trigger] has_magnitude(bits, n)
}

/// A whole number with its sign, without a decimal point.
pub open spec fn whole_text(bits: u64, n: nat) -> Seq<char> {
    if is_negative(bits) {
        "-"@ + decimal(n)
    } else {
        decimal(n)
    }
}

/// The exposition's text for the value with the given bits, where `shown` is
/// the text that `Display` gives of it.
pub open spec fn float_text(bits: u64, shown: Seq<char>) -> Seq<char> {
    if is_nan(bits) {
        "NaN"@
    } else if is_infinite(bits) {
        if is_negative(bits) {
            "-Inf"@
        } else {
            "+Inf"@
        }
    } else if is_small_whole(bits) {
        whole_text(bits, choose|n: nat| n < whole_limit() && #[trigger] has_magnitude(bits, n))
    } else {
        shown
    }
}

/// A finite value has at most one magnitude.
pub proof fn lemma_magnitude_unique(bits: u64, a: nat, b: nat)
    requires
        has_magnitude(bits, a),
        has_magnitude(bits, b),
    ensures
        a == b,
{
    if scale(bits) < 0 {
        let p = vstd::arithmetic::power2::pow2((-scale(bits)) as nat);
        vstd::arithmetic::power2::lemma_pow2_pos((-scale(bits)) as nat);
        vstd::arithmetic::mul::lemma_mul_is_commutative(a as int, p as int);
        vstd::arithmetic::mul::lemma_mul_is_commutative(b as int, p as int);
        vstd::arithmetic::mul::lemma_mul_equality_converse(p as int, a as int, b as int);
    }
}

/// The powers of two that bound the significand.
proof fn lemma_significand_powers()
    ensures
        vstd::arithmetic::power2::pow2(52) == 0x10_0000_0000_0000,
        vstd::arithmetic::power2::pow2(53) == 0x20_0000_0000_0000,
{
    vstd::arithmetic::power2::lemma2_to64();
    vstd::arithmetic::power2::lemma_pow2_adds(32, 20);
    vstd::arithmetic::power2::lemma_pow2_adds(32, 21);
}

/// A positive number below `p` is no multiple of `p`.
proof fn lemma_no_multiple(m: int, n: nat, p: nat)
    requires
        0 < m < p,
    ensures
        m != n * p,
{
    if n > 0 {
        assert(n * p >= p) by (nonlinear_arith)
            requires
                n > 0,
        ;
    } else {
        assert(n * p == 0) by (nonlinear_arith)
            requires
                n == 0,
        ;
    }
}

/// The magnitude of a whole number below the limit.
fn small_whole(bits: u64) -> (magnitude: Option<u64>)
    requires
        exponent_field(bits) != 0x7ff,
    ensures
        magnitude is Some <==> is_small_whole(bits),
        magnitude matches Some(n) ==> n < whole_limit() && has_magnitude(bits, n as nat),
{
    let exponent: u64 = (bits / 0x10_0000_0000_0000) % 0x800;
    let fraction: u64 = bits % 0x10_0000_0000_0000;
    proof {
        lemma_significand_powers();
    }
    if exponent == 0 {
        proof {
            vstd::arithmetic::power2::lemma_pow2_strictly_increases(52, 1074);
            if fraction == 0 {
                assert(0nat * vstd::arithmetic::power2::pow2(1074) == 0) by (nonlinear_arith);
                assert(has_magnitude(bits, 0));
            } else {
                assert forall|n: nat| !#[trigger] has_magnitude(bits, n) by {
                    lemma_no_multiple(
                        fraction as int,
                        n,
                        vstd::arithmetic::power2::pow2(1074),
                    );
                }
            }
        }
        return if fraction == 0 {
            Some(0)
        } else {
            None
        };
    }
    let m: u64 = 0x10_0000_0000_0000 + fraction;
    if exponent >= 1075 {
        proof {
            let p = vstd::arithmetic::power2::pow2(scale(bits) as nat);
            vstd::arithmetic::power2::lemma_pow2_pos(scale(bits) as nat);
            assert(m * p >= m) by (nonlinear_arith)
                requires
                    p > 0,
                    m >= 0,
            ;
        }
        return None;
    }
    let shift: u64 = 1075 - exponent;
    if shift > 52 {
        proof {
            let p = vstd::arithmetic::power2::pow2(shift as nat);
            if shift > 53 {
                vstd::arithmetic::power2::lemma_pow2_strictly_increases(53, shift as nat);
            }
            assert forall|n: nat| !#[trigger] has_magnitude(bits, n) by {
                lemma_no_multiple(m as int, n, p);
            }
        }
        return None;
    }
    let ghost p = vstd::arithmetic::power2::pow2(shift as nat);
    proof {
        if shift < 52 {
            vstd::arithmetic::power2::lemma_pow2_strictly_increases(shift as nat, 52);
        }
        vstd::arithmetic::power2::lemma_pow2_pos(shift as nat);
        vstd::bits::lemma_u64_shl_is_mul(1, shift);
    }
    let divisor: u64 = 1u64 << shift;
    let n: u64 = m / divisor;
    proof {
        vstd::arithmetic::div_mod::lemma_fundamental_div_mod(m as int, p as int);
        vstd::arithmetic::mul::lemma_mul_is_commutative(n as int, p as int);
    }
    if m % divisor != 0 {
        proof {
            assert forall|q: nat| !#[trigger] has_magnitude(bits, q) by {
                if has_magnitude(bits, q) {
                    vstd::arithmetic::div_mod::lemma_mod_multiples_basic(q as int, p as int);
                }
            }
        }
        return None;
    }
    assert(has_magnitude(bits, n as nat));
    if n < 1_000_000_000_000_000 {
        Some(n)
    } else {
        proof {
            assert forall|q: nat| #[trigger] has_magnitude(bits, q) implies q >= whole_limit() by {
                lemma_magnitude_unique(bits, n as nat, q);
            }
        }
        None
    }
}

/// Writes a floating-point value for an exposition, given its bits and the text
/// that `Display` gives of it.
pub fn format_bits(bits: u64, shown: String) -> (text: String)
    ensures
        text@ == float_text(bits, shown@),
{
    let exponent: u64 = (bits / 0x10_0000_0000_0000) % 0x800;
    let fraction: u64 = bits % 0x10_0000_0000_0000;
    let negative: bool = bits >= 0x8000_0000_0000_0000;
    if exponent == 0x7ff {
        if fraction != 0 {
            "NaN".to_owned()
        } else if negative {
            "-Inf".to_owned()
        } else {
            "+Inf".to_owned()
        }
    } else {
        match small_whole(bits) {
            Some(n) => {
                proof {
                    let chosen = choose|c: nat|
                        c < whole_limit() && #[trigger] has_magnitude(bits, c);
                    lemma_magnitude_unique(bits, n as nat, chosen);
                }
                let digits = format_count(n);
                if negative {
                    "-".to_owned().concat(digits.as_str())
                } else {
                    digits
                }
            },
            None => shown,
        }
    }
}

/// `text` is the exposition's text for `value`, whose bits are `bits`.
pub open spec fn is_float_text<N: Display>(value: N, bits: u64, text: Seq<char>) -> bool {
    exists|shown: String| #[trigger]
        vstd::string::to_string_from_display_ensures::<N>(&value, shown) && text == float_text(
            bits,
            shown@,
        )
}

/// Writes a floating-point value for an exposition: `NaN`, `+Inf`, `-Inf`, a
/// whole number without a decimal point, or else the text that `Display` gives.
pub fn format_float<N: Display>(value: N, bits: u64) -> (text: String)
    ensures
        is_float_text(value, bits, text@),
{
    format_bits(bits, value.to_string())
}

/// A decimal notation has digits only.
pub proof fn lemma_decimal_digits(n: nat)
    ensures
        decimal(n).len() > 0,
        forall|i: int|
            0 <= i < decimal(n).len() ==> '0' <= #[trigger] decimal(n)[i] && decimal(n)[i] <= '9',
    decreases n,
{
    if n >= 10 {
        lemma_decimal_digits(n / 10);
    }
}

/// Two numbers with one decimal notation are the same.
pub proof fn law_decimal_is_exact(a: nat, b: nat)
    requires
        decimal(a) == decimal(b),
    ensures
        a == b,
    decreases a,
{
    lemma_decimal_digits(a / 10);
    lemma_decimal_digits(b / 10);
    assert(decimal(a).last() == digit(a % 10));
    assert(decimal(b).last() == digit(b % 10));
    if a >= 10 && b >= 10 {
        assert(decimal(a).drop_last() =~= decimal(a / 10));
        assert(decimal(b).drop_last() =~= decimal(b / 10));
        law_decimal_is_exact(a / 10, b / 10);
    }
}

/// Infinities and values that are no number have the texts that Prometheus
/// expects, whatever `Display` gives.
pub proof fn law_special_values(bits: u64, shown: Seq<char>)
    ensures
        is_nan(bits) ==> float_text(bits, shown) == "NaN"@,
        is_infinite(bits) && is_negative(bits) ==> float_text(bits, shown) == "-Inf"@,
        is_infinite(bits) && !is_negative(bits) ==> float_text(bits, shown) == "+Inf"@,
{
}

/// A whole number below the limit is written in full, without a decimal point,
/// whatever `Display` gives.
pub proof fn law_whole_numbers_have_no_point(bits: u64, n: nat, shown: Seq<char>)
    requires
        n < whole_limit(),
        has_magnitude(bits, n),
    ensures
        float_text(bits, shown) == whole_text(bits, n),
        !float_text(bits, shown).contains('.'),
{
    let chosen = choose|c: nat| c < whole_limit() && #[trigger] has_magnitude(bits, c);
    lemma_magnitude_unique(bits, n, chosen);
    lemma_decimal_digits(n);
    reveal_strlit("-");
    let text = whole_text(bits, n);
    assert forall|i: int| 0 <= i < text.len() implies text[i] != '.' by {
        if is_negative(bits) {
            if i > 0 {
                assert(text[i] == decimal(n)[i - 1]);
            }
        } else {
            assert(text[i] == decimal(n)[i]);
        }
    }
}

} // verus!
