//! Decimal printing and the integer value of `n as f64`, used to print
//! working-set sizes exactly as floating-point formatting with no
//! decimals does.
use vstd::prelude::*;
use vstd::arithmetic::power2::{pow2, lemma_pow2_unfold, lemma2_to64, lemma_pow2_strictly_increases};
use crate::binary_baselines::{bit_length, bit_length_u64};

verus! {

/// The decimal digit character of `d < 10`.
pub open spec fn digit_char(d: nat) -> char {
    if d == 0 {
        '0'
    } else if d == 1 {
        '1'
    } else if d == 2 {
        '2'
    } else if d == 3 {
        '3'
    } else if d == 4 {
        '4'
    } else if d == 5 {
        '5'
    } else if d == 6 {
        '6'
    } else if d == 7 {
        '7'
    } else if d == 8 {
        '8'
    } else {
        '9'
    }
}

/// The decimal representation of `v`, without leading zeros ("0" for 0).
pub open spec fn decimal(v: nat) -> Seq<char>
    decreases v,
{
    if v < 10 {
        seq![digit_char(v)]
    } else {
        decimal(v / 10).push(digit_char(v % 10))
    }
}

fn digit_str(d: u64) -> (r: &'static str)
    requires
        d < 10,
    ensures
        r@ == seq![digit_char(d as nat)],
{
    if d == 0 {
        proof {
            reveal_strlit("0");
        }
        "0"
    } else if d == 1 {
        proof {
            reveal_strlit("1");
        }
        "1"
    } else if d == 2 {
        proof {
            reveal_strlit("2");
        }
        "2"
    } else if d == 3 {
        proof {
            reveal_strlit("3");
        }
        "3"
    } else if d == 4 {
        proof {
            reveal_strlit("4");
        }
        "4"
    } else if d == 5 {
        proof {
            reveal_strlit("5");
        }
        "5"
    } else if d == 6 {
        proof {
            reveal_strlit("6");
        }
        "6"
    } else if d == 7 {
        proof {
            reveal_strlit("7");
        }
        "7"
    } else if d == 8 {
        proof {
            reveal_strlit("8");
        }
        "8"
    } else {
        proof {
            reveal_strlit("9");
        }
        "9"
    }
}

/// Appends the decimal representation of `v` to `s`.
pub(crate) fn append_decimal(s: &mut String, v: u64)
    ensures
        final(s)@ == old(s)@ + decimal(v as nat),
    decreases v,
{
    if v >= 10 {
        append_decimal(s, v / 10);
    }
    s.append(digit_str(v % 10));
    assert(final(s)@ =~= old(s)@ + decimal(v as nat)) by {
        if v >= 10 {
            assert(decimal(v as nat) == decimal((v / 10) as nat).push(digit_char((v % 10) as nat)));
        }
    }
}

/// `x / d` rounded to the nearest integer, ties to even.
pub open spec fn round_div_half_even(x: nat, d: nat) -> nat {
    let q = x / d;
    let r = x % d;
    if 2 * r > d || (2 * r == d && q % 2 == 1) {
        q + 1
    } else {
        q
    }
}

/// The value of `n as f64`: `n` rounded to 53 significant bits, ties to even.
pub open spec fn f64_nearest(n: nat) -> nat {
    let b = bit_length(n);
    if b <= 53 {
        n
    } else {
        round_div_half_even(n, pow2((b - 53) as nat)) * pow2((b - 53) as nat)
    }
}

/// The working set of `n` 8-byte elements in MB, as `n as f64 * 8.0 / 1048576.0`
/// printed with no decimals (scaling by powers of two is exact; printing
/// rounds ties to even).
pub open spec fn ws_megabytes(n: nat) -> nat {
    round_div_half_even(f64_nearest(n), pow2(17))
}

fn pow2_u128(e: u64) -> (r: u128)
    requires
        e <= 64,
    ensures
        r == pow2(e as nat),
        1 <= r <= 0x1_0000_0000_0000_0000,
{
    let mut d: u128 = 1;
    let mut i: u64 = 0;
    proof {
        lemma2_to64();
    }
    while i < e
        invariant
            i <= e <= 64,
            d == pow2(i as nat),
            pow2(64) == 0x1_0000_0000_0000_0000,
        decreases e - i,
    {
        proof {
            lemma_pow2_unfold((i + 1) as nat);
            if i + 1 < 64 {
                lemma_pow2_strictly_increases((i + 1) as nat, 64);
            }
        }
        d = d * 2;
        i = i + 1;
    }
    proof {
        vstd::arithmetic::power2::lemma_pow2_pos(e as nat);
        if e < 64 {
            lemma_pow2_strictly_increases(e as nat, 64);
        }
    }
    d
}

fn round_div_half_even_u128(x: u128, d: u128) -> (r: u128)
    requires
        d > 0,
        x <= 0x1_0000_0000_0000_0000,
        d <= 0x1_0000_0000_0000_0000,
    ensures
        r == round_div_half_even(x as nat, d as nat),
        r * d <= x + d,
{
    let q = x / d;
    let rem = x % d;
    proof {
        vstd::arithmetic::div_mod::lemma_fundamental_div_mod(x as int, d as int);
        assert(q * d <= x) by (nonlinear_arith)
            requires
                x == d * q + rem,
                rem >= 0,
        ;
        assert((q + 1) * d == q * d + d) by (nonlinear_arith);
    }
    if 2 * rem > d || (2 * rem == d && q % 2 == 1) {
        q + 1
    } else {
        q
    }
}

proof fn lemma_bit_length_upper(x: nat)
    ensures
        x < pow2(bit_length(x)),
    decreases x,
{
    if x == 0 {
        lemma2_to64();
    } else {
        lemma_bit_length_upper(x / 2);
        lemma_pow2_unfold(bit_length(x));
    }
}

/// Rounding `n` (of bit length `b > 53`) to a multiple of `d = 2^(b - 53)`
/// stays within `2^64`.
proof fn lemma_rounded_significand_fits(n: nat, b: nat, d: nat, q: nat)
    requires
        n < 0x1_0000_0000_0000_0000,
        b == bit_length(n),
        53 < b,
        b <= 64,
        d == pow2((b - 53) as nat),
        q == round_div_half_even(n, d),
    ensures
        q * d <= 0x1_0000_0000_0000_0000,
{
    lemma_bit_length_upper(n);
    vstd::arithmetic::power2::lemma_pow2_adds(53, (b - 53) as nat);
    vstd::arithmetic::power2::lemma_pow2_pos((b - 53) as nat);
    lemma2_to64();
    if b < 64 {
        lemma_pow2_strictly_increases(b, 64);
    }
    let c = pow2(53);
    vstd::arithmetic::div_mod::lemma_fundamental_div_mod(n as int, d as int);
    let fl = n / d;
    assert(fl < c) by (nonlinear_arith)
        requires
            n < c * d,
            n == d * fl + n % d,
            n % d >= 0,
            d > 0,
    ;
    assert(q <= c);
    assert(q * d <= c * d) by (nonlinear_arith)
        requires
            q <= c,
            d > 0,
    ;
}

/// `n as f64`, as an exact integer.
fn f64_nearest_u128(n: u64) -> (r: u128)
    ensures
        r == f64_nearest(n as nat),
        r <= 0x1_0000_0000_0000_0000,
{
    let b = bit_length_u64(n);
    if b <= 53 {
        n as u128
    } else {
        let d = pow2_u128(b - 53);
        let q = round_div_half_even_u128(n as u128, d);
        proof {
            lemma_rounded_significand_fits(n as nat, b as nat, d as nat, q as nat);
        }
        q * d
    }
}

pub(crate) fn ws_megabytes_u64(n: u64) -> (r: u64)
    ensures
        r == ws_megabytes(n as nat),
{
    let f = f64_nearest_u128(n);
    let d = pow2_u128(17);
    let m = round_div_half_even_u128(f, d);
    proof {
        lemma2_to64();
        assert(m <= 0x8000_0000_0001) by (nonlinear_arith)
            requires
                m * d <= f + d,
                f <= 0x1_0000_0000_0000_0000,
                d == 0x20000,
        ;
    }
    m as u64
}

/// For every size whose conversion to `f64` is exact (below 2^53), the
/// printed working set is the whole number of MB nearest to `n * 8 / 2^20`:
/// it is off by at most half a MB, and on an exact half it is even.
pub proof fn lemma_ws_megabytes_nearest(n: nat)
    requires
        n < 0x20_0000_0000_0000,
    ensures
        ({
            let m = ws_megabytes(n);
            let diff = if n >= m * 131072 {
                n - m * 131072
            } else {
                m * 131072 - n
            };
            &&& 2 * diff <= 131072
            &&& 2 * diff == 131072 ==> m % 2 == 0
        }),
{
    lemma2_to64();
    assert(pow2(53) == 0x20_0000_0000_0000) by {
        vstd::arithmetic::power2::lemma_pow2_adds(21, 32);
    }
    crate::binary_baselines::lemma_bit_length_bound(n, 53);
    assert(f64_nearest(n) == n);
    let q = n / 131072;
    let r = n % 131072;
    assert(n == 131072 * q + r);
}

} // verus!
