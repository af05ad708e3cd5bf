//! Conversions to IEEE 754 bit patterns.
use vstd::prelude::*;

verus! {

/// Two to the power `k`.
pub open spec fn two(k: nat) -> nat
    decreases k,
{
    if k == 0 {
        1
    } else {
        2 * two((k - 1) as nat)
    }
}

/// The number of binary digits of `n`; zero has none.
pub open spec fn bit_len(n: nat) -> nat
    decreases n,
{
    if n == 0 {
        0
    } else {
        1 + bit_len(n / 2)
    }
}

/// Powers of two do not decrease.
proof fn lemma_two_mono(j: nat, k: nat)
    requires
        j <= k,
    ensures
        1 <= two(j) <= two(k),
    decreases k,
{
    if j < k {
        lemma_two_mono(j, (k - 1) as nat);
    } else if j > 0 {
        lemma_two_mono((j - 1) as nat, (j - 1) as nat);
    }
}

/// Powers of two multiply by adding exponents.
proof fn lemma_two_add(j: nat, k: nat)
    ensures
        two(j) * two(k) == two(j + k),
    decreases k,
{
    if k > 0 {
        lemma_two_add(j, (k - 1) as nat);
        let a = two(j);
        let b = two((k - 1) as nat);
        assert(a * (2 * b) == 2 * (a * b)) by (nonlinear_arith);
        assert(two(k) == 2 * b);
        assert(two(j + k) == 2 * two((j + k - 1) as nat));
    } else {
        assert(two(0) == 1);
        assert(two(j) * 1 == two(j));
    }
}

/// Some powers of two.
proof fn lemma_two_values()
    ensures
        two(22) == 0x40_0000,
        two(23) == 0x80_0000,
        two(24) == 0x100_0000,
        two(29) == 0x2000_0000,
        two(51) == 0x8_0000_0000_0000,
        two(52) == 0x10_0000_0000_0000,
        two(53) == 0x20_0000_0000_0000,
        two(64) == 0x1_0000_0000_0000_0000,
{
    reveal_with_fuel(two, 30);
    assert(two(24) == 0x100_0000);
    assert(two(29) == 0x2000_0000);
    lemma_two_add(29, 22);
    lemma_two_add(29, 23);
    lemma_two_add(29, 24);
    lemma_two_add(53, 11);
    assert(two(11) == 2048);
}

/// A number has `bit_len` digits.
proof fn lemma_bit_len(n: nat)
    ensures
        n < two(bit_len(n)),
        n > 0 ==> bit_len(n) > 0 && two((bit_len(n) - 1) as nat) <= n,
    decreases n,
{
    if n > 0 {
        lemma_bit_len(n / 2);
    }
}

/// A number below a power of two has no more digits.
proof fn lemma_bit_len_bound(n: nat, k: nat)
    requires
        n < two(k),
    ensures
        bit_len(n) <= k,
    decreases k,
{
    if n > 0 {
        if k == 0 {
            assert(two(0) == 1);
        } else {
            lemma_bit_len_bound(n / 2, (k - 1) as nat);
        }
    }
}

/// `n` rounded to `p` binary digits, half to even: a number of exactly `p` digits and
/// the exponent of two that goes with it.
pub open spec fn rounded(n: nat, p: nat) -> (nat, int) {
    let len = bit_len(n);
    if len <= p {
        (n * two((p - len) as nat), len - p)
    } else {
        let s = (len - p) as nat;
        let q = n / two(s);
        let r = n % two(s);
        let half = two((s - 1) as nat);
        let up = r > half || (r == half && q % 2 == 1);
        if up && q + 1 == two(p) {
            (two((p - 1) as nat), (s + 1) as int)
        } else if up {
            (q + 1, s as int)
        } else {
            (q, s as int)
        }
    }
}

/// The bits of the single-precision number nearest to an integer.
pub open spec fn single_bits(negative: bool, n: nat) -> nat {
    if n == 0 {
        0
    } else {
        let (q, e) = rounded(n, 24);
        (if negative {
            0x8000_0000nat
        } else {
            0nat
        }) + ((e + 150) * 0x80_0000 + (q - 0x80_0000)) as nat
    }
}

/// The bits of the double-precision number nearest to an integer.
pub open spec fn double_bits(negative: bool, n: nat) -> nat {
    if n == 0 {
        0
    } else {
        let (q, e) = rounded(n, 53);
        (if negative {
            0x8000_0000_0000_0000nat
        } else {
            0nat
        }) + ((e + 1075) * 0x10_0000_0000_0000 + (q - 0x10_0000_0000_0000)) as nat
    }
}

/// Two to the power `k`.
fn two_pow(k: u32) -> (r: u128)
    requires
        k <= 64,
    ensures
        r == two(k as nat),
        1 <= r <= 0x1_0000_0000_0000_0000,
    decreases k,
{
    proof {
        lemma_two_values();
        lemma_two_mono(k as nat, 64);
    }
    if k == 0 {
        1
    } else {
        let half = two_pow(k - 1);
        2 * half
    }
}

/// The number of binary digits of `n`.
fn bit_length(n: u64) -> (r: u32)
    ensures
        r == bit_len(n as nat),
        r <= 64,
    decreases n,
{
    proof {
        lemma_two_values();
        lemma_bit_len_bound(n as nat, 64);
    }
    if n == 0 {
        0
    } else {
        1 + bit_length(n / 2)
    }
}

/// Rounding gives exactly `p` digits.
proof fn lemma_rounded(n: nat, p: nat)
    requires
        n > 0,
        p > 0,
    ensures
        two((p - 1) as nat) <= rounded(n, p).0 < two(p),
        rounded(n, p).1 <= bit_len(n) - p + 1 || bit_len(n) <= p,
        bit_len(n) <= p ==> rounded(n, p).1 == bit_len(n) - p,
        bit_len(n) > p ==> bit_len(n) - p <= rounded(n, p).1 <= bit_len(n) - p + 1,
{
    let len = bit_len(n);
    lemma_bit_len(n);
    let lo = two((len - 1) as nat);
    let hi = two(len);
    if len <= p {
        let d = two((p - len) as nat);
        lemma_two_add((len - 1) as nat, (p - len) as nat);
        lemma_two_add(len, (p - len) as nat);
        lemma_two_mono(0, (p - len) as nat);
        assert(lo * d <= n * d < hi * d) by (nonlinear_arith)
            requires
                lo <= n < hi,
                d >= 1,
        ;
    } else {
        let s = (len - p) as nat;
        let d = two(s);
        lemma_two_mono(0, s);
        lemma_two_add((p - 1) as nat, s);
        lemma_two_add(p, s);
        let a = two((p - 1) as nat);
        let b = two(p);
        assert(a <= n / d < b) by (nonlinear_arith)
            requires
                a * d <= n < b * d,
                d >= 1,
        ;
        lemma_two_mono((p - 1) as nat, p);
        lemma_two_mono(0, (p - 1) as nat);
    }
}

/// `n` rounded to `p` binary digits.
fn round_to(n: u64, p: u32) -> (r: (u64, i32))
    requires
        n > 0,
        0 < p <= 53,
    ensures
        (r.0 as nat, r.1 as int) == rounded(n as nat, p as nat),
        two((p - 1) as nat) <= r.0 < two(p as nat),
        -(p as int) < r.1 <= 64,
{
    let len = bit_length(n);
    proof {
        lemma_rounded(n as nat, p as nat);
        lemma_bit_len(n as nat);
        lemma_two_values();
        lemma_two_mono(p as nat, 53);
    }
    if len <= p {
        let d = two_pow(p - len);
        let ghost m = n as nat;
        proof {
            lemma_two_mono((p - len) as nat, 53);
            assert(m * d <= 0x1_0000_0000_0000_0000 * 0x20_0000_0000_0000) by (nonlinear_arith)
                requires
                    m <= 0x1_0000_0000_0000_0000,
                    d <= 0x20_0000_0000_0000,
            ;
        }
        let q = n as u128 * d;
        (q as u64, len as i32 - p as i32)
    } else {
        let s = len - p;
        let d = two_pow(s);
        let half = two_pow(s - 1);
        let q = (n as u128) / d;
        let r = (n as u128) % d;
        let up = r > half || (r == half && q % 2 == 1);
        proof {
            assert(q <= n) by (nonlinear_arith)
                requires
                    q == (n as u128) / d,
                    d >= 1,
            ;
        }
        if up && q + 1 == two_pow(p) {
            (two_pow(p - 1) as u64, s as i32 + 1)
        } else if up {
            ((q + 1) as u64, s as i32)
        } else {
            (q as u64, s as i32)
        }
    }
}

/// Magnitude of a number.
pub open spec fn magnitude(x: int) -> nat {
    if x < 0 {
        (-x) as nat
    } else {
        x as nat
    }
}

/// Magnitude of a number.
fn abs(x: i64) -> (r: u64)
    ensures
        r == magnitude(x as int),
{
    if x < 0 {
        (-(x as i128)) as u64
    } else {
        x as u64
    }
}

/// The bits of the single-precision number nearest to `x`.
pub fn to_single(x: i64) -> (r: u32)
    ensures
        r == single_bits(x < 0, magnitude(x as int)),
{
    let n = abs(x);
    if n == 0 {
        return 0;
    }
    proof {
        lemma_two_values();
    }
    let (q, e) = round_to(n, 24);
    let sign: u64 = if x < 0 {
        0x8000_0000
    } else {
        0
    };
    let field = (e + 150) as u64;
    (sign + field * 0x80_0000 + (q - 0x80_0000)) as u32
}

/// The bits of the double-precision number nearest to `x`.
pub fn to_double(x: i64) -> (r: u64)
    ensures
        r == double_bits(x < 0, magnitude(x as int)),
{
    let n = abs(x);
    if n == 0 {
        return 0;
    }
    proof {
        lemma_two_values();
    }
    let (q, e) = round_to(n, 53);
    let sign: u64 = if x < 0 {
        0x8000_0000_0000_0000
    } else {
        0
    };
    let field = (e + 1075) as u64;
    sign + field * 0x10_0000_0000_0000 + (q - 0x10_0000_0000_0000)
}

/// The double-precision number with the value of the single-precision number `bits`.
/// A NaN becomes a quiet NaN.
pub open spec fn widened(bits: u32) -> nat {
    let sign = if bits >= 0x8000_0000 {
        0x8000_0000_0000_0000nat
    } else {
        0nat
    };
    let e = (bits as nat / 0x80_0000) % 256;
    let m = bits as nat % 0x80_0000;
    if e == 255 {
        sign + 0x7ff0_0000_0000_0000 + m * 0x2000_0000 + if 0 < m < 0x40_0000 {
            0x8_0000_0000_0000nat
        } else {
            0nat
        }
    } else if e == 0 {
        if m == 0 {
            sign
        } else {
            let len = bit_len(m);
            sign + (len + 873) * 0x10_0000_0000_0000 + (m * two((53 - len) as nat)
                - 0x10_0000_0000_0000) as nat
        }
    } else {
        sign + (e + 896) * 0x10_0000_0000_0000 + m * 0x2000_0000
    }
}

/// The double-precision number with the value of a single-precision number.
pub fn widen(bits: u32) -> (r: u64)
    ensures
        r == widened(bits),
{
    let sign: u64 = if bits >= 0x8000_0000 {
        0x8000_0000_0000_0000
    } else {
        0
    };
    let e = ((bits / 0x80_0000) % 256) as u64;
    let m = (bits % 0x80_0000) as u64;
    if e == 255 {
        let quiet: u64 = if 0 < m && m < 0x40_0000 {
            0x8_0000_0000_0000
        } else {
            0
        };
        sign + 0x7ff0_0000_0000_0000 + m * 0x2000_0000 + quiet
    } else if e == 0 {
        if m == 0 {
            return sign;
        }
        let len = bit_length(m);
        proof {
            lemma_two_values();
            lemma_bit_len_bound(m as nat, 23);
            lemma_rounded(m as nat, 53);
        }
        let (q, x) = round_to(m, 53);
        sign + (len as u64 + 873) * 0x10_0000_0000_0000 + (q - 0x10_0000_0000_0000)
    } else {
        sign + (e + 896) * 0x10_0000_0000_0000 + m * 0x2000_0000
    }
}

/// The sign bit of a single-precision number flipped.
pub open spec fn negated_single(bits: u32) -> u32 {
    if bits >= 0x8000_0000 {
        (bits - 0x8000_0000) as u32
    } else {
        (bits + 0x8000_0000) as u32
    }
}

/// The sign bit of a double-precision number flipped.
pub open spec fn negated_double(bits: u64) -> u64 {
    if bits >= 0x8000_0000_0000_0000 {
        (bits - 0x8000_0000_0000_0000) as u64
    } else {
        (bits + 0x8000_0000_0000_0000) as u64
    }
}

/// Flips the sign bit of a single-precision number.
pub fn negate_single(bits: u32) -> (r: u32)
    ensures
        r == negated_single(bits),
{
    if bits >= 0x8000_0000 {
        bits - 0x8000_0000
    } else {
        bits + 0x8000_0000
    }
}

/// Flips the sign bit of a double-precision number.
pub fn negate_double(bits: u64) -> (r: u64)
    ensures
        r == negated_double(bits),
{
    if bits >= 0x8000_0000_0000_0000 {
        bits - 0x8000_0000_0000_0000
    } else {
        bits + 0x8000_0000_0000_0000
    }
}

/// Negating twice gives the number back.
pub proof fn law_negate_twice(s: u32, d: u64)
    ensures
        negated_single(negated_single(s)) == s,
        negated_double(negated_double(d)) == d,
{
}

} // verus!
