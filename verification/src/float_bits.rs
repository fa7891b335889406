//! Numbers of single precision by their bits: which whole number one holds, and which one is
//! nearest to a whole number.

use vstd::arithmetic::power2::{lemma2_to64, lemma_pow2_strictly_increases, lemma_pow2_unfold, pow2};
use vstd::prelude::*;

verus! {

/// Whether the sign bit is set.
pub open spec fn negative(bits: u32) -> bool {
    bits >= 0x8000_0000
}

/// The bits without the sign.
pub open spec fn magnitude(bits: u32) -> int {
    bits as int % 0x8000_0000
}

/// The exponent field.
pub open spec fn exponent(bits: u32) -> int {
    magnitude(bits) / 0x80_0000
}

/// The mantissa field.
pub open spec fn mantissa(bits: u32) -> int {
    magnitude(bits) % 0x80_0000
}

/// Whether the bits are those of no number.
pub open spec fn not_a_number(bits: u32) -> bool {
    exponent(bits) == 255 && mantissa(bits) != 0
}

/// The whole number that the bits without the sign hold, if it is whole.
pub open spec fn whole_magnitude(bits: u32) -> Option<int> {
    let m = 0x80_0000 + mantissa(bits);
    if exponent(bits) == 255 {
        None
    } else if exponent(bits) == 0 {
        if mantissa(bits) == 0 {
            Some(0)
        } else {
            None
        }
    } else if exponent(bits) >= 150 {
        Some(m * pow2((exponent(bits) - 150) as nat))
    } else if m % pow2((150 - exponent(bits)) as nat) as int == 0 {
        Some(m / pow2((150 - exponent(bits)) as nat) as int)
    } else {
        None
    }
}

/// The whole number that the bits hold, if they hold a whole number.
pub open spec fn whole(bits: u32) -> Option<int> {
    match whole_magnitude(bits) {
        Some(n) => Some(
            if negative(bits) {
                -n
            } else {
                n
            },
        ),
        None => None,
    }
}

fn power_of_two(k: u32) -> (r: u64)
    requires
        k <= 32,
    ensures
        r == pow2(k as nat),
{
    proof {
        lemma2_to64();
    }
    let mut r: u64 = 1;
    let mut i: u32 = 0;
    while i < k
        invariant
            i <= k <= 32,
            r == pow2(i as nat),
            pow2(32) == 0x1_0000_0000,
        decreases k - i,
    {
        proof {
            lemma_pow2_unfold((i + 1) as nat);
            if i + 1 < 32 {
                lemma_pow2_strictly_increases((i + 1) as nat, 32);
            }
        }
        r = r * 2;
        i = i + 1;
    }
    r
}

/// The whole number that the bits hold. One of four thousand millions or more is not looked at.
pub fn whole_number(bits: u32) -> (r: Option<i64>)
    ensures
        match r {
            Some(n) => whole(bits) == Some(n as int) && -0x1_0000_0000 <= n <= 0x1_0000_0000,
            None => match whole(bits) {
                Some(n) => n <= -0x1_0000_0000 || n >= 0x1_0000_0000,
                None => true,
            },
        },
{
    let size: u32 = bits % 0x8000_0000;
    let e: u32 = size / 0x80_0000;
    let f: u32 = size % 0x80_0000;
    let m: u64 = 0x80_0000 + f as u64;
    let n: u64 = if e == 255 {
        return None;
    } else if e == 0 {
        if f == 0 {
            0
        } else {
            return None;
        }
    } else if e >= 150 {
        if e > 158 {
            proof {
                lemma2_to64();
                if e > 159 {
                    lemma_pow2_strictly_increases(9, (e - 150) as nat);
                }
                let p = pow2((e - 150) as nat) as int;
                let w = m as int;
                assert(w * p >= 0x1_0000_0000) by (nonlinear_arith)
                    requires
                        w >= 0x80_0000,
                        p >= 512,
                ;
            }
            return None;
        }
        let p = power_of_two(e - 150);
        proof {
            lemma2_to64();
            if e < 158 {
                lemma_pow2_strictly_increases((e - 150) as nat, 8);
            }
            assert(0 <= m * p <= 0x1_0000_0000) by (nonlinear_arith)
                requires
                    0 <= m <= 0x100_0000,
                    0 <= p <= 256,
            ;
        }
        m * p
    } else if e >= 126 {
        let p = power_of_two(150 - e);
        proof {
            lemma2_to64();
            if 150 - e > 1 {
                lemma_pow2_strictly_increases(1, (150 - e) as nat);
            }
        }
        if m % p != 0 {
            return None;
        }
        proof {
            assert(0 <= m / p <= m) by (nonlinear_arith)
                requires
                    p > 0,
            ;
        }
        m / p
    } else {
        proof {
            lemma2_to64();
            if e < 125 {
                lemma_pow2_strictly_increases(25, (150 - e) as nat);
            }
            let p = pow2((150 - e) as nat) as int;
            let w = m as int;
            assert(w % p == w) by (nonlinear_arith)
                requires
                    0 <= w < p,
            ;
        }
        return None;
    };
    if bits >= 0x8000_0000 {
        Some(-(n as i64))
    } else {
        Some(n as i64)
    }
}

/// The greatest power of two that is not above a positive number, as its exponent.
pub open spec fn log_two(n: nat) -> nat
    decreases n,
{
    if n <= 1 {
        0
    } else {
        log_two(n / 2) + 1
    }
}

/// A number divided by a power of two, rounded to the nearest whole number, and where two are
/// equally near, to the even one.
pub open spec fn rounded(n: int, p: int) -> int {
    let q = n / p;
    let r = n % p;
    if 2 * r > p || (2 * r == p && q % 2 == 1) {
        q + 1
    } else {
        q
    }
}

/// The bits of the number of single precision that is nearest to a whole number.
pub open spec fn nearest(n: int) -> int {
    let size = if n < 0 {
        -n
    } else {
        n
    };
    let k = log_two(size as nat);
    if n == 0 {
        0
    } else {
        let m = if k <= 23 {
            size * pow2((23 - k) as nat)
        } else {
            rounded(size, pow2((k - 23) as nat) as int)
        };
        (k + 126) * 0x80_0000 + m + (if n < 0 {
            0x8000_0000int
        } else {
            0
        })
    }
}

proof fn lemma_log_two(n: nat)
    requires
        n > 0,
    ensures
        pow2(log_two(n)) <= n < 2 * pow2(log_two(n)),
    decreases n,
{
    lemma2_to64();
    if n > 1 {
        lemma_log_two(n / 2);
        lemma_pow2_unfold(log_two(n));
    }
}

fn log_of(n: u64) -> (k: u32)
    requires
        0 < n < 0x1_0000_0000,
    ensures
        k == log_two(n as nat),
        k < 32,
{
    let mut k: u32 = 0;
    let mut left: u64 = n;
    proof {
        lemma2_to64();
        lemma_log_two(n as nat);
        if log_two(n as nat) >= 32 {
            if log_two(n as nat) > 32 {
                lemma_pow2_strictly_increases(32, log_two(n as nat));
            }
        }
    }
    while left > 1
        invariant
            0 < left,
            k + log_two(left as nat) == log_two(n as nat),
            log_two(n as nat) < 32,
        decreases left,
    {
        left = left / 2;
        k = k + 1;
    }
    k
}

proof fn lemma_sum_of_exponents(size: int, k: nat)
    requires
        k <= 23,
        pow2(k) <= size < 2 * pow2(k),
    ensures
        0x80_0000 <= size * pow2((23 - k) as nat) < 0x100_0000,
{
    lemma2_to64();
    vstd::arithmetic::power2::lemma_pow2_adds(k, (23 - k) as nat);
    let p = pow2(k) as int;
    let q = pow2((23 - k) as nat) as int;
    assert(p * q == 0x80_0000);
    assert(p * q <= size * q < 2 * (p * q)) by (nonlinear_arith)
        requires
            p <= size < 2 * p,
            q > 0,
    ;
}

proof fn lemma_rounded_range(size: int, k: nat)
    requires
        23 < k < 32,
        pow2(k) <= size < 2 * pow2(k),
    ensures
        0x80_0000 <= size / pow2((k - 23) as nat) as int,
        size / pow2((k - 23) as nat) as int <= 0xff_ffff,
        pow2((k - 23) as nat) > 0,
{
    lemma2_to64();
    vstd::arithmetic::power2::lemma_pow2_adds(23, (k - 23) as nat);
    let p = pow2((k - 23) as nat) as int;
    vstd::arithmetic::power2::lemma_pow2_pos((k - 23) as nat);
    assert(0x80_0000 <= size / p <= 0xff_ffff) by (nonlinear_arith)
        requires
            p > 0,
            0x80_0000 * p <= size < 2 * (0x80_0000 * p),
    ;
}

/// The bits of the number of single precision that is nearest to a whole number.
pub fn nearest_bits(n: i64) -> (r: u32)
    requires
        -0x1_0000_0000 < n < 0x1_0000_0000,
    ensures
        r == nearest(n as int),
{
    if n == 0 {
        return 0;
    }
    let size: u64 = if n < 0 {
        (-n) as u64
    } else {
        n as u64
    };
    let k = log_of(size);
    proof {
        lemma_log_two(size as nat);
    }
    let m: u64 = if k <= 23 {
        let p = power_of_two(23 - k);
        proof {
            lemma_sum_of_exponents(size as int, k as nat);
        }
        size * p
    } else {
        let p = power_of_two(k - 23);
        proof {
            lemma_rounded_range(size as int, k as nat);
            let a = size as int;
            let b = p as int;
            assert(0 <= a % b < b) by (nonlinear_arith)
                requires
                    b > 0,
            ;
            lemma2_to64();
            if k - 23 < 32 {
                lemma_pow2_strictly_increases((k - 23) as nat, 32);
            }
        }
        let q: u64 = size / p;
        let rest: u64 = size % p;
        if 2 * rest > p || (2 * rest == p && q % 2 == 1) {
            q + 1
        } else {
            q
        }
    };
    let low: u64 = (k as u64 + 126) * 0x80_0000 + m;
    if n < 0 {
        (low + 0x8000_0000) as u32
    } else {
        low as u32
    }
}

/// Whether two numbers are equal: their bits are the same, or both are a zero, and none is no
/// number.
pub open spec fn equal_numbers(a: u32, b: u32) -> bool {
    !not_a_number(a) && !not_a_number(b) && (a == b || (magnitude(a) == 0 && magnitude(b) == 0))
}

/// Whether two numbers are equal.
pub fn are_equal(a: u32, b: u32) -> (r: bool)
    ensures
        r == equal_numbers(a, b),
{
    let x: u32 = a % 0x8000_0000;
    let y: u32 = b % 0x8000_0000;
    let a_is_none = x / 0x80_0000 == 255 && x % 0x80_0000 != 0;
    let b_is_none = y / 0x80_0000 == 255 && y % 0x80_0000 != 0;
    !a_is_none && !b_is_none && (a == b || (x == 0 && y == 0))
}

/// A whole number of up to twenty-four bits is held exactly.
pub proof fn law_small_whole_numbers_are_exact(n: int)
    requires
        -0x100_0000 < n < 0x100_0000,
    ensures
        0 <= nearest(n) <= u32::MAX,
        whole(nearest(n) as u32) == Some(n),
{
    lemma2_to64();
    if n != 0 {
        let size = if n < 0 {
            -n
        } else {
            n
        };
        lemma_log_two(size as nat);
        let k = log_two(size as nat);
        if k > 23 {
            if k > 24 {
                lemma_pow2_strictly_increases(24, k);
            }
            assert(false);
        }
        lemma_sum_of_exponents(size, k);
        let q = pow2((23 - k) as nat) as int;
        let m = size * q;
        let bits = nearest(n) as u32;
        assert(exponent(bits) == k + 127);
        assert(mantissa(bits) == m - 0x80_0000);
        if k == 23 {
            assert(q == 1);
            assert(size * q == size) by (nonlinear_arith)
                requires
                    q == 1,
            ;
            assert(m * pow2(0) == m) by (nonlinear_arith)
                requires
                    pow2(0) == 1,
            ;
        } else {
            vstd::arithmetic::power2::lemma_pow2_pos((23 - k) as nat);
            assert(m % q == 0 && m / q == size) by (nonlinear_arith)
                requires
                    m == size * q,
                    q > 0,
            ;
        }
    }
}

/// Two numbers are equal exactly when neither is beyond infinity and they have the same bits or both
/// have none but the sign: so a number equals itself, the two zeros are equal, and what is no number
/// equals nothing.
pub proof fn law_numbers_are_equal_by_their_bits(a: u32, b: u32)
    ensures
        a % 0x8000_0000 > 0x7f80_0000 ==> !equal_numbers(a, b) && !equal_numbers(b, a),
        a % 0x8000_0000 <= 0x7f80_0000 ==> equal_numbers(a, a),
        a % 0x8000_0000 <= 0x7f80_0000 && b % 0x8000_0000 <= 0x7f80_0000 ==> (equal_numbers(a, b)
            <==> a == b || (a % 0x8000_0000 == 0 && b % 0x8000_0000 == 0)),
{
}

/// Rounding gives the nearest whole number, and of two that are equally near the even one.
pub proof fn law_rounding_is_to_the_nearest(n: int, p: int)
    requires
        p > 0,
    ensures
        -p <= 2 * (p * rounded(n, p) - n) <= p,
        2 * (p * rounded(n, p) - n) == p || 2 * (n - p * rounded(n, p)) == p ==> rounded(n, p) % 2
            == 0,
{
    let q = n / p;
    let r = n % p;
    vstd::arithmetic::div_mod::lemma_fundamental_div_mod(n, p);
    vstd::arithmetic::div_mod::lemma_mod_bound(n, p);
    assert(n == p * q + r && 0 <= r < p);
    assert(p * (q + 1) == p * q + p) by (nonlinear_arith);
}

/// The exponent of a number is that of the greatest power of two that is not above it.
pub proof fn law_the_exponent_is_the_greatest(n: nat)
    requires
        n > 0,
    ensures
        pow2(log_two(n)) <= n,
        n < pow2(log_two(n) + 1),
    decreases n,
{
    if n == 1 {
        vstd::arithmetic::power2::lemma2_to64();
        assert(log_two(1) == 0);
        assert(log_two(1) + 1 == 1);
    } else {
        law_the_exponent_is_the_greatest(n / 2);
        let k = log_two(n / 2);
        vstd::arithmetic::power2::lemma_pow2_unfold(k + 1);
        vstd::arithmetic::power2::lemma_pow2_unfold(k + 2);
        assert(log_two(n) == k + 1);
        assert(log_two(n) + 1 == k + 2);
        assert(pow2((k + 1) as nat) == 2 * pow2(k));
        assert(pow2((k + 2) as nat) == 2 * pow2((k + 1) as nat));
    }
}

/// A negative number has the bits of the positive one and the sign.
pub proof fn law_the_sign_is_a_bit_of_its_own(n: int)
    requires
        n > 0,
    ensures
        nearest(-n) == nearest(n) + 0x8000_0000,
        nearest(0) == 0,
{
}

} // verus!
