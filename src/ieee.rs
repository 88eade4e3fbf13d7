//! Exact conversions between signed 64-bit integers and IEEE-754 doubles,
//! with doubles given as their bit patterns.
//!
//! A conversion succeeds only when it loses nothing: a double converts to an
//! integer when it is finite, integral and in range; an integer converts to a
//! double when a double holds it exactly.

use vstd::prelude::*;
use vstd::arithmetic::power2::{
    lemma2_to64, lemma2_to64_rest, lemma_pow2_adds, lemma_pow2_pos, lemma_pow2_strictly_increases, lemma_pow2_unfold,
    pow2,
};
use vstd::arithmetic::div_mod::{lemma_fundamental_div_mod_converse, lemma_small_mod};

verus! {

/// 2 to the 52nd: the weight of the implicit leading bit of a normal double.
pub const HIDDEN_BIT: u64 = 4503599627370496;

/// 2 to the 63rd: the sign bit of a double.
pub const SIGN_BIT: u64 = 9223372036854775808;

/// Whether the sign bit of `b` is set.
pub open spec fn is_negative(b: u64) -> bool {
    b >= SIGN_BIT
}

/// The biased exponent field of `b`.
pub open spec fn exponent(b: u64) -> nat {
    ((b / HIDDEN_BIT) % 2048) as nat
}

/// The fraction field of `b`.
pub open spec fn fraction(b: u64) -> nat {
    (b % HIDDEN_BIT) as nat
}

/// The significand of `b`: the fraction, with the leading bit of a normal
/// number.
pub open spec fn significand(b: u64) -> nat {
    if exponent(b) == 0 {
        fraction(b)
    } else {
        (fraction(b) + HIDDEN_BIT) as nat
    }
}

/// The magnitude `mag` with the sign of `b`.
pub open spec fn with_sign(b: u64, mag: nat) -> int {
    if is_negative(b) {
        -mag
    } else {
        mag as int
    }
}

/// The integer that the double `b` stands for, if it is finite and integral.
/// Its magnitude is the significand times 2 to the power of the biased
/// exponent less 1075 (1074 for subnormals).
pub open spec fn integer_value(b: u64) -> Option<int> {
    let e = exponent(b);
    let m = significand(b);
    if e == 2047 {
        None
    } else if e >= 1075 {
        Some(with_sign(b, m * pow2((e - 1075) as nat)))
    } else {
        let d: nat = if e == 0 {
            1074
        } else {
            (1075 - e) as nat
        };
        if m % pow2(d) == 0 {
            Some(with_sign(b, m / pow2(d)))
        } else {
            None
        }
    }
}

/// The double `b` as a signed 64-bit integer, where it is one exactly.
pub open spec fn double_to_i64(b: u64) -> Option<i64> {
    match integer_value(b) {
        Some(x) => if i64::MIN <= x <= i64::MAX {
            Some(x as i64)
        } else {
            None
        },
        None => None,
    }
}

/// The position of the highest set bit of `a`, for `a` at least one.
pub open spec fn log2(a: nat) -> nat
    decreases a,
{
    if a < 2 {
        0
    } else {
        1 + log2(a / 2)
    }
}

/// The bit pattern of the double equal to `v`, if a double holds `v` exactly.
/// A nonzero magnitude `a` whose highest set bit is `p` has the biased
/// exponent `p + 1023`, and its fraction is `a` scaled to 53 bits less the
/// leading bit; scaling down must drop only zero bits. Zero becomes +0.0.
pub open spec fn i64_to_double(v: i64) -> Option<u64> {
    if v == 0 {
        Some(0)
    } else {
        let a: nat = if v < 0 {
            (-v) as nat
        } else {
            v as nat
        };
        let p = log2(a);
        let sign: nat = if v < 0 {
            SIGN_BIT as nat
        } else {
            0
        };
        if p <= 52 {
            Some((sign + (p + 1023) * HIDDEN_BIT + (a * pow2((52 - p) as nat) - HIDDEN_BIT)) as u64)
        } else if a % pow2((p - 52) as nat) == 0 {
            Some((sign + (p + 1023) * HIDDEN_BIT + (a / pow2((p - 52) as nat) - HIDDEN_BIT)) as u64)
        } else {
            None
        }
    }
}

/// The highest set bit of `a` lies at `log2(a)`.
proof fn lemma_log2_bounds(a: nat)
    requires
        a >= 1,
    ensures
        pow2(log2(a)) <= a < pow2(log2(a) + 1),
    decreases a,
{
    lemma2_to64();
    if a >= 2 {
        let l = log2(a / 2);
        lemma_log2_bounds(a / 2);
        lemma_pow2_unfold(l + 1);
        lemma_pow2_unfold(l + 2);
    }
}

/// The fields of the pattern built from a sign bit, a biased exponent below
/// 2048 and a fraction below 2 to the 52nd are those three.
proof fn lemma_fields(neg: bool, e: nat, f: nat)
    requires
        e < 2048,
        f < HIDDEN_BIT,
    ensures
        ({
            let b = ((if neg { SIGN_BIT as nat } else { 0 }) + e * HIDDEN_BIT + f) as u64;
            &&& exponent(b) == e
            &&& fraction(b) == f
            &&& is_negative(b) == neg
        }),
{
    let s: nat = if neg {
        1
    } else {
        0
    };
    let x: int = (if neg { SIGN_BIT as nat } else { 0 }) + e * HIDDEN_BIT + f;
    assert(x == (s * 2048 + e) * HIDDEN_BIT + f) by (nonlinear_arith)
        requires
            x == (if neg { SIGN_BIT as nat } else { 0 }) + e * HIDDEN_BIT + f,
            s == (if neg { 1nat } else { 0 }),
    ;
    assert(e * HIDDEN_BIT + f < SIGN_BIT) by (nonlinear_arith)
        requires
            e < 2048,
            f < HIDDEN_BIT,
    ;
    lemma_fundamental_div_mod_converse(x, HIDDEN_BIT as int, (s * 2048 + e) as int, f as int);
    lemma_fundamental_div_mod_converse((s * 2048 + e) as int, 2048, s as int, e as int);
}

/// An integer that a double holds exactly converts to that double and back
/// to itself.
pub proof fn lemma_i64_double_round_trip(v: i64)
    requires
        i64_to_double(v) is Some,
    ensures
        double_to_i64(i64_to_double(v)->Some_0) == Some(v),
{
    lemma2_to64();
    lemma2_to64_rest();
    let b = i64_to_double(v)->Some_0;
    if v == 0 {
        assert(exponent(b) == 0 && fraction(b) == 0 && !is_negative(b));
        lemma_pow2_pos(1074);
        lemma_small_mod(0, pow2(1074));
        assert(0nat / pow2(1074) == 0) by (nonlinear_arith)
            requires
                pow2(1074) > 0,
        ;
        return;
    }
    let a: nat = if v < 0 {
        (-v) as nat
    } else {
        v as nat
    };
    let p = log2(a);
    lemma_log2_bounds(a);
    if p > 63 {
        lemma_pow2_strictly_increases(63, p);
    }
    assert(p <= 63);
    if p <= 52 {
        let q = pow2((52 - p) as nat);
        lemma_pow2_adds(p, (52 - p) as nat);
        lemma_pow2_adds(p + 1, (52 - p) as nat);
        let k = a * q;
        assert(pow2(p) * q <= k < pow2(p + 1) * q) by (nonlinear_arith)
            requires
                pow2(p) <= a < pow2(p + 1),
                q >= 1,
                k == a * q,
        ;
        assert(pow2(52) == HIDDEN_BIT && pow2(53) == 2 * HIDDEN_BIT);
        assert(HIDDEN_BIT <= k < 2 * HIDDEN_BIT);
        lemma_fields(v < 0, p + 1023, (k - HIDDEN_BIT) as nat);
        assert(b == ((if v < 0 {
            SIGN_BIT as nat
        } else {
            0
        }) + (p + 1023) * HIDDEN_BIT + ((k - HIDDEN_BIT) as nat)) as u64);
        assert(significand(b) == k);
        if p == 52 {
            assert((52 - p) as nat == 0nat);
            assert(q == pow2(0));
            assert(q == 1);
            assert(k == a) by (nonlinear_arith)
                requires
                    k == a * q,
                    q == 1,
            ;
            assert(k * pow2(0) == a);
        } else {
            lemma_pow2_pos((52 - p) as nat);
            lemma_fundamental_div_mod_converse(k as int, q as int, a as int, 0);
        }
    } else {
        let q = pow2((p - 52) as nat);
        lemma_pow2_pos((p - 52) as nat);
        lemma_pow2_adds(52, (p - 52) as nat);
        lemma_pow2_adds(53, (p - 52) as nat);
        let k = a / q;
        assert(a == q * k) by (nonlinear_arith)
            requires
                a % q == 0,
                q >= 1,
                k == a / q,
        ;
        assert(HIDDEN_BIT <= k < 2 * HIDDEN_BIT) by (nonlinear_arith)
            requires
                HIDDEN_BIT * q <= q * k < 2 * HIDDEN_BIT * q,
                q >= 1,
        ;
        assert(pow2(52) == HIDDEN_BIT && pow2(53) == 2 * HIDDEN_BIT);
        assert(HIDDEN_BIT <= k < 2 * HIDDEN_BIT);
        lemma_fields(v < 0, p + 1023, (k - HIDDEN_BIT) as nat);
        assert(b == ((if v < 0 {
            SIGN_BIT as nat
        } else {
            0
        }) + (p + 1023) * HIDDEN_BIT + ((k - HIDDEN_BIT) as nat)) as u64);
        assert(significand(b) == k);
        assert(k * q == a) by (nonlinear_arith)
            requires
                a == q * k,
        ;
    }
}

/// 2 to the power `n`, for `n` below 64.
fn pow2_u64(n: u64) -> (r: u64)
    requires
        n < 64,
    ensures
        r == pow2(n as nat),
{
    proof {
        lemma2_to64();
        lemma2_to64_rest();
    }
    let mut r: u64 = 1;
    let mut i: u64 = 0;
    while i < n
        invariant
            i <= n < 64,
            r == pow2(i as nat),
        decreases n - i,
    {
        proof {
            lemma2_to64();
        lemma2_to64_rest();
            lemma_pow2_strictly_increases(i as nat, 63);
            lemma_pow2_unfold((i + 1) as nat);
        }
        r = r * 2;
        i = i + 1;
    }
    r
}

/// The double whose bit pattern is `b`, as a signed 64-bit integer: `None`
/// when it is infinite, not a number, not integral or out of range.
pub fn f64_bits_to_i64(b: u64) -> (r: Option<i64>)
    ensures
        r == double_to_i64(b),
{
    proof {
        lemma2_to64();
        lemma2_to64_rest();
    }
    let neg = b >= SIGN_BIT;
    let e = (b / HIDDEN_BIT) % 2048;
    let frac = b % HIDDEN_BIT;
    if e == 2047 {
        return None;
    }
    let m = if e == 0 {
        frac
    } else {
        frac + HIDDEN_BIT
    };
    assert(m == significand(b));
    assert(e == exponent(b));
    assert(neg == is_negative(b));
    assert(m < 2 * HIDDEN_BIT);
    if e >= 1075 {
        let sh = e - 1075;
        if sh >= 11 {
            proof {
                let q = pow2(sh as nat);
                if sh > 12 {
                    lemma_pow2_strictly_increases(12, sh as nat);
                }
                if sh > 11 {
                    lemma_pow2_strictly_increases(11, sh as nat);
                }
                assert(q >= 2048);
                assert(m * q >= HIDDEN_BIT * 2048) by (nonlinear_arith)
                    requires
                        m >= HIDDEN_BIT,
                        q >= 2048,
                ;
                if sh > 11 {
                    assert(m * q >= HIDDEN_BIT * 4096) by (nonlinear_arith)
                        requires
                            m >= HIDDEN_BIT,
                            q >= 4096,
                    ;
                } else if m > HIDDEN_BIT {
                    assert(m * q > HIDDEN_BIT * 2048) by (nonlinear_arith)
                        requires
                            m > HIDDEN_BIT,
                            q == 2048,
                    ;
                }
            }
            if sh == 11 && m == HIDDEN_BIT && neg {
                Some(i64::MIN)
            } else {
                None
            }
        } else {
            let p = pow2_u64(sh);
            proof {
                if sh < 10 {
                    lemma_pow2_strictly_increases(sh as nat, 10);
                }
                assert(m * p < 2 * HIDDEN_BIT * 1024) by (nonlinear_arith)
                    requires
                        m < 2 * HIDDEN_BIT,
                        1 <= p <= 1024,
                ;
            }
            let mag = m * p;
            assert(integer_value(b) == Some(if neg { -(mag as int) } else { mag as int }));
            if neg {
                Some(-(mag as i64))
            } else {
                Some(mag as i64)
            }
        }
    } else {
        let d = if e == 0 {
            1074
        } else {
            1075 - e
        };
        if d >= 54 {
            proof {
                lemma_pow2_strictly_increases(53, d as nat);
                assert(pow2(53) == 2 * HIDDEN_BIT);
                lemma_small_mod(m as nat, pow2(d as nat));
                assert(m as nat / pow2(d as nat) == 0) by (nonlinear_arith)
                    requires
                        m < pow2(d as nat),
                ;
            }
            if m == 0 {
                Some(0)
            } else {
                None
            }
        } else {
            let p = pow2_u64(d);
            proof {
                lemma_pow2_pos(d as nat);
                assert(m / p <= m) by (nonlinear_arith)
                    requires
                        p >= 1,
                ;
            }
            if m % p == 0 {
                let mag = m / p;
                assert(integer_value(b) == Some(if neg { -(mag as int) } else { mag as int }));
                if neg {
                    Some(-(mag as i64))
                } else {
                    Some(mag as i64)
                }
            } else {
                None
            }
        }
    }
}

/// The bit pattern of the double equal to `v`: `None` when no double holds
/// `v` exactly.
pub fn i64_to_f64_bits(v: i64) -> (r: Option<u64>)
    ensures
        r == i64_to_double(v),
{
    if v == 0 {
        return Some(0);
    }
    proof {
        lemma2_to64();
        lemma2_to64_rest();
    }
    let a: u64 = if v == i64::MIN {
        SIGN_BIT
    } else if v < 0 {
        (-v) as u64
    } else {
        v as u64
    };
    let ghost an = a as nat;
    proof {
        lemma_log2_bounds(an);
        if log2(an) >= 64 {
            if log2(an) > 64 {
                lemma_pow2_strictly_increases(64, log2(an));
            }
        }
    }
    let mut t: u64 = a;
    let mut p: u64 = 0;
    while t >= 2
        invariant
            1 <= t,
            log2(an) == p + log2(t as nat),
            log2(an) <= 63,
        decreases t,
    {
        t = t / 2;
        p = p + 1;
    }
    let sign: u64 = if v < 0 {
        SIGN_BIT
    } else {
        0
    };
    assert((p + 1023) * HIDDEN_BIT + HIDDEN_BIT <= SIGN_BIT) by (nonlinear_arith)
        requires
            p <= 63,
    ;
    if p <= 52 {
        let q = pow2_u64(52 - p);
        proof {
            lemma_pow2_adds(p as nat, (52 - p) as nat);
            lemma_pow2_adds((p + 1) as nat, (52 - p) as nat);
            let lo = pow2(p as nat);
            let hi = pow2((p + 1) as nat);
            assert(lo * q <= a * q < hi * q) by (nonlinear_arith)
                requires
                    lo <= a < hi,
                    q >= 1,
            ;
        }
        let f = a * q - HIDDEN_BIT;
        Some(sign + (p + 1023) * HIDDEN_BIT + f)
    } else {
        let q = pow2_u64(p - 52);
        if a % q != 0 {
            return None;
        }
        proof {
            lemma_pow2_adds(52, (p - 52) as nat);
            lemma_pow2_adds(53, (p - 52) as nat);
            let lo = pow2(p as nat);
            let hi = pow2((p + 1) as nat);
            let k = a / q;
            assert(a == q * k) by (nonlinear_arith)
                requires
                    a % q == 0,
                    q >= 1,
                    k == a / q,
            ;
            assert(HIDDEN_BIT <= k < 2 * HIDDEN_BIT) by (nonlinear_arith)
                requires
                    HIDDEN_BIT * q <= q * k < 2 * HIDDEN_BIT * q,
                    q >= 1,
            ;
        }
        let f = a / q - HIDDEN_BIT;
        Some(sign + (p + 1023) * HIDDEN_BIT + f)
    }
}

} // verus!
