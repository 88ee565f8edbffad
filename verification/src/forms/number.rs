//! Exact comparisons of JSON numbers against integer bounds as `f64`
//! arithmetic performs them: integers rounded to the nearest double (ties to
//! even) and doubles given by their IEEE-754 bits, compared exactly.

use vstd::prelude::*;

verus! {

/// 2 to the power `k`.
pub open spec fn p2(k: nat) -> nat
    decreases k,
{
    if k == 0 {
        1
    } else {
        2 * p2((k - 1) as nat)
    }
}

pub proof fn lemma_p2_mono(a: nat, b: nat)
    requires
        a <= b,
    ensures
        1 <= p2(a) <= p2(b),
    decreases b,
{
    if b > 0 {
        if a < b {
            lemma_p2_mono(a, (b - 1) as nat);
        } else {
            lemma_p2_mono((a - 1) as nat, (b - 1) as nat);
        }
    }
}

/// The powers of two the comparisons below rely on.
pub proof fn lemma_p2_values()
    ensures
        p2(11) == 2048,
        p2(12) == 4096,
        p2(13) == 8192,
        p2(53) == 0x20_0000_0000_0000,
        p2(54) == 0x40_0000_0000_0000,
        p2(63) == 0x8000_0000_0000_0000,
        p2(64) == 0x1_0000_0000_0000_0000,
{
    reveal_with_fuel(p2, 65);
}

/// `p2(k)`, for `k` up to 64.
pub fn p2_exec(k: u32) -> (r: u128)
    requires
        k <= 64,
    ensures
        r == p2(k as nat),
{
    let mut x: u128 = 1;
    let mut i: u32 = 0;
    while i < k
        invariant
            i <= k <= 64,
            x == p2(i as nat),
        decreases k - i,
    {
        proof {
            lemma_p2_mono(i as nat, 63);
            lemma_p2_values();
        }
        x = x * 2;
        i += 1;
    }
    x
}

/// The number of binary digits of `n`.
pub open spec fn bitlen(n: nat) -> nat
    decreases n,
{
    if n == 0 {
        0
    } else {
        1 + bitlen(n / 2)
    }
}

pub proof fn lemma_bitlen(n: nat)
    ensures
        n < p2(bitlen(n)),
        n > 0 ==> p2((bitlen(n) - 1) as nat) <= n,
    decreases n,
{
    if n > 0 {
        lemma_bitlen(n / 2);
        if n / 2 > 0 {
            assert(bitlen(n / 2) >= 1);
        }
    }
}

/// A non-negative integer rounded to the nearest value with 53 significant
/// bits, ties to even.
pub open spec fn round_mag(n: nat) -> nat {
    if n < p2(53) {
        n
    } else {
        let k = (bitlen(n) - 53) as nat;
        let q = n / p2(k);
        let r = n % p2(k);
        let h = p2((k - 1) as nat);
        let q2 = if r > h || (r == h && q % 2 == 1) {
            q + 1
        } else {
            q
        };
        q2 * p2(k)
    }
}

/// An integer as `as f64` rounds it (for magnitudes below 2^64).
pub open spec fn round_f64(n: int) -> int {
    if n < 0 {
        -(round_mag((-n) as nat) as int)
    } else {
        round_mag(n as nat) as int
    }
}

fn bitlen_exec(n: u64) -> (r: u32)
    ensures
        r == bitlen(n as nat),
        r <= 64,
{
    proof {
        lemma_bitlen_u64(n);
    }
    let mut m = n;
    let mut b: u32 = 0;
    while m > 0
        invariant
            bitlen(n as nat) == b + bitlen(m as nat),
            b + bitlen(m as nat) <= 64,
        decreases m,
    {
        m = m / 2;
        b += 1;
    }
    b
}

pub proof fn lemma_bitlen_u64(n: u64)
    ensures
        bitlen(n as nat) <= 64,
{
    lemma_bitlen(n as nat);
    if bitlen(n as nat) > 64 {
        lemma_p2_mono(64, (bitlen(n as nat) - 1) as nat);
        lemma_p2_values();
    }
}

/// `round_mag(n)`.
pub fn round_mag_exec(n: u64) -> (r: u128)
    ensures
        r == round_mag(n as nat),
        r <= 0x1_0000_0000_0000_0800,
{
    proof {
        lemma_p2_values();
    }
    if n < 0x20_0000_0000_0000 {
        return n as u128;
    }
    proof {
        lemma_bitlen_u64(n);
    }
    let b = bitlen_exec(n);
    proof {
        lemma_bitlen(n as nat);
        if b < 54 {
            lemma_p2_mono(b as nat, 53);
        }
    }
    let k = b - 53;
    proof {
        lemma_p2_mono(k as nat, 11);
        lemma_p2_mono(1, k as nat);
        lemma_p2_values();
        assert(p2(k as nat) == 2 * p2((k - 1) as nat));
    }
    let pk = p2_exec(k) as u64;
    let q = n / pk;
    proof {
        assert(q <= n / 2) by (nonlinear_arith)
            requires
                q == n / pk,
                pk >= 2,
        ;
    }
    let r = n % pk;
    let h = pk / 2;
    let q2 = if r > h || (r == h && q % 2 == 1) {
        q + 1
    } else {
        q
    };
    proof {
        assert(q <= n);
        assert(q * pk <= n) by (nonlinear_arith)
            requires
                q == n / pk,
                pk > 0,
        ;
        assert(q2 as int * pk as int <= 0x1_0000_0000_0000_07ff) by (nonlinear_arith)
            requires
                q2 <= q + 1,
                q * pk <= n,
                n <= 0xffff_ffff_ffff_ffff,
                pk <= 2048,
        ;
    }
    (q2 as u128) * (pk as u128)
}

/// `round_f64(n)` for an `i64`.
pub fn round_i64(n: i64) -> (r: i128)
    ensures
        r == round_f64(n as int),
        -0x1_0000_0000_0000_0800 <= r <= 0x1_0000_0000_0000_0800,
{
    if n < 0 {
        let m: u64 = if n == i64::MIN {
            0x8000_0000_0000_0000
        } else {
            (-n) as u64
        };
        -(round_mag_exec(m) as i128)
    } else {
        round_mag_exec(n as u64) as i128
    }
}

/// `round_f64(n)` for a `u64`.
pub fn round_u64(n: u64) -> (r: i128)
    ensures
        r == round_f64(n as int),
        0 <= r <= 0x1_0000_0000_0000_0800,
{
    round_mag_exec(n) as i128
}

// ---------------------------------------------------------------------------
// Doubles
// ---------------------------------------------------------------------------

pub open spec fn fl_neg(b: u64) -> bool {
    b >= 0x8000_0000_0000_0000
}

/// The biased exponent field.
pub open spec fn fl_exp(b: u64) -> nat {
    ((b % 0x8000_0000_0000_0000) / 0x10_0000_0000_0000) as nat
}

/// The significand: the fraction field, with the hidden bit unless subnormal.
pub open spec fn fl_sig(b: u64) -> nat {
    if fl_exp(b) == 0 {
        (b % 0x10_0000_0000_0000) as nat
    } else {
        (b % 0x10_0000_0000_0000) as nat + 0x10_0000_0000_0000
    }
}

/// The power of two the significand is scaled by.
pub open spec fn fl_e2(b: u64) -> int {
    if fl_exp(b) == 0 {
        -1074
    } else {
        fl_exp(b) - 1075
    }
}

pub open spec fn order_int(x: int, y: int) -> int {
    if x < y {
        -1
    } else if x == y {
        0
    } else {
        1
    }
}

/// How the double with bits `b` compares with the integer `m`: -1 below, 0
/// equal, 1 above.
pub open spec fn fl_order(b: u64, m: int) -> int {
    let sv: int = if fl_neg(b) {
        -(fl_sig(b) as int)
    } else {
        fl_sig(b) as int
    };
    if fl_e2(b) >= 0 {
        order_int(sv * p2(fl_e2(b) as nat), m)
    } else {
        order_int(sv, m * p2((-fl_e2(b)) as nat))
    }
}

fn order_i128(x: i128, y: i128) -> (r: i8)
    ensures
        r == order_int(x as int, y as int),
{
    if x < y {
        -1
    } else if x == y {
        0
    } else {
        1
    }
}

/// `fl_order(b, m)` for `m` of magnitude up to 2^64.
pub fn fl_order_exec(b: u64, m: i128) -> (r: i8)
    requires
        -0x1_0000_0000_0000_0800 <= m <= 0x1_0000_0000_0000_0800,
    ensures
        r == fl_order(b, m as int),
{
    let neg = b >= 0x8000_0000_0000_0000;
    let e = (b % 0x8000_0000_0000_0000) / 0x10_0000_0000_0000;
    let man = b % 0x10_0000_0000_0000;
    let sig: u64 = if e == 0 {
        man
    } else {
        man + 0x10_0000_0000_0000
    };
    proof {
        assert(e < 2048);
        assert(sig == fl_sig(b));
        assert(sig < 0x20_0000_0000_0000);
    }
    let sv: i128 = if neg {
        -(sig as i128)
    } else {
        sig as i128
    };
    proof {
        assert(fl_exp(b) == e as nat);
        assert(neg == fl_neg(b));
        assert(sv as int == (if fl_neg(b) {
            -(fl_sig(b) as int)
        } else {
            fl_sig(b) as int
        }));
    }
    if e >= 1075 {
        let e2 = (e - 1075) as u32;
        proof {
            assert(fl_e2(b) == e2);
        }
        if e2 >= 13 {
            proof {
                lemma_p2_mono(13, e2 as nat);
                lemma_p2_values();
                let p = p2(e2 as nat);
                assert(sig * p >= 0x2_0000_0000_0000_0000) by (nonlinear_arith)
                    requires
                        sig >= 0x10_0000_0000_0000,
                        p >= 8192,
                ;
                if neg {
                    assert(sv * p == -(sig * p)) by (nonlinear_arith)
                        requires
                            sv == -(sig as int),
                    ;
                } else {
                    assert(sv * p == sig * p);
                }
            }
            if neg {
                -1
            } else {
                1
            }
        } else {
            let p = p2_exec(e2);
            proof {
                lemma_p2_mono(e2 as nat, 12);
                lemma_p2_values();
                assert(sig as int * p as int <= 0x20_0000_0000_0000 * 4096) by (nonlinear_arith)
                    requires
                        sig < 0x20_0000_0000_0000,
                        p <= 4096,
                ;
            }
            proof {
                assert(-0x4_0000_0000_0000_0000 <= sv * p <= 0x4_0000_0000_0000_0000) by (nonlinear_arith)
                    requires
                        -0x20_0000_0000_0000 < sv < 0x20_0000_0000_0000,
                        0 <= p <= 4096,
                ;
            }
            let x: i128 = sv * (p as i128);
            order_i128(x, m)
        }
    } else {
        let k: u32 = if e == 0 {
            1074
        } else {
            (1075 - e) as u32
        };
        proof {
            assert(fl_e2(b) == -(k as int));
            assert((-fl_e2(b)) as nat == k as nat);
        }
        if m == 0 {
            proof {
                let p = p2(k as nat);
                assert(m * p == 0) by (nonlinear_arith)
                    requires
                        m == 0,
                ;
            }
            return order_i128(sv, 0);
        }
        if k >= 54 {
            proof {
                lemma_p2_mono(54, k as nat);
                lemma_p2_values();
                let p = p2(k as nat);
                assert(-0x20_0000_0000_0000 < sv < 0x20_0000_0000_0000);
                if m > 0 {
                    assert(m * p >= p) by (nonlinear_arith)
                        requires
                            m >= 1,
                            p >= 0,
                    ;
                } else {
                    assert(m * p <= -p) by (nonlinear_arith)
                        requires
                            m <= -1,
                            p >= 0,
                    ;
                }
            }
            if m > 0 {
                -1
            } else {
                1
            }
        } else {
            let p = p2_exec(k);
            proof {
                lemma_p2_mono(k as nat, 53);
                lemma_p2_values();
                assert(-0x2000_0000_0000_0000_0000_0000_0000_0000 <= m * p
                    <= 0x2000_0000_0000_0000_0000_0000_0000_0000) by (nonlinear_arith)
                    requires
                        -0x1_0000_0000_0000_0800 <= m <= 0x1_0000_0000_0000_0800,
                        0 <= p <= 0x20_0000_0000_0000,
                ;
            }
            let y: i128 = m * (p as i128);
            order_i128(sv, y)
        }
    }
}

} // verus!
