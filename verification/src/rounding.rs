//! Rounding as binary64 arithmetic does it, and as a number printed with a fixed
//! count of decimals is rounded, worked out on integers.
//!
//! A binary64 number is held as a fraction whose denominator is a power of two.
use vstd::prelude::*;

verus! {

/// Two to the power `n`.
pub open spec fn exp2(n: nat) -> nat
    decreases n,
{
    if n == 0 {
        1
    } else {
        2 * exp2((n - 1) as nat)
    }
}

/// `p / q`, scaled by 2^k (by 2^-k where `k` is negative), lies in [2^52, 2^53): at
/// that scale its integer part is a significand of 53 bits.
pub open spec fn normal_at(p: nat, q: nat, k: int) -> bool {
    if k >= 0 {
        exp2(52) * q <= p * exp2(k as nat) && p * exp2(k as nat) < exp2(53) * q
    } else {
        exp2(52) * (q * exp2((-k) as nat)) <= p && p < exp2(53) * (q * exp2((-k) as nat))
    }
}

/// The integer nearest to `a / b`, a tie going to the even one.
pub open spec fn round_half_even(a: nat, b: nat) -> nat {
    let d = a / b;
    let r = a % b;
    if 2 * r > b || (2 * r == b && d % 2 == 1) {
        d + 1
    } else {
        d
    }
}

/// The number with a significand of 53 bits that is nearest to `p / q`, a tie going
/// to the even significand (binary64 rounding, for magnitudes of the normal range),
/// as a numerator over a power-of-two denominator.
pub open spec fn nearest_double(p: nat, q: nat) -> (nat, nat) {
    if p == 0 || q == 0 {
        (0, 1)
    } else {
        let k = choose|k: int| normal_at(p, q, k);
        if k >= 0 {
            (round_half_even(p * exp2(k as nat), q), exp2(k as nat))
        } else {
            (round_half_even(p, q * exp2((-k) as nat)) * exp2((-k) as nat), 1)
        }
    }
}

proof fn lemma_exp2_add(a: nat, b: nat)
    ensures
        exp2(a + b) == exp2(a) * exp2(b),
    decreases a,
{
    if a > 0 {
        let a1 = (a - 1) as nat;
        lemma_exp2_add(a1, b);
        let x = exp2(a1);
        let y = exp2(b);
        assert(exp2(a) == 2 * x);
        assert(a + b == (a1 + b) + 1);
        assert(exp2(a1 + b + 1) == 2 * exp2(a1 + b));
        assert(2 * (x * y) == (2 * x) * y) by (nonlinear_arith);
    } else {
        assert(exp2(0) == 1);
        assert(a + b == b);
    }
}

proof fn lemma_exp2_ge_one(n: nat)
    ensures
        exp2(n) >= 1,
    decreases n,
{
    if n > 0 {
        lemma_exp2_ge_one((n - 1) as nat);
    }
}

pub proof fn lemma_exp2_values()
    ensures
        exp2(52) == 0x10_0000_0000_0000,
        exp2(53) == 0x20_0000_0000_0000,
{
    reveal_with_fuel(exp2, 54);
}

/// Two scales of a fraction differ by at least a factor of two, so at most one of
/// them gives a 53-bit significand.
proof fn lemma_normal_unique(p: nat, q: nat, j: int, k: int)
    requires
        normal_at(p, q, j),
        normal_at(p, q, k),
    ensures
        j == k,
{
    if j != k {
        let (lo, hi) = if j < k {
            (j, k)
        } else {
            (k, j)
        };
        let d = (hi - lo) as nat;
        let e52 = exp2(52);
        assert(exp2(53) == 2 * e52);
        assert(exp2(d) >= 2) by {
            lemma_exp2_ge_one((d - 1) as nat);
        }
        if lo >= 0 {
            lemma_exp2_add(lo as nat, d);
            assert((lo as nat + d) == hi as nat);
            let a = exp2(lo as nat);
            let c = exp2(d);
            assert(p * (a * c) >= 2 * (p * a)) by (nonlinear_arith)
                requires
                    c >= 2,
            ;
            assert(exp2(53) * q == 2 * (e52 * q)) by (nonlinear_arith)
                requires
                    exp2(53) == 2 * e52,
            ;
            assert(false);
        } else if hi < 0 {
            let ha = (-hi) as nat;
            lemma_exp2_add(ha, d);
            assert(ha + d == (-lo) as nat);
            let a = exp2(ha);
            let c = exp2(d);
            assert(e52 * (q * (a * c)) >= 2 * (e52 * (q * a))) by (nonlinear_arith)
                requires
                    c >= 2,
            ;
            assert(exp2(53) * (q * a) == 2 * (e52 * (q * a))) by (nonlinear_arith)
                requires
                    exp2(53) == 2 * e52,
            ;
            assert(false);
        } else {
            let la = (-lo) as nat;
            assert(exp2(la) >= 2) by {
                lemma_exp2_ge_one((la - 1) as nat);
            }
            let b = exp2(hi as nat);
            lemma_exp2_ge_one(hi as nat);
            let a = exp2(la);
            assert(e52 * (q * a) >= 2 * (e52 * q)) by (nonlinear_arith)
                requires
                    a >= 2,
            ;
            assert(p * b >= p) by (nonlinear_arith)
                requires
                    b >= 1,
            ;
            assert(exp2(53) * q == 2 * (e52 * q)) by (nonlinear_arith)
                requires
                    exp2(53) == 2 * e52,
            ;
            assert(false);
        }
    }
}

/// The integer nearest to `a / b`, a tie going to the even one.
pub fn round_half_even_exec(a: u128, b: u128) -> (r: u128)
    requires
        b > 0,
        a <= 0x8000_0000_0000_0000_0000_0000_0000_0000u128,
    ensures
        r == round_half_even(a as nat, b as nat),
{
    let d = a / b;
    let r = a % b;
    proof {
        assert(a / b <= a) by (nonlinear_arith)
            requires
                b >= 1,
        ;
    }
    if r > b - r || (r == b - r && d % 2 == 1) {
        d + 1
    } else {
        d
    }
}

pub proof fn lemma_round_bounds(a: nat, b: nat, lo: nat, hi: nat)
    requires
        b > 0,
        lo * b <= a,
        a < hi * b,
    ensures
        lo <= round_half_even(a, b) <= hi,
{
    let d = a / b;
    vstd::arithmetic::div_mod::lemma_fundamental_div_mod(a as int, b as int);
    let m = a % b;
    assert(lo <= d) by (nonlinear_arith)
        requires
            lo * b <= a,
            a == b * d + m,
            m < b,
            b > 0,
    ;
    assert(d < hi) by (nonlinear_arith)
        requires
            a < hi * b,
            a == b * d + m,
            m >= 0,
            b > 0,
    ;
}

/// The binary64 number nearest to `p / q`, as `nearest_double` says.
pub fn nearest_double_exec(p: u128, q: u128) -> (r: (u128, u128))
    requires
        p <= 0x4_0000_0000_0000_0000u128,
        1 <= q <= 0x400_0000_0000_0000_0000u128,
    ensures
        r.0 as nat == nearest_double(p as nat, q as nat).0,
        r.1 as nat == nearest_double(p as nat, q as nat).1,
        r.1 >= 1,
        p > 0 ==> r.0 >= exp2(52),
        r.1 == 1 || (r.1 as nat) * (p as nat) < exp2(53) * (q as nat),
        r.0 <= exp2(53) || (r.1 == 1 && (r.0 as nat) * (q as nat) <= 2 * (p as nat)),
{
    if p == 0 {
        return (0, 1);
    }
    proof {
        lemma_exp2_values();
    }
    let two52: u128 = 0x10_0000_0000_0000;
    let two53: u128 = 0x20_0000_0000_0000;
    proof {
        assert(exp2(0) == 1);
        assert(two52 * q <= 0x4000_0000_0000_0000_0000_0000_0000_0000u128) by (nonlinear_arith)
            requires
                two52 == 0x10_0000_0000_0000u128,
                q <= 0x400_0000_0000_0000_0000u128,
        ;
    }
    let lim52 = two52 * q;
    let lim53 = 2 * lim52;
    proof {
        assert(lim53 == two53 * q) by (nonlinear_arith)
            requires
                lim52 == two52 * q,
                lim53 == 2 * lim52,
                two53 == 2 * two52,
        ;
    }
    if p < lim52 {
        let mut a: u128 = p;
        let mut pw: u128 = 1;
        let ghost mut s: nat = 0;
        while a < lim52
            invariant
                1 <= p,
                1 <= q <= 0x400_0000_0000_0000_0000u128,
                two52 == exp2(52),
                two53 == exp2(53),
                lim52 == two52 * q,
                lim53 == two53 * q,
                lim53 == 2 * lim52,
                lim52 <= 0x4000_0000_0000_0000_0000_0000_0000_0000u128,
                a == p * exp2(s),
                pw == exp2(s),
                1 <= pw <= a,
                a < lim53,
            decreases lim53 - a,
        {
            proof {
                assert(exp2(s + 1) == 2 * exp2(s));
                assert(p * (2 * exp2(s)) == 2 * (p * exp2(s))) by (nonlinear_arith);
            }
            a = 2 * a;
            pw = 2 * pw;
            proof {
                s = s + 1;
            }
        }
        proof {
            assert(normal_at(p as nat, q as nat, s as int));
            let k = choose|k: int| normal_at(p as nat, q as nat, k);
            lemma_normal_unique(p as nat, q as nat, k, s as int);
            lemma_round_bounds(a as nat, q as nat, exp2(52), exp2(53));
        }
        let m = round_half_even_exec(a, q);
        proof {
            assert((pw as nat) * (p as nat) == a as nat) by (nonlinear_arith)
                requires
                    a == p * exp2(s),
                    pw == exp2(s),
            ;
        }
        (m, pw)
    } else if p >= lim53 {
        let mut b: u128 = q;
        let mut pw: u128 = 1;
        let ghost mut t: nat = 0;
        while p >= 2 * (two52 * b)
            invariant
                p <= 0x4_0000_0000_0000_0000u128,
                1 <= q,
                two52 == exp2(52),
                two52 == 0x10_0000_0000_0000u128,
                two53 == exp2(53),
                two53 == 2 * two52,
                b == q * exp2(t),
                pw == exp2(t),
                1 <= pw <= b,
                two52 * b <= p,
            decreases p - two52 * b,
        {
            proof {
                assert(exp2(t + 1) == 2 * exp2(t));
                assert(q * (2 * exp2(t)) == 2 * (q * exp2(t))) by (nonlinear_arith);
                assert(two52 * (2 * b) == 2 * (two52 * b)) by (nonlinear_arith);
                assert(two52 * b >= 1) by (nonlinear_arith)
                    requires
                        two52 >= 1,
                        b >= 1,
                ;
                assert(b <= 0x4000) by (nonlinear_arith)
                    requires
                        two52 * b <= p,
                        p <= 0x4_0000_0000_0000_0000u128,
                        two52 == 0x10_0000_0000_0000u128,
                ;
            }
            b = 2 * b;
            pw = 2 * pw;
            proof {
                t = t + 1;
            }
        }
        proof {
            assert(two53 * b == 2 * (two52 * b)) by (nonlinear_arith)
                requires
                    two53 == 2 * two52,
            ;
        }
        proof {
            assert(t > 0);
            assert(normal_at(p as nat, q as nat, -(t as int)));
            let k = choose|k: int| normal_at(p as nat, q as nat, k);
            lemma_normal_unique(p as nat, q as nat, k, -(t as int));
            lemma_round_bounds(p as nat, b as nat, exp2(52), exp2(53));
            assert((pw as nat) * (two52 as nat) * (q as nat) <= p) by (nonlinear_arith)
                requires
                    b == q * pw,
                    two52 * b <= p,
            ;
            assert(pw * two52 <= p) by (nonlinear_arith)
                requires
                    (pw as nat) * (two52 as nat) * (q as nat) <= p,
                    q >= 1,
            ;
        }
        let m = round_half_even_exec(p, b);
        proof {
            assert((m as nat) * (pw as nat) >= m) by (nonlinear_arith)
                requires
                    pw >= 1,
            ;
            assert((m as nat) * (pw as nat) <= exp2(53) * (pw as nat)) by (nonlinear_arith)
                requires
                    m <= exp2(53),
            ;
            assert((m as nat) * (pw as nat) * (q as nat) <= 2 * (p as nat)) by (nonlinear_arith)
                requires
                    m <= two53,
                    two53 == 2 * two52,
                    (pw as nat) * (two52 as nat) * (q as nat) <= p,
            ;
        }
        (m * pw, 1)
    } else {
        proof {
            assert(exp2(0) == 1);
            assert(p * exp2(0) == p);
            assert(exp2(52) * q == lim52);
            assert(exp2(53) * q == lim53);
            assert(normal_at(p as nat, q as nat, 0));
            let k = choose|k: int| normal_at(p as nat, q as nat, k);
            lemma_normal_unique(p as nat, q as nat, k, 0);
            lemma_round_bounds(p as nat, q as nat, exp2(52), exp2(53));
        }
        let m = round_half_even_exec(p, q);
        (m, 1)
    }
}

} // verus!
