//! Saturating and double-width integer arithmetic shared by the
//! accounting and sortition code.
use vstd::prelude::*;

verus! {

/// `a - b`, or 0 where that is negative.
pub open spec fn sat_sub(a: int, b: int) -> int {
    if a < b { 0 } else { a - b }
}

/// `a * b`, or `u128::MAX` where that does not fit.
pub open spec fn sat_mul(a: u128, b: u128) -> int {
    if a * b > u128::MAX { u128::MAX as int } else { a * b }
}

/// `a * b` saturating at `u128::MAX`.
pub fn saturating_mul_u128(a: u128, b: u128) -> (r: u128)
    ensures
        r == sat_mul(a, b),
{
    match a.checked_mul(b) {
        Some(p) => p,
        None => u128::MAX,
    }
}


/// 2^64, the base of a 128-bit number's two halves.
pub const HALF_BASE: u128 = 0x1_0000_0000_0000_0000;

/// The value of a 256-bit number given as its high and low 128-bit halves.
pub open spec fn wide(hi: u128, lo: u128) -> int {
    hi * 0x1_0000_0000_0000_0000_0000_0000_0000_0000int + lo
}

proof fn lemma_split(x: u128)
    ensures
        x == (x / HALF_BASE) * HALF_BASE + x % HALF_BASE,
        x / HALF_BASE < HALF_BASE,
        x % HALF_BASE < HALF_BASE,
{
    vstd::arithmetic::div_mod::lemma_fundamental_div_mod(x as int, HALF_BASE as int);
    vstd::arithmetic::div_mod::lemma_mod_pos_bound(x as int, HALF_BASE as int);
    assert(x / HALF_BASE < HALF_BASE) by (nonlinear_arith)
        requires
            x == (x / HALF_BASE) * HALF_BASE + x % HALF_BASE,
            0 <= x % HALF_BASE,
            x <= u128::MAX,
            HALF_BASE == 0x1_0000_0000_0000_0000u128;
}

/// The full 256-bit product of two 128-bit numbers, as high and low
/// halves.
pub fn mul_wide(a: u128, b: u128) -> (r: (u128, u128))
    ensures
        wide(r.0, r.1) == a * b,
{
    let a1 = a / HALF_BASE;
    let a0 = a % HALF_BASE;
    let b1 = b / HALF_BASE;
    let b0 = b % HALF_BASE;
    proof {
        lemma_split(a);
        lemma_split(b);
    }
    assert(a0 * b0 < 0x1_0000_0000_0000_0000_0000_0000_0000_0000int && a0 * b1 < 0x1_0000_0000_0000_0000_0000_0000_0000_0000int
        && a1 * b0 < 0x1_0000_0000_0000_0000_0000_0000_0000_0000int && a1 * b1 < 0x1_0000_0000_0000_0000_0000_0000_0000_0000int)
        by (nonlinear_arith)
        requires
            0 <= a0 < 0x1_0000_0000_0000_0000int, 0 <= a1 < 0x1_0000_0000_0000_0000int,
            0 <= b0 < 0x1_0000_0000_0000_0000int, 0 <= b1 < 0x1_0000_0000_0000_0000int;
    let p00 = a0 * b0;
    let p01 = a0 * b1;
    let p10 = a1 * b0;
    let p11 = a1 * b1;
    proof {
        lemma_split(p00);
        lemma_split(p01);
        lemma_split(p10);
    }
    let t = p00 / HALF_BASE + p01 % HALF_BASE + p10 % HALF_BASE;
    proof {
        lemma_split(t);
    }
    let lo = p00 % HALF_BASE + (t % HALF_BASE) * HALF_BASE;
    let ghost m = 0x1_0000_0000_0000_0000int;
    assert(a * b == p11 * (m * m) + p01 * m + p10 * m + p00) by (nonlinear_arith)
        requires
            a == a1 * m + a0, b == b1 * m + b0,
            p00 == a0 * b0, p01 == a0 * b1, p10 == a1 * b0, p11 == a1 * b1;
    let ghost h: int = p11 + p01 / HALF_BASE + p10 / HALF_BASE + t / HALF_BASE;
    assert(a * b == h * (m * m) + lo) by (nonlinear_arith)
        requires
            a * b == p11 * (m * m) + p01 * m + p10 * m + p00,
            p00 == (p00 / HALF_BASE) * m + p00 % HALF_BASE,
            p01 == (p01 / HALF_BASE) * m + p01 % HALF_BASE,
            p10 == (p10 / HALF_BASE) * m + p10 % HALF_BASE,
            t == p00 / HALF_BASE + p01 % HALF_BASE + p10 % HALF_BASE,
            t == (t / HALF_BASE) * m + t % HALF_BASE,
            lo == p00 % HALF_BASE + (t % HALF_BASE) * m,
            h == p11 + p01 / HALF_BASE + p10 / HALF_BASE + t / HALF_BASE;
    assert(h <= u128::MAX) by (nonlinear_arith)
        requires
            a * b == h * (m * m) + lo,
            lo >= 0,
            a <= u128::MAX, b <= u128::MAX,
            m == 0x1_0000_0000_0000_0000int;
    let hi = p11 + p01 / HALF_BASE + p10 / HALF_BASE + t / HALF_BASE;
    (hi, lo)
}

/// Whether one 256-bit number is at most another, by halves.
pub fn wide_le(x: (u128, u128), y: (u128, u128)) -> (r: bool)
    ensures
        r == (wide(x.0, x.1) <= wide(y.0, y.1)),
{
    x.0 < y.0 || (x.0 == y.0 && x.1 <= y.1)
}


proof fn lemma_quotient_at_most(x: int, c: int, a: int, b: int, r: int)
    requires
        x * c + r <= a * b,
        r >= 0,
        0 <= b <= c,
        c > 0,
        a >= 0,
    ensures
        x <= a,
{
    assert(x <= a) by (nonlinear_arith)
        requires
            x * c + r <= a * b,
            r >= 0,
            0 <= b <= c,
            c > 0,
            a >= 0;
}

/// `a * b / c` rounded down, for a fraction `b / c` of at most one: the
/// product is divided as it is built up bit by bit from `b`, so nothing
/// wider than 128 bits is formed.
pub fn mul_div_floor(a: u128, b: u128, c: u128) -> (r: u128)
    requires
        0 < c,
        b <= c,
    ensures
        r == (a * b) / (c as int),
        r <= a,
{
    let mut q: u128 = 0;
    let mut rem: u128 = 0;
    let mut qm: u128 = a / c;
    let mut rm: u128 = a % c;
    let mut x: u128 = b;
    let ghost mut seen: int = 0;
    let ghost mut p2: int = 1;
    proof {
        vstd::arithmetic::div_mod::lemma_fundamental_div_mod(a as int, c as int);
        vstd::arithmetic::div_mod::lemma_mod_pos_bound(a as int, c as int);
        assert(a * p2 == qm * c + rm) by (nonlinear_arith)
            requires a == c * (a / c) + a % c, qm == a / c, rm == a % c, p2 == 1;
    }
    while x > 0
        invariant
            0 < c,
            b <= c,
            p2 >= 1,
            seen >= 0,
            seen + x * p2 == b,
            a * seen == q * c + rem,
            rem < c,
            a * p2 == qm * c + rm,
            rm < c,
        decreases x,
    {
        let bit = x % 2;
        let ghost old_seen = seen;
        if bit == 1 {
            assert(old_seen + p2 <= b) by (nonlinear_arith)
                requires old_seen + x * p2 == b, x >= 1, p2 >= 1;
            assert(a * (old_seen + p2) == (q + qm) * c + rem + rm) by (nonlinear_arith)
                requires a * old_seen == q * c + rem, a * p2 == qm * c + rm;
            assert(a * (old_seen + p2) <= a * b) by (nonlinear_arith)
                requires old_seen + p2 <= b, a >= 0;
            if rem >= c - rm {
                assert((q + qm + 1) * c + (rem + rm - c) == (q + qm) * c + rem + rm) by (nonlinear_arith);
                proof { lemma_quotient_at_most(q + qm + 1, c as int, a as int, b as int, rem + rm - c); }
                rem = rem - (c - rm);
                q = q + qm + 1;
            } else {
                proof { lemma_quotient_at_most(q + qm, c as int, a as int, b as int, rem + rm); }
                rem = rem + rm;
                q = q + qm;
            }
            proof { seen = old_seen + p2; }
        }
        assert(x == 2 * (x / 2) + bit);
        x = x / 2;
        if x > 0 {
            let ghost old_p2 = p2;
            assert(seen + x * (2 * old_p2) == b) by (nonlinear_arith)
                requires
                    old_seen + (2 * x + bit) * old_p2 == b,
                    bit == 1 ==> seen == old_seen + old_p2,
                    bit == 0 ==> seen == old_seen,
                    bit == 0 || bit == 1;
            assert(2 * old_p2 <= b) by (nonlinear_arith)
                requires seen + x * (2 * old_p2) == b, x >= 1, old_p2 >= 1, seen >= 0;
            assert(a * (2 * old_p2) == (2 * qm) * c + 2 * rm) by (nonlinear_arith)
                requires a * old_p2 == qm * c + rm;
            assert(a * (2 * old_p2) <= a * b) by (nonlinear_arith)
                requires 2 * old_p2 <= b, a >= 0;
            if rm >= c - rm {
                assert((2 * qm + 1) * c + (2 * rm - c) == (2 * qm) * c + 2 * rm) by (nonlinear_arith);
                proof { lemma_quotient_at_most(2 * qm + 1, c as int, a as int, b as int, 2 * rm - c); }
                rm = rm - (c - rm);
                qm = qm + qm + 1;
            } else {
                proof { lemma_quotient_at_most(2 * qm, c as int, a as int, b as int, 2 * rm); }
                rm = rm + rm;
                qm = qm + qm;
            }
            proof { p2 = 2 * old_p2; }
        } else {
            assert(seen == b) by (nonlinear_arith)
                requires
                    old_seen + (2 * x + bit) * p2 == b,
                    x == 0,
                    bit == 1 ==> seen == old_seen + p2,
                    bit == 0 ==> seen == old_seen,
                    bit == 0 || bit == 1;
        }
    }
    proof {
        assert(seen == b) by (nonlinear_arith)
            requires seen + x * p2 == b, x == 0;
        vstd::arithmetic::div_mod::lemma_fundamental_div_mod_converse(a * b, c as int, q as int, rem as int);
        lemma_quotient_at_most(q as int, c as int, a as int, b as int, rem as int);
    }
    q
}

} // verus!
