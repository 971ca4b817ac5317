use vstd::prelude::*;

verus! {

/// One in Q30 fixed point: trigonometric values are scaled by 2^30.
pub const ONE_Q30: i64 = 0x40000000;

/// Ceiling applied to Taylor terms; far above any value a term reaches.
pub const TERM_CAP: u64 = 0x100000000;

/// Half pi in Q31 fixed point, truncated.
pub const PI_HALF_Q31: u64 = 3373259426;

/// Largest Q30 radian value handed to the Taylor series: a quarter turn.
pub const RAD_MAX: u64 = 1686629713;

/// Bound on the squared Q30 radian value: RAD_MAX^2 / 2^30, rounded up.
pub const X2_MAX: u64 = 2650000000;

/// Floor of the square root of a non-negative integer.
pub open spec fn sqrt_floor(n: int) -> int
    decreases n,
{
    if n < 1 {
        0
    } else {
        let s = sqrt_floor(n - 1);
        if (s + 1) * (s + 1) <= n {
            s + 1
        } else {
            s
        }
    }
}

/// The floor square root is characterized by s * s <= n < (s + 1) * (s + 1).
pub proof fn lemma_sqrt_floor(n: int)
    requires
        n >= 0,
    ensures
        0 <= sqrt_floor(n),
        sqrt_floor(n) * sqrt_floor(n) <= n,
        n < (sqrt_floor(n) + 1) * (sqrt_floor(n) + 1),
    decreases n,
{
    if n >= 1 {
        lemma_sqrt_floor(n - 1);
        let s = sqrt_floor(n - 1);
        if (s + 1) * (s + 1) <= n {
            assert(n <= (s + 1) * (s + 1)) by (nonlinear_arith)
                requires n - 1 < (s + 1) * (s + 1);
            assert((s + 1) * (s + 1) < (s + 2) * (s + 2)) by (nonlinear_arith)
                requires s >= 0;
        }
    }
}

/// Any non-negative a with a * a <= n is at most the floor square root.
pub proof fn lemma_sqrt_le(a: int, n: int)
    requires
        0 <= a,
        a * a <= n,
    ensures
        a <= sqrt_floor(n),
{
    lemma_sqrt_floor(n);
    let s = sqrt_floor(n);
    if a > s {
        assert((s + 1) * (s + 1) <= a * a) by (nonlinear_arith)
            requires 0 <= s && s + 1 <= a;
    }
}

/// Floor of the square root: r == sqrt_floor(n).
pub fn isqrt(n: u128) -> (r: u64)
    requires
        n < 0x40000000000000000,
    ensures
        r == sqrt_floor(n as int),
        (r as int) * (r as int) <= n < (r as int + 1) * (r as int + 1),
{
    let mut lo: u64 = 0;
    let mut hi: u64 = 0x200000000;
    proof {
        assert((0x200000000 as int) * (0x200000000 as int) == 0x40000000000000000) by (nonlinear_arith);
    }
    while lo + 1 < hi
        invariant
            lo < hi <= 0x200000000,
            (lo as int) * (lo as int) <= n,
            n < (hi as int) * (hi as int),
        decreases hi - lo,
    {
        let mid = lo + (hi - lo) / 2;
        proof {
            assert((mid as int) * (mid as int) <= (0x200000000 as int) * (0x200000000 as int))
                by (nonlinear_arith)
                requires 0 <= mid <= 0x200000000;
        }
        if (mid as u128) * (mid as u128) <= n {
            lo = mid;
        } else {
            hi = mid;
        }
    }
    proof {
        lemma_sqrt_floor(n as int);
        let s = sqrt_floor(n as int);
        assert(lo as int == s) by (nonlinear_arith)
            requires
                0 <= lo,
                0 <= s,
                (lo as int) * (lo as int) <= n as int,
                (n as int) < (lo as int + 1) * (lo as int + 1),
                s * s <= n as int,
                (n as int) < (s + 1) * (s + 1);
    }
    lo
}

/// One Taylor step in Q30: the previous term is multiplied by the squared
/// angle, divided by the factorial factor, and capped.
pub open spec fn taylor_step_spec(t: int, x2: int, d: int) -> int {
    let raw = t * x2 / d / 0x40000000;
    if raw > TERM_CAP { TERM_CAP as int } else { raw }
}

fn taylor_step(t: u64, x2: u64, d: u64) -> (r: u64)
    requires
        t <= TERM_CAP,
        x2 <= X2_MAX,
        1 <= d,
    ensures
        r == taylor_step_spec(t as int, x2 as int, d as int),
        r <= TERM_CAP,
{
    proof {
        assert((t as int) * (x2 as int) <= (TERM_CAP as int) * (X2_MAX as int)) by (nonlinear_arith)
            requires 0 <= t <= TERM_CAP && 0 <= x2 <= X2_MAX;
    }
    let raw = (t as u128) * (x2 as u128) / (d as u128) / 0x40000000;
    if raw > TERM_CAP as u128 {
        TERM_CAP
    } else {
        raw as u64
    }
}

/// Clamps a Q30 value into [-1, 1].
pub open spec fn clamp_one_spec(v: int) -> int {
    if v > ONE_Q30 {
        ONE_Q30 as int
    } else if v < -ONE_Q30 {
        -ONE_Q30 as int
    } else {
        v
    }
}

/// Cosine and sine of a Q30 radian value in [0, pi/2], in Q30, by a
/// seven-term Taylor series with capped terms and a final clamp.
pub open spec fn cos_sin_rad_spec(x: int) -> (int, int) {
    let x2 = x * x / 0x40000000;
    let c1 = taylor_step_spec(0x40000000, x2, 2);
    let c2 = taylor_step_spec(c1, x2, 12);
    let c3 = taylor_step_spec(c2, x2, 30);
    let c4 = taylor_step_spec(c3, x2, 56);
    let c5 = taylor_step_spec(c4, x2, 90);
    let c6 = taylor_step_spec(c5, x2, 132);
    let c7 = taylor_step_spec(c6, x2, 182);
    let cos = clamp_one_spec(0x40000000 - c1 + c2 - c3 + c4 - c5 + c6 - c7);
    let s1 = taylor_step_spec(x, x2, 6);
    let s2 = taylor_step_spec(s1, x2, 20);
    let s3 = taylor_step_spec(s2, x2, 42);
    let s4 = taylor_step_spec(s3, x2, 72);
    let s5 = taylor_step_spec(s4, x2, 110);
    let s6 = taylor_step_spec(s5, x2, 156);
    let s7 = taylor_step_spec(s6, x2, 210);
    let sin = clamp_one_spec(x - s1 + s2 - s3 + s4 - s5 + s6 - s7);
    (cos, sin)
}

fn clamp_one(v: i64) -> (r: i64)
    requires
        -0x1000000000 <= v <= 0x1000000000,
    ensures
        r == clamp_one_spec(v as int),
        -ONE_Q30 <= r <= ONE_Q30,
{
    if v > ONE_Q30 {
        ONE_Q30
    } else if v < -ONE_Q30 {
        -ONE_Q30
    } else {
        v
    }
}

fn cos_sin_rad(x: u64) -> (r: (i64, i64))
    requires
        x <= RAD_MAX,
    ensures
        (r.0 as int, r.1 as int) == cos_sin_rad_spec(x as int),
        -ONE_Q30 <= r.0 <= ONE_Q30,
        -ONE_Q30 <= r.1 <= ONE_Q30,
{
    proof {
        assert(x * x <= RAD_MAX * RAD_MAX) by (nonlinear_arith)
            requires 0 <= x <= RAD_MAX;
        assert(x * x / 0x40000000 <= RAD_MAX * RAD_MAX / 0x40000000) by (nonlinear_arith)
            requires 0 <= x * x <= RAD_MAX * RAD_MAX;
        assert((RAD_MAX as int) * (RAD_MAX as int) / 0x40000000 <= X2_MAX) by (nonlinear_arith);
    }
    let x2 = ((x as u128) * (x as u128) / 0x40000000) as u64;
    let c1 = taylor_step(0x40000000, x2, 2);
    let c2 = taylor_step(c1, x2, 12);
    let c3 = taylor_step(c2, x2, 30);
    let c4 = taylor_step(c3, x2, 56);
    let c5 = taylor_step(c4, x2, 90);
    let c6 = taylor_step(c5, x2, 132);
    let c7 = taylor_step(c6, x2, 182);
    let cos = clamp_one(
        0x40000000 - (c1 as i64) + (c2 as i64) - (c3 as i64) + (c4 as i64) - (c5 as i64) + (
        c6 as i64) - (c7 as i64),
    );
    let s1 = taylor_step(x, x2, 6);
    let s2 = taylor_step(s1, x2, 20);
    let s3 = taylor_step(s2, x2, 42);
    let s4 = taylor_step(s3, x2, 72);
    let s5 = taylor_step(s4, x2, 110);
    let s6 = taylor_step(s5, x2, 156);
    let s7 = taylor_step(s6, x2, 210);
    let sin = clamp_one(
        (x as i64) - (s1 as i64) + (s2 as i64) - (s3 as i64) + (s4 as i64) - (s5 as i64) + (
        s6 as i64) - (s7 as i64),
    );
    (cos, sin)
}

/// Cosine and sine of the angle k/n of a full turn, in Q30: the quadrant is
/// read off the top bits of the turn fraction and the remainder is mapped to
/// radians in the first quadrant.
pub open spec fn cos_sin_turn_spec(k: int, n: int) -> (int, int) {
    let phi = k * 0x100000000 / n;
    let quad = phi / 0x40000000;
    let rem = phi % 0x40000000;
    let rad = rem * PI_HALF_Q31 / 0x80000000;
    let cs = cos_sin_rad_spec(rad);
    if quad == 0 {
        (cs.0, cs.1)
    } else if quad == 1 {
        (-cs.1, cs.0)
    } else if quad == 2 {
        (-cs.0, -cs.1)
    } else {
        (cs.1, -cs.0)
    }
}

/// Cosine and sine of the angle k/n of a full turn, in Q30.
pub fn cos_sin_turn(k: u32, n: u32) -> (r: (i64, i64))
    requires
        0 < n,
        k < n,
    ensures
        (r.0 as int, r.1 as int) == cos_sin_turn_spec(k as int, n as int),
        -ONE_Q30 <= r.0 <= ONE_Q30,
        -ONE_Q30 <= r.1 <= ONE_Q30,
{
    proof {
        assert((k as int) * 0x100000000 / (n as int) < 0x100000000) by (nonlinear_arith)
            requires 0 <= k < n;
        assert(0 <= (k as int) * 0x100000000 / (n as int)) by (nonlinear_arith)
            requires 0 <= k && 0 < n;
    }
    let phi: u64 = (k as u64) * 0x100000000 / (n as u64);
    let quad = phi / 0x40000000;
    let rem = phi % 0x40000000;
    proof {
        assert(rem * PI_HALF_Q31 / 0x80000000 <= (0x40000000 - 1) * PI_HALF_Q31 / 0x80000000)
            by (nonlinear_arith)
            requires 0 <= rem < 0x40000000;
        assert((0x40000000 - 1) * (PI_HALF_Q31 as int) / 0x80000000 <= RAD_MAX) by (nonlinear_arith);
    }
    let rad = rem * PI_HALF_Q31 / 0x80000000;
    let cs = cos_sin_rad(rad);
    if quad == 0 {
        (cs.0, cs.1)
    } else if quad == 1 {
        (-cs.1, cs.0)
    } else if quad == 2 {
        (-cs.0, -cs.1)
    } else {
        (cs.1, -cs.0)
    }
}

} // verus!
