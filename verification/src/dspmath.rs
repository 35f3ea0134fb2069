//! Fixed-point arithmetic primitives for the signal path: truncating
//! division, integer square root, and rational approximations of sine and
//! arctangent on Q15 values (32768 stands for 1.0; a half turn of phase is
//! 32768 angle units, so an angle value is the real angle times 32768/pi).

use vstd::prelude::*;

use vstd::arithmetic::div_mod::{
    lemma_div_is_ordered, lemma_div_multiples_vanish, lemma_div_nonincreasing,
    lemma_div_pos_is_pos,
};

verus! {

/// Truncating (round-toward-zero) division, the rounding rule used
/// throughout the signal path.
pub open spec fn spec_tdiv(a: int, b: int) -> int {
    if a >= 0 {
        a / b
    } else {
        -((-a) / b)
    }
}

/// A quotient of nonnegative values is at most `c` when the dividend is at
/// most `b * c`.
pub proof fn lemma_div_at_most(a: int, b: int, c: int)
    requires
        b > 0,
        0 <= a,
        a <= b * c,
    ensures
        a / b <= c,
{
    lemma_div_is_ordered(a, b * c, b);
    lemma_div_multiples_vanish(c, b);
}

/// Truncating division of a signed value by a positive one; the result
/// rounds toward zero and never grows in magnitude.
pub fn div_trunc(a: i64, b: i64) -> (r: i64)
    requires
        b > 0,
        a > i64::MIN,
    ensures
        r == spec_tdiv(a as int, b as int),
        a >= 0 ==> 0 <= r <= a,
        a < 0 ==> a <= r <= 0,
{
    if a >= 0 {
        let q = (a as u64) / (b as u64);
        proof {
            lemma_div_pos_is_pos(a as int, b as int);
            lemma_div_nonincreasing(a as int, b as int);
        }
        q as i64
    } else {
        let neg = -a;
        let q = (neg as u64) / (b as u64);
        proof {
            lemma_div_pos_is_pos(neg as int, b as int);
            lemma_div_nonincreasing(neg as int, b as int);
        }
        -(q as i64)
    }
}

/// The integer square root: the largest `r` with `r * r <= n`.
pub fn isqrt(n: u64) -> (r: u32)
    ensures
        (r as int) * (r as int) <= n < ((r as int) + 1) * ((r as int) + 1),
{
    let mut lo: u64 = 0;
    let mut hi: u64 = 4_294_967_296;
    proof {
        assert((hi as int) * (hi as int) > u64::MAX as int) by (nonlinear_arith)
            requires hi == 4_294_967_296;
    }
    while hi - lo > 1
        invariant
            lo < hi <= 4_294_967_296,
            (lo as int) * (lo as int) <= n,
            n < (hi as int) * (hi as int),
        decreases hi - lo,
    {
        let mid = lo + (hi - lo) / 2;
        proof {
            assert(mid * mid <= u64::MAX) by (nonlinear_arith)
                requires mid < 4_294_967_296;
        }
        if mid * mid <= n {
            lo = mid;
        } else {
            hi = mid;
        }
    }
    lo as u32
}

/// Rational (Bhaskara) approximation of sine on a half turn, in Q15:
/// the angle `x` runs over [0, 32768] for [0, pi], and the result over
/// [0, 32768] for [0, 1].
pub open spec fn spec_sin_half(x: int) -> int {
    let p = x * (32768 - x);
    (524288 * p) / (5368709120 - 4 * p)
}

/// Sine of an angle in the first half turn. Exact at 0, pi/2, and pi, and
/// never above 1.
pub fn sin_half(x: u32) -> (r: u32)
    requires
        x <= 32768,
    ensures
        r == spec_sin_half(x as int),
        r <= 32768,
        x == 0 ==> r == 0,
        x == 32768 ==> r == 0,
        x == 16384 ==> r == 32768,
{
    let xi = x as u64;
    proof {
        assert(xi * (32768 - xi) <= 16384 * 16384) by (nonlinear_arith)
            requires 0 <= xi <= 32768;
    }
    let p = xi * (32768 - xi);
    let num = 524288 * p;
    let den = 5_368_709_120 - 4 * p;
    proof {
        assert(num <= 32768 * den) by (nonlinear_arith)
            requires
                0 <= p <= 16384 * 16384,
                num == 524288 * p,
                den == 5368709120 - 4 * p,
        ;
        lemma_div_at_most(num as int, den as int, 32768);
        lemma_div_pos_is_pos(num as int, den as int);
        if p == 0 {
            vstd::arithmetic::div_mod::lemma_div_of0(den as int);
        }
        if x == 16384 {
            assert(num == 32768 * den) by (nonlinear_arith)
                requires p == 16384 * 16384, num == 524288 * p, den == 5368709120 - 4 * p;
            lemma_div_multiples_vanish(32768, den as int);
        }
    }
    (num / den) as u32
}

/// Sine of an angle anywhere on the circle (a full turn is 65536 angle
/// units), in Q15.
pub open spec fn spec_sin_full(a: int) -> int {
    if a <= 32768 {
        spec_sin_half(a)
    } else {
        -spec_sin_half(a - 32768)
    }
}

/// Sine over a full turn; the second half turn is the negated first half.
pub fn sin_full(a: u32) -> (r: i32)
    requires
        a < 65536,
    ensures
        r == spec_sin_full(a as int),
        -32768 <= r <= 32768,
        a == 0 ==> r == 0,
        a == 16384 ==> r == 32768,
{
    if a <= 32768 {
        sin_half(a) as i32
    } else {
        -(sin_half(a - 32768) as i32)
    }
}

/// Cosine over a full turn, in Q15: sine shifted by a quarter turn.
pub open spec fn spec_cos_full(a: int) -> int {
    spec_sin_full((a + 16384) % 65536)
}

/// Cosine over a full turn. Exact at 0.
pub fn cos_full(a: u32) -> (r: i32)
    requires
        a < 65536,
    ensures
        r == spec_cos_full(a as int),
        -32768 <= r <= 32768,
        a == 0 ==> r == 32768,
{
    let b = (a + 16384) % 65536;
    proof {
        assert((a + 16384) % 65536 == if a + 16384 < 65536 { a + 16384 } else { a + 16384 - 65536 }) by (nonlinear_arith)
            requires a < 65536;
    }
    sin_full(b)
}

/// Polynomial approximation of `atan(z) / pi` on [0, 1], in Q15: `z` runs
/// over [0, 32768] and the result over [0, 8192] (one eighth of a turn),
/// with a small correction term that peaks mid-range.
pub open spec fn spec_atan_frac(z: int) -> int {
    z / 4 + (2973 * z * (32768 - z)) / 1073741824
}

/// `atan(z) / pi` for a slope `z` in [0, 1].
pub fn atan_frac(z: u64) -> (t: u64)
    requires
        z <= 32768,
    ensures
        t == spec_atan_frac(z as int),
        t <= 8936,
        z == 0 ==> t == 0,
{
    let q = z / 4;
    proof {
        assert(2973 * z * (32768 - z) <= 2973 * (16384 * 16384)) by (nonlinear_arith)
            requires 0 <= z <= 32768;
    }
    let p = 2973 * z * (32768 - z);
    proof {
        lemma_div_at_most(p as int, 1073741824, 744);
        lemma_div_pos_is_pos(p as int, 1073741824);
        if z == 0 {
            vstd::arithmetic::div_mod::lemma_div_of0(1073741824);
        }
    }
    let c = p / 1_073_741_824;
    q + c
}

/// The four-quadrant arctangent, normalized by pi, in Q15: the angle of the
/// point `(x, y)`, with 32768 standing for a half turn (pi). Matches the
/// convention of the polar discriminator: the angle of the origin is 0.
pub open spec fn spec_atan2_q(y: int, x: int) -> int {
    let ay = if y >= 0 { y } else { -y };
    let ax = if x >= 0 { x } else { -x };
    if ax == 0 && ay == 0 {
        0
    } else {
        let m = if ax >= ay {
            let base = spec_atan_frac((ay * 32768) / ax);
            if x >= 0 {
                base
            } else {
                32768 - base
            }
        } else {
            let base = spec_atan_frac((ax * 32768) / ay);
            if x >= 0 {
                16384 - base
            } else {
                16384 + base
            }
        };
        if y >= 0 {
            m
        } else {
            -m
        }
    }
}

/// The four-quadrant arctangent over pi, in Q15. Always within [-1, 1];
/// zero on the positive x axis, one half turn on the negative x axis.
pub fn atan2_q(y: i64, x: i64) -> (r: i32)
    requires
        -0x8000_0000 <= y <= 0x8000_0000,
        -0x8000_0000 <= x <= 0x8000_0000,
    ensures
        r == spec_atan2_q(y as int, x as int),
        -32768 <= r <= 32768,
        y == 0 && x >= 0 ==> r == 0,
        y == 0 && x < 0 ==> r == 32768,
{
    let ay: u64 = if y >= 0 {
        y as u64
    } else {
        (-y) as u64
    };
    let ax: u64 = if x >= 0 {
        x as u64
    } else {
        (-x) as u64
    };
    if ax == 0 && ay == 0 {
        return 0;
    }
    let m: u64 = if ax >= ay {
        let z = (ay * 32768) / ax;
        proof {
            assert(ay * 32768 <= ax * 32768) by (nonlinear_arith)
                requires ay <= ax;
            lemma_div_at_most((ay * 32768) as int, ax as int, 32768);
            lemma_div_pos_is_pos((ay * 32768) as int, ax as int);
        }
        let base = atan_frac(z);
        if x >= 0 {
            base
        } else {
            32768 - base
        }
    } else {
        let z = (ax * 32768) / ay;
        proof {
            assert(ax * 32768 <= ay * 32768) by (nonlinear_arith)
                requires ax <= ay;
            lemma_div_at_most((ax * 32768) as int, ay as int, 32768);
            lemma_div_pos_is_pos((ax * 32768) as int, ay as int);
        }
        let base = atan_frac(z);
        if x >= 0 {
            16384 - base
        } else {
            16384 + base
        }
    };
    if y >= 0 {
        m as i32
    } else {
        -(m as i32)
    }
}


/// The sum of a sequence of integers.
pub open spec fn seq_sum(s: Seq<int>) -> int
    decreases s.len(),
{
    if s.len() == 0 {
        0
    } else {
        s[0] + seq_sum(s.drop_first())
    }
}

/// Appending one element adds it to the sum.
pub proof fn lemma_seq_sum_push(s: Seq<int>, x: int)
    ensures
        seq_sum(s.push(x)) == seq_sum(s) + x,
    decreases s.len(),
{
    if s.len() == 0 {
        assert(s.push(x).drop_first() =~= Seq::<int>::empty());
        assert(s.push(x)[0] == x);
        assert(seq_sum(s.push(x)) == x + seq_sum(Seq::<int>::empty()));
    } else {
        assert(s.push(x).drop_first() =~= s.drop_first().push(x));
        assert(s.push(x)[0] == s[0]);
        lemma_seq_sum_push(s.drop_first(), x);
    }
}

/// A sum of `len` elements each within `[-b, b]` lies within `[-len b, len b]`.
pub proof fn lemma_seq_sum_bound(s: Seq<int>, b: int)
    requires
        forall|i: int| 0 <= i < s.len() ==> -b <= #[trigger] s[i] <= b,
        b >= 0,
    ensures
        -(s.len() * b) <= seq_sum(s) <= s.len() * b,
    decreases s.len(),
{
    if s.len() == 0 {
    } else {
        lemma_seq_sum_bound(s.drop_first(), b);
        assert((s.len() - 1) * b + b == s.len() * b) by (nonlinear_arith);
    }
}

/// Subtracting a constant from every element subtracts `len` times the
/// constant from the sum.
pub proof fn lemma_seq_sum_shift(s: Seq<int>, c: int)
    ensures
        seq_sum(s.map_values(|x: int| x - c)) == seq_sum(s) - s.len() * c,
    decreases s.len(),
{
    let t = s.map_values(|x: int| x - c);
    if s.len() == 0 {
        assert(t.len() == 0);
    } else {
        lemma_seq_sum_shift(s.drop_first(), c);
        assert(t.drop_first() =~= s.drop_first().map_values(|x: int| x - c));
        assert(t[0] == s[0] - c);
        assert((s.len() - 1) * c + c == s.len() * c) by (nonlinear_arith);
    }
}

/// The integer square root as a mathematical value: the unique nonnegative
/// `r` with `r * r <= n < (r + 1) * (r + 1)`.
pub open spec fn spec_isqrt(n: int) -> int {
    choose|r: int| 0 <= r && #[trigger] (r * r) <= n < (r + 1) * (r + 1)
}

/// Any nonnegative root with the square-root property is the integer square
/// root.
pub proof fn lemma_isqrt_unique(n: int, r: int)
    requires
        0 <= r,
        r * r <= n < (r + 1) * (r + 1),
    ensures
        spec_isqrt(n) == r,
{
    assert(0 <= r && r * r <= n < (r + 1) * (r + 1));
    let q = spec_isqrt(n);
    assert(0 <= q && q * q <= n < (q + 1) * (q + 1));
    assert(q == r) by (nonlinear_arith)
        requires
            0 <= r,
            0 <= q,
            r * r <= n < (r + 1) * (r + 1),
            q * q <= n < (q + 1) * (q + 1),
    ;
}


/// The arctangent polynomial stays within [0, 8936] on [0, 1].
pub proof fn lemma_atan_frac_range(z: int)
    requires
        0 <= z <= 32768,
    ensures
        0 <= spec_atan_frac(z) <= 8936,
{
    assert(0 <= 2973 * z * (32768 - z) <= 2973 * (16384 * 16384)) by (nonlinear_arith)
        requires 0 <= z <= 32768;
    lemma_div_at_most(2973 * z * (32768 - z), 1073741824, 744);
    lemma_div_pos_is_pos(2973 * z * (32768 - z), 1073741824);
    lemma_div_pos_is_pos(z, 4);
    lemma_div_at_most(z, 4, 8192);
}

/// The normalized arctangent stays within [-1, 1] in Q15 for every point.
pub proof fn lemma_atan2_q_range(y: int, x: int)
    ensures
        -32768 <= spec_atan2_q(y, x) <= 32768,
{
    let ay = if y >= 0 { y } else { -y };
    let ax = if x >= 0 { x } else { -x };
    if ax == 0 && ay == 0 {
    } else if ax >= ay {
        let z = (ay * 32768) / ax;
        assert(ay * 32768 <= ax * 32768) by (nonlinear_arith)
            requires ay <= ax;
        lemma_div_at_most(ay * 32768, ax, 32768);
        lemma_div_pos_is_pos(ay * 32768, ax);
        lemma_atan_frac_range(z);
    } else {
        let z = (ax * 32768) / ay;
        assert(ax * 32768 <= ay * 32768) by (nonlinear_arith)
            requires ax <= ay;
        lemma_div_at_most(ax * 32768, ay, 32768);
        lemma_div_pos_is_pos(ax * 32768, ay);
        lemma_atan_frac_range(z);
    }
}

} // verus!


