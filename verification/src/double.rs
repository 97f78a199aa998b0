//! IEEE 754 doubles as fractions of integers.
//!
//! A positive double of the ordinary range is a significand of 53 bits times a power of
//! two. Products and quotients are rounded to the nearest one, and of two equally near ones
//! to the one with the even significand.

use vstd::arithmetic::div_mod::{
    lemma_div_multiples_vanish,
    lemma_fundamental_div_mod,
    lemma_mod_bound,
};
use vstd::arithmetic::power2::{
    lemma2_to64,
    lemma2_to64_rest,
    lemma_pow2_adds,
    lemma_pow2_pos,
    lemma_pow2_strictly_increases,
    lemma_pow2_unfold,
    pow2,
};
use vstd::prelude::*;

verus! {

/// The integer nearest to `n / d`, and of two equally near ones the even one.
pub open spec fn nearest(n: nat, d: nat) -> nat {
    let q = n / d;
    let r = n % d;
    if 2 * r < d || (2 * r == d && q % 2 == 0) {
        q
    } else {
        q + 1
    }
}

/// The least power of two by which `n` must be multiplied for `n / d` to have 53 bits
/// before the point.
pub open spec fn scale_up(n: nat, d: nat) -> nat
    decreases
            (if n < d * 0x10_0000_0000_0000 {
                d * 0x10_0000_0000_0000 - n
            } else {
                0
            }),
{
    if n == 0 || n >= d * 0x10_0000_0000_0000 {
        1
    } else {
        2 * scale_up(2 * n, d)
    }
}

/// The least power of two by which `d` must be multiplied for `n / d` to have no more
/// than 53 bits before the point.
pub open spec fn scale_down(n: nat, d: nat) -> nat
    decreases
            (if d < n {
                n - d
            } else {
                0
            }),
{
    if d == 0 || n < d * 0x20_0000_0000_0000 {
        1
    } else {
        2 * scale_down(n, 2 * d)
    }
}

/// The significand of the double nearest to `n / d`. The double itself is
/// `significand(n, d) * scale_down(n, d) / scale_up(n, d)`.
pub open spec fn significand(n: nat, d: nat) -> nat {
    nearest(n * scale_up(n, d), d * scale_down(n, d))
}

/// The integer part of the double nearest to `n / d`.
pub open spec fn double_floor(n: nat, d: nat) -> nat {
    (significand(n, d) * scale_down(n, d)) / scale_up(n, d)
}

/// A positive double: `significand * down / up`, where one of `down` and `up` is 1 and
/// the other a power of two.
pub(crate) struct Double {
    pub significand: u128,
    pub down: u128,
    pub up: u128,
}

/// The double nearest to a fraction.
pub(crate) fn divide(n: u128, d: u128) -> (r: Double)
    requires
        0 < n < 0x4000_0000_0000_0000_0000_0000_0000_0000,
        0 < d <= 0x1_0000_0000_0000_0000,
    ensures
        r.significand == significand(n as nat, d as nat),
        r.down == scale_down(n as nat, d as nat),
        r.up == scale_up(n as nat, d as nat),
        0 < r.up,
        0x10_0000_0000_0000 <= r.significand <= 0x20_0000_0000_0000,
        r.significand * r.down < 0x8000_0000_0000_0000_0000_0000_0000_0000,
        d == 1 ==> r.significand * r.down <= 2 * n * r.up,
{
    let mut a: u128 = n;
    let mut up: u128 = 1;
    while a < d * 0x10_0000_0000_0000
        invariant
            0 < n < 0x4000_0000_0000_0000_0000_0000_0000_0000,
            0 < d <= 0x1_0000_0000_0000_0000,
            a == n * up,
            0 < up <= a,
            up == 1 || (a < d * 0x20_0000_0000_0000 && n < d * 0x10_0000_0000_0000),
            scale_up(n as nat, d as nat) == up * scale_up(a as nat, d as nat),
        decreases d * 0x20_0000_0000_0000 - a,
    {
        let ghost rest = scale_up(2 * a as nat, d as nat);
        assert(scale_up(a as nat, d as nat) == 2 * rest);
        assert(up * (2 * rest) == (2 * up) * rest) by (nonlinear_arith);
        assert(2 * (n * up) == n * (2 * up)) by (nonlinear_arith);
        a = a * 2;
        up = up * 2;
    }
    let ghost last_up = scale_up(a as nat, d as nat);
    assert(up * last_up == up) by (nonlinear_arith)
        requires
            last_up == 1,
    ;
    assert(up == 1 ==> a == n) by (nonlinear_arith)
        requires
            a == n * up,
    ;
    let mut b: u128 = d;
    let mut down: u128 = 1;
    while a >= b * 0x20_0000_0000_0000
        invariant
            0 < n,
            0 < d <= 0x1_0000_0000_0000_0000,
            a < 0x4000_0000_0000_0000_0000_0000_0000_0000,
            b == d * down,
            0 < down <= b,
            d <= b,
            b == d || up == 1,
            up == 1 ==> a == n,
            up == 1 || (a < d * 0x20_0000_0000_0000 && n < d * 0x10_0000_0000_0000),
            a == n * up,
            scale_down(n as nat, d as nat) == down * scale_down(n as nat, b as nat),
            b * 0x20_0000_0000_0000 < 0x8000_0000_0000_0000_0000_0000_0000_0000,
            b * 0x10_0000_0000_0000 <= a,
        decreases a - b,
    {
        let ghost rest = scale_down(n as nat, 2 * b as nat);
        assert(scale_down(n as nat, b as nat) == 2 * rest);
        assert(down * (2 * rest) == (2 * down) * rest) by (nonlinear_arith);
        assert(2 * (d * down) == d * (2 * down)) by (nonlinear_arith);
        b = b * 2;
        down = down * 2;
    }
    let q: u128 = a / b;
    let rem: u128 = a % b;
    proof {
        lemma_fundamental_div_mod(a as int, b as int);
        lemma_mod_bound(a as int, b as int);
        assert(0x10_0000_0000_0000 <= q < 0x20_0000_0000_0000) by (nonlinear_arith)
            requires
                a == b * q + rem,
                0 <= rem < b,
                b * 0x10_0000_0000_0000 <= a < b * 0x20_0000_0000_0000,
        ;
        assert(n < b * 0x20_0000_0000_0000);
        let last_down = scale_down(n as nat, b as nat);
        assert(down * last_down == down) by (nonlinear_arith)
            requires
                last_down == 1,
        ;
    }
    let m: u128 = if 2 * rem < b || (2 * rem == b && q % 2 == 0) {
        q
    } else {
        q + 1
    };
    proof {
        assert(m == nearest(a as nat, b as nat));
        assert(m * down <= 0x20_0000_0000_0000 * b) by (nonlinear_arith)
            requires
                0 <= m <= 0x20_0000_0000_0000,
                0 <= down <= b,
        ;
        if d == 1 {
            assert(down == b) by (nonlinear_arith)
                requires
                    b == d * down,
                    d == 1,
            ;
            assert(m * b <= b * q + b) by (nonlinear_arith)
                requires
                    m <= q + 1,
                    b >= 0,
            ;
            assert(2 * n * up == 2 * a) by (nonlinear_arith)
                requires
                    a == n * up,
            ;
        }
    }
    Double { significand: m, down, up }
}

/// The integer part of the double nearest to a fraction.
pub(crate) fn divide_floor(n: u128, d: u128) -> (r: u128)
    requires
        n < 0x4000_0000_0000_0000_0000_0000_0000_0000,
        0 < d <= 0x1_0000_0000_0000_0000,
    ensures
        r == double_floor(n as nat, d as nat),
        d == 1 ==> r <= 2 * n,
{
    if n == 0 {
        proof {
            assert(scale_down(0, d as nat) == 1);
            assert(significand(0, d as nat) == 0);
        }
        return 0;
    }
    let x = divide(n, d);
    proof {
        if d == 1 {
            lemma_quotient_bound(x.significand * x.down, 2 * n, x.up as int);
        }
    }
    (x.significand * x.down) / x.up
}

proof fn lemma_quotient_bound(a: int, c: int, u: int)
    requires
        0 <= a <= c * u,
        u > 0,
    ensures
        a / u <= c,
{
    vstd::arithmetic::div_mod::lemma_div_is_ordered(a, c * u, u);
    lemma_div_multiples_vanish(c, u);
    assert(c * u == u * c) by (nonlinear_arith);
}

/// The nearest integer is no further off than half, and a tie goes to an even one.
pub proof fn nearest_is_near(n: nat, d: nat)
    requires
        d > 0,
    ensures
        -(d as int) <= 2 * (nearest(n, d) * d - n) <= d,
        2 * (nearest(n, d) * d - n) == d || 2 * (nearest(n, d) * d - n) == -(d as int)
            ==> nearest(n, d) % 2 == 0,
        n % d == 0 ==> nearest(n, d) * d == n,
{
    let q = (n / d) as int;
    let r = (n % d) as int;
    lemma_fundamental_div_mod(n as int, d as int);
    lemma_mod_bound(n as int, d as int);
    assert(q * d == d * q) by (nonlinear_arith);
    assert((q + 1) * d == q * d + d) by (nonlinear_arith);
}

/// An integer of up to 53 bits is a double: it is not rounded at all.
pub proof fn small_integers_are_doubles(n: nat)
    requires
        n < 0x20_0000_0000_0000,
    ensures
        double_floor(n, 1) == n,
{
    if n > 0 {
        let p = scale_up(n, 1);
        lemma_scale_is_positive(n, 1);
        let a = n * p;
        assert(a % 1 == 0 && a / 1 == a);
        assert(1 * scale_down(n, 1) == 1);
        assert(significand(n, 1) == a);
        assert(significand(n, 1) * scale_down(n, 1) == a);
        lemma_div_multiples_vanish(n as int, p as int);
        assert(n * p == p * n) by (nonlinear_arith);
    } else {
        assert(significand(0, 1) == 0);
    }
}

/// The double nearest to 1 is 1: its significand is the power of two by which it is
/// divided.
pub(crate) proof fn lemma_ratio_of_one(d: nat)
    requires
        d > 0,
    ensures
        scale_up(d, d) == pow2(52),
        significand(d, d) == pow2(52),
        pow2(52) > 0,
{
    lemma2_to64();
    lemma2_to64_rest();
    assert(d * pow2(0) == d);
    lemma_scale_of_power(d, 0);
    assert(scale_down(d, d) == 1);
    let p = pow2(52);
    assert(d * p == p * d) by (nonlinear_arith);
    lemma_div_multiples_vanish(p as int, d as int);
    vstd::arithmetic::div_mod::lemma_mod_multiples_basic(p as int, d as int);
}

proof fn lemma_scale_of_power(d: nat, a: nat)
    requires
        d > 0,
        a <= 52,
    ensures
        scale_up(d * pow2(a), d) == pow2((52 - a) as nat),
    decreases 52 - a,
{
    lemma2_to64();
    lemma2_to64_rest();
    lemma_pow2_pos(a);
    let p = pow2(a);
    assert(d * p > 0) by (nonlinear_arith)
        requires
            d > 0,
            p > 0,
    ;
    if a < 52 {
        lemma_pow2_strictly_increases(a, 52);
        assert(d * p < d * 0x10_0000_0000_0000) by (nonlinear_arith)
            requires
                d > 0,
                p < 0x10_0000_0000_0000,
        ;
        lemma_scale_of_power(d, a + 1);
        lemma_pow2_unfold(a + 1);
        let q = pow2(a + 1);
        assert(2 * (d * p) == d * q) by (nonlinear_arith)
            requires
                q == 2 * p,
        ;
        lemma_pow2_unfold((52 - a) as nat);
    }
}

/// An integer of up to 53 bits times a power of two is a double.
pub(crate) proof fn lemma_scaled_integers_are_doubles(l: nat, j: nat)
    requires
        l < 0x20_0000_0000_0000,
        j >= 52,
    ensures
        double_floor(l * pow2(j), 1) == l * pow2(j),
{
    lemma_pow2_pos(j);
    let p = pow2(j);
    let n = l * p;
    if l == 0 {
        assert(n == 0) by (nonlinear_arith)
            requires
                n == l * p,
                l == 0,
        ;
        small_integers_are_doubles(0);
    } else {
        lemma2_to64_rest();
        if j > 52 {
            lemma_pow2_strictly_increases(52, j);
        }
        assert(n >= 0x10_0000_0000_0000) by (nonlinear_arith)
            requires
                n == l * p,
                l >= 1,
                p >= 0x10_0000_0000_0000,
        ;
        assert(scale_up(n, 1) == 1);
        lemma2_to64();
        let b = lemma_scale_down_of_power(l, j, 0);
        let e = scale_down(n, 1);
        assert(e == pow2(b));
        lemma_pow2_adds(b, (j - b) as nat);
        lemma_pow2_pos(b);
        let c = l * pow2((j - b) as nat);
        let g = pow2((j - b) as nat);
        assert(n == c * e && c * e == e * c) by (nonlinear_arith)
            requires
                n == l * p,
                c == l * g,
                p == e * g,
        ;
        lemma_div_multiples_vanish(c as int, e as int);
        vstd::arithmetic::div_mod::lemma_mod_multiples_basic(c as int, e as int);
        assert(nearest(n, e) == c);
        assert(n * 1 == n && 1 * e == e);
        assert(significand(n, 1) == c);
        assert(double_floor(n, 1) == (c * e) / 1);
    }
}

proof fn lemma_scale_down_of_power(l: nat, j: nat, a: nat) -> (b: nat)
    requires
        0 < l < 0x20_0000_0000_0000,
        a <= j,
    ensures
        a <= b <= j,
        scale_down(l * pow2(j), pow2(a)) * pow2(a) == pow2(b),
    decreases j - a,
{
    lemma_pow2_pos(a);
    lemma_pow2_pos(j);
    let n = l * pow2(j);
    let d = pow2(a);
    if n < d * 0x20_0000_0000_0000 {
        assert(scale_down(n, d) == 1);
        a
    } else {
        if a == j {
            assert(n < d * 0x20_0000_0000_0000) by (nonlinear_arith)
                requires
                    n == l * d,
                    l < 0x20_0000_0000_0000,
                    d > 0,
            ;
        }
        lemma_pow2_unfold(a + 1);
        let b = lemma_scale_down_of_power(l, j, a + 1);
        let rest = scale_down(n, 2 * d);
        assert((2 * rest) * d == rest * (2 * d)) by (nonlinear_arith);
        b
    }
}

/// A quotient that is an integer of up to 53 bits is not rounded.
pub(crate) proof fn lemma_whole_quotients_are_doubles(i: nat, d: nat)
    requires
        i < 0x20_0000_0000_0000,
        d > 0,
    ensures
        double_floor(i * d, d) == i,
{
    let n = i * d;
    assert(n < d * 0x20_0000_0000_0000) by (nonlinear_arith)
        requires
            n == i * d,
            i < 0x20_0000_0000_0000,
            d > 0,
    ;
    assert(scale_down(n, d) == 1);
    let u = scale_up(n, d);
    lemma_scale_is_positive(n, d);
    let c = i * u;
    assert(n * u == c * d && c * d == d * c) by (nonlinear_arith)
        requires
            n == i * d,
            c == i * u,
    ;
    lemma_div_multiples_vanish(c as int, d as int);
    vstd::arithmetic::div_mod::lemma_mod_multiples_basic(c as int, d as int);
    assert(significand(n, d) == c);
    assert(i * u == u * i) by (nonlinear_arith);
    lemma_div_multiples_vanish(i as int, u as int);
}

proof fn lemma_scale_is_positive(n: nat, d: nat)
    ensures
        scale_up(n, d) >= 1,
    decreases
            (if n < d * 0x10_0000_0000_0000 {
                d * 0x10_0000_0000_0000 - n
            } else {
                0
            }),
{
    if n > 0 && n < d * 0x10_0000_0000_0000 {
        lemma_scale_is_positive(2 * n, d);
    }
}

} // verus!
