//! Scaling in single precision. A picture is shrunk by a ratio that is rounded to the
//! 24 significant bits of an IEEE 754 single, and so is every step on the way. Here
//! these steps are carried out on integers.

use vstd::arithmetic::div_mod::{lemma_div_denominator, lemma_fundamental_div_mod_converse};
use vstd::arithmetic::power2::{lemma2_to64, lemma_pow2_adds, lemma_pow2_pos, lemma_pow2_unfold, pow2};
use vstd::prelude::*;

verus! {

/// `n / d`, rounded to the nearest integer, and to the even one of two.
pub open spec fn nearest_even(n: nat, d: nat) -> nat {
    let q = n / d;
    let r = n % d;
    if 2 * r < d || (2 * r == d && q % 2 == 0) {
        q
    } else {
        q + 1
    }
}

/// How many of the low bits of `n` do not fit into a significand.
pub open spec fn excess_bits(n: nat) -> nat
    decreases n,
{
    // 2 to the 24th is the first number that does not fit.
    if n < 0x100_0000 {
        0
    } else {
        1 + excess_bits(n / 2)
    }
}

/// `n`, rounded to 24 significant bits.
pub open spec fn single(n: nat) -> nat {
    nearest_even(n, pow2(excess_bits(n))) * pow2(excess_bits(n))
}

/// How often `a` must be doubled until `a / b` has 24 bits in front of the point.
pub open spec fn doublings(a: nat, b: nat) -> nat
    decreases 0x100_0000 * b - a,
{
    if a == 0 || 2 * a >= 0x100_0000 * b {
        0
    } else {
        1 + doublings(2 * a, b)
    }
}

/// The height of a picture that is shrunk from one width to a smaller one: the height
/// times the ratio of the widths, in single precision, without the fraction.
pub open spec fn shrunk_height(width: u32, height: u32, new_width: u32) -> nat {
    let a = single(new_width as nat);
    let b = single(width as nat);
    let k = doublings(a, b);
    // The ratio is `significand / pow2(k)`.
    let significand = nearest_even(a * pow2(k), b);
    let scaled = single(single(height as nat) * significand) / pow2(k);
    if scaled <= u32::MAX {
        scaled
    } else {
        u32::MAX as nat
    }
}

/// `n / d`, rounded to the nearest integer, and to the even one of two.
fn divide_nearest(n: u64, d: u64) -> (r: u64)
    requires
        d > 0,
        n <= u64::MAX / 4,
        d <= u64::MAX / 4,
    ensures
        r == nearest_even(n as nat, d as nat),
        n / d <= r <= n / d + 1,
{
    let q: u64 = n / d;
    let rest: u64 = n % d;
    assert(q <= n) by (nonlinear_arith)
        requires
            q == n / d,
            d > 0,
    ;
    if 2 * rest < d || (2 * rest == d && q % 2 == 0) {
        q
    } else {
        q + 1
    }
}

/// `n`, rounded to 24 significant bits.
fn round_single(n: u64) -> (r: u64)
    requires
        n <= 0x400_0000_0000_0000,
    ensures
        r == single(n as nat),
        r <= 2 * n,
        2 * r >= n,
{
    let mut unit: u64 = 1;
    let mut kept: u64 = n;
    let ghost mut bits: nat = 0;
    proof {
        lemma2_to64();
        assert(n as nat / 1nat == n);
    }
    while kept >= 0x100_0000
        invariant
            n <= 0x400_0000_0000_0000,
            unit == pow2(bits),
            unit > 0,
            kept == n as nat / pow2(bits),
            excess_bits(n as nat) == bits + excess_bits(kept as nat),
            unit == 1 || 0x80_0000 * unit <= n,
        decreases kept,
    {
        proof {
            let (u, x) = (unit as int, n as int);
            assert(0x100_0000 * u <= x) by (nonlinear_arith)
                requires
                    u > 0,
                    x >= 0,
                    x / u >= 0x100_0000,
            ;
            lemma_pow2_unfold(bits + 1);
            lemma_div_denominator(x, u, 2);
            bits = bits + 1;
        }
        unit = unit * 2;
        kept = kept / 2;
    }
    let q: u64 = divide_nearest(n, unit);
    proof {
        let (u, x, y) = (unit as int, n as int, q as int);
        assert(x - u < y * u <= x + u) by (nonlinear_arith)
            requires
                u > 0,
                x >= 0,
                x / u <= y <= x / u + 1,
        ;
        assert(excess_bits(kept as nat) == 0);
        if unit == 1 {
            assert(x / 1 == x && x % 1 == 0);
            assert(y * 1 == x);
        }
    }
    q * unit
}

/// The height of a picture that is shrunk from one width to a smaller one.
pub fn shrunk_height_of(width: u32, height: u32, new_width: u32) -> (r: u32)
    requires
        new_width < width,
    ensures
        r == shrunk_height(width, height, new_width),
{
    let a: u64 = round_single(new_width as u64);
    let b: u64 = round_single(width as u64);
    let h: u64 = round_single(height as u64);
    let bound: u64 = 0x100_0000 * b;
    let mut t: u64 = a;
    let mut unit: u64 = 1;
    let ghost mut k: nat = 0;
    proof {
        lemma2_to64();
        assert(a * pow2(0) == a);
    }
    while t != 0 && 2 * t < bound
        invariant
            bound == 0x100_0000 * b,
            b <= 0x2_0000_0000,
            t < bound,
            unit == pow2(k),
            t == a * pow2(k),
            t == 0 || unit <= t,
            t == 0 ==> unit == 1,
            doublings(a as nat, b as nat) == k + doublings(t as nat, b as nat),
        decreases bound - t,
    {
        proof {
            lemma_pow2_unfold(k + 1);
            let (x, y) = (a as int, pow2(k) as int);
            assert(x * (2 * y) == 2 * (x * y)) by (nonlinear_arith);
            k = k + 1;
        }
        t = 2 * t;
        unit = 2 * unit;
    }
    let significand: u64 = divide_nearest(t, b);
    proof {
        let (x, y, z) = (t as int, b as int, significand as int);
        assert(z <= 0x100_0000) by (nonlinear_arith)
            requires
                y > 0,
                0 <= x < 0x100_0000 * y,
                z <= x / y + 1,
        ;
        let g = h as int;
        assert(0 <= g * z <= 0x2_0000_0000 * 0x100_0000) by (nonlinear_arith)
            requires
                0 <= g <= 0x2_0000_0000,
                0 <= z <= 0x100_0000,
        ;
    }
    let product: u64 = round_single(h * significand);
    let scaled: u64 = product / unit;
    if scaled <= 0xffff_ffff {
        scaled as u32
    } else {
        0xffff_ffff
    }
}

/// Rounding does not cross an integer.
proof fn lemma_nearest_even_bounds(n: nat, d: nat, c: nat)
    requires
        d > 0,
    ensures
        n <= c * d ==> nearest_even(n, d) <= c,
        n >= c * d ==> nearest_even(n, d) >= c,
{
    let (x, y, z) = (n as int, d as int, c as int);
    let q = x / y;
    let r = x % y;
    assert(x == q * y + r && 0 <= r < y) by (nonlinear_arith)
        requires
            y > 0,
            q == x / y,
            r == x % y,
    ;
    if n <= c * d {
        assert(q < z || (q == z && r == 0)) by (nonlinear_arith)
            requires
                x == q * y + r,
                0 <= r < y,
                x <= z * y,
        ;
    }
    if n >= c * d {
        assert(q >= z) by (nonlinear_arith)
            requires
                x == q * y + r,
                0 <= r < y,
                x >= z * y,
        ;
    }
}

/// Rounding keeps the order.
proof fn lemma_nearest_even_is_monotone(m: nat, n: nat, d: nat)
    requires
        d > 0,
        m <= n,
    ensures
        nearest_even(m, d) <= nearest_even(n, d),
{
    let (x, y, z) = (m as int, n as int, d as int);
    let (q, p) = (x / z, y / z);
    assert(q <= p && (q == p ==> x % z <= y % z)) by (nonlinear_arith)
        requires
            z > 0,
            0 <= x <= y,
            q == x / z,
            p == y / z,
    ;
}

/// What remains after the excess bits are cut off has 24 bits.
proof fn lemma_excess_bits(n: nat)
    ensures
        n < 0x100_0000 * pow2(excess_bits(n)),
        excess_bits(n) > 0 ==> n >= 0x80_0000 * pow2(excess_bits(n)),
        pow2(excess_bits(n)) > 0,
    decreases n,
{
    lemma2_to64();
    let e = excess_bits(n);
    lemma_pow2_pos(e);
    if n >= 0x100_0000 {
        lemma_excess_bits(n / 2);
        lemma_pow2_unfold(e);
        assert(pow2(e) == 2 * pow2((e - 1) as nat));
    }
}

/// A number of at most `24 + k` bits has at most `k` excess bits.
proof fn lemma_excess_bits_at_most(n: nat, k: nat)
    requires
        n < 0x100_0000 * pow2(k),
    ensures
        excess_bits(n) <= k,
    decreases k,
{
    lemma2_to64();
    if n >= 0x100_0000 {
        assert(k > 0);
        lemma_pow2_unfold(k);
        lemma_excess_bits_at_most(n / 2, (k - 1) as nat);
    }
}

/// Rounding to 24 bits keeps the order.
proof fn lemma_single_is_monotone(m: nat, n: nat)
    requires
        m <= n,
    ensures
        single(m) <= single(n),
{
    let (d, e) = (excess_bits(m), excess_bits(n));
    lemma_excess_bits(m);
    lemma_excess_bits(n);
    lemma_excess_bits_at_most(m, e);
    let (u, v) = (pow2(d), pow2(e));
    if d == e {
        lemma_nearest_even_is_monotone(m, n, u);
        let (x, y, z) = (nearest_even(m, u) as int, nearest_even(n, u) as int, u as int);
        assert(x * z <= y * z) by (nonlinear_arith)
            requires
                x <= y,
                z >= 0,
        ;
    } else {
        lemma_nearest_even_bounds(m, u, 0x100_0000);
        lemma_nearest_even_bounds(n, v, 0x80_0000);
        lemma_pow2_adds(d, (e - d) as nat);
        lemma_pow2_unfold((e - d) as nat);
        lemma_pow2_pos((e - d - 1) as nat);
        let w = pow2((e - d) as nat) as int;
        let (x, y) = (nearest_even(m, u) as int, nearest_even(n, v) as int);
        let (f, g) = (u as int, v as int);
        assert(2 * f <= g) by (nonlinear_arith)
            requires
                g == f * w,
                w >= 2,
                f > 0,
        ;
        assert(x * f <= 0x100_0000 * f) by (nonlinear_arith)
            requires
                x <= 0x100_0000,
                f > 0,
        ;
        assert(y * g >= 0x80_0000 * g) by (nonlinear_arith)
            requires
                y >= 0x80_0000,
                g > 0,
        ;
    }
}

/// A number of at most 24 bits is not rounded.
proof fn lemma_small_is_exact(n: nat)
    requires
        n < 0x100_0000,
    ensures
        single(n) == n,
{
    lemma2_to64();
    assert(excess_bits(n) == 0);
    assert(nearest_even(n, 1) == n);
}

/// Doubling a number doubles what it is rounded to.
proof fn lemma_single_of_double(n: nat)
    ensures
        single(2 * n) == 2 * single(n),
{
    if 2 * n < 0x100_0000 {
        lemma_small_is_exact(n);
        lemma_small_is_exact(2 * n);
    } else {
        let e = excess_bits(n);
        assert(excess_bits(2 * n) == e + 1) by {
            assert((2 * n) / 2 == n);
        }
        lemma_pow2_pos(e);
        lemma_pow2_unfold(e + 1);
        let (x, d) = (n as int, pow2(e) as int);
        let q = x / d;
        let r = x % d;
        assert(x == q * d + r && 0 <= r < d) by (nonlinear_arith)
            requires
                d > 0,
                q == x / d,
                r == x % d,
        ;
        assert(2 * x == q * (2 * d) + 2 * r) by (nonlinear_arith)
            requires
                x == q * d + r,
        ;
        lemma_fundamental_div_mod_converse(2 * x, 2 * d, q, 2 * r);
        let m = nearest_even(n, pow2(e)) as int;
        assert(nearest_even(2 * n, pow2(e + 1)) == m);
        assert(m * (2 * d) == 2 * (m * d)) by (nonlinear_arith);
    }
}

/// Scaling a number by a power of two scales what it is rounded to.
proof fn lemma_single_of_scaled(n: nat, k: nat)
    ensures
        single(n * pow2(k)) == single(n) * pow2(k),
    decreases k,
{
    lemma2_to64();
    if k == 0 {
        assert(n * 1 == n && single(n) * 1 == single(n));
    } else {
        lemma_single_of_scaled(n, (k - 1) as nat);
        lemma_pow2_unfold(k);
        let p = pow2((k - 1) as nat);
        lemma_single_of_double(n * p);
        let (x, y, z) = (n as int, p as int, single(n) as int);
        assert(x * (2 * y) == 2 * (x * y)) by (nonlinear_arith);
        assert(z * (2 * y) == 2 * (z * y)) by (nonlinear_arith);
    }
}

/// What is rounded once is not rounded again.
proof fn lemma_single_is_stable(n: nat)
    ensures
        single(single(n)) == single(n),
{
    let e = excess_bits(n);
    let m = nearest_even(n, pow2(e));
    lemma_excess_bits(n);
    lemma_nearest_even_bounds(n, pow2(e), 0x100_0000);
    lemma_single_of_scaled(m, e);
    if m < 0x100_0000 {
        lemma_small_is_exact(m);
    } else {
        lemma_small_is_exact(0x80_0000);
        lemma_single_of_double(0x80_0000);
    }
}

/// A picture does not grow in height when its width shrinks: for all the rounding, it
/// stays within its own height, rounded to 24 bits. That is the height itself where it
/// has no more than 24 bits.
pub proof fn law_shrinking_does_not_enlarge(width: u32, height: u32, new_width: u32)
    requires
        new_width < width,
    ensures
        shrunk_height(width, height, new_width) <= single(height as nat),
        height < 0x100_0000 ==> single(height as nat) == height,
{
    let a = single(new_width as nat);
    let b = single(width as nat);
    let k = doublings(a, b);
    lemma_single_is_monotone(new_width as nat, width as nat);
    lemma_single_is_monotone(1, width as nat);
    lemma_small_is_exact(1);
    let t = a * pow2(k);
    let significand = nearest_even(t, b);
    lemma_pow2_pos(k);
    let (x, y, z) = (a as int, b as int, pow2(k) as int);
    assert(x * z <= z * y) by (nonlinear_arith)
        requires
            x <= y,
            z > 0,
    ;
    lemma_nearest_even_bounds(t, b, pow2(k));
    let h = single(height as nat);
    if height < 0x100_0000 {
        lemma_small_is_exact(height as nat);
    }
    let (g, s) = (h as int, significand as int);
    assert(0 <= g * s <= g * z) by (nonlinear_arith)
        requires
            g >= 0,
            0 <= s <= z,
    ;
    lemma_single_is_stable(height as nat);
    lemma_single_of_scaled(h, k);
    lemma_single_is_monotone(h * significand, h * pow2(k));
    let r = single(h * significand) as int;
    assert(r / z <= g) by (nonlinear_arith)
        requires
            0 <= r <= g * z,
            z > 0,
    ;
}

/// What a quotient is rounded to is off by half of one at most.
proof fn lemma_nearest_even_is_close(n: nat, d: nat)
    requires
        d > 0,
    ensures
        2 * (nearest_even(n, d) * d) <= 2 * n + d,
        2 * n <= 2 * (nearest_even(n, d) * d) + d,
{
    let (x, y) = (n as int, d as int);
    let q = x / y;
    let r = x % y;
    assert(x == q * y + r && 0 <= r < y) by (nonlinear_arith)
        requires
            y > 0,
            q == x / y,
            r == x % y,
    ;
    assert((q + 1) * y == q * y + y) by (nonlinear_arith);
}

/// Rounding to 24 bits is off by one part in two to the 24th at most.
proof fn lemma_single_is_close(n: nat)
    ensures
        0x100_0000 * single(n) <= 0x100_0000 * n + n,
        0x100_0000 * n <= 0x100_0000 * single(n) + n,
{
    let e = excess_bits(n);
    lemma_excess_bits(n);
    if e == 0 {
        lemma_small_is_exact(n);
    } else {
        lemma_nearest_even_is_close(n, pow2(e));
    }
}

/// Doubling goes on until the quotient has 24 bits.
proof fn lemma_doublings_fill_24_bits(a: nat, b: nat)
    requires
        0 < a < 0x100_0000 * b,
    ensures
        0x100_0000 * b <= 2 * (a * pow2(doublings(a, b))),
    decreases 0x100_0000 * b - a,
{
    lemma2_to64();
    if 2 * a >= 0x100_0000 * b {
        assert(a * pow2(0) == a);
    } else {
        lemma_doublings_fill_24_bits(2 * a, b);
        let k = doublings(2 * a, b);
        lemma_pow2_unfold(k + 1);
        let (x, y) = (a as int, pow2(k) as int);
        assert(x * (2 * y) == (2 * x) * y) by (nonlinear_arith);
    }
}

/// A shrunk height is in proportion: within a row, and a sixty-fourth of one for the
/// rounding on the way, it is the height times the ratio of the widths, rounded down.
pub proof fn law_shrinking_keeps_the_proportions(width: u32, height: u32, new_width: u32)
    requires
        new_width < width,
        width < 0x1_0000,
        height < 0x1_0000,
    ensures
        64 * (shrunk_height(width, height, new_width) * width) <= 64 * (height * new_width)
            + width,
        64 * (height * new_width) <= 64 * ((shrunk_height(width, height, new_width) + 1) * width)
            + width,
{
    let (w, big, g) = (new_width as nat, width as nat, height as nat);
    lemma_small_is_exact(w);
    lemma_small_is_exact(big);
    lemma_small_is_exact(g);
    law_shrinking_does_not_enlarge(width, height, new_width);
    let k = doublings(w, big);
    let d = pow2(k);
    lemma_pow2_pos(k);
    let m = nearest_even(w * d, big);
    let p = single(g * m);
    let h = shrunk_height(width, height, new_width);
    lemma_nearest_even_is_close(w * d, big);
    lemma_single_is_close(g * m);
    let (ww, bb, gg, dd, mm, pp, hh) = (
        w as int,
        big as int,
        g as int,
        d as int,
        m as int,
        p as int,
        (p / d) as int,
    );
    assert(hh * dd <= pp < (hh + 1) * dd) by (nonlinear_arith)
        requires
            dd > 0,
            pp >= 0,
            hh == pp / dd,
    ;
    if w == 0 {
        assert(ww * dd == 0) by (nonlinear_arith)
            requires
                ww == 0,
        ;
        assert(m == 0);
        assert(gg * mm == 0) by (nonlinear_arith)
            requires
                mm == 0,
        ;
        lemma_small_is_exact(0);
        assert(p == 0);
        assert(hh == 0) by (nonlinear_arith)
            requires
                hh == pp / dd,
                pp == 0,
                dd > 0,
        ;
        assert(h == 0);
        assert(gg * ww == 0 && 0 * bb == 0) by (nonlinear_arith)
            requires
                ww == 0,
        ;
    } else {
        lemma_doublings_fill_24_bits(w, big);
        lemma_proportion(ww, bb, gg, dd, mm, pp, hh);
        assert(hh <= g) by {
            lemma_height_is_small(ww, bb, gg, hh);
        }
        assert(h == hh);
    }
}

/// A height whose product is that small is within the range of heights.
proof fn lemma_height_is_small(w: int, b: int, g: int, h: int)
    requires
        0 < w < b,
        0 <= g < 0x1_0000,
        64 * (h * b) <= 64 * (g * w) + b,
    ensures
        h <= g,
{
    assert(h <= g) by (nonlinear_arith)
        requires
            0 < w < b,
            0 <= g,
            64 * (h * b) <= 64 * (g * w) + b,
    ;
}

/// The errors of the two roundings, put together, for pictures of ordinary size.
proof fn lemma_proportion(w: int, b: int, g: int, d: int, m: int, p: int, h: int)
    requires
        0 < w < b < 0x1_0000,
        0 <= g < 0x1_0000,
        0 < d,
        0 <= m,
        0 <= p,
        0 <= h,
        2 * (m * b) <= 2 * (w * d) + b,
        2 * (w * d) <= 2 * (m * b) + b,
        0x100_0000 * b <= 2 * (w * d),
        0x100_0000 * p <= 0x100_0000 * (g * m) + g * m,
        0x100_0000 * (g * m) <= 0x100_0000 * p + g * m,
        h * d <= p < (h + 1) * d,
    ensures
        64 * (h * b) <= 64 * (g * w) + b,
        64 * (g * w) <= 64 * ((h + 1) * b) + b,
{
    lemma_two_roundings(w, b, g, d, m, p, h);
    let s = g * w;
    assert(0 <= s <= 65535 * b) by (nonlinear_arith)
        requires
            s == g * w,
            0 <= g <= 65535,
            0 < w < b,
    ;
}

/// The errors of the two roundings, put together.
proof fn lemma_two_roundings(w: int, b: int, g: int, d: int, m: int, p: int, h: int)
    requires
        0 < w,
        0 < b,
        0 <= g,
        0 < d,
        0 <= m,
        0 <= p,
        0 <= h,
        2 * (m * b) <= 2 * (w * d) + b,
        2 * (w * d) <= 2 * (m * b) + b,
        0x100_0000 * b <= 2 * (w * d),
        0x100_0000 * p <= 0x100_0000 * (g * m) + g * m,
        0x100_0000 * (g * m) <= 0x100_0000 * p + g * m,
        h * d <= p < (h + 1) * d,
    ensures
        0x100_0000 * (0x100_0000 * (h * b)) <= 0x100_0001 * (0x100_0001 * (g * w)),
        0xff_ffff * (0xff_ffff * (g * w)) <= 0x100_0000 * (0x100_0000 * ((h + 1) * b)),
{
    let n: int = 0x100_0000;
    let t = 2 * (w * d);
    let u = 2 * (m * b);
    // The ratio is off by one part in `n`.
    assert(n * u <= (n + 1) * t && (n - 1) * t <= n * u) by (nonlinear_arith)
        requires
            n == 0x100_0000,
            u <= t + b,
            t <= u + b,
            n * b <= t,
    ;
    // So is the product of the height and the ratio.
    assert(2 * (n * ((h * d) * b)) <= (n + 1) * (g * u)) by (nonlinear_arith)
        requires
            n == 0x100_0000,
            b > 0,
            u == 2 * (m * b),
            n * p <= n * (g * m) + g * m,
            h * d <= p,
    ;
    assert((n - 1) * (g * u) <= 2 * (n * (((h + 1) * d) * b))) by (nonlinear_arith)
        requires
            n == 0x100_0000,
            b > 0,
            u == 2 * (m * b),
            n * (g * m) <= n * p + g * m,
            p < (h + 1) * d,
    ;
    assert(n * (g * u) <= (n + 1) * (g * t) && (n - 1) * (g * t) <= n * (g * u)) by (nonlinear_arith)
        requires
            g >= 0,
            n * u <= (n + 1) * t,
            (n - 1) * t <= n * u,
    ;
    let s = g * w;
    assert(g * t == 2 * (s * d)) by (nonlinear_arith)
        requires
            t == 2 * (w * d),
            s == g * w,
    ;
    let (x, y) = (h * b, (h + 1) * b);
    assert((h * d) * b == x * d && ((h + 1) * d) * b == y * d) by (nonlinear_arith)
        requires
            x == h * b,
            y == (h + 1) * b,
    ;
    let (xd, yd, sd) = (x * d, y * d, s * d);
    assert(n * (n * xd) <= (n + 1) * ((n + 1) * sd));
    assert((n - 1) * ((n - 1) * sd) <= n * (n * yd));
    assert(n * (n * x) <= (n + 1) * ((n + 1) * s)) by (nonlinear_arith)
        requires
            n * (n * xd) <= (n + 1) * ((n + 1) * sd),
            n == 0x100_0000,
            xd == x * d,
            sd == s * d,
            d > 0,
    ;
    assert((n - 1) * ((n - 1) * s) <= n * (n * y)) by (nonlinear_arith)
        requires
            (n - 1) * ((n - 1) * sd) <= n * (n * yd),
            n == 0x100_0000,
            yd == y * d,
            sd == s * d,
            d > 0,
    ;
}

/// However large a picture is, its shrunk height is in proportion within a row and eight
/// parts in two to the 24th.
pub proof fn law_shrinking_keeps_all_proportions(width: u32, height: u32, new_width: u32)
    requires
        new_width < width,
    ensures
        0x100_0000 * (shrunk_height(width, height, new_width) * width) <= 0x100_0008 * (height
            * new_width),
        0xff_fff8 * (height * new_width) <= 0x100_0000 * ((shrunk_height(width, height, new_width)
            + 1) * width),
{
    let a = single(new_width as nat);
    let b = single(width as nat);
    let g = single(height as nat);
    lemma_single_is_close(new_width as nat);
    lemma_single_is_close(width as nat);
    lemma_single_is_close(height as nat);
    lemma_single_is_monotone(new_width as nat, width as nat);
    lemma_single_is_monotone(1, width as nat);
    lemma_small_is_exact(1);
    let k = doublings(a, b);
    let d = pow2(k);
    lemma_pow2_pos(k);
    let m = nearest_even(a * d, b);
    let p = single(g * m);
    let h = shrunk_height(width, height, new_width) as int;
    lemma_nearest_even_is_close(a * d, b);
    lemma_single_is_close(g * m);
    let (x, y, z, dd, mm, pp, q) = (
        a as int,
        b as int,
        g as int,
        d as int,
        m as int,
        p as int,
        (p / d) as int,
    );
    assert(q * dd <= pp < (q + 1) * dd && q >= 0) by (nonlinear_arith)
        requires
            dd > 0,
            pp >= 0,
            q == pp / dd,
    ;
    let (v, w, u) = (width as int, new_width as int, height as int);
    if a == 0 {
        assert(w == 0);
        assert(x * dd == 0 && u * w == 0) by (nonlinear_arith)
            requires
                x == 0,
                w == 0,
        ;
        assert(m == 0);
        assert(z * mm == 0) by (nonlinear_arith)
            requires
                mm == 0,
        ;
        lemma_small_is_exact(0);
        assert(p == 0);
        assert(q == 0) by (nonlinear_arith)
            requires
                q == pp / dd,
                pp == 0,
                dd > 0,
        ;
        assert(h == 0);
        assert(h * v == 0) by (nonlinear_arith)
            requires
                h == 0,
        ;
    } else {
        lemma_doublings_fill_24_bits(a, b);
        lemma_two_roundings(x, y, z, dd, mm, pp, q);
        lemma_three_more_roundings(x, y, z, w, v, u, q);
        if h != q {
            // The height is the largest there is.
            assert(h == 0xffff_ffff && q > h);
            assert(h * v <= q * v) by (nonlinear_arith)
                requires
                    h <= q,
                    v > 0,
            ;
            assert(u * w <= (h + 1) * v) by (nonlinear_arith)
                requires
                    0 <= u <= h,
                    0 <= w <= v,
            ;
        }
    }
}

/// The errors of the two roundings and of those of the sizes themselves, put together.
proof fn lemma_three_more_roundings(x: int, y: int, z: int, w: int, v: int, u: int, q: int)
    requires
        0 <= w,
        0 < v,
        0 <= u,
        0 <= x,
        0 < y,
        0 <= z,
        0 <= q,
        0x100_0000 * x <= 0x100_0001 * w,
        0xff_ffff * w <= 0x100_0000 * x,
        0x100_0000 * y <= 0x100_0001 * v,
        0xff_ffff * v <= 0x100_0000 * y,
        0x100_0000 * z <= 0x100_0001 * u,
        0xff_ffff * u <= 0x100_0000 * z,
        0x100_0000 * (0x100_0000 * (q * y)) <= 0x100_0001 * (0x100_0001 * (z * x)),
        0xff_ffff * (0xff_ffff * (z * x)) <= 0x100_0000 * (0x100_0000 * ((q + 1) * y)),
    ensures
        0x100_0000 * (q * v) <= 0x100_0008 * (u * w),
        0xff_fff8 * (u * w) <= 0x100_0000 * ((q + 1) * v),
{
    let n: int = 0x100_0000;
    let s = u * w;
    let t = z * x;
    assert(n * (n * t) <= (n + 1) * ((n + 1) * s)) by (nonlinear_arith)
        requires
            n == 0x100_0000,
            s == u * w,
            t == z * x,
            0 <= u,
            0 <= w,
            0 <= x,
            0 <= z,
            n * x <= (n + 1) * w,
            n * z <= (n + 1) * u,
    ;
    assert((n - 1) * ((n - 1) * s) <= n * (n * t)) by (nonlinear_arith)
        requires
            n == 0x100_0000,
            s == u * w,
            t == z * x,
            0 <= u,
            0 <= w,
            0 <= x,
            0 <= z,
            (n - 1) * w <= n * x,
            (n - 1) * u <= n * z,
    ;
    let (qy, qv, ry, rv) = (q * y, q * v, (q + 1) * y, (q + 1) * v);
    assert((n - 1) * qv <= n * qy && n * ry <= (n + 1) * rv) by (nonlinear_arith)
        requires
            n == 0x100_0000,
            qy == q * y,
            qv == q * v,
            ry == (q + 1) * y,
            rv == (q + 1) * v,
            q >= 0,
            (n - 1) * v <= n * y,
            n * y <= (n + 1) * v,
    ;
    assert(s >= 0 && qv >= 0 && rv >= 0) by (nonlinear_arith)
        requires
            s == u * w,
            qv == q * v,
            rv == (q + 1) * v,
            0 <= u,
            0 <= w,
            0 <= q,
            0 < v,
    ;
}

} // verus!
