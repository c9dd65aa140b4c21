use vstd::prelude::*;

verus! {

/// The number one on the scale of the blend: every quantity is counted in
/// units of 2^-31, which the single-precision values between 1/255 and 255
/// are all whole numbers of.
pub const UNIT: u64 = 0x8000_0000;

/// The first count of units that needs more than the 24 significant bits of
/// a single-precision value.
pub const FULL_PRECISION: u64 = 0x100_0000;

/// The distance between neighbouring single-precision values at `q` units:
/// one unit below 2^24 units, and twice as much with each further bit.
pub open spec fn spacing(q: nat) -> nat
    decreases q,
{
    if q < FULL_PRECISION {
        1
    } else {
        2 * spacing(q / 2)
    }
}

/// The multiple of the spacing that is nearest to `num / den` units. Of two
/// that are equally near, the even multiple. For a quotient that is zero, a
/// whole number, or at least 2^23, this is the single-precision value
/// nearest to it, as IEEE 754 rounds.
pub open spec fn nearest(num: nat, den: nat) -> nat {
    let q = num / den;
    let step = spacing(q);
    let below = (q / step) * step;
    let twice_rest = 2 * (num - below * den);
    if twice_rest > step * den || (twice_rest == step * den && (q / step) % 2 == 1) {
        below + step
    } else {
        below
    }
}

/// One channel of the linear blend of a mask's colour and a fill, the mask
/// weighted by `alpha / 255`, as single-precision arithmetic computes
/// `mask * alpha / 255 + fill * (1 - alpha / 255)`, each step rounded to the
/// nearest value, and the sum cut off to a whole number.
pub open spec fn blend_channel(mask: u8, alpha: u8, fill: u8) -> u8 {
    let of_mask = nearest(mask as nat * alpha as nat * UNIT as nat, 255);
    let weight = nearest(alpha as nat * UNIT as nat, 255);
    let rest = nearest(
        if weight <= UNIT {
            (UNIT - weight) as nat
        } else {
            0
        },
        1,
    );
    let of_fill = nearest(fill as nat * rest, 1);
    let sum = nearest(of_mask + of_fill, 1);
    if sum / (UNIT as nat) >= 255 {
        255
    } else {
        (sum / (UNIT as nat)) as u8
    }
}

/// The spacing is at least one unit and no more than the value itself.
pub proof fn lemma_spacing_bounds(q: nat)
    ensures
        spacing(q) >= 1,
        spacing(q) <= q || spacing(q) == 1,
    decreases q,
{
    if q >= FULL_PRECISION {
        lemma_spacing_bounds(q / 2);
    }
}

/// Rounding moves a value by no more than its spacing.
pub proof fn lemma_nearest_bounds(num: nat, den: nat)
    requires
        den > 0,
    ensures
        nearest(num, den) <= num / den + spacing(num / den),
        nearest(num, den) <= 2 * (num / den) + 1,
{
    let q = num / den;
    let step = spacing(q);
    lemma_spacing_bounds(q);
    assert((q / step) * step <= q) by (nonlinear_arith)
        requires
            step > 0,
    ;
}

/// Computes the spacing at `q` units.
fn spacing_of(q: u64) -> (step: u64)
    ensures
        step == spacing(q as nat),
        step >= 1,
        step <= q || step == 1,
{
    let mut step: u64 = 1;
    let mut rest: u64 = q;
    while rest >= FULL_PRECISION
        invariant
            step >= 1,
            step == 1 || rest >= 1,
            step * rest <= q,
            spacing(q as nat) == step * spacing(rest as nat),
        decreases rest,
    {
        assert((2 * step) * (rest / 2) <= step * rest) by (nonlinear_arith)
            requires
                step >= 1,
                rest >= 0,
        ;
        assert(2 * step <= step * rest) by (nonlinear_arith)
            requires
                step >= 1,
                rest >= 2,
        ;
        assert(step * (2 * spacing((rest / 2) as nat)) == (2 * step) * spacing((rest / 2) as nat))
            by (nonlinear_arith);
        step = 2 * step;
        rest = rest / 2;
    }
    assert(step <= q || step == 1) by (nonlinear_arith)
        requires
            step >= 1,
            step * rest <= q,
            rest >= 1 || step == 1,
    ;
    assert(step * 1 == step);
    step
}

/// Rounds `num / den` units to the nearest single-precision value.
fn nearest_of(num: u64, den: u64) -> (r: u64)
    requires
        0 < den <= 255,
        num < 0x1_0000_0000_0000,
    ensures
        r == nearest(num as nat, den as nat),
        r <= 2 * (num / den) + 1,
{
    let q: u64 = num / den;
    let step: u64 = spacing_of(q);
    let multiple: u64 = q / step;
    proof {
        lemma_nearest_bounds(num as nat, den as nat);
        assert(multiple * step <= q) by (nonlinear_arith)
            requires
                multiple == q / step,
                step > 0,
        ;
        assert(q * den <= num) by (nonlinear_arith)
            requires
                q == num / den,
                den > 0,
        ;
        assert((multiple * step) * den <= q * den) by (nonlinear_arith)
            requires
                multiple * step <= q,
                den > 0,
        ;
        assert(step * den <= 255 * 0x1_0000_0000_0000) by (nonlinear_arith)
            requires
                step <= q || step == 1,
                q <= num,
                num < 0x1_0000_0000_0000,
                0 < den <= 255,
        ;
    }
    let below: u64 = multiple * step;
    let twice_rest: u64 = 2 * (num - below * den);
    let full: u64 = step * den;
    if twice_rest > full || (twice_rest == full && multiple % 2 == 1) {
        below + step
    } else {
        below
    }
}

/// Blends one channel of a mask pixel with the fill.
pub fn blend(mask: u8, alpha: u8, fill: u8) -> (r: u8)
    ensures
        r == blend_channel(mask, alpha, fill),
{
    let m: u64 = mask as u64;
    let a: u64 = alpha as u64;
    let f: u64 = fill as u64;
    assert(m * a <= 255 * 255) by (nonlinear_arith)
        requires
            0 <= m <= 255,
            0 <= a <= 255,
    ;
    assert(m * a * UNIT <= 255 * 255 * UNIT) by (nonlinear_arith)
        requires
            0 <= m * a <= 255 * 255,
    ;
    let of_mask: u64 = nearest_of(m * a * UNIT, 255);
    let weight: u64 = nearest_of(a * UNIT, 255);
    let rest: u64 = nearest_of(
        if weight <= UNIT {
            UNIT - weight
        } else {
            0
        },
        1,
    );
    assert(f * rest <= 255 * (2 * UNIT + 1)) by (nonlinear_arith)
        requires
            0 <= f <= 255,
            0 <= rest <= 2 * UNIT + 1,
    ;
    let of_fill: u64 = nearest_of(f * rest, 1);
    let sum: u64 = nearest_of(of_mask + of_fill, 1);
    let whole: u64 = sum / UNIT;
    if whole >= 255 {
        255
    } else {
        whole as u8
    }
}

/// Two to the power of `n`.
pub open spec fn two_to(n: nat) -> nat
    decreases n,
{
    if n == 0 {
        1
    } else {
        2 * two_to((n - 1) as nat)
    }
}

/// Below 2^(24 + n) units the spacing is a power of two that divides 2^n.
pub proof fn lemma_spacing_divides(q: nat, n: nat)
    requires
        q < FULL_PRECISION * two_to(n),
    ensures
        two_to(n) % spacing(q) == 0,
    decreases n,
{
    if q >= FULL_PRECISION {
        let half = two_to((n - 1) as nat);
        lemma_spacing_divides(q / 2, (n - 1) as nat);
        lemma_spacing_bounds(q / 2);
        let s = spacing(q / 2);
        let c = half / s;
        vstd::arithmetic::div_mod::lemma_fundamental_div_mod(half as int, s as int);
        assert(2 * half == c * (2 * s)) by (nonlinear_arith)
            requires
                half == s * c,
        ;
        vstd::arithmetic::div_mod::lemma_mod_multiples_basic(c as int, (2 * s) as int);
    }
}

/// A whole number of ones that is at most 511 is a single-precision value:
/// rounding leaves it as it is.
pub proof fn lemma_nearest_keeps_whole(k: nat, den: nat)
    requires
        k <= 511,
        den > 0,
    ensures
        nearest(k * (UNIT as nat) * den, den) == k * (UNIT as nat),
{
    let unit: nat = UNIT as nat;
    let v: nat = k * unit;
    assert(two_to(31) == UNIT) by {
        reveal_with_fuel(two_to, 32);
    }
    assert(v < FULL_PRECISION * two_to(31)) by (nonlinear_arith)
        requires
            v == k * unit,
            unit == 0x8000_0000,
            k <= 511,
            two_to(31) == unit,
    ;
    lemma_spacing_divides(v, 31);
    lemma_spacing_bounds(v);
    let step = spacing(v);
    assert((v * den) / den == v) by (nonlinear_arith)
        requires
            den > 0,
    ;
    let c = unit / step;
    vstd::arithmetic::div_mod::lemma_fundamental_div_mod(unit as int, step as int);
    assert(v == (k * c) * step) by (nonlinear_arith)
        requires
            v == k * unit,
            unit == step * c,
    ;
    vstd::arithmetic::div_mod::lemma_mod_multiples_basic((k * c) as int, step as int);
    vstd::arithmetic::div_mod::lemma_fundamental_div_mod(v as int, step as int);
    assert((v / step) * step == v) by (nonlinear_arith)
        requires
            v == step * (v / step) + v % step,
            v % step == 0,
    ;
    assert(step * den > 0) by (nonlinear_arith)
        requires
            step >= 1,
            den > 0,
    ;
}

/// Where the mask is opaque the blend is the colour of the mask, and where
/// it is clear the blend is the fill.
pub proof fn lemma_blend_ends(mask: u8, fill: u8)
    ensures
        blend_channel(mask, 255, fill) == mask,
        blend_channel(mask, 0, fill) == fill,
{
    let unit = UNIT as nat;
    // opaque
    lemma_nearest_keeps_whole(mask as nat, 255);
    assert(mask as nat * 255 * unit == mask as nat * unit * 255) by (nonlinear_arith);
    lemma_nearest_keeps_whole(1, 255);
    lemma_nearest_keeps_whole(0, 1);
    assert(fill as nat * 0 == 0);
    lemma_nearest_keeps_whole(mask as nat, 1);
    assert(mask as nat * unit * 1 == mask as nat * unit) by (nonlinear_arith);
    assert((mask as nat * unit) / unit == mask as nat) by (nonlinear_arith)
        requires
            unit > 0,
    ;
    // clear
    assert(mask as nat * 0 * unit == 0) by (nonlinear_arith);
    assert(nearest(0, 255) == 0) by {
        lemma_nearest_keeps_whole(0, 255);
    }
    lemma_nearest_keeps_whole(1, 1);
    lemma_nearest_keeps_whole(fill as nat, 1);
    assert(fill as nat * unit * 1 == fill as nat * unit) by (nonlinear_arith);
    assert((fill as nat * unit) / unit == fill as nat) by (nonlinear_arith)
        requires
            unit > 0,
    ;
}

/// Below 2^(24 + n) units the spacing is at most 2^n.
pub proof fn lemma_spacing_at_most(q: nat, n: nat)
    requires
        q < FULL_PRECISION * two_to(n),
    ensures
        1 <= spacing(q) <= two_to(n),
    decreases n,
{
    lemma_spacing_bounds(q);
    if q >= FULL_PRECISION {
        lemma_spacing_at_most(q / 2, (n - 1) as nat);
    }
}

/// Rounding moves a quotient by no more than half the spacing at it.
pub proof fn lemma_nearest_error(num: nat, den: nat)
    requires
        den > 0,
    ensures
        2 * (nearest(num, den) * den - num) <= spacing(num / den) * den,
        2 * (num - nearest(num, den) * den) <= spacing(num / den) * den,
{
    let q = num / den;
    let step = spacing(q);
    lemma_spacing_bounds(q);
    let multiple = q / step;
    let below = multiple * step;
    vstd::arithmetic::div_mod::lemma_fundamental_div_mod(q as int, step as int);
    vstd::arithmetic::div_mod::lemma_fundamental_div_mod(num as int, den as int);
    assert(below == step * multiple) by (nonlinear_arith)
        requires
            below == multiple * step,
    ;
    assert(0 <= q % step < step);
    assert(0 <= num % den < den);
    assert(below <= q < below + step);
    assert(below * den <= q * den) by (nonlinear_arith)
        requires
            below <= q,
            den > 0,
    ;
    assert((q + 1) * den <= (below + step) * den) by (nonlinear_arith)
        requires
            q + 1 <= below + step,
            den > 0,
    ;
    assert(q * den == den * q) by (nonlinear_arith);
    assert((q + 1) * den == q * den + den) by (nonlinear_arith);
    assert((below + step) * den == below * den + step * den) by (nonlinear_arith);
    let rest = num - below * den;
    assert(0 <= rest < step * den);
    if 2 * rest > step * den || (2 * rest == step * den && multiple % 2 == 1) {
        assert(nearest(num, den) == below + step);
    } else {
        assert(nearest(num, den) == below);
    }
}

/// Rounding a quotient below 2^(24 + n) units moves it by no more than
/// 2^(n - 1) units.
pub proof fn lemma_nearest_within(num: nat, den: nat, n: nat)
    requires
        den > 0,
        num / den < FULL_PRECISION * two_to(n),
    ensures
        2 * (nearest(num, den) * den - num) <= two_to(n) * den,
        2 * (num - nearest(num, den) * den) <= two_to(n) * den,
{
    lemma_nearest_error(num, den);
    lemma_spacing_at_most(num / den, n);
    assert(spacing(num / den) * den <= two_to(n) * den) by (nonlinear_arith)
        requires
            spacing(num / den) <= two_to(n),
            den > 0,
    ;
}

/// The blend is the exact linear blend `(mask * alpha + fill * (255 -
/// alpha)) / 255`, rounded down, or one below it: the roundings of single
/// precision can pull the sum under a whole number but never over one.
pub proof fn lemma_blend_near_exact(mask: u8, alpha: u8, fill: u8)
    ensures
        (mask * alpha + fill * (255 - alpha)) / 255 - 1 <= blend_channel(mask, alpha, fill) <= (
        mask * alpha + fill * (255 - alpha)) / 255,
{
    let unit: nat = UNIT as nat;
    let m: nat = mask as nat;
    let a: nat = alpha as nat;
    let f: nat = fill as nat;
    assert(two_to(8) == 256 && two_to(15) == 32768 && two_to(16) == 65536 && two_to(17) == 131072)
        by {
        reveal_with_fuel(two_to, 18);
    }
    // the share of the mask
    let ma: nat = m * a;
    assert(ma <= 255 * a) by (nonlinear_arith)
        requires
            ma == m * a,
            m <= 255,
    ;
    let n2: nat = m * a * unit;
    assert(n2 == ma * 0x8000_0000) by (nonlinear_arith)
        requires
            n2 == m * a * unit,
            ma == m * a,
            unit == 0x8000_0000,
    ;
    let of_mask = nearest(n2, 255);
    lemma_nearest_within(n2, 255, 15);
    let e2: int = of_mask * 255 - ma * 0x8000_0000;
    assert(-255 * 16384 <= e2 <= 255 * 16384);
    // the weight of the mask
    let n3: nat = a * unit;
    let weight = nearest(n3, 255);
    lemma_nearest_within(n3, 255, 8);
    if a == 255 {
        lemma_nearest_keeps_whole(1, 255);
        assert(1 * unit * 255 == n3);
    }
    assert(weight <= unit);
    let e3: int = weight * 255 - a * 0x8000_0000;
    assert(-255 * 128 <= e3 <= 255 * 128);
    // the weight of the fill
    let n4: nat = (unit - weight) as nat;
    let rest = nearest(n4, 1);
    lemma_nearest_within(n4, 1, 8);
    let d4: int = rest - n4;
    assert(-128 <= d4 <= 128);
    // the share of the fill
    let fa: nat = (f * (255 - a)) as nat;
    assert(fa <= 255 * (255 - a)) by (nonlinear_arith)
        requires
            fa == f * (255 - a),
            f <= 255,
            a <= 255,
    ;
    let n5: nat = f * rest;
    let e5: int = 255 * n5 - fa * 0x8000_0000;
    assert(e5 == 255 * f * d4 - f * e3) by (nonlinear_arith)
        requires
            e5 == 255 * n5 - fa * 0x8000_0000,
            n5 == f * rest,
            fa == f * (255 - a),
            d4 == rest - n4,
            n4 == 0x8000_0000 - weight,
            e3 == weight * 255 - a * 0x8000_0000,
            a <= 255,
    ;
    assert(-255 * 255 * 256 <= e5 <= 255 * 255 * 256) by (nonlinear_arith)
        requires
            e5 == 255 * f * d4 - f * e3,
            f <= 255,
            -128 <= d4 <= 128,
            -255 * 128 <= e3 <= 255 * 128,
    ;
    assert(n5 <= 255 * 0x8000_0100) by (nonlinear_arith)
        requires
            n5 == f * rest,
            f <= 255,
            rest <= 0x8000_0000 + 128,
    ;
    let of_fill = nearest(n5, 1);
    lemma_nearest_within(n5, 1, 16);
    let d5: int = of_fill - n5;
    assert(-32768 <= d5 <= 32768);
    // the sum
    let n6: nat = of_mask + of_fill;
    let sum = nearest(n6, 1);
    lemma_nearest_within(n6, 1, 17);
    let d6: int = sum - n6;
    assert(-65536 <= d6 <= 65536);
    // against the exact blend
    let k: nat = (m * a + f * (255 - a)) as nat;
    assert(k == ma + fa);
    assert(k <= 255 * 255);
    let error: int = 255 * sum - k * 0x8000_0000;
    assert(error == 255 * d6 + e2 + 255 * d5 + e5);
    assert(-255 * 200_000 <= error <= 255 * 200_000);
    let exact: nat = k / 255;
    vstd::arithmetic::div_mod::lemma_fundamental_div_mod(k as int, 255);
    assert(k == 255 * exact + k % 255);
    assert(sum < (exact + 1) * 0x8000_0000);
    assert(exact == 0 || sum >= (exact - 1) * 0x8000_0000);
    assert(sum / unit <= exact && (exact == 0 || sum / unit >= exact - 1));
    assert(exact <= 255);
}

} // verus!
