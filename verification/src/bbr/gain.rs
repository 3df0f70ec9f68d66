//! Gains, and the scaling of byte counts by them.
//!
//! A gain is held as a whole number of `2^-25`, which every gain of the controller is
//! exactly. Scaling rounds by the rule of double precision: each intermediate result is
//! rounded to 53 significant bits, half-way cases to even, and the final one is cut off to
//! a whole number. The rounding is carried out in integer arithmetic.

use vstd::prelude::*;

verus! {

/// The gain 1.
pub const GAIN_ONE: u32 = 0x200_0000;

/// The gain used for STARTUP, 2/ln(2): the single-precision value of 2.885.
pub const HIGH_GAIN: u32 = 96_804_536;

/// The gain used to drain the queue: the single-precision inverse of [`HIGH_GAIN`].
pub const DRAIN_GAIN: u32 = 11_630_652;

/// The congestion window gain while probing for bandwidth, 2.
pub const PROBE_BW_CWND_GAIN: u32 = 0x400_0000;

/// The gain that sizes the window while probing for the round-trip time, 0.75.
pub const PROBE_RTT_GAIN: u32 = 0x180_0000;

/// The bandwidth growth per round that STARTUP expects, 1.25.
pub const STARTUP_GROWTH: u32 = 0x280_0000;

/// Number of phases in the gain cycle of bandwidth probing.
pub const GAIN_CYCLE_LEN: u8 = 8;

/// `2^52`, the least whole number that takes 53 bits.
pub const MANTISSA_MIN: u128 = 0x10_0000_0000_0000;

/// A product of microseconds, bytes per second and units of gain, per byte.
pub const UNITS_PER_BYTE: u128 = 33_554_432_000_000;

/// The pacing gain of a phase: 1.25, then 0.75, then 1 six times.
pub open spec fn cycle_gain(phase: int) -> u32 {
    if phase == 0 {
        0x280_0000
    } else if phase == 1 {
        0x180_0000
    } else {
        GAIN_ONE
    }
}

/// The pacing gain of a phase of the cycle.
pub fn pacing_gain_of(phase: u8) -> (r: u32)
    ensures
        r == cycle_gain(phase as int),
{
    if phase == 0 {
        0x280_0000
    } else if phase == 1 {
        0x180_0000
    } else {
        GAIN_ONE
    }
}

/// The whole number nearest to `n / d`; half-way between two, the even one.
pub open spec fn nearest(n: int, d: int) -> int {
    let floor = n / d;
    if 2 * (n % d) < d || (2 * (n % d) == d && floor % 2 == 0) {
        floor
    } else {
        floor + 1
    }
}

/// The distance between neighbouring doubles at the whole number `n`: 1 below `2^53`, and
/// twice as much with every doubling from there.
pub open spec fn spacing(n: int) -> int
    decreases n,
{
    if n < 2 * MANTISSA_MIN {
        1
    } else {
        2 * spacing(n / 2)
    }
}

/// The double nearest to the whole number `n`.
pub open spec fn to_double(n: int) -> int {
    nearest(n, spacing(n)) * spacing(n)
}

/// The power of two by which `n / d`, which is positive and below `2^53`, is multiplied to
/// have 53 bits before the point.
pub open spec fn magnification(n: int, d: int) -> int
    decreases
            if n < MANTISSA_MIN * d {
                MANTISSA_MIN * d - n
            } else {
                0
            },
{
    if n <= 0 || n >= MANTISSA_MIN * d {
        1
    } else {
        2 * magnification(2 * n, d)
    }
}

/// The double nearest to `n / d`, cut off to a whole number.
pub open spec fn double_quotient(n: int, d: int) -> int {
    let m = magnification(n, d);
    nearest(n * m, d) / m
}

/// `gain` times `bdp` (in microseconds times bytes per second), in bytes.
pub open spec fn scaled(gain: u32, bdp: u64) -> int {
    double_quotient(to_double(gain * to_double(bdp as int)), UNITS_PER_BYTE as int)
}

/// The bandwidth that `bw` has to reach within a round while it is still growing.
pub open spec fn growth_target_of(bw: u64) -> int {
    let target = to_double(STARTUP_GROWTH * to_double(bw as int)) / (GAIN_ONE as int);
    if target > u64::MAX {
        u64::MAX as int
    } else {
        target
    }
}

fn nearest_quotient(n: u128, d: u128) -> (r: u128)
    requires
        0 < d <= u128::MAX / 2,
        n < u128::MAX,
    ensures
        r == nearest(n as int, d as int),
        r <= n / d + 1,
{
    let floor: u128 = n / d;
    let rest: u128 = n % d;
    proof {
        assert(floor <= n) by (nonlinear_arith)
            requires
                floor == n / d,
                d > 0,
        ;
    }
    if 2 * rest < d || (2 * rest == d && floor % 2 == 0) {
        floor
    } else {
        floor + 1
    }
}

/// The double nearest to `n`.
fn round_to_double(n: u128) -> (r: u128)
    requires
        n < 0x1_0000_0000_0000_0000_0000_0000_0000,
    ensures
        r == to_double(n as int),
{
    let mut unit: u128 = 1;
    let mut rest: u128 = n;
    while rest >= 2 * MANTISSA_MIN
        invariant
            n < 0x1_0000_0000_0000_0000_0000_0000_0000,
            1 <= unit,
            unit * rest <= n,
            spacing(n as int) == unit * spacing(rest as int),
        decreases rest,
    {
        proof {
            let half = rest as int / 2;
            assert(unit * 2 <= n) by (nonlinear_arith)
                requires
                    unit * rest <= n,
                    rest >= 2,
            ;
            assert((2 * unit) * half <= n) by (nonlinear_arith)
                requires
                    unit * rest <= n,
                    2 * half <= rest,
                    unit >= 1,
            ;
            assert(unit * (2 * spacing(half)) == (2 * unit) * spacing(half)) by (nonlinear_arith);
        }
        unit = 2 * unit;
        rest = rest / 2;
    }
    assert(unit == spacing(n as int)) by {
        assert(spacing(rest as int) == 1);
        assert(unit * 1 == unit) by (nonlinear_arith);
    }
    proof {
        lemma_to_double_close(n as int);
        if n >= 2 * MANTISSA_MIN {
            lemma_spacing_bound(n as int);
        }
    }
    let whole: u128 = nearest_quotient(n, unit);
    whole * unit
}

/// The double nearest to `n / d`, cut off to a whole number.
fn quotient_in_double(n: u128, d: u128) -> (r: u128)
    requires
        0 < d < 0x4000_0000_0000,
        n < MANTISSA_MIN * d,
    ensures
        r == double_quotient(n as int, d as int),
        r <= MANTISSA_MIN,
{
    if n == 0 {
        return 0;
    }
    let mut m: u128 = 1;
    let mut scaled_n: u128 = n;
    while scaled_n < MANTISSA_MIN * d
        invariant
            0 < d < 0x4000_0000_0000,
            0 < n < MANTISSA_MIN * d,
            m >= 1,
            scaled_n == n * m,
            scaled_n < 2 * (MANTISSA_MIN * d),
            magnification(n as int, d as int) == m * magnification(scaled_n as int, d as int),
        decreases 2 * (MANTISSA_MIN * d) - scaled_n,
    {
        proof {
            assert(m <= n * m) by (nonlinear_arith)
                requires
                    n >= 1,
                    m >= 1,
            ;
            assert(n * (2 * m) == 2 * (n * m)) by (nonlinear_arith);
            let next = magnification(2 * scaled_n, d as int);
            assert(m * (2 * next) == (2 * m) * next) by (nonlinear_arith);
        }
        m = 2 * m;
        scaled_n = 2 * scaled_n;
    }
    assert(m == magnification(n as int, d as int)) by {
        assert(magnification(scaled_n as int, d as int) == 1);
        assert(m * 1 == m) by (nonlinear_arith);
    }
    let whole: u128 = nearest_quotient(scaled_n, d);
    proof {
        assert(m >= 2) by {
            if m == 1 {
                assert(n * 1 == n) by (nonlinear_arith);
            }
        }
        assert(scaled_n / d < 2 * MANTISSA_MIN) by (nonlinear_arith)
            requires
                scaled_n < 2 * (MANTISSA_MIN * d),
                d > 0,
        ;
        assert(whole as int / m as int <= whole as int / 2) by (nonlinear_arith)
            requires
                m >= 2,
                whole >= 0,
        ;
    }
    whole / m
}

/// `gain` times `bdp` (in microseconds times bytes per second), in bytes.
pub fn scale(gain: u32, bdp: u64) -> (r: u64)
    ensures
        r == scaled(gain, bdp),
        r <= MANTISSA_MIN,
{
    proof {
        lemma_product(gain, bdp);
    }
    let bdpf: u128 = round_to_double(bdp as u128);
    let product: u128 = round_to_double(gain as u128 * bdpf);
    quotient_in_double(product, UNITS_PER_BYTE) as u64
}

/// The bandwidth that `bw` has to reach within a round while it is still growing.
pub fn growth_target(bw: u64) -> (r: u64)
    ensures
        r == growth_target_of(bw),
{
    proof {
        lemma_product(STARTUP_GROWTH, bw);
    }
    let bwf: u128 = round_to_double(bw as u128);
    let target: u128 = round_to_double(STARTUP_GROWTH as u128 * bwf) / (GAIN_ONE as u128);
    if target > u64::MAX as u128 {
        u64::MAX
    } else {
        target as u64
    }
}

/// Scaling gives the product in whole bytes, and is off by no more than one of them, whatever
/// is rounded on the way.
pub proof fn law_scaling_is_off_by_at_most_a_byte(gain: u32, bdp: u64)
    ensures
        gain * bdp / 33_554_432_000_000 - 1 <= scaled(gain, bdp) <= gain * bdp
            / 33_554_432_000_000 + 1,
        scaled(gain, bdp) >= 0,
{
    let d = UNITS_PER_BYTE as int;
    let product = to_double(gain * to_double(bdp as int));
    lemma_product(gain, bdp);
    lemma_double_quotient_close(product, d);
    let r = scaled(gain, bdp);
    assert(r * d <= gain * bdp + d);
    assert((r + 2) * d > gain * bdp) by {
        assert((r + 2) * d == (r + 1) * d + d) by (nonlinear_arith);
    }
    lemma_quotient(gain * bdp, d, r);
}

/// The growth that STARTUP expects is by a quarter, to within one byte per second.
pub proof fn law_growth_target_is_a_quarter_more(bw: u64)
    requires
        bw < 0x4_0000_0000_0000,
    ensures
        5 * bw - 4 <= 4 * growth_target_of(bw) <= 5 * bw + 4,
        bw == 0 ==> growth_target_of(bw) == 0,
{
    let exact = STARTUP_GROWTH * bw;
    let half = STARTUP_GROWTH * to_double(bw as int);
    lemma_to_double_close(bw as int);
    assert(to_double(bw as int) == bw) by {
        assert(spacing(bw as int) == 1);
        assert(bw as int / 1 == bw && bw as int % 1 == 0);
        assert(nearest(bw as int, 1) * 1 == bw);
    }
    lemma_to_double_close(half);
    assert(half == 0x280_0000 * bw);
}

/// For bandwidths of any size the growth that STARTUP expects is by a quarter, to within a
/// mebibyte per second, and as far as 64 bits hold it.
pub proof fn law_growth_target_of_any_bandwidth(bw: u64)
    ensures
        4 * growth_target_of(bw) <= 5 * bw + 0x40_0000,
        4 * growth_target_of(bw) >= 5 * bw - 0x40_0000 || growth_target_of(bw) == u64::MAX,
{
    lemma_product(STARTUP_GROWTH, bw);
    assert(STARTUP_GROWTH * bw == 0x280_0000 * bw);
}

/// Where a product with a gain is rounded, to either side, by how much it can be off.
proof fn lemma_product(gain: u32, x: u64)
    ensures
        ({
            let exact = gain * x;
            let half = gain * to_double(x as int);
            let product = to_double(half);
            &&& 0 <= to_double(x as int) <= 0x1_0000_0000_0000_1000
            &&& 0 <= exact < 0x1_0000_0000_0000_0000_0000_0000
            &&& 0 <= half < 0x1_0000_0000_0001_0000_0000_0000
            &&& exact - 0x1000_0000_0004 <= product <= exact + 0x1000_0000_0004
            &&& 0 <= product < MANTISSA_MIN * UNITS_PER_BYTE
        }),
{
    assert(MANTISSA_MIN * UNITS_PER_BYTE == 0x1_E848_0000_0000_0000_0000_0000) by (nonlinear_arith);
    let xf = to_double(x as int);
    lemma_to_double_close(x as int);
    let exact = gain * x;
    let half = gain * xf;
    assert(0x20_0000_0000_0000 * half <= 0x20_0000_0000_0000 * exact + exact && 0x20_0000_0000_0000 * half
        >= 0x20_0000_0000_0000 * exact - exact && 0 <= half) by (nonlinear_arith)
        requires
            half == gain * xf,
            exact == gain * x,
            gain >= 0,
            0 <= xf,
            0x20_0000_0000_0000 * xf <= 0x20_0000_0000_0000 * x + x,
            0x20_0000_0000_0000 * xf >= 0x20_0000_0000_0000 * x - x,
    ;
    assert(0 <= exact < 0x1_0000_0000_0000_0000_0000_0000) by (nonlinear_arith)
        requires
            exact == gain * x,
            0 <= gain < 0x1_0000_0000,
            0 <= x < 0x1_0000_0000_0000_0000,
    ;
    lemma_to_double_close(half);
}

proof fn lemma_quotient(n: int, d: int, r: int)
    requires
        d > 0,
        r * d <= n + d,
        (r + 2) * d > n,
    ensures
        n / d - 1 <= r <= n / d + 1,
{
    let q = n / d;
    assert(q * d <= n < (q + 1) * d) by (nonlinear_arith)
        requires
            q == n / d,
            d > 0,
    ;
    assert(r < q + 2) by (nonlinear_arith)
        requires
            r * d <= n + d,
            n < (q + 1) * d,
            d > 0,
    ;
    assert(q < r + 2) by (nonlinear_arith)
        requires
            q * d <= n,
            n < (r + 2) * d,
            d > 0,
    ;
}

/// The neighbours of a whole number that takes more than 53 bits are no further apart than
/// one part in `2^52` of it.
proof fn lemma_spacing_bound(n: int)
    requires
        n >= 2 * MANTISSA_MIN,
    ensures
        spacing(n) >= 1,
        spacing(n) * MANTISSA_MIN <= n,
    decreases n,
{
    assert(spacing(n) == 2 * spacing(n / 2));
    if n / 2 >= 2 * MANTISSA_MIN {
        lemma_spacing_bound(n / 2);
    } else {
        assert(spacing(n / 2) == 1);
    }
}

/// The nearest whole number is off by no more than a half.
proof fn lemma_nearest_close(n: int, d: int)
    requires
        n >= 0,
        d > 0,
    ensures
        nearest(n, d) >= 0,
        2 * n - d <= 2 * (nearest(n, d) * d) <= 2 * n + d,
{
    let floor = n / d;
    assert(n == floor * d + n % d && floor >= 0 && (floor + 1) * d == floor * d + d)
        by (nonlinear_arith)
        requires
            floor == n / d,
            d > 0,
            n >= 0,
    ;
}

/// A double is off by no more than one part in `2^53`.
proof fn lemma_to_double_close(n: int)
    requires
        n >= 0,
    ensures
        to_double(n) >= 0,
        0x20_0000_0000_0000 * n - n <= 0x20_0000_0000_0000 * to_double(n) <= 0x20_0000_0000_0000 * n + n,
{
    let s = spacing(n);
    if n >= 2 * MANTISSA_MIN {
        lemma_spacing_bound(n);
        lemma_nearest_close(n, s);
    } else {
        assert(s == 1);
        assert(n / 1 == n && n % 1 == 0);
        assert(nearest(n, 1) * 1 == n);
    }
    assert(to_double(n) >= 0) by (nonlinear_arith)
        requires
            to_double(n) == nearest(n, s) * s,
            nearest(n, s) >= 0,
            s >= 1,
    ;
}

/// The double quotient, cut off, is below the exact one by less than one, and above it by no
/// more than one part in `2^53`; before it is cut off it is that close to both sides.
proof fn lemma_double_quotient_close(n: int, d: int)
    requires
        0 <= n < MANTISSA_MIN * d,
        d > 0,
    ensures
        ({
            let r = double_quotient(n, d);
            &&& r >= 0
            &&& 0x20_0000_0000_0000 * (r * d) <= 0x20_0000_0000_0000 * n + n
            &&& 0x20_0000_0000_0000 * ((r + 1) * d) >= 0x20_0000_0000_0000 * n - n
        }),
{
    let m = magnification(n, d);
    let q = nearest(n * m, d);
    let r = q / m;
    if n == 0 {
        assert(n * m == 0);
        assert(0int / d == 0 && 0int % d == 0) by (nonlinear_arith)
            requires
                d > 0,
        ;
        assert(0int / 1 == 0);
        assert(0 * d == 0 && (0 + 1) * d == d) by (nonlinear_arith);
    } else {
        lemma_magnification(n, d);
        assert(n * m >= 0);
        lemma_nearest_close(n * m, d);
        let k = 0x20_0000_0000_0000int;
        assert(k * (q * d) <= k * (n * m) + n * m && k * (q * d) >= k * (n * m) - n * m)
            by (nonlinear_arith)
            requires
                2 * (n * m) - d <= 2 * (q * d) <= 2 * (n * m) + d,
                MANTISSA_MIN * d <= n * m,
                k == 2 * MANTISSA_MIN,
        ;
        assert(r * m <= q < (r + 1) * m && r >= 0) by (nonlinear_arith)
            requires
                r == q / m,
                q >= 0,
                m >= 1,
        ;
        lemma_cancel(k, n, d, m, q, r);
    }
}

proof fn lemma_cancel(k: int, n: int, d: int, m: int, q: int, r: int)
    requires
        k > 0,
        d > 0,
        m >= 1,
        n >= 0,
        r * m <= q < (r + 1) * m,
        k * (n * m) - n * m <= k * (q * d) <= k * (n * m) + n * m,
    ensures
        k * (r * d) <= k * n + n,
        k * ((r + 1) * d) >= k * n - n,
{
    let low = k * (r * d);
    let high = k * ((r + 1) * d);
    assert(low * m <= k * (q * d)) by (nonlinear_arith)
        requires
            low == k * (r * d),
            r * m <= q,
            k > 0,
            d > 0,
    ;
    assert(high * m >= k * (q * d)) by (nonlinear_arith)
        requires
            high == k * ((r + 1) * d),
            q < (r + 1) * m,
            k > 0,
            d > 0,
    ;
    assert(k * (n * m) + n * m == (k * n + n) * m) by (nonlinear_arith);
    assert(k * (n * m) - n * m == (k * n - n) * m) by (nonlinear_arith);
    assert(low <= k * n + n) by (nonlinear_arith)
        requires
            low * m <= (k * n + n) * m,
            m >= 1,
    ;
    assert(high >= k * n - n) by (nonlinear_arith)
        requires
            high * m >= (k * n - n) * m,
            m >= 1,
    ;
}

/// Magnified, the dividend has 53 bits before the point.
proof fn lemma_magnification(n: int, d: int)
    requires
        n > 0,
    ensures
        magnification(n, d) >= 1,
        n * magnification(n, d) >= MANTISSA_MIN * d,
    decreases
            if n < MANTISSA_MIN * d {
                MANTISSA_MIN * d - n
            } else {
                0
            },
{
    if n < MANTISSA_MIN * d {
        lemma_magnification(2 * n, d);
        let next = magnification(2 * n, d);
        assert(n * (2 * next) == (2 * n) * next) by (nonlinear_arith);
    } else {
        assert(n * 1 == n);
    }
}

} // verus!
