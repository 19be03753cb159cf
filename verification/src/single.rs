//! Numbers in the IEEE-754 single-precision format, by their bit pattern.
//! Samples, volumes and pans are such numbers. The library orders them,
//! moves them about and rounds them to integers; it does no other arithmetic
//! on them.

use vstd::arithmetic::power2;
use vstd::prelude::*;

verus! {

/// A single-precision number: sign bit, eight bits of exponent, 23 bits of
/// fraction.
#[derive(Clone, Copy, Debug, PartialEq, Eq, Structural)]
pub struct Single {
    pub bits: u32,
}

/// A double-precision number, only carried through.
#[derive(Clone, Copy, Debug, PartialEq, Eq, Structural)]
pub struct Double {
    pub bits: u64,
}

/// The bits of zero, the sample of silence and the pan of the center.
pub const ZERO_BITS: u32 = 0;

/// The bits of one, the volume of an untouched fader.
pub const ONE_BITS: u32 = 0x3f80_0000;

/// The bits of the largest finite number.
pub const LARGEST_BITS: u32 = 0x7f7f_ffff;

/// The bits of the most negative finite number.
pub const SMALLEST_BITS: u32 = 0xff7f_ffff;

pub open spec fn zero() -> Single {
    Single { bits: ZERO_BITS }
}

impl Single {
    pub open spec fn negative(self) -> bool {
        self.bits >= 0x8000_0000
    }

    pub open spec fn exponent(self) -> int {
        (self.bits as int / 0x80_0000) % 0x100
    }

    pub open spec fn fraction(self) -> int {
        self.bits as int % 0x80_0000
    }

    pub open spec fn is_nan(self) -> bool {
        self.exponent() == 255 && self.fraction() != 0
    }

    /// The size of the number is `mantissa * 2^(scale - 150)`.
    pub open spec fn mantissa(self) -> int {
        if self.exponent() == 0 {
            self.fraction()
        } else {
            0x80_0000 + self.fraction()
        }
    }

    pub open spec fn scale(self) -> int {
        if self.exponent() == 0 {
            1
        } else {
            self.exponent()
        }
    }

    /// Where the number stands in the order of all numbers. Both zeros
    /// stand at the same place.
    pub open spec fn rank(self) -> int {
        if self.negative() {
            0x8000_0000 - self.bits
        } else {
            self.bits as int
        }
    }

    /// Whether `self` is at most `other`; a NaN is not comparable.
    pub open spec fn at_most(self, other: Single) -> bool {
        !self.is_nan() && !other.is_nan() && self.rank() <= other.rank()
    }

    pub fn nan(self) -> (r: bool)
        ensures
            r == self.is_nan(),
    {
        (self.bits / 0x80_0000) % 0x100 == 255 && self.bits % 0x80_0000 != 0
    }

    pub fn le(self, other: Single) -> (r: bool)
        ensures
            r == self.at_most(other),
    {
        if self.nan() || other.nan() {
            return false;
        }
        let a: i64 = if self.bits >= 0x8000_0000 {
            0x8000_0000 - self.bits as i64
        } else {
            self.bits as i64
        };
        let b: i64 = if other.bits >= 0x8000_0000 {
            0x8000_0000 - other.bits as i64
        } else {
            other.bits as i64
        };
        a <= b
    }

    /// The lesser of the two, `self` where `other` is a NaN.
    pub open spec fn lesser(self, other: Single) -> Single {
        if !other.is_nan() && other.rank() < self.rank() {
            other
        } else {
            self
        }
    }

    /// The greater of the two, `self` where `other` is a NaN.
    pub open spec fn greater(self, other: Single) -> Single {
        if !other.is_nan() && self.rank() < other.rank() {
            other
        } else {
            self
        }
    }

    pub fn min(self, other: Single) -> (r: Single)
        requires
            !self.is_nan(),
        ensures
            r == self.lesser(other),
            !r.is_nan(),
    {
        if !other.nan() && !self.le(other) {
            other
        } else {
            self
        }
    }

    pub fn max(self, other: Single) -> (r: Single)
        requires
            !self.is_nan(),
        ensures
            r == self.greater(other),
            !r.is_nan(),
    {
        if !other.nan() && !other.le(self) {
            other
        } else {
            self
        }
    }
}

/// The integer nearest to `m / 2^shift`, halves rounded up.
pub open spec fn nearest(m: int, shift: int) -> int {
    if shift <= 0 {
        m * power2::pow2((-shift) as nat)
    } else {
        (2 * m + power2::pow2(shift as nat)) / (2 * power2::pow2(shift as nat) as int)
    }
}

/// The size of the number times `2^(bits - 1)`, as the nearest integer.
pub open spec fn scaled(s: Single, bits: int) -> int {
    nearest(s.mantissa(), 151 - bits - s.scale())
}

/// Full scale of integer samples with `bits` bits.
pub open spec fn full_scale(bits: int) -> int {
    power2::pow2((bits - 1) as nat) as int
}

pub open spec fn clamped(v: int, lo: int, hi: int) -> int {
    if v < lo {
        lo
    } else if v > hi {
        hi
    } else {
        v
    }
}

/// The integer sample of `bits` bits for a number: full scale stands for
/// one, halves are rounded away from zero, what is too large is clamped to
/// the range of the integers, and a NaN is silence.
pub open spec fn quantized(s: Single, bits: int) -> int {
    if s.is_nan() {
        0
    } else {
        let size = scaled(s, bits);
        clamped(if s.negative() { -size } else { size }, -full_scale(bits), full_scale(bits) - 1)
    }
}

/// Whether the number is exactly the integer sample `v` of `bits` bits.
pub open spec fn holds_sample(s: Single, v: int, bits: int) -> bool {
    &&& !s.is_nan()
    &&& v != 0 ==> (s.negative() <==> v < 0)
    &&& {
        let shift = 151 - bits - s.scale();
        let size = if v < 0 { -v } else { v };
        if shift <= 0 {
            s.mantissa() * power2::pow2((-shift) as nat) == size
        } else {
            s.mantissa() == size * power2::pow2(shift as nat)
        }
    }
}

proof fn lemma_nearest_exact(m: int, shift: int, v: int)
    requires
        shift > 0,
        m == v * power2::pow2(shift as nat),
    ensures
        nearest(m, shift) == v,
{
    let p = power2::pow2(shift as nat) as int;
    power2::lemma_pow2_pos(shift as nat);
    assert((2 * m + p) / (2 * p) == v) by (nonlinear_arith)
        requires
            p > 0,
            m == v * p,
    ;
}

/// Rounding gives back an integer sample that the number holds exactly, so
/// writing samples at the bit depth that they were read at loses nothing.
pub proof fn law_quantized_gives_sample_back(s: Single, v: int, bits: int)
    requires
        bits >= 1,
        holds_sample(s, v, bits),
        -full_scale(bits) <= v < full_scale(bits),
    ensures
        quantized(s, bits) == v,
{
    let shift = 151 - bits - s.scale();
    if shift > 0 {
        let size = if v < 0 { -v } else { v };
        lemma_nearest_exact(s.mantissa(), shift, size);
    }
}

/// Whether an integer sample of `bits` bits is at most one step away from a
/// number that is kept between minus one and one.
pub open spec fn within_one(s: Single, q: int, bits: int) -> bool {
    let shift = 151 - bits - s.scale();
    let m = if s.negative() { -s.mantissa() } else { s.mantissa() };
    let full = full_scale(bits);
    if shift <= 0 {
        let x = clamped(m * power2::pow2((-shift) as nat), -full, full);
        -1 <= q - x <= 1
    } else {
        let p = power2::pow2(shift as nat) as int;
        let x = clamped(m, -full * p, full * p);
        -p <= q * p - x <= p
    }
}

proof fn lemma_nearest_close(m: int, p: int, size: int)
    requires
        p > 0,
        m >= 0,
        size == (2 * m + p) / (2 * p),
    ensures
        size >= 0,
        2 * m - p <= 2 * (size * p) <= 2 * m + p,
{
    assert(size >= 0 && 2 * p * size <= 2 * m + p < 2 * p * size + 2 * p) by (nonlinear_arith)
        requires
            p > 0,
            m >= 0,
            size == (2 * m + p) / (2 * p),
    ;
    assert(2 * p * size == 2 * (size * p)) by (nonlinear_arith);
}

/// Rounding moves a number by no more than one step, but for what lies beyond
/// one or minus one, which is clipped.
pub proof fn law_quantized_is_close(s: Single, bits: int)
    requires
        bits >= 1,
        !s.is_nan(),
    ensures
        within_one(s, quantized(s, bits), bits),
{
    let shift = 151 - bits - s.scale();
    let size = scaled(s, bits);
    let full = full_scale(bits);
    let q = quantized(s, bits);
    let m = s.mantissa();
    power2::lemma_pow2_pos((bits - 1) as nat);
    if shift <= 0 {
        let k = power2::pow2((-shift) as nat) as int;
        assert(m * k >= 0 && (-m) * k == -(m * k)) by (nonlinear_arith)
            requires
                m >= 0,
                k >= 0,
        ;
    } else {
        let p = power2::pow2(shift as nat) as int;
        power2::lemma_pow2_pos(shift as nat);
        lemma_nearest_close(m, p, size);
        assert((-full) * p == -(full * p) && (full - 1) * p == full * p - p && (-size) * p == -(size
            * p)) by (nonlinear_arith);
        assert(size <= full - 1 ==> size * p <= full * p - p) by (nonlinear_arith)
            requires
                p > 0,
        ;
        assert(size >= full ==> size * p >= full * p) by (nonlinear_arith)
            requires
                p > 0,
        ;
        assert(size >= full + 1 ==> size * p >= full * p + p) by (nonlinear_arith)
            requires
                p > 0,
        ;
        assert(size == full ==> size * p == full * p);
    }
}

/// The size of a number in units of 2^-150, by the fields of its format: 23 bits of
/// fraction, with a one before them unless the eight bits of exponent are zero.
pub open spec fn size_of(bits: u32) -> int {
    let exponent = (bits as int / 0x80_0000) % 0x100;
    let fraction = bits as int % 0x80_0000;
    if exponent == 0 {
        fraction * 2
    } else {
        (0x80_0000 + fraction) * power2::pow2(exponent as nat)
    }
}

/// A number in units of 2^-150.
pub open spec fn value_of(bits: u32) -> int {
    if bits >= 0x8000_0000 {
        -size_of(bits)
    } else {
        size_of(bits)
    }
}

proof fn lemma_sizes_ordered(a: u32, b: u32)
    requires
        a < b < 0x8000_0000,
    ensures
        0 <= size_of(a) < size_of(b),
{
    let ea = a as int / 0x80_0000;
    let eb = b as int / 0x80_0000;
    let fa = a as int % 0x80_0000;
    let fb = b as int % 0x80_0000;
    assert(a == ea * 0x80_0000 + fa && b == eb * 0x80_0000 + fb);
    assert(0 <= ea <= eb < 256);
    let ka = if ea == 0 { 1nat } else { ea as nat };
    let kb = if eb == 0 { 1nat } else { eb as nat };
    let ma = if ea == 0 { fa } else { 0x80_0000 + fa };
    let mb = if eb == 0 { fb } else { 0x80_0000 + fb };
    power2::lemma2_to64();
    power2::lemma_pow2_pos(ka);
    power2::lemma_pow2_pos(kb);
    let pa = power2::pow2(ka) as int;
    let pb = power2::pow2(kb) as int;
    assert(size_of(a) == ma * pa);
    assert(size_of(b) == mb * pb);
    assert(0 <= ma * pa) by (nonlinear_arith)
        requires
            0 <= ma,
            0 < pa,
    ;
    if ka == kb {
        assert(ma < mb);
        assert(ma * pa < mb * pa) by (nonlinear_arith)
            requires
                ma < mb,
                0 < pa,
        ;
    } else {
        power2::lemma_pow2_unfold(kb);
        power2::lemma_pow2_unfold((ka + 1) as nat);
        if ka + 1 < kb {
            power2::lemma_pow2_strictly_increases((ka + 1) as nat, kb);
        }
        assert(pb >= 2 * pa);
        assert(ma < 0x100_0000 && mb >= 0x80_0000);
        assert(ma * pa < mb * pb) by (nonlinear_arith)
            requires
                0 <= ma < 0x100_0000,
                mb >= 0x80_0000,
                0 < pa,
                pb >= 2 * pa,
        ;
    }
}

proof fn lemma_size_same(bits: u32)
    requires
        bits >= 0x8000_0000,
    ensures
        size_of(bits) == size_of((bits - 0x8000_0000) as u32),
{
    let low = (bits - 0x8000_0000) as u32;
    assert((bits as int / 0x80_0000) % 0x100 == (low as int / 0x80_0000) % 0x100);
    assert(bits as int % 0x80_0000 == low as int % 0x80_0000);
}

/// Numbers are ordered by their values, whatever their signs; the two zeros are
/// equal, and what is not a number is not ordered.
pub proof fn law_order_is_that_of_values(a: Single, b: Single)
    ensures
        !a.is_nan() && !b.is_nan() ==> (a.at_most(b) <==> value_of(a.bits) <= value_of(b.bits)),
        a.is_nan() || b.is_nan() ==> !a.at_most(b),
        a.is_nan() <==> (a.bits as int / 0x80_0000) % 0x100 == 255 && a.bits as int % 0x80_0000 != 0,
{
    let x = if a.negative() { (a.bits - 0x8000_0000) as u32 } else { a.bits };
    let y = if b.negative() { (b.bits - 0x8000_0000) as u32 } else { b.bits };
    if a.negative() {
        lemma_size_same(a.bits);
    }
    if b.negative() {
        lemma_size_same(b.bits);
    }
    if x < y {
        lemma_sizes_ordered(x, y);
    }
    if y < x {
        lemma_sizes_ordered(y, x);
    }
    assert(size_of(0) == 0);
    if x > 0 {
        lemma_sizes_ordered(0, x);
    }
    if y > 0 {
        lemma_sizes_ordered(0, y);
    }
}

/// The lesser and the greater of two numbers is one of them, and at most or at
/// least as large as both; what is not a number does not count.
pub proof fn law_lesser_and_greater(a: Single, b: Single)
    requires
        !a.is_nan(),
    ensures
        a.lesser(b) == a || a.lesser(b) == b,
        a.greater(b) == a || a.greater(b) == b,
        a.lesser(b).at_most(a) && a.at_most(a.greater(b)),
        !b.is_nan() ==> a.lesser(b).at_most(b) && b.at_most(a.greater(b)),
        b.is_nan() ==> a.lesser(b) == a && a.greater(b) == a,
{
}

/// A number becomes the nearest integer sample, `n` steps from zero: full scale
/// stands for one, halves go away from zero, and what has no sample becomes the last
/// one on its side. What is not a number becomes silence.
pub proof fn law_quantized_is_nearest(s: Single, bits: int) -> (n: int)
    requires
        16 <= bits <= 24,
    ensures
        ({
            let full = power2::pow2((bits - 1) as nat) as int;
            let exponent = (s.bits as int / 0x80_0000) % 0x100;
            let fraction = s.bits as int % 0x80_0000;
            let m = if exponent == 0 { fraction } else { 0x80_0000 + fraction };
            let shift = 151 - bits - (if exponent == 0 { 1 } else { exponent });
            let q = quantized(s, bits);
            if exponent == 255 && fraction != 0 {
                q == 0
            } else {
                &&& shift <= 0 ==> n == m * power2::pow2((-shift) as nat)
                &&& shift > 0 ==> 2 * m - power2::pow2(shift as nat) < 2 * (n * power2::pow2(
                    shift as nat,
                )) <= 2 * m + power2::pow2(shift as nat)
                &&& s.bits < 0x8000_0000 && n < full ==> q == n
                &&& s.bits < 0x8000_0000 && n >= full ==> q == full - 1
                &&& s.bits >= 0x8000_0000 && n <= full ==> q == -n
                &&& s.bits >= 0x8000_0000 && n > full ==> q == -full
            }
        }),
{
    let shift = 151 - bits - s.scale();
    let n = scaled(s, bits);
    power2::lemma_pow2_pos((bits - 1) as nat);
    let m = s.mantissa();
    if shift > 0 {
        let p = power2::pow2(shift as nat) as int;
        power2::lemma_pow2_pos(shift as nat);
        lemma_nearest_close(m, p, n);
        assert(2 * (n * p) + 2 * p > 2 * m + p) by (nonlinear_arith)
            requires
                p > 0,
                m >= 0,
                n == (2 * m + p) / (2 * p),
        ;
    } else {
        let p = power2::pow2((-shift) as nat) as int;
        assert(m * p >= 0) by (nonlinear_arith)
            requires
                m >= 0,
                p >= 0,
        ;
    }
    n
}

/// Integer samples stay within the range of their bit depth.
pub proof fn law_quantized_in_range(s: Single, bits: int)
    requires
        bits >= 1,
    ensures
        -full_scale(bits) <= quantized(s, bits) < full_scale(bits),
{
    power2::lemma_pow2_pos((bits - 1) as nat);
}

/// Silence stays silence.
pub proof fn law_zero_is_silent(bits: int)
    requires
        1 <= bits <= 32,
    ensures
        quantized(zero(), bits) == 0,
{
    let shift = 151 - bits - 1;
    power2::lemma_pow2_pos((bits - 1) as nat);
    lemma_nearest_exact(0, shift, 0);
}

proof fn lemma_nearest_small(m: int, shift: int)
    requires
        0 <= m < 0x100_0000,
        shift >= 25,
    ensures
        nearest(m, shift) == 0,
{
    power2::lemma2_to64();
    if shift > 25 {
        power2::lemma_pow2_strictly_increases(25, shift as nat);
    }
    let p = power2::pow2(shift as nat) as int;
    assert((2 * m + p) / (2 * p) == 0) by (nonlinear_arith)
        requires
            0 <= m,
            2 * m < p,
    ;
}

proof fn lemma_nearest_large(m: int, shift: int)
    requires
        m >= 0x80_0000,
        shift <= 0,
    ensures
        nearest(m, shift) >= 0x80_0000,
{
    let p = power2::pow2((-shift) as nat) as int;
    power2::lemma_pow2_pos((-shift) as nat);
    assert(m * p >= m) by (nonlinear_arith)
        requires
            p >= 1,
            m >= 0,
    ;
}

proof fn lemma_full_scale(bits: int)
    requires
        16 <= bits <= 24,
    ensures
        0x8000 <= full_scale(bits) <= 0x80_0000,
{
    power2::lemma2_to64();
}

/// Two to the power of `n`.
pub(crate) fn power_of_two(n: u32) -> (r: u64)
    requires
        n <= 32,
    ensures
        r == power2::pow2(n as nat),
        1 <= r <= 0x1_0000_0000,
        n < 32 ==> r <= 0x8000_0000,
{
    let mut r: u64 = 1;
    let mut i: u32 = 0;
    proof {
        power2::lemma2_to64();
    }
    while i < n
        invariant
            i <= n <= 32,
            r == power2::pow2(i as nat),
            1 <= r <= 0x1_0000_0000,
            i < 32 ==> r <= 0x8000_0000,
        decreases n - i,
    {
        proof {
            power2::lemma_pow2_adds(i as nat, 1);
            power2::lemma2_to64();
            if i + 1 < 31 {
                power2::lemma_pow2_strictly_increases((i + 1) as nat, 31);
            }
        }
        r = r * 2;
        i += 1;
    }
    r
}

/// The integer sample of `bits` bits for a number.
pub fn quantize(s: Single, bits: u32) -> (r: i32)
    requires
        16 <= bits <= 24,
    ensures
        r == quantized(s, bits as int),
        -full_scale(bits as int) <= r < full_scale(bits as int),
{
    proof {
        lemma_full_scale(bits as int);
    }
    if s.nan() {
        return 0;
    }
    let exponent: u32 = (s.bits / 0x80_0000) % 0x100;
    let fraction: u32 = s.bits % 0x80_0000;
    let mantissa: u32 = if exponent == 0 {
        fraction
    } else {
        0x80_0000 + fraction
    };
    let scale: u32 = if exponent == 0 {
        1
    } else {
        exponent
    };
    let full: i64 = power_of_two(bits - 1) as i64;
    let size: i64 = if bits + scale >= 151 {
        proof {
            lemma_nearest_large(mantissa as int, 151 - bits - scale);
        }
        0x80_0000
    } else {
        let shift: u32 = 151 - bits - scale;
        if shift >= 25 {
            proof {
                lemma_nearest_small(mantissa as int, shift as int);
            }
            0
        } else {
            let p: u64 = power_of_two(shift);
            proof {
                power2::lemma_pow2_pos(shift as nat);
                power2::lemma2_to64();
            }
            ((2 * mantissa as u64 + p) / (2 * p)) as i64
        }
    };
    let signed: i64 = if s.bits >= 0x8000_0000 {
        -size
    } else {
        size
    };
    if signed < -full {
        (-full) as i32
    } else if signed > full - 1 {
        (full - 1) as i32
    } else {
        signed as i32
    }
}

}
