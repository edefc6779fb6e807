//! Numbers of the terrain, held as IEEE-754 binary32 bit patterns.
//!
//! The decisions of this library (comparisons, clamps, roundings to a cell
//! or to a level of detail) are taken on these patterns with integer
//! arithmetic, and are proved against the rational number that a pattern
//! stands for. Every such number is a multiple of 2^-149, so it is modelled
//! as the integer `scaled()`, the number times 2^149; an infinity is modelled
//! by 2^277, which is beyond every finite magnitude.
use vstd::arithmetic::div_mod::*;
use vstd::arithmetic::mul::*;
use vstd::arithmetic::power2::*;
use vstd::prelude::*;

verus! {

/// A binary32 number by its bit pattern.
#[derive(Clone, Copy, PartialEq, Eq, Debug, Structural)]
pub struct Scalar {
    pub bits: u32,
}

/// A point or direction in world space. Z is up.
#[derive(Clone, Copy, PartialEq, Eq, Debug, Structural)]
pub struct Vec3 {
    pub x: Scalar,
    pub y: Scalar,
    pub z: Scalar,
}

/// A point in the ground plane.
#[derive(Clone, Copy, PartialEq, Eq, Debug, Structural)]
pub struct Vec2 {
    pub x: Scalar,
    pub y: Scalar,
}

/// The bit pattern of 0.0.
pub const ZERO: u32 = 0x0000_0000;

/// The bit pattern of 1.0.
pub const ONE: u32 = 0x3F80_0000;

/// The bit pattern of positive infinity.
pub const INFINITY: u32 = 0x7F80_0000;

/// The bit pattern of negative infinity.
pub const NEG_INFINITY: u32 = 0xFF80_0000;

/// The magnitude of the number whose bit pattern without the sign bit is
/// `pattern`, times 2^149.
pub open spec fn magnitude_of(pattern: nat) -> nat {
    let exponent = pattern / 0x80_0000;
    let fraction = pattern % 0x80_0000;
    if exponent == 0 {
        fraction
    } else {
        (fraction + 0x80_0000) * pow2((exponent - 1) as nat)
    }
}

impl Scalar {
    /// Whether the sign bit is set.
    pub open spec fn negative(self) -> bool {
        self.bits >= 0x8000_0000
    }

    /// The bit pattern without the sign bit.
    pub open spec fn pattern(self) -> nat {
        (self.bits % 0x8000_0000) as nat
    }

    /// Whether the pattern stands for no number at all.
    pub open spec fn nan(self) -> bool {
        self.pattern() > 0x7F80_0000
    }

    /// The number times 2^149.
    pub open spec fn scaled(self) -> int {
        if self.negative() {
            -(magnitude_of(self.pattern()) as int)
        } else {
            magnitude_of(self.pattern()) as int
        }
    }

    /// `self < other` as numbers; nothing is below or above a NaN.
    pub open spec fn below(self, other: Scalar) -> bool {
        !self.nan() && !other.nan() && self.scaled() < other.scaled()
    }

    /// `self == other` as numbers: both zeros are equal, a NaN equals nothing.
    pub open spec fn equal_to(self, other: Scalar) -> bool {
        !self.nan() && !other.nan() && self.scaled() == other.scaled()
    }
}

/// Bit patterns without the sign bit are ordered as the magnitudes they
/// stand for.
pub proof fn lemma_magnitude_monotone(a: nat, b: nat)
    requires
        a < b,
    ensures
        magnitude_of(a) < magnitude_of(b),
{
    let ea = a / 0x80_0000;
    let eb = b / 0x80_0000;
    let fa = a % 0x80_0000;
    let fb = b % 0x80_0000;
    assert(ea <= eb);
    if ea == eb {
        assert(fa < fb);
        if ea > 0 {
            lemma_pow2_pos((ea - 1) as nat);
            lemma_mul_strict_inequality(
                (fa + 0x80_0000) as int,
                (fb + 0x80_0000) as int,
                pow2((ea - 1) as nat) as int,
            );
        }
    } else {
        let pb = pow2((eb - 1) as nat);
        lemma_pow2_pos((eb - 1) as nat);
        assert((fb + 0x80_0000) * pb >= 0x80_0000 * pb) by (nonlinear_arith);
        if ea > 0 {
            let pa = pow2((ea - 1) as nat);
            lemma_pow2_pos((ea - 1) as nat);
            assert(pow2(ea) == 2 * pa) by {
                lemma_pow2_unfold(ea);
            }
            assert(pow2(ea) <= pb) by {
                if ea < eb - 1 {
                    lemma_pow2_strictly_increases(ea, (eb - 1) as nat);
                }
            }
            assert((fa + 0x80_0000) * pa < 0x80_0000 * pb) by (nonlinear_arith)
                requires
                    fa < 0x80_0000,
                    2 * pa <= pb,
                    0 < pa,
            ;
        }
    }
}

/// The magnitudes of two patterns compare as the patterns do.
proof fn lemma_magnitude_order(a: nat, b: nat)
    ensures
        a < b <==> magnitude_of(a) < magnitude_of(b),
        a == b <==> magnitude_of(a) == magnitude_of(b),
        a == 0 <==> magnitude_of(a) == 0,
        b == 0 <==> magnitude_of(b) == 0,
{
    assert(magnitude_of(0) == 0);
    if a < b {
        lemma_magnitude_monotone(a, b);
    }
    if b < a {
        lemma_magnitude_monotone(b, a);
    }
    if 0 < a {
        lemma_magnitude_monotone(0, a);
    }
    if 0 < b {
        lemma_magnitude_monotone(0, b);
    }
}

impl Scalar {
    /// The number with this bit pattern.
    pub fn from_bits(bits: u32) -> (number: Scalar)
        ensures
            number.bits == bits,
    {
        Scalar { bits }
    }

    /// Whether this is a NaN.
    pub fn is_nan(self) -> (nan: bool)
        ensures
            nan == self.nan(),
    {
        self.bits % 0x8000_0000 > 0x7F80_0000
    }

    /// `self < other` as binary32 numbers.
    pub fn lt(self, other: Scalar) -> (less: bool)
        ensures
            less == self.below(other),
    {
        if self.is_nan() || other.is_nan() {
            return false;
        }
        let a: u32 = self.bits % 0x8000_0000;
        let b: u32 = other.bits % 0x8000_0000;
        proof {
            lemma_magnitude_order(a as nat, b as nat);
        }
        if self.bits >= 0x8000_0000 {
            if other.bits >= 0x8000_0000 {
                b < a
            } else {
                a != 0 || b != 0
            }
        } else if other.bits >= 0x8000_0000 {
            false
        } else {
            a < b
        }
    }

    /// `self == other` as binary32 numbers.
    pub fn same(self, other: Scalar) -> (equal: bool)
        ensures
            equal == self.equal_to(other),
    {
        if self.is_nan() || other.is_nan() {
            return false;
        }
        let a: u32 = self.bits % 0x8000_0000;
        let b: u32 = other.bits % 0x8000_0000;
        proof {
            lemma_magnitude_order(a as nat, b as nat);
        }
        if (self.bits >= 0x8000_0000) == (other.bits >= 0x8000_0000) {
            a == b
        } else {
            a == 0 && b == 0
        }
    }
}

impl Scalar {
    /// The larger of two numbers; a NaN gives way to the other operand.
    pub open spec fn larger(self, other: Scalar) -> Scalar {
        if self.nan() || (!other.nan() && self.below(other)) {
            other
        } else {
            self
        }
    }

    /// The smaller of two numbers; a NaN gives way to the other operand.
    pub open spec fn smaller(self, other: Scalar) -> Scalar {
        if self.nan() || (!other.nan() && other.below(self)) {
            other
        } else {
            self
        }
    }

    /// The number limited to `lo ..= hi`; a NaN stays a NaN.
    pub open spec fn limited(self, lo: Scalar, hi: Scalar) -> Scalar {
        if self.below(lo) {
            lo
        } else if hi.below(self) {
            hi
        } else {
            self
        }
    }

    /// The number without its sign.
    pub open spec fn unsigned(self) -> Scalar {
        Scalar { bits: self.bits % 0x8000_0000 }
    }

    /// The larger of two numbers.
    pub fn max(self, other: Scalar) -> (result: Scalar)
        ensures
            result == self.larger(other),
    {
        if self.is_nan() || self.lt(other) {
            other
        } else {
            self
        }
    }

    /// The smaller of two numbers.
    pub fn min(self, other: Scalar) -> (result: Scalar)
        ensures
            result == self.smaller(other),
    {
        if self.is_nan() || other.lt(self) {
            other
        } else {
            self
        }
    }

    /// The number limited to `lo ..= hi`.
    pub fn clamp(self, lo: Scalar, hi: Scalar) -> (result: Scalar)
        ensures
            result == self.limited(lo, hi),
    {
        if self.lt(lo) {
            lo
        } else if hi.lt(self) {
            hi
        } else {
            self
        }
    }

    /// The number without its sign.
    pub fn abs(self) -> (result: Scalar)
        ensures
            result == self.unsigned(),
    {
        Scalar { bits: self.bits % 0x8000_0000 }
    }

    /// The magnitude times `2^shift`, cut down to a whole number that is
    /// capped at 2^40, and whether anything was cut off.
    fn whole_part(self, shift: u32) -> (parts: (u64, bool))
        requires
            shift <= 10,
        ensures
            ({
                let unit = pow2((149 - shift) as nat);
                let whole = magnitude_of(self.pattern()) / unit;
                &&& whole < 0x100_0000_0000 ==> parts.0 == whole && parts.1 == (
                magnitude_of(self.pattern()) % unit != 0)
                &&& whole >= 0x100_0000_0000 ==> parts.0 == 0x100_0000_0000u64
            }),
    {
        let pattern: u32 = self.bits % 0x8000_0000;
        let exponent: u32 = pattern / 0x80_0000;
        let fraction: u32 = pattern % 0x80_0000;
        let power: u32 = if exponent == 0 { 0 } else { exponent - 1 };
        let significand: u64 = if exponent == 0 { fraction as u64 } else { fraction as u64 + 0x80_0000 };
        let unit_power: u32 = 149 - shift;
        let ghost unit = pow2(unit_power as nat);
        let ghost magnitude = magnitude_of(self.pattern());
        proof {
            lemma2_to64();
            lemma_pow2_pos(unit_power as nat);
            assert(magnitude == significand as nat * pow2(power as nat)) by {
                assert(pow2(0) == 1);
            }
        }
        if power >= unit_power {
            let up: u32 = power - unit_power;
            proof {
                lemma_pow2_adds(up as nat, unit_power as nat);
                let s = significand as nat;
                let p = pow2(up as nat);
                assert(magnitude == unit * (s * p)) by (nonlinear_arith)
                    requires
                        magnitude == s * (p * unit),
                ;
                lemma_div_multiples_vanish((s * p) as int, unit as int);
                lemma_mod_multiples_basic((s * p) as int, unit as int);
                lemma_mul_is_commutative(unit as int, (s * p) as int);
                assert(magnitude / unit == s * p);
                assert(magnitude % unit == 0);
            }
            if up <= 16 {
                proof {
                    assert(pow2(16) == 0x1_0000);
                    if up < 16 {
                        lemma_pow2_strictly_increases(up as nat, 16);
                    }
                    let p = pow2(up as nat);
                    assert(significand as nat * p < 0x100_0000_0000) by (nonlinear_arith)
                        requires
                            significand < 0x100_0000,
                            p <= 0x1_0000,
                            significand >= 0,
                            p > 0,
                    ;
                    vstd::bits::lemma_u64_shl_is_mul(significand, up as u64);
                }
                (significand << (up as u64), false)
            } else {
                proof {
                    assert(pow2(17) == 0x2_0000);
                    if 17 < up {
                        lemma_pow2_strictly_increases(17, up as nat);
                    }
                    let p = pow2(up as nat);
                    assert(significand as nat * p >= 0x100_0000_0000) by (nonlinear_arith)
                        requires
                            significand >= 0x80_0000,
                            p >= 0x2_0000,
                    ;
                }
                (0x100_0000_0000, false)
            }
        } else {
            let down: u32 = unit_power - power;
            proof {
                let s = significand as nat;
                let p = pow2(power as nat);
                let q = pow2(down as nat);
                lemma_pow2_adds(power as nat, down as nat);
                lemma_pow2_pos(power as nat);
                lemma_pow2_pos(down as nat);
                assert(unit == p * q);
                lemma_mul_is_commutative(s as int, p as int);
                lemma_div_denominator(magnitude as int, p as int, q as int);
                lemma_div_multiples_vanish(s as int, p as int);
                assert(magnitude / unit == s / q);
                lemma_truncate_middle(s as int, p as int, q as int);
                assert(magnitude % unit == p * (s % q));
                let cut = s % q;
                assert(p * cut != 0 <==> cut != 0) by (nonlinear_arith)
                    requires
                        p > 0,
                ;
            }
            if down <= 24 {
                proof {
                    if down < 24 {
                        lemma_pow2_strictly_increases(down as nat, 24);
                    }
                    assert(pow2(24) == 0x100_0000);
                    vstd::bits::lemma_u64_shl_is_mul(1, down as u64);
                    assert(significand / pow2(down as nat) as u64 <= significand) by (nonlinear_arith)
                        requires
                            pow2(down as nat) as u64 > 0,
                    ;
                }
                let q: u64 = 1u64 << (down as u64);
                (significand / q, significand % q != 0)
            } else {
                proof {
                    lemma_pow2_strictly_increases(24, down as nat);
                    assert(pow2(24) == 0x100_0000);
                    lemma_basic_div(significand as int, pow2(down as nat) as int);
                    lemma_small_mod(significand as nat, pow2(down as nat));
                }
                (0, significand != 0)
            }
        }
    }

    /// The whole part of a number at or above zero, limited to what a `u32`
    /// holds; zero for anything below zero and for a NaN.
    pub open spec fn truncated(self) -> int {
        if self.nan() || self.scaled() < 0 {
            0
        } else if self.scaled() / (pow2(149) as int) > u32::MAX {
            u32::MAX as int
        } else {
            self.scaled() / (pow2(149) as int)
        }
    }

    /// The largest whole number not above this one, limited to what an `i32`
    /// holds; zero for a NaN.
    pub open spec fn floored(self) -> int {
        let whole = self.scaled() / (pow2(149) as int);
        if self.nan() {
            0
        } else if whole < i32::MIN {
            i32::MIN as int
        } else if whole > i32::MAX {
            i32::MAX as int
        } else {
            whole
        }
    }

    /// The number times 1024 without its fractional part, limited to what an
    /// `i32` holds; zero for a NaN.
    pub open spec fn quantised(self) -> int {
        let whole = (magnitude_of(self.pattern()) / pow2(139)) as int;
        let signed = if self.negative() { -whole } else { whole };
        if self.nan() {
            0
        } else if signed < i32::MIN {
            i32::MIN as int
        } else if signed > i32::MAX {
            i32::MAX as int
        } else {
            signed
        }
    }

    /// Round towards zero into a `u32`, saturating.
    pub fn to_u32(self) -> (whole: u32)
        ensures
            whole == self.truncated(),
    {
        proof {
            lemma_pow2_pos(149);
            lemma_magnitude_order(self.pattern(), 0);
        }
        if self.is_nan() {
            return 0;
        }
        let (whole, _cut) = self.whole_part(0);
        if self.bits >= 0x8000_0000 {
            proof {
                if self.scaled() == 0 {
                    lemma_div_basics(pow2(149) as int);
                }
            }
            0
        } else if whole > 0xFFFF_FFFF {
            0xFFFF_FFFF
        } else {
            whole as u32
        }
    }

    /// Round down into an `i32`, saturating.
    pub fn floor_to_i32(self) -> (whole: i32)
        ensures
            whole == self.floored(),
    {
        proof {
            lemma_pow2_pos(149);
        }
        if self.is_nan() {
            return 0;
        }
        let (whole, cut) = self.whole_part(0);
        if self.bits >= 0x8000_0000 {
            proof {
                lemma_floor_of_negative(magnitude_of(self.pattern()), pow2(149));
            }
            if whole > 0x7FFF_FFFF {
                i32::MIN
            } else {
                let down: i64 = if cut { -(whole as i64) - 1 } else { -(whole as i64) };
                down as i32
            }
        } else if whole > 0x7FFF_FFFF {
            i32::MAX
        } else {
            whole as i32
        }
    }

    /// Multiply by 1024 and round towards zero into an `i32`, saturating.
    pub fn quantise(self) -> (whole: i32)
        ensures
            whole == self.quantised(),
    {
        if self.is_nan() {
            return 0;
        }
        let (whole, _cut) = self.whole_part(10);
        if self.bits >= 0x8000_0000 {
            if whole > 0x7FFF_FFFF {
                i32::MIN
            } else {
                (-(whole as i64)) as i32
            }
        } else if whole > 0x7FFF_FFFF {
            i32::MAX
        } else {
            whole as i32
        }
    }
}

/// Rounding `-m / d` down steps below the cut quotient exactly when a
/// remainder was cut off.
proof fn lemma_floor_of_negative(m: nat, d: nat)
    requires
        d > 0,
    ensures
        (-(m as int)) / (d as int) == if m % d != 0 {
            -(m / d) - 1
        } else {
            -((m / d) as int)
        },
{
    let q = (m / d) as int;
    let r = (m % d) as int;
    lemma_fundamental_div_mod(m as int, d as int);
    if r == 0 {
        assert(-(m as int) == (-q) * d + 0) by (nonlinear_arith)
            requires
                m == d * q + r,
                r == 0,
        ;
        lemma_fundamental_div_mod_converse(-(m as int), d as int, -q, 0);
    } else {
        assert(-(m as int) == (-q - 1) * d + (d - r)) by (nonlinear_arith)
            requires
                m == d * q + r,
        ;
        lemma_fundamental_div_mod_converse(-(m as int), d as int, -q - 1, d - r);
    }
}

/// The magnitude of a pattern that is put together from a biased exponent
/// and a significand with its leading bit.
proof fn lemma_magnitude_of_parts(exponent: nat, significand: nat)
    requires
        1 <= exponent,
        0x80_0000 <= significand < 0x100_0000,
    ensures
        magnitude_of((exponent * 0x80_0000 + significand - 0x80_0000) as nat) == significand * pow2(
            (exponent - 1) as nat,
        ),
{
    let pattern = (exponent * 0x80_0000 + significand - 0x80_0000) as nat;
    assert(pattern / 0x80_0000 == exponent);
    assert(pattern % 0x80_0000 == significand - 0x80_0000);
}

impl Scalar {
    /// The number `k / 2^24`.
    pub fn from_fraction24(k: u32) -> (number: Scalar)
        requires
            k < 0x100_0000,
        ensures
            number.fraction24(k),
    {
        if k == 0 {
            assert(magnitude_of(0) == 0);
            return Scalar { bits: 0 };
        }
        let mut significand: u32 = k;
        let mut exponent: u32 = 126;
        proof {
            lemma2_to64();
            lemma_pow2_pos(125);
        }
        let ghost mut gained: nat = 0;
        while significand < 0x80_0000
            invariant
                0 < k < 0x100_0000,
                0 < significand < 0x100_0000,
                gained <= 23,
                exponent == 126 - gained,
                significand == k * pow2(gained),
            decreases exponent,
        {
            proof {
                lemma2_to64();
                lemma_pow2_unfold((gained + 1) as nat);
                let p = pow2(gained);
                assert(k * (2 * p) == 2 * (k * p)) by (nonlinear_arith);
                if gained == 23 {
                    assert(significand >= 0x80_0000) by (nonlinear_arith)
                        requires
                            significand == k * 0x80_0000,
                            k > 0,
                    ;
                }
                gained = gained + 1;
            }
            significand = significand * 2;
            exponent = exponent - 1;
        }
        proof {
            lemma_magnitude_of_parts(exponent as nat, significand as nat);
            lemma_pow2_adds(gained, (exponent - 1) as nat);
            let p = pow2(gained);
            let q = pow2((exponent - 1) as nat);
            assert((k * p) * q == k * (p * q)) by (nonlinear_arith);
        }
        Scalar { bits: exponent * 0x80_0000 + (significand - 0x80_0000) }
    }

    /// Whether this number is `k / 2^24`.
    pub open spec fn fraction24(self, k: u32) -> bool {
        &&& !self.nan()
        &&& !self.negative()
        &&& self.scaled() == k * pow2(125)
    }

    /// The number nearest to `byte / 255`: off by at most half of its last
    /// place, the weight of which is `2^(exponent - 1)` on the scale of
    /// `scaled()`.
    pub fn from_unit_byte(byte: u8) -> (number: Scalar)
        ensures
            number == over_255(byte),
            !number.nan(),
            number.unit_byte(byte),
    {
        if byte == 0 {
            assert(magnitude_of(0) == 0);
            return Scalar { bits: 0 };
        }
        let mut numerator: u64 = byte as u64 * 0x80_0000;
        let mut exponent: u32 = 127;
        let ghost mut gained: nat = 0;
        let ghost mut multiple: nat = byte as nat;
        proof {
            lemma2_to64();
        }
        while numerator < 0x7F80_0000
            invariant
                0 < byte,
                0 < numerator < 0xFF00_0000,
                numerator == multiple * 0x80_0000,
                numerator == (byte * 0x80_0000) * pow2(gained),
                doublings(byte as nat) == gained + doublings(multiple),
                gained <= 8,
                exponent == 127 - gained,
            decreases exponent,
        {
            proof {
                lemma2_to64();
                lemma_pow2_unfold((gained + 1) as nat);
                let p = pow2(gained);
                let b = byte * 0x80_0000;
                assert(b * (2 * p) == 2 * (b * p)) by (nonlinear_arith);
                if gained == 8 {
                    assert(numerator >= 0x7F80_0000) by (nonlinear_arith)
                        requires
                            numerator == (byte * 0x80_0000) * 0x100,
                            byte > 0,
                    ;
                }
                gained = gained + 1;
                multiple = 2 * multiple;
            }
            numerator = numerator * 2;
            exponent = exponent - 1;
        }
        let significand: u64 = (2 * numerator + 255) / 510;
        proof {
            assert(510 * significand <= 2 * numerator + 255 < 510 * significand + 510);
            assert(0x80_0000 <= significand);
            assert(multiple * 0x80_0000 < 510 * 0x80_0000);
            assert(multiple <= 509);
            assert(multiple >= 255 && doublings(multiple) == 0);
            assert(significand < 0x100_0000);
            lemma_magnitude_of_parts(exponent as nat, significand as nat);
            let e = (exponent - 1) as nat;
            let p = pow2(gained);
            let q = pow2(e);
            lemma_pow2_adds(gained, e);
            lemma_pow2_adds(23, 126);
            assert(pow2(149) == 0x80_0000 * (p * q));
            assert((byte * 0x80_0000) * p * q == byte * (0x80_0000 * (p * q))) by (nonlinear_arith);
            assert(numerator * q == byte * pow2(149));
            let m = significand as int;
            let n = numerator as int;
            assert(-255 <= 510 * m - 2 * n <= 255);
            assert(2 * (255 * (m * q) - n * q) == (510 * m - 2 * n) * q) by (nonlinear_arith);
            lemma_pow2_pos(e);
            assert(-255 * q <= (510 * m - 2 * n) * q <= 255 * q) by (nonlinear_arith)
                requires
                    -255 <= 510 * m - 2 * n <= 255,
                    q > 0,
            ;
        }
        Scalar { bits: exponent * 0x80_0000 + (significand as u32 - 0x80_0000) }
    }

    /// Whether this number is `byte / 255` to within half of its last place.
    pub open spec fn unit_byte(self, byte: u8) -> bool {
        let exponent = self.pattern() / 0x80_0000;
        let last_place = pow2(if exponent == 0 { 0 } else { (exponent - 1) as nat });
        &&& !self.negative()
        &&& byte == 0 ==> self.bits == 0
        &&& byte > 0 ==> exponent > 0
        &&& -255 * last_place <= 2 * (255 * self.scaled() - byte * pow2(149)) <= 255 * last_place
    }
}

/// How many times a number has to be doubled to reach 255.
pub open spec fn doublings(number: nat) -> nat
    decreases 510 - number,
{
    if number == 0 || number >= 255 {
        0
    } else {
        1 + doublings(2 * number)
    }
}

/// The number nearest to `byte / 255`: the byte, doubled until it reaches 255,
/// over 255 with 23 bits behind the point, and halved as often.
pub open spec fn over_255(byte: u8) -> Scalar {
    if byte == 0 {
        Scalar { bits: 0 }
    } else {
        let halvings = doublings(byte as nat);
        let numerator = byte * 0x80_0000 * pow2(halvings);
        let significand = (2 * numerator + 255) / 510;
        Scalar { bits: ((127 - halvings) * 0x80_0000 + (significand - 0x80_0000)) as u32 }
    }
}

/// Limiting a number a second time changes nothing.
pub proof fn limiting_twice_is_limiting_once(number: Scalar, lo: Scalar, hi: Scalar)
    requires
        !hi.below(lo),
    ensures
        number.limited(lo, hi).limited(lo, hi) == number.limited(lo, hi),
{
}

/// Zero is below one.
pub proof fn zero_is_below_one()
    ensures
        (Scalar { bits: ZERO }).below(Scalar { bits: ONE }),
{
    lemma_magnitude_monotone(ZERO as nat, ONE as nat);
}

/// A number at or above zero has one bit pattern: numbers without a sign that
/// are equal are the same.
pub proof fn unsigned_numbers_are_unique(a: Scalar, b: Scalar)
    requires
        !a.negative(),
        !b.negative(),
        a.equal_to(b),
    ensures
        a == b,
{
    if a.pattern() < b.pattern() {
        lemma_magnitude_monotone(a.pattern(), b.pattern());
    } else if b.pattern() < a.pattern() {
        lemma_magnitude_monotone(b.pattern(), a.pattern());
    }
}

/// Rounding towards zero into a `u32` gives a `u32`, and keeps the order.
pub proof fn truncation_keeps_the_order(a: Scalar, b: Scalar)
    requires
        !b.nan(),
        !b.below(a),
    ensures
        0 <= a.truncated() <= b.truncated() <= u32::MAX,
{
    let unit = pow2(149) as int;
    lemma_pow2_pos(149);
    if !a.nan() {
        lemma_div_is_ordered(a.scaled(), b.scaled(), unit);
    }
    if a.scaled() >= 0 {
        lemma_div_pos_is_pos(a.scaled(), unit);
    }
    if b.scaled() >= 0 {
        lemma_div_pos_is_pos(b.scaled(), unit);
    }
}

impl Vec3 {
    /// The componentwise minimum; where either component is a NaN, that of
    /// `other`.
    pub open spec fn lower_corner(self, other: Vec3) -> Vec3 {
        Vec3 {
            x: if self.x.below(other.x) { self.x } else { other.x },
            y: if self.y.below(other.y) { self.y } else { other.y },
            z: if self.z.below(other.z) { self.z } else { other.z },
        }
    }

    /// The componentwise maximum; where either component is a NaN, that of
    /// `other`.
    pub open spec fn upper_corner(self, other: Vec3) -> Vec3 {
        Vec3 {
            x: if other.x.below(self.x) { self.x } else { other.x },
            y: if other.y.below(self.y) { self.y } else { other.y },
            z: if other.z.below(self.z) { self.z } else { other.z },
        }
    }

    /// The componentwise minimum.
    pub fn min(self, other: Vec3) -> (result: Vec3)
        ensures
            result == self.lower_corner(other),
    {
        Vec3 {
            x: if self.x.lt(other.x) { self.x } else { other.x },
            y: if self.y.lt(other.y) { self.y } else { other.y },
            z: if self.z.lt(other.z) { self.z } else { other.z },
        }
    }

    /// The componentwise maximum.
    pub fn max(self, other: Vec3) -> (result: Vec3)
        ensures
            result == self.upper_corner(other),
    {
        Vec3 {
            x: if other.x.lt(self.x) { self.x } else { other.x },
            y: if other.y.lt(self.y) { self.y } else { other.y },
            z: if other.z.lt(self.z) { self.z } else { other.z },
        }
    }
}

} // verus!
