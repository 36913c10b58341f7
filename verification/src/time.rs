//! Exact rational media time.
//!
//! A `MediaTime` is `value / timescale` seconds, kept in lowest terms with a
//! positive timescale. Arithmetic is exact: every result is the reduced form
//! of the mathematical result, or an error when that form does not fit.

use vstd::prelude::*;
use vstd::arithmetic::div_mod::{
    lemma_div_basics_5, lemma_fundamental_div_mod, lemma_fundamental_div_mod_converse_div,
    lemma_fundamental_div_mod_converse_mod, lemma_mod_multiples_basic, lemma_mod_pos_bound,
};

verus! {

// ---------------------------------------------------------------------------
// Number theory
// ---------------------------------------------------------------------------

/// Greatest common divisor, by Euclid's algorithm.
pub open spec fn gcd(a: nat, b: nat) -> nat
    decreases b,
{
    if b == 0 {
        a
    } else {
        gcd(b, a % b)
    }
}

pub open spec fn abs(x: int) -> nat {
    if x < 0 {
        (-x) as nat
    } else {
        x as nat
    }
}

proof fn lemma_divides_combination(a: int, b: int, g: int)
    requires
        g > 0,
        b > 0,
        a >= 0,
        b % g == 0,
        (a % b) % g == 0,
    ensures
        a % g == 0,
{
    lemma_fundamental_div_mod(b, g);
    lemma_fundamental_div_mod(a % b, g);
    lemma_fundamental_div_mod(a, b);
    let k = b / g;
    let m = (a % b) / g;
    let q = a / b;
    let r = a % b;
    assert(a == (k * q + m) * g) by (nonlinear_arith)
        requires
            b == g * k,
            r == g * m,
            a == b * q + r,
    ;
    lemma_mod_multiples_basic(k * q + m, g);
}

/// Euclid's gcd is a positive common divisor of any two naturals that are
/// not both zero.
pub proof fn lemma_gcd_divides(a: nat, b: nat)
    requires
        a > 0 || b > 0,
    ensures
        gcd(a, b) > 0,
        a % gcd(a, b) == 0,
        b % gcd(a, b) == 0,
    decreases b,
{
    if b == 0 {
        lemma_fundamental_div_mod_converse_mod(a as int, a as int, 1, 0);
        lemma_fundamental_div_mod_converse_mod(0, a as int, 0, 0);
    } else {
        lemma_mod_pos_bound(a as int, b as int);
        if a % b == 0 {
            lemma_fundamental_div_mod_converse_mod(b as int, b as int, 1, 0);
            lemma_fundamental_div_mod_converse_mod(0, b as int, 0, 0);
            assert(gcd(b, a % b) == gcd(b, 0));
            assert(gcd(b, 0) == b);
            lemma_divides_combination(a as int, b as int, b as int);
        } else {
            lemma_gcd_divides(b, a % b);
            lemma_divides_combination(a as int, b as int, gcd(b, a % b) as int);
        }
    }
}

fn gcd_u128(a: u128, b: u128) -> (g: u128)
    ensures
        g as nat == gcd(a as nat, b as nat),
    decreases b,
{
    if b == 0 {
        a
    } else {
        gcd_u128(b, a % b)
    }
}

/// The numerator and denominator of `n / d` in lowest terms.
pub open spec fn reduced_num(n: int, d: int) -> int {
    n / (gcd(abs(n), d as nat) as int)
}

pub open spec fn reduced_den(n: int, d: int) -> int {
    d / (gcd(abs(n), d as nat) as int)
}

/// The reduced form of `n / d` is representable as a `MediaTime`.
pub open spec fn fits_media_time(n: int, d: int) -> bool {
    &&& i64::MIN <= reduced_num(n, d) <= i64::MAX
    &&& reduced_den(n, d) <= u32::MAX
}

// ---------------------------------------------------------------------------
// Rational values in the specification
// ---------------------------------------------------------------------------

/// Two fractions `n1 / d1` and `n2 / d2` denote the same rational number.
pub open spec fn same_ratio(n1: int, d1: int, n2: int, d2: int) -> bool {
    n1 * d2 == n2 * d1
}

// ---------------------------------------------------------------------------
// RationalRate
// ---------------------------------------------------------------------------

/// A positive rational rate such as a frame rate or a playback speed.
#[derive(Clone, Copy, PartialEq, Eq, Structural, Debug, Hash)]
pub struct RationalRate {
    numerator: u32,
    denominator: u32,
}

impl RationalRate {
    #[verifier::type_invariant]
    spec fn positive(self) -> bool {
        self.numerator > 0 && self.denominator > 0
    }

    pub closed spec fn num(self) -> int {
        if self.numerator == 0 {
            1
        } else {
            self.numerator as int
        }
    }

    pub closed spec fn den(self) -> int {
        if self.denominator == 0 {
            1
        } else {
            self.denominator as int
        }
    }

    pub proof fn lemma_positive(self)
        ensures
            self.num() > 0,
            self.den() > 0,
    {
    }

    /// A rate `numerator / denominator`; both parts must be positive.
    pub fn new(numerator: u32, denominator: u32) -> (r: Result<Self, String>)
        ensures
            r is Ok <==> numerator > 0 && denominator > 0,
            r matches Ok(rate) ==> rate.num() == numerator && rate.den() == denominator,
    {
        if numerator == 0 || denominator == 0 {
            Err("A rational rate must have a positive numerator and denominator".to_owned())
        } else {
            Ok(RationalRate { numerator, denominator })
        }
    }

    /// The identity rate `1 / 1`.
    /// The rate one.
    pub closed spec fn spec_one() -> Self {
        RationalRate { numerator: 1, denominator: 1 }
    }

    pub fn one() -> (r: Self)
        ensures
            r.num() == 1 && r.den() == 1,
            r == Self::spec_one(),
    {
        RationalRate { numerator: 1, denominator: 1 }
    }

    pub fn numerator(&self) -> (r: u32)
        ensures
            r == self.num(),
    {
        proof {
            use_type_invariant(self);
        }
        self.numerator
    }

    pub fn denominator(&self) -> (r: u32)
        ensures
            r == self.den(),
    {
        proof {
            use_type_invariant(self);
        }
        self.denominator
    }
}

// ---------------------------------------------------------------------------
// MediaTime
// ---------------------------------------------------------------------------

/// An exact instant or duration: `value / timescale` seconds in lowest terms.
#[derive(Clone, Copy, PartialEq, Eq, Structural, Debug, Hash)]
pub struct MediaTime {
    value: i64,
    timescale: u32,
}

/// The media time whose value and timescale are the lowest terms of `n / d`.
pub closed spec fn reduced_time(n: int, d: int) -> MediaTime {
    MediaTime { value: reduced_num(n, d) as i64, timescale: reduced_den(n, d) as u32 }
}

/// Exact results of the arithmetic operations, where they fit.
pub open spec fn spec_add(a: MediaTime, b: MediaTime) -> MediaTime {
    reduced_time(add_num(a, b), pair_den(a, b))
}

pub open spec fn add_fits(a: MediaTime, b: MediaTime) -> bool {
    fits_media_time(add_num(a, b), pair_den(a, b))
}

pub open spec fn spec_sub(a: MediaTime, b: MediaTime) -> MediaTime {
    reduced_time(sub_num(a, b), pair_den(a, b))
}

pub open spec fn sub_fits(a: MediaTime, b: MediaTime) -> bool {
    fits_media_time(sub_num(a, b), pair_den(a, b))
}

pub open spec fn spec_half(a: MediaTime) -> MediaTime {
    reduced_time(a.num(), a.den() * 2)
}

pub open spec fn half_fits(a: MediaTime) -> bool {
    fits_media_time(a.num(), a.den() * 2)
}

/// `t` is the lowest-terms form of the fraction `n / d`, and denotes the
/// same rational number.
pub open spec fn is_reduced_form(t: MediaTime, n: int, d: int) -> bool {
    &&& t.num() == reduced_num(n, d)
    &&& t.den() == reduced_den(n, d)
    &&& same_ratio(t.num(), t.den(), n, d)
}

/// Numerator and denominator of `a + b`, before reduction.
pub open spec fn add_num(a: MediaTime, b: MediaTime) -> int {
    a.num() * b.den() + b.num() * a.den()
}

pub open spec fn sub_num(a: MediaTime, b: MediaTime) -> int {
    a.num() * b.den() - b.num() * a.den()
}

pub open spec fn pair_den(a: MediaTime, b: MediaTime) -> int {
    a.den() * b.den()
}

/// `a < b` as rational numbers.
pub open spec fn lt(a: MediaTime, b: MediaTime) -> bool {
    a.num() * b.den() < b.num() * a.den()
}

/// `a <= b` as rational numbers.
pub open spec fn le(a: MediaTime, b: MediaTime) -> bool {
    a.num() * b.den() <= b.num() * a.den()
}

/// `a` and `b` denote the same rational number.
pub open spec fn same(a: MediaTime, b: MediaTime) -> bool {
    same_ratio(a.num(), a.den(), b.num(), b.den())
}

proof fn lemma_reduce_exact(magnitude: nat, negative: bool, d: nat)
    requires
        d > 0,
    ensures
        ({
            let n = if negative { -(magnitude as int) } else { magnitude as int };
            let g = gcd(magnitude, d);
            &&& g > 0
            &&& abs(n) == magnitude
            &&& reduced_num(n, d as int) == if negative { -((magnitude / g) as int) } else { (magnitude / g) as int }
            &&& reduced_den(n, d as int) == (d / g) as int
            &&& reduced_num(n, d as int) * g == n
            &&& reduced_den(n, d as int) * g == d
            &&& same_ratio(reduced_num(n, d as int), reduced_den(n, d as int), n, d as int)
            &&& magnitude / g <= magnitude
            &&& d / g <= d
            &&& d / g > 0
        }),
{
    let n = if negative { -(magnitude as int) } else { magnitude as int };
    lemma_gcd_divides(magnitude, d);
    let g = gcd(magnitude, d);
    lemma_fundamental_div_mod(magnitude as int, g as int);
    lemma_fundamental_div_mod(d as int, g as int);
    let q = magnitude as int / g as int;
    let e = d as int / g as int;
    assert(magnitude == g * q);
    assert(d == g * e);
    if negative {
        assert(n == (-q) * g + 0) by (nonlinear_arith)
            requires
                n == -(magnitude as int),
                magnitude == g * q,
        ;
        lemma_fundamental_div_mod_converse_div(n, g as int, -q, 0);
    } else {
        assert(n == q * g + 0) by (nonlinear_arith)
            requires
                n == magnitude as int,
                magnitude == g * q,
        ;
        lemma_fundamental_div_mod_converse_div(n, g as int, q, 0);
    }
    let p = reduced_num(n, d as int);
    assert(p * g == n) by (nonlinear_arith)
        requires
            negative ==> p == -q,
            !negative ==> p == q,
            magnitude == g * q,
            n == if negative { -(magnitude as int) } else { magnitude as int },
    ;
    assert(e * g == d) by (nonlinear_arith)
        requires
            d == g * e,
    ;
    assert(p * d == n * e) by (nonlinear_arith)
        requires
            p * g == n,
            e * g == d,
    ;
    lemma_div_basics_5(magnitude as int, g as int);
    lemma_div_basics_5(d as int, g as int);
    assert(e > 0) by (nonlinear_arith)
        requires
            d == g * e,
            d > 0,
            g > 0,
    ;
}

/// Builds the reduced form of `(±magnitude) / denominator`.
fn reduce(negative: bool, magnitude: u128, denominator: u128) -> (r: Result<MediaTime, String>)
    requires
        denominator > 0,
    ensures
        ({
            let n = if negative { -(magnitude as int) } else { magnitude as int };
            match r {
                Ok(t) => is_reduced_form(t, n, denominator as int) && t == reduced_time(n, denominator as int)
                    && fits_media_time(n, denominator as int),
                Err(_) => !fits_media_time(n, denominator as int),
            }
        }),
{
    proof {
        lemma_reduce_exact(magnitude as nat, negative, denominator as nat);
    }
    let g = gcd_u128(magnitude, denominator);
    let q = magnitude / g;
    let e = denominator / g;
    if e > 4294967295u128 {
        return Err("Media time timescale overflow".to_owned());
    }
    if negative {
        if q > 9223372036854775808u128 {
            return Err("Media time value overflow".to_owned());
        }
        let v: i128 = -(q as i128);
        Ok(MediaTime { value: v as i64, timescale: e as u32 })
    } else {
        if q > 9223372036854775807u128 {
            return Err("Media time value overflow".to_owned());
        }
        Ok(MediaTime { value: q as i64, timescale: e as u32 })
    }
}

/// Exact product of an `i64` and a `u32`.
fn wide_product(a: i64, b: u32) -> (r: i128)
    ensures
        r == a as int * b as int,
        -0x8000_0000_0000_0000 * 0xffff_ffff <= r <= 0x7fff_ffff_ffff_ffff * 0xffff_ffff,
{
    assert(-0x8000_0000_0000_0000 * 0xffff_ffff <= a as int * b as int <= 0x7fff_ffff_ffff_ffff
        * 0xffff_ffff) by (nonlinear_arith)
        requires
            i64::MIN <= a <= i64::MAX,
            0 <= b <= 0xffff_ffff,
    ;
    a as i128 * b as i128
}

/// Exact product of two positive `u32` values.
fn positive_product(a: u32, b: u32) -> (r: u128)
    requires
        a > 0,
        b > 0,
    ensures
        r == a as int * b as int,
        r > 0,
{
    assert(0 < a as int * b as int <= 0xffff_ffff * 0xffff_ffff) by (nonlinear_arith)
        requires
            0 < a <= 0xffff_ffff,
            0 < b <= 0xffff_ffff,
    ;
    a as u128 * b as u128
}

fn split_sign(n: i128) -> (r: (bool, u128))
    requires
        n > i128::MIN,
    ensures
        n == if r.0 { -(r.1 as int) } else { r.1 as int },
{
    if n < 0 {
        (true, (-n) as u128)
    } else {
        (false, n as u128)
    }
}

impl MediaTime {
    #[verifier::type_invariant]
    spec fn positive_timescale(self) -> bool {
        self.timescale > 0
    }

    pub closed spec fn num(self) -> int {
        self.value as int
    }

    pub closed spec fn den(self) -> int {
        if self.timescale == 0 {
            1
        } else {
            self.timescale as int
        }
    }

    pub proof fn lemma_bounds(self)
        ensures
            self.den() > 0,
            self.den() <= u32::MAX,
            i64::MIN <= self.num() <= i64::MAX,
    {
    }

    /// `value / timescale` seconds, reduced to lowest terms.
    pub fn new(value: i64, timescale: u32) -> (r: Result<Self, String>)
        ensures
            r is Ok <==> timescale > 0,
            r matches Ok(t) ==> is_reduced_form(t, value as int, timescale as int),
    {
        if timescale == 0 {
            return Err("Media time timescale must be positive".to_owned());
        }
        let (negative, magnitude) = split_sign(value as i128);
        proof {
            lemma_reduce_exact(magnitude as nat, negative, timescale as nat);
        }
        reduce(negative, magnitude, timescale as u128)
    }

    /// Zero seconds.
    /// The instant zero.
    pub closed spec fn spec_zero() -> Self {
        MediaTime { value: 0, timescale: 1 }
    }

    pub fn zero() -> (r: Self)
        ensures
            r.num() == 0 && r.den() == 1,
            r == Self::spec_zero(),
    {
        MediaTime { value: 0, timescale: 1 }
    }

    pub fn value(&self) -> (r: i64)
        ensures
            r == self.num(),
    {
        self.value
    }

    pub fn timescale(&self) -> (r: u32)
        ensures
            r == self.den(),
    {
        proof {
            use_type_invariant(self);
        }
        self.timescale
    }

    pub fn is_negative(&self) -> (r: bool)
        ensures
            r == (self.num() < 0),
    {
        self.value < 0
    }

    /// Exact `self + other`.
    pub fn checked_add(self, other: Self) -> (r: Result<Self, String>)
        ensures
            match r {
                Ok(t) => is_reduced_form(t, add_num(self, other), pair_den(self, other)) && t == spec_add(self, other) && add_fits(self, other),
                Err(_) => !fits_media_time(add_num(self, other), pair_den(self, other)),
            },
    {
        proof {
            use_type_invariant(&self);
            use_type_invariant(&other);
        }
        let left: i128 = wide_product(self.value, other.timescale);
        let right: i128 = wide_product(other.value, self.timescale);
        let sum: i128 = left + right;
        let den: u128 = positive_product(self.timescale, other.timescale);
        let (negative, magnitude) = split_sign(sum);
        reduce(negative, magnitude, den)
    }

    /// Exact `self - other`.
    pub fn checked_sub(self, other: Self) -> (r: Result<Self, String>)
        ensures
            match r {
                Ok(t) => is_reduced_form(t, sub_num(self, other), pair_den(self, other)) && t == spec_sub(self, other) && sub_fits(self, other),
                Err(_) => !fits_media_time(sub_num(self, other), pair_den(self, other)),
            },
    {
        proof {
            use_type_invariant(&self);
            use_type_invariant(&other);
        }
        let left: i128 = wide_product(self.value, other.timescale);
        let right: i128 = wide_product(other.value, self.timescale);
        let difference: i128 = left - right;
        let den: u128 = positive_product(self.timescale, other.timescale);
        let (negative, magnitude) = split_sign(difference);
        reduce(negative, magnitude, den)
    }

    /// Exact `self * rate`.
    pub fn checked_mul_rate(self, rate: RationalRate) -> (r: Result<Self, String>)
        ensures
            match r {
                Ok(t) => is_reduced_form(t, self.num() * rate.num(), self.den() * rate.den())
                    && fits_media_time(self.num() * rate.num(), self.den() * rate.den()),
                Err(_) => !fits_media_time(self.num() * rate.num(), self.den() * rate.den()),
            },
    {
        proof {
            use_type_invariant(&self);
            use_type_invariant(&rate);
        }
        let product: i128 = wide_product(self.value, rate.numerator);
        let den: u128 = positive_product(self.timescale, rate.denominator);
        let (negative, magnitude) = split_sign(product);
        reduce(negative, magnitude, den)
    }

    /// Exact `self / 2`.
    pub fn checked_half(self) -> (r: Result<Self, String>)
        ensures
            match r {
                Ok(t) => is_reduced_form(t, self.num(), self.den() * 2) && t == spec_half(self) && half_fits(self),
                Err(_) => !fits_media_time(self.num(), self.den() * 2),
            },
    {
        proof {
            use_type_invariant(&self);
        }
        let den: u128 = self.timescale as u128 * 2;
        let (negative, magnitude) = split_sign(self.value as i128);
        reduce(negative, magnitude, den)
    }

    /// `self < other` as exact rationals.
    pub fn less_than(&self, other: &Self) -> (r: bool)
        ensures
            r == lt(*self, *other),
    {
        proof {
            use_type_invariant(self);
            use_type_invariant(other);
        }
        let left: i128 = wide_product(self.value, other.timescale);
        let right: i128 = wide_product(other.value, self.timescale);
        left < right
    }

    /// `self <= other` as exact rationals.
    pub fn at_most(&self, other: &Self) -> (r: bool)
        ensures
            r == le(*self, *other),
    {
        !other.less_than(self)
    }

    /// `self` and `other` denote the same instant.
    pub fn same_instant(&self, other: &Self) -> (r: bool)
        ensures
            r == same(*self, *other),
    {
        !self.less_than(other) && !other.less_than(self)
    }

    /// The earlier of two instants.
    pub fn earliest(self, other: Self) -> (r: Self)
        ensures
            r == if lt(other, self) { other } else { self },
    {
        if other.less_than(&self) {
            other
        } else {
            self
        }
    }

    /// The later of two instants.
    pub fn latest(self, other: Self) -> (r: Self)
        ensures
            r == if lt(self, other) { other } else { self },
    {
        if self.less_than(&other) {
            other
        } else {
            self
        }
    }
}


// ---------------------------------------------------------------------------
// Rational algebra on fractions (numerator, positive denominator)
// ---------------------------------------------------------------------------

/// `<=` on instants is transitive.
pub proof fn lemma_le_transitive(a: MediaTime, b: MediaTime, c: MediaTime)
    requires
        le(a, b),
        le(b, c),
    ensures
        le(a, c),
{
    a.lemma_bounds();
    b.lemma_bounds();
    c.lemma_bounds();
    let (an, ad, bn, bd, cn, cd) = (a.num(), a.den(), b.num(), b.den(), c.num(), c.den());
    assert(an * cd <= cn * ad) by (nonlinear_arith)
        requires
            an * bd <= bn * ad,
            bn * cd <= cn * bd,
            ad > 0,
            bd > 0,
            cd > 0,
    ;
}

pub proof fn lemma_same_ratio_transitive(n1: int, d1: int, n2: int, d2: int, n3: int, d3: int)
    requires
        d1 > 0,
        d2 > 0,
        d3 > 0,
        same_ratio(n1, d1, n2, d2),
        same_ratio(n2, d2, n3, d3),
    ensures
        same_ratio(n1, d1, n3, d3),
{
    assert(n1 * d3 * d2 == n3 * d1 * d2) by (nonlinear_arith)
        requires
            n1 * d2 == n2 * d1,
            n2 * d3 == n3 * d2,
    ;
    assert(n1 * d3 == n3 * d1) by (nonlinear_arith)
        requires
            n1 * d3 * d2 == n3 * d1 * d2,
            d2 > 0,
    ;
}

pub proof fn lemma_same_ratio_scale(n1: int, d1: int, n2: int, d2: int, p: int, q: int)
    requires
        same_ratio(n1, d1, n2, d2),
    ensures
        same_ratio(n1 * p, d1 * q, n2 * p, d2 * q),
{
    assert((n1 * p) * (d2 * q) == (n2 * p) * (d1 * q)) by (nonlinear_arith)
        requires
            n1 * d2 == n2 * d1,
    ;
}

pub proof fn lemma_same_ratio_add(a: int, ad: int, n1: int, d1: int, n2: int, d2: int)
    requires
        same_ratio(n1, d1, n2, d2),
    ensures
        same_ratio(a * d1 + n1 * ad, ad * d1, a * d2 + n2 * ad, ad * d2),
{
    let x = ad * d2;
    let y = ad * d1;
    vstd::arithmetic::mul::lemma_mul_is_distributive_add_other_way(x, a * d1, n1 * ad);
    vstd::arithmetic::mul::lemma_mul_is_distributive_add_other_way(y, a * d2, n2 * ad);
    assert(a * d1 * x == a * d2 * y) by (nonlinear_arith)
        requires
            x == ad * d2,
            y == ad * d1,
    ;
    assert(n1 * ad * x == (n1 * d2) * (ad * ad)) by (nonlinear_arith)
        requires
            x == ad * d2,
    ;
    assert(n2 * ad * y == (n2 * d1) * (ad * ad)) by (nonlinear_arith)
        requires
            y == ad * d1,
    ;
}

// ---------------------------------------------------------------------------
// Intervals and time maps
// ---------------------------------------------------------------------------

/// A half-open span `[start, start + duration)` of Timeline time.
#[derive(Clone, Copy, PartialEq, Eq, Structural, Debug, Hash)]
pub struct TimelineInterval {
    pub start: MediaTime,
    pub duration: MediaTime,
}

/// An interval's start is not negative and its duration is positive.
pub open spec fn interval_well_formed(start: MediaTime, duration: MediaTime) -> bool {
    start.num() >= 0 && duration.num() > 0
}

impl TimelineInterval {
    pub fn new(start: MediaTime, duration: MediaTime) -> (r: Result<Self, String>)
        ensures
            r is Ok <==> interval_well_formed(start, duration),
            r matches Ok(interval) ==> interval.start == start && interval.duration == duration,
    {
        if start.is_negative() {
            return Err("Timeline interval start must be non-negative".to_owned());
        }
        if duration.value() <= 0 {
            return Err("Timeline interval duration must be positive".to_owned());
        }
        Ok(TimelineInterval { start, duration })
    }

    /// The exclusive end instant `start + duration`.
    pub fn end(&self) -> (r: Result<MediaTime, String>)
        ensures
            match r {
                Ok(t) => is_reduced_form(t, add_num(self.start, self.duration), pair_den(self.start, self.duration)) && t == spec_add(self.start, self.duration)
                    && add_fits(self.start, self.duration),
                Err(_) => !fits_media_time(add_num(self.start, self.duration), pair_den(self.start, self.duration)),
            },
    {
        self.start.checked_add(self.duration)
    }
}

/// Maps Timeline time to the local source time of a placement.
#[derive(Clone, Copy, PartialEq, Eq, Structural, Debug, Hash)]
pub struct TimeMap {
    pub source_start: MediaTime,
    pub playback_rate: RationalRate,
}

/// The exact local time, as a fraction, that `map` assigns to Timeline
/// instant `t` of a placement starting at `start`:
/// `source_start + (t - start) * playback_rate`.
pub open spec fn local_time_num(map: TimeMap, start: MediaTime, t: MediaTime) -> int {
    let offset_num = t.num() * start.den() - start.num() * t.den();
    let offset_den = t.den() * start.den();
    let scaled_num = offset_num * map.playback_rate.num();
    let scaled_den = offset_den * map.playback_rate.den();
    map.source_start.num() * scaled_den + scaled_num * map.source_start.den()
}

pub open spec fn local_time_den(map: TimeMap, start: MediaTime, t: MediaTime) -> int {
    map.source_start.den() * (t.den() * start.den() * map.playback_rate.den())
}

/// Each step of computing a local time is representable: the offset into
/// the placement, the offset scaled by the playback rate, and the sum with
/// the source start.
pub open spec fn local_time_fits(map: TimeMap, start: MediaTime, t: MediaTime) -> bool {
    let offset = spec_sub(t, start);
    let n = offset.num() * map.playback_rate.num();
    let d = offset.den() * map.playback_rate.den();
    let ss = map.source_start;
    &&& sub_fits(t, start)
    &&& fits_media_time(n, d)
    &&& fits_media_time(ss.num() * reduced_den(n, d) + reduced_num(n, d) * ss.den(), ss.den() * reduced_den(n, d))
}

/// Starts at local time zero and plays at normal speed.
pub open spec fn identity_map() -> TimeMap {
    TimeMap { source_start: MediaTime::spec_zero(), playback_rate: RationalRate::spec_one() }
}

impl TimeMap {
    /// Starts at local time zero and plays at normal speed.
    pub fn identity() -> (r: Self)
        ensures
            r.source_start.num() == 0,
            r.playback_rate.num() == 1 && r.playback_rate.den() == 1,
            r == identity_map(),
    {
        TimeMap { source_start: MediaTime::zero(), playback_rate: RationalRate::one() }
    }

    /// The local source time at Timeline instant `timeline_time` of a
    /// placement occupying `interval`.
    pub fn local_time(&self, interval: TimelineInterval, timeline_time: MediaTime) -> (r: Result<MediaTime, String>)
        ensures
            r is Ok <==> local_time_fits(*self, interval.start, timeline_time),
            r matches Ok(t) ==> same_ratio(
                t.num(),
                t.den(),
                local_time_num(*self, interval.start, timeline_time),
                local_time_den(*self, interval.start, timeline_time),
            ),
    {
        let offset = timeline_time.checked_sub(interval.start)?;
        let scaled = offset.checked_mul_rate(self.playback_rate)?;
        let result = self.source_start.checked_add(scaled)?;
        proof {
            let map = *self;
            let start = interval.start;
            let t = timeline_time;
            t.lemma_bounds();
            start.lemma_bounds();
            offset.lemma_bounds();
            scaled.lemma_bounds();
            result.lemma_bounds();
            map.source_start.lemma_bounds();
            map.playback_rate.lemma_positive();
            let on = t.num() * start.den() - start.num() * t.den();
            let od = t.den() * start.den();
            let rn = map.playback_rate.num();
            let rd = map.playback_rate.den();
            assert(od > 0) by (nonlinear_arith)
                requires
                    od == t.den() * start.den(),
                    t.den() > 0,
                    start.den() > 0,
            ;
            assert(offset.den() * rd > 0) by (nonlinear_arith)
                requires
                    offset.den() > 0,
                    rd > 0,
            ;
            assert(od * rd > 0) by (nonlinear_arith)
                requires
                    od > 0,
                    rd > 0,
            ;
            // offset ~ on / od, hence offset * rate ~ (on * rn) / (od * rd)
            lemma_same_ratio_scale(offset.num(), offset.den(), on, od, rn, rd);
            lemma_same_ratio_transitive(
                scaled.num(),
                scaled.den(),
                offset.num() * rn,
                offset.den() * rd,
                on * rn,
                od * rd,
            );
            let ss = map.source_start;
            lemma_same_ratio_add(ss.num(), ss.den(), scaled.num(), scaled.den(), on * rn, od * rd);
            assert(ss.den() * scaled.den() > 0) by (nonlinear_arith)
                requires
                    ss.den() > 0,
                    scaled.den() > 0,
            ;
            assert(ss.den() * (od * rd) > 0) by (nonlinear_arith)
                requires
                    ss.den() > 0,
                    od * rd > 0,
            ;
            lemma_same_ratio_transitive(
                result.num(),
                result.den(),
                ss.num() * scaled.den() + scaled.num() * ss.den(),
                ss.den() * scaled.den(),
                ss.num() * (od * rd) + (on * rn) * ss.den(),
                ss.den() * (od * rd),
            );
            assert(ss.den() * (od * rd) == local_time_den(map, start, t));
        }
        Ok(result)
    }
}


proof fn lemma_regroup_product(t: int, p: int, r: int, s: int, n: int)
    ensures
        (t * p * r) * (s * (t * n * r)) == t * t * r * (s * (p * n * r)),
{
    let q = t * r;
    let m = p * n;
    let w = s * m;
    assert(t * p * r == p * q) by (nonlinear_arith)
        requires
            q == t * r,
    ;
    assert(t * n * r == n * q) by (nonlinear_arith)
        requires
            q == t * r,
    ;
    assert(t * t * r == t * q) by (nonlinear_arith)
        requires
            q == t * r,
    ;
    assert((p * q) * (s * (n * q)) == (p * s * n) * (q * q)) by (nonlinear_arith);
    assert(p * s * n == w) by (nonlinear_arith)
        requires
            w == s * m,
            m == p * n,
    ;
    assert(s * (p * n * r) == w * r) by (nonlinear_arith)
        requires
            w == s * m,
            m == p * n,
    ;
    assert((t * q) * (w * r) == (w * q) * (t * r)) by (nonlinear_arith);
    assert(w * (q * q) == (w * q) * q) by (nonlinear_arith);
}

proof fn lemma_swap4(a: int, b: int, c: int, d: int)
    ensures
        a * b * (c * d) == (a * c) * (b * d),
{
    assert(a * b * (c * d) == (a * c) * (b * d)) by (nonlinear_arith);
}

/// Retiming law: a map whose source start is the old map's local time at
/// `new_start`, anchored at `new_start`, assigns every Timeline instant the
/// same local time as the old map anchored at `start`.
pub proof fn lemma_retimed_map_preserves_local_time(
    map: TimeMap,
    start: MediaTime,
    new_map: TimeMap,
    new_start: MediaTime,
    t: MediaTime,
)
    requires
        new_map.playback_rate == map.playback_rate,
        same_ratio(
            new_map.source_start.num(),
            new_map.source_start.den(),
            local_time_num(map, start, new_start),
            local_time_den(map, start, new_start),
        ),
    ensures
        same_ratio(
            local_time_num(new_map, new_start, t),
            local_time_den(new_map, new_start, t),
            local_time_num(map, start, t),
            local_time_den(map, start, t),
        ),
{
    map.source_start.lemma_bounds();
    new_map.source_start.lemma_bounds();
    start.lemma_bounds();
    new_start.lemma_bounds();
    t.lemma_bounds();
    map.playback_rate.lemma_positive();
    let (s, sd) = (map.source_start.num(), map.source_start.den());
    let (qn, qd) = (new_map.source_start.num(), new_map.source_start.den());
    let (sn, snd) = (start.num(), start.den());
    let (pn, pd) = (new_start.num(), new_start.den());
    let (tn, td) = (t.num(), t.den());
    let (rn, rd) = (map.playback_rate.num(), map.playback_rate.den());
    let a = sd * (pd * snd * rd);
    let n1 = s * (pd * snd * rd) + (pn * snd - sn * pd) * rn * sd;
    assert(local_time_num(map, start, new_start) == n1);
    assert(local_time_den(map, start, new_start) == a);
    assert(qn * a == n1 * qd);
    let lhs_num = qn * (td * pd * rd) + (tn * pd - pn * td) * rn * qd;
    let lhs_den = qd * (td * pd * rd);
    let rhs_num = s * (td * snd * rd) + (tn * snd - sn * td) * rn * sd;
    let rhs_den = sd * (td * snd * rd);
    assert(local_time_num(new_map, new_start, t) == lhs_num);
    assert(local_time_den(new_map, new_start, t) == lhs_den);
    assert(local_time_num(map, start, t) == rhs_num);
    assert(local_time_den(map, start, t) == rhs_den);
    let x = tn * pd - pn * td;
    let k = rn * sd;
    let u = pd * snd * rd;
    let w = td * snd * rd;
    let v = td * pd * rd;
    assert(a == sd * u);
    assert(n1 == s * u + (pn * snd - sn * pd) * k) by (nonlinear_arith)
        requires
            n1 == s * u + (pn * snd - sn * pd) * rn * sd,
            k == rn * sd,
    ;
    assert(lhs_num == qn * v + x * (rn * qd)) by (nonlinear_arith)
        requires
            lhs_num == qn * v + (tn * pd - pn * td) * rn * qd,
            x == tn * pd - pn * td,
    ;
    assert(rhs_num == s * w + (tn * snd - sn * td) * k) by (nonlinear_arith)
        requires
            rhs_num == s * w + (tn * snd - sn * td) * rn * sd,
            k == rn * sd,
    ;
    // The core cancellation.
    assert(td * (pn * snd - sn * pd) + x * snd == pd * (tn * snd - sn * td)) by (nonlinear_arith)
        requires
            x == tn * pd - pn * td,
    ;
    assert(td * u == pd * w) by (nonlinear_arith)
        requires
            u == pd * snd * rd,
            w == td * snd * rd,
    ;
    // td * n1 + x * snd * k == pd * rhs_num
    let c = pn * snd - sn * pd;
    let e = tn * snd - sn * td;
    assert(td * n1 == s * (td * u) + (td * c) * k) by (nonlinear_arith)
        requires
            n1 == s * u + c * k,
    ;
    assert(pd * rhs_num == s * (pd * w) + (pd * e) * k) by (nonlinear_arith)
        requires
            rhs_num == s * w + e * k,
    ;
    assert((td * c) * k + (x * snd) * k == (pd * e) * k) by (nonlinear_arith)
        requires
            td * c + x * snd == pd * e,
    ;
    assert(td * n1 + (x * snd) * k == pd * rhs_num);
    // lhs_num * rhs_den == rhs_num * lhs_den
    assert(rhs_den == sd * w);
    assert(lhs_den == qd * v);
    let m = qd * td * rd;
    assert(v * (sd * w) == td * td * rd * a) by {
        lemma_regroup_product(td, pd, rd, sd, snd);
    }
    assert(qn * v * (sd * w) == td * td * rd * (n1 * qd)) by (nonlinear_arith)
        requires
            v * (sd * w) == td * td * rd * a,
            qn * a == n1 * qd,
    ;
    assert(x * (rn * qd) * (sd * w) == m * ((x * snd) * k)) by {
        let xr = x * rn;
        assert(x * (rn * qd) == xr * qd) by (nonlinear_arith)
            requires
                xr == x * rn,
        ;
        lemma_swap4(xr, qd, sd, w);
        assert(xr * sd == x * k) by (nonlinear_arith)
            requires
                xr == x * rn,
                k == rn * sd,
        ;
        assert(qd * w == snd * m) by (nonlinear_arith)
            requires
                w == td * snd * rd,
                m == qd * td * rd,
        ;
        lemma_swap4(x, k, snd, m);
        assert((x * snd) * (k * m) == m * ((x * snd) * k)) by (nonlinear_arith);
    }
    let p1 = qn * v * (sd * w);
    let p2 = x * (rn * qd) * (sd * w);
    assert(lhs_num * rhs_den == p1 + p2) by (nonlinear_arith)
        requires
            lhs_num == qn * v + x * (rn * qd),
            rhs_den == sd * w,
            p1 == qn * v * (sd * w),
            p2 == x * (rn * qd) * (sd * w),
    ;
    assert(td * td * rd * (n1 * qd) == m * (td * n1)) by (nonlinear_arith)
        requires
            m == qd * td * rd,
    ;
    assert(lhs_num * rhs_den == m * (td * n1 + (x * snd) * k)) by (nonlinear_arith)
        requires
            lhs_num * rhs_den == p1 + p2,
            p1 == m * (td * n1),
            p2 == m * ((x * snd) * k),
    ;
    assert(rhs_num * lhs_den == m * (pd * rhs_num)) by (nonlinear_arith)
        requires
            lhs_den == qd * v,
            v == td * pd * rd,
            m == qd * td * rd,
    ;
}

} // verus!
