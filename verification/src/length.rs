//! Lengths and coordinates on screen.
//!
//! Everything in this crate that measures is generic over [`Length`], so that it
//! works unchanged on the number type of the toolkit that draws the text. Each
//! operation comes with a specification twin, and the contracts of the crate are
//! written over the twins: they hold of any arithmetic, rounding included.
//! [`OrderedLength`] adds laws of order, which not every arithmetic keeps. [`Pixels`], a fixed
//! point number, has both.
use vstd::prelude::*;

verus! {

/// The arithmetic that text geometry needs.
pub trait Length: Copy {
    /// What [`Length::zero`] returns.
    spec fn zero_spec() -> Self;

    /// What [`Length::plus`] returns.
    spec fn plus_spec(self, other: Self) -> Self;

    /// What [`Length::minus`] returns.
    spec fn minus_spec(self, other: Self) -> Self;

    /// What [`Length::half`] returns.
    spec fn half_spec(self) -> Self;

    /// What [`Length::times`] returns.
    spec fn times_spec(self, n: usize) -> Self;

    /// What [`Length::least`] returns.
    spec fn least_spec(self, other: Self) -> Self;

    /// What [`Length::greatest`] returns.
    spec fn greatest_spec(self, other: Self) -> Self;

    /// What [`Length::lt`] returns.
    spec fn lt_spec(self, other: Self) -> bool;

    /// What [`Length::le`] returns.
    spec fn le_spec(self, other: Self) -> bool;

    /// What [`Length::same`] returns.
    spec fn same_spec(self, other: Self) -> bool;

    /// What [`Length::spans`] returns.
    spec fn spans_spec(self, extent: Self, at: Self) -> bool;

    /// The length of nothing.
    fn zero() -> (r: Self)
        ensures
            r == Self::zero_spec(),
    ;

    /// The sum of two lengths.
    fn plus(self, other: Self) -> (r: Self)
        ensures
            r == self.plus_spec(other),
    ;

    /// The difference of two lengths.
    fn minus(self, other: Self) -> (r: Self)
        ensures
            r == self.minus_spec(other),
    ;

    /// Half of a length.
    fn half(self) -> (r: Self)
        ensures
            r == self.half_spec(),
    ;

    /// A length taken `n` times.
    fn times(self, n: usize) -> (r: Self)
        ensures
            r == self.times_spec(n),
    ;

    /// The lesser of two lengths.
    fn least(self, other: Self) -> (r: Self)
        ensures
            r == self.least_spec(other),
    ;

    /// The greater of two lengths.
    fn greatest(self, other: Self) -> (r: Self)
        ensures
            r == self.greatest_spec(other),
    ;

    /// Whether `self < other`.
    fn lt(self, other: Self) -> (r: bool)
        ensures
            r == self.lt_spec(other),
    ;

    /// Whether `self <= other`.
    fn le(self, other: Self) -> (r: bool)
        ensures
            r == self.le_spec(other),
    ;

    /// Whether two lengths compare equal.
    fn same(self, other: Self) -> (r: bool)
        ensures
            r == self.same_spec(other),
    ;

    /// Whether the span that starts at `self` and is `extent` long contains the
    /// coordinate `at`. Whether its far end belongs to a span is up to the number
    /// type.
    fn spans(self, extent: Self, at: Self) -> (r: bool)
        ensures
            r == self.spans_spec(extent, at),
    ;
}

/// Lengths whose arithmetic respects their order.
pub trait OrderedLength: Length {
    /// Two lengths of which neither is less than the other are one.
    proof fn law_antisymmetric(a: Self, b: Self)
        requires
            a.le_spec(b),
            b.le_spec(a),
        ensures
            a == b,
    ;

    /// The order is transitive.
    proof fn law_transitive(a: Self, b: Self, c: Self)
        requires
            a.le_spec(b),
            b.le_spec(c),
        ensures
            a.le_spec(c),
    ;

    /// Any two lengths can be compared.
    proof fn law_total(a: Self, b: Self)
        ensures
            a.lt_spec(b) == !b.le_spec(a),
            a.le_spec(b) || b.le_spec(a),
    ;

    /// Only one length compares equal to a length: itself.
    proof fn law_same(a: Self, b: Self)
        ensures
            a.same_spec(b) == (a == b),
    ;

    /// The lesser and the greater of two lengths are those two.
    proof fn law_least_greatest(a: Self, b: Self)
        ensures
            a.least_spec(b) == (if a.le_spec(b) { a } else { b }),
            a.greatest_spec(b) == (if a.le_spec(b) { b } else { a }),
    ;

    /// Adding on either side keeps the order.
    proof fn law_plus_monotone(a: Self, b: Self, c: Self)
        requires
            a.le_spec(b),
        ensures
            a.plus_spec(c).le_spec(b.plus_spec(c)),
            c.plus_spec(a).le_spec(c.plus_spec(b)),
    ;

    /// Adding what is not negative does not make less.
    proof fn law_plus_grows(a: Self, b: Self)
        requires
            Self::zero_spec().le_spec(b),
        ensures
            a.le_spec(a.plus_spec(b)),
    ;

    /// Adding nothing changes nothing.
    proof fn law_plus_zero(a: Self)
        ensures
            a.plus_spec(Self::zero_spec()) == a,
    ;

    /// Taking from more leaves no less, and taking more leaves no more.
    proof fn law_minus_monotone(a: Self, b: Self, c: Self)
        requires
            a.le_spec(b),
        ensures
            a.minus_spec(c).le_spec(b.minus_spec(c)),
            c.minus_spec(b).le_spec(c.minus_spec(a)),
    ;

    /// The difference of two lengths is positive if and only if the first is less. Added
    /// to the first, it leads towards the second and not past it.
    proof fn law_difference(a: Self, b: Self)
        ensures
            Self::zero_spec().lt_spec(b.minus_spec(a)) == a.lt_spec(b),
            a.lt_spec(b) ==> a.lt_spec(a.plus_spec(b.minus_spec(a))),
            a.lt_spec(b) ==> a.plus_spec(b.minus_spec(a)).le_spec(b),
            b.le_spec(a) ==> a.plus_spec(b.minus_spec(a)).le_spec(a),
    ;

    /// What is not negative and has been added can be taken away, with no more left than
    /// was added.
    proof fn law_plus_minus(a: Self, b: Self)
        requires
            Self::zero_spec().le_spec(b),
        ensures
            a.plus_spec(b).minus_spec(a).le_spec(b),
    ;

    /// What a sum exceeds its first part by leads from that part to the sum.
    proof fn law_plus_again(a: Self, b: Self)
        ensures
            a.plus_spec(a.plus_spec(b).minus_spec(a)) == a.plus_spec(b),
    ;

    /// More copies of what is not negative do not make less.
    proof fn law_times_monotone(a: Self, m: usize, n: usize)
        requires
            Self::zero_spec().le_spec(a),
            m <= n,
        ensures
            Self::zero_spec().le_spec(a.times_spec(m)),
            a.times_spec(m).le_spec(a.times_spec(n)),
    ;

    /// Half of what is not negative lies between nothing and the whole.
    proof fn law_half(a: Self)
        requires
            Self::zero_spec().le_spec(a),
        ensures
            Self::zero_spec().le_spec(a.half_spec()),
            a.half_spec().le_spec(a),
    ;

    /// What a span contains lies between its ends.
    proof fn law_spans(start: Self, extent: Self, at: Self)
        requires
            start.spans_spec(extent, at),
        ensures
            start.le_spec(at),
            at.le_spec(start.plus_spec(extent)),
    ;

    /// A span that contains all of another one, which contains something, reaches at least
    /// as far on both ends.
    proof fn law_spans_nested(
        start: Self,
        extent: Self,
        at: Self,
        outer_start: Self,
        outer_extent: Self,
    )
        requires
            start.spans_spec(extent, at),
            forall|c: Self| #[trigger]
                start.spans_spec(extent, c) ==> outer_start.spans_spec(outer_extent, c),
        ensures
            outer_start.le_spec(start),
            start.plus_spec(extent).le_spec(outer_start.plus_spec(outer_extent)),
    ;
}

/// The number of units in one pixel.
pub const UNITS_PER_PIXEL: i64 = 64;

/// A length in 64ths of a pixel. Arithmetic saturates at the ends of the range.
#[derive(Clone, Copy, PartialEq, Eq, Debug)]
pub struct Pixels {
    /// The length in units.
    pub units: i64,
}

/// A length of whole pixels.
pub fn px(pixels: i32) -> (r: Pixels)
    ensures
        r.units == pixels * UNITS_PER_PIXEL,
{
    Pixels { units: pixels as i64 * UNITS_PER_PIXEL }
}

/// The length in range that is nearest to a number of units.
pub open spec fn saturated(units: int) -> Pixels {
    Pixels {
        units: if units < i64::MIN {
            i64::MIN
        } else if units > i64::MAX {
            i64::MAX
        } else {
            units as i64
        },
    }
}

fn saturate(units: i128) -> (r: Pixels)
    ensures
        r == saturated(units as int),
{
    if units < i64::MIN as i128 {
        Pixels { units: i64::MIN }
    } else if units > i64::MAX as i128 {
        Pixels { units: i64::MAX }
    } else {
        Pixels { units: units as i64 }
    }
}

impl Length for Pixels {
    open spec fn zero_spec() -> Self {
        saturated(0)
    }

    open spec fn plus_spec(self, other: Self) -> Self {
        saturated(self.units + other.units)
    }

    open spec fn minus_spec(self, other: Self) -> Self {
        saturated(self.units - other.units)
    }

    /// Rounds down.
    open spec fn half_spec(self) -> Self {
        saturated(self.units as int / 2)
    }

    open spec fn times_spec(self, n: usize) -> Self {
        saturated(self.units * n)
    }

    open spec fn least_spec(self, other: Self) -> Self {
        if self.units <= other.units {
            self
        } else {
            other
        }
    }

    open spec fn greatest_spec(self, other: Self) -> Self {
        if self.units <= other.units {
            other
        } else {
            self
        }
    }

    open spec fn lt_spec(self, other: Self) -> bool {
        self.units < other.units
    }

    open spec fn le_spec(self, other: Self) -> bool {
        self.units <= other.units
    }

    open spec fn same_spec(self, other: Self) -> bool {
        self == other
    }

    /// The far end is not part of a span.
    open spec fn spans_spec(self, extent: Self, at: Self) -> bool {
        self.units <= at.units < self.plus_spec(extent).units
    }

    fn zero() -> (r: Self) {
        Pixels { units: 0 }
    }

    fn plus(self, other: Self) -> (r: Self) {
        saturate(self.units as i128 + other.units as i128)
    }

    fn minus(self, other: Self) -> (r: Self) {
        saturate(self.units as i128 - other.units as i128)
    }

    fn half(self) -> (r: Self) {
        let shifted: i64 = self.units >> 1;
        let units = self.units;
        assert(shifted == units as int / 2) by {
            assert(units >> 1 == units / 2) by (bit_vector);
        }
        Pixels { units: shifted }
    }

    fn times(self, n: usize) -> (r: Self) {
        let a = self.units;
        assert(-0x8000_0000_0000_0000 * 0xffff_ffff_ffff_ffff <= a * n
            <= 0x7fff_ffff_ffff_ffff * 0xffff_ffff_ffff_ffff) by (nonlinear_arith)
            requires
                -0x8000_0000_0000_0000 <= a <= 0x7fff_ffff_ffff_ffff,
                0 <= n <= 0xffff_ffff_ffff_ffff,
        ;
        saturate(self.units as i128 * n as i128)
    }

    fn least(self, other: Self) -> (r: Self) {
        if self.units <= other.units {
            self
        } else {
            other
        }
    }

    fn greatest(self, other: Self) -> (r: Self) {
        if self.units <= other.units {
            other
        } else {
            self
        }
    }

    fn lt(self, other: Self) -> (r: bool) {
        self.units < other.units
    }

    fn le(self, other: Self) -> (r: bool) {
        self.units <= other.units
    }

    fn same(self, other: Self) -> (r: bool) {
        self.units == other.units
    }

    fn spans(self, extent: Self, at: Self) -> (r: bool) {
        self.units <= at.units && at.units < self.plus(extent).units
    }
}

impl OrderedLength for Pixels {
    proof fn law_antisymmetric(a: Self, b: Self) {
    }

    proof fn law_transitive(a: Self, b: Self, c: Self) {
    }

    proof fn law_total(a: Self, b: Self) {
    }

    proof fn law_same(a: Self, b: Self) {
    }

    proof fn law_least_greatest(a: Self, b: Self) {
    }

    proof fn law_plus_monotone(a: Self, b: Self, c: Self) {
    }

    proof fn law_plus_grows(a: Self, b: Self) {
    }

    proof fn law_plus_zero(a: Self) {
    }

    proof fn law_minus_monotone(a: Self, b: Self, c: Self) {
    }

    proof fn law_difference(a: Self, b: Self) {
    }

    proof fn law_plus_minus(a: Self, b: Self) {
    }

    proof fn law_plus_again(a: Self, b: Self) {
    }

    proof fn law_times_monotone(a: Self, m: usize, n: usize) {
        let u = a.units as int;
        assert(0 <= u * m <= u * n) by (nonlinear_arith)
            requires
                0 <= u,
                0 <= m <= n,
        ;
    }

    proof fn law_half(a: Self) {
    }

    proof fn law_spans(start: Self, extent: Self, at: Self) {
    }

    proof fn law_spans_nested(
        start: Self,
        extent: Self,
        at: Self,
        outer_start: Self,
        outer_extent: Self,
    ) {
        assert(start.spans_spec(extent, start));
        let last = Pixels { units: (start.plus_spec(extent).units - 1) as i64 };
        assert(start.spans_spec(extent, last));
    }
}

/// Arithmetic on pixels is that of the integers, as far as the results are in range, and
/// stops at the ends of the range beyond.
pub proof fn law_pixels_are_integers(a: Pixels, b: Pixels, n: usize)
    ensures
        Pixels::zero_spec().units == 0,
        i64::MIN <= a.units + b.units <= i64::MAX ==> a.plus_spec(b).units == a.units + b.units,
        i64::MIN <= a.units - b.units <= i64::MAX ==> a.minus_spec(b).units == a.units - b.units,
        i64::MIN <= a.units * n <= i64::MAX ==> a.times_spec(n).units == a.units * n,
        a.units + b.units > i64::MAX ==> a.plus_spec(b).units == i64::MAX,
        a.units + b.units < i64::MIN ==> a.plus_spec(b).units == i64::MIN,
        a.units - b.units > i64::MAX ==> a.minus_spec(b).units == i64::MAX,
        a.units - b.units < i64::MIN ==> a.minus_spec(b).units == i64::MIN,
        a.units * n > i64::MAX ==> a.times_spec(n).units == i64::MAX,
        a.units * n < i64::MIN ==> a.times_spec(n).units == i64::MIN,
        2 * a.half_spec().units <= a.units <= 2 * a.half_spec().units + 1,
        a.lt_spec(b) <==> a.units < b.units,
        a.le_spec(b) <==> a.units <= b.units,
        a.same_spec(b) <==> a.units == b.units,
        a.least_spec(b).units <= a.units && a.least_spec(b).units <= b.units,
        a.least_spec(b) == a || a.least_spec(b) == b,
        a.greatest_spec(b).units >= a.units && a.greatest_spec(b).units >= b.units,
        a.greatest_spec(b) == a || a.greatest_spec(b) == b,
{
}

/// A span of pixels holds its near end and what follows, up to its far end, which it does
/// not hold.
pub proof fn law_pixel_span(start: Pixels, extent: Pixels, at: Pixels)
    requires
        i64::MIN <= start.units + extent.units <= i64::MAX,
    ensures
        start.spans_spec(extent, at) <==> start.units <= at.units < start.units + extent.units,
{
}

} // verus!
