//! Fixed-point numbers: a number type for tensors that is computed with whole numbers.
//!
//! A fixed-point number counts millionths. It lies between the two ends of `i64`; what
//! would lie beyond an end is taken for the end, and the two ends themselves do not count
//! as ordinary numbers, so that a computation that has run out of the range is told from
//! one that has not. Quotients and roots are cut off towards zero.
//!
//! Every operation is a function of whole numbers that is stated here in full, so that
//! what the engine computes with these numbers is known down to the last digit.

use crate::scalar::Scalar;
use vstd::prelude::*;

verus! {

/// The number of units that make one: a million.
pub const UNITS: i64 = 1_000_000;

/// The number of terms after the first that the series of the exponential is summed to.
pub const TERMS: usize = 12;

/// A number counted in millionths.
#[derive(Debug, Clone, Copy, PartialEq, Eq, Structural)]
pub struct Fixed {
    /// The number of millionths.
    pub units: i64,
}

/// The whole number `value`, or the end of `i64` that it lies beyond.
pub open spec fn clamped(value: int) -> i64 {
    if value >= i64::MAX {
        i64::MAX
    } else if value <= i64::MIN {
        i64::MIN
    } else {
        value as i64
    }
}

/// The quotient of `n` by a positive `d`, cut off towards zero.
pub open spec fn quotient(n: int, d: int) -> int {
    if n >= 0 {
        n / d
    } else {
        -((-n) / d)
    }
}

/// Whether `r` is the whole part of the square root of `n`.
pub open spec fn is_root(n: nat, r: nat) -> bool {
    r * r <= n < (r + 1) * (r + 1)
}

/// The whole part of the square root of `n`.
pub open spec fn root(n: nat) -> nat {
    choose|r: nat| is_root(n, r)
}

/// A number has one whole part of its square root.
pub proof fn lemma_root_unique(n: nat, first: nat, second: nat)
    requires
        is_root(n, first),
        is_root(n, second),
    ensures
        first == second,
{
    if first < second {
        assert((first + 1) * (first + 1) <= second * second) by (nonlinear_arith)
            requires
                first + 1 <= second,
        ;
    } else if second < first {
        assert((second + 1) * (second + 1) <= first * first) by (nonlinear_arith)
            requires
                second + 1 <= first,
        ;
    }
}

/// The whole number `value`, or the end of `i64` that it lies beyond.
pub fn clamp(value: i128) -> (out: i64)
    ensures
        out == clamped(value as int),
{
    if value >= i64::MAX as i128 {
        i64::MAX
    } else if value <= i64::MIN as i128 {
        i64::MIN
    } else {
        value as i64
    }
}

/// The quotient of `n` by `d`, cut off towards zero.
pub fn quotient_of(n: i128, d: i128) -> (q: i128)
    requires
        d > 0,
        n > i128::MIN,
    ensures
        q == quotient(n as int, d as int),
{
    if n >= 0 {
        n / d
    } else {
        let q = (-n) / d;
        -q
    }
}

/// The whole part of the square root of `n`.
pub fn root_of(n: u128) -> (r: u128)
    requires
        n < 0x10_0000_0000_0000_0000_0000u128,
    ensures
        r == root(n as nat),
        is_root(n as nat, r as nat),
        r < 0x400_0000_0000u128,
{
    let mut low: u128 = 0;
    let mut high: u128 = 0x400_0000_0000u128;
    assert(high * high == 0x10_0000_0000_0000_0000_0000u128) by (nonlinear_arith)
        requires
            high == 0x400_0000_0000u128,
    ;
    while high - low > 1
        invariant
            low < high <= 0x400_0000_0000u128,
            low * low <= n < high * high,
        decreases high - low,
    {
        let mid = low + (high - low) / 2;
        assert(mid * mid < 0x10_0000_0000_0000_0000_0000u128) by (nonlinear_arith)
            requires
                mid < 0x400_0000_0000u128,
        ;
        if mid * mid <= n {
            low = mid;
        } else {
            high = mid;
        }
    }
    proof {
        assert(is_root(n as nat, low as nat));
        lemma_root_unique(n as nat, low as nat, root(n as nat));
    }
    low
}

impl Fixed {
    /// The number zero.
    pub open spec fn nothing() -> Fixed {
        Fixed { units: 0 }
    }

    /// The number one.
    pub open spec fn unit() -> Fixed {
        Fixed { units: UNITS }
    }

    /// The number that counts `n` things.
    pub open spec fn count(n: usize) -> Fixed {
        Fixed { units: clamped(n * UNITS) }
    }

    /// The whole part of the number, as a count.
    pub open spec fn whole(self) -> usize {
        if self.units <= 0 {
            0
        } else if self.units / UNITS > usize::MAX {
            usize::MAX
        } else {
            (self.units / UNITS) as usize
        }
    }

    /// The sum of two numbers.
    pub open spec fn sum(self, rhs: Fixed) -> Fixed {
        Fixed { units: clamped(self.units + rhs.units) }
    }

    /// The difference of two numbers.
    pub open spec fn difference(self, rhs: Fixed) -> Fixed {
        Fixed { units: clamped(self.units - rhs.units) }
    }

    /// The product of two numbers.
    pub open spec fn product(self, rhs: Fixed) -> Fixed {
        Fixed { units: clamped(quotient(self.units * rhs.units, UNITS as int)) }
    }

    /// The ratio of two numbers. Divided by zero, a number gives the end of the range on
    /// its side, and zero gives zero.
    pub open spec fn ratio(self, rhs: Fixed) -> Fixed {
        if rhs.units == 0 {
            Fixed {
                units: if self.units > 0 {
                    i64::MAX
                } else if self.units < 0 {
                    i64::MIN
                } else {
                    0
                },
            }
        } else if rhs.units > 0 {
            Fixed { units: clamped(quotient(self.units * UNITS, rhs.units as int)) }
        } else {
            Fixed { units: clamped(-quotient(self.units * UNITS, -(rhs.units as int))) }
        }
    }

    /// The square root of a number; zero for a number that is not above zero.
    pub open spec fn square_root(self) -> Fixed {
        if self.units <= 0 {
            Fixed { units: 0 }
        } else {
            Fixed { units: root((self.units * UNITS) as nat) as i64 }
        }
    }

    /// The series of the exponential of `x` from its term number `k` on: `term` is the
    /// term before, `total` the sum of the terms before.
    pub open spec fn series_from(x: Fixed, term: Fixed, total: Fixed, k: nat) -> Fixed
        decreases TERMS + 1 - k,
    {
        if k > TERMS {
            total
        } else {
            let next = term.product(x).ratio(Fixed::count(k as usize));
            Fixed::series_from(x, next, total.sum(next), k + 1)
        }
    }

    /// The exponential of a number between zero and one: the sum of the first terms of
    /// its series, `1 + x + x*x/2 + ..`.
    pub open spec fn series(x: Fixed) -> Fixed {
        Fixed::series_from(x, Fixed::unit(), Fixed::unit(), 1)
    }

    /// The exponential of a number that is not below zero: the series up to one, and
    /// beyond one the square of the exponential of half the number.
    pub open spec fn growth(x: Fixed) -> Fixed
        decreases x.units,
    {
        if x.units <= UNITS {
            Fixed::series(x)
        } else {
            let half = Fixed::growth(Fixed { units: (x.units / 2) as i64 });
            half.product(half)
        }
    }

    /// The exponential of a number: for a number below zero, one over the exponential of
    /// the number with the other sign.
    pub open spec fn exponential(self) -> Fixed {
        if self.units >= 0 {
            Fixed::growth(self)
        } else {
            Fixed::unit().ratio(Fixed::growth(Fixed { units: clamped(-(self.units as int)) }))
        }
    }

    /// Whether the number is an ordinary one: not at an end of the range.
    pub open spec fn ordinary(self) -> bool {
        i64::MIN < self.units < i64::MAX
    }

    /// The number of the given millionths.
    pub fn from_units(units: i64) -> (out: Fixed)
        ensures
            out.units == units,
    {
        Fixed { units }
    }

    /// The sum of the series of the exponential of `x`.
    fn series_of(x: Fixed) -> (out: Fixed)
        ensures
            out == Fixed::series(x),
    {
        let mut term = Fixed { units: UNITS };
        let mut total = Fixed { units: UNITS };
        let mut k: usize = 1;
        while k <= TERMS
            invariant
                1 <= k <= TERMS + 1,
                Fixed::series(x) == Fixed::series_from(x, term, total, k as nat),
            decreases TERMS + 1 - k,
        {
            term = term.mul(x).div(Fixed::from_count(k));
            total = total.add(term);
            k += 1;
        }
        total
    }

    /// The exponential of a number that is not below zero.
    fn growth_of(x: Fixed) -> (out: Fixed)
        requires
            x.units >= 0,
        ensures
            out == Fixed::growth(x),
        decreases x.units,
    {
        if x.units <= UNITS {
            Fixed::series_of(x)
        } else {
            let half = Fixed::growth_of(Fixed { units: x.units / 2 });
            half.mul(half)
        }
    }
}

impl Scalar for Fixed {
    open spec fn zero_spec() -> Self {
        Fixed::nothing()
    }

    open spec fn one_spec() -> Self {
        Fixed::unit()
    }

    open spec fn from_count_spec(n: usize) -> Self {
        Fixed::count(n)
    }

    open spec fn to_count_spec(self) -> usize {
        self.whole()
    }

    open spec fn add_spec(self, rhs: Self) -> Self {
        self.sum(rhs)
    }

    open spec fn sub_spec(self, rhs: Self) -> Self {
        self.difference(rhs)
    }

    open spec fn mul_spec(self, rhs: Self) -> Self {
        self.product(rhs)
    }

    open spec fn div_spec(self, rhs: Self) -> Self {
        self.ratio(rhs)
    }

    open spec fn sqrt_spec(self) -> Self {
        self.square_root()
    }

    open spec fn exp_spec(self) -> Self {
        self.exponential()
    }

    open spec fn lt_spec(self, rhs: Self) -> bool {
        self.units < rhs.units
    }

    open spec fn is_finite_spec(self) -> bool {
        self.ordinary()
    }

    open spec fn equals_spec(self, rhs: Self) -> bool {
        self.units == rhs.units
    }

    open spec fn from_text_spec(text: Seq<char>) -> Option<Self> {
        crate::fixed::read(text)
    }

    fn zero() -> (value: Self) {
        Fixed { units: 0 }
    }

    fn one() -> (value: Self) {
        Fixed { units: UNITS }
    }

    fn from_count(n: usize) -> (value: Self) {
        assert(n * UNITS <= 0xFFFF_FFFF_FFFF_FFFF * 1_000_000) by (nonlinear_arith)
            requires
                n <= 0xFFFF_FFFF_FFFF_FFFF,
                UNITS == 1_000_000,
        ;
        Fixed { units: clamp((n as i128) * (UNITS as i128)) }
    }

    fn to_count(self) -> (count: usize) {
        if self.units <= 0 {
            0
        } else {
            let whole = (self.units / UNITS) as u64;
            if whole > usize::MAX as u64 {
                usize::MAX
            } else {
                whole as usize
            }
        }
    }

    fn add(self, rhs: Self) -> (sum: Self) {
        Fixed { units: clamp((self.units as i128) + (rhs.units as i128)) }
    }

    fn sub(self, rhs: Self) -> (difference: Self) {
        Fixed { units: clamp((self.units as i128) - (rhs.units as i128)) }
    }

    fn mul(self, rhs: Self) -> (product: Self) {
        let a = self.units as i128;
        let b = rhs.units as i128;
        assert(-0x4000_0000_0000_0000_0000_0000_0000_0000 <= a * b
            <= 0x4000_0000_0000_0000_0000_0000_0000_0000) by (nonlinear_arith)
            requires
                -0x8000_0000_0000_0000 <= a <= 0x8000_0000_0000_0000,
                -0x8000_0000_0000_0000 <= b <= 0x8000_0000_0000_0000,
        ;
        Fixed { units: clamp(quotient_of(a * b, UNITS as i128)) }
    }

    fn div(self, rhs: Self) -> (quotient: Self) {
        if rhs.units == 0 {
            if self.units > 0 {
                Fixed { units: i64::MAX }
            } else if self.units < 0 {
                Fixed { units: i64::MIN }
            } else {
                Fixed { units: 0 }
            }
        } else {
            let a = self.units as i128;
            assert(-0x8000_0000_0000_0000 * 1_000_000 <= a * 1_000_000 <= 0x8000_0000_0000_0000
                * 1_000_000) by (nonlinear_arith)
                requires
                    -0x8000_0000_0000_0000 <= a <= 0x8000_0000_0000_0000,
            ;
            let scaled = a * (UNITS as i128);
            if rhs.units > 0 {
                Fixed { units: clamp(quotient_of(scaled, rhs.units as i128)) }
            } else {
                let against = -(rhs.units as i128);
                let cut = quotient_of(scaled, against);
                assert(quotient(scaled as int, against as int) <= 0x8000_0000_0000_0000
                    * 1_000_000 && quotient(scaled as int, against as int)
                    >= -0x8000_0000_0000_0000 * 1_000_000) by (nonlinear_arith)
                    requires
                        -0x8000_0000_0000_0000 * 1_000_000 <= scaled <= 0x8000_0000_0000_0000
                            * 1_000_000,
                        against >= 1,
                ;
                Fixed { units: clamp(-cut) }
            }
        }
    }

    fn sqrt(self) -> (root: Self) {
        if self.units <= 0 {
            Fixed { units: 0 }
        } else {
            let a = self.units as u128;
            assert(a * 1_000_000 < 0x10_0000_0000_0000_0000_0000u128) by (nonlinear_arith)
                requires
                    a <= 0x7FFF_FFFF_FFFF_FFFF,
            ;
            let found = root_of(a * (UNITS as u128));
            Fixed { units: found as i64 }
        }
    }

    fn exp(self) -> (power: Self) {
        if self.units >= 0 {
            Fixed::growth_of(self)
        } else {
            let turned = Fixed { units: clamp(-(self.units as i128)) };
            Fixed { units: UNITS }.div(Fixed::growth_of(turned))
        }
    }

    fn lt(self, rhs: Self) -> (below: bool) {
        self.units < rhs.units
    }

    fn is_finite(self) -> (finite: bool) {
        i64::MIN < self.units && self.units < i64::MAX
    }

    fn equals(self, rhs: Self) -> (same: bool) {
        self.units == rhs.units
    }

    fn from_text(text: &str) -> (value: Option<Self>) {
        crate::fixed::read_text(text)
    }
}

/// What has been read of the digits of a number.
#[derive(Debug, Clone, Copy)]
pub struct Reading {
    /// The millionths read so far, without the sign.
    pub units: i64,
    /// What the next digit after the point counts, in millionths; a million before the
    /// point.
    pub place: i64,
    /// Whether a digit has been read.
    pub digits: bool,
    /// Whether the point has been read.
    pub point: bool,
}

/// The digit that a character stands for, if it stands for one.
pub open spec fn digit_of(c: char) -> Option<int> {
    if '0' <= c <= '9' {
        Some(c as int - '0' as int)
    } else {
        None
    }
}

/// What has been read before anything is read.
pub open spec fn reading_start() -> Reading {
    Reading { units: 0, place: UNITS, digits: false, point: false }
}

/// What has been read once `c` is read after it. Nothing where `c` cannot follow: a
/// second point, or a character that is no digit and no point. Digits beyond the sixth
/// after the point are passed over.
pub open spec fn reading_step(reading: Reading, c: char) -> Option<Reading> {
    match digit_of(c) {
        Some(digit) => if reading.point {
            Some(
                Reading {
                    units: clamped(reading.units + digit * (reading.place / 10)),
                    place: (reading.place / 10) as i64,
                    digits: true,
                    point: true,
                },
            )
        } else {
            Some(
                Reading {
                    units: clamped(reading.units * 10 + digit * UNITS),
                    place: reading.place,
                    digits: true,
                    point: false,
                },
            )
        },
        None => if c == '.' && !reading.point {
            Some(Reading { point: true, ..reading })
        } else {
            None
        },
    }
}

/// What has been read once the characters of `text` are read.
pub open spec fn reading_of(text: Seq<char>) -> Option<Reading>
    decreases text.len(),
{
    if text.len() == 0 {
        Some(reading_start())
    } else {
        match reading_of(text.drop_last()) {
            Some(reading) => reading_step(reading, text.last()),
            None => None,
        }
    }
}

/// The number that a text stands for: a sign, if any, then digits with at most one point
/// among them, and at least one digit. Nothing else stands for a number.
pub open spec fn read(text: Seq<char>) -> Option<Fixed> {
    let signed = text.len() > 0 && (text[0] == '-' || text[0] == '+');
    let digits = if signed {
        text.skip(1)
    } else {
        text
    };
    match reading_of(digits) {
        Some(reading) => if reading.digits {
            Some(
                Fixed {
                    units: if signed && text[0] == '-' {
                        clamped(-(reading.units as int))
                    } else {
                        reading.units
                    },
                },
            )
        } else {
            None
        },
        None => None,
    }
}

/// Once a character cannot be read, the text cannot.
pub proof fn lemma_reading_stays_failed(text: Seq<char>, n: int)
    requires
        0 <= n <= text.len(),
        reading_of(text.take(n)) is None,
    ensures
        reading_of(text) is None,
    decreases text.len() - n,
{
    if n < text.len() {
        assert(text.take(n + 1).drop_last() =~= text.take(n));
        lemma_reading_stays_failed(text, n + 1);
    } else {
        assert(text.take(n) =~= text);
    }
}

/// What has been read once `c` is read after `reading`.
pub fn read_step(reading: Reading, c: char) -> (out: Option<Reading>)
    requires
        0 <= reading.units,
        0 <= reading.place <= UNITS,
    ensures
        out == reading_step(reading, c),
        out matches Some(next) ==> 0 <= next.units && 0 <= next.place <= UNITS,
{
    if '0' <= c && c <= '9' {
        let digit = (c as u32 - '0' as u32) as i128;
        if reading.point {
            let place = reading.place / 10;
            assert(digit * (place as i128) <= 9 * 1_000_000) by (nonlinear_arith)
                requires
                    0 <= digit <= 9,
                    0 <= place <= 1_000_000,
            ;
            assert(digit * (place as i128) >= 0) by (nonlinear_arith)
                requires
                    0 <= digit <= 9,
                    0 <= place <= 1_000_000,
            ;
            Some(
                Reading {
                    units: clamp(reading.units as i128 + digit * (place as i128)),
                    place,
                    digits: true,
                    point: true,
                },
            )
        } else {
            assert(digit * 1_000_000 <= 9 * 1_000_000 && digit * 1_000_000 >= 0)
                by (nonlinear_arith)
                requires
                    0 <= digit <= 9,
            ;
            assert((reading.units as i128) * 10 <= 0x7FFF_FFFF_FFFF_FFFF * 10 && (
            reading.units as i128) * 10 >= 0) by (nonlinear_arith)
                requires
                    0 <= reading.units <= 0x7FFF_FFFF_FFFF_FFFF,
            ;
            Some(
                Reading {
                    units: clamp((reading.units as i128) * 10 + digit * (UNITS as i128)),
                    place: reading.place,
                    digits: true,
                    point: false,
                },
            )
        }
    } else if c == '.' && !reading.point {
        Some(
            Reading {
                units: reading.units,
                place: reading.place,
                digits: reading.digits,
                point: true,
            },
        )
    } else {
        None
    }
}

/// The number that a text stands for, if it stands for one.
pub fn read_text(text: &str) -> (out: Option<Fixed>)
    ensures
        out == read(text@),
{
    let len = text.unicode_len();
    let signed = len > 0 && (text.get_char(0) == '-' || text.get_char(0) == '+');
    let first: usize = if signed {
        1
    } else {
        0
    };
    let ghost digits = if signed {
        text@.skip(1)
    } else {
        text@
    };
    let mut reading = Reading { units: 0, place: UNITS, digits: false, point: false };
    let mut i: usize = first;
    proof {
        assert(digits.take(0) =~= Seq::<char>::empty());
    }
    while i < len
        invariant
            first <= i <= len,
            len == text@.len(),
            signed == (text@.len() > 0 && (text@[0] == '-' || text@[0] == '+')),
            first == if signed {
                1usize
            } else {
                0usize
            },
            digits == text@.skip(first as int),
            0 <= reading.units,
            0 <= reading.place <= UNITS,
            reading_of(digits.take(i - first)) == Some(reading),
        decreases len - i,
    {
        let c = text.get_char(i);
        proof {
            assert(digits.take(i - first + 1).drop_last() =~= digits.take(i - first));
            assert(digits.take(i - first + 1).last() == c);
        }
        reading = match read_step(reading, c) {
            Some(next) => next,
            None => {
                proof {
                    lemma_reading_stays_failed(digits, i - first + 1);
                    assert(text@.skip(0) =~= text@);
                }
                return None;
            },
        };
        i += 1;
    }
    proof {
        assert(digits.take(i - first) =~= digits);
        assert(text@.skip(0) =~= text@);
    }
    if !reading.digits {
        return None;
    }
    if signed && text.get_char(0) == '-' {
        Some(Fixed { units: clamp(-(reading.units as i128)) })
    } else {
        Some(Fixed { units: reading.units })
    }
}

} // verus!
