//! Double-precision numbers, held as their bit patterns.
//!
//! Settings, pointer positions and scroll distances are fractions. Nothing in
//! this crate computes with them; it compares them, and an IEEE 754 number
//! compares as its sign and the rest of its pattern, read as an integer, do.

use vstd::arithmetic::power2::pow2;
use vstd::prelude::*;

verus! {

/// A double-precision number, by its bit pattern.
#[derive(Debug, Clone, Copy, PartialEq, Eq, Structural)]
pub struct Number {
    pub bits: u64,
}

/// A number together with how it is written in decimal.
#[derive(Debug, PartialEq, Eq)]
pub struct Decimal {
    pub number: Number,
    pub written: String,
}

impl Clone for Decimal {
    fn clone(&self) -> (copy: Decimal)
        ensures
            copy.number == self.number,
            copy.written@ == self.written@,
    {
        Decimal { number: self.number, written: self.written.clone() }
    }
}

const SIGN: u64 = 0x8000_0000_0000_0000;

const INFINITY: u64 = 0x7ff0_0000_0000_0000;

const IMPLICIT: u64 = 0x0010_0000_0000_0000;

impl Number {
    /// Everything but the sign.
    pub open spec fn magnitude(self) -> int {
        if self.bits >= 0x8000_0000_0000_0000 {
            self.bits - 0x8000_0000_0000_0000
        } else {
            self.bits as int
        }
    }

    /// Whether the pattern stands for no number at all.
    pub open spec fn nan(self) -> bool {
        self.magnitude() > 0x7ff0_0000_0000_0000
    }

    /// Where a number stands in the order of all numbers; the two zeroes stand
    /// in one place.
    pub open spec fn rank(self) -> int {
        if self.bits >= 0x8000_0000_0000_0000 {
            -self.magnitude()
        } else {
            self.magnitude()
        }
    }

    /// `self < other`: false where either is not a number.
    pub open spec fn less(self, other: Number) -> bool {
        !self.nan() && !other.nan() && self.rank() < other.rank()
    }

    /// `self == other`: false where either is not a number.
    pub open spec fn same(self, other: Number) -> bool {
        !self.nan() && !other.nan() && self.rank() == other.rank()
    }

    /// `least <= self && self <= most`: false where any of them is not a number.
    pub open spec fn within(self, least: Number, most: Number) -> bool {
        &&& !self.nan()
        &&& !least.nan()
        &&& !most.nan()
        &&& least.rank() <= self.rank() <= most.rank()
    }

    /// `self`, but no less than `least` and no more than `most`; what is not a
    /// number stays as it is.
    pub open spec fn kept_between(self, least: Number, most: Number) -> Number {
        if self.less(least) {
            least
        } else if most.less(self) {
            most
        } else {
            self
        }
    }

    /// Whether this is the number `n / pow2(halvings)`.
    ///
    /// A pattern of exponent `1023 + e` and fraction `f` stands for
    /// `(pow2(52) + f) * pow2(e - 52)`.
    pub open spec fn is_fraction(self, n: int, halvings: int) -> bool {
        let size = if n < 0 {
            -n
        } else {
            n
        };
        &&& (self.bits >= 0x8000_0000_0000_0000) == (n < 0)
        &&& if n == 0 {
            self.magnitude() == 0
        } else {
            exists|e: int|
                0 <= e <= 52 && {
                    let scaled = size * #[trigger] pow2((52 - e) as nat);
                    &&& 0x10_0000_0000_0000 <= scaled < 0x20_0000_0000_0000
                    &&& self.magnitude() == (1022 + e - halvings) * 0x10_0000_0000_0000 + scaled
                }
        }
    }

    /// How many times the smallest number there is, `pow2(-1074)`, goes into this
    /// one, for a number of zero or more: a pattern of exponent `e` and fraction
    /// `f` stands for `(pow2(52) + f) * pow2(e - 1)` of them, and one of exponent
    /// zero for `f`.
    pub open spec fn units(self) -> int {
        let (e, f) = (
            self.bits as int / 0x10_0000_0000_0000,
            self.bits as int % 0x10_0000_0000_0000,
        );
        if e == 0 {
            f
        } else {
            (0x10_0000_0000_0000 + f) * pow2((e - 1) as nat)
        }
    }

    /// How far this is from `p / q`, in units of which `q` are one of the
    /// smallest number there is.
    pub open spec fn distance(self, p: int, q: int) -> int {
        absolute(self.units() * q - p * pow2(1074))
    }

    /// Whether no number is as near to `p / q` as this one; `p / q` is zero or
    /// more, and less than any number that nears the largest.
    pub open spec fn nearest(self, p: int, q: int) -> bool {
        &&& self.bits < 0x7fe0_0000_0000_0000
        &&& forall|other: Number|
            other.bits < 0x7ff0_0000_0000_0000 && other != self ==> self.distance(p, q)
                < #[trigger] other.distance(p, q)
    }

    fn size(self) -> (m: u64)
        ensures
            m == self.magnitude(),
    {
        if self.bits >= SIGN {
            self.bits - SIGN
        } else {
            self.bits
        }
    }

    pub fn is_nan(self) -> (b: bool)
        ensures
            b == self.nan(),
    {
        self.size() > INFINITY
    }

    /// Whether this is zero, of either sign.
    pub fn is_zero(self) -> (b: bool)
        ensures
            b == (self.rank() == 0),
    {
        self.size() == 0
    }

    pub fn less_than(self, other: Number) -> (b: bool)
        ensures
            b == self.less(other),
    {
        if self.is_nan() || other.is_nan() {
            return false;
        }
        let mine: i128 = self.place();
        let theirs: i128 = other.place();
        mine < theirs
    }

    pub fn is_within(self, least: Number, most: Number) -> (b: bool)
        ensures
            b == self.within(least, most),
    {
        if self.is_nan() || least.is_nan() || most.is_nan() {
            return false;
        }
        let mine: i128 = self.place();
        let low: i128 = least.place();
        let high: i128 = most.place();
        low <= mine && mine <= high
    }

    pub fn equals(self, other: Number) -> (b: bool)
        ensures
            b == self.same(other),
    {
        if self.is_nan() || other.is_nan() {
            return false;
        }
        let mine: i128 = self.place();
        let theirs: i128 = other.place();
        mine == theirs
    }

    fn place(self) -> (rank: i128)
        ensures
            rank == self.rank(),
    {
        if self.bits >= SIGN {
            -(self.size() as i128)
        } else {
            self.size() as i128
        }
    }

    pub fn clamped(self, least: Number, most: Number) -> (n: Number)
        ensures
            n == self.kept_between(least, most),
    {
        if self.less_than(least) {
            least
        } else if most.less_than(self) {
            most
        } else {
            self
        }
    }

    /// A whole number.
    pub fn from_integer(n: i32) -> (number: Number)
        ensures
            number == whole(n as int),
            number.is_fraction(n as int, 0),
            !number.nan(),
    {
        let number: Number = fraction(n, 0);
        proof {
            whole_numbers_keep_their_order(number, n as int, whole(n as int), n as int, 0);
        }
        number
    }

    /// Half of a whole number.
    pub fn half_of(n: i32) -> (number: Number)
        ensures
            number == half(n as int),
            number.is_fraction(n as int, 1),
            !number.nan(),
    {
        let number: Number = fraction(n, 1);
        proof {
            whole_numbers_keep_their_order(number, n as int, half(n as int), n as int, 1);
        }
        number
    }
}

/// The number that a whole one is.
pub open spec fn whole(n: int) -> Number {
    choose|number: Number| number.is_fraction(n, 0)
}

/// The number that half of a whole one is.
pub open spec fn half(n: int) -> Number {
    choose|number: Number| number.is_fraction(n, 1)
}

/// `n / pow2(halvings)`.
fn fraction(n: i32, halvings: u64) -> (number: Number)
    requires
        halvings <= 1,
    ensures
        number.is_fraction(n as int, halvings as int),
        !number.nan(),
{
    if n == 0 {
        return Number { bits: 0 };
    }
    let size: u64 = if n < 0 {
        -(n as i64) as u64
    } else {
        n as u64
    };
    let mut scaled: u64 = size;
    let mut e: u64 = 52;
    proof {
        vstd::arithmetic::power2::lemma2_to64();
        assert(size * pow2(0) == size) by (nonlinear_arith)
            requires
                pow2(0) == 1,
        ;
    }
    while scaled < IMPLICIT
        invariant
            1 <= size <= 0x8000_0000,
            e <= 52,
            scaled == size * pow2((52 - e) as nat),
            1 <= scaled < 0x20_0000_0000_0000,
        decreases e,
    {
        proof {
            if e == 0 {
                vstd::arithmetic::power2::lemma2_to64();
                assert(size * pow2(52) >= pow2(52)) by (nonlinear_arith)
                    requires
                        size >= 1,
                        pow2(52) >= 0,
                ;
                vstd::arithmetic::power2::lemma2_to64_rest();
                assert(false);
            }
            vstd::arithmetic::power2::lemma_pow2_unfold((53 - e) as nat);
            assert(size * (2 * pow2((52 - e) as nat)) == 2 * (size * pow2((52 - e) as nat)))
                by (nonlinear_arith);
        }
        scaled = scaled * 2;
        e = e - 1;
    }
    assert(0 <= e <= 52 && size * pow2((52 - e) as nat) == scaled);
    let magnitude: u64 = (1022 + e - halvings) * IMPLICIT + scaled;
    if n < 0 {
        Number { bits: SIGN + magnitude }
    } else {
        Number { bits: magnitude }
    }
}

/// Of two whole numbers the smaller compares as less, halved or not.
pub proof fn whole_numbers_keep_their_order(a: Number, m: int, b: Number, n: int, halvings: int)
    requires
        0 <= halvings <= 1,
        a.is_fraction(m, halvings),
        b.is_fraction(n, halvings),
    ensures
        !a.nan(),
        m < n ==> a.less(b),
        m == n ==> a == b,
{
    lemma_magnitudes(a, m, b, n, halvings);
    lemma_magnitudes(b, n, a, m, halvings);
}

pub open spec fn absolute(n: int) -> int {
    if n < 0 {
        -n
    } else {
        n
    }
}

proof fn lemma_magnitudes(a: Number, m: int, b: Number, n: int, halvings: int)
    requires
        0 <= halvings <= 1,
        a.is_fraction(m, halvings),
        b.is_fraction(n, halvings),
    ensures
        0 <= a.magnitude() <= 0x7ff0_0000_0000_0000,
        m != 0 ==> a.magnitude() > 0,
        absolute(m) < absolute(n) ==> a.magnitude() < b.magnitude(),
        absolute(m) == absolute(n) ==> a.magnitude() == b.magnitude(),
{
    let (s, t) = (absolute(m), absolute(n));
    if m != 0 {
        let e = choose|e: int|
            0 <= e <= 52 && {
                let scaled = s * #[trigger] pow2((52 - e) as nat);
                &&& 0x10_0000_0000_0000 <= scaled < 0x20_0000_0000_0000
                &&& a.magnitude() == (1022 + e - halvings) * 0x10_0000_0000_0000 + scaled
            };
        assert(a.magnitude() <= 1074 * 0x10_0000_0000_0000 + 0x20_0000_0000_0000);
        if n != 0 {
            let f = choose|f: int|
                0 <= f <= 52 && {
                    let scaled = t * #[trigger] pow2((52 - f) as nat);
                    &&& 0x10_0000_0000_0000 <= scaled < 0x20_0000_0000_0000
                    &&& b.magnitude() == (1022 + f - halvings) * 0x10_0000_0000_0000 + scaled
                };
            let p = pow2((52 - e) as nat) as int;
            let q = pow2((52 - f) as nat) as int;
            vstd::arithmetic::power2::lemma_pow2_pos((52 - e) as nat);
            vstd::arithmetic::power2::lemma_pow2_pos((52 - f) as nat);
            if s <= t {
                if e > f {
                    // A longer number cannot need the larger factor.
                    vstd::arithmetic::power2::lemma_pow2_strictly_increases(
                        (52 - e) as nat,
                        (52 - f) as nat,
                    );
                    lemma_twice((52 - e) as nat, (52 - f) as nat);
                    assert(t * q >= 2 * (s * p)) by (nonlinear_arith)
                        requires
                            q >= 2 * p,
                            p > 0,
                            t >= s,
                            s >= 0,
                    ;
                    assert(false);
                } else if e == f {
                    if s < t {
                        assert(s * p < t * p) by (nonlinear_arith)
                            requires
                                s < t,
                                p > 0,
                        ;
                    }
                } else if s == t {
                    lemma_twice((52 - f) as nat, (52 - e) as nat);
                    assert(s * p >= 2 * (s * q)) by (nonlinear_arith)
                        requires
                            p >= 2 * q,
                            s >= 0,
                    ;
                    assert(false);
                }
            }
        }
    }
}

proof fn lemma_twice(low: nat, high: nat)
    requires
        low < high,
    ensures
        pow2(high) >= 2 * pow2(low),
{
    vstd::arithmetic::power2::lemma_pow2_unfold(low + 1);
    if low + 1 < high {
        vstd::arithmetic::power2::lemma_pow2_strictly_increases(low + 1, high);
    }
}

/// Numbers stand apart by the size of their last place, so one that is off by
/// less than half of that is the nearest.
pub proof fn within_half_a_place_is_nearest(n: Number, p: int, q: int)
    requires
        0x10_0000_0000_0000 <= n.bits < 0x7fe0_0000_0000_0000,
        n.bits as int % 0x10_0000_0000_0000 != 0,
        0 < q,
        2 * n.distance(p, q) < q * pow2((n.bits as int / 0x10_0000_0000_0000 - 1) as nat),
    ensures
        n.nearest(p, q),
{
    let place = pow2((n.bits as int / 0x10_0000_0000_0000 - 1) as nat) as int;
    assert forall|other: Number| other.bits < 0x7ff0_0000_0000_0000 && other != n implies
        n.distance(p, q) < #[trigger] other.distance(p, q) by {
        lemma_apart(n, other);
        let (a, b, t) = (n.units(), other.units(), p * pow2(1074));
        if b >= a + place {
            assert(b * q >= a * q + place * q) by (nonlinear_arith)
                requires
                    b >= a + place,
                    0 < q,
            ;
        } else {
            assert(b * q <= a * q - place * q) by (nonlinear_arith)
                requires
                    b <= a - place,
                    0 < q,
            ;
        }
        assert(q * place == place * q) by (nonlinear_arith);
    }
}

/// Another number is at least one place away.
proof fn lemma_apart(n: Number, other: Number)
    requires
        0x10_0000_0000_0000 <= n.bits < 0x7fe0_0000_0000_0000,
        n.bits as int % 0x10_0000_0000_0000 != 0,
        other.bits < 0x7ff0_0000_0000_0000,
        other != n,
    ensures
        ({
            let place = pow2((n.bits as int / 0x10_0000_0000_0000 - 1) as nat) as int;
            other.units() >= n.units() + place || other.units() <= n.units() - place
        }),
{
    let e = n.bits as int / 0x10_0000_0000_0000;
    let s = 0x10_0000_0000_0000 + n.bits as int % 0x10_0000_0000_0000;
    let d = other.bits as int / 0x10_0000_0000_0000;
    let r = other.bits as int % 0x10_0000_0000_0000;
    let place = pow2((e - 1) as nat) as int;
    vstd::arithmetic::power2::lemma_pow2_pos((e - 1) as nat);
    assert(n.units() == s * place);
    if d >= e {
        let k = pow2((d - e) as nat) as int;
        vstd::arithmetic::power2::lemma_pow2_pos((d - e) as nat);
        vstd::arithmetic::power2::lemma_pow2_adds((d - e) as nat, (e - 1) as nat);
        let t = (0x10_0000_0000_0000 + r) * k;
        assert(other.units() == t * place) by (nonlinear_arith)
            requires
                other.units() == (0x10_0000_0000_0000 + r) * (k * place),
                t == (0x10_0000_0000_0000 + r) * k,
        ;
        if d > e {
            lemma_twice(0, (d - e) as nat);
            vstd::arithmetic::power2::lemma2_to64();
            assert(t >= 0x20_0000_0000_0000) by (nonlinear_arith)
                requires
                    t == (0x10_0000_0000_0000 + r) * k,
                    0 <= r,
                    k >= 2,
            ;
        } else {
            vstd::arithmetic::power2::lemma2_to64();
            assert(t == 0x10_0000_0000_0000 + r);
        }
        assert(t != s);
        if t > s {
            assert(t * place >= s * place + place) by (nonlinear_arith)
                requires
                    t >= s + 1,
                    place > 0,
            ;
        } else {
            assert(t * place <= s * place - place) by (nonlinear_arith)
                requires
                    t <= s - 1,
                    place > 0,
            ;
        }
    } else {
        assert(other.units() <= 0x10_0000_0000_0000 * place) by {
            if d == 0 {
                assert(r <= 0x10_0000_0000_0000 * place) by (nonlinear_arith)
                    requires
                        r < 0x10_0000_0000_0000,
                        place >= 1,
                ;
            } else {
                let low = pow2((d - 1) as nat) as int;
                vstd::arithmetic::power2::lemma_pow2_pos((d - 1) as nat);
                lemma_twice((d - 1) as nat, (e - 1) as nat);
                assert((0x10_0000_0000_0000 + r) * low <= 0x10_0000_0000_0000 * place)
                    by (nonlinear_arith)
                    requires
                        0 <= r < 0x10_0000_0000_0000,
                        0 < low,
                        2 * low <= place,
                ;
            }
        }
        assert(s * place >= 0x10_0000_0000_0000 * place + place) by (nonlinear_arith)
            requires
                s >= 0x10_0000_0000_0000 + 1,
                place > 0,
        ;
    }
}

/// Every whole number that a coordinate can hold is a double-precision number.
pub proof fn every_whole_number_is_one(n: int)
    requires
        0 <= n <= i32::MAX,
    ensures
        whole(n).is_fraction(n, 0),
{
    if n == 0 {
        assert(Number { bits: 0 }.is_fraction(0, 0));
    } else {
        vstd::arithmetic::power2::lemma2_to64();
        assert(n * pow2(0) == n) by (nonlinear_arith)
            requires
                pow2(0) == 1,
        ;
        lemma_scale(n, 52);
        let e = choose|e: int|
            0 <= e <= 52 && 0x10_0000_0000_0000 <= n * #[trigger] pow2((52 - e) as nat)
                < 0x20_0000_0000_0000;
        let scaled = n * pow2((52 - e) as nat);
        let bits = (1022 + e) * 0x10_0000_0000_0000 + scaled;
        let number = Number { bits: bits as u64 };
        assert(number.magnitude() == bits);
        assert(number.is_fraction(n, 0));
    }
}

proof fn lemma_scale(n: int, e: int)
    requires
        1 <= n,
        0 <= e <= 52,
        n * pow2((52 - e) as nat) < 0x20_0000_0000_0000,
    ensures
        exists|k: int|
            0 <= k <= 52 && 0x10_0000_0000_0000 <= n * #[trigger] pow2((52 - k) as nat)
                < 0x20_0000_0000_0000,
    decreases e,
{
    let scaled = n * pow2((52 - e) as nat);
    if scaled < 0x10_0000_0000_0000 {
        if e == 0 {
            vstd::arithmetic::power2::lemma2_to64();
            vstd::arithmetic::power2::lemma2_to64_rest();
            assert(n * pow2(52) >= pow2(52)) by (nonlinear_arith)
                requires
                    n >= 1,
                    pow2(52) >= 0,
            ;
        } else {
            vstd::arithmetic::power2::lemma_pow2_unfold((53 - e) as nat);
            assert(n * (2 * pow2((52 - e) as nat)) == 2 * (n * pow2((52 - e) as nat)))
                by (nonlinear_arith);
            lemma_scale(n, e - 1);
        }
    }
}

/// Half of every whole number that a coordinate can hold is a double-precision
/// number too.
pub proof fn every_half_is_one(n: int)
    requires
        0 <= n <= i32::MAX,
    ensures
        half(n).is_fraction(n, 1),
{
    if n == 0 {
        assert(Number { bits: 0 }.is_fraction(0, 1));
    } else {
        vstd::arithmetic::power2::lemma2_to64();
        assert(n * pow2(0) == n) by (nonlinear_arith)
            requires
                pow2(0) == 1,
        ;
        lemma_scale(n, 52);
        let e = choose|e: int|
            0 <= e <= 52 && 0x10_0000_0000_0000 <= n * #[trigger] pow2((52 - e) as nat)
                < 0x20_0000_0000_0000;
        let scaled = n * pow2((52 - e) as nat);
        let bits = (1021 + e) * 0x10_0000_0000_0000 + scaled;
        let number = Number { bits: bits as u64 };
        assert(number.magnitude() == bits);
        assert(number.is_fraction(n, 1));
    }
}

/// What is kept between two bounds is between them, and what already was stays as
/// it is; what was below or above is at the bound it went past.
pub proof fn what_is_kept_between_is_between(n: Number, least: Number, most: Number)
    requires
        !n.nan(),
        !least.nan(),
        !most.nan(),
        !most.less(least),
    ensures
        n.kept_between(least, most).within(least, most),
        n.within(least, most) ==> n.kept_between(least, most) == n,
        n.less(least) ==> n.kept_between(least, most) == least,
        most.less(n) ==> n.kept_between(least, most) == most,
        n.same(n),
        n.less(least) ==> !least.less(n) && !least.same(n),
{
}

} // verus!
