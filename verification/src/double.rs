//! Floating-point numbers as this library sees them: it compares them and
//! carries them, and computes with none.
use vstd::arithmetic::power2::{
    lemma2_to64, lemma2_to64_rest, lemma_pow2_adds, lemma_pow2_pos, lemma_pow2_unfold, pow2,
};
use vstd::prelude::*;

verus! {

/// The bits of positive infinity; a number whose bits without the sign are
/// more is no number.
pub const INFINITY_BITS: u64 = 0x7ff0_0000_0000_0000;

/// The weight of the sign bit.
pub const SIGN_BIT: u64 = 0x8000_0000_0000_0000;

/// A double-precision number of IEEE 754, by its bits.
#[derive(Clone, Copy, PartialEq, Eq, Structural, Debug)]
pub struct Double {
    pub bits: u64,
}

impl Double {
    /// The bits without the sign.
    pub open spec fn magnitude(self) -> int {
        if self.bits >= SIGN_BIT {
            self.bits - SIGN_BIT
        } else {
            self.bits as int
        }
    }

    /// Whether this is no number.
    pub open spec fn is_nan(self) -> bool {
        self.magnitude() > INFINITY_BITS
    }

    /// The place of a number among all numbers: of two numbers the greater has
    /// the greater rank, and the two zeros have one rank.
    pub open spec fn rank(self) -> int {
        if self.bits >= SIGN_BIT {
            -self.magnitude()
        } else {
            self.magnitude()
        }
    }

    /// This number is greater than the other. What is no number is never
    /// greater.
    pub open spec fn exceeds(self, other: Double) -> bool {
        !self.is_nan() && !other.is_nan() && self.rank() > other.rank()
    }

    /// This number is the other or greater.
    pub open spec fn reaches(self, other: Double) -> bool {
        !self.is_nan() && !other.is_nan() && self.rank() >= other.rank()
    }

    /// The greater of two; the other one where one is no number.
    pub open spec fn larger_of(self, other: Double) -> Double {
        if self.is_nan() {
            other
        } else if other.exceeds(self) {
            other
        } else {
            self
        }
    }

    fn order_key(self) -> (key: Option<i128>)
        ensures
            key is Some <==> !self.is_nan(),
            key matches Some(k) ==> k == self.rank(),
    {
        let size: u64 = if self.bits >= SIGN_BIT {
            self.bits - SIGN_BIT
        } else {
            self.bits
        };
        if size > INFINITY_BITS {
            None
        } else if self.bits >= SIGN_BIT {
            Some(-(size as i128))
        } else {
            Some(size as i128)
        }
    }

    /// Whether this number is greater than the other.
    pub fn gt(self, other: Double) -> (yes: bool)
        ensures
            yes == self.exceeds(other),
    {
        match (self.order_key(), other.order_key()) {
            (Some(a), Some(b)) => a > b,
            _ => false,
        }
    }

    /// Whether this number is the other or greater.
    pub fn ge(self, other: Double) -> (yes: bool)
        ensures
            yes == self.reaches(other),
    {
        match (self.order_key(), other.order_key()) {
            (Some(a), Some(b)) => a >= b,
            _ => false,
        }
    }

    /// The greater of two; the other one where one is no number.
    pub fn max(self, other: Double) -> (most: Double)
        ensures
            most == self.larger_of(other),
    {
        match self.order_key() {
            None => other,
            Some(_) => if other.gt(self) {
                other
            } else {
                self
            },
        }
    }

    /// The number that counts `n` parts of 1024: its bits are the exponent
    /// and the digits after the first of `n`, shifted by `shift` places to
    /// fill 53 binary digits.
    pub open spec fn counts_1024ths(self, n: int, shift: nat) -> bool {
        &&& pow2(52) <= n * pow2(shift) < pow2(53)
        &&& self.bits as int == (1065 - shift) * pow2(52) + (n * pow2(shift) - pow2(52))
    }

    /// This is the number that `n` parts of 1024 make.
    pub open spec fn is_1024ths(self, n: int) -> bool {
        if n == 0 {
            self.bits == 0
        } else {
            exists|shift: nat| shift <= 52 && #[trigger] self.counts_1024ths(n, shift)
        }
    }

    /// `n` parts of 1024 as a number.
    pub fn from_1024ths(n: u64) -> (r: Double)
        requires
            n < 0x20_0000_0000_0000,
        ensures
            r.is_1024ths(n as int),
    {
        if n == 0 {
            return Double { bits: 0 };
        }
        let mut digits: u64 = n;
        let mut shift: u64 = 0;
        proof {
            lemma2_to64();
            lemma2_to64_rest();
            assert(n * pow2(0) == n) by (nonlinear_arith)
                requires
                    pow2(0) == 1,
            ;
        }
        while digits < 0x10_0000_0000_0000
            invariant
                0 < n < 0x20_0000_0000_0000,
                0 < digits < 0x20_0000_0000_0000,
                digits == n * pow2(shift as nat),
                shift <= 52,
            decreases 0x20_0000_0000_0000 - digits,
        {
            proof {
                lemma_pow2_unfold((shift + 1) as nat);
                assert(n * pow2((shift + 1) as nat) == 2 * (n * pow2(shift as nat)))
                    by (nonlinear_arith)
                    requires
                        pow2((shift + 1) as nat) == 2 * pow2(shift as nat),
                ;
                if shift >= 52 {
                    lemma2_to64_rest();
                    assert(n * pow2(52) >= pow2(52)) by (nonlinear_arith)
                        requires
                            n >= 1,
                            pow2(52) >= 0,
                    ;
                    assert(false);
                }
            }
            digits = digits * 2;
            shift = shift + 1;
        }
        let r = Double { bits: (1065 - shift) * 0x10_0000_0000_0000 + (digits - 0x10_0000_0000_0000) };
        proof {
            lemma2_to64_rest();
            assert(r.counts_1024ths(n as int, shift as nat));
        }
        r
    }
}

proof fn lemma_more_places(n: int, p: nat, m: int, q: nat)
    requires
        0 < n <= m,
        p < q,
    ensures
        m * pow2(q) >= 2 * (n * pow2(p)),
{
    lemma_pow2_pos(p);
    lemma_pow2_pos((q - 1 - p) as nat);
    lemma_pow2_adds(1, (q - 1 - p) as nat);
    lemma_pow2_adds(p, (q - p) as nat);
    lemma2_to64();
    let gap = pow2((q - p) as nat) as int;
    assert(gap >= 2) by {
        assert(pow2(1) * pow2((q - 1 - p) as nat) >= 2) by (nonlinear_arith)
            requires
                pow2(1) == 2,
                pow2((q - 1 - p) as nat) >= 1,
        ;
    }
    assert(m * pow2(q) >= 2 * (n * pow2(p))) by (nonlinear_arith)
        requires
            0 < n <= m,
            pow2(q) == pow2(p) * gap,
            pow2(p) >= 1,
            gap >= 2,
    ;
}

proof fn lemma_counts(a: Double, n: int, p: nat, b: Double, m: int, q: nat)
    requires
        p <= 52,
        q <= 52,
        0 < n <= m,
        a.counts_1024ths(n, p),
        b.counts_1024ths(m, q),
    ensures
        n < m ==> b.exceeds(a),
        n == m ==> a == b,
{
    lemma2_to64_rest();
    let unit = pow2(52) as int;
    let x = n * pow2(p);
    let y = m * pow2(q);
    lemma_pow2_pos(p);
    if p < q {
        lemma_more_places(n, p, m, q);
        assert(false);
    } else if p > q {
        if n == m {
            lemma_more_places(m, q, n, p);
            assert(false);
        }
        assert(a.bits < b.bits) by (nonlinear_arith)
            requires
                a.bits as int == (1065 - p) * unit + (x - unit),
                b.bits as int == (1065 - q) * unit + (y - unit),
                x < 2 * unit,
                y >= unit,
                p >= q + 1,
                unit > 0,
        ;
    } else if n < m {
        assert(x < y) by (nonlinear_arith)
            requires
                x == n * pow2(p),
                y == m * pow2(p),
                n < m,
                pow2(p) >= 1,
        ;
    }
    assert(b.bits < INFINITY_BITS) by (nonlinear_arith)
        requires
            b.bits as int == (1065 - q) * unit + (y - unit),
            y < 2 * unit,
            unit == 0x10_0000_0000_0000,
            q >= 0,
    ;
}

/// More parts of 1024 make a greater number, and equally many one and the same
/// number.
pub proof fn parts_order_as_numbers(a: Double, n: int, b: Double, m: int)
    requires
        0 <= n <= m,
        a.is_1024ths(n),
        b.is_1024ths(m),
    ensures
        n < m ==> b.exceeds(a),
        n == m ==> a == b,
        !a.is_nan(),
        !b.is_nan(),
{
    if 0 < n {
        let p = choose|p: nat| p <= 52 && #[trigger] a.counts_1024ths(n, p);
        let q = choose|q: nat| q <= 52 && #[trigger] b.counts_1024ths(m, q);
        lemma_counts(a, n, p, b, m, q);
        lemma_size(a, n, p);
    }
    if 0 < m {
        let q = choose|q: nat| q <= 52 && #[trigger] b.counts_1024ths(m, q);
        lemma_size(b, m, q);
    }
}

proof fn lemma_size(a: Double, n: int, p: nat)
    requires
        p <= 52,
        a.counts_1024ths(n, p),
    ensures
        0 < a.bits < INFINITY_BITS,
{
    lemma2_to64_rest();
    let unit = pow2(52) as int;
    let x = n * pow2(p);
    assert(0 < a.bits < INFINITY_BITS) by (nonlinear_arith)
        requires
            a.bits as int == (1065 - p) * unit + (x - unit),
            unit <= x < 2 * unit,
            unit == 0x10_0000_0000_0000,
            0 <= p <= 52,
    ;
}

/// Numbers order as IEEE 754 orders them: without a sign by their bits, with
/// one the other way round, and one without a sign is the greater unless both
/// are zero. What is no number is neither greater than anything nor equal to
/// it.
pub proof fn numbers_order_by_their_bits(a: Double, b: Double)
    ensures
        a.bits <= 0x7ff0_0000_0000_0000 && b.bits <= 0x7ff0_0000_0000_0000 ==> (a.exceeds(b)
            <==> a.bits > b.bits) && (a.reaches(b) <==> a.bits >= b.bits),
        0x8000_0000_0000_0000 <= a.bits <= 0xfff0_0000_0000_0000 && 0x8000_0000_0000_0000
            <= b.bits <= 0xfff0_0000_0000_0000 ==> (a.exceeds(b) <==> a.bits < b.bits) && (
        a.reaches(b) <==> a.bits <= b.bits),
        a.bits <= 0x7ff0_0000_0000_0000 && 0x8000_0000_0000_0000 <= b.bits
            <= 0xfff0_0000_0000_0000 ==> a.reaches(b) && (a.exceeds(b) <==> a.bits != 0 || b.bits
            != 0x8000_0000_0000_0000) && !b.exceeds(a),
        0x7ff0_0000_0000_0000 < a.bits < 0x8000_0000_0000_0000 || a.bits > 0xfff0_0000_0000_0000
            ==> !a.exceeds(b) && !a.reaches(b) && !b.exceeds(a) && !b.reaches(a),
        a.is_nan() <==> 0x7ff0_0000_0000_0000 < a.bits < 0x8000_0000_0000_0000 || a.bits
            > 0xfff0_0000_0000_0000,
{
}

/// The larger of two is one of them and no less than either that is a number;
/// it is no number only where neither is.
pub proof fn larger_is_the_least_bound(a: Double, b: Double)
    ensures
        a.larger_of(b) == a || a.larger_of(b) == b,
        !a.is_nan() ==> a.larger_of(b).reaches(a),
        !b.is_nan() ==> a.larger_of(b).reaches(b),
        a.is_nan() && b.is_nan() ==> a.larger_of(b).is_nan(),
{
}

/// Parts of 1024 make the number that IEEE 754 has for them: one for 1024
/// parts, a half for 512, and twice as many parts the next greater power of
/// two.
pub proof fn parts_make_the_number(a: Double, b: Double, n: int)
    requires
        a.is_1024ths(n),
        b.is_1024ths(2 * n),
        0 < 2 * n < 0x20_0000_0000_0000,
    ensures
        b.bits == a.bits + 0x10_0000_0000_0000,
        n == 1024 ==> a.bits == 0x3ff0_0000_0000_0000,
        n == 512 ==> a.bits == 0x3fe0_0000_0000_0000,
{
    let p = choose|p: nat| p <= 52 && #[trigger] a.counts_1024ths(n, p);
    let q = choose|q: nat| q <= 52 && #[trigger] b.counts_1024ths(2 * n, q);
    lemma2_to64();
    lemma2_to64_rest();
    lemma_pow2_pos(p);
    lemma_pow2_pos(q);
    if q >= p {
        if q > p {
            lemma_more_places(n, p, 2 * n, q);
        }
        assert(2 * n * pow2(q) >= 2 * (n * pow2(p))) by (nonlinear_arith)
            requires
                q == p || 2 * n * pow2(q) >= 2 * (n * pow2(p)),
                q == p ==> pow2(q) == pow2(p),
        ;
        assert(2 * pow2(52) == pow2(53));
        assert(false);
    }
    if q + 1 < p {
        lemma_more_places(n, q, n, (p - 1) as nat);
        lemma_pow2_unfold(p);
        assert(n * pow2(p) == 2 * (n * pow2((p - 1) as nat))) by (nonlinear_arith)
            requires
                pow2(p) == 2 * pow2((p - 1) as nat),
        ;
        assert(2 * n * pow2(q) == 2 * (n * pow2(q))) by (nonlinear_arith);
        assert(n * pow2(p) >= 4 * (n * pow2(q)));
        assert(false);
    }
    assert(p == q + 1);
    lemma_pow2_unfold(p);
    let unit = pow2(52) as int;
    assert(n * pow2(p) == 2 * n * pow2(q)) by (nonlinear_arith)
        requires
            pow2(p) == 2 * pow2(q),
    ;
    assert(b.bits == a.bits + unit) by (nonlinear_arith)
        requires
            a.bits as int == (1065 - p) * unit + (n * pow2(p) - unit),
            b.bits as int == (1065 - q) * unit + (2 * n * pow2(q) - unit),
            n * pow2(p) == 2 * n * pow2(q),
            p == q + 1,
    ;
    if n == 1024 {
        let one = Double { bits: 0x3ff0_0000_0000_0000 };
        assert(one.counts_1024ths(1024, 42));
        lemma_counts(a, n, p, one, n, 42);
    }
    if n == 512 {
        let half = Double { bits: 0x3fe0_0000_0000_0000 };
        assert(half.counts_1024ths(512, 43));
        lemma_counts(a, n, p, half, n, 43);
    }
}

} // verus!
