//! Numbers with a fraction: double-precision values carried by their bit
//! pattern, and exact ratios of counts.

use vstd::arithmetic::power2::*;
use vstd::prelude::*;

verus! {

/// An IEEE 754 double that is not a NaN, carried by its bit pattern. The library
/// orders such values and hands them on; it does no arithmetic on them.
#[derive(Clone, Copy, PartialEq, Eq, Structural, Debug)]
pub struct Double {
    bits: u64,
}

/// Whether a bit pattern is that of a NaN: all exponent bits set and a mantissa
/// other than zero.
pub open spec fn is_nan_bits(bits: u64) -> bool {
    bits % 0x8000_0000_0000_0000 > 0x7FF0_0000_0000_0000
}

/// The place of a bit pattern in the order of the doubles: sign and magnitude,
/// the two zeros alike.
pub open spec fn order_key(bits: u64) -> int {
    if bits < 0x8000_0000_0000_0000 {
        bits as int
    } else {
        0x8000_0000_0000_0000 - bits
    }
}

/// The quotient of two naturals rounded to the nearest integer, a tie to the
/// even one.
pub open spec fn nearest_quotient(a: nat, b: nat) -> nat
    recommends
        b > 0,
{
    let q = a / b;
    let r = a % b;
    if 2 * r > b || (2 * r == b && q % 2 == 1) {
        q + 1
    } else {
        q
    }
}

/// The number of binary digits of `n` after the leading one.
pub open spec fn magnitude(n: nat) -> nat
    decreases n,
{
    if n <= 1 {
        0
    } else {
        1 + magnitude(n / 2)
    }
}

/// The double nearest to a natural number, which is again a natural number:
/// itself where 53 binary digits hold it, else the nearest multiple of the power
/// of two that leaves 53 of them, a tie to the even one.
pub open spec fn nearest_double(n: nat) -> nat {
    if n < 0x20_0000_0000_0000 {
        n
    } else {
        let unit = pow2((magnitude(n) - 52) as nat);
        nearest_quotient(n, unit) * unit
    }
}

/// The bit pattern of the double nearest to `1 / n`.
pub open spec fn reciprocal_bits(n: nat) -> int
    recommends
        n > 0,
{
    (1021 - magnitude(n)) * 0x10_0000_0000_0000 + nearest_quotient(pow2(53 + magnitude(n)), n)
}

/// The bit pattern of one divided by one more than `n`, where `n`, the sum and the quotient
/// are each brought to the nearest double.
pub open spec fn successor_share_bits(n: nat) -> int {
    reciprocal_bits(nearest_double(nearest_double(n) + 1))
}

/// `magnitude(n)` is the exponent of the greatest power of two up to `n`.
pub proof fn lemma_magnitude(n: nat)
    requires
        n > 0,
    ensures
        pow2(magnitude(n)) <= n < 2 * pow2(magnitude(n)),
    decreases n,
{
    lemma2_to64();
    if n > 1 {
        lemma_magnitude(n / 2);
        lemma_pow2_unfold(magnitude(n));
    }
}

/// The rounded quotient is within half a unit of the true one.
pub proof fn lemma_nearest_quotient(a: nat, b: nat)
    requires
        b > 0,
    ensures
        -(b as int) <= 2 * (nearest_quotient(a, b) * b - a) <= b,
{
    let q = a / b;
    let r = a % b;
    assert(a == q * b + r) by {
        vstd::arithmetic::div_mod::lemma_fundamental_div_mod(a as int, b as int);
        assert(q * b == b * q) by (nonlinear_arith);
    }
    assert((q + 1) * b == q * b + b) by (nonlinear_arith);
}

impl Double {
    /// The bit pattern.
    pub closed spec fn pattern(self) -> u64 {
        self.bits
    }

    /// The place of the value in the order of the doubles.
    pub open spec fn key(self) -> int {
        order_key(self.pattern())
    }

    /// The value with the given bit pattern, unless that is a NaN.
    pub fn from_bits(bits: u64) -> (r: Option<Double>)
        ensures
            match r {
                Some(x) => !is_nan_bits(bits) && x.pattern() == bits,
                None => is_nan_bits(bits),
            },
    {
        if bits % 0x8000_0000_0000_0000 > 0x7FF0_0000_0000_0000 {
            None
        } else {
            Some(Double { bits })
        }
    }

    /// The bit pattern.
    pub fn to_bits(&self) -> (r: u64)
        ensures
            r == self.pattern(),
    {
        self.bits
    }

    /// Zero.
    pub fn zero() -> (r: Double)
        ensures
            r.pattern() == 0,
    {
        Double { bits: 0 }
    }

    /// One half.
    pub fn half() -> (r: Double)
        ensures
            r.pattern() == 0x3FE0_0000_0000_0000,
    {
        Double { bits: 0x3FE0_0000_0000_0000 }
    }

    /// One.
    pub fn one() -> (r: Double)
        ensures
            r.pattern() == 0x3FF0_0000_0000_0000,
    {
        Double { bits: 0x3FF0_0000_0000_0000 }
    }

    /// Whether `self` is less than `other`.
    pub fn less_than(&self, other: &Double) -> (r: bool)
        ensures
            r == (self.key() < other.key()),
    {
        let top: u64 = 0x8000_0000_0000_0000;
        if self.bits < top {
            other.bits < top && self.bits < other.bits
        } else if other.bits < top {
            self.bits > top || other.bits > 0
        } else {
            self.bits > other.bits
        }
    }

    /// The double nearest to `1 / n`, where `n` is first brought to the nearest
    /// double itself.
    pub fn reciprocal(n: u64) -> (r: Double)
        requires
            n > 0,
        ensures
            r.pattern() == reciprocal_bits(nearest_double(n as nat)),
    {
        Double::reciprocal_of(round_to_double(n))
    }

    /// One divided by one more than `n`, where `n`, the sum and the quotient are each brought
    /// to the nearest double.
    pub fn successor_share(n: u64) -> (r: Double)
        ensures
            r.pattern() == successor_share_bits(n as nat),
    {
        let sum: u128 = round_to_double(n) + 1;
        if sum <= u64::MAX as u128 {
            Double::reciprocal_of(round_to_double(sum as u64))
        } else {
            proof {
                lemma_nearest_double_at_top(sum as nat);
            }
            Double::reciprocal_of(0x1_0000_0000_0000_0000)
        }
    }

    /// The double nearest to `1 / m`.
    #[verifier::rlimit(50)]
    fn reciprocal_of(m: u128) -> (r: Double)
        requires
            0 < m <= 0x1_0000_0000_0000_0000,
        ensures
            r.pattern() == reciprocal_bits(m as nat),
    {
        let (k, p) = leading_power(m);
        proof {
            lemma_magnitude(m as nat);
            lemma2_to64();
            lemma_pow2_adds(53, k as nat);
            assert(pow2(53) == 0x20_0000_0000_0000) by {
                lemma2_to64_rest();
            }
            assert(p <= 0x1_0000_0000_0000_0000);
        }
        assert(0x20_0000_0000_0000 * p <= 0x20_0000_0000_0000 * 0x1_0000_0000_0000_0000)
            by (nonlinear_arith)
            requires
                p <= 0x1_0000_0000_0000_0000,
        ;
        let scaled: u128 = 0x20_0000_0000_0000 * p;
        let q: u128 = rounded_quotient(scaled, m);
        proof {
            lemma_nearest_quotient(scaled as nat, m as nat);
            assert(q * m <= 0x40_0000_0000_0000 * m) by {
                assert(q * m <= scaled + m);
                assert(scaled + m <= 0x20_0000_0000_0000 * m + m) by (nonlinear_arith)
                    requires
                        p <= m,
                        scaled == 0x20_0000_0000_0000 * p,
                ;
                assert(0x20_0000_0000_0000 * m + m <= 0x40_0000_0000_0000 * m)
                    by (nonlinear_arith);
            }
            assert(q <= 0x40_0000_0000_0000) by (nonlinear_arith)
                requires
                    q * m <= 0x40_0000_0000_0000 * m,
                    m > 0,
            ;
        }
        let bits: u64 = (1021 - k as u64) * 0x10_0000_0000_0000 + q as u64;
        proof {
            lemma_reciprocal_not_nan(bits, k as int, q as int);
        }
        Double { bits }
    }
}

proof fn lemma_reciprocal_not_nan(bits: u64, k: int, q: int)
    requires
        0 <= k <= 64,
        0 <= q <= 0x40_0000_0000_0000,
        bits == (1021 - k) * 0x10_0000_0000_0000 + q,
    ensures
        !is_nan_bits(bits),
{
    assert(bits < 0x7FF0_0000_0000_0000);
}

/// `a / b` rounded to the nearest integer, a tie to the even one.
pub fn rounded_quotient(a: u128, b: u128) -> (r: u128)
    requires
        0 < b <= 0x1_0000_0000_0000_0000_0000,
    ensures
        r == nearest_quotient(a as nat, b as nat),
{
    let q: u128 = a / b;
    let r: u128 = a % b;
    proof {
        if b == 1 {
            assert(r == 0);
        } else {
            assert(q <= a / 2) by (nonlinear_arith)
                requires
                    q == a / b,
                    b >= 2,
            ;
        }
    }
    if 2 * r > b || (2 * r == b && q % 2 == 1) {
        q + 1
    } else {
        q
    }
}

/// The exponent of the greatest power of two up to `n`, and that power.
fn leading_power(n: u128) -> (r: (u8, u128))
    requires
        0 < n <= 0x1_0000_0000_0000_0000,
    ensures
        r.0 == magnitude(n as nat),
        r.1 == pow2(r.0 as nat),
        r.1 <= n,
        r.0 <= 64,
{
    let mut k: u8 = 0;
    let mut p: u128 = 1;
    let mut rest: u128 = n;
    proof {
        lemma2_to64();
    }
    while rest > 1
        invariant
            0 < rest,
            0 < n <= 0x1_0000_0000_0000_0000,
            magnitude(n as nat) == k + magnitude(rest as nat),
            p == pow2(k as nat),
            rest * p <= n,
            0 < p,
            k <= 64,
        decreases rest,
    {
        proof {
            lemma_pow2_unfold((k + 1) as nat);
            let half = rest / 2;
            assert(half * (2 * p) <= rest * p) by (nonlinear_arith)
                requires
                    half == rest / 2,
                    rest > 1,
                    p > 0,
            ;
            assert(p < 0x1_0000_0000_0000_0000) by (nonlinear_arith)
                requires
                    rest * p <= 0x1_0000_0000_0000_0000,
                    rest > 1,
                    p > 0,
            ;
            if k == 64 {
                lemma2_to64_rest();
            }
        }
        rest = rest / 2;
        p = p * 2;
        k = k + 1;
    }
    proof {
        assert(1 * p == p);
    }
    (k, p)
}

/// The double nearest to `n`.
pub fn round_to_double(n: u64) -> (r: u128)
    ensures
        r == nearest_double(n as nat),
        r <= 0x1_0000_0000_0000_0000,
        n > 0 ==> r > 0,
{
    if n < 0x20_0000_0000_0000 {
        return n as u128;
    }
    let (k, p) = leading_power(n as u128);
    proof {
        lemma_magnitude(n as nat);
        lemma2_to64();
        lemma2_to64_rest();
        if k < 53 {
            lemma_pow2_strictly_increases(k as nat, 53);
            lemma_pow2_unfold((k + 1) as nat);
            if k < 52 {
                lemma_pow2_strictly_increases((k + 1) as nat, 53);
            }
        }
        if k == 64 {
            assert(pow2(64) > n);
        }
        lemma_pow2_adds((k - 52) as nat, 52);
        assert(pow2(52) == 0x10_0000_0000_0000);
    }
    let unit: u128 = p / 0x10_0000_0000_0000;
    let ghost e = (k - 52) as nat;
    proof {
        lemma_pow2_pos(e);
        assert(p == pow2(e) * 0x10_0000_0000_0000);
        assert(unit == pow2(e)) by (nonlinear_arith)
            requires
                p == pow2(e) * 0x10_0000_0000_0000,
                unit == p / 0x10_0000_0000_0000,
        ;
    }
    let q: u128 = rounded_quotient(n as u128, unit);
    proof {
        lemma_nearest_quotient(n as nat, unit as nat);
        lemma_nearest_double_bound(n as nat, unit as nat, e);
    }
    q * unit
}

/// Rounding to a unit that divides a power of two does not pass that power.
proof fn lemma_nearest_double_bound(n: nat, unit: nat, e: nat)
    requires
        n < pow2(64),
        unit == pow2(e),
        e <= 12,
        n >= unit,
    ensures
        0 < nearest_quotient(n, unit) * unit <= pow2(64),
{
    lemma_pow2_pos(e);
    lemma_pow2_adds((64 - e) as nat, e);
    let q = n / unit;
    let top = pow2((64 - e) as nat);
    assert(q < top && q >= 1) by (nonlinear_arith)
        requires
            n < top * unit,
            q == n / unit,
            unit > 0,
            n >= unit,
    ;
    let r = nearest_quotient(n, unit);
    assert(0 < r * unit <= top * unit) by (nonlinear_arith)
        requires
            0 < r <= top,
            unit > 0,
    ;
}

/// What is rounded to find `1 / n` lies between the two powers of two that a mantissa of
/// 53 binary digits can have, and above the lower one where `n` is below `2^52`.
proof fn lemma_reciprocal_mantissa(n: nat)
    requires
        n > 0,
    ensures
        nearest_quotient(pow2(53 + magnitude(n)), n) <= 0x20_0000_0000_0000,
        n < 0x10_0000_0000_0000 ==> nearest_quotient(pow2(53 + magnitude(n)), n)
            > 0x10_0000_0000_0000,
{
    let k = magnitude(n);
    let p = pow2(k);
    let whole = pow2(53 + k);
    let q = nearest_quotient(whole, n);
    lemma_magnitude(n);
    lemma_pow2_adds(53, k);
    lemma2_to64_rest();
    lemma_nearest_quotient(whole, n);
    assert(whole == 0x20_0000_0000_0000 * p);
    assert(q <= 0x20_0000_0000_0000) by (nonlinear_arith)
        requires
            2 * (q * n - whole) <= n,
            whole == 0x20_0000_0000_0000 * p,
            p <= n,
            n > 0,
    ;
    if n < 0x10_0000_0000_0000 {
        assert(q > 0x10_0000_0000_0000) by (nonlinear_arith)
            requires
                -(n as int) <= 2 * (q * n - whole),
                whole == 0x20_0000_0000_0000 * p,
                n < 2 * p,
                n < 0x10_0000_0000_0000,
                n > 0,
        ;
    }
}

/// The numbers below `2^52` keep their order, reversed, when each is divided into one: no
/// two of their reciprocals are rounded to the same double.
pub proof fn reciprocals_fall(a: nat, b: nat)
    requires
        0 < a < b < 0x10_0000_0000_0000,
    ensures
        reciprocal_bits(b) < reciprocal_bits(a),
{
    let ka = magnitude(a);
    let kb = magnitude(b);
    lemma_magnitude(a);
    lemma_magnitude(b);
    lemma_reciprocal_mantissa(a);
    lemma_reciprocal_mantissa(b);
    if ka == kb {
        let p = pow2(ka);
        let whole = pow2(53 + ka);
        let qa = nearest_quotient(whole, a);
        let qb = nearest_quotient(whole, b);
        lemma_pow2_adds(53, ka);
        lemma2_to64_rest();
        lemma_nearest_quotient(whole, a);
        lemma_nearest_quotient(whole, b);
        if qb >= qa {
            assert((2 * whole - a) * b <= 2 * (qa * a) * b) by (nonlinear_arith)
                requires
                    -(a as int) <= 2 * (qa * a - whole),
                    b > 0,
            ;
            assert(2 * (qa * a) * b <= 2 * (qb * b) * a) by (nonlinear_arith)
                requires
                    qa <= qb,
            ;
            assert(2 * (qb * b) * a <= (2 * whole + b) * a) by (nonlinear_arith)
                requires
                    2 * (qb * b - whole) <= b,
                    a > 0,
            ;
            assert(whole * (b - a) <= a * b) by (nonlinear_arith)
                requires
                    (2 * whole - a) * b <= (2 * whole + b) * a,
            ;
            assert(whole <= whole * (b - a)) by (nonlinear_arith)
                requires
                    b - a >= 1,
            ;
            assert(a * b < 0x10_0000_0000_0000 * (2 * p)) by (nonlinear_arith)
                requires
                    0 < a < b < 0x10_0000_0000_0000,
                    a < 2 * p,
            ;
        }
    } else if kb < ka {
        lemma_pow2_unfold((kb + 1) as nat);
        if kb + 1 < ka {
            lemma_pow2_strictly_increases((kb + 1) as nat, ka);
        }
        assert(false);
    } else {
        assert((1021 - kb) * 0x10_0000_0000_0000 <= (1020 - ka) * 0x10_0000_0000_0000);
    }
}

/// A number of up to 64 binary digits is brought to a double of that size at most.
proof fn lemma_nearest_double_range(n: nat)
    requires
        0 < n < pow2(64),
    ensures
        0 < nearest_double(n) <= pow2(64),
{
    lemma2_to64();
    lemma2_to64_rest();
    if n >= 0x20_0000_0000_0000 {
        let k = magnitude(n);
        lemma_magnitude(n);
        lemma_pow2_unfold((k + 1) as nat);
        if k + 1 < 53 {
            lemma_pow2_strictly_increases((k + 1) as nat, 53);
        }
        if k > 64 {
            lemma_pow2_strictly_increases(64, k);
        }
        let e = (k - 52) as nat;
        lemma_pow2_adds(e, 52);
        lemma_pow2_pos(e);
        assert(n >= pow2(e)) by (nonlinear_arith)
            requires
                n >= pow2(k),
                pow2(k) == pow2(e) * 0x10_0000_0000_0000,
        ;
        lemma_nearest_double_bound(n, pow2(e), e);
    }
}

/// The reciprocal of a number of up to 64 binary digits is above zero and at most one.
pub proof fn reciprocals_are_shares(n: nat)
    requires
        0 < n < pow2(64),
    ensures
        0 < reciprocal_bits(nearest_double(n)) <= 0x3FF0_0000_0000_0000,
{
    let m = nearest_double(n);
    lemma_nearest_double_range(n);
    lemma_reciprocal_mantissa(m);
    lemma_magnitude(m);
    if magnitude(m) > 64 {
        lemma_pow2_strictly_increases(64, magnitude(m));
    }
}

/// The numbers from `2^64` on that are nearer to it than to the next double are brought to it.
proof fn lemma_nearest_double_at_top(n: nat)
    requires
        0x1_0000_0000_0000_0000 <= n <= 0x1_0000_0000_0000_0001,
    ensures
        nearest_double(n) == 0x1_0000_0000_0000_0000,
{
    let k = magnitude(n);
    lemma2_to64();
    lemma2_to64_rest();
    lemma_magnitude(n);
    lemma_pow2_unfold(65);
    if k < 64 {
        lemma_pow2_unfold((k + 1) as nat);
        if k + 1 < 64 {
            lemma_pow2_strictly_increases((k + 1) as nat, 64);
        }
    }
    if k > 64 {
        if k > 65 {
            lemma_pow2_strictly_increases(65, k);
        }
    }
    assert(k == 64);
    assert((k - 52) as nat == 12);
    assert(pow2(12) == 0x1000);
    assert(n / 0x1000 == 0x10_0000_0000_0000);
    assert(n % 0x1000 <= 1);
    assert(nearest_quotient(n, 0x1000) == 0x10_0000_0000_0000);
}

/// The share that belongs to a number of up to 64 binary digits is above zero and at most one.
pub proof fn shares_of_successors_are_shares(n: nat)
    requires
        n <= u64::MAX,
    ensures
        0 < successor_share_bits(n) <= 0x3FF0_0000_0000_0000,
{
    lemma2_to64();
    lemma2_to64_rest();
    if n > 0 {
        lemma_nearest_double_range(n);
    }
    let sum = nearest_double(n) + 1;
    if sum <= u64::MAX {
        reciprocals_are_shares(sum);
    } else {
        lemma_nearest_double_at_top(sum);
        let m: nat = 0x1_0000_0000_0000_0000;
        lemma_reciprocal_mantissa(m);
        lemma_magnitude(m);
        if magnitude(m) > 64 {
            lemma_pow2_strictly_increases(64, magnitude(m));
        }
    }
}

/// Where a number and the one after it are below `2^53` they are doubles themselves, so that the
/// share is the reciprocal of the successor.
pub proof fn small_shares_are_reciprocals(n: nat)
    requires
        n < 0x20_0000_0000_0000 - 1,
    ensures
        successor_share_bits(n) == reciprocal_bits(n + 1),
{
}

/// A ratio of two counts, the second of which is not zero.
#[derive(Clone, Copy, PartialEq, Eq, Structural, Debug)]
pub struct Ratio {
    /// The part.
    pub part: u64,
    /// The whole.
    pub whole: u128,
}

/// Patterns are ordered as the numbers they stand for: those of one sign by their size, the
/// negative ones the other way round and below all others, and the two zeros alike.
pub proof fn patterns_are_ordered_as_numbers(a: u64, b: u64)
    ensures
        a < 0x8000_0000_0000_0000 && b < 0x8000_0000_0000_0000 ==> (order_key(a) < order_key(b)
            <==> a < b),
        a >= 0x8000_0000_0000_0000 && b >= 0x8000_0000_0000_0000 ==> (order_key(a) < order_key(b)
            <==> a > b),
        a > 0x8000_0000_0000_0000 && b < 0x8000_0000_0000_0000 ==> order_key(a) < order_key(b),
        order_key(0x8000_0000_0000_0000) == order_key(0),
{
}

/// A pattern is no number exactly where its exponent is all ones and its mantissa is not zero.
pub proof fn not_a_number_by_its_parts(bits: u64)
    ensures
        is_nan_bits(bits) <==> (bits as int / 0x10_0000_0000_0000) % 0x800 == 0x7FF && bits as int
            % 0x10_0000_0000_0000 != 0,
{
}

/// A quotient goes to the nearest integer, and of two that are equally near to the even one.
pub proof fn ties_go_to_the_even_quotient(q: nat, r: nat, b: nat)
    requires
        r < b,
    ensures
        2 * r < b ==> nearest_quotient(q * b + r, b) == q,
        2 * r > b ==> nearest_quotient(q * b + r, b) == q + 1,
        2 * r == b ==> nearest_quotient(q * b + r, b) % 2 == 0,
{
    assert(b * q == q * b) by (nonlinear_arith);
    vstd::arithmetic::div_mod::lemma_fundamental_div_mod_converse(
        (q * b + r) as int,
        b as int,
        q as int,
        r as int,
    );
}

/// A number of up to 53 binary digits is a double, and any other goes to a multiple of the unit
/// in the last of its first 53 digits, no further than half a unit away.
pub proof fn doubles_are_nearest(n: nat)
    ensures
        n < 0x20_0000_0000_0000 ==> nearest_double(n) == n,
        n >= 0x20_0000_0000_0000 ==> ({
            let unit = pow2((magnitude(n) - 52) as nat);
            &&& nearest_double(n) % unit == 0
            &&& -(unit as int) <= 2 * (nearest_double(n) - n) <= unit
        }),
{
    if n >= 0x20_0000_0000_0000 {
        let unit = pow2((magnitude(n) - 52) as nat);
        lemma_pow2_pos((magnitude(n) - 52) as nat);
        lemma_nearest_quotient(n, unit);
        vstd::arithmetic::div_mod::lemma_mod_multiples_basic(
            nearest_quotient(n, unit) as int,
            unit as int,
        );
    }
}

} // verus!
