//! Decimal numbers.

use vstd::prelude::*;

verus! {

/// The largest mantissa of a decimal number, of 96 bits.
pub const MAX_MANTISSA: i128 = 79_228_162_514_264_337_593_543_950_335;

/// The largest number of digits after the decimal point.
pub const MAX_SCALE: u32 = 28;

/// A power of ten.
pub open spec fn ten_to(exponent: nat) -> nat
    decreases exponent,
{
    if exponent == 0 {
        1
    } else {
        10 * ten_to((exponent - 1) as nat)
    }
}

/// Whether a mantissa and a scale make a decimal number.
pub open spec fn is_decimal(mantissa: int, scale: int) -> bool {
    -MAX_MANTISSA <= mantissa <= MAX_MANTISSA && 0 <= scale <= MAX_SCALE
}

/// A decimal number: a mantissa with `scale` digits after the point.
#[derive(Debug, Clone, Copy)]
pub struct Decimal {
    mantissa: i128,
    scale: u32,
}

impl Decimal {
    #[verifier::type_invariant]
    spec fn well_formed(self) -> bool {
        is_decimal(self.mantissa as int, self.scale as int)
    }

    /// All digits of the number, as an integer.
    pub closed spec fn digits(self) -> int {
        self.mantissa as int
    }

    /// How many of the digits stand after the decimal point.
    pub closed spec fn places(self) -> nat {
        self.scale as nat
    }

    /// The number with the given mantissa and scale.
    pub fn new(mantissa: i128, scale: u32) -> (number: Decimal)
        requires
            is_decimal(mantissa as int, scale as int),
        ensures
            number.digits() == mantissa,
            number.places() == scale,
    {
        Decimal { mantissa, scale }
    }

    /// Zero, without digits after the point.
    pub closed spec fn nothing() -> Decimal {
        Decimal { mantissa: 0, scale: 0 }
    }

    /// Zero, without digits after the point.
    pub fn zero() -> (number: Decimal)
        ensures
            number == Decimal::nothing(),
            number.digits() == 0,
            number.places() == 0,
    {
        Decimal { mantissa: 0, scale: 0 }
    }

    /// All digits of the number, as an integer.
    pub fn mantissa(&self) -> (mantissa: i128)
        ensures
            mantissa == self.digits(),
            is_decimal(mantissa as int, self.places() as int),
    {
        proof {
            use_type_invariant(self);
        }
        self.mantissa
    }

    /// How many of the digits stand after the decimal point.
    pub fn scale(&self) -> (scale: u32)
        ensures
            scale == self.places(),
            is_decimal(self.digits(), scale as int),
    {
        proof {
            use_type_invariant(self);
        }
        self.scale
    }
}

/// Two numbers with the same digits and scale are the same.
pub proof fn lemma_decimal_equal(a: Decimal, b: Decimal)
    requires
        a.digits() == b.digits(),
        a.places() == b.places(),
    ensures
        a == b,
{
}

/// The sum of two numbers, rounded where it has too many digits, or `None` where it is too large.
pub uninterp spec fn decimal_sum(a: Decimal, b: Decimal) -> Option<Decimal>;

/// The product of two numbers, rounded where it has too many digits, or `None` where it is too
/// large.
pub uninterp spec fn decimal_product(a: Decimal, b: Decimal) -> Option<Decimal>;

/// The quotient of two numbers, rounded where it has too many digits, or `None` where it is too
/// large or the divisor is zero.
pub uninterp spec fn decimal_quotient(a: Decimal, b: Decimal) -> Option<Decimal>;

/// Whether `number` has these digits and this scale.
pub open spec fn has_parts(number: Option<Decimal>, digits: int, places: int) -> bool {
    number matches Some(n) && n.digits() == digits && n.places() == places
}

/// The digits of `number` when it is written with `places` of them after the point, which are at
/// least as many as it has.
pub open spec fn at_scale(number: Decimal, places: nat) -> int {
    number.digits() * ten_to((places - number.places()) as nat)
}

/// The larger of the scales of two numbers.
pub open spec fn common_scale(a: Decimal, b: Decimal) -> nat {
    if a.places() < b.places() {
        b.places()
    } else {
        a.places()
    }
}

/// Whether two numbers, and their sum, can be written at the larger of their scales.
pub open spec fn aligned_sum_fits(a: Decimal, b: Decimal) -> bool {
    let places = common_scale(a, b);
    &&& is_decimal(at_scale(a, places), places as int)
    &&& is_decimal(at_scale(b, places), places as int)
    &&& is_decimal(at_scale(a, places) + at_scale(b, places), places as int)
}

/// Whether the number with these digits and this scale is at most a ratio.
pub open spec fn at_most_ratio(
    digits: int,
    places: nat,
    numerator: int,
    denominator: int,
) -> bool {
    if denominator > 0 {
        digits * denominator <= numerator * ten_to(places)
    } else {
        digits * denominator >= numerator * ten_to(places)
    }
}

/// Whether the number with these digits and this scale is at least a ratio.
pub open spec fn at_least_ratio(
    digits: int,
    places: nat,
    numerator: int,
    denominator: int,
) -> bool {
    if denominator > 0 {
        digits * denominator >= numerator * ten_to(places)
    } else {
        digits * denominator <= numerator * ten_to(places)
    }
}

/// Whether `number` is a ratio, rounded to a neighbouring decimal number where it is none: a
/// decimal number that is at most the ratio is at most `number`, and one that is at least the
/// ratio is at least `number`.
pub open spec fn is_rounded_ratio(number: Decimal, numerator: int, denominator: int) -> bool {
    forall|digits: int, places: nat|
        #![trigger at_most_ratio(digits, places, numerator, denominator)]
        #![trigger at_least_ratio(digits, places, numerator, denominator)]
        is_decimal(digits, places as int) ==> {
            &&& at_most_ratio(digits, places, numerator, denominator) ==> digits * ten_to(
                number.places(),
            ) <= number.digits() * ten_to(places)
            &&& at_least_ratio(digits, places, numerator, denominator) ==> digits * ten_to(
                number.places(),
            ) >= number.digits() * ten_to(places)
        }
}

/// Whether a ratio lies between the smallest and the largest decimal number.
pub open spec fn ratio_fits(numerator: int, denominator: int) -> bool {
    let limit = MAX_MANTISSA * if denominator < 0 {
        -denominator
    } else {
        denominator
    };
    -limit <= numerator <= limit
}

/// The numerator of the quotient of two numbers, over `quotient_denominator`.
pub open spec fn quotient_numerator(a: Decimal, b: Decimal) -> int {
    a.digits() * ten_to(b.places())
}

/// The denominator of the quotient of two numbers, under `quotient_numerator`.
pub open spec fn quotient_denominator(a: Decimal, b: Decimal) -> int {
    b.digits() * ten_to(a.places())
}

/// Whether two numbers have the same value, whatever their scales.
pub open spec fn same_value(a: Decimal, b: Decimal) -> bool {
    a.digits() * ten_to(b.places()) == b.digits() * ten_to(a.places())
}

/// Whether one number is not above another, whatever their scales.
pub open spec fn not_above(a: Decimal, b: Decimal) -> bool {
    a.digits() * ten_to(b.places()) <= b.digits() * ten_to(a.places())
}

/// The size of an integer.
pub open spec fn size(n: int) -> int {
    if n < 0 {
        -n
    } else {
        n
    }
}

/// Ten to the power of 27: a rounded number has at least that many units in its last digit, unless
/// it has all 28 digits after the point.
pub const PRECISION: i128 = 1_000_000_000_000_000_000_000_000_000;

/// Ten to the power of 28: the units in one, at the largest scale.
pub const UNITS: i128 = 10_000_000_000_000_000_000_000_000_000;

/// The number of units of ten to the power of -28 that a number holds.
pub open spec fn units(number: Decimal) -> int {
    at_scale(number, 28)
}

/// Whether `found` differs from `exact` by no more than a rounding: by half of `unit`, and one part
/// in `PRECISION`.
pub open spec fn is_close(found: int, exact: int, unit: int) -> bool {
    2 * PRECISION * size(found - exact) <= PRECISION * unit + 2 * size(exact)
}

/// Calls `rust_decimal::Decimal::checked_add`. Zero changes nothing. The sum of two other numbers
/// is exact, with the larger of their scales, where both and the sum can be written at that
/// scale. Any other sum is worked out in full and then rounded in the last digit of as many as 96
/// bits hold. There is a sum where its value lies within the range of decimal numbers. Which way it
/// is rounded is left to the name.
#[verifier::external_body]
fn checked_add(a: Decimal, b: Decimal) -> (sum: Option<Decimal>)
    ensures
        sum == decimal_sum(a, b),
        a.digits() == 0 ==> sum == Some(b),
        a.digits() != 0 && b.digits() == 0 ==> sum == Some(a),
        a.digits() != 0 && b.digits() != 0 && aligned_sum_fits(a, b) ==> has_parts(
            sum,
            at_scale(a, common_scale(a, b)) + at_scale(b, common_scale(a, b)),
            common_scale(a, b) as int,
        ),
        size(units(a) + units(b)) <= MAX_MANTISSA * UNITS ==> sum is Some,
        sum matches Some(n) ==> is_close(units(n), units(a) + units(b), 0),
{
    let a = rust_decimal::Decimal::from_i128_with_scale(a.mantissa, a.scale);
    let b = rust_decimal::Decimal::from_i128_with_scale(b.mantissa, b.scale);
    a.checked_add(b).map(|sum| Decimal { mantissa: sum.mantissa(), scale: sum.scale() })
}

/// Calls `rust_decimal::Decimal::checked_mul`. The product is exact, with the scales added, where
/// its digits and its scale fit, and it is plain zero where a factor is zero. Any other product is
/// worked out in full and then rounded in the last digit of as many as 96 bits and 28 places hold.
/// There is a product where its value lies within the range of decimal numbers. Which way it is
/// rounded is left to the name.
#[verifier::external_body]
fn checked_mul(a: Decimal, b: Decimal) -> (product: Option<Decimal>)
    ensures
        product == decimal_product(a, b),
        a.digits() == 0 || b.digits() == 0 ==> has_parts(product, 0, 0),
        a.digits() != 0 && b.digits() != 0 && is_decimal(
            a.digits() * b.digits(),
            (a.places() + b.places()) as int,
        ) ==> has_parts(product, a.digits() * b.digits(), (a.places() + b.places()) as int),
        size(units(a) * units(b)) <= MAX_MANTISSA * (UNITS * UNITS) ==> product is Some,
        product matches Some(n) ==> is_close(
            units(n) * UNITS,
            units(a) * units(b),
            UNITS as int,
        ),
{
    let a = rust_decimal::Decimal::from_i128_with_scale(a.mantissa, a.scale);
    let b = rust_decimal::Decimal::from_i128_with_scale(b.mantissa, b.scale);
    a.checked_mul(b).map(|product| Decimal { mantissa: product.mantissa(), scale: product.scale() })
}

/// Calls `rust_decimal::Decimal::checked_div`. There is no quotient by zero, and there is one
/// where its value lies within the range of decimal numbers. It is exact, with the difference of
/// the scales, where the digits divide without a remainder and that difference is not negative,
/// and it is plain zero where the dividend is zero. Any other quotient is worked out to as many
/// digits as 96 bits and 28 places hold, and then rounded in the last one, so that no decimal
/// number lies between it and the exact value. Which of the two neighbours it is, and how many
/// zeros end it, is left to the name.
#[verifier::external_body]
pub(crate) fn checked_div(a: Decimal, b: Decimal) -> (quotient: Option<Decimal>)
    ensures
        quotient == decimal_quotient(a, b),
        b.digits() == 0 ==> quotient is None,
        b.digits() != 0 && ratio_fits(quotient_numerator(a, b), quotient_denominator(a, b))
            ==> quotient is Some,
        a.digits() == 0 && b.digits() != 0 ==> has_parts(quotient, 0, 0),
        a.digits() != 0 && b.digits() != 0 && a.places() >= b.places() && a.digits() % b.digits()
            == 0 ==> has_parts(
            quotient,
            a.digits() / b.digits(),
            a.places() - b.places(),
        ),
        quotient matches Some(q) ==> is_rounded_ratio(
            q,
            quotient_numerator(a, b),
            quotient_denominator(a, b),
        ),
        quotient matches Some(q) ==> is_close(
            units(q) * units(b),
            units(a) * UNITS,
            size(units(b)),
        ),
{
    let a = rust_decimal::Decimal::from_i128_with_scale(a.mantissa, a.scale);
    let b = rust_decimal::Decimal::from_i128_with_scale(b.mantissa, b.scale);
    a.checked_div(b).map(|ratio| Decimal { mantissa: ratio.mantissa(), scale: ratio.scale() })
}

/// Calls `rust_decimal::Decimal::floor`, which gives the largest integer that is not above the
/// number, with scale zero.
#[verifier::external_body]
fn floor_of(number: Decimal) -> (whole: Decimal)
    ensures
        whole.digits() == floor_digits(number),
        whole.places() == 0,
{
    let whole = rust_decimal::Decimal::from_i128_with_scale(number.mantissa, number.scale).floor();
    Decimal { mantissa: whole.mantissa(), scale: whole.scale() }
}

/// Calls `rust_decimal::Decimal::ceil`, which gives the smallest integer that is not below the
/// number, with scale zero.
#[verifier::external_body]
fn ceil_of(number: Decimal) -> (whole: Decimal)
    ensures
        whole.digits() == ceil_digits(number),
        whole.places() == 0,
{
    let whole = rust_decimal::Decimal::from_i128_with_scale(number.mantissa, number.scale).ceil();
    Decimal { mantissa: whole.mantissa(), scale: whole.scale() }
}

/// The largest integer that is not above `number`.
pub open spec fn floor_digits(number: Decimal) -> int {
    number.digits() / ten_to(number.places()) as int
}

/// The smallest integer that is not below `number`.
pub open spec fn ceil_digits(number: Decimal) -> int {
    -((-number.digits()) / ten_to(number.places()) as int)
}

impl Decimal {
    /// The largest whole number that is not above this one.
    pub fn floor(&self) -> (whole: Decimal)
        ensures
            whole.digits() == floor_digits(*self),
            whole.places() == 0,
    {
        floor_of(*self)
    }

    /// The smallest whole number that is not below this one.
    pub fn ceil(&self) -> (whole: Decimal)
        ensures
            whole.digits() == ceil_digits(*self),
            whole.places() == 0,
    {
        ceil_of(*self)
    }
}

/// A power of ten is positive.
pub proof fn lemma_ten_to_positive(exponent: nat)
    ensures
        ten_to(exponent) > 0,
    decreases exponent,
{
    if exponent > 0 {
        lemma_ten_to_positive((exponent - 1) as nat);
    }
}

/// Powers of ten are multiplied by adding their exponents.
pub proof fn lemma_ten_to_sum(a: nat, b: nat)
    ensures
        ten_to(a + b) == ten_to(a) * ten_to(b),
    decreases a,
{
    if a > 0 {
        lemma_ten_to_sum((a - 1) as nat, b);
        let x = ten_to((a - 1) as nat) as int;
        let y = ten_to(b) as int;
        assert(10 * (x * y) == (10 * x) * y) by (nonlinear_arith);
        assert((a + b - 1) as nat == (a - 1) as nat + b);
    } else {
        assert(1 * ten_to(b) == ten_to(b));
    }
}

/// A number at a larger scale has as many more zeros.
pub proof fn lemma_rescale(number: Decimal, less: nat, more: nat)
    requires
        number.places() <= less <= more,
    ensures
        at_scale(number, more) == at_scale(number, less) * ten_to((more - less) as nat),
        number.places() == less ==> at_scale(number, less) == number.digits(),
        number.digits() == 0 <==> at_scale(number, less) == 0,
{
    let x = (less - number.places()) as nat;
    let y = (more - less) as nat;
    lemma_ten_to_sum(x, y);
    lemma_ten_to_positive(x);
    assert((more - number.places()) as nat == x + y);
    let d = number.digits();
    let t = ten_to(x) as int;
    let u = ten_to(y) as int;
    assert(d * (t * u) == (d * t) * u) by (nonlinear_arith);
    assert(d == 0 <==> d * t == 0) by (nonlinear_arith)
        requires
            t > 0,
    ;
    assert(t == 1 ==> d * t == d) by (nonlinear_arith);
}

/// A number of digits that fits with more zeros also fits with fewer.
pub(crate) proof fn lemma_shorter_fits(digits: int, zeros: nat)
    requires
        -MAX_MANTISSA <= digits * ten_to(zeros) <= MAX_MANTISSA,
    ensures
        -MAX_MANTISSA <= digits <= MAX_MANTISSA,
{
    lemma_ten_to_positive(zeros);
    let t = ten_to(zeros) as int;
    assert(-MAX_MANTISSA <= digits <= MAX_MANTISSA) by (nonlinear_arith)
        requires
            -MAX_MANTISSA <= digits * t <= MAX_MANTISSA,
            t > 0,
            MAX_MANTISSA > 0,
    ;
}

/// Whether two numbers, and their sum, can be written with `places` digits after the point.
pub open spec fn adds_exactly(a: Decimal, b: Decimal, places: nat) -> bool {
    &&& a.places() <= places
    &&& b.places() <= places
    &&& is_decimal(at_scale(a, places), places as int)
    &&& is_decimal(at_scale(b, places), places as int)
    &&& is_decimal(at_scale(a, places) + at_scale(b, places), places as int)
}

/// The sum of two numbers, which is exact where they and it can be written at one scale. It has
/// that scale where both numbers have it, zero aside.
pub(crate) fn sum_of(a: Decimal, b: Decimal) -> (sum: Option<Decimal>)
    ensures
        sum == decimal_sum(a, b),
        size(units(a) + units(b)) <= MAX_MANTISSA * UNITS ==> sum is Some,
        sum matches Some(n) ==> is_close(units(n), units(a) + units(b), 0) && n.places()
            <= MAX_SCALE,
        forall|places: nat| #[trigger]
            adds_exactly(a, b, places) ==> {
                &&& sum matches Some(n)
                &&& n.places() <= places
                &&& at_scale(n, places) == at_scale(a, places) + at_scale(b, places)
                &&& (a.digits() != 0 ==> a.places() == places) && (b.digits() != 0 ==> b.places()
                    == places) && n.digits() != 0 ==> n.places() == places
            },
{
    let sum = checked_add(a, b);
    assert forall|places: nat| #[trigger] adds_exactly(a, b, places) implies {
        &&& sum matches Some(n)
        &&& n.places() <= places
        &&& at_scale(n, places) == at_scale(a, places) + at_scale(b, places)
        &&& (a.digits() != 0 ==> a.places() == places) && (b.digits() != 0 ==> b.places()
            == places) && n.digits() != 0 ==> n.places() == places
    } by {
        let common = common_scale(a, b);
        let zeros = (places - common) as nat;
        let t = ten_to(zeros) as int;
        let x = at_scale(a, common);
        let y = at_scale(b, common);
        lemma_rescale(a, common, places);
        lemma_rescale(b, common, places);
        lemma_rescale(a, a.places(), places);
        lemma_rescale(b, b.places(), places);
        assert((x + y) * t == x * t + y * t) by (nonlinear_arith);
        lemma_shorter_fits(x, zeros);
        lemma_shorter_fits(y, zeros);
        lemma_shorter_fits(x + y, zeros);
    }
    proof {
        if let Some(n) = &sum {
            use_type_invariant(n);
        }
    }
    sum
}

/// Whether two numbers can be written at these scales, and their product at the sum of them.
pub open spec fn multiplies_exactly(
    a: Decimal,
    b: Decimal,
    a_places: nat,
    b_places: nat,
) -> bool {
    &&& a.places() <= a_places
    &&& b.places() <= b_places
    &&& is_decimal(at_scale(a, a_places) * at_scale(b, b_places), (a_places + b_places) as int)
}

/// The product of two numbers, which is exact where it can be written at the sum of their
/// scales. It has that scale, zero aside.
pub(crate) fn product_of(a: Decimal, b: Decimal) -> (product: Option<Decimal>)
    ensures
        product == decimal_product(a, b),
        size(units(a) * units(b)) <= MAX_MANTISSA * (UNITS * UNITS) ==> product is Some,
        product matches Some(n) ==> is_close(
            units(n) * UNITS,
            units(a) * units(b),
            UNITS as int,
        ),
        forall|a_places: nat, b_places: nat| #[trigger]
            multiplies_exactly(a, b, a_places, b_places) ==> {
                &&& product matches Some(n)
                &&& n.places() <= a_places + b_places
                &&& at_scale(n, a_places + b_places) == at_scale(a, a_places) * at_scale(
                    b,
                    b_places,
                )
                &&& n.digits() != 0 ==> n.places() == a.places() + b.places()
            },
{
    let product = checked_mul(a, b);
    assert forall|a_places: nat, b_places: nat| #[trigger]
        multiplies_exactly(a, b, a_places, b_places) implies {
        &&& product matches Some(n)
        &&& n.places() <= a_places + b_places
        &&& at_scale(n, a_places + b_places) == at_scale(a, a_places) * at_scale(b, b_places)
        &&& n.digits() != 0 ==> n.places() == a.places() + b.places()
    } by {
        let x = (a_places - a.places()) as nat;
        let y = (b_places - b.places()) as nat;
        let zeros = x + y;
        lemma_ten_to_sum(x, y);
        let p = a.digits();
        let q = b.digits();
        let t = ten_to(x) as int;
        let u = ten_to(y) as int;
        assert((p * t) * (q * u) == (p * q) * (t * u)) by (nonlinear_arith);
        lemma_shorter_fits(p * q, zeros);
        assert((p == 0 || q == 0) ==> p * q == 0) by (nonlinear_arith);
        assert((a_places + b_places - (a.places() + b.places())) as nat == zeros);
        assert(0 * (t * u) == 0);
    }
    product
}

/// Equal ratios have the same numbers below and above them.
pub proof fn lemma_equal_ratios(
    digits: int,
    places: nat,
    numerator: int,
    denominator: int,
    other_numerator: int,
    other_denominator: int,
)
    requires
        denominator != 0,
        other_denominator != 0,
        numerator * other_denominator == other_numerator * denominator,
    ensures
        at_most_ratio(digits, places, numerator, denominator) == at_most_ratio(
            digits,
            places,
            other_numerator,
            other_denominator,
        ),
        at_least_ratio(digits, places, numerator, denominator) == at_least_ratio(
            digits,
            places,
            other_numerator,
            other_denominator,
        ),
{
    let t = ten_to(places) as int;
    let x = digits * denominator - numerator * t;
    let y = digits * other_denominator - other_numerator * t;
    assert(x * other_denominator == y * denominator) by (nonlinear_arith)
        requires
            x == digits * denominator - numerator * t,
            y == digits * other_denominator - other_numerator * t,
            numerator * other_denominator == other_numerator * denominator,
    ;
    assert((-x) * other_denominator == -(x * other_denominator) && (-y) * denominator == -(y
        * denominator)) by (nonlinear_arith);
    lemma_same_side(x, denominator, y, other_denominator);
    lemma_same_side(-x, denominator, -y, other_denominator);
}

/// Numbers in the same proportion as two others have the same signs as these.
proof fn lemma_same_side(x: int, a: int, y: int, b: int)
    requires
        a != 0,
        b != 0,
        x * b == y * a,
    ensures
        (if a > 0 {
            x <= 0
        } else {
            x >= 0
        }) == (if b > 0 {
            y <= 0
        } else {
            y >= 0
        }),
{
    assert((a > 0 && b > 0) ==> (x <= 0 <==> y <= 0)) by (nonlinear_arith)
        requires
            x * b == y * a,
    ;
    assert((a > 0 && b < 0) ==> (x <= 0 <==> y >= 0)) by (nonlinear_arith)
        requires
            x * b == y * a,
    ;
    assert((a < 0 && b > 0) ==> (x >= 0 <==> y <= 0)) by (nonlinear_arith)
        requires
            x * b == y * a,
    ;
    assert((a < 0 && b < 0) ==> (x >= 0 <==> y >= 0)) by (nonlinear_arith)
        requires
            x * b == y * a,
    ;
}

/// Equal ratios are rounded in the same way, and fit the range of decimal numbers both or neither.
pub proof fn lemma_rounded_equal_ratios(
    number: Decimal,
    numerator: int,
    denominator: int,
    other_numerator: int,
    other_denominator: int,
)
    requires
        denominator != 0,
        other_denominator != 0,
        numerator * other_denominator == other_numerator * denominator,
    ensures
        is_rounded_ratio(number, numerator, denominator) == is_rounded_ratio(
            number,
            other_numerator,
            other_denominator,
        ),
        ratio_fits(numerator, denominator) == ratio_fits(other_numerator, other_denominator),
{
    if is_rounded_ratio(number, numerator, denominator) {
        lemma_rounded_carries_over(
            number,
            numerator,
            denominator,
            other_numerator,
            other_denominator,
        );
    }
    if is_rounded_ratio(number, other_numerator, other_denominator) {
        lemma_rounded_carries_over(
            number,
            other_numerator,
            other_denominator,
            numerator,
            denominator,
        );
    }
    let m = MAX_MANTISSA as int;
    lemma_ratio_limits(numerator, denominator);
    lemma_ratio_limits(other_numerator, other_denominator);
    lemma_equal_ratios(m, 0, numerator, denominator, other_numerator, other_denominator);
    lemma_equal_ratios(-m, 0, numerator, denominator, other_numerator, other_denominator);
}

/// A ratio fits the range of decimal numbers if it lies between the largest and the smallest.
proof fn lemma_ratio_limits(numerator: int, denominator: int)
    requires
        denominator != 0,
    ensures
        ratio_fits(numerator, denominator) == (at_least_ratio(
            MAX_MANTISSA as int,
            0,
            numerator,
            denominator,
        ) && at_most_ratio(-MAX_MANTISSA as int, 0, numerator, denominator)),
{
    let m = MAX_MANTISSA as int;
    assert((-m) * denominator == -(m * denominator) && m * (-denominator) == -(m * denominator))
        by (nonlinear_arith);
    assert(ten_to(0) == 1);
}

/// A number that rounds a ratio also rounds an equal one.
proof fn lemma_rounded_carries_over(
    number: Decimal,
    numerator: int,
    denominator: int,
    other_numerator: int,
    other_denominator: int,
)
    requires
        denominator != 0,
        other_denominator != 0,
        numerator * other_denominator == other_numerator * denominator,
        is_rounded_ratio(number, numerator, denominator),
    ensures
        is_rounded_ratio(number, other_numerator, other_denominator),
{
    assert forall|digits: int, places: nat|
        #![trigger at_most_ratio(digits, places, other_numerator, other_denominator)]
        #![trigger at_least_ratio(digits, places, other_numerator, other_denominator)]
        is_decimal(digits, places as int) implies {
        &&& at_most_ratio(digits, places, other_numerator, other_denominator) ==> digits * ten_to(
            number.places(),
        ) <= number.digits() * ten_to(places)
        &&& at_least_ratio(digits, places, other_numerator, other_denominator) ==> digits * ten_to(
            number.places(),
        ) >= number.digits() * ten_to(places)
    } by {
        lemma_equal_ratios(
            digits,
            places,
            numerator,
            denominator,
            other_numerator,
            other_denominator,
        );
    }
}

/// Rounding down never exceeds the number, and takes less than one off it. Rounding up never
/// falls below it, and adds less than one. A whole number is left as it is.
pub proof fn law_rounding_bounds(number: Decimal)
    ensures
        floor_digits(number) * ten_to(number.places()) <= number.digits(),
        number.digits() < (floor_digits(number) + 1) * ten_to(number.places()),
        number.digits() <= ceil_digits(number) * ten_to(number.places()),
        (ceil_digits(number) - 1) * ten_to(number.places()) < number.digits(),
        number.places() == 0 ==> floor_digits(number) == number.digits() && ceil_digits(number)
            == number.digits(),
{
    let unit = ten_to(number.places()) as int;
    lemma_ten_to_positive(number.places());
    let m = number.digits();
    let up = (-m) / unit;
    assert(m / unit * unit <= m < (m / unit + 1) * unit) by (nonlinear_arith)
        requires
            unit > 0,
    ;
    assert(up * unit <= -m < (up + 1) * unit) by (nonlinear_arith)
        requires
            unit > 0,
            up == (-m) / unit,
    ;
    assert((-up) * unit == -(up * unit)) by (nonlinear_arith);
    assert((-up - 1) * unit == -((up + 1) * unit)) by (nonlinear_arith);
    if number.places() == 0 {
        assert(unit == 1);
        assert(m / 1 == m && (-m) / 1 == -m);
    }
}

} // verus!
