//! What holds of mixed prices.

use vstd::prelude::*;
use vstd::seq_lib::{commutative_foldl, group_to_multiset_ensures, lemma_fold_left_permutation};

use crate::decimal::{
    at_least_ratio, at_most_ratio, at_scale, is_decimal, lemma_equal_ratios,
    lemma_rounded_equal_ratios, lemma_ten_to_positive, lemma_ten_to_sum, not_above, ratio_fits,
    same_value, size, ten_to, units, Decimal, MAX_MANTISSA, PRECISION, UNITS,
};
use crate::price_mixer::{
    answered_price, answered_weight, answers_with, fits, is_mix, is_weighted_mean,
    lemma_answered_weight_grows, mixed_price, none_answered, price_size, sums_are_exact,
    weight_size, weighted_totals, weights_add_exactly, weights_of, well_in_range,
    ExchangePriceCacheError, PriceAnswer, PriceMixer,
};

verus! {

/// Mixing fails if and only if no exchange answered with a price, and then with the reason of
/// the last one.
pub proof fn law_fails_only_without_answer(
    answers: Seq<PriceAnswer>,
    weights: Seq<Decimal>,
    reason: ExchangePriceCacheError,
)
    ensures
        mixed_price(answers, weights) == Some(PriceAnswer::Err(reason)) <==> {
            &&& answers.len() > 0
            &&& none_answered(answers)
            &&& answers.last() == PriceAnswer::Err(reason)
        },
{
    if answers.len() > 0 && none_answered(answers) {
        assert(answers[answers.len() - 1] is Err);
    }
}

/// The mix is the mean of the answered prices by weight, for all prices and weights, up to the
/// rounding of the last digit in each step. In units of ten to the power of -28: times the sum of
/// the weights, the mix differs from the sum of the prices times their weights by no more than the
/// sizes of the weights, two for each exchange, and six parts in `PRECISION` for each exchange.
pub proof fn law_mix_is_the_weighted_mean(
    mixer: PriceMixer,
    answers: Vec<PriceAnswer>,
    mixed: Option<PriceAnswer>,
)
    requires
        answers@.len() == mixer@.len(),
        call_ensures(PriceMixer::mix, (&mixer, &answers), mixed),
        mixed matches Some(Ok(_)),
    ensures
        ({
            let n = answers@.len();
            let units = |d: Decimal| d.digits() * ten_to((28 - d.places()) as nat);
            let size = |x: int| if x < 0 { -x } else { x };
            let sum = |terms: Seq<int>| terms.fold_left(0, |before: int, term: int| before + term);
            let answered = |i: int| answers@[i] is Ok;
            let weight = |i: int| if answered(i) { units(mixer@[i].weight) } else { 0 };
            let price = |i: int| if answered(i) { units(answers@[i]->Ok_0) * weight(i) } else { 0 };
            let mean = units(mixed->0->Ok_0);
            let weights = sum(Seq::new(n, |i: int| weight(i)));
            let prices = sum(Seq::new(n, |i: int| price(i)));
            let weight_sizes = sum(Seq::new(n, |i: int| size(weight(i))));
            let price_sizes = sum(Seq::new(n, |i: int| size(price(i))));
            PRECISION * size(mean * weights - prices) <= PRECISION * (weight_sizes + 2 * n * UNITS)
                + 6 * n * (price_sizes + size(mean) * weight_sizes)
        }),
{
    let n = answers@.len();
    let own = weights_of(mixer@);
    let units_of = |d: Decimal| d.digits() * ten_to((28 - d.places()) as nat);
    let size_of = |x: int| if x < 0 { -x } else { x };
    let plus = |before: int, term: int| before + term;
    let answered = |i: int| answers@[i] is Ok;
    let weight = |i: int| if answered(i) { units_of(mixer@[i].weight) } else { 0 };
    let price = |i: int| if answered(i) { units_of(answers@[i]->Ok_0) * weight(i) } else { 0 };
    let weights = Seq::new(n, |i: int| weight(i));
    let prices = Seq::new(n, |i: int| price(i));
    let weight_sizes = Seq::new(n, |i: int| size_of(weight(i)));
    let price_sizes = Seq::new(n, |i: int| size_of(price(i)));
    lemma_weights_by_fold(answers@, own, weights, n);
    lemma_prices_by_fold(answers@, own, prices, n);
    lemma_weight_sizes_by_fold(answers@, own, weight_sizes, n);
    lemma_price_sizes_by_fold(answers@, own, price_sizes, n);
    assert(weights.take(n as int) =~= weights);
    assert(prices.take(n as int) =~= prices);
    assert(weight_sizes.take(n as int) =~= weight_sizes);
    assert(price_sizes.take(n as int) =~= price_sizes);
}

/// The sum of the first `n` terms is their fold.
proof fn lemma_weights_by_fold<P>(
    answers: Seq<Result<P, ExchangePriceCacheError>>,
    weights: Seq<Decimal>,
    terms: Seq<int>,
    n: nat,
)
    requires
        n <= terms.len() == answers.len(),
        forall|i: int|
            0 <= i < terms.len() ==> #[trigger] terms[i] == if answers[i] is Ok {
                units(weights[i])
            } else {
                0
            },
    ensures
        terms.take(n as int).fold_left(0, |before: int, term: int| before + term)
            == answered_weight(answers, weights, 28, n),
    decreases n,
{
    if n > 0 {
        lemma_weights_by_fold(answers, weights, terms, (n - 1) as nat);
        assert(terms.take(n as int).drop_last() =~= terms.take(n - 1));
        assert(terms.take(n as int).last() == terms[n - 1]);
    }
}

/// The sum of the first `n` terms is their fold.
proof fn lemma_prices_by_fold(
    answers: Seq<PriceAnswer>,
    weights: Seq<Decimal>,
    terms: Seq<int>,
    n: nat,
)
    requires
        n <= terms.len() == answers.len(),
        forall|i: int|
            0 <= i < terms.len() ==> #[trigger] terms[i] == if answers[i] is Ok {
                units(answers[i]->Ok_0) * units(weights[i])
            } else {
                0
            },
    ensures
        terms.take(n as int).fold_left(0, |before: int, term: int| before + term)
            == answered_price(answers, weights, 28, 28, n),
    decreases n,
{
    if n > 0 {
        lemma_prices_by_fold(answers, weights, terms, (n - 1) as nat);
        assert(terms.take(n as int).drop_last() =~= terms.take(n - 1));
        assert(terms.take(n as int).last() == terms[n - 1]);
    }
}

/// The sum of the first `n` terms is their fold.
proof fn lemma_weight_sizes_by_fold<P>(
    answers: Seq<Result<P, ExchangePriceCacheError>>,
    weights: Seq<Decimal>,
    terms: Seq<int>,
    n: nat,
)
    requires
        n <= terms.len() == answers.len(),
        forall|i: int|
            0 <= i < terms.len() ==> #[trigger] terms[i] == if answers[i] is Ok {
                size(units(weights[i]))
            } else {
                0
            },
    ensures
        terms.take(n as int).fold_left(0, |before: int, term: int| before + term)
            == weight_size(answers, weights, n),
    decreases n,
{
    if n > 0 {
        lemma_weight_sizes_by_fold(answers, weights, terms, (n - 1) as nat);
        assert(terms.take(n as int).drop_last() =~= terms.take(n - 1));
        assert(terms.take(n as int).last() == terms[n - 1]);
    }
}

/// The sum of the first `n` terms is their fold.
proof fn lemma_price_sizes_by_fold(
    answers: Seq<PriceAnswer>,
    weights: Seq<Decimal>,
    terms: Seq<int>,
    n: nat,
)
    requires
        n <= terms.len() == answers.len(),
        forall|i: int|
            0 <= i < terms.len() ==> #[trigger] terms[i] == if answers[i] is Ok {
                size(units(answers[i]->Ok_0) * units(weights[i]))
            } else {
                0
            },
    ensures
        terms.take(n as int).fold_left(0, |before: int, term: int| before + term)
            == price_size(answers, weights, n),
    decreases n,
{
    if n > 0 {
        lemma_price_sizes_by_fold(answers, weights, terms, (n - 1) as nat);
        assert(terms.take(n as int).drop_last() =~= terms.take(n - 1));
        assert(terms.take(n as int).last() == terms[n - 1]);
    }
}

/// There is a mix, whatever has to be rounded on the way, where no weight is negative, not all are
/// zero, and four times the prices, the sum of the weights and that of the prices times their
/// weights lie within the range of decimal numbers.
pub proof fn law_mix_succeeds_in_range(
    mixer: PriceMixer,
    answers: Vec<PriceAnswer>,
    mixed: Option<PriceAnswer>,
)
    requires
        answers@.len() == mixer@.len(),
        call_ensures(PriceMixer::mix, (&mixer, &answers), mixed),
        ({
            let n = answers@.len();
            let units = |d: Decimal| d.digits() * ten_to((28 - d.places()) as nat);
            let size = |x: int| if x < 0 { -x } else { x };
            let sum = |terms: Seq<int>| terms.fold_left(0, |before: int, term: int| before + term);
            let weight = |i: int| if answers@[i] is Ok { units(mixer@[i].weight) } else { 0 };
            let price = |i: int| if answers@[i] is Ok { units(answers@[i]->Ok_0) } else { 0 };
            let weights = sum(Seq::new(n, |i: int| size(weight(i))));
            let prices = sum(Seq::new(n, |i: int| size(price(i) * weight(i))));
            &&& forall|i: int|
                0 <= i < n && (#[trigger] answers@[i]) is Ok ==> mixer@[i].weight.digits() >= 0 && 4
                    * size(units(answers@[i]->Ok_0)) <= MAX_MANTISSA * UNITS
            &&& 0 < 4 * weights <= MAX_MANTISSA * UNITS
            &&& 4 * prices <= MAX_MANTISSA * (UNITS * UNITS)
        }),
    ensures
        mixed matches Some(Ok(_)),
{
    let n = answers@.len();
    let own = weights_of(mixer@);
    let units_of = |d: Decimal| d.digits() * ten_to((28 - d.places()) as nat);
    let size_of = |x: int| if x < 0 { -x } else { x };
    let weight = |i: int| if answers@[i] is Ok { units_of(mixer@[i].weight) } else { 0 };
    let price = |i: int| if answers@[i] is Ok { units_of(answers@[i]->Ok_0) } else { 0 };
    let weight_sizes = Seq::new(n, |i: int| size_of(weight(i)));
    let price_sizes = Seq::new(n, |i: int| size_of(price(i) * weight(i)));
    assert forall|i: int| 0 <= i < n implies #[trigger] price_sizes[i] == if answers@[i] is Ok {
        size(units(answers@[i]->Ok_0) * units(own[i]))
    } else {
        0
    } by {
        assert(0 * weight(i) == 0);
    }
    lemma_weight_sizes_by_fold(answers@, own, weight_sizes, n);
    lemma_price_sizes_by_fold(answers@, own, price_sizes, n);
    assert(weight_sizes.take(n as int) =~= weight_sizes);
    assert(price_sizes.take(n as int) =~= price_sizes);
    assert(well_in_range(answers@, own));
}

/// Weight is lacking only where an exchange has a market, and only where the weights of those that
/// have one add up to zero, up to the rounding of the last digit in each step.
pub proof fn law_weight_is_lacking_only_near_zero<P>(
    mixer: PriceMixer,
    latest: Vec<Result<P, ExchangePriceCacheError>>,
    lacks: bool,
)
    requires
        latest@.len() == mixer@.len(),
        call_ensures(PriceMixer::lacks_weight::<P>, (&mixer, &latest), lacks),
        lacks,
    ensures
        exists|i: int| 0 <= i < latest@.len() && (#[trigger] latest@[i]) is Ok,
        ({
            let n = latest@.len();
            let units = |d: Decimal| d.digits() * ten_to((28 - d.places()) as nat);
            let size = |x: int| if x < 0 { -x } else { x };
            let sum = |terms: Seq<int>| terms.fold_left(0, |before: int, term: int| before + term);
            let weight = |i: int| if latest@[i] is Ok { units(mixer@[i].weight) } else { 0 };
            PRECISION * size(sum(Seq::new(n, |i: int| weight(i)))) <= 2 * (n * sum(
                Seq::new(n, |i: int| size(weight(i))),
            ))
        }),
{
    let n = latest@.len();
    let own = weights_of(mixer@);
    let units_of = |d: Decimal| d.digits() * ten_to((28 - d.places()) as nat);
    let size_of = |x: int| if x < 0 { -x } else { x };
    let weight = |i: int| if latest@[i] is Ok { units_of(mixer@[i].weight) } else { 0 };
    let weights = Seq::new(n, |i: int| weight(i));
    let weight_sizes = Seq::new(n, |i: int| size_of(weight(i)));
    lemma_weights_by_fold(latest@, own, weights, n);
    lemma_weight_sizes_by_fold(latest@, own, weight_sizes, n);
    assert(weights.take(n as int) =~= weights);
    assert(weight_sizes.take(n as int) =~= weight_sizes);
    let i = choose|i: int| 0 <= i < n && !((#[trigger] latest@[i]) is Err);
    assert(latest@[i] is Ok);
}

/// Weight is not lacking where no weight is negative and an exchange with a market has some. It is
/// lacking where exchanges have markets but none of them has weight.
pub proof fn law_weight_is_lacking_without_any<P>(
    mixer: PriceMixer,
    latest: Vec<Result<P, ExchangePriceCacheError>>,
    lacks: bool,
    some: int,
)
    requires
        latest@.len() == mixer@.len(),
        latest@.len() <= usize::MAX,
        call_ensures(PriceMixer::lacks_weight::<P>, (&mixer, &latest), lacks),
        forall|i: int|
            0 <= i < latest@.len() && (#[trigger] latest@[i]) is Ok ==> is_decimal(
                mixer@[i].weight.digits(),
                mixer@[i].weight.places() as int,
            ),
        0 <= some < latest@.len(),
        latest@[some] is Ok,
    ensures
        (forall|i: int|
            0 <= i < latest@.len() && (#[trigger] latest@[i]) is Ok ==> mixer@[i].weight.digits()
                >= 0) && mixer@[some].weight.digits() > 0 ==> !lacks,
        (forall|i: int|
            0 <= i < latest@.len() && (#[trigger] latest@[i]) is Ok ==> mixer@[i].weight.digits()
                == 0) ==> lacks,
{
    let n = latest@.len();
    let own = weights_of(mixer@);
    if forall|i: int| 0 <= i < n && (#[trigger] latest@[i]) is Ok ==> own[i].digits() >= 0 {
        lemma_sum_of_sizes(latest@, own, some, n);
        let w = weight_size(latest@, own, n);
        let zeros = ten_to((28 - own[some].places()) as nat) as int;
        let d = own[some].digits();
        lemma_ten_to_positive((28 - own[some].places()) as nat);
        if d > 0 {
            assert(d * zeros > 0) by (nonlinear_arith)
                requires
                    d > 0,
                    zeros > 0,
            ;
            assert(1_000_000_000_000_000_000_000_000_000 * w > 2 * (n * w)) by (nonlinear_arith)
                requires
                    w > 0,
                    n <= 0xffff_ffff_ffff_ffff,
            ;
        }
    }
    if forall|i: int| 0 <= i < n && (#[trigger] latest@[i]) is Ok ==> own[i].digits() == 0 {
        assert forall|m: nat| m <= n implies fits(#[trigger] answered_weight(latest@, own, 28, m))
            && answered_weight(latest@, own, 28, m) == 0 by {
            lemma_no_weight(latest@, own, m);
        }
        assert forall|i: int| 0 <= i < n && (#[trigger] latest@[i]) is Ok implies own[i].places()
            <= 28 && fits(at_scale(own[i], 28)) by {
            assert(0 * ten_to((28 - own[i].places()) as nat) == 0);
        }
        assert(weights_add_exactly(latest@, own, 28));
        assert(!none_answered(latest@)) by {
            assert(!(latest@[some] is Err));
        }
    }
}

/// With weights that are not negative, the sum of their sizes is their sum, and none is above it.
proof fn lemma_sum_of_sizes<P>(
    answers: Seq<Result<P, ExchangePriceCacheError>>,
    weights: Seq<Decimal>,
    some: int,
    n: nat,
)
    requires
        0 <= some < answers.len(),
        answers[some] is Ok,
        n <= answers.len(),
        forall|i: int|
            0 <= i < answers.len() && (#[trigger] answers[i]) is Ok ==> weights[i].digits() >= 0,
    ensures
        0 <= weight_size(answers, weights, n) == answered_weight(answers, weights, 28, n),
        some < n ==> units(weights[some]) <= weight_size(answers, weights, n),
    decreases n,
{
    if n > 0 {
        lemma_sum_of_sizes(answers, weights, some, (n - 1) as nat);
        if answers[n - 1] is Ok {
            let zeros = ten_to((28 - weights[n - 1].places()) as nat) as int;
            let d = weights[n - 1].digits();
            lemma_ten_to_positive((28 - weights[n - 1].places()) as nat);
            assert(d * zeros >= 0) by (nonlinear_arith)
                requires
                    d >= 0,
                    zeros > 0,
            ;
        }
    }
}

/// Weights that are all zero add up to zero.
proof fn lemma_no_weight<P>(
    answers: Seq<Result<P, ExchangePriceCacheError>>,
    weights: Seq<Decimal>,
    n: nat,
)
    requires
        n <= answers.len(),
        forall|i: int|
            0 <= i < answers.len() && (#[trigger] answers[i]) is Ok ==> weights[i].digits() == 0,
    ensures
        answered_weight(answers, weights, 28, n) == 0,
    decreases n,
{
    if n > 0 {
        lemma_no_weight(answers, weights, (n - 1) as nat);
        if answers[n - 1] is Ok {
            assert(0 * ten_to((28 - weights[n - 1].places()) as nat) == 0);
        }
    }
}

/// With weights that are not negative, the mix lies between any two numbers that the answered
/// prices of weight lie between, up to the rounding of the last digit in each step: one unit of ten
/// to the power of -28, two for each exchange over the weight of any one of them, and six parts in
/// `PRECISION` for each exchange. This holds of all prices and weights.
pub proof fn law_mix_lies_within_the_prices(
    mixer: PriceMixer,
    answers: Vec<PriceAnswer>,
    mixed: Option<PriceAnswer>,
    low: int,
    high: int,
    limit: int,
    some: int,
)
    requires
        answers@.len() == mixer@.len(),
        call_ensures(PriceMixer::mix, (&mixer, &answers), mixed),
        mixed matches Some(Ok(_)),
        -limit <= low <= limit,
        -limit <= high <= limit,
        forall|i: int|
            0 <= i < answers@.len() && (#[trigger] answers@[i]) is Ok ==> {
                &&& is_decimal(mixer@[i].weight.digits(), mixer@[i].weight.places() as int)
                &&& mixer@[i].weight.digits() >= 0
                &&& mixer@[i].weight.digits() != 0 ==> {
                    let price = answers@[i]->Ok_0;
                    low <= price.digits() * ten_to((28 - price.places()) as nat) <= high
                }
            },
        0 <= some < answers@.len(),
        answers@[some] is Ok,
    ensures
        ({
            let n = answers@.len();
            let units = |d: Decimal| d.digits() * ten_to((28 - d.places()) as nat);
            let mean = units(mixed->0->Ok_0);
            let weight = units(mixer@[some].weight);
            let slack = PRECISION + 6 * n * (limit + if mean < 0 { -mean } else { mean });
            &&& weight * (PRECISION * (low - mean) - slack) <= 2 * n * PRECISION * UNITS
            &&& weight * (PRECISION * (mean - high) - slack) <= 2 * n * PRECISION * UNITS
        }),
{
    let n = answers@.len();
    let own = weights_of(mixer@);
    let mean = units(mixed->0->Ok_0);
    let w = answered_weight(answers@, own, 28, n);
    let p = answered_price(answers@, own, 28, 28, n);
    let one = units(own[some]);
    lemma_bounded_sums(answers@, own, low, high, limit, n);
    lemma_one_weight(answers@, own, some, n);
    let m = size(mean);
    lemma_within(n as int, mean, w, p, price_size(answers@, own, n), low, limit, one);
    assert((-mean) * w == -(mean * w) && (-high) * w == -(high * w)) by (nonlinear_arith);
    lemma_within(n as int, -mean, w, -p, price_size(answers@, own, n), -high, limit, one);
}

/// A mean near a sum that is bounded from below is bounded from below.
proof fn lemma_within(
    n: int,
    mean: int,
    weight: int,
    total: int,
    total_size: int,
    low: int,
    limit: int,
    one: int,
)
    requires
        0 <= n,
        0 <= limit,
        0 <= one <= weight,
        low * weight <= total,
        total_size <= limit * weight,
        PRECISION * size(mean * weight - total) <= PRECISION * (weight + 2 * n * UNITS) + 6 * n * (
        total_size + size(mean) * weight),
    ensures
        one * (PRECISION * (low - mean) - (PRECISION + 6 * n * (limit + size(mean)))) <= 2 * n
            * PRECISION * UNITS,
{
    let k: int = 1_000_000_000_000_000_000_000_000_000;
    let u: int = 10_000_000_000_000_000_000_000_000_000;
    let m = size(mean);
    let gap = k * (low - mean) - (k + 6 * n * (limit + m));
    assert(k * (low * weight - mean * weight) <= k * (weight + 2 * n * u) + 6 * n * (limit * weight
        + m * weight)) by (nonlinear_arith)
        requires
            0 <= n,
            low * weight <= total,
            total_size <= limit * weight,
            k * size(mean * weight - total) <= k * (weight + 2 * n * u) + 6 * n * (total_size + m
                * weight),
            total - mean * weight <= size(mean * weight - total),
            k > 0,
    ;
    let x = k * (low - mean);
    let y = 6 * n * (limit + m);
    assert((x - (k + y)) * weight == x * weight - k * weight - y * weight) by (nonlinear_arith);
    assert(x * weight == k * (low * weight - mean * weight)) by (nonlinear_arith)
        requires
            x == k * (low - mean),
    ;
    assert(y * weight == 6 * n * (limit * weight + m * weight)) by (nonlinear_arith)
        requires
            y == 6 * n * (limit + m),
    ;
    assert(k * (weight + 2 * n * u) == k * weight + 2 * n * k * u) by (nonlinear_arith);
    assert(0 <= 2 * n * k * u) by (nonlinear_arith)
        requires
            0 <= n,
            k > 0,
            u > 0,
    ;
    assert(one * gap <= 2 * n * k * u) by (nonlinear_arith)
        requires
            gap * weight <= 2 * n * k * u,
            0 <= 2 * n * k * u,
            0 <= one <= weight,
    ;
}

/// With weights that are not negative, the sums lie between the bounds of the prices times the
/// weights.
proof fn lemma_bounded_sums(
    answers: Seq<PriceAnswer>,
    weights: Seq<Decimal>,
    low: int,
    high: int,
    limit: int,
    n: nat,
)
    requires
        n <= answers.len(),
        -limit <= low <= limit,
        -limit <= high <= limit,
        forall|i: int|
            0 <= i < answers.len() && (#[trigger] answers[i]) is Ok ==> {
                &&& weights[i].digits() >= 0
                &&& weights[i].digits() != 0 ==> low <= units(answers[i]->Ok_0) <= high
            },
    ensures
        0 <= answered_weight(answers, weights, 28, n),
        weight_size(answers, weights, n) == answered_weight(answers, weights, 28, n),
        low * answered_weight(answers, weights, 28, n) <= answered_price(
            answers,
            weights,
            28,
            28,
            n,
        ) <= high * answered_weight(answers, weights, 28, n),
        price_size(answers, weights, n) <= limit * answered_weight(answers, weights, 28, n),
    decreases n,
{
    if n > 0 {
        let m = (n - 1) as nat;
        lemma_bounded_sums(answers, weights, low, high, limit, m);
        let before = answered_weight(answers, weights, 28, m);
        if answers[n - 1] is Ok {
            let w = units(weights[n - 1]);
            let p = units(answers[n - 1]->Ok_0);
            let t = ten_to((28 - weights[n - 1].places()) as nat) as int;
            let d = weights[n - 1].digits();
            lemma_ten_to_positive((28 - weights[n - 1].places()) as nat);
            assert(w >= 0 && (d == 0 ==> w == 0)) by (nonlinear_arith)
                requires
                    d >= 0,
                    t > 0,
                    w == d * t,
            ;
            assert(low * w <= p * w <= high * w && size(p * w) <= limit * w) by (nonlinear_arith)
                requires
                    w >= 0,
                    w == 0 || low <= p <= high,
                    -limit <= low,
                    high <= limit,
            ;
            assert(low * (before + w) == low * before + low * w) by (nonlinear_arith);
            assert(high * (before + w) == high * before + high * w) by (nonlinear_arith);
            assert(limit * (before + w) == limit * before + limit * w) by (nonlinear_arith);
        }
    } else {
        assert(low * 0 == 0 && high * 0 == 0 && limit * 0 == 0);
    }
}

/// With weights that are not negative, none is above their sum.
proof fn lemma_one_weight(answers: Seq<PriceAnswer>, weights: Seq<Decimal>, some: int, n: nat)
    requires
        0 <= some < n <= answers.len(),
        answers[some] is Ok,
        forall|i: int|
            0 <= i < answers.len() && (#[trigger] answers[i]) is Ok ==> weights[i].digits() >= 0,
    ensures
        0 <= units(weights[some]) <= answered_weight(answers, weights, 28, n),
{
    let t = ten_to((28 - weights[some].places()) as nat) as int;
    let d = weights[some].digits();
    lemma_ten_to_positive((28 - weights[some].places()) as nat);
    assert(d * t >= 0) by (nonlinear_arith)
        requires
            d >= 0,
            t > 0,
    ;
    lemma_answered_weight_grows(answers, weights, 28, 0, some as nat);
    lemma_answered_weight_grows(answers, weights, 28, (some + 1) as nat, n);
}

/// The mix of two exchanges that both answered is the mean of their two prices by weight, up to
/// the rounding of the last digit in each step.
pub proof fn law_mix_of_two(mixer: PriceMixer, answers: Vec<PriceAnswer>, mixed: Option<PriceAnswer>)
    requires
        answers@.len() == 2,
        mixer@.len() == 2,
        answers@[0] is Ok,
        answers@[1] is Ok,
        call_ensures(PriceMixer::mix, (&mixer, &answers), mixed),
        mixed matches Some(Ok(_)),
    ensures
        ({
            let units = |d: Decimal| d.digits() * ten_to((28 - d.places()) as nat);
            let size = |x: int| if x < 0 { -x } else { x };
            let (p, q) = (units(answers@[0]->Ok_0), units(answers@[1]->Ok_0));
            let (v, w) = (units(mixer@[0].weight), units(mixer@[1].weight));
            let mean = units(mixed->0->Ok_0);
            PRECISION * size(mean * (v + w) - (p * v + q * w)) <= PRECISION * (size(v) + size(w) + 4
                * UNITS) + 12 * (size(p * v) + size(q * w) + size(mean) * (size(v) + size(w)))
        }),
{
    reveal_with_fuel(answered_weight, 3);
    reveal_with_fuel(answered_price, 3);
    reveal_with_fuel(weight_size, 3);
    reveal_with_fuel(price_size, 3);
}

/// Mixing fails if and only if no exchange answered with a price, and then with the reason of the
/// last one.
pub proof fn law_mix_fails_only_without_price(
    mixer: PriceMixer,
    answers: Vec<PriceAnswer>,
    mixed: Option<PriceAnswer>,
)
    requires
        answers@.len() == mixer@.len(),
        answers@.len() > 0,
        call_ensures(PriceMixer::mix, (&mixer, &answers), mixed),
    ensures
        (forall|i: int| 0 <= i < answers@.len() ==> (#[trigger] answers@[i]) is Err) ==> mixed
            == Some(answers@[answers@.len() - 1]),
        (exists|i: int| 0 <= i < answers@.len() && (#[trigger] answers@[i]) is Ok) ==> !(
        mixed matches Some(Err(_))),
{
    if forall|i: int| 0 <= i < answers@.len() ==> (#[trigger] answers@[i]) is Err {
        assert(answers@[answers@.len() - 1] is Err);
        assert(none_answered(answers@));
    }
}

/// The mix of what a function makes of markets is the mix of what it returned for each of them.
pub proof fn law_apply_mixes_what_was_returned<P, F: Fn(&P) -> Decimal>(
    mixer: PriceMixer,
    latest: Vec<Result<P, ExchangePriceCacheError>>,
    f: F,
    mixed: Option<PriceAnswer>,
)
    requires
        call_ensures(PriceMixer::apply::<P, F>, (&mixer, &latest, f), mixed),
    ensures
        exists|answers: Seq<PriceAnswer>|
            #![trigger is_mix(mixed, answers, weights_of(mixer@))]
            answers.len() == latest@.len() && (forall|i: int|
                0 <= i < latest@.len() ==> match (latest@[i], #[trigger] answers[i]) {
                    (Ok(market), Ok(price)) => call_ensures(f, (&market,), price),
                    (Err(reason), Err(given)) => reason == given,
                    _ => false,
                }) && is_mix(mixed, answers, weights_of(mixer@)),
{
    let answers = choose|answers: Seq<PriceAnswer>|
        answers_with(latest@, |p: P, price: Decimal| call_ensures(f, (&p,), price), answers)
            && #[trigger] is_mix(mixed, answers, weights_of(mixer@));
    assert(is_mix(mixed, answers, weights_of(mixer@)));
}

/// The items of `items` at the places that `left_out` does not hold.
pub open spec fn without<A>(items: Seq<A>, left_out: Set<int>) -> Seq<A>
    decreases items.len(),
{
    if items.len() == 0 {
        seq![]
    } else if left_out.contains(items.len() - 1) {
        without(items.drop_last(), left_out)
    } else {
        without(items.drop_last(), left_out).push(items.last())
    }
}

/// Exchanges without a price do not count: where another one has a price, the mix is the same
/// without any of them.
pub proof fn law_failures_do_not_count(
    answers: Seq<PriceAnswer>,
    weights: Seq<Decimal>,
    failed: Set<int>,
)
    requires
        answers.len() == weights.len(),
        forall|i: int|
            0 <= i < answers.len() && failed.contains(i) ==> (#[trigger] answers[i]) is Err,
        !none_answered(answers),
    ensures
        mixed_price(without(answers, failed), without(weights, failed)) == mixed_price(
            answers,
            weights,
        ),
{
    lemma_totals_without(answers, weights, failed);
}

/// The totals do not change without exchanges that have no price, and an answer with a price
/// stays.
proof fn lemma_totals_without(
    answers: Seq<PriceAnswer>,
    weights: Seq<Decimal>,
    failed: Set<int>,
)
    requires
        answers.len() == weights.len(),
        forall|i: int|
            0 <= i < answers.len() && failed.contains(i) ==> (#[trigger] answers[i]) is Err,
    ensures
        without(answers, failed).len() == without(weights, failed).len(),
        none_answered(without(answers, failed)) == none_answered(answers),
        weighted_totals(
            without(answers, failed),
            without(weights, failed),
            without(answers, failed).len(),
        ) == weighted_totals(answers, weights, answers.len()),
    decreases answers.len(),
{
    if answers.len() > 0 {
        let last = answers.len() - 1;
        let fewer = answers.drop_last();
        let fewer_weights = weights.drop_last();
        assert forall|i: int| 0 <= i < fewer.len() && failed.contains(i) implies (
        #[trigger] fewer[i]) is Err by {
            assert(answers[i] is Err);
        }
        lemma_totals_without(fewer, fewer_weights, failed);
        lemma_totals_of_prefix(answers, weights, fewer, fewer_weights, fewer.len());
        assert(none_answered(answers) <==> none_answered(fewer) && answers[last] is Err) by {
            assert(forall|i: int| 0 <= i < fewer.len() ==> fewer[i] == #[trigger] answers[i]);
            if none_answered(fewer) && answers[last] is Err {
                assert forall|i: int| 0 <= i < answers.len() implies (
                #[trigger] answers[i]) is Err by {
                    if i < last {
                        assert(fewer[i] is Err);
                    }
                }
            }
        }
        if failed.contains(last) {
            assert(answers[last] is Err);
        } else {
            let kept = without(fewer, failed);
            let kept_weights = without(fewer_weights, failed);
            let all = kept.push(answers[last]);
            let all_weights = kept_weights.push(weights[last]);
            lemma_totals_of_prefix(all, all_weights, kept, kept_weights, kept.len());
            assert(none_answered(all) <==> none_answered(kept) && answers[last] is Err) by {
                assert(forall|i: int| 0 <= i < kept.len() ==> kept[i] == #[trigger] all[i]);
                if none_answered(all) {
                    assert(all[kept.len() as int] is Err);
                    assert forall|i: int| 0 <= i < kept.len() implies (
                    #[trigger] kept[i]) is Err by {
                        assert(all[i] is Err);
                    }
                }
                if none_answered(kept) && answers[last] is Err {
                    assert forall|i: int| 0 <= i < all.len() implies (
                    #[trigger] all[i]) is Err by {
                        if i < kept.len() {
                            assert(kept[i] is Err);
                        }
                    }
                }
            }
        }
    }
}

/// The totals of the first `n` exchanges depend on these alone.
proof fn lemma_totals_of_prefix(
    answers: Seq<PriceAnswer>,
    weights: Seq<Decimal>,
    first: Seq<PriceAnswer>,
    first_weights: Seq<Decimal>,
    n: nat,
)
    requires
        n <= first.len() <= answers.len(),
        first.len() == first_weights.len(),
        answers.len() == weights.len(),
        forall|i: int| 0 <= i < first.len() ==> first[i] == #[trigger] answers[i],
        forall|i: int| 0 <= i < first.len() ==> first_weights[i] == #[trigger] weights[i],
    ensures
        weighted_totals(answers, weights, n) == weighted_totals(first, first_weights, n),
    decreases n,
{
    if n > 0 {
        lemma_totals_of_prefix(answers, weights, first, first_weights, (n - 1) as nat);
        assert(first[n - 1] == answers[n - 1] && first_weights[n - 1] == weights[n - 1]);
    }
}

/// Whether the weights of the exchanges that answered are in one proportion: `factor` times the
/// one is `other_factor` times the other.
pub open spec fn weights_in_proportion(
    answers: Seq<PriceAnswer>,
    weights: Seq<Decimal>,
    factor: int,
    places: nat,
    other_weights: Seq<Decimal>,
    other_factor: int,
    other_places: nat,
) -> bool {
    forall|i: int|
        0 <= i < answers.len() && (#[trigger] answers[i]) is Ok ==> factor * at_scale(
            weights[i],
            places,
        ) == other_factor * at_scale(other_weights[i], other_places)
}

/// Only the proportions of the weights count: where all are multiplied by one number that is not
/// zero, a mix is the mean by the one weights if and only if it is the mean by the others.
pub proof fn law_only_proportions_count(
    mixed: Option<PriceAnswer>,
    answers: Seq<PriceAnswer>,
    price_places: nat,
    one_scale: bool,
    weights: Seq<Decimal>,
    factor: int,
    places: nat,
    other_weights: Seq<Decimal>,
    other_factor: int,
    other_places: nat,
)
    requires
        factor != 0,
        other_factor != 0,
        weights_in_proportion(
            answers,
            weights,
            factor,
            places,
            other_weights,
            other_factor,
            other_places,
        ),
    ensures
        is_weighted_mean(
            mixed,
            answered_price(answers, weights, price_places, places, answers.len()),
            answered_weight(answers, weights, places, answers.len()),
            price_places,
            one_scale,
        ) == is_weighted_mean(
            mixed,
            answered_price(answers, other_weights, price_places, other_places, answers.len()),
            answered_weight(answers, other_weights, other_places, answers.len()),
            price_places,
            one_scale,
        ),
{
    let n = answers.len();
    lemma_sums_in_proportion(
        answers,
        price_places,
        weights,
        factor,
        places,
        other_weights,
        other_factor,
        other_places,
        n,
    );
    let t = answered_price(answers, weights, price_places, places, n);
    let w = answered_weight(answers, weights, places, n);
    let u = answered_price(answers, other_weights, price_places, other_places, n);
    let v = answered_weight(answers, other_weights, other_places, n);
    lemma_equal_means(mixed, t, w, factor, u, v, other_factor, price_places, one_scale);
    lemma_equal_means(mixed, u, v, other_factor, t, w, factor, price_places, one_scale);
}

/// A mean of totals is also the mean of totals in the same proportion.
proof fn lemma_equal_means(
    mixed: Option<PriceAnswer>,
    total: int,
    weight: int,
    factor: int,
    other_total: int,
    other_weight: int,
    other_factor: int,
    places: nat,
    one_scale: bool,
)
    requires
        factor != 0,
        other_factor != 0,
        factor * total == other_factor * other_total,
        factor * weight == other_factor * other_weight,
    ensures
        is_weighted_mean(mixed, total, weight, places, one_scale) ==> is_weighted_mean(
            mixed,
            other_total,
            other_weight,
            places,
            one_scale,
        ),
{
    let unit = ten_to(places) as int;
    lemma_ten_to_positive(places);
    lemma_zero_in_proportion(total, factor, other_total, other_factor);
    lemma_zero_in_proportion(weight, factor, other_weight, other_factor);
    if weight != 0 {
        assert(total * other_weight == other_total * weight) by (nonlinear_arith)
            requires
                factor != 0,
                factor * total == other_factor * other_total,
                factor * weight == other_factor * other_weight,
        ;
        assert(total * (other_weight * unit) == other_total * (weight * unit))
            by (nonlinear_arith)
            requires
                total * other_weight == other_total * weight,
        ;
        assert(weight * unit != 0 && other_weight * unit != 0) by (nonlinear_arith)
            requires
                weight != 0,
                other_weight != 0,
                unit > 0,
        ;
        lemma_rounded_equal_ratios(
            mixed->0->Ok_0,
            total,
            weight * unit,
            other_total,
            other_weight * unit,
        );
        if other_total % other_weight == 0 {
            let q = other_total / other_weight;
            assert(other_total == other_weight * q) by (nonlinear_arith)
                requires
                    other_weight != 0,
                    other_total % other_weight == 0,
                    q == other_total / other_weight,
            ;
            assert(total == weight * q) by (nonlinear_arith)
                requires
                    other_weight != 0,
                    other_total == other_weight * q,
                    total * other_weight == other_total * weight,
            ;
            assert(total % weight == 0 && total / weight == q) by (nonlinear_arith)
                requires
                    weight != 0,
                    total == weight * q,
            ;
        }
    }
}

/// Of two numbers in a proportion, both or neither are zero.
proof fn lemma_zero_in_proportion(a: int, factor: int, b: int, other_factor: int)
    requires
        factor != 0,
        other_factor != 0,
        factor * a == other_factor * b,
    ensures
        a == 0 <==> b == 0,
{
    assert(a == 0 <==> factor * a == 0) by (nonlinear_arith)
        requires
            factor != 0,
    ;
    assert(b == 0 <==> other_factor * b == 0) by (nonlinear_arith)
        requires
            other_factor != 0,
    ;
}

/// With weights in one proportion, the sums are in that proportion.
proof fn lemma_sums_in_proportion(
    answers: Seq<PriceAnswer>,
    price_places: nat,
    weights: Seq<Decimal>,
    factor: int,
    places: nat,
    other_weights: Seq<Decimal>,
    other_factor: int,
    other_places: nat,
    n: nat,
)
    requires
        n <= answers.len(),
        weights_in_proportion(
            answers,
            weights,
            factor,
            places,
            other_weights,
            other_factor,
            other_places,
        ),
    ensures
        factor * answered_weight(answers, weights, places, n) == other_factor * answered_weight(
            answers,
            other_weights,
            other_places,
            n,
        ),
        factor * answered_price(answers, weights, price_places, places, n) == other_factor
            * answered_price(answers, other_weights, price_places, other_places, n),
    decreases n,
{
    if n > 0 {
        let m = (n - 1) as nat;
        lemma_sums_in_proportion(
            answers,
            price_places,
            weights,
            factor,
            places,
            other_weights,
            other_factor,
            other_places,
            m,
        );
        if answers[n - 1] is Ok {
            let p = at_scale(answers[n - 1]->Ok_0, price_places);
            let w = at_scale(weights[n - 1], places);
            let v = at_scale(other_weights[n - 1], other_places);
            let sum = answered_weight(answers, weights, places, m);
            let other_sum = answered_weight(answers, other_weights, other_places, m);
            let total = answered_price(answers, weights, price_places, places, m);
            let other_total = answered_price(answers, other_weights, price_places, other_places, m);
            assert(factor * (sum + w) == other_factor * (other_sum + v)) by (nonlinear_arith)
                requires
                    factor * sum == other_factor * other_sum,
                    factor * w == other_factor * v,
            ;
            assert(factor * (total + p * w) == other_factor * (other_total + p * v))
                by (nonlinear_arith)
                requires
                    factor * total == other_factor * other_total,
                    factor * w == other_factor * v,
            ;
        }
    } else {
        assert(factor * 0 == 0 && other_factor * 0 == 0);
    }
}

/// Only the proportions of the weights count: where all are multiplied by one number that is not
/// zero, the sums behind both mixes are exact, and the mean is a decimal number, both mixes are
/// that number.
pub proof fn law_proportional_weights_mix_alike(
    answers: Seq<PriceAnswer>,
    price_places: nat,
    mean: Decimal,
    mixed: Option<PriceAnswer>,
    weights: Seq<Decimal>,
    factor: int,
    places: nat,
    other_mixed: Option<PriceAnswer>,
    other_weights: Seq<Decimal>,
    other_factor: int,
    other_places: nat,
)
    requires
        factor != 0,
        other_factor != 0,
        weights_in_proportion(
            answers,
            weights,
            factor,
            places,
            other_weights,
            other_factor,
            other_places,
        ),
        !none_answered(answers),
        is_mix(mixed, answers, weights),
        is_mix(other_mixed, answers, other_weights),
        sums_are_exact(answers, weights, price_places, places),
        sums_are_exact(answers, other_weights, price_places, other_places),
        is_decimal(mean.digits(), mean.places() as int),
        mean.digits() * (answered_weight(answers, weights, places, answers.len()) * ten_to(
            price_places,
        )) == answered_price(answers, weights, price_places, places, answers.len()) * ten_to(
            mean.places(),
        ),
    ensures
        mixed matches Some(Ok(found)) && same_value(found, mean),
        other_mixed matches Some(Ok(found)) && same_value(found, mean),
{
    let n = answers.len();
    lemma_sums_in_proportion(
        answers,
        price_places,
        weights,
        factor,
        places,
        other_weights,
        other_factor,
        other_places,
        n,
    );
    let t = answered_price(answers, weights, price_places, places, n);
    let w = answered_weight(answers, weights, places, n);
    let u = answered_price(answers, other_weights, price_places, other_places, n);
    let v = answered_weight(answers, other_weights, other_places, n);
    let unit = ten_to(price_places) as int;
    lemma_ten_to_positive(price_places);
    lemma_zero_in_proportion(w, factor, v, other_factor);
    assert(w * unit != 0 && v * unit != 0) by (nonlinear_arith)
        requires
            w != 0,
            v != 0,
            unit > 0,
    ;
    assert(t * (v * unit) == u * (w * unit)) by (nonlinear_arith)
        requires
            factor != 0,
            factor * t == other_factor * u,
            factor * w == other_factor * v,
    ;
    lemma_ratio_between_fits(mean, mean, t, w * unit);
    lemma_equal_ratios(mean.digits(), mean.places(), t, w * unit, u, v * unit);
    lemma_ratio_between_fits(mean, mean, u, v * unit);
}

/// The exchanges of a mix, each with its answer and its weight.
pub open spec fn listing(answers: Seq<PriceAnswer>, weights: Seq<Decimal>) -> Seq<
    (PriceAnswer, Decimal),
> {
    Seq::new(answers.len(), |i: int| (answers[i], weights[i]))
}

/// The sums behind a mix, and whether an exchange answered, do not depend on the order in which
/// the exchanges are listed.
pub proof fn law_order_leaves_sums(
    answers: Seq<PriceAnswer>,
    weights: Seq<Decimal>,
    other_answers: Seq<PriceAnswer>,
    other_weights: Seq<Decimal>,
    price_places: nat,
    weight_places: nat,
)
    requires
        answers.len() == weights.len(),
        other_answers.len() == other_weights.len(),
        listing(answers, weights).to_multiset() == listing(
            other_answers,
            other_weights,
        ).to_multiset(),
    ensures
        answered_price(answers, weights, price_places, weight_places, answers.len())
            == answered_price(
            other_answers,
            other_weights,
            price_places,
            weight_places,
            other_answers.len(),
        ),
        answered_weight(answers, weights, weight_places, answers.len()) == answered_weight(
            other_answers,
            other_weights,
            weight_places,
            other_answers.len(),
        ),
        none_answered(answers) == none_answered(other_answers),
{
    let a = listing(answers, weights);
    let b = listing(other_answers, other_weights);
    let price = add_price_of(price_places, weight_places);
    let weight = add_weight_of(weight_places);
    assert(commutative_foldl(price));
    assert(commutative_foldl(weight));
    lemma_fold_left_permutation(a, b, price, 0);
    lemma_fold_left_permutation(a, b, weight, 0);
    lemma_sums_are_folds(answers, weights, price_places, weight_places, answers.len());
    lemma_sums_are_folds(
        other_answers,
        other_weights,
        price_places,
        weight_places,
        other_answers.len(),
    );
    assert(a.take(answers.len() as int) =~= a);
    assert(b.take(other_answers.len() as int) =~= b);
    if none_answered(answers) {
        lemma_none_answered_elsewhere(answers, weights, other_answers, other_weights);
    }
    if none_answered(other_answers) {
        lemma_none_answered_elsewhere(other_answers, other_weights, answers, weights);
    }
}

/// Adds the weighted price of an exchange, if it answered.
spec fn add_price_of(price_places: nat, weight_places: nat) -> spec_fn(
    int,
    (PriceAnswer, Decimal),
) -> int {
    |sum: int, exchange: (PriceAnswer, Decimal)|
        sum + if exchange.0 is Ok {
            at_scale(exchange.0->Ok_0, price_places) * at_scale(exchange.1, weight_places)
        } else {
            0
        }
}

/// Adds the weight of an exchange, if it answered.
spec fn add_weight_of(weight_places: nat) -> spec_fn(int, (PriceAnswer, Decimal)) -> int {
    |sum: int, exchange: (PriceAnswer, Decimal)|
        sum + if exchange.0 is Ok {
            at_scale(exchange.1, weight_places)
        } else {
            0
        }
}

/// The sums of the first `n` exchanges are folds over their listing.
proof fn lemma_sums_are_folds(
    answers: Seq<PriceAnswer>,
    weights: Seq<Decimal>,
    price_places: nat,
    weight_places: nat,
    n: nat,
)
    requires
        n <= answers.len(),
    ensures
        answered_price(answers, weights, price_places, weight_places, n) == listing(
            answers,
            weights,
        ).take(n as int).fold_left(0, add_price_of(price_places, weight_places)),
        answered_weight(answers, weights, weight_places, n) == listing(answers, weights).take(
            n as int,
        ).fold_left(0, add_weight_of(weight_places)),
    decreases n,
{
    if n > 0 {
        let all = listing(answers, weights);
        lemma_sums_are_folds(answers, weights, price_places, weight_places, (n - 1) as nat);
        assert(all.take(n as int).drop_last() =~= all.take(n - 1));
        assert(all.take(n as int).last() == all[n - 1]);
    }
}

/// Where no exchange of a listing answered, none of another order of it did.
proof fn lemma_none_answered_elsewhere(
    answers: Seq<PriceAnswer>,
    weights: Seq<Decimal>,
    other_answers: Seq<PriceAnswer>,
    other_weights: Seq<Decimal>,
)
    requires
        none_answered(answers),
        listing(answers, weights).to_multiset() == listing(
            other_answers,
            other_weights,
        ).to_multiset(),
    ensures
        none_answered(other_answers),
{
    let a = listing(answers, weights);
    let b = listing(other_answers, other_weights);
    assert forall|i: int| 0 <= i < other_answers.len() implies (
    #[trigger] other_answers[i]) is Err by {
        broadcast use group_to_multiset_ensures;

        assert(b.contains(b[i]));
        assert(b.to_multiset().count(b[i]) > 0);
        assert(a.to_multiset().count(b[i]) > 0);
        let j = choose|j: int| 0 <= j < a.len() && a[j] == b[i];
        assert(answers[j] is Err);
    }
}

/// The order in which the exchanges are listed does not count: where the sums behind both mixes
/// are exact, and the mean is a decimal number, both mixes are that number.
pub proof fn law_order_does_not_count(
    answers: Seq<PriceAnswer>,
    weights: Seq<Decimal>,
    mixed: Option<PriceAnswer>,
    other_answers: Seq<PriceAnswer>,
    other_weights: Seq<Decimal>,
    other_mixed: Option<PriceAnswer>,
    price_places: nat,
    weight_places: nat,
    mean: Decimal,
)
    requires
        answers.len() == weights.len(),
        other_answers.len() == other_weights.len(),
        listing(answers, weights).to_multiset() == listing(
            other_answers,
            other_weights,
        ).to_multiset(),
        !none_answered(answers),
        is_mix(mixed, answers, weights),
        is_mix(other_mixed, other_answers, other_weights),
        sums_are_exact(answers, weights, price_places, weight_places),
        sums_are_exact(other_answers, other_weights, price_places, weight_places),
        is_decimal(mean.digits(), mean.places() as int),
        mean.digits() * (answered_weight(answers, weights, weight_places, answers.len()) * ten_to(
            price_places,
        )) == answered_price(answers, weights, price_places, weight_places, answers.len()) * ten_to(
            mean.places(),
        ),
    ensures
        mixed matches Some(Ok(found)) && same_value(found, mean),
        other_mixed matches Some(Ok(found)) && same_value(found, mean),
{
    law_order_leaves_sums(
        answers,
        weights,
        other_answers,
        other_weights,
        price_places,
        weight_places,
    );
    let total = answered_price(answers, weights, price_places, weight_places, answers.len());
    let weight = answered_weight(answers, weights, weight_places, answers.len());
    let unit = ten_to(price_places) as int;
    lemma_ten_to_positive(price_places);
    assert(weight * unit != 0) by (nonlinear_arith)
        requires
            weight != 0,
            unit > 0,
    ;
    assert(at_most_ratio(mean.digits(), mean.places(), total, weight * unit));
    assert(at_least_ratio(mean.digits(), mean.places(), total, weight * unit));
    lemma_ratio_between_fits(mean, mean, total, weight * unit);
}

/// A ratio between two decimal numbers lies within their range.
proof fn lemma_ratio_between_fits(low: Decimal, high: Decimal, numerator: int, denominator: int)
    requires
        denominator != 0,
        is_decimal(low.digits(), low.places() as int),
        is_decimal(high.digits(), high.places() as int),
        at_most_ratio(low.digits(), low.places(), numerator, denominator),
        at_least_ratio(high.digits(), high.places(), numerator, denominator),
    ensures
        ratio_fits(numerator, denominator),
{
    let m = MAX_MANTISSA as int;
    let t = ten_to(low.places()) as int;
    let u = ten_to(high.places()) as int;
    lemma_ten_to_positive(low.places());
    lemma_ten_to_positive(high.places());
    let l = low.digits();
    let h = high.digits();
    if denominator > 0 {
        assert(-(m * denominator) <= numerator) by (nonlinear_arith)
            requires
                denominator > 0,
                l * denominator <= numerator * t,
                -m <= l,
                t >= 1,
                m > 0,
        ;
        assert(numerator <= m * denominator) by (nonlinear_arith)
            requires
                denominator > 0,
                h * denominator >= numerator * u,
                h <= m,
                u >= 1,
                m > 0,
        ;
    } else {
        let d = -denominator;
        assert(numerator <= m * d) by (nonlinear_arith)
            requires
                d > 0,
                l * (-d) >= numerator * t,
                -m <= l,
                t >= 1,
                m > 0,
        ;
        assert(-(m * d) <= numerator) by (nonlinear_arith)
            requires
                d > 0,
                h * (-d) <= numerator * u,
                h <= m,
                u >= 1,
                m > 0,
        ;
    }
}

/// With weights that are not negative, and exact sums, there is a mix, and it lies between any two
/// numbers that the answered prices lie between, such as the smallest and the largest of them. A
/// price whose weight is zero has no influence.
pub proof fn law_mean_within_prices(
    mixed: Option<PriceAnswer>,
    answers: Seq<PriceAnswer>,
    weights: Seq<Decimal>,
    price_places: nat,
    weight_places: nat,
    low: Decimal,
    high: Decimal,
)
    requires
        is_mix(mixed, answers, weights),
        sums_are_exact(answers, weights, price_places, weight_places),
        !none_answered(answers),
        is_decimal(low.digits(), low.places() as int),
        is_decimal(high.digits(), high.places() as int),
        forall|i: int|
            0 <= i < answers.len() && (#[trigger] answers[i]) is Ok ==> {
                &&& weights[i].digits() >= 0
                &&& weights[i].digits() != 0 ==> not_above(low, answers[i]->Ok_0) && not_above(
                    answers[i]->Ok_0,
                    high,
                )
            },
    ensures
        mixed matches Some(Ok(mean)) && not_above(low, mean) && not_above(mean, high),
{
    let n = answers.len();
    lemma_answered_weight_grows(answers, weights, weight_places, 0, n);
    lemma_sum_within(answers, weights, price_places, weight_places, low, high, n);
    let total = answered_price(answers, weights, price_places, weight_places, n);
    let weight = answered_weight(answers, weights, weight_places, n);
    let unit = ten_to(price_places) as int;
    lemma_ten_to_positive(price_places);
    assert(weight * unit > 0) by (nonlinear_arith)
        requires
            weight > 0,
            unit > 0,
    ;
    assert(at_most_ratio(low.digits(), low.places(), total, weight * unit));
    assert(at_least_ratio(high.digits(), high.places(), total, weight * unit));
    lemma_ratio_between_fits(low, high, total, weight * unit);
}

/// A weighted sum of prices between two numbers lies between these numbers times the weights,
/// whatever the prices are whose weight is zero.
proof fn lemma_sum_within(
    answers: Seq<PriceAnswer>,
    weights: Seq<Decimal>,
    price_places: nat,
    weight_places: nat,
    low: Decimal,
    high: Decimal,
    n: nat,
)
    requires
        n <= answers.len(),
        forall|i: int|
            0 <= i < answers.len() && (#[trigger] answers[i]) is Ok ==> {
                &&& answers[i]->Ok_0.places() <= price_places
                &&& weights[i].digits() >= 0
                &&& weights[i].digits() != 0 ==> not_above(low, answers[i]->Ok_0) && not_above(
                    answers[i]->Ok_0,
                    high,
                )
            },
    ensures
        low.digits() * (answered_weight(answers, weights, weight_places, n) * ten_to(price_places))
            <= answered_price(answers, weights, price_places, weight_places, n) * ten_to(
            low.places(),
        ),
        high.digits() * (answered_weight(answers, weights, weight_places, n) * ten_to(price_places))
            >= answered_price(answers, weights, price_places, weight_places, n) * ten_to(
            high.places(),
        ),
    decreases n,
{
    let unit = ten_to(price_places) as int;
    let t = ten_to(low.places()) as int;
    let u = ten_to(high.places()) as int;
    let l = low.digits();
    let h = high.digits();
    if n > 0 {
        let m = (n - 1) as nat;
        lemma_sum_within(answers, weights, price_places, weight_places, low, high, m);
        let weight = answered_weight(answers, weights, weight_places, m);
        let total = answered_price(answers, weights, price_places, weight_places, m);
        if answers[n - 1] is Ok {
            let price = answers[n - 1]->Ok_0;
            let zeros = (price_places - price.places()) as nat;
            lemma_ten_to_sum(price.places(), zeros);
            lemma_ten_to_positive(zeros);
            lemma_ten_to_positive((weight_places - weights[n - 1].places()) as nat);
            let d = price.digits();
            let x = ten_to(price.places()) as int;
            let z = ten_to(zeros) as int;
            let v = ten_to((weight_places - weights[n - 1].places()) as nat) as int;
            let w = weights[n - 1].digits() * v;
            assert(w >= 0) by (nonlinear_arith)
                requires
                    weights[n - 1].digits() >= 0,
                    v > 0,
                    w == weights[n - 1].digits() * v,
            ;
            assert((-h) * (w * (x * z)) == -(h * (w * (x * z))) && ((-d) * z * w) * u == -((d * z
                * w) * u) && (-h) * x == -(h * x) && (-d) * u == -(d * u)) by (nonlinear_arith);
            if w != 0 {
                assert(weights[n - 1].digits() != 0) by (nonlinear_arith)
                    requires
                        w != 0,
                        w == weights[n - 1].digits() * v,
                ;
                lemma_term_within(l, x, d, t, z, w);
                lemma_term_within(-h, x, -d, u, z, w);
            } else {
                assert(l * (w * (x * z)) == 0 && h * (w * (x * z)) == 0 && (d * z * w) * t == 0
                    && (d * z * w) * u == 0) by (nonlinear_arith)
                    requires
                        w == 0,
                ;
            }
            assert(l * ((weight + w) * unit) == l * (weight * unit) + l * (w * unit))
                by (nonlinear_arith);
            assert(h * ((weight + w) * unit) == h * (weight * unit) + h * (w * unit))
                by (nonlinear_arith);
            assert((total + d * z * w) * t == total * t + (d * z * w) * t) by (nonlinear_arith);
            assert((total + d * z * w) * u == total * u + (d * z * w) * u) by (nonlinear_arith);
        }
    } else {
        assert(l * (0 * unit) == 0 && h * (0 * unit) == 0 && 0 * t == 0 && 0 * u == 0)
            by (nonlinear_arith);
    }
}

/// What holds of a price holds of the price times a weight.
proof fn lemma_term_within(low: int, unit: int, digits: int, low_unit: int, zeros: int, weight: int)
    requires
        low * unit <= digits * low_unit,
        zeros > 0,
        weight >= 0,
    ensures
        low * (weight * (unit * zeros)) <= (digits * zeros * weight) * low_unit,
{
    let less = low * unit;
    let more = digits * low_unit;
    assert(less * (zeros * weight) <= more * (zeros * weight)) by (nonlinear_arith)
        requires
            less <= more,
            zeros > 0,
            weight >= 0,
    ;
    assert(low * (weight * (unit * zeros)) == (low * unit) * (zeros * weight)) by (nonlinear_arith);
    assert((digits * zeros * weight) * low_unit == (digits * low_unit) * (zeros * weight))
        by (nonlinear_arith);
}

} // verus!
